use vstd::prelude::*;

use crate::text::{
    chars_of, find_char, index_of, lemma_index_of, lemma_index_of_at, lemma_index_of_none,
    lemma_trim_commutes, lemma_trim_end_concat, is_white, is_white_char, parse_i32, parse_i32_range, push_range,
    push_str, range_equals, split_once, str_equals, views, lemma_views_push, lowercase, to_lowercase,
    fields, split_fields,
    string_of, trim, trim_bounds, trim_end, trim_end_bound, trim_start, trim_start_bound,
};

verus! {

/// The map a list of `(key, value)` pairs stands for: each key with the last
/// value given to it.
pub open spec fn pairs_map(ps: Seq<(String, String)>) -> Map<Seq<char>, Seq<char>>
    decreases ps.len(),
{
    if ps.len() == 0 {
        Map::empty()
    } else {
        pairs_map(ps.drop_last()).insert(ps.last().0@, ps.last().1@)
    }
}

/// The value of `key`, if the map has one.
pub open spec fn entry_value(m: Map<Seq<char>, Seq<char>>, key: Seq<char>) -> Option<Seq<char>> {
    if m.contains_key(key) {
        Some(m[key])
    } else {
        None
    }
}

/// The header of the one group the reader keeps.
pub open spec fn group_header() -> Seq<char> {
    "[Desktop Entry]"@
}

/// Where the line starting at `i` ends: the next `\n`, or the end of `s`.
pub open spec fn line_end(s: Seq<char>, i: int) -> int {
    match index_of(s.subrange(i, s.len() as int), '\n') {
        Some(j) => i + j,
        None => s.len() as int,
    }
}

/// One line read into the map `m`, inside the group when `in_group`: what the
/// map and the group flag are afterwards.
pub open spec fn read_line(raw: Seq<char>, m: Map<Seq<char>, Seq<char>>, in_group: bool) -> (
    Map<Seq<char>, Seq<char>>,
    bool,
) {
    let line = trim(raw);
    if line.len() == 0 || line[0] == '#' {
        (m, in_group)
    } else if line[0] == '[' {
        (m, line == group_header())
    } else {
        match split_once(line, '=') {
            Some((key, value)) => {
                if in_group {
                    (m.insert(trim_end(key), trim_start(value)), in_group)
                } else {
                    (m, in_group)
                }
            },
            None => (m, in_group),
        }
    }
}

/// The lines of `s` from position `i` on, read into `m`.
pub open spec fn read_from(s: Seq<char>, i: int, in_group: bool, m: Map<Seq<char>, Seq<char>>) -> Map<
    Seq<char>,
    Seq<char>,
>
    decreases s.len() + 1 - i,
{
    if i < 0 || i > s.len() {
        m
    } else {
        let e = line_end(s, i);
        let (m2, g2) = read_line(s.subrange(i, e), m, in_group);
        if e < i || e > s.len() {
            m2
        } else {
            read_from(s, e + 1, g2, m2)
        }
    }
}

/// The keys of a `.desktop` file: every `key=value` line of its
/// `[Desktop Entry]` group, key and value trimmed, the last one winning.
/// Blank lines, comments and every other group are left out.
pub open spec fn parsed(content: Seq<char>) -> Map<Seq<char>, Seq<char>> {
    read_from(content, 0, false, Map::empty())
}

/// A scan from the back that has passed `ps[i..]` without meeting `key`
/// sees the same map as `ps[..i]` does.
pub proof fn lemma_pairs_map_prefix(ps: Seq<(String, String)>, i: int, key: Seq<char>)
    requires
        0 <= i <= ps.len(),
        forall|j: int| i <= j < ps.len() ==> (#[trigger] ps[j]).0@ != key,
    ensures
        pairs_map(ps).contains_key(key) == pairs_map(ps.take(i)).contains_key(key),
        pairs_map(ps).contains_key(key) ==> pairs_map(ps)[key] == pairs_map(ps.take(i))[key],
    decreases ps.len() - i,
{
    if i < ps.len() {
        let t = ps.drop_last();
        assert(ps.last() == ps[ps.len() - 1]);
        lemma_pairs_map_prefix(t, i, key);
        assert(t.take(i) =~= ps.take(i));
    } else {
        assert(ps.take(i) =~= ps);
    }
}

/// What the escape sequence `\c` of a string value stands for: `\s`, `\n`,
/// `\t`, `\r`, `\\` and `\;` are replaced, any other one is kept as written.
pub open spec fn escaped(c: char) -> Seq<char> {
    if c == 's' {
        seq![' ']
    } else if c == 'n' {
        seq!['\n']
    } else if c == 't' {
        seq!['\t']
    } else if c == 'r' {
        seq!['\r']
    } else if c == '\\' {
        seq!['\\']
    } else if c == ';' {
        seq![';']
    } else {
        seq!['\\', c]
    }
}

/// A string value with its escape sequences resolved; a lone trailing
/// backslash stays.
pub open spec fn unescaped(s: Seq<char>) -> Seq<char>
    decreases s.len(),
{
    if s.len() == 0 {
        seq![]
    } else if s[0] == '\\' {
        if s.len() == 1 {
            seq!['\\']
        } else {
            escaped(s[1]) + unescaped(s.skip(2))
        }
    } else {
        seq![s[0]] + unescaped(s.skip(1))
    }
}

/// A `boolean` value: `true` and `false`, nothing else.
pub open spec fn bool_value(m: Map<Seq<char>, Seq<char>>, key: Seq<char>) -> Option<bool> {
    match entry_value(m, key) {
        Some(v) => if v == "true"@ {
            Some(true)
        } else if v == "false"@ {
            Some(false)
        } else {
            None
        },
        None => None,
    }
}

/// An `integer` value, read as `i32::from_str` reads it.
pub open spec fn int_value(m: Map<Seq<char>, Seq<char>>, key: Seq<char>) -> Option<i32> {
    match entry_value(m, key) {
        Some(v) => parse_i32(v),
        None => None,
    }
}

fn push_escaped(r: &mut String, c: char)
    ensures
        final(r)@ == old(r)@ + escaped(c),
{
    let ghost r0 = r@;
    if c == 's' {
        r.push(' ');
    } else if c == 'n' {
        r.push('\n');
    } else if c == 't' {
        r.push('\t');
    } else if c == 'r' {
        r.push('\r');
    } else if c == '\\' {
        r.push('\\');
    } else if c == ';' {
        r.push(';');
    } else {
        r.push('\\');
        r.push(c);
    }
    assert(r@ =~= r0 + escaped(c));
}

/// The text of the escape sequence `\c`.
pub fn unescape_char(c: char) -> (r: String)
    ensures
        r@ == escaped(c),
{
    let mut r = String::new();
    push_escaped(&mut r, c);
    assert(r@ =~= escaped(c));
    r
}

/// Appends `v[a..b]` with its escape sequences resolved.
fn push_unescaped(r: &mut String, v: &Vec<char>, a: usize, b: usize)
    requires
        a <= b <= v@.len(),
    ensures
        final(r)@ == old(r)@ + unescaped(v@.subrange(a as int, b as int)),
{
    let mut i: usize = a;
    while i < b
        invariant
            a <= i <= b <= v@.len(),
            r@ + unescaped(v@.subrange(i as int, b as int)) == old(r)@ + unescaped(
                v@.subrange(a as int, b as int),
            ),
        decreases b - i,
    {
        let ghost r0 = r@;
        let ghost rest = v@.subrange(i as int, b as int);
        if v[i] == '\\' {
            if i + 1 == b {
                r.push('\\');
                i = b;
                assert(r@ =~= r0 + unescaped(rest));
            } else {
                push_escaped(r, v[i + 1]);
                assert(rest.skip(2) =~= v@.subrange(i + 2, b as int));
                i = i + 2;
                assert(r@ + unescaped(v@.subrange(i as int, b as int)) =~= r0 + unescaped(rest));
            }
        } else {
            r.push(v[i]);
            assert(rest.skip(1) =~= v@.subrange(i + 1, b as int));
            i = i + 1;
            assert(r@ + unescaped(v@.subrange(i as int, b as int)) =~= r0 + unescaped(rest));
        }
    }
    assert(unescaped(v@.subrange(b as int, b as int)) =~= Seq::<char>::empty());
    assert(r@ =~= old(r)@ + unescaped(v@.subrange(a as int, b as int)));
}

/// A string value with its escape sequences resolved.
pub fn unescape(value: &str) -> (r: String)
    ensures
        r@ == unescaped(value@),
{
    let v = chars_of(value);
    let mut r = String::new();
    push_unescaped(&mut r, &v, 0, v.len());
    assert(v@.subrange(0, v@.len() as int) =~= v@);
    assert(r@ =~= unescaped(value@));
    r
}

/// The items of a `;` separated list read from `s` on, `cur` being the item
/// read so far: `\;` is a literal semicolon, escapes are resolved inside the
/// items, and a last empty item is dropped.
pub open spec fn list_items_from(s: Seq<char>, cur: Seq<char>) -> Seq<Seq<char>>
    decreases s.len(),
{
    if s.len() == 0 {
        if cur.len() > 0 {
            seq![cur]
        } else {
            seq![]
        }
    } else if s[0] == '\\' {
        if s.len() == 1 {
            list_items_from(s.skip(1), cur.push('\\'))
        } else {
            list_items_from(s.skip(2), cur + escaped(s[1]))
        }
    } else if s[0] == ';' {
        seq![cur] + list_items_from(s.skip(1), seq![])
    } else {
        list_items_from(s.skip(1), cur.push(s[0]))
    }
}

/// The items of a `;` separated list value.
pub open spec fn list_items(s: Seq<char>) -> Seq<Seq<char>> {
    list_items_from(s, seq![])
}

/// The words of an `Exec` value read from `s` on, `cur` being the word read
/// so far and `quoted` telling whether a `"` is open: quotes group words,
/// `%%` is a literal `%` and every other field code is dropped.
pub open spec fn argv_from(s: Seq<char>, cur: Seq<char>, quoted: bool) -> Seq<Seq<char>>
    decreases s.len(),
{
    if s.len() == 0 {
        if cur.len() > 0 {
            seq![cur]
        } else {
            seq![]
        }
    } else if s[0] == '"' {
        argv_from(s.skip(1), cur, !quoted)
    } else if s[0] == '\\' {
        if s.len() == 1 {
            argv_from(s.skip(1), cur, quoted)
        } else if quoted {
            argv_from(s.skip(2), cur.push(s[1]), quoted)
        } else {
            argv_from(s.skip(2), cur + escaped(s[1]), quoted)
        }
    } else if s[0] == '%' {
        if s.len() == 1 {
            argv_from(s.skip(1), cur, quoted)
        } else if s[1] == '%' {
            argv_from(s.skip(2), cur.push('%'), quoted)
        } else {
            argv_from(s.skip(2), cur, quoted)
        }
    } else if is_white(s[0]) && !quoted {
        if cur.len() > 0 {
            seq![cur] + argv_from(s.skip(1), seq![], quoted)
        } else {
            argv_from(s.skip(1), cur, quoted)
        }
    } else {
        argv_from(s.skip(1), cur.push(s[0]), quoted)
    }
}

/// The argv an `Exec` value stands for.
pub open spec fn exec_words(s: Seq<char>) -> Seq<Seq<char>> {
    argv_from(s, seq![], false)
}

/// `s` up to its first `c`, all of it when there is none.
pub open spec fn before(s: Seq<char>, c: char) -> Seq<char> {
    match index_of(s, c) {
        Some(i) => s.take(i),
        None => s,
    }
}

/// The lookup order of localized keys for a `lang_COUNTRY.ENCODING@MODIFIER`
/// locale: `lang_COUNTRY@MODIFIER`, `lang_COUNTRY`, `lang@MODIFIER`, `lang`,
/// each only when the locale has the parts it is made of.
pub open spec fn locale_chain(locale: Seq<char>) -> Seq<Seq<char>> {
    let head = before(locale, '@');
    let modifier: Option<Seq<char>> = match split_once(locale, '@') {
        Some((_, m)) => Some(m),
        None => None,
    };
    let base = before(head, '.');
    let lang = before(base, '_');
    let country: Seq<Seq<char>> = if base != lang {
        match modifier {
            Some(m) => seq![base + seq!['@'] + m, base],
            None => seq![base],
        }
    } else {
        seq![]
    };
    let lang_modifier: Seq<Seq<char>> = match modifier {
        Some(m) => seq![lang + seq!['@'] + m],
        None => seq![],
    };
    let bare: Seq<Seq<char>> = if lang.len() > 0 {
        seq![lang]
    } else {
        seq![]
    };
    country + lang_modifier + bare
}

/// The key `key[candidate]` a localized value is stored under.
pub open spec fn localized_key(key: Seq<char>, candidate: Seq<char>) -> Seq<char> {
    key + seq!['['] + candidate + seq![']']
}

/// The value of the first `key[candidate]` present, unescaped, down to the
/// plain `key`.
pub open spec fn localized_in(m: Map<Seq<char>, Seq<char>>, key: Seq<char>, candidates: Seq<Seq<char>>) -> Option<Seq<char>>
    decreases candidates.len(),
{
    if candidates.len() == 0 {
        match entry_value(m, key) {
            Some(v) => Some(unescaped(v)),
            None => None,
        }
    } else {
        match entry_value(m, localized_key(key, candidates[0])) {
            Some(v) => Some(unescaped(v)),
            None => localized_in(m, key, candidates.drop_first()),
        }
    }
}

/// `v[..e]`, where `e` is the first `c` in `v[..b]` or `b` itself.
fn before_bound(v: &Vec<char>, b: usize, c: char) -> (e: usize)
    requires
        b <= v@.len(),
    ensures
        e <= b,
        v@.subrange(0, e as int) == before(v@.subrange(0, b as int), c),
{
    match find_char(v, 0, b, c) {
        Some(i) => {
            assert(v@.subrange(0, b as int).take(i as int) =~= v@.subrange(0, i as int));
            i
        },
        None => b,
    }
}

/// Reduces a `lang_COUNTRY.ENCODING@MODIFIER` locale to the lookup order the
/// spec prescribes: `lang_COUNTRY@MODIFIER`, `lang_COUNTRY`, `lang@MODIFIER`,
/// `lang`. The encoding never takes part in the match.
pub fn locale_candidates(locale: &str) -> (r: Vec<String>)
    ensures
        views(r@) == locale_chain(locale@),
{
    let v = chars_of(locale);
    let n = v.len();
    assert(v@.subrange(0, n as int) =~= v@);
    let at = find_char(&v, 0, n, '@');
    let head_end = before_bound(&v, n, '@');
    let base_end = before_bound(&v, head_end, '.');
    let lang_end = before_bound(&v, base_end, '_');
    let ghost head = v@.subrange(0, head_end as int);
    let ghost base = v@.subrange(0, base_end as int);
    let ghost lang = v@.subrange(0, lang_end as int);
    let ghost modifier: Option<Seq<char>> = match at {
        Some(i) => Some(v@.subrange(i + 1, n as int)),
        None => None,
    };
    proof {
        assert(head == before(v@, '@'));
        assert(base == before(head, '.'));
        assert(lang == before(base, '_'));
        match at {
            Some(i) => {
                assert(v@.skip(i + 1) =~= v@.subrange(i + 1, n as int));
                assert(split_once(v@, '@') == Some((v@.take(i as int), v@.skip(i + 1))));
            },
            None => {
                assert(split_once(v@, '@') is None);
            },
        }
        if lang_end == base_end {
            assert(lang =~= base);
        } else {
            assert(lang.len() != base.len());
        }
    }
    let ghost country: Seq<Seq<char>> = if base != lang {
        match modifier {
            Some(m) => seq![base + seq!['@'] + m, base],
            None => seq![base],
        }
    } else {
        seq![]
    };
    let ghost lang_modifier: Seq<Seq<char>> = match modifier {
        Some(m) => seq![lang + seq!['@'] + m],
        None => seq![],
    };
    let ghost bare: Seq<Seq<char>> = if lang.len() > 0 {
        seq![lang]
    } else {
        seq![]
    };
    assert(locale_chain(v@) == country + lang_modifier + bare);
    let mut r: Vec<String> = Vec::new();
    assert(views(r@) =~= Seq::<Seq<char>>::empty());
    let ghost expected = locale_chain(v@);
    if lang_end != base_end {
        match at {
            Some(i) => {
                let mut c = string_of(&v, 0, base_end);
                c.push('@');
                push_range(&mut c, &v, i + 1, n);
                assert(c@ =~= base + seq!['@'] + modifier->0);
                proof {
                    lemma_views_push(r@, c);
                }
                r.push(c);
            },
            None => {},
        }
        let c = string_of(&v, 0, base_end);
        proof {
            lemma_views_push(r@, c);
        }
        r.push(c);
    }
    assert(views(r@) =~= country);
    match at {
        Some(i) => {
            let mut c = string_of(&v, 0, lang_end);
            c.push('@');
            push_range(&mut c, &v, i + 1, n);
            assert(c@ =~= lang + seq!['@'] + modifier->0);
            proof {
                lemma_views_push(r@, c);
            }
            r.push(c);
        },
        None => {},
    }
    assert(views(r@) =~= country + lang_modifier);
    if lang_end > 0 {
        let c = string_of(&v, 0, lang_end);
        proof {
            lemma_views_push(r@, c);
        }
        r.push(c);
    }
    assert(views(r@) =~= expected);
    r
}

/// The items of the list value of `key`, none when it is not set.
pub open spec fn list_value(m: Map<Seq<char>, Seq<char>>, key: Seq<char>) -> Seq<Seq<char>> {
    match entry_value(m, key) {
        Some(v) => list_items(v),
        None => seq![],
    }
}

/// Whether one of `items` is among `desktops`.
pub open spec fn shares_item(items: Seq<Seq<char>>, desktops: Seq<Seq<char>>) -> bool {
    exists|i: int| 0 <= i < items.len() && desktops.contains(#[trigger] items[i])
}

/// Each of `s`, lowercased.
pub open spec fn lowered(s: Seq<Seq<char>>) -> Seq<Seq<char>> {
    s.map_values(|d: Seq<char>| lowercase(d))
}

/// Why an entry is not to be launched, `None` when it is, on the desktops
/// and the `OnlyShowIn` and `NotShowIn` items all lowercased.
/// `try_exec_found` tells whether the `TryExec` binary, if the entry names
/// one, is there.
pub open spec fn refusal_on(
    m: Map<Seq<char>, Seq<char>>,
    desktops: Seq<Seq<char>>,
    only_show_in: Seq<Seq<char>>,
    not_show_in: Seq<Seq<char>>,
    try_exec_found: bool,
) -> Option<Seq<char>> {
    if entry_value(m, "Type"@) != Some("Application"@) {
        Some("Type is not Application"@)
    } else if bool_value(m, "Hidden"@) == Some(true) {
        Some("Hidden is true"@)
    } else if bool_value(m, "X-XFCE-Autostart-Override"@) != Some(true) && bool_value(
        m,
        "X-GNOME-Autostart-enabled"@,
    ) == Some(false) {
        Some("X-GNOME-Autostart-enabled is false"@)
    } else if m.contains_key("RunHook"@) && int_value(m, "RunHook"@) is Some && int_value(
        m,
        "RunHook"@,
    ) != Some(0i32) {
        None
    } else if only_show_in.len() > 0 && !shares_item(only_show_in, desktops) {
        Some("OnlyShowIn does not match the current desktop"@)
    } else if shares_item(not_show_in, desktops) {
        Some("NotShowIn matches the current desktop"@)
    } else if m.contains_key("TryExec"@) && !try_exec_found {
        Some("TryExec binary not found"@)
    } else {
        None
    }
}

/// Why an entry is not to be launched on `desktops`, `None` when it is:
/// desktops and listed items are matched lowercased.
pub open spec fn autostart_refusal(
    m: Map<Seq<char>, Seq<char>>,
    desktops: Seq<Seq<char>>,
    try_exec_found: bool,
) -> Option<Seq<char>> {
    refusal_on(
        m,
        lowered(desktops),
        lowered(list_value(m, "OnlyShowIn"@)),
        lowered(list_value(m, "NotShowIn"@)),
        try_exec_found,
    )
}

/// The desktops `$XDG_CURRENT_DESKTOP` names, `niri` and `XFCE` when it
/// names none.
pub open spec fn desktops_named(var: Seq<char>) -> Seq<Seq<char>> {
    if fields(var, ':').len() == 0 {
        seq!["niri"@, "XFCE"@]
    } else {
        fields(var, ':')
    }
}

/// `$XDG_CURRENT_DESKTOP` split on `:`, as matched against `OnlyShowIn` and
/// `NotShowIn`; `var` is the variable's value, `None` when it is unset.
pub fn current_desktops(var: Option<&str>) -> (r: Vec<String>)
    ensures
        views(r@) == desktops_named(
            match var {
                Some(v) => v@,
                None => Seq::<char>::empty(),
            },
        ),
{
    let value: &str = match var {
        Some(v) => v,
        None => "",
    };
    proof {
        if var is None {
            reveal_strlit("");
            assert(value@ =~= Seq::<char>::empty());
        }
    }
    let desktops = split_fields(value, ':');
    if desktops.len() == 0 {
        let mut r: Vec<String> = Vec::new();
        let a = "niri".to_owned();
        let b = "XFCE".to_owned();
        proof {
            lemma_views_push(r@, a);
        }
        r.push(a);
        proof {
            lemma_views_push(r@, b);
        }
        r.push(b);
        assert(views(r@) =~= seq!["niri"@, "XFCE"@]);
        r
    } else {
        desktops
    }
}

/// Each of `items`, lowercased.
fn lowercased(items: &[String]) -> (r: Vec<String>)
    ensures
        views(r@) == lowered(views(items@)),
{
    let mut r: Vec<String> = Vec::new();
    let mut i: usize = 0;
    while i < items.len()
        invariant
            i <= items@.len(),
            views(r@) == lowered(views(items@).take(i as int)),
        decreases items@.len() - i,
    {
        let d = to_lowercase(items[i].as_str());
        proof {
            lemma_views_push(r@, d);
        }
        r.push(d);
        i = i + 1;
        assert(views(r@) =~= lowered(views(items@).take(i as int)));
    }
    assert(views(items@).take(i as int) =~= views(items@));
    r
}

/// Whether one of `items` is among `desktops`.
fn shares(items: &[String], desktops: &[String]) -> (r: bool)
    ensures
        r == shares_item(views(items@), views(desktops@)),
{
    let mut i: usize = 0;
    while i < items.len()
        invariant
            i <= items@.len(),
            forall|k: int| 0 <= k < i ==> !views(desktops@).contains(#[trigger] views(items@)[k]),
        decreases items@.len() - i,
    {
        let mut j: usize = 0;
        while j < desktops.len()
            invariant
                i < items@.len(),
                j <= desktops@.len(),
                forall|k: int| 0 <= k < j ==> desktops@[k]@ != items@[i as int]@,
            decreases desktops@.len() - j,
        {
            if str_equals(desktops[j].as_str(), items[i].as_str()) {
                proof {
                    assert(views(desktops@)[j as int] == views(items@)[i as int]);
                    assert(views(desktops@).contains(views(items@)[i as int]));
                }
                return true;
            }
            j = j + 1;
        }
        proof {
            assert forall|k: int| 0 <= k < views(desktops@).len() implies views(desktops@)[k]
                != views(items@)[i as int] by {
                assert(views(desktops@)[k] == desktops@[k]@);
            }
        }
        i = i + 1;
    }
    false
}

/// The key-value lines of a `.desktop` file's `[Desktop Entry]` group.
#[derive(Clone, Debug)]
pub struct DesktopEntry {
    entries: Vec<(String, String)>,
}

impl View for DesktopEntry {
    type V = Map<Seq<char>, Seq<char>>;

    closed spec fn view(&self) -> Map<Seq<char>, Seq<char>> {
        pairs_map(self.entries@)
    }
}

impl Default for DesktopEntry {
    /// An entry with no keys.
    fn default() -> (r: DesktopEntry)
        ensures
            r@ == Map::<Seq<char>, Seq<char>>::empty(),
    {
        DesktopEntry { entries: Vec::new() }
    }
}

impl DesktopEntry {
    /// Reads `content` as a `.desktop` file.
    pub fn parse(content: &str) -> (r: DesktopEntry)
        ensures
            r@ == parsed(content@),
    {
        let v = chars_of(content);
        let header = chars_of("[Desktop Entry]");
        let n = v.len();
        let mut entries: Vec<(String, String)> = Vec::new();
        let mut in_group = false;
        let mut start: usize = 0;
        assert(pairs_map(entries@) == Map::<Seq<char>, Seq<char>>::empty());
        loop
            invariant_except_break
                read_from(v@, start as int, in_group, pairs_map(entries@)) == parsed(v@),
            invariant
                n == v@.len(),
                v@ == content@,
                header@ == group_header(),
                start <= n,
            ensures
                pairs_map(entries@) == parsed(v@),
            decreases n - start,
        {
            let end = match find_char(&v, start, n, '\n') {
                Some(i) => i,
                None => n,
            };
            let ghost m0 = pairs_map(entries@);
            let ghost g0 = in_group;
            let ghost raw = v@.subrange(start as int, end as int);
            assert(end as int == line_end(v@, start as int));
            let (a, b) = trim_bounds(&v, start, end);
            let ghost line = v@.subrange(a as int, b as int);
            assert(line == trim(raw));
            if a == b || v[a] == '#' {
                assert(read_line(raw, m0, g0) == (m0, g0));
            } else if v[a] == '[' {
                assert(line[0] == '[');
                in_group = range_equals(&v, a, b, &header);
            } else {
                assert(line[0] == v@[a as int]);
                match find_char(&v, a, b, '=') {
                    Some(e) => {
                        assert(line.take(e - a) =~= v@.subrange(a as int, e as int));
                        assert(line.skip(e - a + 1) =~= v@.subrange(e + 1, b as int));
                        if in_group {
                            let ke = trim_end_bound(&v, a, e);
                            let vs = trim_start_bound(&v, e + 1, b);
                            let key = string_of(&v, a, ke);
                            let value = string_of(&v, vs, b);
                            let ghost before = entries@;
                            entries.push((key, value));
                            assert(entries@.drop_last() =~= before);
                        }
                    },
                    None => {},
                }
            }
            assert(read_line(raw, m0, g0) == (pairs_map(entries@), in_group));
            assert(read_from(v@, start as int, g0, m0) == read_from(
                v@,
                end + 1,
                in_group,
                pairs_map(entries@),
            ));
            if end == n {
                break ;
            }
            start = end + 1;
        }
        DesktopEntry { entries }
    }

    /// The position of the pair that gives `key` its value.
    fn lookup(&self, key: &str) -> (r: Option<usize>)
        ensures
            match r {
                Some(i) => i < self.entries@.len() && self@.contains_key(key@) && self@[key@]
                    == self.entries@[i as int].1@,
                None => !self@.contains_key(key@),
            },
    {
        let owned = key.to_owned();
        assert(owned@ == key@);
        let mut i = self.entries.len();
        while i > 0
            invariant
                i <= self.entries@.len(),
                owned@ == key@,
                forall|j: int| i <= j < self.entries@.len() ==> (#[trigger] self.entries@[j]).0@
                    != owned@,
            decreases i,
        {
            if self.entries[i - 1].0 == owned {
                proof {
                    lemma_pairs_map_prefix(self.entries@, i as int, key@);
                    let t = self.entries@.take(i as int);
                    assert(t.drop_last() =~= self.entries@.take(i - 1));
                    assert(t.last() == self.entries@[i - 1]);
                    assert(t.len() > 0);
                    assert(pairs_map(t) == pairs_map(t.drop_last()).insert(t.last().0@, t.last().1@));
                    assert(pairs_map(t).contains_key(key@));
                    assert(pairs_map(t)[key@] == self.entries@[i - 1].1@);
                }
                return Some(i - 1);
            }
            i = i - 1;
        }
        proof {
            lemma_pairs_map_prefix(self.entries@, 0, key@);
            assert(self.entries@.take(0) =~= Seq::<(String, String)>::empty());
        }
        None
    }

    /// Raw value of `key`, escape sequences left untouched.
    pub fn raw(&self, key: &str) -> (r: Option<&str>)
        ensures
            match r {
                Some(v) => entry_value(self@, key@) == Some(v@),
                None => entry_value(self@, key@) is None,
            },
    {
        match self.lookup(key) {
            Some(i) => Some(self.entries[i].1.as_str()),
            None => None,
        }
    }

    /// The value of `key` with its escape sequences resolved.
    pub fn string(&self, key: &str) -> (r: Option<String>)
        ensures
            match r {
                Some(s) => entry_value(self@, key@) matches Some(v) && s@ == unescaped(v),
                None => entry_value(self@, key@) is None,
            },
    {
        match self.raw(key) {
            Some(v) => Some(unescape(v)),
            None => None,
        }
    }

    /// The value of `key` as a boolean.
    pub fn boolean(&self, key: &str) -> (r: Option<bool>)
        ensures
            r == bool_value(self@, key@),
    {
        match self.raw(key) {
            Some(v) => {
                if str_equals(v, "true") {
                    Some(true)
                } else if str_equals(v, "false") {
                    Some(false)
                } else {
                    None
                }
            },
            None => None,
        }
    }

    /// The value of `key` as an `i32`.
    pub fn integer(&self, key: &str) -> (r: Option<i32>)
        ensures
            r == int_value(self@, key@),
    {
        match self.raw(key) {
            Some(v) => {
                let c = chars_of(v);
                assert(c@.subrange(0, c@.len() as int) =~= c@);
                parse_i32_range(&c, 0, c.len())
            },
            None => None,
        }
    }

    /// Whether `key` is there and holds an `i32`.
    pub fn contains_key(&self, key: &str) -> (r: bool)
        ensures
            r == (self@.contains_key(key@) && int_value(self@, key@) is Some),
    {
        self.lookup(key).is_some() && self.integer(key).is_some()
    }

    /// A `;` separated list, honouring `\;` as a literal semicolon.
    pub fn list(&self, key: &str) -> (r: Vec<String>)
        ensures
            views(r@) == match entry_value(self@, key@) {
                Some(v) => list_items(v),
                None => seq![],
            },
    {
        let value = match self.raw(key) {
            Some(value) => value,
            None => {
                let r: Vec<String> = Vec::new();
                assert(views(r@) =~= Seq::<Seq<char>>::empty());
                return r;
            },
        };
        let v = chars_of(value);
        let n = v.len();
        let mut ret: Vec<String> = Vec::new();
        let mut current = String::new();
        let mut i: usize = 0;
        assert(views(ret@) =~= Seq::<Seq<char>>::empty());
        assert(v@.subrange(0, n as int) =~= v@);
        while i < n
            invariant
                n == v@.len(),
                v@ == value@,
                i <= n,
                views(ret@) + list_items_from(v@.subrange(i as int, n as int), current@)
                    == list_items(v@),
            decreases n - i,
        {
            let ghost rest = v@.subrange(i as int, n as int);
            let ghost before = views(ret@);
            let ghost cur0 = current@;
            let c = v[i];
            if c == '\\' {
                if i + 1 < n {
                    push_escaped(&mut current, v[i + 1]);
                    assert(rest.skip(2) =~= v@.subrange(i + 2, n as int));
                    i = i + 2;
                } else {
                    current.push('\\');
                    assert(rest.skip(1) =~= v@.subrange(i + 1, n as int));
                    i = i + 1;
                }
            } else if c == ';' {
                let item = current;
                current = String::new();
                proof {
                    lemma_views_push(ret@, item);
                }
                ret.push(item);
                assert(rest.skip(1) =~= v@.subrange(i + 1, n as int));
                i = i + 1;
                assert(views(ret@) + list_items_from(v@.subrange(i as int, n as int), current@)
                    =~= before + list_items_from(rest, cur0));
            } else {
                current.push(c);
                assert(rest.skip(1) =~= v@.subrange(i + 1, n as int));
                i = i + 1;
            }
        }
        assert(v@.subrange(n as int, n as int) =~= Seq::<char>::empty());
        if !current.as_str().is_empty() {
            proof {
                lemma_views_push(ret@, current);
            }
            ret.push(current);
            assert(views(ret@) =~= list_items(v@));
        } else {
            assert(current@.len() == 0);
            assert(views(ret@) =~= list_items(v@));
        }
        ret
    }

    /// `Exec` split into an argv, quoting resolved and field codes dropped.
    ///
    /// `%f %F %u %U` expand to nothing: an autostart entry is never handed a
    /// file. `%i %c %k` and the deprecated codes are dropped as well.
    pub fn exec_argv(&self) -> (r: Vec<String>)
        ensures
            views(r@) == match entry_value(self@, "Exec"@) {
                Some(v) => exec_words(v),
                None => seq![],
            },
    {
        let value = match self.raw("Exec") {
            Some(value) => value,
            None => {
                let r: Vec<String> = Vec::new();
                assert(views(r@) =~= Seq::<Seq<char>>::empty());
                return r;
            },
        };
        let v = chars_of(value);
        let n = v.len();
        let mut ret: Vec<String> = Vec::new();
        let mut current = String::new();
        let mut quoted = false;
        let mut i: usize = 0;
        assert(views(ret@) =~= Seq::<Seq<char>>::empty());
        assert(v@.subrange(0, n as int) =~= v@);
        while i < n
            invariant
                n == v@.len(),
                v@ == value@,
                i <= n,
                views(ret@) + argv_from(v@.subrange(i as int, n as int), current@, quoted)
                    == exec_words(v@),
            decreases n - i,
        {
            let ghost rest = v@.subrange(i as int, n as int);
            let ghost before = views(ret@);
            let ghost cur0 = current@;
            let c = v[i];
            assert(rest.skip(1) =~= v@.subrange(i + 1, n as int));
            if i + 1 < n {
                assert(rest.skip(2) =~= v@.subrange(i + 2, n as int));
            }
            if c == '"' {
                quoted = !quoted;
                i = i + 1;
            } else if c == '\\' {
                if i + 1 < n {
                    if quoted {
                        current.push(v[i + 1]);
                    } else {
                        push_escaped(&mut current, v[i + 1]);
                    }
                    i = i + 2;
                } else {
                    i = i + 1;
                }
            } else if c == '%' {
                if i + 1 < n {
                    if v[i + 1] == '%' {
                        current.push('%');
                    }
                    i = i + 2;
                } else {
                    i = i + 1;
                }
            } else if is_white_char(c) && !quoted {
                if !current.as_str().is_empty() {
                    let word = current;
                    current = String::new();
                    proof {
                        lemma_views_push(ret@, word);
                    }
                    ret.push(word);
                    i = i + 1;
                    assert(views(ret@) + argv_from(
                        v@.subrange(i as int, n as int),
                        current@,
                        quoted,
                    ) =~= before + argv_from(rest, cur0, quoted));
                } else {
                    i = i + 1;
                }
            } else {
                current.push(c);
                i = i + 1;
            }
        }
        assert(v@.subrange(n as int, n as int) =~= Seq::<char>::empty());
        if !current.as_str().is_empty() {
            proof {
                lemma_views_push(ret@, current);
            }
            ret.push(current);
            assert(views(ret@) =~= exec_words(v@));
        } else {
            assert(views(ret@) =~= exec_words(v@));
        }
        ret
    }

    /// Localized value of `key`, looked up along the whole fallback chain the
    /// spec prescribes, down to the unlocalized `key`.
    ///
    /// `locale` is meant to be fed straight from `$LANG`, encoding included.
    pub fn localized(&self, key: &str, locale: &str) -> (r: Option<String>)
        ensures
            match r {
                Some(s) => localized_in(self@, key@, locale_chain(locale@)) == Some(s@),
                None => localized_in(self@, key@, locale_chain(locale@)) is None,
            },
    {
        let candidates = locale_candidates(locale);
        let ghost all = views(candidates@);
        let mut i: usize = 0;
        assert(all.skip(0) =~= all);
        while i < candidates.len()
            invariant
                i <= candidates@.len(),
                all == views(candidates@),
                all == locale_chain(locale@),
                localized_in(self@, key@, all.skip(i as int)) == localized_in(self@, key@, all),
            decreases candidates@.len() - i,
        {
            let mut k = key.to_owned();
            k.push('[');
            push_str(&mut k, candidates[i].as_str());
            k.push(']');
            let ghost rest = all.skip(i as int);
            assert(rest[0] == candidates@[i as int]@);
            assert(k@ =~= localized_key(key@, rest[0]));
            match self.string(k.as_str()) {
                Some(value) => {
                    return Some(value);
                },
                None => {},
            }
            assert(rest.drop_first() =~= all.skip(i + 1));
            i = i + 1;
        }
        assert(all.skip(i as int) =~= Seq::<Seq<char>>::empty());
        self.string(key)
    }

    /// Tells whether this entry has to be launched, or why it has not, on
    /// `desktops` and the entry's `OnlyShowIn` and `NotShowIn` items, all
    /// already lowercased.
    ///
    /// `try_exec_found` is whether the binary `TryExec` names exists; it is
    /// only looked at when the entry has a `TryExec` key.
    pub fn should_autostart_lowered(
        &self,
        desktops: &[String],
        only_show_in: &[String],
        not_show_in: &[String],
        try_exec_found: bool,
    ) -> (r: Result<(), &'static str>)
        ensures
            match r {
                Ok(()) => refusal_on(
                    self@,
                    views(desktops@),
                    views(only_show_in@),
                    views(not_show_in@),
                    try_exec_found,
                ) is None,
                Err(e) => refusal_on(
                    self@,
                    views(desktops@),
                    views(only_show_in@),
                    views(not_show_in@),
                    try_exec_found,
                ) == Some(e@),
            },
    {
        let application = match self.raw("Type") {
            Some(t) => str_equals(t, "Application"),
            None => false,
        };
        if !application {
            return Err("Type is not Application");
        }
        // Hidden means "deleted by the user", not "do not show".
        if self.boolean("Hidden").unwrap_or(false) {
            return Err("Hidden is true");
        }
        // Honoured by Xfce and GNOME alike.
        if !self.boolean("X-XFCE-Autostart-Override").unwrap_or(false) && !self.boolean(
            "X-GNOME-Autostart-enabled",
        ).unwrap_or(true) {
            return Err("X-GNOME-Autostart-enabled is false");
        }
        if self.contains_key("RunHook") {
            let run_hook = self.integer("RunHook");
            match run_hook {
                None => {
                    return Err("RunHook parse error");
                },
                Some(hook) => {
                    if hook != 0 {
                        return Ok(());
                    }
                },
            }
        }
        if only_show_in.len() > 0 && !shares(only_show_in, desktops) {
            return Err("OnlyShowIn does not match the current desktop");
        }
        if shares(not_show_in, desktops) {
            return Err("NotShowIn matches the current desktop");
        }
        if self.raw("TryExec").is_some() && !try_exec_found {
            return Err("TryExec binary not found");
        }
        Ok(())
    }

    /// Tells whether this entry has to be launched on `current_desktops`,
    /// or why it has not; desktops and listed items are matched lowercased.
    ///
    /// `try_exec_found` is whether the binary `TryExec` names exists; it is
    /// only looked at when the entry has a `TryExec` key.
    pub fn should_autostart(&self, current_desktops: &[String], try_exec_found: bool) -> (r: Result<
        (),
        &'static str,
    >)
        ensures
            match r {
                Ok(()) => autostart_refusal(self@, views(current_desktops@), try_exec_found) is None,
                Err(e) => autostart_refusal(self@, views(current_desktops@), try_exec_found) == Some(
                    e@,
                ),
            },
    {
        let desktops = lowercased(current_desktops);
        let only_show_in = lowercased(&self.list("OnlyShowIn"));
        let not_show_in = lowercased(&self.list("NotShowIn"));
        self.should_autostart_lowered(&desktops, &only_show_in, &not_show_in, try_exec_found)
    }
}

} // verus!

verus! {

/// A value without a backslash reads as written.
pub proof fn lemma_plain_value_unescapes_to_itself(s: Seq<char>)
    requires
        !s.contains('\\'),
    ensures
        unescaped(s) == s,
    decreases s.len(),
{
    if s.len() > 0 {
        assert(s[0] != '\\');
        let t = s.skip(1);
        assert forall|i: int| 0 <= i < t.len() implies t[i] != '\\' by {
            assert(t[i] == s[i + 1]);
        }
        lemma_plain_value_unescapes_to_itself(t);
        assert(seq![s[0]] + t =~= s);
    }
}

/// The locale without its encoding: `lang_COUNTRY@MODIFIER`.
pub open spec fn without_encoding(locale: Seq<char>) -> Seq<char> {
    before(before(locale, '@'), '.') + match split_once(locale, '@') {
        Some((_, m)) => seq!['@'] + m,
        None => seq![],
    }
}

proof fn lemma_before_prefix(s: Seq<char>, c: char)
    ensures
        !before(s, c).contains(c),
        before(s, c) == s.take(before(s, c).len() as int),
        before(s, c).len() <= s.len(),
{
    lemma_index_of(s, c);
    match index_of(s, c) {
        Some(i) => {
            assert forall|j: int| 0 <= j < i implies s.take(i)[j] != c by {}
        },
        None => {
            assert(s.take(s.len() as int) =~= s);
        },
    }
}

proof fn lemma_before_of_plain(s: Seq<char>, c: char)
    requires
        !s.contains(c),
    ensures
        before(s, c) == s,
{
    lemma_index_of(s, c);
    match index_of(s, c) {
        Some(i) => {
            assert(s[i] == c);
        },
        None => {},
    }
}

/// `before` reads only up to the first `c`: appending text that starts with
/// `c` leaves it unchanged.
proof fn lemma_before_append(s: Seq<char>, c: char, t: Seq<char>)
    requires
        !s.contains(c),
        t.len() > 0,
        t[0] == c,
    ensures
        before(s + t, c) == s,
        split_once(s + t, c) == Some((s, t.skip(1))),
{
    let u = s + t;
    assert forall|j: int| 0 <= j < s.len() implies u[j] != c by {
        assert(u[j] == s[j]);
    }
    assert(u[s.len() as int] == c);
    lemma_index_of_at(u, c, s.len() as int);
    assert(u.take(s.len() as int) =~= s);
    assert(u.skip((s.len() + 1) as int) =~= t.skip(1));
}

/// The encoding never takes part in the match: a locale and the same locale
/// without its encoding look up the same keys.
pub proof fn lemma_encoding_is_ignored(locale: Seq<char>)
    ensures
        locale_chain(locale) == locale_chain(without_encoding(locale)),
{
    let head = before(locale, '@');
    let base = before(head, '.');
    lemma_before_prefix(locale, '@');
    lemma_before_prefix(head, '.');
    let stripped = without_encoding(locale);
    assert(!base.contains('@')) by {
        assert forall|j: int| 0 <= j < base.len() implies base[j] != '@' by {
            assert(base[j] == head[j]);
        }
    }
    match split_once(locale, '@') {
        Some((h, m)) => {
            lemma_index_of(locale, '@');
            assert(h == head);
            lemma_before_append(base, '@', seq!['@'] + m);
            assert((seq!['@'] + m).skip(1) =~= m);
            assert(stripped == base + (seq!['@'] + m));
            assert(before(stripped, '@') == base);
            assert(split_once(stripped, '@') == Some((base, m)));
        },
        None => {
            assert(stripped =~= base);
            lemma_before_of_plain(base, '@');
            lemma_index_of(base, '@');
            assert(split_once(stripped, '@') is None);
        },
    }
    lemma_before_of_plain(base, '.');
    assert(before(before(stripped, '@'), '.') == base);
}

} // verus!

verus! {

/// The header line opens the group.
proof fn lemma_header_line_opens_the_group()
    ensures
        read_line(group_header(), Map::empty(), false) == (Map::<Seq<char>, Seq<char>>::empty(), true),
{
    reveal_strlit("[Desktop Entry]");
    let h = group_header();
    assert(!is_white(h[0]) && !is_white(h.last()));
    assert(trim_start(h) == h);
    lemma_trim_end_concat(h, Seq::<char>::empty());
    assert(h + Seq::<char>::empty() =~= h);
}

/// One `key=value` line read inside the group.
proof fn lemma_key_line(k: Seq<char>, v: Seq<char>)
    requires
        k.len() > 0,
        !k.contains('='),
        !is_white(k[0]),
        !is_white(k.last()),
        k[0] != '#',
        k[0] != '[',
    ensures
        read_line(k + seq!['='] + v, Map::empty(), true) == (Map::<Seq<char>, Seq<char>>::empty().insert(
            k,
            trim(v),
        ), true),
{
    let line = k + seq!['='] + v;
    let p = k + seq!['='];
    assert(p.last() == '=');
    assert(!is_white('='));
    lemma_trim_end_concat(p, v);
    assert(p + v =~= line);
    assert(line[0] == k[0]);
    assert(trim_start(line) == line);
    let t = p + trim_end(v);
    assert(trim(line) == t);
    assert(t[0] == k[0]);
    assert forall|j: int| 0 <= j < k.len() implies t[j] != '=' by {
        assert(t[j] == k[j]);
        assert(!k.contains('='));
    }
    assert(t[k.len() as int] == '=');
    lemma_index_of_at(t, '=', k.len() as int);
    assert(t.take(k.len() as int) =~= k);
    assert(t.skip(k.len() as int + 1) =~= trim_end(v));
    lemma_trim_end_concat(k, Seq::<char>::empty());
    assert(k + Seq::<char>::empty() =~= k);
    lemma_trim_commutes(v);
}

/// A `key=value` line of the `[Desktop Entry]` group gives `key` the whole
/// value after the first `=`, further `=` included, trimmed of white space.
/// The key is taken as written: not empty, without `=`, a line break or
/// white space at its ends, and not opening a comment or a group.
pub proof fn lemma_value_is_everything_after_the_first_equals(k: Seq<char>, v: Seq<char>)
    requires
        k.len() > 0,
        !k.contains('='),
        !k.contains('\n'),
        !is_white(k[0]),
        !is_white(k.last()),
        k[0] != '#',
        k[0] != '[',
        !v.contains('\n'),
    ensures
        ({
            let m = parsed(group_header() + seq!['\n'] + k + seq!['='] + v);
            m.contains_key(k) && m[k] == trim(v)
        }),
{
    let h = group_header();
    let line = k + seq!['='] + v;
    let content = h + seq!['\n'] + line;
    assert(content =~= group_header() + seq!['\n'] + k + seq!['='] + v);
    let n = content.len() as int;
    let m1 = Map::<Seq<char>, Seq<char>>::empty().insert(k, trim(v));
    assert(h.len() == 15) by {
        reveal_strlit("[Desktop Entry]");
    }
    assert(n == 16 + line.len());
    assert(line_end(content, 0) == 15) by {
        reveal_strlit("[Desktop Entry]");
        assert(h.len() == 15);
        assert forall|j: int| 0 <= j < 15 implies content[j] != '\n' by {
            assert(content[j] == h[j]);
        }
        assert(content[15] == '\n');
        assert(content.subrange(0, n) =~= content);
        lemma_index_of_at(content.subrange(0, n), '\n', 15);
    }
    assert(content.subrange(0, 15) =~= h) by {
        reveal_strlit("[Desktop Entry]");
    }
    lemma_header_line_opens_the_group();
    assert(line_end(content, 16) == n) by {
        reveal_strlit("[Desktop Entry]");
        assert(content.subrange(16, n) =~= line);
        assert forall|j: int| 0 <= j < line.len() implies line[j] != '\n' by {
            if j < k.len() {
                assert(line[j] == k[j]);
                assert(!k.contains('\n'));
            } else if j > k.len() {
                assert(line[j] == v[j - k.len() - 1]);
                assert(!v.contains('\n'));
            }
        }
        lemma_index_of_none(line, '\n');
    }
    assert(content.subrange(16, n) =~= line) by {
        reveal_strlit("[Desktop Entry]");
    }
    lemma_key_line(k, v);
    assert(read_from(content, n + 1, true, m1) == m1);
    assert(read_from(content, 16, true, Map::empty()) == m1);
    assert(read_from(content, 0, false, Map::empty()) == m1);
}

/// An entry whose `Hidden` is `true` is never launched, whatever its
/// trigger, its desktop lists or its `TryExec` say: it is refused, and
/// for an application the reason is `Hidden`.
pub proof fn lemma_hidden_is_never_launched(
    m: Map<Seq<char>, Seq<char>>,
    desktops: Seq<Seq<char>>,
    only_show_in: Seq<Seq<char>>,
    not_show_in: Seq<Seq<char>>,
    try_exec_found: bool,
)
    requires
        bool_value(m, "Hidden"@) == Some(true),
    ensures
        refusal_on(m, desktops, only_show_in, not_show_in, try_exec_found) is Some,
        entry_value(m, "Type"@) == Some("Application"@) ==> refusal_on(
            m,
            desktops,
            only_show_in,
            not_show_in,
            try_exec_found,
        ) == Some("Hidden is true"@),
        autostart_refusal(m, desktops, try_exec_found) is Some,
{
}

/// `s` with no `;` and no backslash: one list item as written.
pub open spec fn is_plain_item(s: Seq<char>) -> bool {
    s.len() > 0 && !s.contains(';') && !s.contains('\\')
}

proof fn lemma_plain_run(p: Seq<char>, rest: Seq<char>, cur: Seq<char>)
    requires
        !p.contains(';'),
        !p.contains('\\'),
    ensures
        list_items_from(p + rest, cur) == list_items_from(rest, cur + p),
    decreases p.len(),
{
    if p.len() == 0 {
        assert(p + rest =~= rest);
        assert(cur + p =~= cur);
    } else {
        let q = p.drop_first();
        assert(p[0] != ';' && p[0] != '\\') by {
            assert(p.contains(p[0]));
        }
        assert((p + rest)[0] == p[0]);
        assert((p + rest).skip(1) =~= q + rest);
        assert(!q.contains(';') && !q.contains('\\')) by {
            if q.contains(';') {
                let j = choose|j: int| 0 <= j < q.len() && q[j] == ';';
                assert(p[j + 1] == ';');
            }
            if q.contains('\\') {
                let j = choose|j: int| 0 <= j < q.len() && q[j] == '\\';
                assert(p[j + 1] == '\\');
            }
        }
        lemma_plain_run(q, rest, cur.push(p[0]));
        assert(cur.push(p[0]) + q =~= cur + p);
    }
}

/// Plain items joined by `;` read back as those items, with or without a
/// closing `;`; a single plain item reads back as itself.
pub proof fn lemma_list_items_read_back(a: Seq<char>, b: Seq<char>)
    requires
        is_plain_item(a),
        is_plain_item(b),
    ensures
        list_items(a) == seq![a],
        list_items(a + seq![';'] + b) == seq![a, b],
        list_items(a + seq![';'] + b + seq![';']) == seq![a, b],
{
    let e = Seq::<char>::empty();
    lemma_plain_run(a, e, e);
    assert(a + e =~= a);
    assert(e + a =~= a);
    assert(list_items_from(e, a) == seq![a]);
    // `b` alone, then `b;`.
    lemma_plain_run(b, e, e);
    assert(b + e =~= b);
    assert(e + b =~= b);
    assert(list_items_from(b, e) == seq![b]);
    let semi = seq![';'];
    lemma_plain_run(b, semi, e);
    assert(semi.skip(1) =~= e);
    assert(list_items_from(semi, b) == seq![b] + list_items_from(e, e));
    assert(list_items_from(b + semi, e) == seq![b]);
    // `a;` then the rest.
    lemma_plain_run(a, semi + b, e);
    assert(a + (semi + b) =~= a + seq![';'] + b);
    assert((semi + b)[0] == ';');
    assert((semi + b).skip(1) =~= b);
    assert(list_items_from(semi + b, a) == seq![a] + list_items_from(b, e));
    assert(seq![a] + seq![b] =~= seq![a, b]);
    lemma_plain_run(a, semi + b + semi, e);
    assert(a + (semi + b + semi) =~= a + seq![';'] + b + seq![';']);
    assert((semi + b + semi)[0] == ';');
    assert((semi + b + semi).skip(1) =~= b + semi);
    assert(list_items_from(semi + b + semi, a) == seq![a] + list_items_from(b + semi, e));
}

} // verus!

