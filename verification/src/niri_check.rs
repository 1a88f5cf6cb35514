//! What the tools need from a running niri: which of its sockets to talk to,
//! and the version out of its reply.

use vstd::prelude::*;

use crate::lock::{join_path, path_join};
use crate::text::{chars_of, find_char, index_of, range_equals, string_of};

verus! {

/// The first position at which `p` occurs in `s`.
pub open spec fn find_str(s: Seq<char>, p: Seq<char>) -> Option<int>
    decreases s.len(),
{
    if s.len() < p.len() {
        None
    } else if s.take(p.len() as int) == p {
        Some(0)
    } else if s.len() == 0 {
        None
    } else {
        match find_str(s.drop_first(), p) {
            Some(i) => Some(i + 1),
            None => None,
        }
    }
}

/// `p` occurs in `s` at `i`.
pub open spec fn occurs_at(s: Seq<char>, p: Seq<char>, i: int) -> bool {
    0 <= i && i + p.len() <= s.len() && s.subrange(i, i + p.len()) == p
}

pub proof fn lemma_find_str(s: Seq<char>, p: Seq<char>)
    ensures
        match find_str(s, p) {
            Some(i) => occurs_at(s, p, i) && forall|j: int| 0 <= j < i ==> !occurs_at(s, p, j),
            None => forall|j: int| !occurs_at(s, p, j),
        },
    decreases s.len(),
{
    if s.len() < p.len() {
    } else if s.take(p.len() as int) == p {
        assert(s.subrange(0, p.len() as int) =~= s.take(p.len() as int));
    } else if s.len() == 0 {
        assert(p.len() == 0);
        assert(s.take(0) =~= p);
    } else {
        let t = s.drop_first();
        lemma_find_str(t, p);
        assert(!occurs_at(s, p, 0)) by {
            assert(s.subrange(0, p.len() as int) =~= s.take(p.len() as int));
        }
        assert forall|j: int| 1 <= j implies occurs_at(s, p, j) == occurs_at(t, p, j - 1) by {
            if j + p.len() <= s.len() {
                assert(s.subrange(j, j + p.len()) =~= t.subrange(j - 1, j - 1 + p.len()));
            }
        }
        match find_str(t, p) {
            Some(i) => {
                assert forall|j: int| 0 <= j < i + 1 implies !occurs_at(s, p, j) by {
                    if j >= 1 {
                        assert(occurs_at(s, p, j) == occurs_at(t, p, j - 1));
                    }
                }
                assert(occurs_at(s, p, i + 1) == occurs_at(t, p, i));
            },
            None => {
                assert forall|j: int| !occurs_at(s, p, j) by {
                    if j >= 1 {
                        assert(occurs_at(s, p, j) == occurs_at(t, p, j - 1));
                    }
                }
            },
        }
    }
}

/// The key a niri reply carries its version under, with the opening quote of
/// the value.
pub open spec fn version_key() -> Seq<char> {
    "\"Version\":\""@
}

/// The version a niri reply holds: the text between `"Version":"` and the
/// next `"`.
pub open spec fn reply_version(reply: Seq<char>) -> Option<Seq<char>> {
    match find_str(reply, version_key()) {
        Some(i) => {
            let rest = reply.skip(i + version_key().len());
            match index_of(rest, '"') {
                Some(j) => Some(rest.take(j)),
                None => None,
            }
        },
        None => None,
    }
}

/// Lexicographic order of code points, which is the byte order of the UTF-8
/// encodings and so the order of file names in a directory listing sorted
/// as paths.
pub open spec fn name_lt(a: Seq<char>, b: Seq<char>) -> bool
    decreases a.len(),
{
    if a.len() == 0 {
        b.len() > 0
    } else if b.len() == 0 {
        false
    } else if a[0] != b[0] {
        (a[0] as int) < (b[0] as int)
    } else {
        name_lt(a.drop_first(), b.drop_first())
    }
}

pub proof fn lemma_name_lt_total(a: Seq<char>, b: Seq<char>)
    ensures
        name_lt(a, b) || name_lt(b, a) || a == b,
        !(name_lt(a, b) && name_lt(b, a)),
    decreases a.len(),
{
    if a.len() > 0 && b.len() > 0 && a[0] == b[0] {
        lemma_name_lt_total(a.drop_first(), b.drop_first());
        if a.drop_first() == b.drop_first() {
            assert(a.len() == b.len());
            assert forall|k: int| 0 <= k < a.len() implies a[k] == b[k] by {
                if k > 0 {
                    assert(a[k] == a.drop_first()[k - 1]);
                    assert(b[k] == b.drop_first()[k - 1]);
                }
            }
            assert(a =~= b);
        }
    } else if a.len() == 0 && b.len() == 0 {
        assert(a =~= b);
    }
}

pub proof fn lemma_name_lt_transitive(a: Seq<char>, b: Seq<char>, c: Seq<char>)
    requires
        name_lt(a, b),
        name_lt(b, c),
    ensures
        name_lt(a, c),
    decreases a.len(),
{
    if a.len() > 0 && b.len() > 0 && c.len() > 0 && a[0] == b[0] && b[0] == c[0] {
        lemma_name_lt_transitive(a.drop_first(), b.drop_first(), c.drop_first());
    }
}

/// `name` is a niri socket of the display `wayland` (of any display when it
/// is `None`): `niri.` then, for a display, `<display>.`, and `.sock` at the
/// end.
pub open spec fn is_niri_socket(name: Seq<char>, wayland: Option<Seq<char>>) -> bool {
    let rest = name.skip(5);
    &&& name.len() >= 5
    &&& name.take(5) == "niri."@
    &&& rest.len() >= 5
    &&& rest.skip(rest.len() - 5) == ".sock"@
    &&& match wayland {
        Some(w) => rest.len() >= w.len() + 1 && rest.take((w.len() + 1) as int) == w + seq!['.'],
        None => true,
    }
}

/// The socket a set of names leads to: the greatest of the niri sockets of
/// the display, none when there is none.
pub open spec fn chosen_socket(
    names: Seq<Seq<char>>,
    wayland: Option<Seq<char>>,
    r: Option<Seq<char>>,
) -> bool {
    match r {
        Some(x) => {
            &&& names.contains(x)
            &&& is_niri_socket(x, wayland)
            &&& forall|i: int|
                0 <= i < names.len() && is_niri_socket(#[trigger] names[i], wayland) ==> !name_lt(
                    x,
                    names[i],
                )
        },
        None => forall|i: int| 0 <= i < names.len() ==> !is_niri_socket(#[trigger] names[i], wayland),
    }
}

fn name_less(a: &Vec<char>, b: &Vec<char>) -> (r: bool)
    ensures
        r == name_lt(a@, b@),
{
    let mut i: usize = 0;
    assert(a@.skip(0) =~= a@);
    assert(b@.skip(0) =~= b@);
    while i < a.len() && i < b.len() && a[i] == b[i]
        invariant
            i <= a@.len(),
            i <= b@.len(),
            name_lt(a@.skip(i as int), b@.skip(i as int)) == name_lt(a@, b@),
        decreases a@.len() - i,
    {
        proof {
            assert(a@.skip(i as int).drop_first() =~= a@.skip(i + 1));
            assert(b@.skip(i as int).drop_first() =~= b@.skip(i + 1));
        }
        i = i + 1;
    }
    if i == a.len() {
        proof {
            assert(a@.skip(i as int).len() == 0);
        }
        i < b.len()
    } else if i == b.len() {
        false
    } else {
        proof {
            assert(a@.skip(i as int)[0] == a@[i as int]);
            assert(b@.skip(i as int)[0] == b@[i as int]);
        }
        a[i] < b[i]
    }
}

/// The check on a running niri.
pub struct NiriCheck;

impl NiriCheck {
    /// The version out of niri's reply to the `"Version"` request.
    pub fn version(reply: &str) -> (r: Option<String>)
        ensures
            match r {
                Some(v) => reply_version(reply@) == Some(v@),
                None => reply_version(reply@) is None,
            },
    {
        let v = chars_of(reply);
        let key = chars_of("\"Version\":\"");
        let n = v.len();
        let m = key.len();
        assert(m == 11) by {
            reveal_strlit("\"Version\":\"");
        }
        if n < m {
            proof {
                lemma_find_str(v@, key@);
            }
            return None;
        }
        let mut i: usize = 0;
        while i <= n - m
            invariant
                n == v@.len(),
                m == key@.len(),
                m == 11,
                m <= n,
                i <= n - m + 1,
                v@ == reply@,
                key@ == version_key(),
                forall|j: int| 0 <= j < i ==> !occurs_at(v@, key@, j),
            decreases n - i,
        {
            if range_equals(&v, i, i + m, &key) {
                proof {
                    lemma_find_str(v@, key@);
                    assert(occurs_at(v@, key@, i as int));
                    match find_str(v@, key@) {
                        Some(k) => {
                            if (k as int) < (i as int) {
                                assert(!occurs_at(v@, key@, k));
                            } else if (k as int) > (i as int) {
                                assert(!occurs_at(v@, key@, i as int));
                            }
                        },
                        None => {
                            assert(!occurs_at(v@, key@, i as int));
                        },
                    }
                    assert(v@.skip(i + m) =~= v@.subrange(i + m, n as int));
                }
                return match find_char(&v, i + m, n, '"') {
                    Some(e) => {
                        proof {
                            assert(v@.skip(i + m).take(e - (i + m)) =~= v@.subrange(
                                i + m,
                                e as int,
                            ));
                        }
                        Some(string_of(&v, i + m, e))
                    },
                    None => None,
                };
            }
            i = i + 1;
        }
        proof {
            lemma_find_str(v@, key@);
            match find_str(v@, key@) {
                Some(k) => {
                    assert(!occurs_at(v@, key@, k));
                },
                None => {},
            }
        }
        None
    }

    /// Whether `name` is a niri socket of the display `wayland`, of any
    /// display when it is `None`.
    pub fn is_socket_name(name: &str, wayland: Option<&str>) -> (r: bool)
        ensures
            r == is_niri_socket(
                name@,
                match wayland {
                    Some(w) => Some(w@),
                    None => None,
                },
            ),
    {
        let v = chars_of(name);
        let prefix = chars_of("niri.");
        let suffix = chars_of(".sock");
        let n = v.len();
        assert(prefix@.len() == 5 && suffix@.len() == 5) by {
            reveal_strlit("niri.");
            reveal_strlit(".sock");
        }
        if n < 5 || !range_equals(&v, 0, 5, &prefix) {
            proof {
                if n >= 5 {
                    assert(v@.take(5) =~= v@.subrange(0, 5));
                }
            }
            return false;
        }
        assert(v@.take(5) =~= v@.subrange(0, 5));
        let ghost rest = v@.skip(5);
        if n - 5 < 5 || !range_equals(&v, n - 5, n, &suffix) {
            proof {
                if n - 5 >= 5 {
                    assert(rest.skip(rest.len() - 5) =~= v@.subrange(n - 5, n as int));
                }
            }
            return false;
        }
        assert(rest.skip(rest.len() - 5) =~= v@.subrange(n - 5, n as int));
        assert(rest.len() == n - 5);
        match wayland {
            None => {
                assert(is_niri_socket(name@, None));
                true
            },
            Some(w) => {
                let mut wd = chars_of(w);
                wd.push('.');
                assert(wd@ =~= w@ + seq!['.']);
                if n - 5 < wd.len() {
                    return false;
                }
                let ok = range_equals(&v, 5, 5 + wd.len(), &wd);
                assert(rest.take(wd@.len() as int) =~= v@.subrange(5, 5 + wd@.len() as int));
                ok
            },
        }
    }

    /// The socket to talk to among the file names of `$XDG_RUNTIME_DIR`: the
    /// last niri socket of the display `wayland` in sorted order.
    pub fn pick_socket(names: &[String], wayland: Option<&str>) -> (r: Option<String>)
        ensures
            chosen_socket(
                names@.map_values(|x: String| x@),
                match wayland {
                    Some(w) => Some(w@),
                    None => None,
                },
                match r {
                    Some(x) => Some(x@),
                    None => None,
                },
            ),
    {
        let ghost w: Option<Seq<char>> = match wayland {
            Some(w) => Some(w@),
            None => None,
        };
        let ghost ns = names@.map_values(|x: String| x@);
        let mut best: Option<usize> = None;
        let mut best_chars: Vec<char> = Vec::new();
        let mut i: usize = 0;
        while i < names.len()
            invariant
                i <= names@.len(),
                ns == names@.map_values(|x: String| x@),
                w == match wayland {
                    Some(w) => Some(w@),
                    None => None,
                },
                match best {
                    Some(b) => {
                        &&& b < i
                        &&& best_chars@ == ns[b as int]
                        &&& is_niri_socket(ns[b as int], w)
                        &&& forall|j: int|
                            0 <= j < i && is_niri_socket(#[trigger] ns[j], w) ==> !name_lt(
                                ns[b as int],
                                ns[j],
                            )
                    },
                    None => forall|j: int| 0 <= j < i ==> !is_niri_socket(#[trigger] ns[j], w),
                },
            decreases names@.len() - i,
        {
            let name = names[i].as_str();
            assert(ns[i as int] == name@);
            if Self::is_socket_name(name, wayland) {
                let c = chars_of(name);
                match best {
                    None => {
                        best = Some(i);
                        best_chars = c;
                        proof {
                            lemma_name_lt_total(ns[i as int], ns[i as int]);
                        }
                    },
                    Some(b) => {
                        if name_less(&best_chars, &c) {
                            proof {
                                assert forall|j: int|
                                    0 <= j < i + 1 && is_niri_socket(#[trigger] ns[j], w) implies !name_lt(
                                    ns[i as int],
                                    ns[j],
                                ) by {
                                    lemma_name_lt_total(ns[i as int], ns[j]);
                                    if j < i && name_lt(ns[i as int], ns[j]) {
                                        lemma_name_lt_transitive(ns[b as int], ns[i as int], ns[j]);
                                    }
                                }
                            }
                            best = Some(i);
                            best_chars = c;
                        } else {
                            proof {
                                lemma_name_lt_total(ns[b as int], ns[i as int]);
                            }
                        }
                    },
                }
            }
            i = i + 1;
        }
        match best {
            Some(b) => {
                assert(ns[b as int] == names@[b as int]@);
                assert(ns.contains(ns[b as int]));
                Some(names[b].clone())
            },
            None => None,
        }
    }
}

} // verus!

verus! {

/// A reply that carries the version `v` (no `"` in it) after some text
/// holding no earlier `"Version":"` gives `v` back.
pub proof fn lemma_version_read_back(prefix: Seq<char>, v: Seq<char>, suffix: Seq<char>)
    requires
        !v.contains('"'),
        forall|j: int|
            0 <= j < prefix.len() ==> !occurs_at(
                prefix + version_key() + v + seq!['"'] + suffix,
                version_key(),
                j,
            ),
    ensures
        reply_version(prefix + version_key() + v + seq!['"'] + suffix) == Some(v),
{
    let key = version_key();
    let reply = prefix + key + v + seq!['"'] + suffix;
    assert(reply.subrange(prefix.len() as int, (prefix.len() + key.len()) as int) =~= key);
    assert(occurs_at(reply, key, prefix.len() as int));
    lemma_find_str(reply, key);
    match find_str(reply, key) {
        Some(k) => {
            if k < prefix.len() {
                assert(!occurs_at(reply, key, k));
            } else if k > prefix.len() {
                assert(!occurs_at(reply, key, prefix.len() as int));
            }
        },
        None => {
            assert(!occurs_at(reply, key, prefix.len() as int));
        },
    }
    let rest = reply.skip((prefix.len() + key.len()) as int);
    assert(rest =~= v + seq!['"'] + suffix);
    assert forall|j: int| 0 <= j < v.len() implies rest[j] != '"' by {
        assert(rest[j] == v[j]);
    }
    assert(rest[v.len() as int] == '"');
    crate::text::lemma_index_of_at(rest, '"', v.len() as int);
    assert(rest.take(v.len() as int) =~= v);
}

} // verus!

verus! {

impl NiriCheck {
    /// The socket `$NIRI_SOCKET` names, when it is set to something.
    pub fn socket_from_env(niri_socket: Option<&str>) -> (r: Option<String>)
        ensures
            match niri_socket {
                Some(p) => if p@.len() > 0 {
                    r matches Some(x) && x@ == p@
                } else {
                    r is None
                },
                None => r is None,
            },
    {
        match niri_socket {
            Some(p) => if !p.is_empty() {
                Some(p.to_owned())
            } else {
                None
            },
            None => None,
        }
    }

    /// niri's socket: `$NIRI_SOCKET` (`niri_socket`) when set to something,
    /// else the chosen socket among `names`, the entries of the runtime
    /// directory `runtime_dir`, joined onto it. `None` when there is no
    /// runtime directory, it cannot be listed (`names` is `None`), or it
    /// holds no socket of the display.
    pub fn socket_path_from(
        niri_socket: Option<&str>,
        runtime_dir: Option<&str>,
        names: Option<&[String]>,
        wayland: Option<&str>,
    ) -> (r: Option<String>)
        ensures
            match niri_socket {
                Some(p) if p@.len() > 0 => r matches Some(x) && x@ == p@,
                _ => match (runtime_dir, names) {
                    (Some(dir), Some(ns)) => match r {
                        Some(x) => exists|n: Seq<char>|
                            #![trigger path_join(dir@, n)]
                            chosen_socket(
                                ns@.map_values(|s: String| s@),
                                match wayland {
                                    Some(w) => Some(w@),
                                    None => None,
                                },
                                Some(n),
                            ) && x@ == path_join(dir@, n),
                        None => chosen_socket(
                            ns@.map_values(|s: String| s@),
                            match wayland {
                                Some(w) => Some(w@),
                                None => None,
                            },
                            None,
                        ),
                    },
                    _ => r is None,
                },
            },
    {
        if let Some(p) = Self::socket_from_env(niri_socket) {
            return Some(p);
        }
        match (runtime_dir, names) {
            (Some(dir), Some(ns)) => match Self::pick_socket(ns, wayland) {
                Some(name) => Some(join_path(dir, name.as_str())),
                None => None,
            },
            _ => None,
        }
    }
}

} // verus!
