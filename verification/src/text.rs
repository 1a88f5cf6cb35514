use vstd::prelude::*;
use vstd::std_specs::iter::IteratorSpec;

verus! {

broadcast use vstd::string::group_string_axioms;

/// `String::push` (std): appends `ch`, so the view gains exactly that
/// character at its end.
pub assume_specification[ String::push ](string: &mut String, ch: char)
    ensures
        final(string)@ == old(string)@.push(ch),
;

/// The characters of `s`, in order.
pub fn chars_of(s: &str) -> (r: Vec<char>)
    ensures
        r@ == s@,
{
    let mut it = s.chars();
    let mut r: Vec<char> = Vec::new();
    loop
        invariant
            r@ + it.remaining() == s@,
            it.decrease() is Some,
        ensures
            r@ == s@,
        decreases it.decrease()->0,
    {
        match it.next() {
            Some(c) => {
                r.push(c);
            },
            None => {
                break ;
            },
        }
    }
    r
}

} // verus!

verus! {

/// A string made of `v[a..b]`.
pub fn string_of(v: &Vec<char>, a: usize, b: usize) -> (r: String)
    requires
        a <= b <= v@.len(),
    ensures
        r@ == v@.subrange(a as int, b as int),
{
    let mut r = String::new();
    let mut i: usize = a;
    while i < b
        invariant
            a <= i <= b <= v@.len(),
            r@ == v@.subrange(a as int, i as int),
        decreases b - i,
    {
        r.push(v[i]);
        i = i + 1;
        assert(r@ =~= v@.subrange(a as int, i as int));
    }
    r
}

/// `char::is_whitespace`: the `White_Space` property of the Unicode
/// character database.
pub open spec fn is_white(c: char) -> bool {
    let u = c as u32;
    ||| 0x9 <= u <= 0xd
    ||| u == 0x20
    ||| u == 0x85
    ||| u == 0xa0
    ||| u == 0x1680
    ||| 0x2000 <= u <= 0x200a
    ||| u == 0x2028
    ||| u == 0x2029
    ||| u == 0x202f
    ||| u == 0x205f
    ||| u == 0x3000
}

pub fn is_white_char(c: char) -> (r: bool)
    ensures
        r == is_white(c),
{
    let u = c as u32;
    (0x9 <= u && u <= 0xd) || u == 0x20 || u == 0x85 || u == 0xa0 || u == 0x1680 || (0x2000 <= u
        && u <= 0x200a) || u == 0x2028 || u == 0x2029 || u == 0x202f || u == 0x205f || u == 0x3000
}

/// `str::trim_start`: `s` without its leading white space.
pub open spec fn trim_start(s: Seq<char>) -> Seq<char>
    decreases s.len(),
{
    if s.len() > 0 && is_white(s[0]) {
        trim_start(s.drop_first())
    } else {
        s
    }
}

/// `str::trim_end`: `s` without its trailing white space.
pub open spec fn trim_end(s: Seq<char>) -> Seq<char>
    decreases s.len(),
{
    if s.len() > 0 && is_white(s.last()) {
        trim_end(s.drop_last())
    } else {
        s
    }
}

/// `str::trim`.
pub open spec fn trim(s: Seq<char>) -> Seq<char> {
    trim_end(trim_start(s))
}

/// The position of the first `c` in `s`.
pub open spec fn index_of(s: Seq<char>, c: char) -> Option<int>
    decreases s.len(),
{
    if s.len() == 0 {
        None
    } else if s[0] == c {
        Some(0)
    } else {
        match index_of(s.drop_first(), c) {
            Some(i) => Some(i + 1),
            None => None,
        }
    }
}

/// `str::split_once`: what comes before and after the first `c`.
pub open spec fn split_once(s: Seq<char>, c: char) -> Option<(Seq<char>, Seq<char>)> {
    match index_of(s, c) {
        Some(i) => Some((s.take(i), s.skip(i + 1))),
        None => None,
    }
}

pub proof fn lemma_index_of(s: Seq<char>, c: char)
    ensures
        match index_of(s, c) {
            Some(i) => 0 <= i < s.len() && s[i] == c && forall|j: int| 0 <= j < i ==> s[j] != c,
            None => forall|j: int| 0 <= j < s.len() ==> s[j] != c,
        },
    decreases s.len(),
{
    if s.len() > 0 && s[0] != c {
        lemma_index_of(s.drop_first(), c);
        match index_of(s.drop_first(), c) {
            Some(i) => {
                assert forall|j: int| 0 <= j < i + 1 implies s[j] != c by {
                    if j > 0 {
                        assert(s[j] == s.drop_first()[j - 1]);
                    }
                }
            },
            None => {
                assert forall|j: int| 0 <= j < s.len() implies s[j] != c by {
                    if j > 0 {
                        assert(s[j] == s.drop_first()[j - 1]);
                    }
                }
            },
        }
    }
}

/// The first position fixes `index_of`.
pub proof fn lemma_index_of_at(s: Seq<char>, c: char, i: int)
    requires
        0 <= i < s.len(),
        s[i] == c,
        forall|j: int| 0 <= j < i ==> s[j] != c,
    ensures
        index_of(s, c) == Some(i),
{
    lemma_index_of(s, c);
    match index_of(s, c) {
        Some(k) => {
            if k < i {
                assert(s[k] != c);
            } else if k > i {
                assert(s[i] != c);
            }
        },
        None => {
            assert(s[i] != c);
        },
    }
}

pub proof fn lemma_index_of_none(s: Seq<char>, c: char)
    requires
        forall|j: int| 0 <= j < s.len() ==> s[j] != c,
    ensures
        index_of(s, c) is None,
{
    lemma_index_of(s, c);
    match index_of(s, c) {
        Some(k) => {
            assert(s[k] != c);
        },
        None => {},
    }
}

/// Leading white space can be dropped before trimming the start.
pub proof fn lemma_trim_start_skip(s: Seq<char>, k: int)
    requires
        0 <= k <= s.len(),
        forall|j: int| 0 <= j < k ==> is_white(#[trigger] s[j]),
    ensures
        trim_start(s) == trim_start(s.skip(k)),
    decreases k,
{
    if k == 0 {
        assert(s.skip(0) =~= s);
    } else {
        assert(is_white(s[0]));
        let t = s.drop_first();
        assert forall|j: int| 0 <= j < k - 1 implies is_white(#[trigger] t[j]) by {
            assert(t[j] == s[j + 1]);
        }
        lemma_trim_start_skip(t, k - 1);
        assert(t.skip(k - 1) =~= s.skip(k));
    }
}

/// Trailing white space can be dropped before trimming the end.
pub proof fn lemma_trim_end_take(s: Seq<char>, k: int)
    requires
        0 <= k <= s.len(),
        forall|j: int| k <= j < s.len() ==> is_white(#[trigger] s[j]),
    ensures
        trim_end(s) == trim_end(s.take(k)),
    decreases s.len() - k,
{
    if k == s.len() {
        assert(s.take(k) =~= s);
    } else {
        assert(is_white(s[s.len() - 1]));
        let t = s.drop_last();
        assert forall|j: int| k <= j < t.len() implies is_white(#[trigger] t[j]) by {
            assert(t[j] == s[j]);
        }
        lemma_trim_end_take(t, k);
        assert(t.take(k) =~= s.take(k));
    }
}

/// Trimming the end of `p + q` only touches `q`, when something in `q` or
/// the end of `p` is not white space.
pub proof fn lemma_trim_end_concat(p: Seq<char>, q: Seq<char>)
    requires
        (exists|j: int| 0 <= j < q.len() && !is_white(#[trigger] q[j])) || (p.len() > 0 && !is_white(
            p.last(),
        )),
    ensures
        trim_end(p + q) == p + trim_end(q),
    decreases q.len(),
{
    if q.len() == 0 {
        assert(p + q =~= p);
        assert(p + trim_end(q) =~= p);
    } else if is_white(q.last()) {
        let q1 = q.drop_last();
        assert((p + q).last() == q.last());
        assert((p + q).drop_last() =~= p + q1);
        if exists|j: int| 0 <= j < q.len() && !is_white(#[trigger] q[j]) {
            let j = choose|j: int| 0 <= j < q.len() && !is_white(#[trigger] q[j]);
            assert(j < q.len() - 1);
            assert(q1[j] == q[j]);
        }
        lemma_trim_end_concat(p, q1);
    } else {
        assert((p + q).last() == q.last());
    }
}

/// White space alone trims to nothing at either end.
pub proof fn lemma_trim_all_white(s: Seq<char>)
    requires
        forall|j: int| 0 <= j < s.len() ==> is_white(#[trigger] s[j]),
    ensures
        trim_end(s) == Seq::<char>::empty(),
        trim_start(s) == Seq::<char>::empty(),
    decreases s.len(),
{
    if s.len() > 0 {
        let t = s.drop_last();
        assert forall|j: int| 0 <= j < t.len() implies is_white(#[trigger] t[j]) by {
            assert(t[j] == s[j]);
        }
        assert(is_white(s[s.len() - 1]));
        lemma_trim_all_white(t);
        let u = s.drop_first();
        assert forall|j: int| 0 <= j < u.len() implies is_white(#[trigger] u[j]) by {
            assert(u[j] == s[j + 1]);
        }
        assert(is_white(s[0]));
        lemma_trim_all_white(u);
    }
}

/// A string starting with a character other than white space keeps it
/// through trimming its end.
proof fn lemma_trim_end_keeps_head(s: Seq<char>)
    requires
        s.len() > 0,
        !is_white(s[0]),
    ensures
        trim_end(s).len() > 0,
        trim_end(s)[0] == s[0],
    decreases s.len(),
{
    if s.len() > 1 && is_white(s.last()) {
        assert(s.drop_last()[0] == s[0]);
        lemma_trim_end_keeps_head(s.drop_last());
    }
}

/// Trimming both ends does not depend on which end goes first.
pub proof fn lemma_trim_commutes(s: Seq<char>)
    ensures
        trim_start(trim_end(s)) == trim_end(trim_start(s)),
        trim(s) == trim_start(trim_end(s)),
    decreases s.len(),
{
    if s.len() == 0 {
    } else if is_white(s[0]) {
        let u = s.drop_first();
        lemma_trim_commutes(u);
        assert(trim_start(s) == trim_start(u));
        if exists|j: int| 0 <= j < u.len() && !is_white(#[trigger] u[j]) {
            lemma_trim_end_concat(seq![s[0]], u);
            assert(seq![s[0]] + u =~= s);
            let t = seq![s[0]] + trim_end(u);
            assert(t.drop_first() =~= trim_end(u));
            assert(trim_start(t) == trim_start(trim_end(u)));
        } else {
            assert forall|j: int| 0 <= j < s.len() implies is_white(#[trigger] s[j]) by {
                if j > 0 {
                    assert(s[j] == u[j - 1]);
                }
            }
            lemma_trim_all_white(s);
            lemma_trim_all_white(u);
        }
    } else {
        lemma_trim_end_keeps_head(s);
    }
}

/// The end of `v[a..b]` once its trailing white space is dropped.
pub fn trim_end_bound(v: &Vec<char>, a: usize, b: usize) -> (e: usize)
    requires
        a <= b <= v@.len(),
    ensures
        a <= e <= b,
        v@.subrange(a as int, e as int) == trim_end(v@.subrange(a as int, b as int)),
{
    let ghost sub = v@.subrange(a as int, b as int);
    let mut e: usize = b;
    while e > a && is_white_char(v[e - 1])
        invariant
            a <= e <= b <= v@.len(),
            sub == v@.subrange(a as int, b as int),
            forall|j: int| e <= j < b ==> is_white(#[trigger] v@[j]),
        decreases e - a,
    {
        e = e - 1;
    }
    proof {
        assert forall|j: int| e - a <= j < sub.len() implies is_white(#[trigger] sub[j]) by {
            assert(sub[j] == v@[a + j]);
        }
        lemma_trim_end_take(sub, e - a);
        assert(sub.take(e - a) =~= v@.subrange(a as int, e as int));
    }
    e
}

/// The start of `v[a..b]` once its leading white space is dropped.
pub fn trim_start_bound(v: &Vec<char>, a: usize, b: usize) -> (k: usize)
    requires
        a <= b <= v@.len(),
    ensures
        a <= k <= b,
        v@.subrange(k as int, b as int) == trim_start(v@.subrange(a as int, b as int)),
{
    let ghost sub = v@.subrange(a as int, b as int);
    let mut k: usize = a;
    while k < b && is_white_char(v[k])
        invariant
            a <= k <= b <= v@.len(),
            sub == v@.subrange(a as int, b as int),
            forall|j: int| a <= j < k ==> is_white(#[trigger] v@[j]),
        decreases b - k,
    {
        k = k + 1;
    }
    proof {
        assert forall|j: int| 0 <= j < k - a implies is_white(#[trigger] sub[j]) by {
            assert(sub[j] == v@[a + j]);
        }
        lemma_trim_start_skip(sub, k - a);
        assert(sub.skip(k - a) =~= v@.subrange(k as int, b as int));
    }
    k
}

/// The bounds of `v[a..b]` trimmed of white space on both ends.
pub fn trim_bounds(v: &Vec<char>, a: usize, b: usize) -> (r: (usize, usize))
    requires
        a <= b <= v@.len(),
    ensures
        a <= r.0 <= r.1 <= b,
        v@.subrange(r.0 as int, r.1 as int) == trim(v@.subrange(a as int, b as int)),
{
    let k = trim_start_bound(v, a, b);
    let e = trim_end_bound(v, k, b);
    (k, e)
}

/// The position of the first `c` in `v[a..b]`.
pub fn find_char(v: &Vec<char>, a: usize, b: usize, c: char) -> (r: Option<usize>)
    requires
        a <= b <= v@.len(),
    ensures
        match r {
            Some(i) => a <= i < b && index_of(v@.subrange(a as int, b as int), c) == Some(
                i - a,
            ),
            None => index_of(v@.subrange(a as int, b as int), c) is None,
        },
{
    let ghost sub = v@.subrange(a as int, b as int);
    let mut i: usize = a;
    while i < b
        invariant
            a <= i <= b <= v@.len(),
            sub == v@.subrange(a as int, b as int),
            forall|j: int| a <= j < i ==> v@[j] != c,
        decreases b - i,
    {
        if v[i] == c {
            proof {
                assert forall|j: int| 0 <= j < i - a implies sub[j] != c by {
                    assert(sub[j] == v@[a + j]);
                }
                lemma_index_of_at(sub, c, i - a);
            }
            return Some(i);
        }
        i = i + 1;
    }
    proof {
        assert forall|j: int| 0 <= j < sub.len() implies sub[j] != c by {
            assert(sub[j] == v@[a + j]);
        }
        lemma_index_of_none(sub, c);
    }
    None
}

} // verus!

verus! {

/// Whether `v[a..b]` spells `w`.
pub fn range_equals(v: &Vec<char>, a: usize, b: usize, w: &Vec<char>) -> (r: bool)
    requires
        a <= b <= v@.len(),
    ensures
        r == (v@.subrange(a as int, b as int) == w@),
{
    if b - a != w.len() {
        proof {
            assert(v@.subrange(a as int, b as int).len() != w@.len());
        }
        return false;
    }
    let mut i: usize = 0;
    while i < w.len()
        invariant
            b - a == w@.len(),
            a <= b <= v@.len(),
            0 <= i <= w@.len(),
            forall|j: int| 0 <= j < i ==> v@[a + j] == w@[j],
        decreases w@.len() - i,
    {
        if v[a + i] != w[i] {
            proof {
                assert(v@.subrange(a as int, b as int)[i as int] != w@[i as int]);
            }
            return false;
        }
        i = i + 1;
    }
    assert(v@.subrange(a as int, b as int) =~= w@);
    true
}

/// Whether `a` and `b` hold the same characters.
pub fn str_equals(a: &str, b: &str) -> (r: bool)
    ensures
        r == (a@ == b@),
{
    let x = a.to_owned();
    let y = b.to_owned();
    x == y
}

/// Appends every character of `s` to `r`.
pub fn push_str(r: &mut String, s: &str)
    ensures
        final(r)@ == old(r)@ + s@,
{
    let v = chars_of(s);
    let mut i: usize = 0;
    while i < v.len()
        invariant
            0 <= i <= v@.len(),
            v@ == s@,
            r@ == old(r)@ + v@.take(i as int),
        decreases v@.len() - i,
    {
        r.push(v[i]);
        i = i + 1;
        assert(r@ =~= old(r)@ + v@.take(i as int));
    }
    assert(v@.take(v@.len() as int) =~= v@);
}

/// Appends `v[a..b]` to `r`.
pub fn push_range(r: &mut String, v: &Vec<char>, a: usize, b: usize)
    requires
        a <= b <= v@.len(),
    ensures
        final(r)@ == old(r)@ + v@.subrange(a as int, b as int),
{
    let mut i: usize = a;
    while i < b
        invariant
            a <= i <= b <= v@.len(),
            r@ == old(r)@ + v@.subrange(a as int, i as int),
        decreases b - i,
    {
        r.push(v[i]);
        i = i + 1;
        assert(r@ =~= old(r)@ + v@.subrange(a as int, i as int));
    }
}

} // verus!

verus! {

/// `'0'..='9'`.
pub open spec fn is_digit(c: char) -> bool {
    '0' <= c <= '9'
}

/// Every character of a non-empty `s` is a decimal digit.
pub open spec fn all_digits(s: Seq<char>) -> bool {
    s.len() > 0 && forall|i: int| 0 <= i < s.len() ==> is_digit(#[trigger] s[i])
}

/// The number the decimal digits of `s` spell.
pub open spec fn digits_value(s: Seq<char>) -> int
    decreases s.len(),
{
    if s.len() == 0 {
        0
    } else {
        digits_value(s.drop_last()) * 10 + (s.last() as int - '0' as int)
    }
}

/// The integer `s` spells as `from_str` reads it, before the range check: an
/// optional `+` (or `-` when `signed`) and at least one decimal digit,
/// nothing else.
pub open spec fn integer_literal(s: Seq<char>, signed: bool) -> Option<int> {
    if s.len() > 0 && s[0] == '+' {
        if all_digits(s.skip(1)) {
            Some(digits_value(s.skip(1)))
        } else {
            None
        }
    } else if s.len() > 0 && s[0] == '-' && signed {
        if all_digits(s.skip(1)) {
            Some(-digits_value(s.skip(1)))
        } else {
            None
        }
    } else if all_digits(s) {
        Some(digits_value(s))
    } else {
        None
    }
}

/// `i32::from_str`.
pub open spec fn parse_i32(s: Seq<char>) -> Option<i32> {
    match integer_literal(s, true) {
        Some(v) => if i32::MIN <= v <= i32::MAX {
            Some(v as i32)
        } else {
            None
        },
        None => None,
    }
}

/// `u32::from_str`.
pub open spec fn parse_u32(s: Seq<char>) -> Option<u32> {
    match integer_literal(s, false) {
        Some(v) => if 0 <= v <= u32::MAX {
            Some(v as u32)
        } else {
            None
        },
        None => None,
    }
}

pub proof fn lemma_digits_value_nonneg(s: Seq<char>)
    requires
        forall|i: int| 0 <= i < s.len() ==> is_digit(#[trigger] s[i]),
    ensures
        digits_value(s) >= 0,
    decreases s.len(),
{
    if s.len() > 0 {
        lemma_digits_value_nonneg(s.drop_last());
    }
}

/// Appending digits never makes the number smaller.
pub proof fn lemma_digits_value_prefix(s: Seq<char>, k: int)
    requires
        0 <= k <= s.len(),
        forall|i: int| 0 <= i < s.len() ==> is_digit(#[trigger] s[i]),
    ensures
        digits_value(s.take(k)) <= digits_value(s),
    decreases s.len() - k,
{
    if k == s.len() {
        assert(s.take(k) =~= s);
    } else {
        let t = s.drop_last();
        lemma_digits_value_prefix(t, k);
        assert(t.take(k) =~= s.take(k));
        lemma_digits_value_nonneg(t);
    }
}

/// The value of the digits `v[a..b]` when all of them are digits and it
/// is at most `limit`.
pub fn digits_up_to(v: &Vec<char>, a: usize, b: usize, limit: u64) -> (r: Option<u64>)
    requires
        a <= b <= v@.len(),
        limit <= u32::MAX + 1,
    ensures
        match r {
            Some(x) => all_digits(v@.subrange(a as int, b as int)) && x == digits_value(
                v@.subrange(a as int, b as int),
            ) && x <= limit,
            None => !all_digits(v@.subrange(a as int, b as int)) || digits_value(
                v@.subrange(a as int, b as int),
            ) > limit,
        },
{
    let ghost s = v@.subrange(a as int, b as int);
    if a == b {
        return None;
    }
    let mut acc: u64 = 0;
    let mut i: usize = a;
    while i < b
        invariant
            a <= i <= b <= v@.len(),
            s == v@.subrange(a as int, b as int),
            limit <= u32::MAX + 1,
            acc <= limit,
            acc == digits_value(v@.subrange(a as int, i as int)),
            forall|j: int| a <= j < i ==> is_digit(#[trigger] v@[j]),
        decreases b - i,
    {
        let c = v[i];
        if !('0' <= c && c <= '9') {
            proof {
                assert(!is_digit(s[i - a]));
            }
            return None;
        }
        let d = (c as u32 - '0' as u32) as u64;
        proof {
            let p = v@.subrange(a as int, i + 1);
            assert(p.drop_last() =~= v@.subrange(a as int, i as int));
            assert(p.last() == c);
        }
        acc = acc * 10 + d;
        i = i + 1;
        if acc > limit {
            proof {
                if all_digits(s) {
                    lemma_digits_value_prefix(s, i - a);
                    assert(s.take(i - a) =~= v@.subrange(a as int, i as int));
                }
            }
            return None;
        }
    }
    proof {
        assert(s =~= v@.subrange(a as int, i as int));
        assert forall|j: int| 0 <= j < s.len() implies is_digit(#[trigger] s[j]) by {
            assert(s[j] == v@[a + j]);
        }
    }
    Some(acc)
}

/// `v[a..b]` read as an `i32`, the way `i32::from_str` reads it.
pub fn parse_i32_range(v: &Vec<char>, a: usize, b: usize) -> (r: Option<i32>)
    requires
        a <= b <= v@.len(),
    ensures
        r == parse_i32(v@.subrange(a as int, b as int)),
{
    let ghost s = v@.subrange(a as int, b as int);
    if a < b && (v[a] == '+' || v[a] == '-') {
        assert(s.skip(1) =~= v@.subrange(a + 1, b as int));
        let negative = v[a] == '-';
        let limit: u64 = if negative {
            0x8000_0000
        } else {
            0x7fff_ffff
        };
        match digits_up_to(v, a + 1, b, limit) {
            Some(x) => {
                if negative {
                    Some((0 - (x as i64)) as i32)
                } else {
                    Some(x as i32)
                }
            },
            None => None,
        }
    } else {
        match digits_up_to(v, a, b, 0x7fff_ffff) {
            Some(x) => Some(x as i32),
            None => None,
        }
    }
}

/// `v[a..b]` read as a `u32`, the way `u32::from_str` reads it.
pub fn parse_u32_range(v: &Vec<char>, a: usize, b: usize) -> (r: Option<u32>)
    requires
        a <= b <= v@.len(),
    ensures
        r == parse_u32(v@.subrange(a as int, b as int)),
{
    let ghost s = v@.subrange(a as int, b as int);
    if a < b && v[a] == '+' {
        assert(s.skip(1) =~= v@.subrange(a + 1, b as int));
        match digits_up_to(v, a + 1, b, 0xffff_ffff) {
            Some(x) => Some(x as u32),
            None => None,
        }
    } else {
        match digits_up_to(v, a, b, 0xffff_ffff) {
            Some(x) => Some(x as u32),
            None => None,
        }
    }
}

} // verus!

verus! {

/// What `str::to_lowercase` (std) makes of a string: its full Unicode
/// lowercase mapping, a function of the characters alone.
pub uninterp spec fn lowercase(s: Seq<char>) -> Seq<char>;

/// `str::to_lowercase` (std). Claimed: the result is `lowercase` of the
/// argument's characters. The mapping itself, which the Unicode character
/// database fixes, is not stated.
#[verifier::external_body]
pub(crate) fn to_lowercase(s: &str) -> (r: String)
    ensures
        r@ == lowercase(s@),
{
    s.to_lowercase()
}

/// The non-empty pieces of `s` between the occurrences of `sep`, read from
/// `s` on with `cur` the piece read so far.
pub open spec fn fields_from(s: Seq<char>, sep: char, cur: Seq<char>) -> Seq<Seq<char>>
    decreases s.len(),
{
    if s.len() == 0 {
        if cur.len() > 0 {
            seq![cur]
        } else {
            seq![]
        }
    } else if s[0] == sep {
        (if cur.len() > 0 {
            seq![cur]
        } else {
            seq![]
        }) + fields_from(s.skip(1), sep, seq![])
    } else {
        fields_from(s.skip(1), sep, cur.push(s[0]))
    }
}

/// `s.split(sep).filter(|it| !it.is_empty())`.
pub open spec fn fields(s: Seq<char>, sep: char) -> Seq<Seq<char>> {
    fields_from(s, sep, seq![])
}

/// The views of a list of strings.
pub open spec fn views(v: Seq<String>) -> Seq<Seq<char>> {
    v.map_values(|x: String| x@)
}

/// `v` with `x` appended, seen through the views.
pub proof fn lemma_views_push(v: Seq<String>, x: String)
    ensures
        views(v.push(x)) == views(v).push(x@),
{
    assert(views(v.push(x)) =~= views(v).push(x@));
}

/// The non-empty pieces of `s` between the occurrences of `sep`.
pub fn split_fields(s: &str, sep: char) -> (r: Vec<String>)
    ensures
        views(r@) == fields(s@, sep),
{
    let v = chars_of(s);
    let n = v.len();
    let mut ret: Vec<String> = Vec::new();
    let mut current = String::new();
    let mut i: usize = 0;
    assert(views(ret@) =~= Seq::<Seq<char>>::empty());
    assert(v@.subrange(0, n as int) =~= v@);
    while i < n
        invariant
            n == v@.len(),
            v@ == s@,
            i <= n,
            views(ret@) + fields_from(v@.subrange(i as int, n as int), sep, current@) == fields(
                v@,
                sep,
            ),
        decreases n - i,
    {
        let ghost rest = v@.subrange(i as int, n as int);
        let ghost before = views(ret@);
        let ghost cur0 = current@;
        assert(rest.skip(1) =~= v@.subrange(i + 1, n as int));
        if v[i] == sep {
            if !current.as_str().is_empty() {
                let item = current;
                current = String::new();
                proof {
                    lemma_views_push(ret@, item);
                }
                ret.push(item);
            } else {
                assert(current@ =~= Seq::<char>::empty());
            }
            i = i + 1;
            assert(views(ret@) + fields_from(v@.subrange(i as int, n as int), sep, current@)
                =~= before + fields_from(rest, sep, cur0));
        } else {
            current.push(v[i]);
            i = i + 1;
        }
    }
    assert(v@.subrange(n as int, n as int) =~= Seq::<char>::empty());
    if !current.as_str().is_empty() {
        proof {
            lemma_views_push(ret@, current);
        }
        ret.push(current);
    }
    assert(views(ret@) =~= fields(v@, sep));
    ret
}

} // verus!

verus! {

/// The pieces of `s` between the occurrences of `sep`, empty ones included,
/// read from `s` on with `cur` the piece read so far.
pub open spec fn pieces_from(s: Seq<char>, sep: char, cur: Seq<char>) -> Seq<Seq<char>>
    decreases s.len(),
{
    if s.len() == 0 {
        seq![cur]
    } else if s[0] == sep {
        seq![cur] + pieces_from(s.skip(1), sep, seq![])
    } else {
        pieces_from(s.skip(1), sep, cur.push(s[0]))
    }
}

/// `str::split`: the pieces of `s` between the occurrences of `sep`, empty
/// ones included.
pub open spec fn split(s: Seq<char>, sep: char) -> Seq<Seq<char>> {
    pieces_from(s, sep, seq![])
}

/// The pieces of `s` between the occurrences of `sep`, empty ones included.
pub fn split_all(s: &str, sep: char) -> (r: Vec<String>)
    ensures
        views(r@) == split(s@, sep),
{
    let v = chars_of(s);
    let n = v.len();
    let mut ret: Vec<String> = Vec::new();
    let mut current = String::new();
    let mut i: usize = 0;
    assert(views(ret@) =~= Seq::<Seq<char>>::empty());
    assert(v@.subrange(0, n as int) =~= v@);
    while i < n
        invariant
            n == v@.len(),
            v@ == s@,
            i <= n,
            views(ret@) + pieces_from(v@.subrange(i as int, n as int), sep, current@) == split(
                v@,
                sep,
            ),
        decreases n - i,
    {
        let ghost rest = v@.subrange(i as int, n as int);
        let ghost before = views(ret@);
        let ghost cur0 = current@;
        assert(rest.skip(1) =~= v@.subrange(i + 1, n as int));
        if v[i] == sep {
            let item = current;
            current = String::new();
            proof {
                lemma_views_push(ret@, item);
            }
            ret.push(item);
            i = i + 1;
            assert(views(ret@) + pieces_from(v@.subrange(i as int, n as int), sep, current@)
                =~= before + pieces_from(rest, sep, cur0));
        } else {
            current.push(v[i]);
            i = i + 1;
        }
    }
    assert(v@.subrange(n as int, n as int) =~= Seq::<char>::empty());
    proof {
        lemma_views_push(ret@, current);
    }
    ret.push(current);
    assert(views(ret@) =~= split(v@, sep));
    ret
}

/// Whether `c` occurs in `s`.
pub fn contains_char(s: &str, c: char) -> (r: bool)
    ensures
        r == s@.contains(c),
{
    let v = chars_of(s);
    let mut i: usize = 0;
    while i < v.len()
        invariant
            i <= v@.len(),
            v@ == s@,
            forall|j: int| 0 <= j < i ==> v@[j] != c,
        decreases v@.len() - i,
    {
        if v[i] == c {
            assert(s@[i as int] == c);
            return true;
        }
        i = i + 1;
    }
    false
}

} // verus!

verus! {

/// The decimal digit for `d`.
pub open spec fn digit_char(d: int) -> char {
    if d == 0 {
        '0'
    } else if d == 1 {
        '1'
    } else if d == 2 {
        '2'
    } else if d == 3 {
        '3'
    } else if d == 4 {
        '4'
    } else if d == 5 {
        '5'
    } else if d == 6 {
        '6'
    } else if d == 7 {
        '7'
    } else if d == 8 {
        '8'
    } else {
        '9'
    }
}

/// `n` written in decimal, as `to_string` writes it.
pub open spec fn decimal(n: nat) -> Seq<char>
    decreases n,
{
    if n < 10 {
        seq![digit_char(n as int)]
    } else {
        decimal(n / 10) + seq![digit_char((n % 10) as int)]
    }
}

fn digit_of(d: u64) -> (c: char)
    requires
        d < 10,
    ensures
        c == digit_char(d as int),
{
    match d {
        0 => '0',
        1 => '1',
        2 => '2',
        3 => '3',
        4 => '4',
        5 => '5',
        6 => '6',
        7 => '7',
        8 => '8',
        _ => '9',
    }
}

/// `decimal` writes digits only, and they spell the number back.
pub proof fn lemma_decimal_reads_back(n: nat)
    ensures
        all_digits(decimal(n)),
        digits_value(decimal(n)) == n,
    decreases n,
{
    let s = decimal(n);
    if n >= 10 {
        lemma_decimal_reads_back(n / 10);
        let d = (n % 10) as int;
        assert(s.drop_last() =~= decimal(n / 10));
        assert(s.last() == digit_char(d));
        assert(digit_char(d) as int - '0' as int == d);
        assert(digits_value(s) == digits_value(s.drop_last()) * 10 + d);
        assert(is_digit(digit_char(d)));
        assert forall|i: int| 0 <= i < s.len() implies is_digit(#[trigger] s[i]) by {
            if i < s.len() - 1 {
                assert(s[i] == decimal(n / 10)[i]);
            }
        }
    } else {
        assert(digit_char(n as int) as int - '0' as int == n);
        assert(s.drop_last() =~= Seq::<char>::empty());
        assert(digits_value(s.drop_last()) == 0);
    }
}

/// Appends `n` written in decimal.
pub fn push_decimal(r: &mut String, n: u64)
    ensures
        final(r)@ == old(r)@ + decimal(n as nat),
    decreases n,
{
    if n >= 10 {
        push_decimal(r, n / 10);
    }
    let ghost r0 = r@;
    r.push(digit_of(n % 10));
    assert(r@ =~= old(r)@ + decimal(n as nat));
}

} // verus!

verus! {

/// `char::to_ascii_lowercase`.
pub open spec fn ascii_lower(c: char) -> char {
    if 'A' <= c <= 'Z' {
        ((c as u32) + 32) as char
    } else {
        c
    }
}

/// `str::eq_ignore_ascii_case`: equal once ASCII letters are folded to
/// lower case.
pub open spec fn eq_ascii_nocase(a: Seq<char>, b: Seq<char>) -> bool {
    a.len() == b.len() && forall|i: int| 0 <= i < a.len() ==> ascii_lower(#[trigger] a[i])
        == ascii_lower(b[i])
}

fn ascii_lower_char(c: char) -> (r: char)
    ensures
        r == ascii_lower(c),
{
    if 'A' <= c && c <= 'Z' {
        ((c as u8) + 32) as char
    } else {
        c
    }
}

/// `a.eq_ignore_ascii_case(b)`.
pub fn eq_ignore_ascii_case(a: &str, b: &str) -> (r: bool)
    ensures
        r == eq_ascii_nocase(a@, b@),
{
    let x = chars_of(a);
    let y = chars_of(b);
    if x.len() != y.len() {
        return false;
    }
    let mut i: usize = 0;
    while i < x.len()
        invariant
            x@ == a@,
            y@ == b@,
            x@.len() == y@.len(),
            i <= x@.len(),
            forall|j: int| 0 <= j < i ==> ascii_lower(#[trigger] x@[j]) == ascii_lower(y@[j]),
        decreases x@.len() - i,
    {
        if ascii_lower_char(x[i]) != ascii_lower_char(y[i]) {
            return false;
        }
        i = i + 1;
    }
    true
}

} // verus!
