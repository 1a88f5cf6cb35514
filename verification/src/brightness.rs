//! The backlight keeper: the level it restores at start, and when it stores
//! a new one.

use vstd::prelude::*;

use crate::text::{
    all_digits, chars_of, decimal, digits_value, integer_literal, is_white, lemma_decimal_reads_back,
    parse_i32, parse_i32_range, push_decimal, str_equals, trim, trim_bounds, trim_end, trim_start,
};

verus! {

/// The level last stored, with the device it was read from.
#[derive(Clone, Debug)]
pub struct BrightnessData {
    pub device: String,
    pub value: i32,
}

impl Default for BrightnessData {
    /// Nothing stored yet: no device, and a level that is never restored.
    fn default() -> (r: BrightnessData)
        ensures
            r.device@ == Seq::<char>::empty(),
            r.value == -2,
    {
        BrightnessData { device: String::new(), value: -2 }
    }
}

/// The level a `brightness` file holds: its content trimmed, read as an
/// `i32`.
pub fn brightness_value(content: &str) -> (r: Option<i32>)
    ensures
        r == parse_i32(trim(content@)),
{
    let v = chars_of(content);
    let n = v.len();
    assert(v@.subrange(0, n as int) =~= v@);
    let (a, b) = trim_bounds(&v, 0, n);
    parse_i32_range(&v, a, b)
}

/// Whether a stored level goes back to `brightness_path`: only to the device
/// it was read from, never to another one.
pub fn restores_to(brightness_path: &str, stored: &BrightnessData) -> (r: bool)
    ensures
        r == (brightness_path@ == stored.device@),
{
    str_equals(brightness_path, stored.device.as_str())
}

/// `i32::to_string`: the decimal digits of the magnitude, after a `-` when
/// the level is negative.
pub open spec fn signed_decimal(v: int) -> Seq<char> {
    if v < 0 {
        seq!['-'] + decimal((-v) as nat)
    } else {
        decimal(v as nat)
    }
}

/// What a restored level writes into `brightness_path`: its decimal text,
/// only when the stored device is that one; `None` writes nothing.
pub fn restore_content(brightness_path: &str, stored: &BrightnessData) -> (r: Option<String>)
    ensures
        brightness_path@ == stored.device@ ==> (r matches Some(t) && t@ == signed_decimal(stored.value as int)),
        brightness_path@ != stored.device@ ==> r is None,
{
    if !restores_to(brightness_path, stored) {
        return None;
    }
    let mut t = String::new();
    let v = stored.value;
    if v < 0 {
        t.push('-');
        let m: i64 = 0i64 - (v as i64);
        push_decimal(&mut t, m as u64);
    } else {
        push_decimal(&mut t, v as u64);
    }
    proof {
        assert(t@ =~= signed_decimal(v as int));
    }
    Some(t)
}

/// A level written by `restore_content` reads back, through
/// `brightness_value`, as the same level.
pub proof fn lemma_restored_level_reads_back(v: i32)
    ensures
        parse_i32(trim(signed_decimal(v as int))) == Some(v),
{
    let s = signed_decimal(v as int);
    let m: nat = if v < 0 {
        (-(v as int)) as nat
    } else {
        v as nat
    };
    lemma_decimal_reads_back(m);
    let d = decimal(m);
    assert(d.len() > 0);
    assert(crate::text::is_digit(d[0]));
    assert(crate::text::is_digit(d.last()));
    assert(s.len() > 0);
    assert(!is_white(s[0]));
    assert(!is_white(s.last())) by {
        assert(s.last() == d.last());
    }
    assert(trim_start(s) == s);
    assert(trim_end(s) == s);
    if v < 0 {
        assert(s.skip(1) =~= d);
        assert(integer_literal(s, true) == Some(-digits_value(d)));
    } else {
        assert(s == d);
        assert(s[0] != '+' && s[0] != '-');
        assert(all_digits(s));
    }
}

/// The keeper's view of the backlight: the level last seen.
#[derive(Clone, Copy, Debug)]
pub struct BrightnessMonitor {
    pub current: i32,
}

impl BrightnessMonitor {
    /// The keeper at start, from the stored level: a positive one is
    /// restored (the second result) and becomes the current level, anything
    /// else starts from 0 without restoring.
    pub fn start(stored: &BrightnessData) -> (r: (BrightnessMonitor, bool))
        ensures
            stored.value > 0 ==> r.0.current == stored.value && r.1,
            stored.value <= 0 ==> r.0.current == 0 && !r.1,
    {
        if stored.value > 0 {
            (BrightnessMonitor { current: stored.value }, true)
        } else {
            (BrightnessMonitor { current: 0 }, false)
        }
    }

    /// A level read off the device: it becomes the current one, and is to be
    /// stored when it differs from the one seen before.
    pub fn observe(&mut self, value: i32) -> (store: bool)
        ensures
            final(self).current == value,
            store == (old(self).current != value),
    {
        let store = self.current != value;
        self.current = value;
        store
    }
}

} // verus!
