//! When a write through a configuration view may go ahead.

use vstd::prelude::*;

verus! {

/// No value holds a `NUL`, which a C string cannot carry.
pub open spec fn nul_free(values: Seq<Seq<char>>) -> bool {
    forall|i: int| 0 <= i < values.len() ==> !(#[trigger] values[i]).contains('\0')
}

/// Whether a write of `values` (none for a delete or an integer or boolean
/// write, one for a string, several for a list) goes ahead: every value can
/// be handed to C and the view is not read only. Nothing is written when
/// this is `false`.
pub fn write_allowed(values: &[String], readonly: bool) -> (r: bool)
    ensures
        r == (!readonly && nul_free(values@.map_values(|v: String| v@))),
{
    let ghost vs = values@.map_values(|v: String| v@);
    let mut i: usize = 0;
    while i < values.len()
        invariant
            i <= values@.len(),
            vs == values@.map_values(|v: String| v@),
            forall|j: int| 0 <= j < i ==> !(#[trigger] vs[j]).contains('\0'),
        decreases values@.len() - i,
    {
        let v = values[i].as_str();
        if crate::text::contains_char(v, '\0') {
            assert(vs[i as int] == v@);
            return false;
        }
        i = i + 1;
    }
    !readonly
}

} // verus!
