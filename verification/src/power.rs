//! Which settings and power source signals matter, and what they say.

use vstd::prelude::*;

use crate::text::{str_equals, views};

verus! {

/// The UPower device type of a battery.
pub const DEVICE_TYPE_BATTERY: u32 = 2;

/// The power source as the watcher keeps it: on battery, whether a battery
/// is there, and its state.
pub fn power_source(on_battery: bool, device_type: u32, is_present: bool, state: u32) -> (r: (
    bool,
    bool,
    u32,
))
    ensures
        r == (on_battery, is_present && device_type == DEVICE_TYPE_BATTERY, state),
{
    (on_battery, is_present && device_type == DEVICE_TYPE_BATTERY, state)
}

/// A boolean setting as the power manager stores it: any non-zero value is
/// on.
pub fn flag_of(value: u64) -> (r: bool)
    ensures
        r == (value != 0),
{
    value != 0
}

/// Whether `name` is one of `keys`.
fn has_key(keys: &[String], name: &str) -> (r: bool)
    ensures
        r == views(keys@).contains(name@),
{
    let n = name.to_owned();
    let mut i: usize = 0;
    while i < keys.len()
        invariant
            i <= keys@.len(),
            n@ == name@,
            forall|j: int| 0 <= j < i ==> views(keys@)[j] != name@,
        decreases keys@.len() - i,
    {
        assert(views(keys@)[i as int] == keys@[i as int]@);
        if keys[i] == n {
            return true;
        }
        i = i + 1;
    }
    false
}

/// Whether a settings signal is the one a watcher registered for.
pub fn signal_matches(signal_channel: &str, signal_property: &str, channel: &str, property: &str) -> (r:
    bool)
    ensures
        r == (signal_channel@ == channel@ && signal_property@ == property@),
{
    str_equals(signal_channel, channel) && str_equals(signal_property, property)
}

/// Whether a change on the power manager object matters: on its interface,
/// and touching `OnBattery`.
pub fn manager_change_matters(interface: &str, expected: &str, changed: &[String]) -> (r: bool)
    ensures
        r == (interface@ == expected@ && views(changed@).contains("OnBattery"@)),
{
    str_equals(interface, expected) && has_key(changed, "OnBattery")
}

/// Whether a change on the display device matters: on its interface, and
/// touching `IsPresent`, `Type` or `State`.
pub fn device_change_matters(interface: &str, expected: &str, changed: &[String]) -> (r: bool)
    ensures
        r == (interface@ == expected@ && (views(changed@).contains("IsPresent"@) || views(
            changed@,
        ).contains("Type"@) || views(changed@).contains("State"@))),
{
    str_equals(interface, expected) && (has_key(changed, "IsPresent") || has_key(changed, "Type")
        || has_key(changed, "State"))
}

} // verus!
