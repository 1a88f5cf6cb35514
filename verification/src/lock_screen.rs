//! The lock screen watcher: what the machine is, which power manager
//! settings it follows, and what it does when one of them changes.

use vstd::prelude::*;

use crate::text::{chars_of, parse_u32, parse_u32_range, trim, trim_bounds};

verus! {

/// The settings channel of xfce4-power-manager.
pub const XFCE4_PM_CHANNEL: &'static str = "xfce4-power-manager";

pub const XFCE4_PM_PROPERTY_PRESENTATION_MODE: &'static str = "/xfce4-power-manager/presentation-mode";

pub const XFCE4_PM_PROPERTY_DPMS_ENABLED: &'static str = "/xfce4-power-manager/dpms-enabled";

pub const XFCE4_PM_PROPERTY_DPMS_ON_AC_SLEEP: &'static str = "/xfce4-power-manager/dpms-on-ac-sleep";

pub const XFCE4_PM_PROPERTY_DPMS_ON_AC_OFF: &'static str = "/xfce4-power-manager/dpms-on-ac-off";

pub const XFCE4_PM_PROPERTY_DPMS_ON_BATTERY_OFF: &'static str = "/xfce4-power-manager/dpms-on-battery-off";

/// The SMBIOS chassis types of a machine that stays on a desk: desktop,
/// tower, all-in-one, rack and their kin.
pub open spec fn is_desktop_chassis(t: u32) -> bool {
    t == 3 || t == 4 || t == 5 || t == 6 || t == 7 || t == 13 || t == 23 || t == 24
}

/// The chassis type `/sys/class/dmi/id/chassis_type` gives: `0` when the
/// file cannot be read (`None`), `8` (portable) when its trimmed content is
/// no `u32`.
pub open spec fn chassis_type(content: Option<Seq<char>>) -> u32 {
    match content {
        Some(c) => match parse_u32(trim(c)) {
            Some(t) => t,
            None => 8,
        },
        None => 0,
    }
}

/// Whether the machine is a desktop, from the content of its chassis type
/// file, `None` when that could not be read.
pub fn chassis_is_desktop(content: Option<&str>) -> (r: bool)
    ensures
        r == is_desktop_chassis(
            chassis_type(
                match content {
                    Some(c) => Some(c@),
                    None => None,
                },
            ),
        ),
{
    let t: u32 = match content {
        Some(c) => {
            let v = chars_of(c);
            let n = v.len();
            assert(v@.subrange(0, n as int) =~= v@);
            let (a, b) = trim_bounds(&v, 0, n);
            match parse_u32_range(&v, a, b) {
                Some(t) => t,
                None => 8,
            }
        },
        None => 0,
    };
    t == 3 || t == 4 || t == 5 || t == 6 || t == 7 || t == 13 || t == 23 || t == 24
}

/// The power manager settings the watcher follows: presentation mode and
/// DPMS, then the sleep timeout on AC for a desktop, the display off
/// timeouts otherwise.
pub open spec fn properties_for(is_desktop: bool) -> Seq<Seq<char>> {
    seq![XFCE4_PM_PROPERTY_PRESENTATION_MODE@, XFCE4_PM_PROPERTY_DPMS_ENABLED@] + if is_desktop {
        seq![XFCE4_PM_PROPERTY_DPMS_ON_AC_SLEEP@]
    } else {
        seq![XFCE4_PM_PROPERTY_DPMS_ON_AC_OFF@, XFCE4_PM_PROPERTY_DPMS_ON_BATTERY_OFF@]
    }
}

/// The settings to follow, in the order they are registered.
pub fn watched_properties(is_desktop: bool) -> (r: Vec<&'static str>)
    ensures
        r@.map_values(|p: &'static str| p@) == properties_for(is_desktop),
{
    let mut r: Vec<&'static str> = Vec::new();
    r.push(XFCE4_PM_PROPERTY_PRESENTATION_MODE);
    r.push(XFCE4_PM_PROPERTY_DPMS_ENABLED);
    if is_desktop {
        r.push(XFCE4_PM_PROPERTY_DPMS_ON_AC_SLEEP);
    } else {
        r.push(XFCE4_PM_PROPERTY_DPMS_ON_AC_OFF);
        r.push(XFCE4_PM_PROPERTY_DPMS_ON_BATTERY_OFF);
    }
    assert(r@.map_values(|p: &'static str| p@) =~= properties_for(is_desktop));
    r
}

/// Every machine follows presentation mode and DPMS; a desktop follows the
/// sleep timeout on AC and not the display off ones, any other machine the
/// display off timeouts on AC and on battery and not the sleep one.
pub proof fn lemma_followed_settings(is_desktop: bool)
    ensures
        properties_for(is_desktop).contains(XFCE4_PM_PROPERTY_PRESENTATION_MODE@),
        properties_for(is_desktop).contains(XFCE4_PM_PROPERTY_DPMS_ENABLED@),
        properties_for(is_desktop).contains(XFCE4_PM_PROPERTY_DPMS_ON_AC_SLEEP@) == is_desktop,
        properties_for(is_desktop).contains(XFCE4_PM_PROPERTY_DPMS_ON_AC_OFF@) == !is_desktop,
        properties_for(is_desktop).contains(XFCE4_PM_PROPERTY_DPMS_ON_BATTERY_OFF@) == !is_desktop,
        properties_for(is_desktop)[0] == XFCE4_PM_PROPERTY_PRESENTATION_MODE@,
{
    reveal_strlit("/xfce4-power-manager/presentation-mode");
    reveal_strlit("/xfce4-power-manager/dpms-enabled");
    reveal_strlit("/xfce4-power-manager/dpms-on-ac-sleep");
    reveal_strlit("/xfce4-power-manager/dpms-on-ac-off");
    reveal_strlit("/xfce4-power-manager/dpms-on-battery-off");
    let p = properties_for(is_desktop);
    let pm = XFCE4_PM_PROPERTY_PRESENTATION_MODE@;
    let de = XFCE4_PM_PROPERTY_DPMS_ENABLED@;
    let sl = XFCE4_PM_PROPERTY_DPMS_ON_AC_SLEEP@;
    let off = XFCE4_PM_PROPERTY_DPMS_ON_AC_OFF@;
    let bat = XFCE4_PM_PROPERTY_DPMS_ON_BATTERY_OFF@;
    // The five names differ at their 22nd character or in length.
    assert(pm[21] == 'p' && de[21] == 'd' && sl[21] == 'd' && off[21] == 'd' && bat[21] == 'd');
    assert(de[26] == 'e' && sl[26] == 'o' && off[26] == 'o' && bat[26] == 'o');
    assert(sl[29] == 'a' && off[29] == 'a' && bat[29] == 'b');
    assert(sl[32] == 's' && off[32] == 'o');
    assert(p[0] == pm && p[1] == de);
    if is_desktop {
        assert(p =~= seq![pm, de, sl]);
        assert(!p.contains(off)) by {
            assert(off != pm && off != de && off != sl);
        }
        assert(!p.contains(bat)) by {
            assert(bat != pm && bat != de && bat != sl);
        }
        assert(p[2] == sl);
    } else {
        assert(p =~= seq![pm, de, off, bat]);
        assert(!p.contains(sl)) by {
            assert(sl != pm && sl != de && sl != off && sl != bat);
        }
        assert(p[2] == off && p[3] == bat);
    }
}

/// Whether the watcher follows the power source too: only a machine that
/// is not a desktop has a battery worth following.
pub fn watches_power_source(is_desktop: bool) -> (r: bool)
    ensures
        r == !is_desktop,
{
    !is_desktop
}

/// The settings and power state the watcher keeps.
#[derive(Clone, Copy, Debug, PartialEq, Eq, Structural)]
pub struct LockScreenData {
    pub presentation_mode: u64,
    pub dpms_on_ac_sleep: u64,
    pub dpms_enabled: bool,
    pub dpms_on_ac_off: u64,
    pub dpms_on_battery_off: u64,
    pub is_desktop: bool,
    pub battery_or_ac: bool,
    pub has_battery: bool,
    pub state: u32,
}

impl Default for LockScreenData {
    /// Nothing known yet, on a machine taken not to be a desktop.
    fn default() -> (r: LockScreenData)
        ensures
            r == (LockScreenData {
                presentation_mode: 0,
                dpms_on_ac_sleep: 0,
                dpms_enabled: false,
                dpms_on_ac_off: 0,
                dpms_on_battery_off: 0,
                is_desktop: false,
                battery_or_ac: false,
                has_battery: false,
                state: 0,
            }),
    {
        LockScreenData::new(false)
    }
}

impl LockScreenData {
    /// Nothing known yet, on a machine that is a desktop or not.
    pub fn new(is_desktop: bool) -> (r: LockScreenData)
        ensures
            r == (LockScreenData {
                presentation_mode: 0,
                dpms_on_ac_sleep: 0,
                dpms_enabled: false,
                dpms_on_ac_off: 0,
                dpms_on_battery_off: 0,
                is_desktop,
                battery_or_ac: false,
                has_battery: false,
                state: 0,
            }),
    {
        LockScreenData {
            presentation_mode: 0,
            dpms_on_ac_sleep: 0,
            dpms_enabled: false,
            dpms_on_ac_off: 0,
            dpms_on_battery_off: 0,
            is_desktop,
            battery_or_ac: false,
            has_battery: false,
            state: 0,
        }
    }
}

/// The event bits a change raises: bit `presentation_mode` (its low byte)
/// of an `i32`, widened to the event bits' width.
pub open spec fn presentation_bits_of(presentation_mode: u64) -> u64 {
    let k = presentation_mode % 256;
    if k == 31 {
        0xffff_ffff_8000_0000
    } else {
        1u64 << (k as u64)
    }
}

/// The event bits a change raises. A presentation mode whose low byte is 32
/// or more would shift an `i32` past its width, so it is left out.
pub fn presentation_bits(presentation_mode: u64) -> (r: u64)
    requires
        presentation_mode % 256 < 32,
    ensures
        r == presentation_bits_of(presentation_mode),
{
    let k = presentation_mode % 256;
    if k == 31 {
        0xffff_ffff_8000_0000
    } else {
        1u64 << k
    }
}

/// A change the watcher is told of: one power manager setting, or the
/// power source as UPower reports it.
#[derive(Clone, Copy, Debug, PartialEq, Eq, Structural)]
pub enum PmChange {
    PresentationMode(u64),
    DpmsEnabled(bool),
    DpmsOnAcSleep(u64),
    DpmsOnAcOff(u64),
    DpmsOnBatteryOff(u64),
    /// On battery, whether a battery is there, and its state.
    PowerSource(bool, bool, u32),
}

/// The data once `change` is taken in: the field it names is replaced,
/// every other one kept.
pub open spec fn applied(d: LockScreenData, change: PmChange) -> LockScreenData {
    match change {
        PmChange::PresentationMode(v) => LockScreenData { presentation_mode: v, ..d },
        PmChange::DpmsEnabled(v) => LockScreenData { dpms_enabled: v, ..d },
        PmChange::DpmsOnAcSleep(v) => LockScreenData { dpms_on_ac_sleep: v, ..d },
        PmChange::DpmsOnAcOff(v) => LockScreenData { dpms_on_ac_off: v, ..d },
        PmChange::DpmsOnBatteryOff(v) => LockScreenData { dpms_on_battery_off: v, ..d },
        PmChange::PowerSource(on_battery, has_battery, state) => LockScreenData {
            battery_or_ac: on_battery,
            has_battery,
            state,
            ..d
        },
    }
}

impl LockScreenData {
    /// Takes in a change and returns the event bits it raises, those of the
    /// presentation mode once the change is in. A presentation mode whose
    /// low byte is 32 or more is left out, as for `presentation_bits`.
    pub fn apply(&mut self, change: PmChange) -> (bits: u64)
        requires
            applied(*old(self), change).presentation_mode % 256 < 32,
        ensures
            *final(self) == applied(*old(self), change),
            bits == presentation_bits_of(final(self).presentation_mode),
    {
        match change {
            PmChange::PresentationMode(v) => {
                self.presentation_mode = v;
            },
            PmChange::DpmsEnabled(v) => {
                self.dpms_enabled = v;
            },
            PmChange::DpmsOnAcSleep(v) => {
                self.dpms_on_ac_sleep = v;
            },
            PmChange::DpmsOnAcOff(v) => {
                self.dpms_on_ac_off = v;
            },
            PmChange::DpmsOnBatteryOff(v) => {
                self.dpms_on_battery_off = v;
            },
            PmChange::PowerSource(on_battery, has_battery, state) => {
                self.battery_or_ac = on_battery;
                self.has_battery = has_battery;
                self.state = state;
            },
        }
        presentation_bits(self.presentation_mode)
    }
}

/// What the watcher does about the bits it woke up on.
#[derive(Clone, Copy, Debug, PartialEq, Eq, Structural)]
pub struct LockScreenAction {
    /// Stop the running lock screen helper, if any.
    pub stop_helper: bool,
    /// The note to print: presentation mode turned on (bit 0 alone) or off
    /// (bit 1 alone).
    pub entering_presentation: Option<bool>,
}

/// The watcher's answer to `mask`, `None` when nothing woke it: outside
/// presentation mode the helper is stopped.
pub fn on_event(mask: u64, presentation_mode: u64) -> (r: Option<LockScreenAction>)
    ensures
        mask == 0 ==> r is None,
        mask != 0 ==> r == Some(
            LockScreenAction {
                stop_helper: presentation_mode == 0,
                entering_presentation: if mask == 1 {
                    Some(true)
                } else if mask == 2 {
                    Some(false)
                } else {
                    None
                },
            },
        ),
{
    if mask == 0 {
        return None;
    }
    let entering = if mask == 1 {
        Some(true)
    } else if mask == 2 {
        Some(false)
    } else {
        None
    };
    Some(LockScreenAction { stop_helper: presentation_mode == 0, entering_presentation: entering })
}

} // verus!
