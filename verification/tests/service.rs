use xfce4_niri::dialog::{
    active_row, browse_starts_at_command, dialog_title, dialog_values, ok_sensitive, opens_context_menu,
    toolbar_sensitivity,
};
use xfce4_niri::lock_screen::{
    chassis_is_desktop, on_event, presentation_bits, watched_properties, watches_power_source, LockScreenAction,
    LockScreenData, PmChange, XFCE4_PM_PROPERTY_DPMS_ON_AC_SLEEP,
};
use xfce4_niri::power::{device_change_matters, flag_of, manager_change_matters, power_source, signal_matches};
use xfce4_niri::rc::write_allowed;
use xfce4_niri::run_hook::RunHook;

fn strings(v: &[&str]) -> Vec<String> {
    v.iter().map(|it| it.to_string()).collect()
}

#[test]
fn the_chassis_type_tells_a_desktop_from_a_laptop() {
    for desktop in ["3", "4\n", " 7 ", "13", "23", "24"] {
        assert!(chassis_is_desktop(Some(desktop)), "{desktop:?}");
    }
    for other in ["8", "9", "10", "1", "2", "30", "garbage", ""] {
        assert!(!chassis_is_desktop(Some(other)), "{other:?}");
    }
    assert!(!chassis_is_desktop(None));
}

#[test]
fn a_desktop_follows_the_sleep_timeout_a_laptop_the_display_ones() {
    let desktop = watched_properties(true);
    assert_eq!(desktop.len(), 3);
    assert_eq!(desktop[2], XFCE4_PM_PROPERTY_DPMS_ON_AC_SLEEP);
    assert!(!watches_power_source(true));

    let laptop = watched_properties(false);
    assert_eq!(
        laptop,
        vec![
            "/xfce4-power-manager/presentation-mode",
            "/xfce4-power-manager/dpms-enabled",
            "/xfce4-power-manager/dpms-on-ac-off",
            "/xfce4-power-manager/dpms-on-battery-off",
        ],
    );
    assert!(watches_power_source(false));
}

#[test]
fn the_lock_screen_data_starts_empty() {
    let d = LockScreenData::default();
    assert_eq!(d, LockScreenData::new(false));
    assert_eq!(d.presentation_mode, 0);
    assert!(!d.is_desktop);
    assert!(LockScreenData::new(true).is_desktop);
}

#[test]
fn a_change_raises_the_bit_of_the_presentation_mode() {
    assert_eq!(presentation_bits(0), 1);
    assert_eq!(presentation_bits(1), 2);
    assert_eq!(presentation_bits(256 + 3), 8);
    assert_eq!(presentation_bits(31), 0xffff_ffff_8000_0000);
}

#[test]
fn the_watcher_stops_the_helper_outside_presentation_mode() {
    assert_eq!(on_event(0, 0), None);
    assert_eq!(on_event(1, 1), Some(LockScreenAction { stop_helper: false, entering_presentation: Some(true) }));
    assert_eq!(on_event(2, 0), Some(LockScreenAction { stop_helper: true, entering_presentation: Some(false) }));
    assert_eq!(on_event(4, 0), Some(LockScreenAction { stop_helper: true, entering_presentation: None }));
}

#[test]
fn the_power_source_is_a_battery_only_when_present() {
    assert_eq!(power_source(true, 2, true, 1), (true, true, 1));
    assert_eq!(power_source(false, 2, false, 0), (false, false, 0));
    assert_eq!(power_source(false, 1, true, 4), (false, false, 4));
    assert!(flag_of(7));
    assert!(!flag_of(0));
}

#[test]
fn only_the_signals_watched_matter() {
    assert!(signal_matches("xfce4-power-manager", "/p", "xfce4-power-manager", "/p"));
    assert!(!signal_matches("xfce4-power-manager", "/q", "xfce4-power-manager", "/p"));

    let iface = "org.freedesktop.UPower";
    assert!(manager_change_matters(iface, iface, &strings(&["Lid", "OnBattery"])));
    assert!(!manager_change_matters(iface, iface, &strings(&["Lid"])));
    assert!(!manager_change_matters("other", iface, &strings(&["OnBattery"])));

    let dev = "org.freedesktop.UPower.Device";
    assert!(device_change_matters(dev, dev, &strings(&["State"])));
    assert!(device_change_matters(dev, dev, &strings(&["Percentage", "Type"])));
    assert!(!device_change_matters(dev, dev, &strings(&["Percentage"])));
}

#[test]
fn the_dialog_edits_what_it_was_opened_on() {
    assert_eq!(dialog_title(None, None, None), "Add application");
    assert_eq!(dialog_title(Some("x"), None, None), "Edit application");
    assert!(ok_sensitive("n", "c"));
    assert!(!ok_sensitive("", "c"));
    assert!(!ok_sensitive("n", ""));
    assert!(browse_starts_at_command("/usr/bin/foo"));
    assert!(!browse_starts_at_command("foo"));
}

#[test]
fn the_dialog_hands_back_trimmed_texts_and_the_chosen_trigger() {
    let (name, descr, command, hook) = dialog_values(" Name ", "\tText\n", "cmd --x ", Some(2));
    assert_eq!((name.as_str(), descr.as_str(), command.as_str()), ("Name", "Text", "cmd --x"));
    assert!(hook == RunHook::Shutdown);

    let (_, _, _, hook) = dialog_values("", "", "", None);
    assert!(hook == RunHook::Login);

    for hook in RunHook::all() {
        assert_eq!(active_row(hook) as i32, hook.value());
    }
}

#[test]
fn the_window_reacts_to_the_right_button_and_the_selection() {
    assert!(opens_context_menu(3, true));
    assert!(!opens_context_menu(3, false));
    assert!(!opens_context_menu(1, true));
    assert_eq!(toolbar_sensitivity(true, false), (false, true));
    assert_eq!(toolbar_sensitivity(true, true), (true, true));
    assert_eq!(toolbar_sensitivity(false, true), (false, false));
}

#[test]
fn an_interior_nul_is_refused_by_the_writes() {
    assert!(!write_allowed(&strings(&["a\0b"]), false));
    assert!(!write_allowed(&strings(&["ok", "no\0"]), false));
}

#[test]
fn a_read_only_view_refuses_every_write() {
    assert!(!write_allowed(&[], true));
    assert!(!write_allowed(&strings(&["value"]), true));
    assert!(write_allowed(&strings(&["value", "other"]), false));
    assert!(write_allowed(&[], false));
}

#[test]
fn a_change_updates_its_field_and_raises_the_presentation_bit() {
    let mut d = LockScreenData::new(false);

    assert_eq!(d.apply(PmChange::DpmsEnabled(true)), 1);
    assert!(d.dpms_enabled);

    assert_eq!(d.apply(PmChange::PresentationMode(1)), 2);
    assert_eq!(d.presentation_mode, 1);

    assert_eq!(d.apply(PmChange::PowerSource(true, true, 2)), 2);
    assert!(d.battery_or_ac && d.has_battery);
    assert_eq!(d.state, 2);

    assert_eq!(d.apply(PmChange::DpmsOnBatteryOff(15)), 2);
    assert_eq!(d.dpms_on_battery_off, 15);
    assert!(d.dpms_enabled, "the other fields are kept");
}

#[test]
fn an_interior_nul_is_refused_everywhere() {
    for values in [strings(&["\0"]), strings(&["a\0b", "c"]), strings(&["c", "\0"])] {
        assert!(!write_allowed(&values, false));
        assert!(!write_allowed(&values, true));
    }
}
