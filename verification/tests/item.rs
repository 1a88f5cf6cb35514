use std::cmp::Ordering;

use xfce4_niri::item::{
    file_state, markup_of, rel_path_candidate, removable, set_state_step, shadowed_copy, show_in_desktop,
    sort_default, state_writes, store_writes, user_copy_mode, EntryRecord, Item, RcValue, SetStateStep, State,
};
use xfce4_niri::run_hook::RunHook;

fn record() -> EntryRecord {
    EntryRecord {
        kind: Some("Application".to_string()),
        name: Some("Screensaver".to_string()),
        icon: None,
        comment: Some("Lock the screen".to_string()),
        exec_markup: "xfce4-screensaver &amp; sleep".to_string(),
        hidden: false,
        run_hook: 4,
        show_in_override: false,
        not_show_in: Vec::new(),
        only_show_in: Vec::new(),
        try_exec: None,
    }
}

fn item(name: &str, show_in_xfce: bool) -> Item {
    let mut r = record();
    r.name = Some(name.to_string());
    r.comment = None;
    if !show_in_xfce {
        r.only_show_in = vec!["GNOME".to_string()];
    }
    let it = Item::new(&format!("autostart/{name}.desktop"), "XFCE", "application-x-executable", &r, true)
        .expect("an application entry");
    assert_eq!(it.show_in_xfce, show_in_xfce);
    it
}

fn strings(v: &[&str]) -> Vec<String> {
    v.iter().map(|it| it.to_string()).collect()
}

#[test]
fn item_is_enabled_needs_the_override_outside_this_desktop() {
    for (show_in_xfce, hidden, show_in_override, expected) in [
        (true, false, false, true),
        (true, false, true, true),
        (true, true, false, false),
        (true, true, true, false),
        (false, false, false, false),
        (false, false, true, true),
        (false, true, false, false),
        (false, true, true, false),
    ] {
        let mut item = item("entry", show_in_xfce);
        item.hidden = hidden;
        item.show_in_override = show_in_override;

        assert_eq!(
            item.is_enabled(),
            expected,
            "show_in_xfce {show_in_xfce}, hidden {hidden}, override {show_in_override}",
        );
    }
}

#[test]
fn item_is_removable_is_true_when_the_file_is_nowhere() {
    assert!(removable(&[]));
}

#[test]
fn removable_wants_every_directory_writable() {
    assert!(removable(&[true, true]));
    assert!(!removable(&[true, false]));
    assert!(!removable(&[false]));
}

fn markup(item: &Item) -> String {
    markup_of(&item.name, &item.comment, item.show_in_xfce)
}

#[test]
fn item_markup_appends_the_comment() {
    let mut item = item("Screensaver", true);
    assert_eq!(markup(&item), "Screensaver");

    item.comment = "Lock the screen".to_string();
    assert_eq!(markup(&item), "Screensaver (Lock the screen)");
}

#[test]
fn item_markup_is_italic_outside_this_desktop() {
    let mut item = item("Elsewhere", false);
    assert_eq!(markup(&item), "<i>Elsewhere</i>");

    item.comment = "Other desktop".to_string();
    assert_eq!(markup(&item), "<i>Elsewhere (Other desktop)</i>");
}

fn sort(a: &Item, b: &Item) -> Ordering {
    sort_default(a.show_in_xfce, b.show_in_xfce, a.name.cmp(&b.name))
}

#[test]
fn item_sort_default_puts_this_desktop_first() {
    let ours = item("zzz", true);
    let theirs = item("aaa", false);

    assert_eq!(sort(&ours, &theirs), Ordering::Less);
    assert_eq!(sort(&theirs, &ours), Ordering::Greater);
}

#[test]
fn item_sort_default_falls_back_to_the_name() {
    for show_in_xfce in [true, false] {
        let first = item("aaa", show_in_xfce);
        let second = item("bbb", show_in_xfce);

        assert_eq!(sort(&first, &second), Ordering::Less);
        assert_eq!(sort(&second, &first), Ordering::Greater);
        assert_eq!(sort(&first, &first), Ordering::Equal);
    }
}

#[test]
fn new_reads_every_field_of_the_record() {
    let it = Item::new("autostart/saver.desktop", "XFCE", "fallback-icon", &record(), false)
        .expect("no TryExec to miss");

    assert_eq!(it.name, "Screensaver");
    assert_eq!(it.icon, "fallback-icon");
    assert_eq!(it.comment, "Lock the screen");
    assert_eq!(it.rel_path, "autostart/saver.desktop");
    assert_eq!(it.tooltip, "<b>Command:</b> xfce4-screensaver &amp; sleep");
    assert!(it.run_hook == RunHook::Suspend);
    assert!(it.show_in_xfce);
    assert!(!it.hidden);
}

#[test]
fn new_skips_what_the_list_does_not_show() {
    let mut other = record();
    other.kind = Some("Link".to_string());
    assert!(Item::new("a", "XFCE", "i", &other, true).is_none());

    let mut kept_off = record();
    kept_off.not_show_in = strings(&["gnome", "xfce"]);
    assert!(Item::new("a", "XFCE", "i", &kept_off, true).is_none());

    let mut missing = record();
    missing.try_exec = Some("no-such-binary".to_string());
    assert!(Item::new("a", "XFCE", "i", &missing, false).is_none());
    assert!(Item::new("a", "XFCE", "i", &missing, true).is_some());

    let mut lower = record();
    lower.kind = Some("application".to_string());
    assert!(Item::new("a", "XFCE", "i", &lower, true).is_some());
}

#[test]
fn file_state_reads_the_toggle_off_one_file() {
    for (hidden, show_in_xfce, show_in_override, expected) in [
        (false, true, false, true),
        (false, true, true, true),
        (true, true, false, false),
        (true, true, true, false),
        (false, false, false, false),
        (false, false, true, true),
        (true, false, false, false),
        (true, false, true, false),
    ] {
        let only_show_in = if show_in_xfce { Vec::new() } else { strings(&["GNOME"]) };

        assert_eq!(
            file_state(hidden, &only_show_in, "XFCE", show_in_override, RunHook::Login.value()).enabled,
            expected,
            "hidden {hidden}, show_in_xfce {show_in_xfce}, override {show_in_override}",
        );
    }
}

#[test]
fn file_state_reads_the_trigger_off_one_file() {
    for run_hook in RunHook::all() {
        assert!(file_state(false, &[], "XFCE", false, run_hook.value()).run_hook == run_hook);
    }
}

#[test]
fn file_state_falls_back_to_enabled_on_login() {
    let state = file_state(false, &[], "XFCE", false, RunHook::Login.value());

    assert!(state.enabled);
    assert!(state.run_hook == RunHook::Login);
}

#[test]
fn file_state_matches_only_show_in_ignoring_case() {
    let listed = strings(&["gnome", "xfce"]);

    assert!(file_state(false, &listed, "XFCE", false, 0).enabled);
    assert!(!file_state(false, &listed, "KDE", false, 0).enabled);
}

#[test]
fn show_in_desktop_reads_an_empty_list_as_every_desktop() {
    assert!(show_in_desktop(&[], "XFCE"));
    assert!(show_in_desktop(&strings(&["Xfce"]), "XFCE"));
    assert!(!show_in_desktop(&strings(&["GNOME"]), "XFCE"));
}

#[test]
fn set_state_drops_the_user_copy_once_it_agrees_with_the_system_file() {
    let on = State { enabled: true, run_hook: RunHook::Login };
    let off = State { enabled: false, run_hook: RunHook::Login };
    let on_logout = State { enabled: true, run_hook: RunHook::Logout };

    assert!(set_state_step(Some(Some(on)), on, true) == SetStateStep::DropUserCopy);
    assert!(set_state_step(Some(Some(on)), on, false) == SetStateStep::DropUserCopy);
    assert!(set_state_step(Some(Some(on)), off, false) == SetStateStep::CopySystemThenWrite);
    assert!(set_state_step(Some(Some(on)), on_logout, true) == SetStateStep::WriteUserCopy);
    assert!(set_state_step(Some(None), on, false) == SetStateStep::CopySystemThenWrite);
    assert!(set_state_step(None, on, true) == SetStateStep::WriteUserCopy);
    assert!(set_state_step(None, on, false) == SetStateStep::NotFound);
}

#[test]
fn the_user_copy_is_made_writable_by_its_owner() {
    assert_eq!(user_copy_mode(0o444), 0o644);
    assert_eq!(user_copy_mode(0o755), 0o755);
    assert_eq!(user_copy_mode(0), 0o600);
}

#[test]
fn the_shadowed_copy_is_the_first_that_is_not_the_users() {
    let files = strings(&["/home/u/.config/autostart/a.desktop", "/etc/xdg/autostart/a.desktop", "/usr/x/a.desktop"]);

    assert_eq!(
        shadowed_copy(&files, "/home/u/.config/autostart/a.desktop").as_deref(),
        Some("/etc/xdg/autostart/a.desktop"),
    );
    assert_eq!(shadowed_copy(&files[..1], "/home/u/.config/autostart/a.desktop"), None);
    assert_eq!(shadowed_copy(&[], "/x"), None);
}

fn described(writes: &[xfce4_niri::item::RcWrite]) -> Vec<String> {
    writes
        .iter()
        .map(|w| match &w.value {
            RcValue::Text(s) => format!("{}={}", w.key, s),
            RcValue::Flag(b) => format!("{}={}", w.key, b),
            RcValue::Number(n) => format!("{}={}", w.key, n),
        })
        .collect()
}

#[test]
fn store_writes_a_whole_application_entry() {
    assert_eq!(
        described(&store_writes("Saver", "Locks", "saver --lock", RunHook::Restart)),
        vec![
            "Encoding=UTF-8",
            "Version=0.1.0",
            "Type=Application",
            "Name=Saver",
            "Comment=Locks",
            "Exec=saver --lock",
            "StartupNotify=false",
            "Terminal=false",
            "Hidden=false",
            "RunHook=3",
        ],
    );
}

#[test]
fn state_writes_the_override_only_outside_this_desktop() {
    let state = State { enabled: false, run_hook: RunHook::Hibernate };

    assert_eq!(described(&state_writes(&[], "XFCE", state)), vec!["Hidden=true", "RunHook=5"]);
    assert_eq!(
        described(&state_writes(&strings(&["GNOME"]), "XFCE", state)),
        vec!["Hidden=true", "X-XFCE-Autostart-Override=false", "RunHook=5"],
    );
}

#[test]
fn free_rel_path_candidates_number_the_name() {
    assert_eq!(rel_path_candidate("My/App", 0), "autostart/My-App.desktop");
    assert_eq!(rel_path_candidate("My/App", 1), "autostart/My-App-1.desktop");
    assert_eq!(rel_path_candidate("x", 42), "autostart/x-42.desktop");
}

/// What `state_writes` writes reads back, through `file_state`, as the state
/// asked for, whatever the file said before.
#[test]
fn state_writes_read_back_as_the_state() {
    for only_show_in in [Vec::new(), strings(&["GNOME"]), strings(&["xfce"])] {
        for enabled in [true, false] {
            for run_hook in RunHook::all() {
                for (hidden0, override0) in [(false, false), (true, true), (true, false), (false, true)] {
                    let state = State { enabled, run_hook };
                    let (mut hidden, mut show_in_override, mut hook) = (hidden0, override0, 6);
                    for w in state_writes(&only_show_in, "XFCE", state) {
                        match (w.key, w.value) {
                            ("Hidden", RcValue::Flag(b)) => hidden = b,
                            ("X-XFCE-Autostart-Override", RcValue::Flag(b)) => show_in_override = b,
                            ("RunHook", RcValue::Number(n)) => hook = n,
                            (key, _) => panic!("unexpected key {key}"),
                        }
                    }
                    assert!(file_state(hidden, &only_show_in, "XFCE", show_in_override, hook) == state);
                }
            }
        }
    }
}

/// A stored entry reads back as on, with the trigger it was stored with.
#[test]
fn a_stored_entry_reads_back_as_on_with_its_trigger() {
    for run_hook in RunHook::all() {
        let (mut hidden, mut hook) = (true, 6);
        for w in store_writes("n", "c", "e", run_hook) {
            match (w.key, w.value) {
                ("Hidden", RcValue::Flag(b)) => hidden = b,
                ("RunHook", RcValue::Number(n)) => hook = n,
                _ => {},
            }
        }
        assert!(file_state(hidden, &[], "XFCE", false, hook) == State { enabled: true, run_hook });
    }
}
