use std::path::Path;

use xfce4_niri::desktop_entry::{current_desktops, locale_candidates, unescape, unescape_char, DesktopEntry};
use xfce4_niri::program::try_exec_candidates;

const SAMPLE: &str = "\
# a comment

[Desktop Entry]
Type=Application
Name=Power Manager
Name[it]=Power management
Comment=Keeps a\\syear\\nof stats
Exec=xfce4-power-manager --no-daemon %U
TryExec=/bin/sh
OnlyShowIn=XFCE;niri;
Categories=System;Settings\\;Extra;

[Desktop Action Foo]
Exec=should-be-ignored
Name=Foo
";

/// Whether the `TryExec` binary of `entry` is there, looked up the way the
/// service does, with the search path of a POSIX system.
fn try_exec_found(entry: &DesktopEntry) -> bool {
    match entry.raw("TryExec") {
        Some(binary) => try_exec_candidates(binary, "/usr/bin:/bin")
            .iter()
            .any(|it| Path::new(it).is_file()),
        None => true,
    }
}

fn should_autostart(entry: &DesktopEntry, desktops: &[String]) -> Result<(), &'static str> {
    entry.should_autostart(desktops, try_exec_found(entry))
}

#[test]
fn parses_only_the_desktop_entry_group() {
    let entry = DesktopEntry::parse(SAMPLE);

    assert_eq!(entry.string("Name").as_deref(), Some("Power Manager"));
    assert_eq!(entry.raw("Exec"), Some("xfce4-power-manager --no-daemon %U"));
}

#[test]
fn unescapes_string_values() {
    let entry = DesktopEntry::parse(SAMPLE);

    assert_eq!(entry.string("Comment").as_deref(), Some("Keeps a year\nof stats"));
}

#[test]
fn splits_lists_before_unescaping() {
    let entry = DesktopEntry::parse(SAMPLE);

    assert_eq!(entry.list("OnlyShowIn"), vec!["XFCE", "niri"]);
    assert_eq!(entry.list("Categories"), vec!["System", "Settings;Extra"]);
}

#[test]
fn resolves_localized_keys() {
    let entry = DesktopEntry::parse(SAMPLE);

    assert_eq!(entry.localized("Name", "it_IT.UTF-8").as_deref(), Some("Power management"));
    assert_eq!(entry.localized("Name", "de").as_deref(), Some("Power Manager"));
}

#[test]
fn prefers_the_most_specific_locale() {
    let entry = DesktopEntry::parse("[Desktop Entry]\nName=Generic\nName[pt]=Portugues\nName[pt_BR]=Brasileiro\n");

    // The country variant wins over the bare language, encoding ignored.
    assert_eq!(entry.localized("Name", "pt_BR.UTF-8").as_deref(), Some("Brasileiro"));
    assert_eq!(entry.localized("Name", "pt_PT.UTF-8").as_deref(), Some("Portugues"));
    assert_eq!(entry.localized("Name", "fr").as_deref(), Some("Generic"));
}

#[test]
fn builds_the_spec_locale_fallback_chain() {
    assert_eq!(locale_candidates("sr_RS.UTF-8@latin"), ["sr_RS@latin", "sr_RS", "sr@latin", "sr"]);
    assert_eq!(locale_candidates("it_IT.UTF-8"), ["it_IT", "it"]);
    assert_eq!(locale_candidates("it"), ["it"]);
}

#[test]
fn drops_field_codes_from_exec() {
    let entry = DesktopEntry::parse(SAMPLE);

    assert_eq!(entry.exec_argv(), vec!["xfce4-power-manager", "--no-daemon"]);
}

#[test]
fn keeps_quoted_exec_arguments_together() {
    let entry = DesktopEntry::parse("[Desktop Entry]\nExec=/bin/sh -c \"echo 100%% ok\"\n");

    assert_eq!(entry.exec_argv(), vec!["/bin/sh", "-c", "echo 100% ok"]);
}

#[test]
fn honours_only_show_in() {
    let entry = DesktopEntry::parse(SAMPLE);

    assert!(should_autostart(&entry, &["niri".to_string()]).is_ok());
    assert!(should_autostart(&entry, &["GNOME".to_string()]).is_err());
}

#[test]
fn skips_hidden_and_disabled_entries() {
    let hidden = DesktopEntry::parse("[Desktop Entry]\nType=Application\nExec=foo\nHidden=true\n");
    assert!(should_autostart(&hidden, &["niri".to_string()]).is_err());

    let disabled = DesktopEntry::parse("[Desktop Entry]\nType=Application\nExec=foo\nX-GNOME-Autostart-enabled=false\n");
    assert!(should_autostart(&disabled, &["niri".to_string()]).is_err());

    let missing = DesktopEntry::parse("[Desktop Entry]\nType=Application\nExec=foo\nTryExec=/nope/nope\n");
    assert!(should_autostart(&missing, &["niri".to_string()]).is_err());
}

#[test]
fn refusal_reasons_name_the_failing_check() {
    let desktops = ["niri".to_string()];

    let link = DesktopEntry::parse("[Desktop Entry]\nType=Link\n");
    assert_eq!(link.should_autostart(&desktops, true), Err("Type is not Application"));

    let hidden = DesktopEntry::parse("[Desktop Entry]\nType=Application\nHidden=true\n");
    assert_eq!(hidden.should_autostart(&desktops, true), Err("Hidden is true"));

    let disabled = DesktopEntry::parse("[Desktop Entry]\nType=Application\nX-GNOME-Autostart-enabled=false\n");
    assert_eq!(disabled.should_autostart(&desktops, true), Err("X-GNOME-Autostart-enabled is false"));

    // The Xfce override wins over GNOME's switch.
    let overridden = DesktopEntry::parse(
        "[Desktop Entry]\nType=Application\nX-GNOME-Autostart-enabled=false\nX-XFCE-Autostart-Override=true\n",
    );
    assert_eq!(overridden.should_autostart(&desktops, true), Ok(()));

    let elsewhere = DesktopEntry::parse("[Desktop Entry]\nType=Application\nNotShowIn=GNOME;NIRI;\n");
    assert_eq!(elsewhere.should_autostart(&desktops, true), Err("NotShowIn matches the current desktop"));

    let missing = DesktopEntry::parse("[Desktop Entry]\nType=Application\nTryExec=nope\n");
    assert_eq!(missing.should_autostart(&desktops, false), Err("TryExec binary not found"));
    assert_eq!(missing.should_autostart(&desktops, true), Ok(()));
}

/// A trigger other than login starts the entry whatever the desktop lists say.
#[test]
fn a_non_login_trigger_skips_the_desktop_checks() {
    let desktops = ["GNOME".to_string()];

    let on_logout = DesktopEntry::parse("[Desktop Entry]\nType=Application\nRunHook=1\nOnlyShowIn=XFCE;\n");
    assert_eq!(on_logout.should_autostart(&desktops, false), Ok(()));

    let on_login = DesktopEntry::parse("[Desktop Entry]\nType=Application\nRunHook=0\nOnlyShowIn=XFCE;\n");
    assert_eq!(on_login.should_autostart(&desktops, true), Err("OnlyShowIn does not match the current desktop"));
}

#[test]
fn later_keys_win_and_whitespace_is_trimmed() {
    let entry = DesktopEntry::parse("  [Desktop Entry]  \r\nName = first\nName=second  \n#Name=comment\nbroken line\n");

    assert_eq!(entry.raw("Name"), Some("second"));
    assert_eq!(entry.raw("Missing"), None);
    assert_eq!(entry.string("Missing"), None);
    assert_eq!(entry.list("Missing"), Vec::<String>::new());
    assert!(entry.exec_argv().is_empty());
}

#[test]
fn keys_outside_any_group_are_ignored() {
    let entry = DesktopEntry::parse("Name=orphan\n[Desktop Entry]\nType=Application\n");

    assert_eq!(entry.raw("Name"), None);
    assert_eq!(entry.raw("Type"), Some("Application"));
}

#[test]
fn booleans_and_integers_follow_their_exact_spelling() {
    let entry = DesktopEntry::parse(
        "[Desktop Entry]\nA=true\nB=false\nC=True\nD=42\nE=-7\nF=+3\nG=4x\nH=99999999999\nI=\n",
    );

    assert_eq!(entry.boolean("A"), Some(true));
    assert_eq!(entry.boolean("B"), Some(false));
    assert_eq!(entry.boolean("C"), None);
    assert_eq!(entry.integer("D"), Some(42));
    assert_eq!(entry.integer("E"), Some(-7));
    assert_eq!(entry.integer("F"), Some(3));
    assert_eq!(entry.integer("G"), None);
    assert_eq!(entry.integer("H"), None);
    assert_eq!(entry.integer("I"), None);
    assert_eq!(entry.integer("Z"), None);

    assert!(entry.contains_key("D"));
    assert!(!entry.contains_key("G"));
    assert!(!entry.contains_key("Z"));
}

#[test]
fn integers_reach_the_ends_of_i32() {
    let entry = DesktopEntry::parse("[Desktop Entry]\nMax=2147483647\nMin=-2147483648\nOver=2147483648\nUnder=-2147483649\nSign=-\n");

    assert_eq!(entry.integer("Max"), Some(i32::MAX));
    assert_eq!(entry.integer("Min"), Some(i32::MIN));
    assert_eq!(entry.integer("Over"), None);
    assert_eq!(entry.integer("Under"), None);
    assert_eq!(entry.integer("Sign"), None);
}

#[test]
fn unescape_resolves_known_sequences_only() {
    assert_eq!(unescape("a\\sb\\tc\\rd\\\\e\\;f\\xg\\"), "a b\tc\rd\\e;f\\xg\\");
    assert_eq!(unescape_char('n'), "\n");
    assert_eq!(unescape_char('q'), "\\q");
    assert_eq!(unescape("plain"), "plain");
}

#[test]
fn a_lone_backslash_ends_a_list_item() {
    let entry = DesktopEntry::parse("[Desktop Entry]\nL=a;;b\\\n");

    assert_eq!(entry.list("L"), vec!["a", "", "b\\"]);
}

#[test]
fn exec_escapes_depend_on_quoting() {
    let entry = DesktopEntry::parse("[Desktop Entry]\nExec=a\\sb \"c\\sd\" %f %%x \\\n");

    assert_eq!(entry.exec_argv(), vec!["a b", "csd", "%x"]);
}

#[test]
fn localized_lookup_covers_the_modifier() {
    let entry = DesktopEntry::parse("[Desktop Entry]\nName=Plain\nName[sr@latin]=Latinica\n");

    assert_eq!(entry.localized("Name", "sr_RS.UTF-8@latin").as_deref(), Some("Latinica"));
    assert_eq!(entry.localized("Name", "sr_RS.UTF-8").as_deref(), Some("Plain"));
    assert_eq!(entry.localized("Other", "sr").as_deref(), None);
}

#[test]
fn locale_candidates_without_a_country() {
    assert_eq!(locale_candidates("de@euro"), ["de@euro", "de"]);
    assert_eq!(locale_candidates(""), Vec::<String>::new());
}

#[test]
fn current_desktops_split_the_variable_and_fall_back() {
    assert_eq!(current_desktops(Some("GNOME:niri::")), vec!["GNOME", "niri"]);
    assert_eq!(current_desktops(Some("")), vec!["niri", "XFCE"]);
    assert_eq!(current_desktops(None), vec!["niri", "XFCE"]);
}

/// On lowercased desktops and lists the match is exact.
#[test]
fn the_lowered_verdict_matches_exactly() {
    let entry = DesktopEntry::parse("[Desktop Entry]\nType=Application\nExec=x\n");
    let v = |s: &[&str]| s.iter().map(|it| it.to_string()).collect::<Vec<_>>();

    assert_eq!(entry.should_autostart_lowered(&v(&["niri"]), &v(&["niri"]), &[], true), Ok(()));
    assert_eq!(
        entry.should_autostart_lowered(&v(&["niri"]), &v(&["NIRI"]), &[], true),
        Err("OnlyShowIn does not match the current desktop"),
    );
    assert_eq!(
        entry.should_autostart_lowered(&v(&["xfce", "niri"]), &[], &v(&["niri"]), true),
        Err("NotShowIn matches the current desktop"),
    );
    assert_eq!(entry.should_autostart(&v(&["NIRI"]), true), Ok(()));

    // Both sides are lowercased before they are compared.
    let listed = DesktopEntry::parse("[Desktop Entry]\nType=Application\nOnlyShowIn=Niri;\n");
    assert_eq!(listed.should_autostart(&v(&["NIRI"]), true), Ok(()));
    assert_eq!(
        listed.should_autostart(&v(&["GNOME"]), true),
        Err("OnlyShowIn does not match the current desktop"),
    );
}
