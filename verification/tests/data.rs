use xfce4_niri::brightness::BrightnessData;
use xfce4_niri::data::{
    check_autostart_dirs, check_requirements, read_step, write_check, write_complete, Data, FileProbe, LegacyData,
    ReadStep, Requirement, StorageError, LOCK_SCREEN_GLOBAL_FILE, LOCK_SCREEN_LOCAL_FILE,
};

const PRESENT: FileProbe = FileProbe { exists: true, executable: true };
const NOT_EXECUTABLE: FileProbe = FileProbe { exists: true, executable: false };
const MISSING: FileProbe = FileProbe { exists: false, executable: false };

fn data() -> Data {
    Data::from_env("/home/u", None, None)
}

#[test]
fn check_persistence_does_not_fail_when_only_the_local_autostart_dir_is_missing() {
    assert_eq!(
        check_autostart_dirs(true, "/home/u/missing", false),
        Ok(vec!["XDG home autostart folder not found: /home/u/missing".to_string()]),
    );
}

#[test]
fn check_persistence_ok_when_both_autostart_dirs_exist() {
    assert_eq!(check_autostart_dirs(true, "/home/u/.config/autostart", true), Ok(vec![]));
}

#[test]
fn a_missing_system_autostart_dir_stops_the_tool() {
    assert_eq!(
        check_autostart_dirs(false, "/home/u/.config/autostart", true),
        Err("XDG autostart folder not found: /etc/xdg/autostart".to_string()),
    );
}

#[test]
fn the_files_follow_the_xdg_variables() {
    let d = data();
    assert_eq!(d.xdg_home_autostart, "/home/u/.config/autostart");
    assert_eq!(d.brightness_file, "/home/u/.local/state/xfce4_niri_brightness");
    assert_eq!(d.lock_screen_file, "/home/u/.config/niri/bin/lock_screen");

    let d = Data::from_env("/home/u", Some("/cfg"), Some("/st"));
    assert_eq!(d.brightness_file, "/st/xfce4_niri_brightness");
    assert_eq!(d.lock_screen_file, "/cfg/niri/bin/lock_screen");
    assert_eq!(Data::home_autostart("/root"), "/root/.config/autostart");
}

#[test]
fn the_lock_screen_helper_is_the_first_one_found() {
    let mut d = data();
    assert_eq!(d.check_persistence(true, true, PRESENT, PRESENT, PRESENT), Ok(vec![]));
    assert_eq!(d.lock_screen_file, "/home/u/.config/niri/bin/lock_screen");

    let mut d = data();
    assert_eq!(d.check_persistence(true, true, MISSING, PRESENT, PRESENT), Ok(vec![]));
    assert_eq!(d.lock_screen_file, LOCK_SCREEN_LOCAL_FILE);

    let mut d = data();
    assert!(d.check_persistence(true, false, MISSING, MISSING, PRESENT).is_ok());
    assert_eq!(d.lock_screen_file, LOCK_SCREEN_GLOBAL_FILE);
}

#[test]
fn check_persistence_fails_without_a_runnable_helper() {
    let mut d = data();
    assert_eq!(
        d.check_persistence(true, true, MISSING, MISSING, MISSING),
        Err("Local lock screen file not found: /usr/local/libexec/lock_screen".to_string()),
    );
    assert_eq!(d.lock_screen_file, "/home/u/.config/niri/bin/lock_screen");

    let mut d = data();
    assert_eq!(
        d.check_persistence(true, true, MISSING, NOT_EXECUTABLE, PRESENT),
        Err("Lock screen file is not executable: /home/u/.config/niri/bin/lock_screen".to_string()),
    );

    let mut d = data();
    assert!(d.check_persistence(false, true, PRESENT, PRESENT, PRESENT).is_err());
}

#[test]
fn requirements_stop_at_the_first_missing_mandatory_one() {
    let req = |exists: bool, mandatory: bool, message: &str| Requirement {
        exists,
        mandatory,
        message: message.to_string(),
    };

    assert_eq!(
        check_requirements(&[req(false, false, "a"), req(true, true, "b"), req(false, false, "c")]),
        Ok(vec!["a".to_string(), "c".to_string()]),
    );
    assert_eq!(
        check_requirements(&[req(false, false, "a"), req(false, true, "b"), req(false, true, "c")]),
        Err("b".to_string()),
    );
}

#[test]
fn the_first_version_checked_the_niri_config_too() {
    let legacy = LegacyData::from_home("/home/u");
    assert_eq!(legacy.niri_file, "/home/u/.config/niri/config.kdl");

    let reqs = legacy.requirements(true, false, true, true);
    assert_eq!(check_requirements(&reqs), Err("Niri config folder not found: /home/u/.config/niri/niri.d".to_string()));
}

#[test]
fn read_brightness_defaults_when_the_file_is_missing() {
    assert_eq!(read_step(true, true, false, false), Ok(ReadStep::UseDefault));
    assert_eq!(BrightnessData::default().value, -2);
}

#[test]
fn read_brightness_does_not_fail_when_the_file_is_missing() {
    assert_eq!(read_step(true, true, false, false), Ok(ReadStep::UseDefault));
    assert_eq!(read_step(true, true, false, true), Ok(ReadStep::Decode));
}

#[test]
fn write_brightness_fails_when_the_parent_folder_is_missing() {
    assert_eq!(write_check(true, false, false), Err(StorageError::MissingFolder));
    assert_eq!(read_step(true, false, false, false), Err(StorageError::MissingFolder));
}

#[test]
fn write_brightness_fails_when_the_target_is_a_directory() {
    assert_eq!(write_check(true, true, true), Err(StorageError::IsFolder));
    assert_eq!(write_check(false, true, false), Err(StorageError::NoParent));
    assert_eq!(write_check(true, true, false), Ok(()));
}

#[test]
fn a_write_is_whole_only_when_every_encoded_byte_went_out() {
    assert!(write_complete(10, 10));
    assert!(!write_complete(10, 9));
    assert!(!write_complete(0, 0));
}
