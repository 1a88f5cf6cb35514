use xfce4_niri::brightness::{brightness_value, restore_content, restores_to, BrightnessData, BrightnessMonitor};

fn stored(device: &str, value: i32) -> BrightnessData {
    BrightnessData { device: device.to_string(), value }
}

#[test]
fn get_brightness_parses_the_trimmed_file_content() {
    assert_eq!(brightness_value("  42\n"), Some(42));
}

#[test]
fn get_brightness_fails_on_non_numeric_content() {
    assert_eq!(brightness_value("not a number"), None);
    assert_eq!(brightness_value(""), None);
    assert_eq!(brightness_value("4 2"), None);
}

#[test]
fn set_brightness_writes_the_value_when_the_device_matches() {
    let path = "/sys/class/backlight/intel_backlight/brightness";
    let content = restore_content(path, &stored(path, 77)).expect("the same device");

    assert_eq!(content, "77");
    assert_eq!(brightness_value(&content), Some(77));
}

#[test]
fn set_brightness_is_a_no_op_when_the_device_does_not_match() {
    let path = "/sys/class/backlight/intel_backlight/brightness";

    assert_eq!(restore_content(path, &stored("/sys/class/backlight/other-device/brightness", 77)), None);
    assert!(!restores_to(path, &stored("", 77)));
}

#[test]
fn a_restored_level_reads_back_as_itself() {
    for value in [0, 1, 9, 10, 255, -1, -2, 1_000_000, i32::MAX, i32::MIN] {
        let content = restore_content("d", &stored("d", value)).unwrap();
        assert_eq!(content, value.to_string());
        assert_eq!(brightness_value(&content), Some(value));
    }
}

#[test]
fn the_default_level_is_never_restored() {
    let data = BrightnessData::default();
    assert_eq!(data.device, "");
    assert_eq!(data.value, -2);

    let (monitor, restore) = BrightnessMonitor::start(&data);
    assert_eq!(monitor.current, 0);
    assert!(!restore);
}

#[test]
fn a_positive_level_is_restored_at_start() {
    let (monitor, restore) = BrightnessMonitor::start(&stored("d", 30));
    assert_eq!(monitor.current, 30);
    assert!(restore);
}

#[test]
fn only_a_changed_level_is_stored() {
    let (mut monitor, _) = BrightnessMonitor::start(&stored("d", 30));

    assert!(!monitor.observe(30));
    assert!(monitor.observe(31));
    assert_eq!(monitor.current, 31);
    assert!(!monitor.observe(31));
}
