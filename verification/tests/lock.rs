use xfce4_niri::lock::{append_holder, get_safe_path, join_path, refusal_message, report_holder, runtime_file, uid_from_output, LOCK_FILE};

#[test]
fn acquire_defaults_the_file_name_to_lock_file() {
    assert_eq!(get_safe_path(Some("/run/user/1000"), 1000, None), "/run/user/1000/xfce4-niri-service.lock");
    assert_eq!(LOCK_FILE, "xfce4-niri-service.lock");
}

#[test]
fn the_runtime_dir_falls_back_to_one_per_user_under_tmp() {
    assert_eq!(get_safe_path(None, 1000, Some("test.lock")), "/tmp/xfce4-niri-1000/test.lock");
    assert_eq!(get_safe_path(Some("/run/user/7/"), 7, Some("a.sock")), "/run/user/7/a.sock");
}

#[test]
fn an_absolute_name_is_kept_as_it_is() {
    assert_eq!(get_safe_path(Some("/run/user/7"), 7, Some("/tmp/x/test.lock")), "/tmp/x/test.lock");
}

#[test]
fn dropping_data_removes_the_service_lock_file() {
    assert_eq!(runtime_file(Some("/run/user/5"), 5, LOCK_FILE), "/run/user/5/xfce4-niri-service.lock");
    assert_eq!(runtime_file(None, 5, LOCK_FILE), "/tmp/xfce4-niri-5/xfce4-niri-service.lock");
}

#[test]
fn acquire_refuses_a_second_instance_on_the_same_file() {
    assert_eq!(refusal_message("1234"), "Another instance running, pid:1234");

    let mut asked = Some(String::from("old"));
    report_holder(&mut asked, "1234");
    assert_eq!(asked.as_deref(), Some("1234"));

    let mut not_asked: Option<String> = None;
    report_holder(&mut not_asked, "1234");
    assert_eq!(not_asked, None);
}

#[test]
fn is_locked_is_true_while_another_lock_holds_it() {
    let mut asked = Some(String::new());
    append_holder(&mut asked, "42");
    assert_eq!(asked.as_deref(), Some("42"));

    let mut not_asked: Option<String> = None;
    append_holder(&mut not_asked, "42");
    assert_eq!(not_asked, None);
}

#[test]
fn the_uid_is_read_off_the_output_of_id() {
    assert_eq!(uid_from_output(Some("1000\n")), 1000);
    assert_eq!(uid_from_output(Some("nobody")), 0);
    assert_eq!(uid_from_output(None), 0);
}

#[test]
fn join_path_joins_as_paths_do() {
    assert_eq!(join_path("/a", "b"), "/a/b");
    assert_eq!(join_path("/a/", "b"), "/a/b");
    assert_eq!(join_path("/a", "/b"), "/b");
    assert_eq!(join_path("", "b"), "b");
}
