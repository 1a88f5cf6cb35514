use xfce4_niri::niri_check::NiriCheck;

fn names(v: &[&str]) -> Vec<String> {
    v.iter().map(|it| it.to_string()).collect()
}

#[test]
fn socket_path_prefers_the_environment() {
    assert_eq!(
        NiriCheck::socket_from_env(Some("/run/user/1000/niri.chosen.sock")).as_deref(),
        Some("/run/user/1000/niri.chosen.sock"),
    );
}

#[test]
fn socket_path_is_none_without_a_runtime_dir() {
    assert_eq!(NiriCheck::socket_from_env(Some("")), None);
    assert_eq!(NiriCheck::socket_from_env(None), None);
}

#[test]
fn socket_path_is_none_when_the_runtime_dir_holds_no_socket() {
    assert_eq!(NiriCheck::pick_socket(&names(&["not-niri.sock", "niri.wayland-1.1.txt"]), None), None);
    assert_eq!(NiriCheck::pick_socket(&[], None), None);
}

#[test]
fn socket_path_keeps_the_sockets_of_this_display() {
    let listing = names(&["niri.wayland-1.123.sock", "niri.wayland-1.9.sock", "niri.wayland-2.5.sock", "other.sock"]);

    assert_eq!(
        NiriCheck::pick_socket(&listing, Some("wayland-1")).as_deref(),
        Some("niri.wayland-1.9.sock"),
    );

    // No display: every `niri.*.sock` is a candidate.
    assert_eq!(NiriCheck::pick_socket(&listing, None).as_deref(), Some("niri.wayland-2.5.sock"));
}

#[test]
fn socket_names_need_both_ends_and_the_display() {
    assert!(NiriCheck::is_socket_name("niri.wayland-1.42.sock", Some("wayland-1")));
    assert!(!NiriCheck::is_socket_name("niri.wayland-10.42.sock", Some("wayland-1")));
    assert!(NiriCheck::is_socket_name("niri.x.sock", None));
    assert!(!NiriCheck::is_socket_name("niri.sock", None));
    assert!(!NiriCheck::is_socket_name("niri.wayland-1.42.socket", None));
}

#[test]
fn version_reads_the_field_out_of_the_reply() {
    assert_eq!(NiriCheck::version("{\"Ok\":{\"Version\":\"25.05.1\"}}\n").as_deref(), Some("25.05.1"));
}

#[test]
fn version_is_none_when_the_reply_holds_no_version() {
    assert_eq!(NiriCheck::version("{\"Err\":\"unknown request\"}\n"), None);
    assert_eq!(NiriCheck::version("{\"Version\":\"unterminated"), None);
    assert_eq!(NiriCheck::version(""), None);
}

#[test]
fn version_reads_back_what_a_reply_carries() {
    for v in ["25.05.1", "", "1.0-beta"] {
        let reply = format!("{{\"Ok\":{{\"Version\":\"{v}\"}}}}");
        assert_eq!(NiriCheck::version(&reply).as_deref(), Some(v));
    }
}

#[test]
fn the_socket_path_comes_from_the_environment_or_the_runtime_dir() {
    let listing = names(&["niri.wayland-1.9.sock", "niri.wayland-1.123.sock", "other.sock"]);

    assert_eq!(
        NiriCheck::socket_path_from(Some("/x/niri.sock"), Some("/run/user/1000"), Some(&listing), None).as_deref(),
        Some("/x/niri.sock"),
    );
    assert_eq!(
        NiriCheck::socket_path_from(Some(""), Some("/run/user/1000"), Some(&listing), Some("wayland-1")).as_deref(),
        Some("/run/user/1000/niri.wayland-1.9.sock"),
    );
    assert_eq!(NiriCheck::socket_path_from(None, None, Some(&listing), None), None);
    assert_eq!(NiriCheck::socket_path_from(None, Some("/run/user/1000"), None, None), None);
    assert_eq!(NiriCheck::socket_path_from(None, Some("/run/user/1000"), Some(&[]), None), None);
}
