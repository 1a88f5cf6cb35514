use xfce4_niri::socket::{
    already_listening_message, closing_reply, command_line, reply_text, request_args, start_action, Probe, StartAction,
    REPLY_KO, REPLY_OK,
};

#[test]
fn handle_client_replies_ok_and_forwards_every_line() {
    assert_eq!(request_args("PING"), vec!["PING".to_string()]);
    assert_eq!(
        request_args("SET a b c d"),
        vec!["SET".to_string(), "a".to_string(), "b c d".to_string()],
    );
    assert_eq!(REPLY_OK, "OK");
}

#[test]
fn request_lines_are_trimmed_first() {
    assert_eq!(request_args("  SET a\r"), vec!["SET".to_string(), "a".to_string()]);
    assert_eq!(request_args(""), vec!["".to_string()]);
    assert_eq!(request_args("a  b"), vec!["a".to_string(), "".to_string(), "b".to_string()]);
}

#[test]
fn handle_client_stops_and_propagates_the_callback_error() {
    assert_eq!(closing_reply(false), REPLY_KO);
    assert_eq!(closing_reply(true), "OK");
}

#[test]
fn start_server_refuses_when_something_is_already_listening() {
    assert_eq!(start_action(true, Probe::Answered), StartAction::AlreadyListening);
    assert_eq!(already_listening_message("/run/x.sock"), "a server is already listening on /run/x.sock");
}

#[test]
fn start_server_clears_a_stale_socket_node() {
    assert_eq!(start_action(true, Probe::Refused), StartAction::RemoveStaleThenBind);
    assert_eq!(start_action(true, Probe::Failed), StartAction::ProbeFailed);
    assert_eq!(start_action(false, Probe::Failed), StartAction::Bind);
}

#[test]
fn the_client_joins_its_commands_and_the_server_splits_them_back() {
    let commands = vec!["SET".to_string(), "a".to_string(), "b".to_string(), "c".to_string()];
    let line = command_line(&commands);

    assert_eq!(line, "SET a b c");
    assert_eq!(request_args(&line), vec!["SET".to_string(), "a".to_string(), "b c".to_string()]);
    assert_eq!(command_line(&[]), "");
}

#[test]
fn the_client_prints_the_reply_without_its_line_end() {
    assert_eq!(reply_text("OK\n"), "OK");
    assert_eq!(reply_text("  KO  \r\n"), "  KO");
}
