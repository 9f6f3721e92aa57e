use beelog::address::parse_ipv4;
use beelog::bridge::{
    challenge_response, challenge_responses, BridgeError, ConnectAction, ConnectEvent, ConnectPhase, Connector,
    Dialect, SessionCore, SessionState, CONNECT_TIMEOUT_SECS, MARKER_TIMEOUT_SECS,
};
use beelog::config::ServerInfo;
use beelog::prompt::WaitOutcome;

fn server(host: &str, secret: Option<&str>) -> ServerInfo {
    ServerInfo {
        name: "jump".to_string(),
        host: host.to_string(),
        port: 2222,
        user: "ops".to_string(),
        key_path: "/home/ops/.ssh/id_rsa".to_string(),
        secret_code: secret.map(|s| s.to_string()),
    }
}

fn waited(marker: &str) -> ConnectEvent {
    ConnectEvent::Waited(WaitOutcome { marker: marker.to_string(), transcript: format!("... {}", marker) })
}

#[test]
fn parses_dotted_quads() {
    assert_eq!(parse_ipv4("10.0.12.255"), Some([10, 0, 12, 255]));
    assert_eq!(parse_ipv4("001.02.3.4"), Some([1, 2, 3, 4]));
    assert_eq!(parse_ipv4("10.0.0"), None);
    assert_eq!(parse_ipv4("10.0.0.1.5"), None);
    assert_eq!(parse_ipv4("10.0.0.256"), None);
    assert_eq!(parse_ipv4("10..0.1"), None);
    assert_eq!(parse_ipv4("bastion.example"), None);
    assert_eq!(parse_ipv4(""), None);
    assert_eq!(parse_ipv4("1.2.3.4 "), None);
}

#[test]
fn invalid_host_aborts_the_connect() {
    let mut c = Connector::new(server("jump.example.com", None), Dialect::standard(), None, vec![]);
    match c.start() {
        ConnectAction::Abort(BridgeError::InvalidAddress(h)) => assert_eq!(h, "jump.example.com"),
        _ => panic!("expected an invalid address"),
    }
    assert_eq!(c.phase(), ConnectPhase::Failed);
}

#[test]
fn full_connect_with_public_key_and_node_selection() {
    let node = "10.1.1.7".to_string();
    let mut c = Connector::new(server("192.168.0.10", None), Dialect::standard(), Some(node.clone()), vec![node.clone()]);
    match c.start() {
        ConnectAction::OpenTransport { address, port, timeout_secs } => {
            assert_eq!(address, [192, 168, 0, 10]);
            assert_eq!(port, 2222);
            assert_eq!(timeout_secs, CONNECT_TIMEOUT_SECS);
        }
        _ => panic!("expected the transport to be opened"),
    }
    match c.advance(ConnectEvent::Done) {
        ConnectAction::AuthenticatePublicKey { user, key_path } => {
            assert_eq!(user, "ops");
            assert_eq!(key_path, "/home/ops/.ssh/id_rsa");
        }
        _ => panic!("expected public-key authentication"),
    }
    assert!(matches!(c.advance(ConnectEvent::Done), ConnectAction::CheckAuthenticated));
    assert!(matches!(c.advance(ConnectEvent::Authenticated(true)), ConnectAction::OpenShell));
    match c.advance(ConnectEvent::Done) {
        ConnectAction::AwaitMarkers { markers, timeout_secs } => {
            assert_eq!(markers, vec!["Opt>".to_string()]);
            assert_eq!(timeout_secs, MARKER_TIMEOUT_SECS);
        }
        _ => panic!("expected a wait for the menu"),
    }
    match c.advance(waited("Opt>")) {
        ConnectAction::SendLine(l) => assert_eq!(l, "10.1.1.7\r"),
        _ => panic!("expected the node to be chosen"),
    }
    match c.advance(ConnectEvent::Done) {
        ConnectAction::AwaitMarkers { markers, .. } => assert_eq!(markers, vec![node.clone()]),
        _ => panic!("expected a wait for the node's shell"),
    }
    assert!(matches!(c.advance(waited("10.1.1.7")), ConnectAction::Established));
    assert_eq!(c.phase(), ConnectPhase::Ready);
}

#[test]
fn public_key_failure_falls_back_to_challenge_response() {
    let mut c = Connector::new(server("10.0.0.1", Some("GEZDGNBVGY3TQOJQ")), Dialect::standard(), None, vec![]);
    c.start();
    c.advance(ConnectEvent::Done);
    match c.advance(ConnectEvent::Failed("key rejected".to_string())) {
        ConnectAction::AuthenticateInteractive { user, secret, mfa_marker } => {
            assert_eq!(user, "ops");
            assert_eq!(secret, "GEZDGNBVGY3TQOJQ");
            assert_eq!(mfa_marker, "OTP Code");
        }
        _ => panic!("expected the keyboard-interactive fallback"),
    }
    match c.advance(ConnectEvent::Failed("bad code".to_string())) {
        ConnectAction::Abort(BridgeError::AuthError(m)) => assert_eq!(m, "bad code"),
        _ => panic!("expected an authentication error"),
    }
}

#[test]
fn public_key_failure_without_secret_is_an_auth_error() {
    let mut c = Connector::new(server("10.0.0.1", None), Dialect::standard(), None, vec![]);
    c.start();
    c.advance(ConnectEvent::Done);
    match c.advance(ConnectEvent::Failed("key rejected".to_string())) {
        ConnectAction::Abort(BridgeError::AuthError(m)) => assert_eq!(m, "key rejected"),
        _ => panic!("expected an authentication error"),
    }
}

#[test]
fn unauthenticated_session_is_an_auth_error() {
    let mut c = Connector::new(server("10.0.0.1", None), Dialect::standard(), None, vec![]);
    c.start();
    c.advance(ConnectEvent::Done);
    c.advance(ConnectEvent::Done);
    assert!(matches!(c.advance(ConnectEvent::Authenticated(false)), ConnectAction::Abort(BridgeError::AuthError(_))));
}

#[test]
fn transport_and_channel_failures_are_classified() {
    let mut c = Connector::new(server("10.0.0.1", None), Dialect::standard(), None, vec![]);
    c.start();
    match c.advance(ConnectEvent::Failed("refused".to_string())) {
        ConnectAction::Abort(BridgeError::ConnectionError(m)) => assert_eq!(m, "refused"),
        _ => panic!("expected a connection error"),
    }
    let mut c = Connector::new(server("10.0.0.1", None), Dialect::standard(), None, vec![]);
    c.start();
    c.advance(ConnectEvent::Done);
    c.advance(ConnectEvent::Done);
    c.advance(ConnectEvent::Authenticated(true));
    match c.advance(ConnectEvent::Failed("pty denied".to_string())) {
        ConnectAction::Abort(BridgeError::ChannelError(m)) => assert_eq!(m, "pty denied"),
        _ => panic!("expected a channel error"),
    }
}

#[test]
fn missing_menu_marker_is_a_protocol_timeout() {
    let mut c = Connector::new(server("10.0.0.1", None), Dialect::standard(), None, vec![]);
    c.start();
    c.advance(ConnectEvent::Done);
    c.advance(ConnectEvent::Done);
    c.advance(ConnectEvent::Authenticated(true));
    c.advance(ConnectEvent::Done);
    assert!(matches!(c.advance(waited("")), ConnectAction::Abort(BridgeError::ProtocolTimeout(_))));
}

#[test]
fn missing_shell_marker_is_a_protocol_timeout() {
    let mut c = Connector::new(server("10.0.0.1", None), Dialect::standard(), Some("n1".to_string()), vec!["n1".to_string()]);
    c.start();
    c.advance(ConnectEvent::Done);
    c.advance(ConnectEvent::Done);
    c.advance(ConnectEvent::Authenticated(true));
    c.advance(ConnectEvent::Done);
    c.advance(waited("Opt>"));
    c.advance(ConnectEvent::Done);
    assert!(matches!(c.advance(waited("")), ConnectAction::Abort(BridgeError::ProtocolTimeout(_))));
}

#[test]
fn without_node_the_menu_marker_completes_the_connect() {
    let mut c = Connector::new(server("10.0.0.1", None), Dialect::standard(), None, vec![]);
    c.start();
    c.advance(ConnectEvent::Done);
    c.advance(ConnectEvent::Done);
    c.advance(ConnectEvent::Authenticated(true));
    c.advance(ConnectEvent::Done);
    assert!(matches!(c.advance(waited("Opt>")), ConnectAction::Established));
}

#[test]
fn challenges_are_answered_only_when_they_ask_for_the_code() {
    assert_eq!(challenge_response("Please enter OTP Code: ", "OTP Code", "123456"), Some("123456".to_string()));
    assert_eq!(challenge_response("Password: ", "OTP Code", "123456"), None);
    let prompts = vec!["Password: ".to_string(), "[MFA] OTP Code:".to_string(), "OTP Code again".to_string()];
    assert_eq!(challenge_responses(&prompts, "OTP Code", "042042"), vec!["042042".to_string(), "042042".to_string()]);
    assert!(challenge_responses(&vec![], "OTP Code", "1").is_empty());
}

#[test]
fn session_executes_one_command_at_a_time() {
    let mut s = SessionCore::new();
    let (line, _w) = s.begin_execute("uptime", vec!["node$".to_string()]).ok().unwrap();
    assert_eq!(line, "uptime\r");
    assert_eq!(s.state(), SessionState::Executing);
    assert!(matches!(s.begin_execute("ls", vec![]), Err(BridgeError::Busy)));
    let out = s.finish_execute(Ok(WaitOutcome { marker: "node$".to_string(), transcript: "up 3 days".to_string() }), false);
    assert_eq!(out.ok().unwrap(), "up 3 days");
    assert_eq!(s.state(), SessionState::Ready);
}

#[test]
fn timed_out_command_returns_partial_transcript_unless_strict() {
    let mut s = SessionCore::new();
    s.begin_execute("sleep 9999", vec!["$".to_string()]).ok().unwrap();
    let out = s.finish_execute(Ok(WaitOutcome { marker: String::new(), transcript: "partial".to_string() }), false);
    assert_eq!(out.ok().unwrap(), "partial");
    s.begin_execute("sleep 9999", vec!["$".to_string()]).ok().unwrap();
    let out = s.finish_execute(Ok(WaitOutcome { marker: String::new(), transcript: "partial".to_string() }), true);
    assert!(matches!(out, Err(BridgeError::ProtocolTimeout(_))));
    assert_eq!(s.state(), SessionState::Ready);
}

#[test]
fn io_failure_marks_the_session_failed() {
    let mut s = SessionCore::new();
    s.begin_execute("ls", vec![]).ok().unwrap();
    match s.finish_execute(Err("broken pipe".to_string()), false) {
        Err(BridgeError::IoError(m)) => assert_eq!(m, "broken pipe"),
        _ => panic!("expected an I/O error"),
    }
    assert_eq!(s.state(), SessionState::Failed);
    assert!(matches!(s.begin_execute("ls", vec![]), Err(BridgeError::ChannelUnavailable)));
    assert!(!s.begin_close());
}

#[test]
fn closing_twice_is_a_no_op() {
    let mut s = SessionCore::new();
    assert!(s.begin_close());
    assert_eq!(s.state(), SessionState::Closing);
    assert!(s.finish_close(Ok(())).is_ok());
    assert_eq!(s.state(), SessionState::Closed);
    assert!(!s.begin_close());
    assert_eq!(s.state(), SessionState::Closed);
    assert!(matches!(s.begin_execute("ls", vec![]), Err(BridgeError::ChannelUnavailable)));
}

#[test]
fn close_failure_is_reported_and_the_session_is_closed() {
    let mut s = SessionCore::new();
    assert!(s.begin_close());
    match s.finish_close(Err("eof timeout".to_string())) {
        Err(BridgeError::CloseError(m)) => assert_eq!(m, "eof timeout"),
        _ => panic!("expected a close error"),
    }
    assert_eq!(s.state(), SessionState::Closed);
    assert!(!s.begin_close());
}
