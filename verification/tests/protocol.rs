use zj_agent::protocol::{
    default_limit, default_path, generate_command_id, now_iso8601, timestamp_of, MessageEnvelope,
    MessageType, Payload, ShellResponse,
};

fn request(command_id: &str, command: &str) -> MessageEnvelope {
    MessageEnvelope {
        command_id: command_id.to_string(),
        session_id: "controller".to_string(),
        msg_type: MessageType::Request,
        command: command.to_string(),
        payload: Payload::Empty,
        timestamp: "0".to_string(),
        error: None,
    }
}

#[test]
fn defaults_of_request_payloads() {
    assert_eq!(default_limit(), 2000);
    assert_eq!(default_path(), ".");
}

#[test]
fn command_ids_are_sixteen_hex_digits_from_a_counter() {
    let mut counter: u64 = 0;
    assert_eq!(generate_command_id(&mut counter), "0000000000000000");
    assert_eq!(generate_command_id(&mut counter), "0000000000000001");
    assert_eq!(counter, 2);
    let mut counter: u64 = 0xabc;
    assert_eq!(generate_command_id(&mut counter), "0000000000000abc");
}

#[test]
fn command_id_counter_wraps_at_the_top() {
    let mut counter: u64 = u64::MAX;
    assert_eq!(generate_command_id(&mut counter), "ffffffffffffffff");
    assert_eq!(counter, 0);
    assert_eq!(generate_command_id(&mut counter), "0000000000000000");
}

#[test]
fn successive_command_ids_differ() {
    let mut counter: u64 = 41;
    let a = generate_command_id(&mut counter);
    let b = generate_command_id(&mut counter);
    assert_ne!(a, b);
}

#[test]
fn timestamps_are_decimal_seconds() {
    let t = now_iso8601();
    assert!(!t.is_empty());
    assert!(t.chars().all(|c| c.is_ascii_digit()));
    let secs: u64 = t.parse().unwrap();
    assert!(secs > 1_600_000_000);
}

#[test]
fn response_echoes_the_request() {
    let req = request("abc123", "get_shell");
    let resp = MessageEnvelope::response(
        &req,
        "zellij-7",
        Payload::Shell(ShellResponse { shell: "zsh".to_string() }),
        None,
    );
    assert_eq!(resp.command_id, "abc123");
    assert_eq!(resp.command, "get_shell");
    assert_eq!(resp.session_id, "zellij-7");
    assert_eq!(resp.msg_type, MessageType::Response);
    assert!(resp.error.is_none());
    assert!(matches!(resp.payload, Payload::Shell(ref s) if s.shell == "zsh"));
    assert!(resp.timestamp.chars().all(|c| c.is_ascii_digit()));
}

#[test]
fn error_response_carries_the_error() {
    let req = request("id", "read_file");
    let resp = MessageEnvelope::response(&req, "s", Payload::Empty, Some("boom".to_string()));
    assert_eq!(resp.error, Some("boom".to_string()));
    assert!(matches!(resp.payload, Payload::Empty));
}

#[test]
fn events_take_fresh_ids() {
    let mut counter: u64 = 5;
    let e = MessageEnvelope::event(&mut counter, "s", "help", Payload::Empty);
    assert_eq!(e.command_id, "0000000000000005");
    assert_eq!(e.command, "help");
    assert_eq!(e.msg_type, MessageType::Event);
    assert!(e.error.is_none());
    assert_eq!(counter, 6);
}

#[test]
fn timestamps_are_the_clock_seconds_or_the_epoch() {
    assert_eq!(timestamp_of(Some(1700000000)), "1700000000");
    assert_eq!(timestamp_of(Some(0)), "0");
    assert_eq!(timestamp_of(None), "0");
    assert_eq!(timestamp_of(Some(u64::MAX)), "18446744073709551615");
}
