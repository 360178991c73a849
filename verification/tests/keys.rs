use zj_agent::keys::key_to_bytes;

#[test]
fn basic_keys_map_to_control_bytes() {
    assert_eq!(key_to_bytes("Enter"), vec![b'\r']);
    assert_eq!(key_to_bytes("Tab"), vec![b'\t']);
    assert_eq!(key_to_bytes("Escape"), vec![0x1b]);
    assert_eq!(key_to_bytes("Backspace"), vec![0x7f]);
}

#[test]
fn arrow_and_navigation_keys_map_to_ansi_sequences() {
    assert_eq!(key_to_bytes("Up"), b"\x1b[A".to_vec());
    assert_eq!(key_to_bytes("Down"), b"\x1b[B".to_vec());
    assert_eq!(key_to_bytes("Right"), b"\x1b[C".to_vec());
    assert_eq!(key_to_bytes("Left"), b"\x1b[D".to_vec());
    assert_eq!(key_to_bytes("Home"), b"\x1b[H".to_vec());
    assert_eq!(key_to_bytes("End"), b"\x1b[F".to_vec());
    assert_eq!(key_to_bytes("PageUp"), b"\x1b[5~".to_vec());
    assert_eq!(key_to_bytes("PageDown"), b"\x1b[6~".to_vec());
}

#[test]
fn ctrl_combinations_map_to_their_control_codes() {
    let expected: Vec<(&str, u8)> = vec![
        ("Ctrl-A", 0x01),
        ("Ctrl-B", 0x02),
        ("Ctrl-C", 0x03),
        ("Ctrl-D", 0x04),
        ("Ctrl-E", 0x05),
        ("Ctrl-F", 0x06),
        ("Ctrl-G", 0x07),
        ("Ctrl-H", 0x08),
        ("Ctrl-K", 0x0b),
        ("Ctrl-L", 0x0c),
        ("Ctrl-N", 0x0e),
        ("Ctrl-P", 0x10),
        ("Ctrl-R", 0x12),
        ("Ctrl-U", 0x15),
        ("Ctrl-W", 0x17),
        ("Ctrl-Z", 0x1a),
    ];
    for (name, code) in expected {
        assert_eq!(key_to_bytes(name), vec![code], "{}", name);
    }
}

#[test]
fn function_keys_map_to_xterm_sequences() {
    assert_eq!(key_to_bytes("F1"), b"\x1bOP".to_vec());
    assert_eq!(key_to_bytes("F2"), b"\x1bOQ".to_vec());
    assert_eq!(key_to_bytes("F3"), b"\x1bOR".to_vec());
    assert_eq!(key_to_bytes("F4"), b"\x1bOS".to_vec());
    assert_eq!(key_to_bytes("F5"), b"\x1b[15~".to_vec());
    assert_eq!(key_to_bytes("F6"), b"\x1b[17~".to_vec());
    assert_eq!(key_to_bytes("F7"), b"\x1b[18~".to_vec());
    assert_eq!(key_to_bytes("F8"), b"\x1b[19~".to_vec());
    assert_eq!(key_to_bytes("F9"), b"\x1b[20~".to_vec());
    assert_eq!(key_to_bytes("F10"), b"\x1b[21~".to_vec());
    assert_eq!(key_to_bytes("F11"), b"\x1b[23~".to_vec());
    assert_eq!(key_to_bytes("F12"), b"\x1b[24~".to_vec());
}

#[test]
fn unknown_key_names_are_sent_as_their_utf8_bytes() {
    assert_eq!(key_to_bytes("q"), b"q".to_vec());
    assert_eq!(key_to_bytes("ctrl-c"), b"ctrl-c".to_vec());
    assert_eq!(key_to_bytes(""), Vec::<u8>::new());
    assert_eq!(key_to_bytes("é"), "é".as_bytes().to_vec());
    assert_eq!(key_to_bytes("F13"), b"F13".to_vec());
}
