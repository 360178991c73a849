use zj_agent::commands::{PaneContents, PaneId};
use zj_agent::plugin::{
    backoff_delay_millis, cwd_or_root, resolve_pane, simple_hash, AgentPlugin, ListFailure,
    PaneInfo, PluginAction, PluginEvent, RawDirEntry, TabInfo, WriteFailure,
};
use zj_agent::protocol::{
    ListDirPayload, MessageEnvelope, MessageType, Payload, ReadFilePayload, RequestPayload,
    SendInputPayload, SendKeyPayload, WriteFilePayload,
};

fn missing(field: &str) -> String {
    format!("missing field `{}`", field)
}

fn payload(pane_id: Option<&str>) -> RequestPayload {
    RequestPayload {
        pane_id: pane_id.map(|s| s.to_string()),
        send_input: Err(missing("input")),
        send_key: Err(missing("key")),
        read_file: Err(missing("path")),
        write_file: Err(missing("path")),
        list_dir: Ok(ListDirPayload { path: ".".to_string() }),
    }
}

fn request(id: &str, command: &str, p: RequestPayload) -> MessageEnvelope {
    MessageEnvelope {
        command_id: id.to_string(),
        session_id: "controller".to_string(),
        msg_type: MessageType::Request,
        command: command.to_string(),
        payload: Payload::Request(p),
        timestamp: "1".to_string(),
        error: None,
    }
}

fn stub(id: &str, command: &str) -> MessageEnvelope {
    MessageEnvelope {
        command_id: id.to_string(),
        session_id: String::new(),
        msg_type: MessageType::Request,
        command: command.to_string(),
        payload: Payload::Empty,
        timestamp: String::new(),
        error: None,
    }
}

fn text(m: MessageEnvelope) -> PluginEvent {
    PluginEvent::WebSocketText { message: Ok(m) }
}

/// A plugin with permissions granted and connection 7 up.
fn connected() -> AgentPlugin {
    let mut p = AgentPlugin::new();
    p.configure(Some("ws://ctl:9/".to_string()), Some("s1".to_string()));
    p.update(PluginEvent::PermissionGranted { zellij_pid: 1 });
    p.update(PluginEvent::WebSocketConnected { connection_id: 7 });
    p
}

/// The single message sent, with its connection.
fn sent(actions: &[PluginAction]) -> &MessageEnvelope {
    assert_eq!(actions.len(), 1, "{:?}", actions);
    match &actions[0] {
        PluginAction::Send { connection_id, message } => {
            assert_eq!(*connection_id, 7);
            message
        }
        other => panic!("not a send: {:?}", other),
    }
}

fn error_of(actions: &[PluginAction]) -> String {
    let m = sent(actions);
    assert_eq!(m.msg_type, MessageType::Response);
    assert!(matches!(m.payload, Payload::Empty));
    m.error.clone().expect("an error response")
}

#[test]
fn new_plugin_has_the_documented_defaults() {
    let p = AgentPlugin::new();
    assert_eq!(p.opencc_url, "ws://localhost:8000");
    assert_eq!(p.settle_threshold, 2);
    assert_eq!(p.session_id, "");
    assert!(p.connection_id.is_none());
    assert_eq!(p.status_line(), "zj-agent | session:  | ws: none");
    assert_eq!(p.websocket_url(), "ws://localhost:8000/ws/zellij/");
}

#[test]
fn granted_permission_names_the_session_and_connects() {
    let mut p = AgentPlugin::new();
    let actions = p.update(PluginEvent::PermissionGranted { zellij_pid: 4242 });
    assert!(p.permissions_granted);
    assert_eq!(p.session_id, "zellij-4242");
    assert_eq!(actions.len(), 1);
    assert!(matches!(&actions[0], PluginAction::OpenWebSocket { url }
        if url == "ws://localhost:8000/ws/zellij/zellij-4242"));
}

#[test]
fn configured_session_and_url_are_kept() {
    let mut p = AgentPlugin::new();
    p.configure(Some("wss://example.org//".to_string()), Some("mine".to_string()));
    let actions = p.update(PluginEvent::PermissionGranted { zellij_pid: 1 });
    assert_eq!(p.session_id, "mine");
    assert!(matches!(&actions[0], PluginAction::OpenWebSocket { url }
        if url == "wss://example.org/ws/zellij/mine"));
}

#[test]
fn denied_permission_does_nothing() {
    let mut p = AgentPlugin::new();
    assert!(p.update(PluginEvent::PermissionDenied).is_empty());
    assert!(!p.permissions_granted);
    assert!(p.update(PluginEvent::Ignored).is_empty());
}

#[test]
fn connecting_starts_the_fast_tick() {
    let mut p = AgentPlugin::new();
    p.reconnect_attempts = 3;
    let actions = p.update(PluginEvent::WebSocketConnected { connection_id: 9 });
    assert_eq!(p.connection_id, Some(9));
    assert_eq!(p.reconnect_attempts, 0);
    assert!(matches!(actions[..], [PluginAction::SetTimeout { millis: 200 }]));
    assert_eq!(p.status_line(), "zj-agent | session:  | ws: 9");
}

#[test]
fn disconnection_backs_off_and_the_timer_reconnects() {
    let mut p = connected();
    let delays: Vec<u64> = (0..7)
        .map(|_| match p.update(PluginEvent::WebSocketDisconnected)[..] {
            [PluginAction::SetTimeout { millis }] => millis,
            _ => panic!("expected one timeout"),
        })
        .collect();
    assert_eq!(delays, vec![2000, 4000, 8000, 16000, 32000, 32000, 32000]);
    assert!(p.connection_id.is_none());
    let actions = p.update(PluginEvent::Timer);
    assert!(matches!(&actions[..], [PluginAction::OpenWebSocket { url }]
        if url == "ws://ctl:9/ws/zellij/s1"));
}

#[test]
fn backoff_doubles_up_to_thirty_two_seconds() {
    assert_eq!(backoff_delay_millis(0), 1000);
    assert_eq!(backoff_delay_millis(1), 2000);
    assert_eq!(backoff_delay_millis(4), 16000);
    assert_eq!(backoff_delay_millis(5), 32000);
    assert_eq!(backoff_delay_millis(u32::MAX), 32000);
}

#[test]
fn send_input_types_and_captures_once_output_settles() {
    let mut p = connected();
    let mut rp = payload(Some("5"));
    rp.send_input = Ok(SendInputPayload { input: "ls\\n".to_string() });
    let actions = p.update(text(request("c1", "send_input", rp)));
    assert!(matches!(&actions[..], [PluginAction::WriteChars { pane_id: PaneId::Terminal(5), chars }]
        if chars == "ls\r"));
    assert_eq!(p.pending_screenshots.len(), 1);

    let first = p.update(PluginEvent::Timer);
    assert!(matches!(first[..], [PluginAction::SetTimeout { millis: 200 }]));
    let second = p.update(PluginEvent::Timer);
    assert_eq!(second.len(), 2);
    assert!(matches!(&second[0], PluginAction::CaptureScreen { request, pane_id: PaneId::Terminal(5) }
        if request.command_id == "c1" && request.command == "send_input"));
    assert!(p.pending_screenshots.is_empty());

    let screen = PaneContents { viewport: vec!["$ ls".to_string(), "a b".to_string()] };
    let reply = p.update(PluginEvent::ScreenCaptured { request: stub("c1", "send_input"), screen: Ok(screen) });
    let m = sent(&reply);
    assert_eq!(m.command_id, "c1");
    assert_eq!(m.command, "send_input");
    assert_eq!(m.session_id, "s1");
    assert_eq!(m.msg_type, MessageType::Response);
    assert!(m.error.is_none());
    assert!(matches!(&m.payload, Payload::Screenshot(s) if s.screenshot == "$ ls\na b"));
}

#[test]
fn changed_output_restarts_the_settle_count() {
    let mut p = connected();
    let mut rp = payload(Some("5"));
    rp.send_input = Ok(SendInputPayload { input: "x".to_string() });
    p.update(text(request("c1", "send_input", rp)));
    p.update(PluginEvent::Timer);
    let report = vec![(PaneId::Terminal(5), PaneContents { viewport: vec!["busy".to_string()] })];
    p.update(PluginEvent::PaneRenderReport { contents: report });
    assert_eq!(p.pending_screenshots[0].ticks_idle, 0);
    assert_eq!(p.pending_screenshots[0].last_content_hash, simple_hash("busy"));
    let tick = p.update(PluginEvent::Timer);
    assert_eq!(tick.len(), 1);
    // The same output again is no change.
    let report = vec![(PaneId::Terminal(5), PaneContents { viewport: vec!["busy".to_string()] })];
    p.update(PluginEvent::PaneRenderReport { contents: report });
    assert_eq!(p.pending_screenshots[0].ticks_idle, 1);
    let tick = p.update(PluginEvent::Timer);
    assert!(matches!(tick[0], PluginAction::CaptureScreen { .. }));
}

#[test]
fn send_key_writes_the_key_bytes_to_the_focused_pane() {
    let mut p = connected();
    p.update(PluginEvent::TabUpdate {
        tabs: vec![TabInfo { position: 0, active: false }, TabInfo { position: 1, active: true }],
    });
    assert_eq!(p.focused_tab, Some(1));
    p.update(PluginEvent::PaneUpdate {
        panes: vec![
            (0, vec![PaneInfo { id: 3, is_focused: true, is_plugin: false }]),
            (1, vec![
                PaneInfo { id: 8, is_focused: true, is_plugin: true },
                PaneInfo { id: 4, is_focused: true, is_plugin: false },
                PaneInfo { id: 5, is_focused: false, is_plugin: false },
            ]),
        ],
    });
    assert_eq!(p.focused_pane, Some(PaneId::Terminal(4)));
    let mut rp = payload(None);
    rp.send_key = Ok(SendKeyPayload { key: "Ctrl-C".to_string() });
    let actions = p.update(text(request("k", "send_key", rp)));
    assert!(matches!(&actions[..], [PluginAction::WriteBytes { pane_id: PaneId::Terminal(4), bytes }]
        if bytes == &vec![0x03u8]));
}

#[test]
fn forward_key_writes_the_input_as_send_input_does() {
    let mut p = connected();
    let mut rp = payload(Some("2"));
    rp.send_input = Ok(SendInputPayload { input: "q\\n".to_string() });
    let actions = p.update(text(request("f", "forward_key", rp)));
    assert!(matches!(&actions[..], [PluginAction::WriteChars { pane_id: PaneId::Terminal(2), chars }]
        if chars == "q\r"));
}

#[test]
fn unknown_commands_are_answered_with_an_error() {
    let mut p = connected();
    let actions = p.update(text(request("u1", "reboot", payload(None))));
    assert_eq!(error_of(&actions), "Unknown command: reboot");
    assert_eq!(sent(&actions).command_id, "u1");
    assert_eq!(sent(&actions).command, "reboot");
}

#[test]
fn undecodable_payloads_are_answered_with_bad_payload() {
    let mut p = connected();
    let actions = p.update(text(request("b", "send_input", payload(Some("1")))));
    assert_eq!(error_of(&actions), "Bad payload: missing field `input`");
    let actions = p.update(text(request("b", "read_file", payload(None))));
    assert_eq!(error_of(&actions), "Bad payload: missing field `path`");
    assert!(p.pending_screenshots.is_empty());
}

#[test]
fn pane_ids_must_be_numbers() {
    let mut p = connected();
    let actions = p.update(text(request("p", "get_screenshot", payload(Some("abc")))));
    assert_eq!(error_of(&actions), "Invalid pane_id: abc");
}

#[test]
fn commands_on_a_pane_need_a_focused_one() {
    let mut p = connected();
    let actions = p.update(text(request("p", "get_cwd", payload(None))));
    assert_eq!(error_of(&actions), "No focused terminal pane");
}

#[test]
fn invalid_json_is_answered_with_an_error_envelope() {
    let mut p = connected();
    let actions = p.update(PluginEvent::WebSocketText { message: Err("expected value at line 1".to_string()) });
    let m = sent(&actions);
    assert_eq!(m.command_id, "");
    assert_eq!(m.command, "error");
    assert_eq!(m.session_id, "s1");
    assert_eq!(m.error, Some("Invalid JSON: expected value at line 1".to_string()));
}

#[test]
fn envelopes_other_than_requests_are_passed_over() {
    let mut p = connected();
    let mut m = request("r", "send_input", payload(Some("1")));
    m.msg_type = MessageType::Response;
    assert!(p.update(text(m)).is_empty());
}

#[test]
fn without_a_connection_nothing_is_sent() {
    let mut p = AgentPlugin::new();
    let actions = p.update(text(request("u", "nope", payload(None))));
    assert!(actions.is_empty());
}

#[test]
fn screenshots_cwd_and_shell_are_read_from_the_pane() {
    let mut p = connected();
    let a = p.update(text(request("s", "get_screenshot", payload(Some("3")))));
    assert!(matches!(&a[..], [PluginAction::CaptureScreen { pane_id: PaneId::Terminal(3), .. }]));
    let a = p.update(text(request("c", "get_cwd", payload(Some("3")))));
    assert!(matches!(&a[..], [PluginAction::ReadCwd { pane_id: PaneId::Terminal(3), .. }]));
    let a = p.update(text(request("h", "get_shell", payload(Some("3")))));
    assert!(matches!(&a[..], [PluginAction::ReadShell { pane_id: PaneId::Terminal(3), .. }]));

    let r = p.update(PluginEvent::CwdRead { request: stub("c", "get_cwd"), cwd: Ok("/home/u".to_string()) });
    assert!(matches!(&sent(&r).payload, Payload::Cwd(c) if c.cwd == "/home/u"));
    let r = p.update(PluginEvent::CwdRead { request: stub("c", "get_cwd"), cwd: Err("no pane".to_string()) });
    assert_eq!(error_of(&r), "no pane");
    let r = p.update(PluginEvent::ShellRead {
        request: stub("h", "get_shell"),
        command: Ok(vec!["/usr/bin/zsh".to_string(), "-i".to_string()]),
    });
    assert!(matches!(&sent(&r).payload, Payload::Shell(s) if s.shell == "zsh"));
    let r = p.update(PluginEvent::ScreenCaptured { request: stub("s", "get_screenshot"), screen: Err("gone".to_string()) });
    assert_eq!(error_of(&r), "gone");
}

#[test]
fn files_are_read_relative_to_the_focused_pane() {
    let mut p = connected();
    p.focused_pane = Some(PaneId::Terminal(6));
    let mut rp = payload(None);
    rp.read_file = Ok(ReadFilePayload { path: "notes.txt".to_string(), offset: 1, limit: 1 });
    let a = p.update(text(request("r", "read_file", rp)));
    assert!(matches!(&a[..], [PluginAction::ReadFile { cwd_pane: Some(PaneId::Terminal(6)), read, .. }]
        if read.path == "notes.txt" && read.offset == 1 && read.limit == 1));

    let read = ReadFilePayload { path: "notes.txt".to_string(), offset: 1, limit: 1 };
    let r = p.update(PluginEvent::FileRead {
        request: stub("r", "read_file"),
        read,
        path: "/host/home/notes.txt".to_string(),
        text: Ok("one\ntwo\nthree\n".to_string()),
    });
    assert!(matches!(&sent(&r).payload, Payload::ReadFile(f)
        if f.content == "two" && f.total_lines == 3 && f.encoding == "utf-8"));

    let read = ReadFilePayload { path: "x".to_string(), offset: 0, limit: 2000 };
    let r = p.update(PluginEvent::FileRead {
        request: stub("r", "read_file"),
        read,
        path: "/host/x".to_string(),
        text: Err("No such file or directory (os error 2)".to_string()),
    });
    assert_eq!(error_of(&r), "No such file or directory (os error 2): /host/x");
}

#[test]
fn writes_report_bytes_or_the_failure() {
    let mut p = connected();
    let mut rp = payload(None);
    rp.write_file = Ok(WriteFilePayload { path: "a/b.txt".to_string(), content: "héllo".to_string() });
    let a = p.update(text(request("w", "write_file", rp)));
    assert!(matches!(&a[..], [PluginAction::WriteFile { cwd_pane: None, write, .. }] if write.path == "a/b.txt"));

    let write = || WriteFilePayload { path: "a/b.txt".to_string(), content: "héllo".to_string() };
    let r = p.update(PluginEvent::FileWritten {
        request: stub("w", "write_file"),
        write: write(),
        path: "/host/a/b.txt".to_string(),
        outcome: Ok(()),
    });
    assert!(matches!(&sent(&r).payload, Payload::WriteFile(f) if f.success && f.bytes_written == 6));
    let r = p.update(PluginEvent::FileWritten {
        request: stub("w", "write_file"),
        write: write(),
        path: "/host/a/b.txt".to_string(),
        outcome: Err(WriteFailure::CreateDirs("denied".to_string())),
    });
    assert_eq!(error_of(&r), "Failed to create directories: denied");
    let r = p.update(PluginEvent::FileWritten {
        request: stub("w", "write_file"),
        write: write(),
        path: "/host/a/b.txt".to_string(),
        outcome: Err(WriteFailure::Write("full".to_string())),
    });
    assert_eq!(error_of(&r), "full: /host/a/b.txt");
}

#[test]
fn listings_are_sorted_or_report_the_failure() {
    let mut p = connected();
    let a = p.update(text(request("l", "list_dir", payload(None))));
    assert!(matches!(&a[..], [PluginAction::ListDir { list, .. }] if list.path == "."));

    let raw = vec![
        RawDirEntry { name: "b.txt".to_string(), is_dir: false, len: 10, modified_secs: Some(5) },
        RawDirEntry { name: "src".to_string(), is_dir: true, len: 4096, modified_secs: None },
        RawDirEntry { name: "a.txt".to_string(), is_dir: false, len: 3, modified_secs: None },
    ];
    let r = p.update(PluginEvent::DirListed { request: stub("l", "list_dir"), path: "/host/p".to_string(), entries: Ok(raw) });
    match &sent(&r).payload {
        Payload::ListDir(l) => {
            let names: Vec<&str> = l.entries.iter().map(|e| e.name.as_str()).collect();
            assert_eq!(names, vec!["src", "a.txt", "b.txt"]);
            assert_eq!(l.entries[0].size, 0);
            assert_eq!(l.entries[2].size, 10);
            assert_eq!(l.entries[2].modified_at, Some("5".to_string()));
        }
        other => panic!("not a listing: {:?}", other),
    }
    let r = p.update(PluginEvent::DirListed {
        request: stub("l", "list_dir"),
        path: "/host/p".to_string(),
        entries: Err(ListFailure::Open("not found".to_string())),
    });
    assert_eq!(error_of(&r), "not found: /host/p");
    let r = p.update(PluginEvent::DirListed {
        request: stub("l", "list_dir"),
        path: "/host/p".to_string(),
        entries: Err(ListFailure::Entry("bad".to_string())),
    });
    assert_eq!(error_of(&r), "Error reading entry: bad");
    let r = p.update(PluginEvent::DirListed {
        request: stub("l", "list_dir"),
        path: "/host/p".to_string(),
        entries: Err(ListFailure::Metadata("gone".to_string())),
    });
    assert_eq!(error_of(&r), "Error reading metadata: gone");
}

#[test]
fn every_hundredth_tick_sends_a_heartbeat() {
    let mut p = connected();
    p.focused_pane = Some(PaneId::Terminal(2));
    for _ in 0..99 {
        let a = p.update(PluginEvent::Timer);
        assert!(matches!(a[..], [PluginAction::SetTimeout { millis: 200 }]));
    }
    let a = p.update(PluginEvent::Timer);
    assert!(matches!(a[..], [
        PluginAction::GatherHeartbeat { focused_pane: Some(PaneId::Terminal(2)) },
        PluginAction::SetTimeout { millis: 200 },
    ]));
    assert_eq!(p.uptime, 20);
    assert_eq!(p.heartbeat_ticks, 0);
    let r = p.update(PluginEvent::HeartbeatInfo {
        cwd_query: Some(Ok("/work".to_string())),
        command_query: Some(Ok(vec!["/bin/bash".to_string()])),
    });
    let m = sent(&r);
    assert_eq!(m.msg_type, MessageType::Event);
    assert_eq!(m.command, "heartbeat");
    assert_eq!(m.command_id, "0000000000000000");
    assert!(matches!(&m.payload, Payload::Heartbeat(h) if h.uptime == 20 && h.cwd == "/work" && h.shell == "bash"));
    let r = p.update(PluginEvent::HeartbeatInfo { cwd_query: Some(Err("x".to_string())), command_query: None });
    let m = sent(&r);
    assert_eq!(m.command_id, "0000000000000001");
    assert!(matches!(&m.payload, Payload::Heartbeat(h) if h.cwd == "/" && h.shell == "unknown"));
}

#[test]
fn help_requests_on_screen_are_sent_once() {
    let mut p = connected();
    let report = || vec![
        (PaneId::Terminal(1), PaneContents { viewport: vec!["$ # help what now".to_string()] }),
        (PaneId::Plugin(1), PaneContents { viewport: vec!["# help".to_string()] }),
    ];
    let a = p.update(PluginEvent::PaneRenderReport { contents: report() });
    let m = sent(&a);
    assert_eq!(m.command, "help");
    assert_eq!(m.msg_type, MessageType::Event);
    assert!(matches!(&m.payload, Payload::Help(h) if h.prompt == "what now" && h.context == Some("$".to_string())));
    assert!(p.update(PluginEvent::PaneRenderReport { contents: report() }).is_empty());
}

#[test]
fn hashes_follow_the_djb2_recurrence() {
    assert_eq!(simple_hash(""), 5381);
    assert_eq!(simple_hash("a"), 177670);
    assert_eq!(simple_hash("ab"), 177670 * 33 + 98);
    let long = "x".repeat(100);
    let mut h: u64 = 5381;
    for b in long.bytes() {
        h = h.wrapping_mul(33).wrapping_add(b as u64);
    }
    assert_eq!(simple_hash(&long), h);
}

#[test]
fn panes_resolve_from_the_request_or_the_focus() {
    assert_eq!(resolve_pane(&Some("12".to_string()), None), Ok(PaneId::Terminal(12)));
    assert_eq!(resolve_pane(&Some("+3".to_string()), None), Ok(PaneId::Terminal(3)));
    assert_eq!(resolve_pane(&Some("x".to_string()), Some(PaneId::Terminal(1))), Err("Invalid pane_id: x".to_string()));
    assert_eq!(resolve_pane(&None, Some(PaneId::Terminal(1))), Ok(PaneId::Terminal(1)));
    assert_eq!(resolve_pane(&None, None), Err("No focused terminal pane".to_string()));
}

#[test]
fn working_directory_falls_back_to_root() {
    assert_eq!(cwd_or_root(Some(Ok("/srv".to_string()))), "/srv");
    assert_eq!(cwd_or_root(Some(Err("no".to_string()))), "/");
    assert_eq!(cwd_or_root(None), "/");
}

#[test]
fn screenshots_are_taken_within_the_settle_threshold() {
    let mut p = connected();
    p.settle_threshold = 3;
    for id in ["a", "b"] {
        let mut rp = payload(Some("1"));
        rp.send_input = Ok(SendInputPayload { input: "x".to_string() });
        p.update(text(request(id, "send_input", rp)));
    }
    assert_eq!(p.update(PluginEvent::Timer).len(), 1);
    assert_eq!(p.update(PluginEvent::Timer).len(), 1);
    let third = p.update(PluginEvent::Timer);
    assert_eq!(third.len(), 3);
    assert!(matches!(&third[0], PluginAction::CaptureScreen { request, .. } if request.command_id == "b"));
    assert!(matches!(&third[1], PluginAction::CaptureScreen { request, .. } if request.command_id == "a"));
    assert!(p.pending_screenshots.is_empty());
}
