//! The plugin's decisions: its state, and for each event from the host
//! what the state becomes and which actions the host is to perform.
//!
//! The host drives the plugin: it hands every event to `AgentPlugin::update`,
//! performs the actions it gets back in order, and hands the outcome of an
//! action back as an event where the action asked for something.
use vstd::prelude::*;

use crate::commands::{
    dir_entry, entries_view, heartbeat_shell, heartbeat_shell_of, input_text, list_dir_response,
    lemma_read_whole_file, listing_of, no_crlf, pane_contents_to_text, read_file_response,
    read_window, screen_text,
    send_input_text, shell_name, shell_name_of, window_fits, write_file_response, PaneContents,
    PaneId,
};
use crate::keys::{key_bytes, key_to_bytes};
use crate::protocol::{
    command_id_for, is_timestamp, opt_view, CwdResponse, EnvelopeView, HeartbeatPayload,
    ListDirPayload, MessageEnvelope, MessageType, Payload, PayloadView, ReadFilePayload,
    RequestPayload, RequestPayloadView, ScreenshotResponse, ShellResponse, WriteFilePayload,
};
use crate::screen_monitor::{
    distinct_panes, lemma_rescan_sends_nothing, panes_view, scan, triggers_view, ScreenMonitor,
};
use crate::text::{
    concat2, decimal, lines, owned, parse_u32, parse_u32_str, push_str, str_equals, string_views,
    trim_end_char, trim_end_matching, u64_to_decimal,
};

verus! {

broadcast use vstd::string::group_string_axioms;

/// Milliseconds between the fast ticks that watch for settled output.
pub const TICK_MILLIS: u64 = 200;

/// Fast ticks between two heartbeats (twenty seconds of 0.2 s ticks).
pub const HEARTBEAT_TICKS: u32 = 100;

/// Seconds of uptime a heartbeat period stands for.
pub const HEARTBEAT_SECS: u64 = 20;

/// The reconnection delay doubles with each attempt up to this power of two.
pub const MAX_BACKOFF_EXPONENT: u32 = 5;

/// A command whose screenshot is taken once the pane's output has settled.
pub struct PendingScreenshot {
    /// The request to answer (its `command_id` and `command` are echoed).
    pub request: MessageEnvelope,
    /// The pane whose output is watched.
    pub pane_id: PaneId,
    /// Ticks since the output last changed.
    pub ticks_idle: u32,
    /// The hash of the output last seen.
    pub last_content_hash: u64,
}

/// The view of a pending screenshot.
pub struct PendingView {
    pub command_id: Seq<char>,
    pub command: Seq<char>,
    pub pane_id: PaneId,
    pub ticks_idle: u32,
    pub last_content_hash: u64,
}

impl View for PendingScreenshot {
    type V = PendingView;

    open spec fn view(&self) -> PendingView {
        PendingView {
            command_id: self.request.command_id@,
            command: self.request.command@,
            pane_id: self.pane_id,
            ticks_idle: self.ticks_idle,
            last_content_hash: self.last_content_hash,
        }
    }
}

/// The views of pending screenshots.
pub open spec fn pending_view(v: Seq<PendingScreenshot>) -> Seq<PendingView> {
    v.map_values(|p: PendingScreenshot| p@)
}

/// The state of the plugin.
pub struct AgentPlugin {
    /// The session name, used as `session_id` in the protocol.
    pub session_id: String,
    /// The focused terminal pane.
    pub focused_pane: Option<PaneId>,
    /// The position of the active tab.
    pub focused_tab: Option<usize>,
    pub permissions_granted: bool,
    /// Remembers which help requests were sent.
    pub screen_monitor: ScreenMonitor,
    /// Commands waiting for output to settle before their screenshot.
    pub pending_screenshots: Vec<PendingScreenshot>,
    /// Seconds since the plugin loaded, counted in heartbeat periods.
    pub uptime: u64,
    /// The WebSocket connection, while there is one.
    pub connection_id: Option<u32>,
    pub reconnect_attempts: u32,
    /// Ticks since the last heartbeat.
    pub heartbeat_ticks: u32,
    /// The base WebSocket URL of the controller.
    pub opencc_url: String,
    /// Ticks without output change after which output counts as settled.
    pub settle_threshold: u32,
    /// The counter from which event command ids are taken.
    pub command_counter: u64,
}

/// The view of the plugin's state.
pub struct PluginView {
    pub session_id: Seq<char>,
    pub focused_pane: Option<PaneId>,
    pub focused_tab: Option<usize>,
    pub permissions_granted: bool,
    pub help_keys: Map<u32, Seq<char>>,
    pub pending: Seq<PendingView>,
    pub uptime: u64,
    pub connection_id: Option<u32>,
    pub reconnect_attempts: u32,
    pub heartbeat_ticks: u32,
    pub opencc_url: Seq<char>,
    pub settle_threshold: u32,
    pub command_counter: u64,
}

impl View for AgentPlugin {
    type V = PluginView;

    open spec fn view(&self) -> PluginView {
        PluginView {
            session_id: self.session_id@,
            focused_pane: self.focused_pane,
            focused_tab: self.focused_tab,
            permissions_granted: self.permissions_granted,
            help_keys: self.screen_monitor@,
            pending: pending_view(self.pending_screenshots@),
            uptime: self.uptime,
            connection_id: self.connection_id,
            reconnect_attempts: self.reconnect_attempts,
            heartbeat_ticks: self.heartbeat_ticks,
            opencc_url: self.opencc_url@,
            settle_threshold: self.settle_threshold,
            command_counter: self.command_counter,
        }
    }
}

/// The invariant of the plugin's state: a heartbeat period is never
/// overrun, and no pending screenshot has sat idle past the threshold.
pub open spec fn state_ok(s: PluginView) -> bool {
    &&& s.heartbeat_ticks < HEARTBEAT_TICKS
    &&& forall|i: int|
        0 <= i < s.pending.len() ==> #[trigger] s.pending[i].ticks_idle == 0
            || s.pending[i].ticks_idle < s.settle_threshold
}

/// The URL the plugin connects to: the base URL without trailing slashes,
/// then `/ws/zellij/` and the session id.
pub open spec fn websocket_url(base: Seq<char>, session_id: Seq<char>) -> Seq<char> {
    trim_end_char(base, '/') + "/ws/zellij/"@ + session_id
}

/// `2^k`.
pub open spec fn pow2(k: nat) -> nat
    decreases k,
{
    if k == 0 {
        1
    } else {
        2 * pow2((k - 1) as nat)
    }
}

/// The reconnection delay after `attempts` attempts, in milliseconds:
/// `2^min(attempts, 5)` seconds.
pub open spec fn backoff_millis(attempts: u32) -> u64 {
    let k: nat = if attempts < MAX_BACKOFF_EXPONENT {
        attempts as nat
    } else {
        MAX_BACKOFF_EXPONENT as nat
    };
    (1000 * pow2(k)) as u64
}

/// The hash used to notice that a pane's output changed: starting at 5381,
/// each byte multiplies by 33 and adds the byte, wrapping at 64 bits.
pub open spec fn content_hash(bytes: Seq<u8>) -> u64
    decreases bytes.len(),
{
    if bytes.len() == 0 {
        5381
    } else {
        vstd::wrapping::u64_specs::wrapping_add(
            vstd::wrapping::u64_specs::wrapping_mul(content_hash(bytes.drop_last()), 33),
            bytes.last() as u64,
        )
    }
}

/// The pane an explicit `pane_id` names, or else the focused pane.
pub open spec fn resolve_pane_spec(pane_id: Option<Seq<char>>, focused: Option<PaneId>) -> Result<
    PaneId,
    Seq<char>,
> {
    match pane_id {
        Some(s) => match parse_u32(s) {
            Some(id) => Ok(PaneId::Terminal(id)),
            None => Err("Invalid pane_id: "@ + s),
        },
        None => match focused {
            Some(p) => Ok(p),
            None => Err("No focused terminal pane"@),
        },
    }
}

/// The working directory for file requests: the focused pane's where it
/// could be read, and otherwise the root.
pub open spec fn cwd_spec(query: Option<Result<Seq<char>, Seq<char>>>) -> Seq<char> {
    match query {
        Some(Ok(cwd)) => cwd,
        _ => seq!['/'],
    }
}

impl AgentPlugin {
    /// The initial state: no session, no connection, the default controller
    /// URL `ws://localhost:8000`, and a settle threshold of two ticks.
    pub fn new() -> (r: AgentPlugin)
        ensures
            r@ == (PluginView {
                session_id: seq![],
                focused_pane: None,
                focused_tab: None,
                permissions_granted: false,
                help_keys: Map::empty(),
                pending: seq![],
                uptime: 0,
                connection_id: None,
                reconnect_attempts: 0,
                heartbeat_ticks: 0,
                opencc_url: "ws://localhost:8000"@,
                settle_threshold: 2,
                command_counter: 0,
            }),
            state_ok(r@),
    {
        let r = AgentPlugin {
            session_id: String::new(),
            focused_pane: None,
            focused_tab: None,
            permissions_granted: false,
            screen_monitor: ScreenMonitor::new(),
            pending_screenshots: Vec::new(),
            uptime: 0,
            connection_id: None,
            reconnect_attempts: 0,
            heartbeat_ticks: 0,
            opencc_url: owned("ws://localhost:8000"),
            settle_threshold: 2,
            command_counter: 0,
        };
        assert(pending_view(r.pending_screenshots@) =~= seq![]);
        r
    }

    /// Applies the plugin's configuration: `opencc_url` and `session_id`
    /// replace the defaults where they are given.
    pub fn configure(&mut self, opencc_url: Option<String>, session_id: Option<String>)
        ensures
            final(self)@ == (PluginView {
                opencc_url: match opencc_url {
                    Some(u) => u@,
                    None => old(self)@.opencc_url,
                },
                session_id: match session_id {
                    Some(s) => s@,
                    None => old(self)@.session_id,
                },
                ..old(self)@
            }),
    {
        if let Some(url) = opencc_url {
            self.opencc_url = url;
        }
        if let Some(sid) = session_id {
            self.session_id = sid;
        }
    }

    /// The URL to connect to.
    pub fn websocket_url(&self) -> (r: String)
        ensures
            r@ == websocket_url(self.opencc_url@, self.session_id@),
    {
        let mut r = trim_end_matching(self.opencc_url.as_str(), '/');
        push_str(&mut r, "/ws/zellij/");
        push_str(&mut r, self.session_id.as_str());
        r
    }

    /// The one-line status the plugin renders.
    pub fn status_line(&self) -> (r: String)
        ensures
            r@ == "zj-agent | session: "@ + self.session_id@ + " | ws: "@ + match self.connection_id {
                Some(id) => decimal(id as nat),
                None => "none"@,
            },
    {
        let mut r = owned("zj-agent | session: ");
        push_str(&mut r, self.session_id.as_str());
        push_str(&mut r, " | ws: ");
        match self.connection_id {
            Some(id) => {
                let d = u64_to_decimal(id as u64);
                push_str(&mut r, d.as_str());
            },
            None => push_str(&mut r, "none"),
        }
        r
    }
}

/// The reconnection delay after `attempts` attempts, in milliseconds.
pub fn backoff_delay_millis(attempts: u32) -> (r: u64)
    ensures
        r == backoff_millis(attempts),
{
    let k = if attempts < MAX_BACKOFF_EXPONENT {
        attempts
    } else {
        MAX_BACKOFF_EXPONENT
    };
    let mut m: u64 = 1000;
    let mut i: u32 = 0;
    while i < k
        invariant
            i <= k <= 5,
            m == 1000 * pow2(i as nat),
        decreases k - i,
    {
        assert(pow2((i + 1) as nat) == 2 * pow2(i as nat));
        assert(pow2(i as nat) <= 16) by {
            assert(pow2(0) == 1);
            assert(pow2(1) == 2);
            assert(pow2(2) == 4);
            assert(pow2(3) == 8);
            assert(pow2(4) == 16);
        }
        m = m * 2;
        i = i + 1;
    }
    m
}

/// The content-change hash of a string's UTF-8 bytes.
pub fn simple_hash(content: &str) -> (r: u64)
    ensures
        r == content_hash(vstd::utf8::encode_utf8(content@)),
{
    let bytes = content.as_bytes();
    let mut hash: u64 = 5381;
    let mut i: usize = 0;
    while i < bytes.len()
        invariant
            i <= bytes@.len(),
            bytes@ == vstd::utf8::encode_utf8(content@),
            hash == content_hash(bytes@.take(i as int)),
        decreases bytes@.len() - i,
    {
        assert(bytes@.take(i + 1).drop_last() =~= bytes@.take(i as int));
        hash = hash.wrapping_mul(33).wrapping_add(bytes[i] as u64);
        i = i + 1;
    }
    assert(bytes@.take(bytes@.len() as int) =~= bytes@);
    hash
}

/// The pane a request names by its `pane_id`, or else the focused pane.
pub fn resolve_pane(pane_id: &Option<String>, focused: Option<PaneId>) -> (r: Result<PaneId, String>)
    ensures
        match (r, resolve_pane_spec(opt_view(*pane_id), focused)) {
            (Ok(a), Ok(b)) => a == b,
            (Err(a), Err(b)) => a@ == b,
            _ => false,
        },
{
    match pane_id {
        Some(s) => match parse_u32_str(s.as_str()) {
            Some(id) => Ok(PaneId::Terminal(id)),
            None => Err(concat2("Invalid pane_id: ", s.as_str())),
        },
        None => match focused {
            Some(p) => Ok(p),
            None => Err(owned("No focused terminal pane")),
        },
    }
}

/// The working directory for file requests, from the query of the focused
/// pane's directory (`None` where no pane is focused).
pub fn cwd_or_root(query: Option<Result<String, String>>) -> (r: String)
    ensures
        r@ == cwd_spec(
            match query {
                Some(Ok(c)) => Some(Ok(c@)),
                Some(Err(e)) => Some(Err(e@)),
                None => None,
            },
        ),
{
    match query {
        Some(Ok(c)) => c,
        _ => {
            proof {
                reveal_strlit("/");
            }
            let r = owned("/");
            assert(r@ =~= seq!['/']);
            r
        },
    }
}

// ── Events and actions ────────────────────────────────────────────

/// A tab as the host reports it.
#[derive(Debug)]
pub struct TabInfo {
    pub position: usize,
    pub active: bool,
}

/// A pane as the host reports it.
#[derive(Debug)]
pub struct PaneInfo {
    pub id: u32,
    pub is_focused: bool,
    pub is_plugin: bool,
}

/// A member of a listed directory, as the host read it.
#[derive(Debug)]
pub struct RawDirEntry {
    pub name: String,
    pub is_dir: bool,
    pub len: u64,
    pub modified_secs: Option<u64>,
}

/// Why writing a file failed, with the host's message.
#[derive(Debug)]
pub enum WriteFailure {
    CreateDirs(String),
    Write(String),
}

/// Why listing a directory failed, with the host's message.
#[derive(Debug)]
pub enum ListFailure {
    Open(String),
    Entry(String),
    Metadata(String),
}

/// What the host hands to the plugin.
#[derive(Debug)]
pub enum PluginEvent {
    /// The user granted the permissions asked for; `zellij_pid` names the
    /// session where no session id was configured.
    PermissionGranted { zellij_pid: u32 },
    PermissionDenied,
    WebSocketConnected { connection_id: u32 },
    /// A text frame: the envelope it holds, or the parser's message where
    /// it is not a valid envelope.
    WebSocketText { message: Result<MessageEnvelope, String> },
    WebSocketDisconnected,
    Timer,
    TabUpdate { tabs: Vec<TabInfo> },
    /// The panes of each tab, by tab position.
    PaneUpdate { panes: Vec<(usize, Vec<PaneInfo>)> },
    PaneRenderReport { contents: Vec<(PaneId, PaneContents)> },
    /// The outcome of `CaptureScreen`.
    ScreenCaptured { request: MessageEnvelope, screen: Result<PaneContents, String> },
    /// The outcome of `ReadCwd`: the directory, or the host's message.
    CwdRead { request: MessageEnvelope, cwd: Result<String, String> },
    /// The outcome of `ReadShell`: the running command, or the host's message.
    ShellRead { request: MessageEnvelope, command: Result<Vec<String>, String> },
    /// The outcome of `ReadFile`: the file at `path` was read, or the
    /// host's message.
    FileRead {
        request: MessageEnvelope,
        read: ReadFilePayload,
        path: String,
        text: Result<String, String>,
    },
    /// The outcome of `WriteFile` at `path`.
    FileWritten {
        request: MessageEnvelope,
        write: WriteFilePayload,
        path: String,
        outcome: Result<(), WriteFailure>,
    },
    /// The outcome of `ListDir` at `path`.
    DirListed {
        request: MessageEnvelope,
        path: String,
        entries: Result<Vec<RawDirEntry>, ListFailure>,
    },
    /// The outcome of `GatherHeartbeat`: the queries of the focused pane's
    /// directory and running command (`None` where no pane is focused).
    HeartbeatInfo {
        cwd_query: Option<Result<String, String>>,
        command_query: Option<Result<Vec<String>, String>>,
    },
    /// Anything else.
    Ignored,
}

/// What the plugin asks the host to do.
#[derive(Debug)]
pub enum PluginAction {
    OpenWebSocket { url: String },
    /// Fire a `Timer` event after this many milliseconds.
    SetTimeout { millis: u64 },
    Send { connection_id: u32, message: MessageEnvelope },
    WriteChars { pane_id: PaneId, chars: String },
    WriteBytes { pane_id: PaneId, bytes: Vec<u8> },
    /// Read the pane's viewport and hand back `ScreenCaptured`.
    CaptureScreen { request: MessageEnvelope, pane_id: PaneId },
    /// Read the pane's working directory and hand back `CwdRead`.
    ReadCwd { request: MessageEnvelope, pane_id: PaneId },
    /// Read the pane's running command and hand back `ShellRead`.
    ReadShell { request: MessageEnvelope, pane_id: PaneId },
    /// Read the file the payload names (relative to the working directory
    /// of `cwd_pane`, or the root) and hand back `FileRead`.
    ReadFile { request: MessageEnvelope, read: ReadFilePayload, cwd_pane: Option<PaneId> },
    /// Write the file and hand back `FileWritten`.
    WriteFile { request: MessageEnvelope, write: WriteFilePayload, cwd_pane: Option<PaneId> },
    /// List the directory and hand back `DirListed`.
    ListDir { request: MessageEnvelope, list: ListDirPayload, cwd_pane: Option<PaneId> },
    /// Query the focused pane's directory and command and hand back
    /// `HeartbeatInfo`.
    GatherHeartbeat { focused_pane: Option<PaneId> },
}

/// A request as echoed in its answer: its `command_id` and `command`.
pub type RequestView = (Seq<char>, Seq<char>);

/// The request an envelope is.
pub open spec fn request_of(m: MessageEnvelope) -> RequestView {
    (m.command_id@, m.command@)
}

/// The view of an action, all but the timestamps of messages.
pub enum ActionView {
    OpenWebSocket(Seq<char>),
    SetTimeout(u64),
    Send(u32, EnvelopeView),
    WriteChars(PaneId, Seq<char>),
    WriteBytes(PaneId, Seq<u8>),
    CaptureScreen(RequestView, PaneId),
    ReadCwd(RequestView, PaneId),
    ReadShell(RequestView, PaneId),
    ReadFile(RequestView, Seq<char>, usize, usize, Option<PaneId>),
    WriteFile(RequestView, Seq<char>, Seq<char>, Option<PaneId>),
    ListDir(RequestView, Seq<char>, Option<PaneId>),
    GatherHeartbeat(Option<PaneId>),
}

impl View for PluginAction {
    type V = ActionView;

    open spec fn view(&self) -> ActionView {
        match self {
            PluginAction::OpenWebSocket { url } => ActionView::OpenWebSocket(url@),
            PluginAction::SetTimeout { millis } => ActionView::SetTimeout(*millis),
            PluginAction::Send { connection_id, message } => ActionView::Send(
                *connection_id,
                message@,
            ),
            PluginAction::WriteChars { pane_id, chars } => ActionView::WriteChars(*pane_id, chars@),
            PluginAction::WriteBytes { pane_id, bytes } => ActionView::WriteBytes(*pane_id, bytes@),
            PluginAction::CaptureScreen { request, pane_id } => ActionView::CaptureScreen(
                request_of(*request),
                *pane_id,
            ),
            PluginAction::ReadCwd { request, pane_id } => ActionView::ReadCwd(
                request_of(*request),
                *pane_id,
            ),
            PluginAction::ReadShell { request, pane_id } => ActionView::ReadShell(
                request_of(*request),
                *pane_id,
            ),
            PluginAction::ReadFile { request, read, cwd_pane } => ActionView::ReadFile(
                request_of(*request),
                read.path@,
                read.offset,
                read.limit,
                *cwd_pane,
            ),
            PluginAction::WriteFile { request, write, cwd_pane } => ActionView::WriteFile(
                request_of(*request),
                write.path@,
                write.content@,
                *cwd_pane,
            ),
            PluginAction::ListDir { request, list, cwd_pane } => ActionView::ListDir(
                request_of(*request),
                list.path@,
                *cwd_pane,
            ),
            PluginAction::GatherHeartbeat { focused_pane } => ActionView::GatherHeartbeat(
                *focused_pane,
            ),
        }
    }
}

/// The views of actions.
pub open spec fn actions_view(v: Seq<PluginAction>) -> Seq<ActionView> {
    v.map_values(|a: PluginAction| a@)
}

/// Every message sent carries a timestamp as this plugin writes them.
pub open spec fn timestamps_ok(v: Seq<PluginAction>) -> bool {
    forall|i: int|
        #![trigger v[i]]
        0 <= i < v.len() ==> (v[i] matches PluginAction::Send { message, .. } ==> is_timestamp(
            message.timestamp@,
        ))
}

/// The response to `request` in session `session`.
pub open spec fn response_view(
    request: RequestView,
    session: Seq<char>,
    payload: PayloadView,
    error: Option<Seq<char>>,
) -> EnvelopeView {
    EnvelopeView {
        command_id: request.0,
        session_id: session,
        msg_type: MessageType::Response,
        command: request.1,
        payload,
        error,
    }
}

/// An event of this session with the given command id.
pub open spec fn event_view(
    command_id: Seq<char>,
    session: Seq<char>,
    command: Seq<char>,
    payload: PayloadView,
) -> EnvelopeView {
    EnvelopeView {
        command_id,
        session_id: session,
        msg_type: MessageType::Event,
        command,
        payload,
        error: None,
    }
}

/// Sending `message`: nothing while there is no connection.
pub open spec fn send_view(s: PluginView, message: EnvelopeView) -> Seq<ActionView> {
    match s.connection_id {
        Some(c) => seq![ActionView::Send(c, message)],
        None => seq![],
    }
}

/// The error response to `request`.
pub open spec fn error_reply(s: PluginView, request: RequestView, error: Seq<char>) -> Seq<ActionView> {
    send_view(s, response_view(request, s.session_id, PayloadView::Empty, Some(error)))
}

/// The counter after one command id was taken from it.
pub open spec fn next_counter(c: u64) -> u64 {
    if c == u64::MAX {
        0
    } else {
        (c + 1) as u64
    }
}

/// The counter after `n` command ids were taken from it.
pub open spec fn advance(c: u64, n: nat) -> u64
    decreases n,
{
    if n == 0 {
        c
    } else {
        next_counter(advance(c, (n - 1) as nat))
    }
}

/// Sending the event `command` with `payload`: while connected, it takes
/// the next command id; while not, nothing happens.
pub open spec fn announce_step(s: PluginView, command: Seq<char>, payload: PayloadView) -> (
    PluginView,
    Seq<ActionView>,
) {
    match s.connection_id {
        Some(c) => (
            PluginView { command_counter: next_counter(s.command_counter), ..s },
            seq![
                ActionView::Send(
                    c,
                    event_view(command_id_for(s.command_counter), s.session_id, command, payload),
                ),
            ],
        ),
        None => (s, seq![]),
    }
}

// ── Steps for the connection and the timer ────────────────────────

pub open spec fn permission_granted_step(s: PluginView, zellij_pid: u32) -> (
    PluginView,
    Seq<ActionView>,
) {
    let sid = if s.session_id.len() == 0 {
        "zellij-"@ + decimal(zellij_pid as nat)
    } else {
        s.session_id
    };
    (
        PluginView { permissions_granted: true, session_id: sid, ..s },
        seq![ActionView::OpenWebSocket(websocket_url(s.opencc_url, sid))],
    )
}

pub open spec fn connected_step(s: PluginView, connection_id: u32) -> (PluginView, Seq<ActionView>) {
    (
        PluginView {
            connection_id: Some(connection_id),
            reconnect_attempts: 0,
            heartbeat_ticks: 0,
            ..s
        },
        seq![ActionView::SetTimeout(TICK_MILLIS)],
    )
}

pub open spec fn disconnected_step(s: PluginView) -> (PluginView, Seq<ActionView>) {
    let attempts = (s.reconnect_attempts + 1) as u32;
    (
        PluginView { connection_id: None, reconnect_attempts: attempts, ..s },
        seq![ActionView::SetTimeout(backoff_millis(attempts))],
    )
}

/// A pending screenshot one tick older.
pub open spec fn ticked(p: PendingView) -> PendingView {
    PendingView { ticks_idle: (p.ticks_idle + 1) as u32, ..p }
}

/// The pending screenshots still waiting after a tick, in order.
pub open spec fn tick_kept(ps: Seq<PendingView>, threshold: u32) -> Seq<PendingView>
    decreases ps.len(),
{
    if ps.len() == 0 {
        seq![]
    } else {
        let rest = tick_kept(ps.drop_last(), threshold);
        if ps.last().ticks_idle + 1 < threshold {
            rest.push(ticked(ps.last()))
        } else {
            rest
        }
    }
}

/// The pending screenshots whose output settled with a tick, last first.
pub open spec fn tick_done(ps: Seq<PendingView>, threshold: u32) -> Seq<PendingView>
    decreases ps.len(),
{
    if ps.len() == 0 {
        seq![]
    } else {
        let rest = tick_done(ps.drop_last(), threshold);
        if ps.last().ticks_idle + 1 < threshold {
            rest
        } else {
            seq![ps.last()] + rest
        }
    }
}

/// The captures asked for settled screenshots.
pub open spec fn capture_views(done: Seq<PendingView>) -> Seq<ActionView> {
    done.map_values(
        |p: PendingView| ActionView::CaptureScreen((p.command_id, p.command), p.pane_id),
    )
}

/// A timer tick. Without a connection it was the reconnection timer: the
/// plugin connects again. With one, every pending screenshot ages by one
/// tick and those that settled are captured, last first; every hundredth
/// tick adds twenty seconds of uptime and gathers a heartbeat; and the next
/// tick is scheduled.
pub open spec fn timer_step(s: PluginView) -> (PluginView, Seq<ActionView>) {
    match s.connection_id {
        None => (s, seq![ActionView::OpenWebSocket(websocket_url(s.opencc_url, s.session_id))]),
        Some(_) => {
            let kept = tick_kept(s.pending, s.settle_threshold);
            let captures = capture_views(tick_done(s.pending, s.settle_threshold));
            let ticks = s.heartbeat_ticks + 1;
            if ticks >= HEARTBEAT_TICKS {
                (
                    PluginView {
                        pending: kept,
                        heartbeat_ticks: 0,
                        uptime: (s.uptime + HEARTBEAT_SECS) as u64,
                        ..s
                    },
                    captures + seq![
                        ActionView::GatherHeartbeat(s.focused_pane),
                        ActionView::SetTimeout(TICK_MILLIS),
                    ],
                )
            } else {
                (
                    PluginView { pending: kept, heartbeat_ticks: ticks as u32, ..s },
                    captures + seq![ActionView::SetTimeout(TICK_MILLIS)],
                )
            }
        },
    }
}

/// A timer tick can be taken without overflow: a heartbeat that falls due
/// finds room for twenty more seconds of uptime.
pub open spec fn timer_fits(s: PluginView) -> bool {
    s.connection_id is Some && s.heartbeat_ticks + 1 >= HEARTBEAT_TICKS ==> s.uptime + HEARTBEAT_SECS
        <= u64::MAX
}

// ── Steps for the layout ──────────────────────────────────────────

/// The position of the last active tab, or `current` where none is active.
pub open spec fn last_active_tab(tabs: Seq<(usize, bool)>, current: Option<usize>) -> Option<usize>
    decreases tabs.len(),
{
    if tabs.len() == 0 {
        current
    } else if tabs.last().1 {
        Some(tabs.last().0)
    } else {
        last_active_tab(tabs.drop_last(), current)
    }
}

/// The last focused terminal pane, or `current` where none is focused.
pub open spec fn last_focused_terminal(panes: Seq<(u32, bool, bool)>, current: Option<PaneId>) -> Option<PaneId>
    decreases panes.len(),
{
    if panes.len() == 0 {
        current
    } else if panes.last().1 && !panes.last().2 {
        Some(PaneId::Terminal(panes.last().0))
    } else {
        last_focused_terminal(panes.drop_last(), current)
    }
}

/// The panes reported for tab `tab` (the first entry for it).
pub open spec fn panes_of_tab(tabs: Seq<(usize, Seq<(u32, bool, bool)>)>, tab: usize) -> Option<
    Seq<(u32, bool, bool)>,
>
    decreases tabs.len(),
{
    if tabs.len() == 0 {
        None
    } else if tabs[0].0 == tab {
        Some(tabs[0].1)
    } else {
        panes_of_tab(tabs.drop_first(), tab)
    }
}

pub open spec fn tabs_view(tabs: Seq<TabInfo>) -> Seq<(usize, bool)> {
    tabs.map_values(|t: TabInfo| (t.position, t.active))
}

pub open spec fn pane_infos_view(panes: Seq<PaneInfo>) -> Seq<(u32, bool, bool)> {
    panes.map_values(|p: PaneInfo| (p.id, p.is_focused, p.is_plugin))
}

pub open spec fn layout_view(tabs: Seq<(usize, Vec<PaneInfo>)>) -> Seq<(usize, Seq<(u32, bool, bool)>)> {
    tabs.map_values(|t: (usize, Vec<PaneInfo>)| (t.0, pane_infos_view(t.1@)))
}

/// A tab update: the active tab becomes the focused one.
pub open spec fn tab_update_step(s: PluginView, tabs: Seq<(usize, bool)>) -> (PluginView, Seq<ActionView>) {
    (PluginView { focused_tab: last_active_tab(tabs, s.focused_tab), ..s }, seq![])
}

/// A pane update: within the focused tab, the focused terminal pane
/// becomes the focused one.
pub open spec fn pane_update_step(s: PluginView, layout: Seq<(usize, Seq<(u32, bool, bool)>)>) -> (
    PluginView,
    Seq<ActionView>,
) {
    let focused = match s.focused_tab {
        Some(t) => match panes_of_tab(layout, t) {
            Some(ps) => last_focused_terminal(ps, s.focused_pane),
            None => s.focused_pane,
        },
        None => s.focused_pane,
    };
    (PluginView { focused_pane: focused, ..s }, seq![])
}

// ── Handlers ──────────────────────────────────────────────────────

/// The request a response answers, without its payload.
fn request_stub(command_id: String, command: String) -> (r: MessageEnvelope)
    ensures
        request_of(r) == (command_id@, command@),
{
    MessageEnvelope {
        command_id,
        session_id: String::new(),
        msg_type: MessageType::Request,
        command,
        payload: Payload::Empty,
        timestamp: String::new(),
        error: None,
    }
}

impl AgentPlugin {
    /// Sends the response to `request`, where there is a connection.
    fn reply(&self, request: &MessageEnvelope, payload: Payload, error: Option<String>) -> (r: Vec<
        PluginAction,
    >)
        ensures
            actions_view(r@) == send_view(
                self@,
                response_view(request_of(*request), self.session_id@, payload@, opt_view(error)),
            ),
            timestamps_ok(r@),
    {
        let mut actions: Vec<PluginAction> = Vec::new();
        match self.connection_id {
            Some(c) => {
                let message = MessageEnvelope::response(request, self.session_id.as_str(), payload, error);
                actions.push(PluginAction::Send { connection_id: c, message });
                assert(actions_view(actions@) =~= send_view(
                    self@,
                    response_view(request_of(*request), self.session_id@, payload@, opt_view(error)),
                ));
            },
            None => {
                assert(actions_view(actions@) =~= seq![]);
            },
        }
        actions
    }

    /// Sends an error response to `request`, where there is a connection.
    fn reply_error(&self, request: &MessageEnvelope, error: String) -> (r: Vec<PluginAction>)
        ensures
            actions_view(r@) == error_reply(self@, request_of(*request), error@),
            timestamps_ok(r@),
    {
        self.reply(request, Payload::Empty, Some(error))
    }

    /// Sends an event, taking the next command id, where there is a
    /// connection.
    fn announce(&mut self, command: &str, payload: Payload) -> (r: Vec<PluginAction>)
        ensures
            (final(self)@, actions_view(r@)) == announce_step(old(self)@, command@, payload@),
            timestamps_ok(r@),
    {
        let mut actions: Vec<PluginAction> = Vec::new();
        match self.connection_id {
            Some(c) => {
                let message = MessageEnvelope::event(
                    &mut self.command_counter,
                    self.session_id.as_str(),
                    command,
                    payload,
                );
                actions.push(PluginAction::Send { connection_id: c, message });
                assert(actions_view(actions@) =~= announce_step(old(self)@, command@, payload@).1);
            },
            None => {
                assert(actions_view(actions@) =~= seq![]);
            },
        }
        actions
    }

    /// Permissions were granted: name the session after the host's process
    /// where no session id was configured, and connect.
    pub fn on_permission_granted(&mut self, zellij_pid: u32) -> (r: Vec<PluginAction>)
        ensures
            (final(self)@, actions_view(r@)) == permission_granted_step(old(self)@, zellij_pid),
            timestamps_ok(r@),
    {
        self.permissions_granted = true;
        if self.session_id.as_str().is_empty() {
            let d = u64_to_decimal(zellij_pid as u64);
            self.session_id = concat2("zellij-", d.as_str());
        }
        let url = self.websocket_url();
        let actions = vec![PluginAction::OpenWebSocket { url }];
        assert(actions_view(actions@) =~= permission_granted_step(old(self)@, zellij_pid).1);
        actions
    }

    /// The connection is up: reset the reconnection and heartbeat counts and
    /// start the fast tick.
    pub fn on_connected(&mut self, connection_id: u32) -> (r: Vec<PluginAction>)
        ensures
            (final(self)@, actions_view(r@)) == connected_step(old(self)@, connection_id),
            timestamps_ok(r@),
    {
        self.connection_id = Some(connection_id);
        self.reconnect_attempts = 0;
        self.heartbeat_ticks = 0;
        let actions = vec![PluginAction::SetTimeout { millis: TICK_MILLIS }];
        assert(actions_view(actions@) =~= connected_step(old(self)@, connection_id).1);
        actions
    }

    /// The connection is gone: count the attempt and wait, doubling the
    /// delay with each attempt up to 32 seconds.
    pub fn on_disconnected(&mut self) -> (r: Vec<PluginAction>)
        requires
            old(self).reconnect_attempts < u32::MAX,
        ensures
            (final(self)@, actions_view(r@)) == disconnected_step(old(self)@),
            timestamps_ok(r@),
    {
        self.connection_id = None;
        self.reconnect_attempts = self.reconnect_attempts + 1;
        let millis = backoff_delay_millis(self.reconnect_attempts);
        let actions = vec![PluginAction::SetTimeout { millis }];
        assert(actions_view(actions@) =~= disconnected_step(old(self)@).1);
        actions
    }

    /// Ages every pending screenshot by a tick; those whose output settled
    /// are taken out and returned, last first.
    fn tick_pending(&mut self) -> (r: Vec<PendingScreenshot>)
        requires
            state_ok(old(self)@),
        ensures
            final(self)@ == (PluginView {
                pending: tick_kept(old(self)@.pending, old(self)@.settle_threshold),
                ..old(self)@
            }),
            pending_view(r@) == tick_done(old(self)@.pending, old(self)@.settle_threshold),
    {
        let ghost ps = old(self)@.pending;
        let thr = self.settle_threshold;
        let mut done: Vec<PendingScreenshot> = Vec::new();
        let mut kept_rev: Vec<PendingScreenshot> = Vec::new();
        let mut rest: Vec<PendingScreenshot> = Vec::new();
        std::mem::swap(&mut rest, &mut self.pending_screenshots);
        assert(pending_view(rest@) == ps);
        assert(ps.take(ps.len() as int) =~= ps);
        assert(pending_view(done@) =~= seq![]);
        assert(pending_view(kept_rev@).reverse() =~= seq![]);
        while rest.len() > 0
            invariant
                thr == old(self)@.settle_threshold,
                state_ok(old(self)@),
                ps == old(self)@.pending,
                pending_view(rest@) == ps.take(rest@.len() as int),
                rest@.len() <= ps.len(),
                tick_kept(ps, thr) == tick_kept(ps.take(rest@.len() as int), thr) + pending_view(
                    kept_rev@,
                ).reverse(),
                tick_done(ps, thr) == pending_view(done@) + tick_done(ps.take(rest@.len() as int), thr),
            decreases rest@.len(),
        {
            let ghost j = rest@.len() as int;
            let ghost before = ps.take(j);
            assert(before.drop_last() =~= ps.take(j - 1));
            assert(before.last() == ps[j - 1]);
            let p = rest.pop().unwrap();
            assert(pending_view(rest@) =~= ps.take(j - 1));
            assert(p@ == ps[j - 1]);
            assert(p.ticks_idle == 0 || p.ticks_idle < thr);
            if p.ticks_idle + 1 < thr {
                let q = PendingScreenshot {
                    request: p.request,
                    pane_id: p.pane_id,
                    ticks_idle: p.ticks_idle + 1,
                    last_content_hash: p.last_content_hash,
                };
                assert(q@ == ticked(ps[j - 1]));
                let ghost kv = pending_view(kept_rev@);
                kept_rev.push(q);
                assert(pending_view(kept_rev@) =~= kv.push(q@));
                assert(kv.push(q@).reverse() =~= seq![q@] + kv.reverse());
                assert(tick_kept(before, thr) == tick_kept(ps.take(j - 1), thr).push(q@));
                assert(tick_kept(ps, thr) =~= tick_kept(ps.take(j - 1), thr) + pending_view(
                    kept_rev@,
                ).reverse());
            } else {
                let ghost dv = pending_view(done@);
                done.push(p);
                assert(pending_view(done@) =~= dv.push(ps[j - 1]));
                assert(tick_done(before, thr) == seq![ps[j - 1]] + tick_done(ps.take(j - 1), thr));
                assert(tick_done(ps, thr) =~= pending_view(done@) + tick_done(ps.take(j - 1), thr));
            }
        }
        assert(ps.take(0) =~= seq![]);
        let mut kept: Vec<PendingScreenshot> = Vec::new();
        let ghost target = pending_view(kept_rev@).reverse();
        assert(tick_kept(ps, thr) =~= target);
        while kept_rev.len() > 0
            invariant
                pending_view(kept@) + pending_view(kept_rev@).reverse() == target,
            decreases kept_rev@.len(),
        {
            let ghost kr = pending_view(kept_rev@);
            let ghost kv = pending_view(kept@);
            let q = kept_rev.pop().unwrap();
            assert(pending_view(kept_rev@) =~= kr.drop_last());
            assert(kr.reverse() =~= seq![q@] + kr.drop_last().reverse());
            kept.push(q);
            assert(pending_view(kept@) =~= kv.push(q@));
            assert(pending_view(kept@) + pending_view(kept_rev@).reverse() =~= target);
        }
        assert(pending_view(kept_rev@).reverse() =~= seq![]);
        assert(pending_view(kept@) =~= target);
        self.pending_screenshots = kept;
        done
    }

    /// A timer tick (see `timer_step`).
    pub fn on_timer(&mut self) -> (r: Vec<PluginAction>)
        requires
            state_ok(old(self)@),
            timer_fits(old(self)@),
        ensures
            (final(self)@, actions_view(r@)) == timer_step(old(self)@),
            state_ok(final(self)@),
            timestamps_ok(r@),
    {
        if self.connection_id.is_none() {
            let url = self.websocket_url();
            let actions = vec![PluginAction::OpenWebSocket { url }];
            assert(actions_view(actions@) =~= timer_step(old(self)@).1);
            return actions;
        }
        let done = self.tick_pending();
        let mut actions: Vec<PluginAction> = Vec::new();
        let ghost dv = pending_view(done@);
        let mut rest = done;
        let mut k: usize = 0;
        let n = rest.len();
        while rest.len() > 0
            invariant
                k + rest@.len() == n,
                n == dv.len(),
                pending_view(rest@) == dv.skip(k as int),
                actions_view(actions@) == capture_views(dv.take(k as int)),
                timestamps_ok(actions@),
            decreases rest@.len(),
        {
            let ghost rv = rest@;
            assert(pending_view(rv)[0] == dv[k as int]);
            let p = rest.remove(0);
            assert forall|m: int| 0 <= m < rest@.len() implies #[trigger] pending_view(rest@)[m]
                == dv.skip(k + 1)[m] by {
                assert(rest@[m] == rv[m + 1]);
                assert(pending_view(rv)[m + 1] == dv.skip(k as int)[m + 1]);
            }
            assert(pending_view(rest@) =~= dv.skip(k + 1));
            let ghost av = actions_view(actions@);
            actions.push(PluginAction::CaptureScreen { request: p.request, pane_id: p.pane_id });
            assert(actions_view(actions@) =~= av.push(
                ActionView::CaptureScreen((dv[k as int].command_id, dv[k as int].command), dv[k as int].pane_id),
            ));
            assert(dv.take(k + 1) =~= dv.take(k as int).push(dv[k as int]));
            assert(capture_views(dv.take(k + 1)) =~= capture_views(dv.take(k as int)).push(
                ActionView::CaptureScreen((dv[k as int].command_id, dv[k as int].command), dv[k as int].pane_id),
            ));
            k = k + 1;
        }
        assert(dv.take(n as int) =~= dv);
        let ghost cv = actions_view(actions@);
        self.heartbeat_ticks = self.heartbeat_ticks + 1;
        if self.heartbeat_ticks >= HEARTBEAT_TICKS {
            self.uptime = self.uptime + HEARTBEAT_SECS;
            actions.push(PluginAction::GatherHeartbeat { focused_pane: self.focused_pane });
            self.heartbeat_ticks = 0;
        }
        actions.push(PluginAction::SetTimeout { millis: TICK_MILLIS });
        proof {
            let kept = tick_kept(old(self)@.pending, old(self)@.settle_threshold);
            assert(actions_view(actions@) =~= timer_step(old(self)@).1);
            lemma_tick_kept_ok(old(self)@.pending, old(self)@.settle_threshold);
        }
        actions
    }

    /// A tab update.
    pub fn on_tab_update(&mut self, tabs: &Vec<TabInfo>) -> (r: Vec<PluginAction>)
        ensures
            (final(self)@, actions_view(r@)) == tab_update_step(old(self)@, tabs_view(tabs@)),
            timestamps_ok(r@),
    {
        let mut i: usize = 0;
        let ghost tv = tabs_view(tabs@);
        assert(tv.take(0) =~= seq![]);
        while i < tabs.len()
            invariant
                i <= tabs@.len(),
                tv == tabs_view(tabs@),
                self@ == (PluginView { focused_tab: self.focused_tab, ..old(self)@ }),
                self.focused_tab == last_active_tab(tv.take(i as int), old(self)@.focused_tab),
            decreases tabs@.len() - i,
        {
            assert(tv.take(i + 1).drop_last() =~= tv.take(i as int));
            assert(tv.take(i + 1).last() == (tabs@[i as int].position, tabs@[i as int].active));
            if tabs[i].active {
                self.focused_tab = Some(tabs[i].position);
            }
            i = i + 1;
        }
        assert(tv.take(tabs@.len() as int) =~= tv);
        let actions: Vec<PluginAction> = Vec::new();
        assert(actions_view(actions@) =~= seq![]);
        actions
    }

    /// A pane update.
    pub fn on_pane_update(&mut self, panes: &Vec<(usize, Vec<PaneInfo>)>) -> (r: Vec<PluginAction>)
        ensures
            (final(self)@, actions_view(r@)) == pane_update_step(old(self)@, layout_view(panes@)),
            timestamps_ok(r@),
    {
        let actions: Vec<PluginAction> = Vec::new();
        assert(actions_view(actions@) =~= seq![]);
        let ghost lv = layout_view(panes@);
        if let Some(tab) = self.focused_tab {
            let mut t: usize = 0;
            assert(lv.skip(0) =~= lv);
            while t < panes.len() && panes[t].0 != tab
                invariant
                    t <= panes@.len(),
                    lv == layout_view(panes@),
                    panes_of_tab(lv, tab) == panes_of_tab(lv.skip(t as int), tab),
                decreases panes@.len() - t,
            {
                assert(lv.skip(t as int).drop_first() =~= lv.skip(t + 1));
                assert(lv.skip(t as int)[0].0 == panes@[t as int].0);
                t = t + 1;
            }
            if t == panes.len() {
                assert(lv.skip(t as int) =~= seq![]);
                return actions;
            }
            assert(lv.skip(t as int)[0] == lv[t as int]);
            let infos = &panes[t].1;
            let ghost pv = pane_infos_view(infos@);
            assert(panes_of_tab(lv, tab) == Some(pv));
            let mut i: usize = 0;
            assert(pv.take(0) =~= seq![]);
            while i < infos.len()
                invariant
                    i <= infos@.len(),
                    pv == pane_infos_view(infos@),
                    self@ == (PluginView { focused_pane: self.focused_pane, ..old(self)@ }),
                    self.focused_pane == last_focused_terminal(pv.take(i as int), old(self)@.focused_pane),
                decreases infos@.len() - i,
            {
                assert(pv.take(i + 1).drop_last() =~= pv.take(i as int));
                assert(pv.take(i + 1).last() == (infos@[i as int].id, infos@[i as int].is_focused, infos@[i as int].is_plugin));
                if infos[i].is_focused && !infos[i].is_plugin {
                    self.focused_pane = Some(PaneId::Terminal(infos[i].id));
                }
                i = i + 1;
            }
            assert(pv.take(infos@.len() as int) =~= pv);
        }
        actions
    }
}

// ── Steps for screen reports ──────────────────────────────────────

/// The contents reported for `pane` (the first entry for it).
pub open spec fn contents_of(items: Seq<(PaneId, Seq<Seq<char>>)>, pane: PaneId) -> Option<
    Seq<Seq<char>>,
>
    decreases items.len(),
{
    if items.len() == 0 {
        None
    } else if items[0].0 == pane {
        Some(items[0].1)
    } else {
        contents_of(items.drop_first(), pane)
    }
}

/// A pending screenshot after a screen report: where its pane's output
/// hashes differently than before, the new hash is kept and the idle count
/// starts over.
pub open spec fn rehashed(p: PendingView, items: Seq<(PaneId, Seq<Seq<char>>)>) -> PendingView {
    match contents_of(items, p.pane_id) {
        Some(vp) => {
            let h = content_hash(vstd::utf8::encode_utf8(screen_text(vp)));
            if h != p.last_content_hash {
                PendingView { last_content_hash: h, ticks_idle: 0, ..p }
            } else {
                p
            }
        },
        None => p,
    }
}

pub open spec fn rehash_all(ps: Seq<PendingView>, items: Seq<(PaneId, Seq<Seq<char>>)>) -> Seq<
    PendingView,
> {
    ps.map_values(|p: PendingView| rehashed(p, items))
}

/// Sending a `help` event for each request found, in order.
pub open spec fn help_events(s: PluginView, found: Seq<(PaneId, (Seq<char>, Option<Seq<char>>))>) -> (
    PluginView,
    Seq<ActionView>,
)
    decreases found.len(),
{
    if found.len() == 0 {
        (s, seq![])
    } else {
        let (s1, a1) = help_events(s, found.drop_last());
        let (s2, a2) = announce_step(s1, "help"@, PayloadView::Help(found.last().1));
        (s2, a1 + a2)
    }
}

/// A screen report: pending screenshots note changed output, and help
/// requests newly seen on terminal panes are sent as `help` events.
pub open spec fn render_step(s: PluginView, items: Seq<(PaneId, Seq<Seq<char>>)>) -> (
    PluginView,
    Seq<ActionView>,
) {
    let (keys, found) = scan(s.help_keys, items);
    help_events(PluginView { pending: rehash_all(s.pending, items), help_keys: keys, ..s }, found)
}

// ── Steps for requests ────────────────────────────────────────────

/// A request queued for its screenshot.
pub open spec fn queued(s: PluginView, request: RequestView, pane: PaneId) -> PluginView {
    PluginView {
        pending: s.pending.push(
            PendingView {
                command_id: request.0,
                command: request.1,
                pane_id: pane,
                ticks_idle: 0,
                last_content_hash: 0,
            },
        ),
        ..s
    }
}

/// A request: what each command does, or the error response it gets. The
/// commands that type into a pane queue a screenshot; the others ask the
/// host for what their answer needs.
pub open spec fn request_step(s: PluginView, request: RequestView, rp: RequestPayloadView) -> (
    PluginView,
    Seq<ActionView>,
) {
    let command = request.1;
    let pane = resolve_pane_spec(rp.pane_id, s.focused_pane);
    if command == "send_input"@ {
        match rp.send_input {
            Err(e) => (s, error_reply(s, request, "Bad payload: "@ + e)),
            Ok(input) => match pane {
                Err(e) => (s, error_reply(s, request, e)),
                Ok(p) => (queued(s, request, p), seq![ActionView::WriteChars(p, input_text(input))]),
            },
        }
    } else if command == "send_key"@ {
        match rp.send_key {
            Err(e) => (s, error_reply(s, request, "Bad payload: "@ + e)),
            Ok(key) => match pane {
                Err(e) => (s, error_reply(s, request, e)),
                Ok(p) => (queued(s, request, p), seq![ActionView::WriteBytes(p, key_bytes(key))]),
            },
        }
    } else if command == "forward_key"@ {
        match rp.send_input {
            Err(e) => (s, error_reply(s, request, "Bad payload: "@ + e)),
            Ok(input) => match pane {
                Err(e) => (s, error_reply(s, request, e)),
                Ok(p) => (queued(s, request, p), seq![ActionView::WriteChars(p, input_text(input))]),
            },
        }
    } else if command == "get_screenshot"@ {
        match pane {
            Err(e) => (s, error_reply(s, request, e)),
            Ok(p) => (s, seq![ActionView::CaptureScreen(request, p)]),
        }
    } else if command == "get_cwd"@ {
        match pane {
            Err(e) => (s, error_reply(s, request, e)),
            Ok(p) => (s, seq![ActionView::ReadCwd(request, p)]),
        }
    } else if command == "get_shell"@ {
        match pane {
            Err(e) => (s, error_reply(s, request, e)),
            Ok(p) => (s, seq![ActionView::ReadShell(request, p)]),
        }
    } else if command == "read_file"@ {
        match rp.read_file {
            Err(e) => (s, error_reply(s, request, "Bad payload: "@ + e)),
            Ok(f) => (s, seq![ActionView::ReadFile(request, f.0, f.1, f.2, s.focused_pane)]),
        }
    } else if command == "write_file"@ {
        match rp.write_file {
            Err(e) => (s, error_reply(s, request, "Bad payload: "@ + e)),
            Ok(f) => (s, seq![ActionView::WriteFile(request, f.0, f.1, s.focused_pane)]),
        }
    } else if command == "list_dir"@ {
        match rp.list_dir {
            Err(e) => (s, error_reply(s, request, "Bad payload: "@ + e)),
            Ok(path) => (s, seq![ActionView::ListDir(request, path, s.focused_pane)]),
        }
    } else {
        (s, error_reply(s, request, "Unknown command: "@ + command))
    }
}

/// A text frame that is not a valid envelope: an error response with no
/// command id and the command `error`.
pub open spec fn invalid_json_step(s: PluginView, message: Seq<char>) -> (PluginView, Seq<ActionView>) {
    (s, error_reply(s, (seq![], "error"@), "Invalid JSON: "@ + message))
}

/// A text frame: requests are handled, other envelopes are passed over.
pub open spec fn text_step(s: PluginView, message: Result<MessageEnvelope, Seq<char>>) -> (
    PluginView,
    Seq<ActionView>,
) {
    match message {
        Err(e) => invalid_json_step(s, e),
        Ok(m) => if m.msg_type != MessageType::Request {
            (s, seq![])
        } else {
            match m.payload {
                Payload::Request(rp) => request_step(s, request_of(m), rp@),
                _ => (s, seq![]),
            }
        },
    }
}

// ── Steps for the host's answers ──────────────────────────────────

/// The response carrying `payload`.
pub open spec fn ok_reply(s: PluginView, request: RequestView, payload: PayloadView) -> Seq<ActionView> {
    send_view(s, response_view(request, s.session_id, payload, None))
}

pub open spec fn screen_captured_step(
    s: PluginView,
    request: RequestView,
    result: Result<Seq<Seq<char>>, Seq<char>>,
) -> (PluginView, Seq<ActionView>) {
    (
        s,
        match result {
            Ok(vp) => ok_reply(s, request, PayloadView::Screenshot(screen_text(vp))),
            Err(e) => error_reply(s, request, e),
        },
    )
}

pub open spec fn cwd_read_step(s: PluginView, request: RequestView, result: Result<Seq<char>, Seq<char>>) -> (
    PluginView,
    Seq<ActionView>,
) {
    (
        s,
        match result {
            Ok(c) => ok_reply(s, request, PayloadView::Cwd(c)),
            Err(e) => error_reply(s, request, e),
        },
    )
}

pub open spec fn shell_read_step(
    s: PluginView,
    request: RequestView,
    result: Result<Seq<Seq<char>>, Seq<char>>,
) -> (PluginView, Seq<ActionView>) {
    (
        s,
        match result {
            Ok(cmd) => ok_reply(s, request, PayloadView::Shell(shell_name_of(cmd))),
            Err(e) => error_reply(s, request, e),
        },
    )
}

/// A file was read, or reading it failed: the window of lines asked for,
/// or the host's message followed by `: ` and the path.
pub open spec fn file_read_step(
    s: PluginView,
    request: RequestView,
    offset: usize,
    limit: usize,
    path: Seq<char>,
    result: Result<Seq<char>, Seq<char>>,
) -> (PluginView, Seq<ActionView>) {
    (
        s,
        match result {
            Ok(content) => ok_reply(
                s,
                request,
                PayloadView::ReadFile(
                    read_window(content, offset, limit),
                    "utf-8"@,
                    lines_count(content),
                ),
            ),
            Err(e) => error_reply(s, request, e + ": "@ + path),
        },
    )
}

/// The number of lines of a text.
pub open spec fn lines_count(content: Seq<char>) -> usize {
    crate::text::lines(content).len() as usize
}

pub enum WriteFailureView {
    CreateDirs(Seq<char>),
    Write(Seq<char>),
}

pub open spec fn write_failure_view(f: WriteFailure) -> WriteFailureView {
    match f {
        WriteFailure::CreateDirs(e) => WriteFailureView::CreateDirs(e@),
        WriteFailure::Write(e) => WriteFailureView::Write(e@),
    }
}

/// A file was written, or writing it failed.
pub open spec fn file_written_step(
    s: PluginView,
    request: RequestView,
    content: Seq<char>,
    path: Seq<char>,
    result: Result<(), WriteFailureView>,
) -> (PluginView, Seq<ActionView>) {
    (
        s,
        match result {
            Ok(_) => ok_reply(
                s,
                request,
                PayloadView::WriteFile(true, vstd::utf8::encode_utf8(content).len() as usize),
            ),
            Err(WriteFailureView::CreateDirs(e)) => error_reply(
                s,
                request,
                "Failed to create directories: "@ + e,
            ),
            Err(WriteFailureView::Write(e)) => error_reply(s, request, e + ": "@ + path),
        },
    )
}

/// The listing entry for a raw directory member.
pub open spec fn raw_entry_view(r: RawDirEntry) -> (Seq<char>, bool, u64, Option<Seq<char>>) {
    (
        r.name@,
        r.is_dir,
        if r.is_dir {
            0
        } else {
            r.len
        },
        match r.modified_secs {
            Some(secs) => Some(decimal(secs as nat)),
            None => None,
        },
    )
}

pub open spec fn list_failure_message(f: ListFailure, path: Seq<char>) -> Seq<char> {
    match f {
        ListFailure::Open(e) => e@ + ": "@ + path,
        ListFailure::Entry(e) => "Error reading entry: "@ + e@,
        ListFailure::Metadata(e) => "Error reading metadata: "@ + e@,
    }
}

/// A directory was listed, or listing it failed: the response lists the
/// members, directories first and then by name, or carries the error.
pub open spec fn dir_listed_step(
    s: PluginView,
    request: RequestView,
    path: Seq<char>,
    result: Result<Seq<RawDirEntry>, ListFailure>,
) -> (PluginView, Seq<ActionView>) {
    (
        s,
        match result {
            Ok(raw) => ok_reply(
                s,
                request,
                PayloadView::ListDir(listing_of(raw.map_values(|r: RawDirEntry| raw_entry_view(r)))),
            ),
            Err(f) => error_reply(s, request, list_failure_message(f, path)),
        },
    )
}

/// The heartbeat: uptime, working directory and shell, sent as an event.
pub open spec fn heartbeat_step(
    s: PluginView,
    cwd: Option<Result<Seq<char>, Seq<char>>>,
    command: Option<Result<Seq<Seq<char>>, Seq<char>>>,
) -> (PluginView, Seq<ActionView>) {
    announce_step(
        s,
        "heartbeat"@,
        PayloadView::Heartbeat(
            s.uptime,
            cwd_spec(cwd),
            heartbeat_shell_of(
                match command {
                    Some(Ok(c)) => Some(c),
                    _ => None,
                },
            ),
        ),
    )
}

impl AgentPlugin {
    /// Notes, for each pending screenshot, whether its pane's output changed.
    fn rehash_pending(&mut self, contents: &Vec<(PaneId, PaneContents)>)
        ensures
            final(self)@ == (PluginView {
                pending: rehash_all(old(self)@.pending, panes_view(contents@)),
                ..old(self)@
            }),
    {
        let ghost items = panes_view(contents@);
        let ghost ps = old(self)@.pending;
        let mut rest: Vec<PendingScreenshot> = Vec::new();
        std::mem::swap(&mut rest, &mut self.pending_screenshots);
        assert(pending_view(self.pending_screenshots@) =~= seq![]);
        let mut updated: Vec<PendingScreenshot> = Vec::new();
        let mut k: usize = 0;
        let n = rest.len();
        assert(ps.skip(0) =~= ps);
        assert(pending_view(updated@) =~= rehash_all(ps.take(0), items));
        while rest.len() > 0
            invariant
                k + rest@.len() == n,
                n == ps.len(),
                ps == old(self)@.pending,
                items == panes_view(contents@),
                pending_view(rest@) == ps.skip(k as int),
                pending_view(updated@) == rehash_all(ps.take(k as int), items),
                self@ == (PluginView { pending: seq![], ..old(self)@ }),
            decreases rest@.len(),
        {
            let ghost rv = rest@;
            assert(pending_view(rv)[0] == ps[k as int]);
            let p = rest.remove(0);
            assert forall|m: int| 0 <= m < rest@.len() implies #[trigger] pending_view(rest@)[m]
                == ps.skip(k + 1)[m] by {
                assert(rest@[m] == rv[m + 1]);
                assert(pending_view(rv)[m + 1] == ps.skip(k as int)[m + 1]);
            }
            assert(pending_view(rest@) =~= ps.skip(k + 1));
            let mut j: usize = 0;
            assert(items.skip(0) =~= items);
            while j < contents.len() && contents[j].0 != p.pane_id
                invariant
                    j <= contents@.len(),
                    items == panes_view(contents@),
                    contents_of(items, p.pane_id) == contents_of(items.skip(j as int), p.pane_id),
                decreases contents@.len() - j,
            {
                assert(items.skip(j as int).drop_first() =~= items.skip(j + 1));
                assert(items.skip(j as int)[0] == items[j as int]);
                j = j + 1;
            }
            let q = if j < contents.len() {
                assert(items.skip(j as int)[0] == items[j as int]);
                assert(items[j as int] == (contents@[j as int].0, contents@[j as int].1@));
                let text = pane_contents_to_text(&contents[j].1);
                let h = simple_hash(text.as_str());
                if h != p.last_content_hash {
                    PendingScreenshot {
                        request: p.request,
                        pane_id: p.pane_id,
                        ticks_idle: 0,
                        last_content_hash: h,
                    }
                } else {
                    p
                }
            } else {
                assert(items.skip(j as int) =~= seq![]);
                p
            };
            assert(q@ == rehashed(ps[k as int], items));
            let ghost uv = pending_view(updated@);
            updated.push(q);
            assert(pending_view(updated@) =~= uv.push(q@));
            assert(ps.take(k + 1) =~= ps.take(k as int).push(ps[k as int]));
            assert(rehash_all(ps.take(k + 1), items) =~= rehash_all(ps.take(k as int), items).push(
                rehashed(ps[k as int], items),
            ));
            k = k + 1;
        }
        assert(ps.take(n as int) =~= ps);
        self.pending_screenshots = updated;
    }

    /// Sends a `help` event for each request found, in order.
    fn send_help_events(&mut self, found: Vec<(PaneId, crate::protocol::HelpEventPayload)>) -> (r: Vec<
        PluginAction,
    >)
        ensures
            (final(self)@, actions_view(r@)) == help_events(old(self)@, triggers_view(found@)),
            timestamps_ok(r@),
    {
        let ghost tv = triggers_view(found@);
        let mut rest = found;
        let mut actions: Vec<PluginAction> = Vec::new();
        let mut k: usize = 0;
        let n = rest.len();
        assert(tv.skip(0) =~= tv);
        assert(actions_view(actions@) =~= seq![]);
        while rest.len() > 0
            invariant
                k + rest@.len() == n,
                n == tv.len(),
                triggers_view(rest@) == tv.skip(k as int),
                (self@, actions_view(actions@)) == help_events(old(self)@, tv.take(k as int)),
                timestamps_ok(actions@),
            decreases rest@.len(),
        {
            let ghost rv = rest@;
            assert(triggers_view(rv)[0] == tv[k as int]);
            let (_pane, help) = rest.remove(0);
            assert forall|m: int| 0 <= m < rest@.len() implies #[trigger] triggers_view(rest@)[m]
                == tv.skip(k + 1)[m] by {
                assert(rest@[m] == rv[m + 1]);
                assert(triggers_view(rv)[m + 1] == tv.skip(k as int)[m + 1]);
            }
            assert(triggers_view(rest@) =~= tv.skip(k + 1));
            assert(tv.take(k + 1).drop_last() =~= tv.take(k as int));
            assert(tv.take(k + 1).last() == tv[k as int]);
            assert(help@ == tv[k as int].1);
            let ghost av = actions_view(actions@);
            let mut more = self.announce("help", Payload::Help(help));
            proof {
                reveal_strlit("help");
            }
            let ghost mo = more@;
            let ghost before = actions@;
            actions.append(&mut more);
            assert(actions@ == before + mo);
            assert(actions_view(actions@) =~= av + actions_view(mo));
            assert forall|i: int| 0 <= i < actions@.len() implies (#[trigger] actions@[i] matches PluginAction::Send { message, .. } ==> is_timestamp(message.timestamp@)) by {
                if i >= before.len() {
                    assert(actions@[i] == mo[i - before.len()]);
                } else {
                    assert(actions@[i] == before[i]);
                }
            }
            k = k + 1;
        }
        assert(tv.take(n as int) =~= tv);
        actions
    }
}

impl AgentPlugin {
    /// A screen report (see `render_step`).
    pub fn on_render_report(&mut self, contents: &Vec<(PaneId, PaneContents)>) -> (r: Vec<
        PluginAction,
    >)
        requires
            distinct_panes(panes_view(contents@)),
        ensures
            (final(self)@, actions_view(r@)) == render_step(old(self)@, panes_view(contents@)),
            timestamps_ok(r@),
    {
        self.rehash_pending(contents);
        let found = self.screen_monitor.scan_for_help(contents);
        self.send_help_events(found)
    }

    /// A request (see `request_step`).
    fn handle_request(&mut self, envelope: MessageEnvelope) -> (r: Vec<PluginAction>)
        ensures
            (final(self)@, actions_view(r@)) == (match envelope.payload {
                Payload::Request(rp) => request_step(old(self)@, request_of(envelope), rp@),
                _ => (old(self)@, seq![]),
            }),
            timestamps_ok(r@),
    {
        let ghost req = request_of(envelope);
        let MessageEnvelope { command_id, command, payload, .. } = envelope;
        let rp = match payload {
            Payload::Request(rp) => rp,
            _ => {
                let none: Vec<PluginAction> = Vec::new();
                assert(actions_view(none@) =~= seq![]);
                return none;
            },
        };
        let ghost rpv = rp@;
        let ghost s0 = self@;
        let RequestPayload { pane_id, send_input, send_key, read_file, write_file, list_dir, .. } =
            rp;
        let request = request_stub(command_id, command);
        let is_send_input = str_equals(request.command.as_str(), "send_input");
        let is_send_key = str_equals(request.command.as_str(), "send_key");
        let is_forward_key = str_equals(request.command.as_str(), "forward_key");
        let is_get_screenshot = str_equals(request.command.as_str(), "get_screenshot");
        let is_get_cwd = str_equals(request.command.as_str(), "get_cwd");
        let is_get_shell = str_equals(request.command.as_str(), "get_shell");
        let is_read_file = str_equals(request.command.as_str(), "read_file");
        let is_write_file = str_equals(request.command.as_str(), "write_file");
        let is_list_dir = str_equals(request.command.as_str(), "list_dir");
        let ghost expected = request_step(s0, req, rpv);
        if is_send_input || (!is_send_key && is_forward_key) {
            match send_input {
                Err(e) => {
                    return self.reply_error(&request, concat2("Bad payload: ", e.as_str()));
                },
                Ok(p) => match resolve_pane(&pane_id, self.focused_pane) {
                    Err(e) => {
                        return self.reply_error(&request, e);
                    },
                    Ok(pane) => {
                        let chars = send_input_text(&p);
                        let ghost pv = pending_view(self.pending_screenshots@);
                        self.pending_screenshots.push(
                            PendingScreenshot {
                                request,
                                pane_id: pane,
                                ticks_idle: 0,
                                last_content_hash: 0,
                            },
                        );
                        assert(pending_view(self.pending_screenshots@) =~= queued(s0, req, pane).pending);
                        let actions = vec![PluginAction::WriteChars { pane_id: pane, chars }];
                        assert(actions_view(actions@) =~= expected.1);
                        return actions;
                    },
                },
            }
        }
        if is_send_key {
            match send_key {
                Err(e) => {
                    return self.reply_error(&request, concat2("Bad payload: ", e.as_str()));
                },
                Ok(p) => match resolve_pane(&pane_id, self.focused_pane) {
                    Err(e) => {
                        return self.reply_error(&request, e);
                    },
                    Ok(pane) => {
                        let bytes = key_to_bytes(p.key.as_str());
                        self.pending_screenshots.push(
                            PendingScreenshot {
                                request,
                                pane_id: pane,
                                ticks_idle: 0,
                                last_content_hash: 0,
                            },
                        );
                        assert(pending_view(self.pending_screenshots@) =~= queued(s0, req, pane).pending);
                        let actions = vec![PluginAction::WriteBytes { pane_id: pane, bytes }];
                        assert(actions_view(actions@) =~= expected.1);
                        return actions;
                    },
                },
            }
        }
        let pane = resolve_pane(&pane_id, self.focused_pane);
        if is_get_screenshot || is_get_cwd || is_get_shell {
            match pane {
                Err(e) => {
                    return self.reply_error(&request, e);
                },
                Ok(p) => {
                    let action = if is_get_screenshot {
                        PluginAction::CaptureScreen { request, pane_id: p }
                    } else if is_get_cwd {
                        PluginAction::ReadCwd { request, pane_id: p }
                    } else {
                        PluginAction::ReadShell { request, pane_id: p }
                    };
                    let actions = vec![action];
                    assert(actions_view(actions@) =~= expected.1);
                    return actions;
                },
            }
        }
        if is_read_file {
            match read_file {
                Err(e) => {
                    return self.reply_error(&request, concat2("Bad payload: ", e.as_str()));
                },
                Ok(f) => {
                    let actions = vec![
                        PluginAction::ReadFile { request, read: f, cwd_pane: self.focused_pane },
                    ];
                    assert(actions_view(actions@) =~= expected.1);
                    return actions;
                },
            }
        }
        if is_write_file {
            match write_file {
                Err(e) => {
                    return self.reply_error(&request, concat2("Bad payload: ", e.as_str()));
                },
                Ok(f) => {
                    let actions = vec![
                        PluginAction::WriteFile { request, write: f, cwd_pane: self.focused_pane },
                    ];
                    assert(actions_view(actions@) =~= expected.1);
                    return actions;
                },
            }
        }
        if is_list_dir {
            match list_dir {
                Err(e) => {
                    return self.reply_error(&request, concat2("Bad payload: ", e.as_str()));
                },
                Ok(f) => {
                    let actions = vec![
                        PluginAction::ListDir { request, list: f, cwd_pane: self.focused_pane },
                    ];
                    assert(actions_view(actions@) =~= expected.1);
                    return actions;
                },
            }
        }
        let message = concat2("Unknown command: ", request.command.as_str());
        self.reply_error(&request, message)
    }
}

impl AgentPlugin {
    /// A text frame (see `text_step`).
    pub fn on_text(&mut self, message: Result<MessageEnvelope, String>) -> (r: Vec<PluginAction>)
        ensures
            (final(self)@, actions_view(r@)) == text_step(
                old(self)@,
                match message {
                    Ok(m) => Ok(m),
                    Err(e) => Err(e@),
                },
            ),
            timestamps_ok(r@),
    {
        match message {
            Err(e) => {
                let request = request_stub(String::new(), owned("error"));
                let error = concat2("Invalid JSON: ", e.as_str());
                self.reply_error(&request, error)
            },
            Ok(m) => {
                if m.msg_type != MessageType::Request {
                    let none: Vec<PluginAction> = Vec::new();
                    assert(actions_view(none@) =~= seq![]);
                    none
                } else {
                    self.handle_request(m)
                }
            },
        }
    }

    /// The screen of a pane was read (see `screen_captured_step`).
    pub fn on_screen_captured(&self, request: MessageEnvelope, screen: Result<PaneContents, String>) -> (r:
        Vec<PluginAction>)
        ensures
            (self@, actions_view(r@)) == screen_captured_step(
                self@,
                request_of(request),
                match screen {
                    Ok(c) => Ok(c@),
                    Err(e) => Err(e@),
                },
            ),
            timestamps_ok(r@),
    {
        match screen {
            Ok(c) => {
                let screenshot = pane_contents_to_text(&c);
                self.reply(&request, Payload::Screenshot(ScreenshotResponse { screenshot }), None)
            },
            Err(e) => self.reply_error(&request, e),
        }
    }

    /// The working directory of a pane was read (see `cwd_read_step`).
    pub fn on_cwd_read(&self, request: MessageEnvelope, cwd: Result<String, String>) -> (r: Vec<
        PluginAction,
    >)
        ensures
            (self@, actions_view(r@)) == cwd_read_step(
                self@,
                request_of(request),
                match cwd {
                    Ok(c) => Ok(c@),
                    Err(e) => Err(e@),
                },
            ),
            timestamps_ok(r@),
    {
        match cwd {
            Ok(c) => self.reply(&request, Payload::Cwd(CwdResponse { cwd: c }), None),
            Err(e) => self.reply_error(&request, e),
        }
    }

    /// The running command of a pane was read (see `shell_read_step`).
    pub fn on_shell_read(&self, request: MessageEnvelope, command: Result<Vec<String>, String>) -> (r:
        Vec<PluginAction>)
        ensures
            (self@, actions_view(r@)) == shell_read_step(
                self@,
                request_of(request),
                match command {
                    Ok(c) => Ok(string_views(c@)),
                    Err(e) => Err(e@),
                },
            ),
            timestamps_ok(r@),
    {
        match command {
            Ok(c) => {
                let shell = shell_name(&c);
                self.reply(&request, Payload::Shell(ShellResponse { shell }), None)
            },
            Err(e) => self.reply_error(&request, e),
        }
    }

    /// A file was read (see `file_read_step`).
    pub fn on_file_read(
        &self,
        request: MessageEnvelope,
        read: ReadFilePayload,
        path: String,
        text: Result<String, String>,
    ) -> (r: Vec<PluginAction>)
        requires
            text matches Ok(t) ==> window_fits(t@, read.offset, read.limit),
        ensures
            (self@, actions_view(r@)) == file_read_step(
                self@,
                request_of(request),
                read.offset,
                read.limit,
                path@,
                match text {
                    Ok(t) => Ok(t@),
                    Err(e) => Err(e@),
                },
            ),
            timestamps_ok(r@),
    {
        match text {
            Ok(t) => match read_file_response(t.as_str(), read.offset, read.limit) {
                Some(resp) => self.reply(&request, Payload::ReadFile(resp), None),
                None => {
                    assert(false);
                    Vec::new()
                },
            },
            Err(e) => {
                let mut message = e;
                push_str(&mut message, ": ");
                push_str(&mut message, path.as_str());
                self.reply_error(&request, message)
            },
        }
    }

    /// A file was written (see `file_written_step`).
    pub fn on_file_written(
        &self,
        request: MessageEnvelope,
        write: WriteFilePayload,
        path: String,
        outcome: Result<(), WriteFailure>,
    ) -> (r: Vec<PluginAction>)
        ensures
            (self@, actions_view(r@)) == file_written_step(
                self@,
                request_of(request),
                write.content@,
                path@,
                match outcome {
                    Ok(u) => Ok(u),
                    Err(f) => Err(write_failure_view(f)),
                },
            ),
            timestamps_ok(r@),
    {
        match outcome {
            Ok(()) => {
                let resp = write_file_response(write.content.as_str());
                self.reply(&request, Payload::WriteFile(resp), None)
            },
            Err(WriteFailure::CreateDirs(e)) => {
                let message = concat2("Failed to create directories: ", e.as_str());
                self.reply_error(&request, message)
            },
            Err(WriteFailure::Write(e)) => {
                let mut message = e;
                push_str(&mut message, ": ");
                push_str(&mut message, path.as_str());
                self.reply_error(&request, message)
            },
        }
    }

    /// A directory was listed (see `dir_listed_step`).
    pub fn on_dir_listed(
        &self,
        request: MessageEnvelope,
        path: String,
        entries: Result<Vec<RawDirEntry>, ListFailure>,
    ) -> (r: Vec<PluginAction>)
        ensures
            (self@, actions_view(r@)) == dir_listed_step(
                self@,
                request_of(request),
                path@,
                match entries {
                    Ok(v) => Ok(v@),
                    Err(f) => Err(f),
                },
            ),
            timestamps_ok(r@),
    {
        match entries {
            Ok(raw) => {
                let ghost rv = raw@;
                let ghost target = rv.map_values(|r: RawDirEntry| raw_entry_view(r));
                let mut rest = raw;
                let mut built: Vec<crate::protocol::DirEntry> = Vec::new();
                let mut k: usize = 0;
                let n = rest.len();
                assert(entries_view(built@) =~= target.take(0));
                while rest.len() > 0
                    invariant
                        k + rest@.len() == n,
                        n == rv.len(),
                        rest@ == rv.skip(k as int),
                        target == rv.map_values(|r: RawDirEntry| raw_entry_view(r)),
                        entries_view(built@) == target.take(k as int),
                    decreases rest@.len(),
                {
                    let ghost before = rest@;
                    let e = rest.remove(0);
                    assert(rest@ =~= rv.skip(k + 1));
                    assert(e == rv[k as int]);
                    let ghost bv = entries_view(built@);
                    let RawDirEntry { name, is_dir, len, modified_secs } = e;
                    let d = dir_entry(name, is_dir, len, modified_secs);
                    built.push(d);
                    assert(d@ == raw_entry_view(rv[k as int]));
                    assert(entries_view(built@) =~= bv.push(d@));
                    assert(target.take(k + 1) =~= target.take(k as int).push(target[k as int]));
                    k = k + 1;
                }
                assert(target.take(n as int) =~= target);
                let resp = list_dir_response(built);
                let ghost v = entries_view(resp.entries@);
                let actions = self.reply(&request, Payload::ListDir(resp), None);
                assert(actions_view(actions@) == ok_reply(self@, request_of(request), PayloadView::ListDir(v)));
                actions
            },
            Err(f) => {
                let message = match f {
                    ListFailure::Open(e) => {
                        let mut m = e;
                        push_str(&mut m, ": ");
                        push_str(&mut m, path.as_str());
                        m
                    },
                    ListFailure::Entry(e) => concat2("Error reading entry: ", e.as_str()),
                    ListFailure::Metadata(e) => concat2("Error reading metadata: ", e.as_str()),
                };
                self.reply_error(&request, message)
            },
        }
    }

    /// The heartbeat's information was gathered (see `heartbeat_step`).
    pub fn on_heartbeat_info(
        &mut self,
        cwd_query: Option<Result<String, String>>,
        command_query: Option<Result<Vec<String>, String>>,
    ) -> (r: Vec<PluginAction>)
        ensures
            (final(self)@, actions_view(r@)) == heartbeat_step(
                old(self)@,
                match cwd_query {
                    Some(Ok(c)) => Some(Ok(c@)),
                    Some(Err(e)) => Some(Err(e@)),
                    None => None,
                },
                match command_query {
                    Some(Ok(c)) => Some(Ok(string_views(c@))),
                    Some(Err(e)) => Some(Err(e@)),
                    None => None,
                },
            ),
            timestamps_ok(r@),
    {
        let shell = match &command_query {
            Some(Ok(c)) => heartbeat_shell(Some(c)),
            _ => heartbeat_shell(None),
        };
        let cwd = cwd_or_root(cwd_query);
        let payload = Payload::Heartbeat(HeartbeatPayload { uptime: self.uptime, cwd, shell });
        self.announce("heartbeat", payload)
    }
}

/// Ticking keeps the pending screenshots within the threshold.
proof fn lemma_tick_kept_ok(ps: Seq<PendingView>, threshold: u32)
    ensures
        forall|i: int|
            0 <= i < tick_kept(ps, threshold).len() ==> #[trigger] tick_kept(ps, threshold)[i].ticks_idle
                < threshold,
    decreases ps.len(),
{
    if ps.len() > 0 {
        lemma_tick_kept_ok(ps.drop_last(), threshold);
    }
}


// ── The dispatcher ────────────────────────────────────────────────

/// What an event must meet to be handled: a screen report names each pane
/// once, and the counts do not overflow (a disconnection leaves room to
/// count the attempt, a tick leaves room for a heartbeat's uptime, and the
/// window of a file read fits the machine's integers).
pub open spec fn update_ready(s: PluginView, event: PluginEvent) -> bool {
    match event {
        PluginEvent::PaneRenderReport { contents } => distinct_panes(panes_view(contents@)),
        PluginEvent::WebSocketDisconnected => s.reconnect_attempts < u32::MAX,
        PluginEvent::Timer => timer_fits(s),
        PluginEvent::FileRead { read, text, .. } => text matches Ok(t) ==> window_fits(
            t@,
            read.offset,
            read.limit,
        ),
        _ => true,
    }
}

/// What handling `event` in state `s` leaves as state `s2` and asks for as
/// `actions`.
pub open spec fn update_post(
    s: PluginView,
    event: PluginEvent,
    s2: PluginView,
    actions: Seq<ActionView>,
) -> bool {
    match event {
        PluginEvent::PermissionGranted { zellij_pid } => (s2, actions) == permission_granted_step(
            s,
            zellij_pid,
        ),
        PluginEvent::PermissionDenied => s2 == s && actions == Seq::<ActionView>::empty(),
        PluginEvent::WebSocketConnected { connection_id } => (s2, actions) == connected_step(
            s,
            connection_id,
        ),
        PluginEvent::WebSocketText { message } => (s2, actions) == text_step(
            s,
            match message {
                Ok(m) => Ok(m),
                Err(e) => Err(e@),
            },
        ),
        PluginEvent::WebSocketDisconnected => (s2, actions) == disconnected_step(s),
        PluginEvent::Timer => (s2, actions) == timer_step(s),
        PluginEvent::TabUpdate { tabs } => (s2, actions) == tab_update_step(s, tabs_view(tabs@)),
        PluginEvent::PaneUpdate { panes } => (s2, actions) == pane_update_step(
            s,
            layout_view(panes@),
        ),
        PluginEvent::PaneRenderReport { contents } => (s2, actions) == render_step(
            s,
            panes_view(contents@),
        ),
        PluginEvent::ScreenCaptured { request, screen } => (s2, actions) == screen_captured_step(
            s,
            request_of(request),
            match screen {
                Ok(c) => Ok(c@),
                Err(e) => Err(e@),
            },
        ),
        PluginEvent::CwdRead { request, cwd } => (s2, actions) == cwd_read_step(
            s,
            request_of(request),
            match cwd {
                Ok(c) => Ok(c@),
                Err(e) => Err(e@),
            },
        ),
        PluginEvent::ShellRead { request, command } => (s2, actions) == shell_read_step(
            s,
            request_of(request),
            match command {
                Ok(c) => Ok(string_views(c@)),
                Err(e) => Err(e@),
            },
        ),
        PluginEvent::FileRead { request, read, path, text } => (s2, actions) == file_read_step(
            s,
            request_of(request),
            read.offset,
            read.limit,
            path@,
            match text {
                Ok(t) => Ok(t@),
                Err(e) => Err(e@),
            },
        ),
        PluginEvent::FileWritten { request, write, path, outcome } => (s2, actions)
            == file_written_step(
            s,
            request_of(request),
            write.content@,
            path@,
            match outcome {
                Ok(u) => Ok(u),
                Err(f) => Err(write_failure_view(f)),
            },
        ),
        PluginEvent::DirListed { request, path, entries } => (s2, actions) == dir_listed_step(
            s,
            request_of(request),
            path@,
            match entries {
                Ok(v) => Ok(v@),
                Err(f) => Err(f),
            },
        ),
        PluginEvent::HeartbeatInfo { cwd_query, command_query } => (s2, actions)
            == heartbeat_step(
            s,
            match cwd_query {
                Some(Ok(c)) => Some(Ok(c@)),
                Some(Err(e)) => Some(Err(e@)),
                None => None,
            },
            match command_query {
                Some(Ok(c)) => Some(Ok(string_views(c@))),
                Some(Err(e)) => Some(Err(e@)),
                None => None,
            },
        ),
        PluginEvent::Ignored => s2 == s && actions == Seq::<ActionView>::empty(),
    }
}

impl AgentPlugin {
    /// Handles one event from the host: the state it leaves and the actions
    /// it asks for are those of the event's step, and the state's invariant
    /// is kept.
    pub fn update(&mut self, event: PluginEvent) -> (r: Vec<PluginAction>)
        requires
            state_ok(old(self)@),
            update_ready(old(self)@, event),
        ensures
            update_post(old(self)@, event, final(self)@, actions_view(r@)),
            state_ok(final(self)@),
            timestamps_ok(r@),
    {
        let ghost s0 = self@;
        match event {
            PluginEvent::PermissionGranted { zellij_pid } => self.on_permission_granted(zellij_pid),
            PluginEvent::PermissionDenied => {
                let none: Vec<PluginAction> = Vec::new();
                assert(actions_view(none@) =~= Seq::<ActionView>::empty());
                none
            },
            PluginEvent::WebSocketConnected { connection_id } => self.on_connected(connection_id),
            PluginEvent::WebSocketText { message } => {
                let ghost mv = match message {
                    Ok(ref m) => Ok(*m),
                    Err(ref e) => Err(e@),
                };
                let r = self.on_text(message);
                proof {
                    lemma_text_step_ok(s0, mv);
                }
                r
            },
            PluginEvent::WebSocketDisconnected => self.on_disconnected(),
            PluginEvent::Timer => self.on_timer(),
            PluginEvent::TabUpdate { tabs } => self.on_tab_update(&tabs),
            PluginEvent::PaneUpdate { panes } => self.on_pane_update(&panes),
            PluginEvent::PaneRenderReport { contents } => {
                let r = self.on_render_report(&contents);
                proof {
                    lemma_render_step_ok(s0, panes_view(contents@));
                }
                r
            },
            PluginEvent::ScreenCaptured { request, screen } => self.on_screen_captured(request, screen),
            PluginEvent::CwdRead { request, cwd } => self.on_cwd_read(request, cwd),
            PluginEvent::ShellRead { request, command } => self.on_shell_read(request, command),
            PluginEvent::FileRead { request, read, path, text } => self.on_file_read(
                request,
                read,
                path,
                text,
            ),
            PluginEvent::FileWritten { request, write, path, outcome } => self.on_file_written(
                request,
                write,
                path,
                outcome,
            ),
            PluginEvent::DirListed { request, path, entries } => self.on_dir_listed(
                request,
                path,
                entries,
            ),
            PluginEvent::HeartbeatInfo { cwd_query, command_query } => self.on_heartbeat_info(
                cwd_query,
                command_query,
            ),
            PluginEvent::Ignored => {
                let none: Vec<PluginAction> = Vec::new();
                assert(actions_view(none@) =~= Seq::<ActionView>::empty());
                none
            },
        }
    }
}

/// Queuing a screenshot keeps the invariant: the new entry has been idle
/// for no tick.
proof fn lemma_queued_ok(s: PluginView, request: RequestView, pane: PaneId)
    requires
        state_ok(s),
    ensures
        state_ok(queued(s, request, pane)),
{
    let q = queued(s, request, pane);
    assert forall|i: int| 0 <= i < q.pending.len() implies #[trigger] q.pending[i].ticks_idle == 0
        || q.pending[i].ticks_idle < q.settle_threshold by {
        if i < s.pending.len() {
            assert(q.pending[i] == s.pending[i]);
        }
    }
}

/// A request keeps the invariant.
proof fn lemma_request_step_ok(s: PluginView, request: RequestView, rp: RequestPayloadView)
    requires
        state_ok(s),
    ensures
        state_ok(request_step(s, request, rp).0),
{
    match resolve_pane_spec(rp.pane_id, s.focused_pane) {
        Ok(p) => lemma_queued_ok(s, request, p),
        Err(_) => {},
    }
}

/// A text frame keeps the invariant.
proof fn lemma_text_step_ok(s: PluginView, message: Result<MessageEnvelope, Seq<char>>)
    requires
        state_ok(s),
    ensures
        state_ok(text_step(s, message).0),
{
    match message {
        Ok(m) => match m.payload {
            Payload::Request(rp) => lemma_request_step_ok(s, request_of(m), rp@),
            _ => {},
        },
        Err(_) => {},
    }
}

/// Sending help events changes nothing of the state but the counter.
proof fn lemma_help_events_frame(s: PluginView, found: Seq<(PaneId, (Seq<char>, Option<Seq<char>>))>)
    ensures
        help_events(s, found).0 == (PluginView {
            command_counter: help_events(s, found).0.command_counter,
            ..s
        }),
    decreases found.len(),
{
    if found.len() > 0 {
        lemma_help_events_frame(s, found.drop_last());
    }
}

/// A screen report keeps the invariant: a pending screenshot either keeps
/// its idle count or starts it over.
proof fn lemma_render_step_ok(s: PluginView, items: Seq<(PaneId, Seq<Seq<char>>)>)
    requires
        state_ok(s),
    ensures
        state_ok(render_step(s, items).0),
{
    let (keys, found) = scan(s.help_keys, items);
    let s1 = PluginView { pending: rehash_all(s.pending, items), help_keys: keys, ..s };
    assert forall|i: int| 0 <= i < s1.pending.len() implies #[trigger] s1.pending[i].ticks_idle == 0
        || s1.pending[i].ticks_idle < s1.settle_threshold by {
        assert(s1.pending[i] == rehashed(s.pending[i], items));
    }
    lemma_help_events_frame(s1, found);
}


/// Taking `n` ids from counter `c` leaves `(c + n) mod 2^64`.
proof fn lemma_advance_value(c: u64, n: nat)
    ensures
        advance(c, n) == (c + n) % 0x1_0000_0000_0000_0000,
    decreases n,
{
    if n > 0 {
        lemma_advance_value(c, (n - 1) as nat);
    }
}

/// Event command ids are unique: of fewer than 2^64 events announced one
/// after another from the same counter, no two carry the same id.
pub proof fn lemma_event_ids_unique(c: u64, i: nat, j: nat)
    requires
        i < j < 0x1_0000_0000_0000_0000,
    ensures
        command_id_for(advance(c, i)) != command_id_for(advance(c, j)),
{
    lemma_advance_value(c, i);
    lemma_advance_value(c, j);
    crate::protocol::lemma_command_ids_unique(advance(c, i), advance(c, j));
}

/// The reconnection delay doubles with each attempt, from one second, until
/// it reaches 32 seconds, where it stays.
pub proof fn lemma_backoff_doubles_then_caps(attempts: u32)
    requires
        attempts < u32::MAX,
    ensures
        backoff_millis(attempts) <= 32000,
        attempts < MAX_BACKOFF_EXPONENT ==> backoff_millis((attempts + 1) as u32) == 2
            * backoff_millis(attempts),
        attempts >= MAX_BACKOFF_EXPONENT ==> backoff_millis(attempts) == 32000,
        backoff_millis(0) == 1000,
{
    reveal_with_fuel(pow2, 6);
}

/// A tick loses no pending screenshot: each is either kept, one tick
/// older, or captured.
pub proof fn lemma_tick_keeps_or_captures(ps: Seq<PendingView>, threshold: u32)
    ensures
        tick_kept(ps, threshold).len() + tick_done(ps, threshold).len() == ps.len(),
        forall|i: int|
            0 <= i < tick_done(ps, threshold).len() ==> #[trigger] tick_done(
                ps,
                threshold,
            )[i].ticks_idle + 1 >= threshold,
    decreases ps.len(),
{
    if ps.len() > 0 {
        lemma_tick_keeps_or_captures(ps.drop_last(), threshold);
        let rest = tick_done(ps.drop_last(), threshold);
        if ps.last().ticks_idle + 1 >= threshold {
            assert forall|i: int| 0 <= i < tick_done(ps, threshold).len() implies #[trigger] tick_done(
                ps,
                threshold,
            )[i].ticks_idle + 1 >= threshold by {
                if i > 0 {
                    assert(tick_done(ps, threshold)[i] == rest[i - 1]);
                }
            }
        }
    }
}

/// A screen report handed in twice in a row (over distinct panes, as the
/// host reports them) sends nothing the second time: each help request is
/// sent once.
pub proof fn lemma_repeated_report_is_silent(s: PluginView, items: Seq<(PaneId, Seq<Seq<char>>)>)
    requires
        distinct_panes(items),
    ensures
        render_step(render_step(s, items).0, items).1.len() == 0,
{
    let (keys, found) = scan(s.help_keys, items);
    let s0 = PluginView { pending: rehash_all(s.pending, items), help_keys: keys, ..s };
    lemma_help_events_frame(s0, found);
    let s1 = render_step(s, items).0;
    assert(s1.help_keys == keys);
    lemma_rescan_sends_nothing(s.help_keys, items);
    let (keys2, found2) = scan(s1.help_keys, items);
    assert(found2.len() == 0);
    let s2 = PluginView { pending: rehash_all(s1.pending, items), help_keys: keys2, ..s1 };
    assert(help_events(s2, found2).1 == Seq::<ActionView>::empty());
}

/// Every message among `actions` is a response to `request` in `session`:
/// it echoes the request's `command_id` and `command`.
pub open spec fn answers(actions: Seq<ActionView>, request: RequestView, session: Seq<char>) -> bool {
    forall|i: int|
        #![trigger actions[i]]
        0 <= i < actions.len() ==> (actions[i] matches ActionView::Send(_, m) ==> {
            &&& m.msg_type == MessageType::Response
            &&& m.command_id == request.0
            &&& m.command == request.1
            &&& m.session_id == session
        })
}

/// A request is answered by responses that echo its `command_id` and
/// `command`.
pub proof fn lemma_request_responses_echo(s: PluginView, request: RequestView, rp: RequestPayloadView)
    ensures
        answers(request_step(s, request, rp).1, request, s.session_id),
{
}

/// What the host hands back for a request is answered by responses that
/// echo the request's `command_id` and `command`.
pub proof fn lemma_outcome_responses_echo(
    s: PluginView,
    request: RequestView,
    screen: Result<Seq<Seq<char>>, Seq<char>>,
    cwd: Result<Seq<char>, Seq<char>>,
    command: Result<Seq<Seq<char>>, Seq<char>>,
    offset: usize,
    limit: usize,
    path: Seq<char>,
    text: Result<Seq<char>, Seq<char>>,
    content: Seq<char>,
    outcome: Result<(), WriteFailureView>,
    listing: Result<Seq<RawDirEntry>, ListFailure>,
)
    ensures
        answers(screen_captured_step(s, request, screen).1, request, s.session_id),
        answers(cwd_read_step(s, request, cwd).1, request, s.session_id),
        answers(shell_read_step(s, request, command).1, request, s.session_id),
        answers(file_read_step(s, request, offset, limit, path, text).1, request, s.session_id),
        answers(file_written_step(s, request, content, path, outcome).1, request, s.session_id),
        answers(dir_listed_step(s, request, path, listing).1, request, s.session_id),
{
}


/// The state after `k` timer ticks in a row.
pub open spec fn after_ticks(s: PluginView, k: nat) -> PluginView
    decreases k,
{
    if k == 0 {
        s
    } else {
        timer_step(after_ticks(s, (k - 1) as nat)).0
    }
}

/// The screenshots still waiting after a tick have all waited one tick
/// longer than `k` where every one before it had waited `k`.
proof fn lemma_tick_kept_older(ps: Seq<PendingView>, threshold: u32, k: nat)
    requires
        forall|i: int| 0 <= i < ps.len() ==> #[trigger] ps[i].ticks_idle >= k,
    ensures
        forall|i: int|
            0 <= i < tick_kept(ps, threshold).len() ==> #[trigger] tick_kept(ps, threshold)[i].ticks_idle
                >= k + 1,
    decreases ps.len(),
{
    if ps.len() > 0 {
        let prev = ps.drop_last();
        assert forall|i: int| 0 <= i < prev.len() implies #[trigger] prev[i].ticks_idle >= k by {
            assert(prev[i] == ps[i]);
        }
        lemma_tick_kept_older(prev, threshold, k);
        let rest = tick_kept(prev, threshold);
        if ps.last().ticks_idle + 1 < threshold {
            assert forall|i: int| 0 <= i < tick_kept(ps, threshold).len() implies #[trigger] tick_kept(
                ps,
                threshold,
            )[i].ticks_idle >= k + 1 by {
                if i < rest.len() {
                    assert(tick_kept(ps, threshold)[i] == rest[i]);
                }
            }
        }
    }
}

/// After `k` ticks in a row with the connection up, the screenshots still
/// waiting have all waited at least `k` ticks, and the connection and the
/// threshold are as they were.
proof fn lemma_after_ticks_waited(s: PluginView, k: nat)
    requires
        s.connection_id is Some,
    ensures
        after_ticks(s, k).connection_id == s.connection_id,
        after_ticks(s, k).settle_threshold == s.settle_threshold,
        forall|i: int|
            0 <= i < after_ticks(s, k).pending.len() ==> #[trigger] after_ticks(s, k).pending[i].ticks_idle
                >= k,
    decreases k,
{
    if k > 0 {
        let prev = after_ticks(s, (k - 1) as nat);
        lemma_after_ticks_waited(s, (k - 1) as nat);
        lemma_tick_kept_older(prev.pending, prev.settle_threshold, (k - 1) as nat);
    }
}

/// Once a pane's output stops changing, its screenshot is taken: with the
/// connection up, `settle_threshold` ticks in a row leave no screenshot
/// waiting.
pub proof fn lemma_settled_screenshots_are_taken(s: PluginView)
    requires
        s.connection_id is Some,
        s.settle_threshold > 0,
    ensures
        after_ticks(s, s.settle_threshold as nat).pending.len() == 0,
{
    let t = s.settle_threshold;
    let k = (t - 1) as nat;
    let prev = after_ticks(s, k);
    lemma_after_ticks_waited(s, k);
    lemma_tick_kept_older(prev.pending, t, k);
    lemma_tick_kept_ok(prev.pending, t);
    assert(after_ticks(s, t as nat) == timer_step(prev).0);
    let kept = tick_kept(prev.pending, t);
    if kept.len() > 0 {
        assert(kept[0].ticks_idle >= k + 1);
        assert(kept[0].ticks_idle < t);
    }
}

/// An explicit `pane_id` that parses as a number names that terminal pane,
/// whatever pane is focused; a decimal pane number always parses.
pub proof fn lemma_explicit_pane_is_used(pane: Seq<char>, id: u32, focused: Option<PaneId>)
    ensures
        parse_u32(pane) == Some(id) ==> resolve_pane_spec(Some(pane), focused) == Ok::<
            PaneId,
            Seq<char>,
        >(PaneId::Terminal(id)),
        resolve_pane_spec(Some(decimal(id as nat)), focused) == Ok::<PaneId, Seq<char>>(
            PaneId::Terminal(id),
        ),
{
    crate::text::lemma_parse_decimal(id);
}

/// Typing into a pane named by number: `send_input` writes the input, with
/// escaped newlines turned into carriage returns, to that terminal pane, and
/// queues its screenshot for that pane, whatever pane is focused.
pub proof fn lemma_send_input_goes_to_the_named_pane(
    s: PluginView,
    request: RequestView,
    rp: RequestPayloadView,
    id: u32,
    input: Seq<char>,
)
    requires
        request.1 == "send_input"@,
        rp.pane_id == Some(decimal(id as nat)),
        rp.send_input == Ok::<Seq<char>, Seq<char>>(input),
    ensures
        request_step(s, request, rp) == (
            queued(s, request, PaneId::Terminal(id)),
            seq![ActionView::WriteChars(PaneId::Terminal(id), input_text(input))],
        ),
        request_step(s, request, rp).0.pending.last().pane_id == PaneId::Terminal(id),
{
    lemma_explicit_pane_is_used(decimal(id as nat), id, s.focused_pane);
}

/// A `read_file` request asks the host for exactly the path, offset and
/// limit it names, relative to the focused pane; and when the host hands
/// back a whole file (no `\r\n` endings) for a window from line 0 that
/// covers it, the answer is the file itself with its line count.
pub proof fn lemma_read_file_request(
    s: PluginView,
    request: RequestView,
    rp: RequestPayloadView,
    path: Seq<char>,
    offset: usize,
    limit: usize,
    resolved: Seq<char>,
    content: Seq<char>,
)
    requires
        request.1 == "read_file"@,
        rp.read_file == Ok::<(Seq<char>, usize, usize), Seq<char>>((path, offset, limit)),
    ensures
        request_step(s, request, rp) == (
            s,
            seq![ActionView::ReadFile(request, path, offset, limit, s.focused_pane)],
        ),
        offset == 0 && limit >= lines(content).len() && no_crlf(content) ==> file_read_step(
            s,
            request,
            offset,
            limit,
            resolved,
            Ok(content),
        ).1 == ok_reply(
            s,
            request,
            PayloadView::ReadFile(content, "utf-8"@, lines_count(content)),
        ),
{
    reveal_strlit("read_file");
    reveal_strlit("send_input");
    reveal_strlit("send_key");
    reveal_strlit("forward_key");
    reveal_strlit("get_screenshot");
    reveal_strlit("get_cwd");
    reveal_strlit("get_shell");
    assert("read_file"@ != "get_shell"@) by {
        assert("read_file"@[0] != "get_shell"@[0]);
    }
    if offset == 0 && limit >= lines(content).len() && no_crlf(content) {
        lemma_read_whole_file(content, limit);
    }
}

/// A `write_file` request asks the host to write exactly the path and
/// content it names, relative to the focused pane's working directory.
pub proof fn lemma_write_file_request(
    s: PluginView,
    request: RequestView,
    rp: RequestPayloadView,
    path: Seq<char>,
    content: Seq<char>,
)
    requires
        request.1 == "write_file"@,
        rp.write_file == Ok::<(Seq<char>, Seq<char>), Seq<char>>((path, content)),
    ensures
        request_step(s, request, rp) == (
            s,
            seq![ActionView::WriteFile(request, path, content, s.focused_pane)],
        ),
{
    reveal_strlit("write_file");
    reveal_strlit("send_input");
    reveal_strlit("send_key");
    reveal_strlit("forward_key");
    reveal_strlit("get_screenshot");
    reveal_strlit("get_cwd");
    reveal_strlit("get_shell");
    reveal_strlit("read_file");
    assert("write_file"@ != "send_input"@) by {
        assert("write_file"@[0] != "send_input"@[0]);
    }
}

/// A `list_dir` request asks the host to list exactly the path it names,
/// relative to the focused pane's working directory.
pub proof fn lemma_list_dir_request(
    s: PluginView,
    request: RequestView,
    rp: RequestPayloadView,
    path: Seq<char>,
)
    requires
        request.1 == "list_dir"@,
        rp.list_dir == Ok::<Seq<char>, Seq<char>>(path),
    ensures
        request_step(s, request, rp) == (s, seq![ActionView::ListDir(request, path, s.focused_pane)]),
{
    reveal_strlit("list_dir");
    reveal_strlit("send_input");
    reveal_strlit("send_key");
    reveal_strlit("forward_key");
    reveal_strlit("get_screenshot");
    reveal_strlit("get_cwd");
    reveal_strlit("get_shell");
    reveal_strlit("read_file");
    reveal_strlit("write_file");
    assert("list_dir"@ != "send_key"@) by {
        assert("list_dir"@[0] != "send_key"@[0]);
    }
}

/// `k` ticks and then `j` more are `k + j` ticks.
proof fn lemma_after_ticks_add(s: PluginView, k: nat, j: nat)
    ensures
        after_ticks(s, k + j) == after_ticks(after_ticks(s, k), j),
    decreases j,
{
    if j > 0 {
        lemma_after_ticks_add(s, k, (j - 1) as nat);
        assert((k + j - 1) as nat == k + (j - 1) as nat);
    }
}

/// Within a heartbeat period the ticks are counted and the uptime stays.
proof fn lemma_ticks_within_period(s: PluginView, j: nat)
    requires
        s.connection_id is Some,
        s.heartbeat_ticks == 0,
        j < HEARTBEAT_TICKS,
    ensures
        after_ticks(s, j).connection_id == s.connection_id,
        after_ticks(s, j).heartbeat_ticks == j,
        after_ticks(s, j).uptime == s.uptime,
    decreases j,
{
    if j > 0 {
        lemma_ticks_within_period(s, (j - 1) as nat);
    }
}

/// The uptime counts heartbeat periods: with the connection up, every
/// hundred ticks add twenty seconds, so after `k` periods from the start of
/// one the uptime has grown by `20 * k` seconds.
pub proof fn lemma_uptime_counts_heartbeats(s: PluginView, k: nat)
    requires
        s.connection_id is Some,
        s.heartbeat_ticks == 0,
        s.uptime + HEARTBEAT_SECS * k <= u64::MAX,
    ensures
        after_ticks(s, (HEARTBEAT_TICKS * k) as nat).uptime == s.uptime + HEARTBEAT_SECS * k,
        after_ticks(s, (HEARTBEAT_TICKS * k) as nat).heartbeat_ticks == 0,
        after_ticks(s, (HEARTBEAT_TICKS * k) as nat).connection_id == s.connection_id,
    decreases k,
{
    if k > 0 {
        let k1 = (k - 1) as nat;
        lemma_uptime_counts_heartbeats(s, k1);
        let s1 = after_ticks(s, (HEARTBEAT_TICKS * k1) as nat);
        lemma_after_ticks_add(s, (HEARTBEAT_TICKS * k1) as nat, HEARTBEAT_TICKS as nat);
        assert(HEARTBEAT_TICKS * k == HEARTBEAT_TICKS * k1 + HEARTBEAT_TICKS);
        lemma_ticks_within_period(s1, (HEARTBEAT_TICKS - 1) as nat);
        let s2 = after_ticks(s1, (HEARTBEAT_TICKS - 1) as nat);
        assert(after_ticks(s1, HEARTBEAT_TICKS as nat) == timer_step(s2).0);
        assert(HEARTBEAT_SECS * k == HEARTBEAT_SECS * k1 + HEARTBEAT_SECS);
    }
}

/// The other commands on a pane named by number act on that terminal pane,
/// whatever pane is focused: `send_key` writes the key's bytes and
/// `forward_key` the input (escaped newlines as carriage returns), both
/// queuing its screenshot; `get_screenshot`, `get_cwd` and `get_shell` read
/// that pane.
pub proof fn lemma_pane_commands_use_the_named_pane(
    s: PluginView,
    request: RequestView,
    rp: RequestPayloadView,
    id: u32,
    text: Seq<char>,
)
    requires
        rp.pane_id == Some(decimal(id as nat)),
    ensures
        request.1 == "send_key"@ && rp.send_key == Ok::<Seq<char>, Seq<char>>(text) ==> request_step(
            s,
            request,
            rp,
        ) == (
            queued(s, request, PaneId::Terminal(id)),
            seq![ActionView::WriteBytes(PaneId::Terminal(id), key_bytes(text))],
        ),
        request.1 == "forward_key"@ && rp.send_input == Ok::<Seq<char>, Seq<char>>(text)
            ==> request_step(s, request, rp) == (
            queued(s, request, PaneId::Terminal(id)),
            seq![ActionView::WriteChars(PaneId::Terminal(id), input_text(text))],
        ),
        request.1 == "get_screenshot"@ ==> request_step(s, request, rp) == (
            s,
            seq![ActionView::CaptureScreen(request, PaneId::Terminal(id))],
        ),
        request.1 == "get_cwd"@ ==> request_step(s, request, rp) == (
            s,
            seq![ActionView::ReadCwd(request, PaneId::Terminal(id))],
        ),
        request.1 == "get_shell"@ ==> request_step(s, request, rp) == (
            s,
            seq![ActionView::ReadShell(request, PaneId::Terminal(id))],
        ),
{
    lemma_explicit_pane_is_used(decimal(id as nat), id, s.focused_pane);
    reveal_strlit("send_input");
    reveal_strlit("send_key");
    reveal_strlit("forward_key");
    reveal_strlit("get_screenshot");
    reveal_strlit("get_cwd");
    reveal_strlit("get_shell");
}

/// With the connection up, a heartbeat sends one event that reports the
/// uptime counted so far and the working directory read (the root where
/// none could be read), under the next command id.
pub proof fn lemma_heartbeat_reports_uptime(
    s: PluginView,
    cwd: Option<Result<Seq<char>, Seq<char>>>,
    command: Option<Result<Seq<Seq<char>>, Seq<char>>>,
)
    requires
        s.connection_id is Some,
    ensures
        heartbeat_step(s, cwd, command).1.len() == 1,
        ({
            &&& heartbeat_step(s, cwd, command).1[0] matches ActionView::Send(c, m)
            &&& c == s.connection_id->0
            &&& m.msg_type == MessageType::Event
            &&& m.command_id == command_id_for(s.command_counter)
            &&& m.payload matches PayloadView::Heartbeat(uptime, dir, _)
            &&& uptime == s.uptime
            &&& dir == (match cwd {
                Some(Ok(d)) => d,
                _ => seq!['/'],
            })
        }),
        heartbeat_step(s, cwd, command).0.uptime == s.uptime,
{
}
} // verus!
