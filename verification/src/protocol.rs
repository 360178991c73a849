//! The message envelope exchanged with the controller, the request and
//! response payloads it carries, and the helpers that build envelopes.
use vstd::prelude::*;

use crate::text::{
    decimal, hex_digits, lemma_hex_digits_injective, owned, pow16, u64_to_decimal, u64_to_hex16,
};

verus! {

broadcast use vstd::string::group_string_axioms;

/// The view of an optional string.
pub open spec fn opt_view(o: Option<String>) -> Option<Seq<char>> {
    match o {
        Some(s) => Some(s@),
        None => None,
    }
}

/// The kind of an envelope.
#[derive(Clone, Copy, Debug, PartialEq, Eq, Structural)]
pub enum MessageType {
    Request,
    Response,
    Event,
}

// ── Request payloads ──────────────────────────────────────────────

/// Payload of `send_input` and `forward_key`.
#[derive(Debug)]
pub struct SendInputPayload {
    pub input: String,
}

/// Payload of `send_key`.
#[derive(Debug)]
pub struct SendKeyPayload {
    pub key: String,
}

/// Payload of `read_file`: a window of `limit` lines starting at line `offset`.
#[derive(Debug)]
pub struct ReadFilePayload {
    pub path: String,
    pub offset: usize,
    pub limit: usize,
}

/// The number of lines `read_file` returns when the request names no limit.
pub fn default_limit() -> (r: usize)
    ensures
        r == 2000,
{
    2000
}

/// Payload of `write_file`.
#[derive(Debug)]
pub struct WriteFilePayload {
    pub path: String,
    pub content: String,
}

/// Payload of `list_dir`.
#[derive(Debug)]
pub struct ListDirPayload {
    pub path: String,
}

/// The directory `list_dir` lists when the request names none: `.`.
pub fn default_path() -> (r: String)
    ensures
        r@ == seq!['.'],
{
    let r = owned(".");
    proof {
        reveal_strlit(".");
    }
    r
}

// ── Response payloads ─────────────────────────────────────────────

#[derive(Debug)]
pub struct ScreenshotResponse {
    pub screenshot: String,
}

#[derive(Debug)]
pub struct CwdResponse {
    pub cwd: String,
}

#[derive(Debug)]
pub struct ShellResponse {
    pub shell: String,
}

#[derive(Debug)]
pub struct ReadFileResponse {
    pub content: String,
    pub encoding: String,
    pub total_lines: usize,
}

#[derive(Debug)]
pub struct WriteFileResponse {
    pub success: bool,
    pub bytes_written: usize,
}

/// One entry of a directory listing.
#[derive(Debug)]
pub struct DirEntry {
    pub name: String,
    pub is_dir: bool,
    pub size: u64,
    pub modified_at: Option<String>,
}

impl View for DirEntry {
    type V = (Seq<char>, bool, u64, Option<Seq<char>>);

    open spec fn view(&self) -> Self::V {
        (self.name@, self.is_dir, self.size, opt_view(self.modified_at))
    }
}

#[derive(Debug)]
pub struct ListDirResponse {
    pub entries: Vec<DirEntry>,
}

// ── Event payloads ────────────────────────────────────────────────

#[derive(Debug)]
pub struct HeartbeatPayload {
    pub uptime: u64,
    pub cwd: String,
    pub shell: String,
}

/// A request for help found on screen: what was asked, and the text that
/// stood before the marker on its line, if any.
#[derive(Debug)]
pub struct HelpEventPayload {
    pub prompt: String,
    pub context: Option<String>,
}

impl View for HelpEventPayload {
    type V = (Seq<char>, Option<Seq<char>>);

    open spec fn view(&self) -> Self::V {
        (self.prompt@, opt_view(self.context))
    }
}

// ── Envelope ──────────────────────────────────────────────────────

/// A request payload, as read from the JSON object it came in: its
/// `pane_id` field where that is a string, and what decoding it as each kind
/// of request payload gave (the value, or the decoder's message).
#[derive(Debug)]
pub struct RequestPayload {
    pub pane_id: Option<String>,
    pub send_input: Result<SendInputPayload, String>,
    pub send_key: Result<SendKeyPayload, String>,
    pub read_file: Result<ReadFilePayload, String>,
    pub write_file: Result<WriteFilePayload, String>,
    pub list_dir: Result<ListDirPayload, String>,
}

/// The view of a request payload.
pub struct RequestPayloadView {
    pub pane_id: Option<Seq<char>>,
    pub send_input: Result<Seq<char>, Seq<char>>,
    pub send_key: Result<Seq<char>, Seq<char>>,
    pub read_file: Result<(Seq<char>, usize, usize), Seq<char>>,
    pub write_file: Result<(Seq<char>, Seq<char>), Seq<char>>,
    pub list_dir: Result<Seq<char>, Seq<char>>,
}

impl View for RequestPayload {
    type V = RequestPayloadView;

    open spec fn view(&self) -> RequestPayloadView {
        RequestPayloadView {
            pane_id: opt_view(self.pane_id),
            send_input: match self.send_input {
                Ok(p) => Ok(p.input@),
                Err(e) => Err(e@),
            },
            send_key: match self.send_key {
                Ok(p) => Ok(p.key@),
                Err(e) => Err(e@),
            },
            read_file: match self.read_file {
                Ok(p) => Ok((p.path@, p.offset, p.limit)),
                Err(e) => Err(e@),
            },
            write_file: match self.write_file {
                Ok(p) => Ok((p.path@, p.content@)),
                Err(e) => Err(e@),
            },
            list_dir: match self.list_dir {
                Ok(p) => Ok(p.path@),
                Err(e) => Err(e@),
            },
        }
    }
}

/// What an envelope carries in its `payload` field.
#[derive(Debug)]
pub enum Payload {
    /// The empty object `{}`.
    Empty,
    Request(RequestPayload),
    Screenshot(ScreenshotResponse),
    Cwd(CwdResponse),
    Shell(ShellResponse),
    ReadFile(ReadFileResponse),
    WriteFile(WriteFileResponse),
    ListDir(ListDirResponse),
    Heartbeat(HeartbeatPayload),
    Help(HelpEventPayload),
}

/// The envelope of every message exchanged with the controller.
#[derive(Debug)]
pub struct MessageEnvelope {
    pub command_id: String,
    pub session_id: String,
    pub msg_type: MessageType,
    pub command: String,
    pub payload: Payload,
    pub timestamp: String,
    pub error: Option<String>,
}

/// The view of a payload: what each kind of payload carries.
pub enum PayloadView {
    Empty,
    Request,
    Screenshot(Seq<char>),
    Cwd(Seq<char>),
    Shell(Seq<char>),
    ReadFile(Seq<char>, Seq<char>, usize),
    WriteFile(bool, usize),
    ListDir(Seq<(Seq<char>, bool, u64, Option<Seq<char>>)>),
    Heartbeat(u64, Seq<char>, Seq<char>),
    Help((Seq<char>, Option<Seq<char>>)),
}

impl View for Payload {
    type V = PayloadView;

    open spec fn view(&self) -> PayloadView {
        match self {
            Payload::Empty => PayloadView::Empty,
            Payload::Request(_) => PayloadView::Request,
            Payload::Screenshot(r) => PayloadView::Screenshot(r.screenshot@),
            Payload::Cwd(r) => PayloadView::Cwd(r.cwd@),
            Payload::Shell(r) => PayloadView::Shell(r.shell@),
            Payload::ReadFile(r) => PayloadView::ReadFile(r.content@, r.encoding@, r.total_lines),
            Payload::WriteFile(r) => PayloadView::WriteFile(r.success, r.bytes_written),
            Payload::ListDir(r) => PayloadView::ListDir(r.entries@.map_values(|e: DirEntry| e@)),
            Payload::Heartbeat(h) => PayloadView::Heartbeat(h.uptime, h.cwd@, h.shell@),
            Payload::Help(h) => PayloadView::Help(h@),
        }
    }
}

/// The view of an envelope, all but its timestamp.
pub struct EnvelopeView {
    pub command_id: Seq<char>,
    pub session_id: Seq<char>,
    pub msg_type: MessageType,
    pub command: Seq<char>,
    pub payload: PayloadView,
    pub error: Option<Seq<char>>,
}

impl View for MessageEnvelope {
    type V = EnvelopeView;

    open spec fn view(&self) -> EnvelopeView {
        EnvelopeView {
            command_id: self.command_id@,
            session_id: self.session_id@,
            msg_type: self.msg_type,
            command: self.command@,
            payload: self.payload@,
            error: opt_view(self.error),
        }
    }
}

/// A timestamp as this plugin writes them: whole seconds since the Unix
/// epoch, in decimal.
pub open spec fn is_timestamp(t: Seq<char>) -> bool {
    exists|secs: u64| t == decimal(secs as nat)
}

/// The command id for counter value `n`: sixteen lower-case hex digits.
pub open spec fn command_id_for(n: u64) -> Seq<char> {
    hex_digits(n as nat, 16)
}

impl MessageEnvelope {
    /// Builds a response envelope echoing the `command_id` and `command` of
    /// the request.
    pub fn response(
        request: &MessageEnvelope,
        session_id: &str,
        payload: Payload,
        error: Option<String>,
    ) -> (r: MessageEnvelope)
        ensures
            r.command_id@ == request.command_id@,
            r.session_id@ == session_id@,
            r.msg_type == MessageType::Response,
            r.command@ == request.command@,
            r.payload == payload,
            is_timestamp(r.timestamp@),
            r.error == error,
    {
        MessageEnvelope {
            command_id: request.command_id.clone(),
            session_id: owned(session_id),
            msg_type: MessageType::Response,
            command: request.command.clone(),
            payload,
            timestamp: now_iso8601(),
            error,
        }
    }

    /// Builds an event envelope, taking a fresh command id from `counter`.
    pub fn event(counter: &mut u64, session_id: &str, command: &str, payload: Payload) -> (r:
        MessageEnvelope)
        ensures
            r.command_id@ == command_id_for(*old(counter)),
            *final(counter) == (if *old(counter) == u64::MAX {
                0
            } else {
                (*old(counter) + 1) as u64
            }),
            r.session_id@ == session_id@,
            r.msg_type == MessageType::Event,
            r.command@ == command@,
            r.payload == payload,
            is_timestamp(r.timestamp@),
            r.error is None,
    {
        MessageEnvelope {
            command_id: generate_command_id(counter),
            session_id: owned(session_id),
            msg_type: MessageType::Event,
            command: owned(command),
            payload,
            timestamp: now_iso8601(),
            error: None,
        }
    }
}

/// Takes the next command id: the counter's value as sixteen lower-case hex
/// digits. The counter then moves on by one, wrapping at `u64::MAX`.
pub fn generate_command_id(counter: &mut u64) -> (r: String)
    ensures
        r@ == command_id_for(*old(counter)),
        *final(counter) == (if *old(counter) == u64::MAX {
            0
        } else {
            (*old(counter) + 1) as u64
        }),
{
    let id = *counter;
    *counter = id.wrapping_add(1);
    u64_to_hex16(id)
}

// ── Time ──────────────────────────────────────────────────────────

#[verifier::external_type_specification]
#[verifier::external_body]
pub struct ExSystemTime(std::time::SystemTime);

#[verifier::external_type_specification]
#[verifier::external_body]
pub struct ExSystemTimeError(std::time::SystemTimeError);

/// Trusted: calls `SystemTime::now`. Nothing is stated of the result, which
/// is the clock's reading at the time of the call.
#[verifier::external_body]
fn system_time_now() -> std::time::SystemTime {
    std::time::SystemTime::now()
}

/// Trusted: calls `SystemTime::duration_since` with `UNIX_EPOCH`; it fails
/// when the time lies before the epoch. Nothing is stated of the duration.
#[verifier::external_body]
fn since_unix_epoch(t: std::time::SystemTime) -> std::result::Result<
    core::time::Duration,
    std::time::SystemTimeError,
> {
    t.duration_since(std::time::UNIX_EPOCH)
}

/// Trusted: calls `Duration::as_secs`, the number of whole seconds. Nothing
/// is stated of it, as the duration is opaque here.
#[verifier::external_body]
fn whole_seconds(d: &core::time::Duration) -> u64 {
    d.as_secs()
}

/// Whole seconds since the Unix epoch, or `None` where the clock lies
/// before it.
fn unix_seconds() -> Option<u64> {
    match since_unix_epoch(system_time_now()) {
        Ok(d) => Some(whole_seconds(&d)),
        Err(_) => None,
    }
}

/// The seconds a timestamp gives for a clock reading: the reading, or 0
/// (the epoch) where the clock lies before the epoch.
pub open spec fn timestamp_seconds(secs: Option<u64>) -> u64 {
    match secs {
        Some(s) => s,
        None => 0,
    }
}

/// The timestamp for a clock reading in whole seconds since the Unix epoch
/// (`None` where the clock lies before the epoch, which counts as the
/// epoch): the seconds in decimal.
pub fn timestamp_of(secs: Option<u64>) -> (r: String)
    ensures
        r@ == decimal(timestamp_seconds(secs) as nat),
{
    let s = match secs {
        Some(s) => s,
        None => 0,
    };
    u64_to_decimal(s)
}

/// The current time as this plugin writes timestamps: seconds since the
/// Unix epoch, in decimal.
pub fn now_iso8601() -> (r: String)
    ensures
        is_timestamp(r@),
{
    let secs = unix_seconds();
    let r = timestamp_of(secs);
    assert(r@ == decimal(timestamp_seconds(secs) as nat));
    r
}

/// Command ids are unique: different counter values give different ids.
pub proof fn lemma_command_ids_unique(a: u64, b: u64)
    requires
        a != b,
    ensures
        command_id_for(a) != command_id_for(b),
{
    assert(pow16(16) == 0x1_0000_0000_0000_0000) by {
        reveal_with_fuel(pow16, 17);
    }
    if command_id_for(a) == command_id_for(b) {
        lemma_hex_digits_injective(a as nat, b as nat, 16);
    }
}
} // verus!
