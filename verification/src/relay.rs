//! Requests that are handed on to another daemon.
use crate::config::{ReviewAction, RiskLevel};
use crate::execute;
use crate::execute::ServerEvent;
use crate::ids;
use crate::ids::parse_execution_id;
use crate::lists;
use crate::lists::one;
use crate::sentinel::copy_range;
use crate::text;
use crate::text::{concat5, debug_text, same};
use vstd::prelude::*;

verus! {

// ---------------------------------------------------------------------------
// Start messages
// ---------------------------------------------------------------------------
/// The first message of an execution on the other daemon.
#[derive(Debug)]
pub struct StartRequest {
    pub target: String,
    pub argv: Vec<String>,
    pub pty: bool,
    pub no_pty: bool,
    pub stdin: bool,
    pub timeout_ms: u64,
    pub interactive: bool,
    pub term_cols: u32,
    pub term_rows: u32,
    pub shell: String,
    pub no_shell: bool,
}

/// A command for the other daemon.
#[derive(Debug)]
pub struct RelayedExec {
    pub argv: Vec<String>,
    pub tty: bool,
    pub cols: u32,
    pub rows: u32,
    pub shell: String,
    pub no_shell: bool,
    pub timeout_ms: u64,
}

/// The start of a command. Input is announced where there is any to forward.
pub fn start_exec(target_label: &str, request: RelayedExec, has_stdin: bool) -> (r: StartRequest)
    ensures
        r.target@ == target_label@,
        r.argv == request.argv,
        r.pty == request.tty,
        r.no_pty == !request.tty,
        r.stdin == has_stdin,
        r.timeout_ms == request.timeout_ms,
        !r.interactive,
        r.term_cols == request.cols,
        r.term_rows == request.rows,
        r.shell == request.shell,
        r.no_shell == request.no_shell,
{
    StartRequest {
        target: target_label.to_owned(),
        argv: request.argv,
        pty: request.tty,
        no_pty: !request.tty,
        stdin: has_stdin,
        timeout_ms: request.timeout_ms,
        interactive: false,
        term_cols: request.cols,
        term_rows: request.rows,
        shell: request.shell,
        no_shell: request.no_shell,
    }
}

/// The start of an interactive session, on a terminal of that size.
pub fn start_interactive(target_label: &str, argv: Vec<String>, cols: u32, rows: u32) -> (r:
    StartRequest)
    ensures
        r.target@ == target_label@,
        r.argv == argv,
        r.pty,
        !r.no_pty,
        !r.stdin,
        r.timeout_ms == 0,
        r.interactive,
        r.term_cols == cols,
        r.term_rows == rows,
        r.shell@.len() == 0,
        !r.no_shell,
{
    StartRequest {
        target: target_label.to_owned(),
        argv,
        pty: true,
        no_pty: false,
        stdin: false,
        timeout_ms: 0,
        interactive: true,
        term_cols: cols,
        term_rows: rows,
        shell: String::new(),
        no_shell: false,
    }
}

/// The direction of a copy.
#[derive(Clone, Copy, Debug, PartialEq, Eq, Structural)]
pub enum CopyDirection {
    Upload,
    Download,
}

/// The first message of a copy on the other daemon.
#[derive(Debug)]
pub struct CopyStartRequest {
    pub target: String,
    /// Always empty: the other daemon must not touch paths of this side.
    pub local_path: String,
    pub remote_path: String,
    pub recursive: bool,
    pub direction: CopyDirection,
}

pub fn start_copy(
    target_label: &str,
    remote_path: &str,
    recursive: bool,
    direction: CopyDirection,
) -> (r: CopyStartRequest)
    ensures
        r.target@ == target_label@,
        r.local_path@.len() == 0,
        r.remote_path@ == remote_path@,
        r.recursive == recursive,
        r.direction == direction,
{
    CopyStartRequest {
        target: target_label.to_owned(),
        local_path: String::new(),
        remote_path: remote_path.to_owned(),
        recursive,
        direction,
    }
}

// ---------------------------------------------------------------------------
// Input
// ---------------------------------------------------------------------------
/// What happens to input that is forwarded.
pub enum StdinEvent {
    /// Input; no bytes mean its end.
    Data(Vec<u8>),
    /// The source of the input is gone.
    SourceClosed,
    /// A message could not be sent.
    SendFailed,
}

/// Forwards input to the other daemon, followed by an empty message that ends it.
pub struct StdinRelay {
    pub over: bool,
}

/// What an event does to forwarded input: the message that is sent, if any.
pub open spec fn stdin_step(over: bool, event: StdinEvent) -> (bool, Option<Seq<u8>>) {
    if over {
        (true, None)
    } else {
        match event {
            StdinEvent::Data(data) => (data@.len() == 0, Some(data@)),
            StdinEvent::SourceClosed => (true, Some(Seq::empty())),
            StdinEvent::SendFailed => (true, None),
        }
    }
}

impl StdinRelay {
    pub fn new() -> (r: Self)
        ensures
            !r.over,
    {
        StdinRelay { over: false }
    }

    /// Take one event. The result is to be sent.
    pub fn on_event(&mut self, event: StdinEvent) -> (r: Option<Vec<u8>>)
        ensures
            final(self).over == stdin_step(old(self).over, event).0,
            match r {
                Some(data) => stdin_step(old(self).over, event).1 == Some(data@),
                None => stdin_step(old(self).over, event).1 is None,
            },
    {
        if self.over {
            return None;
        }
        match event {
            StdinEvent::Data(data) => {
                self.over = data.len() == 0;
                Some(data)
            },
            StdinEvent::SourceClosed => {
                self.over = true;
                let end: Vec<u8> = Vec::new();
                assert(end@ =~= Seq::<u8>::empty());
                Some(end)
            },
            StdinEvent::SendFailed => {
                self.over = true;
                None
            },
        }
    }
}

/// The messages that a sequence of events sends, and whether the relay is over.
pub open spec fn stdin_run(events: Seq<StdinEvent>) -> (bool, Seq<Seq<u8>>)
    decreases events.len(),
{
    if events.len() == 0 {
        (false, Seq::empty())
    } else {
        let (over, sent) = stdin_run(events.drop_last());
        let (next, message) = stdin_step(over, events.last());
        (
            next,
            match message {
                Some(m) => sent.push(m),
                None => sent,
            },
        )
    }
}

proof fn lemma_stdin_run(events: Seq<StdinEvent>)
    ensures
        ({
            let (over, sent) = stdin_run(events);
            &&& forall|k: int| 0 <= k < sent.len() - 1 ==> (#[trigger] sent[k]).len() > 0
            &&& !over && sent.len() > 0 ==> sent.last().len() > 0
        }),
    decreases events.len(),
{
    if events.len() > 0 {
        let (over, sent) = stdin_run(events.drop_last());
        lemma_stdin_run(events.drop_last());
        let all = stdin_run(events).1;
        assert forall|k: int| 0 <= k < all.len() - 1 implies (#[trigger] all[k]).len() > 0 by {
            assert(all[k] == sent[k]);
            if k == sent.len() - 1 {
                assert(sent.last() == sent[k]);
            }
        }
    }
}

/// The end of the input is sent once, and nothing follows it.
pub proof fn law_input_ends_once(events: Seq<StdinEvent>)
    ensures
        forall|k: int|
            0 <= k < stdin_run(events).1.len() - 1 ==> (#[trigger] stdin_run(events).1[k]).len()
                > 0,
{
    lemma_stdin_run(events);
}

// ---------------------------------------------------------------------------
// Answers
// ---------------------------------------------------------------------------
/// What the other daemon says of an execution.
#[derive(Debug)]
pub enum RemoteEvent {
    Stdout(Vec<u8>),
    Stderr(Vec<u8>),
    ExitStatus(i32),
    Error(String),
    ReviewResult {
        execution_id: String,
        risk_level: String,
        action: String,
        reason: String,
        /// Empty where there is none.
        matched_whitelist_reason: String,
    },
    ConfirmRequired { execution_id: String, reason: String },
    Info,
    AuthPrompt {
        prompt_id: String,
        target_label: String,
        kind: String,
        secret: bool,
        message: String,
    },
    /// A message without content.
    Empty,
}

/// The level of a risk by its name. An unknown one is the worst.
pub open spec fn risk_named(name: Seq<char>) -> RiskLevel {
    if name == "safe"@ {
        RiskLevel::Safe
    } else if name == "risky"@ {
        RiskLevel::Risky
    } else {
        RiskLevel::Dangerous
    }
}

pub fn parse_risk(name: &str) -> (r: RiskLevel)
    ensures
        r == risk_named(name@),
{
    if same(name, "safe") {
        RiskLevel::Safe
    } else if same(name, "risky") {
        RiskLevel::Risky
    } else {
        RiskLevel::Dangerous
    }
}

/// An action by its name. An unknown one denies.
pub open spec fn action_named(name: Seq<char>) -> ReviewAction {
    if name == "allow"@ {
        ReviewAction::Allow
    } else if name == "warn"@ {
        ReviewAction::Warn
    } else if name == "confirm"@ {
        ReviewAction::Confirm
    } else {
        ReviewAction::Deny
    }
}

pub fn parse_action(name: &str) -> (r: ReviewAction)
    ensures
        r == action_named(name@),
{
    if same(name, "allow") {
        ReviewAction::Allow
    } else if same(name, "warn") {
        ReviewAction::Warn
    } else if same(name, "confirm") {
        ReviewAction::Confirm
    } else {
        ReviewAction::Deny
    }
}

/// The identifier that a text denotes; zero if it denotes none.
pub open spec fn id_named(text: Seq<char>) -> int {
    match ids::uuid_value(text) {
        Ok(n) => n,
        Err(_) => 0,
    }
}

fn parse_id(text: &str) -> (r: u128)
    ensures
        r == id_named(text@),
{
    match parse_execution_id(text) {
        Ok(n) => n,
        Err(_) => 0,
    }
}

/// The event that an answer is forwarded as, if it is.
pub open spec fn forwarded(event: RemoteEvent) -> Option<execute::EventView> {
    match event {
        RemoteEvent::Stdout(data) => Some(execute::EventView::Stdout(data@)),
        RemoteEvent::Stderr(data) => Some(execute::EventView::Stderr(data@)),
        RemoteEvent::ExitStatus(_) => None,
        RemoteEvent::Error(m) => Some(execute::EventView::Error(m@)),
        RemoteEvent::ReviewResult {
            execution_id,
            risk_level,
            action,
            reason,
            matched_whitelist_reason,
        } => Some(
            execute::EventView::ReviewResult {
                execution_id: id_named(execution_id@),
                risk_level: risk_named(risk_level@),
                action: action_named(action@),
                reason: reason@,
                matched_whitelist_reason: if matched_whitelist_reason@.len() == 0 {
                    None
                } else {
                    Some(matched_whitelist_reason@)
                },
            },
        ),
        RemoteEvent::ConfirmRequired { execution_id, reason } => Some(
            execute::EventView::ConfirmRequired {
                execution_id: id_named(execution_id@),
                reason: reason@,
            },
        ),
        RemoteEvent::Info => None,
        RemoteEvent::AuthPrompt { prompt_id, target_label, kind, secret, message } => Some(
            execute::EventView::AuthPrompt {
                prompt_id: prompt_id@,
                target_label: target_label@,
                kind: kind@,
                secret,
                message: message@,
            },
        ),
        RemoteEvent::Empty => None,
    }
}

/// Forwards the answers of the other daemon.
pub struct ExecRelay {
    /// The last exit status that came.
    pub exit_code: Option<i32>,
}

impl ExecRelay {
    pub fn new() -> (r: Self)
        ensures
            r.exit_code is None,
    {
        ExecRelay { exit_code: None }
    }

    /// Take an answer. The result is to be forwarded.
    pub fn on_event(&mut self, event: RemoteEvent) -> (r: Option<ServerEvent>)
        ensures
            match r {
                Some(e) => forwarded(event) == Some(e@),
                None => forwarded(event) is None,
            },
            final(self).exit_code == match event {
                RemoteEvent::ExitStatus(code) => Some(code),
                _ => old(self).exit_code,
            },
    {
        match event {
            RemoteEvent::Stdout(data) => Some(ServerEvent::Stdout { data }),
            RemoteEvent::Stderr(data) => Some(ServerEvent::Stderr { data }),
            RemoteEvent::ExitStatus(code) => {
                self.exit_code = Some(code);
                None
            },
            RemoteEvent::Error(message) => Some(ServerEvent::Error { message }),
            RemoteEvent::ReviewResult {
                execution_id,
                risk_level,
                action,
                reason,
                matched_whitelist_reason,
            } => {
                let matched = if matched_whitelist_reason.as_str().is_empty() {
                    None
                } else {
                    Some(matched_whitelist_reason)
                };
                Some(
                    ServerEvent::ReviewResult {
                        execution_id: parse_id(execution_id.as_str()),
                        risk_level: parse_risk(risk_level.as_str()),
                        action: parse_action(action.as_str()),
                        reason,
                        matched_whitelist_reason: matched,
                    },
                )
            },
            RemoteEvent::ConfirmRequired { execution_id, reason } => Some(
                ServerEvent::ConfirmRequired {
                    execution_id: parse_id(execution_id.as_str()),
                    reason,
                },
            ),
            RemoteEvent::Info => None,
            RemoteEvent::AuthPrompt { prompt_id, target_label, kind, secret, message } => Some(
                ServerEvent::AuthPrompt { prompt_id, target_label, kind, secret, message },
            ),
            RemoteEvent::Empty => None,
        }
    }

    /// The end of the answers.
    pub fn finish(&self) -> (r: Result<i32, String>)
        ensures
            match self.exit_code {
                Some(code) => r == Ok::<i32, String>(code),
                None => r matches Err(e) && e@
                    == "remote daemon closed stream without exit status"@,
            },
    {
        match self.exit_code {
            Some(code) => Ok(code),
            None => Err("remote daemon closed stream without exit status".to_owned()),
        }
    }
}

/// The output in a sequence of answers.
pub open spec fn remote_output(events: Seq<RemoteEvent>) -> Seq<u8>
    decreases events.len(),
{
    if events.len() == 0 {
        Seq::empty()
    } else {
        remote_output(events.drop_last()) + match events.last() {
            RemoteEvent::Stdout(data) => data@,
            _ => Seq::empty(),
        }
    }
}

/// The output in what a sequence of answers is forwarded as.
pub open spec fn forwarded_output(events: Seq<RemoteEvent>) -> Seq<u8>
    decreases events.len(),
{
    if events.len() == 0 {
        Seq::empty()
    } else {
        forwarded_output(events.drop_last()) + match forwarded(events.last()) {
            Some(execute::EventView::Stdout(data)) => data,
            _ => Seq::empty(),
        }
    }
}

/// The output arrives byte for byte.
pub proof fn law_output_is_forwarded(events: Seq<RemoteEvent>)
    ensures
        forwarded_output(events) == remote_output(events),
    decreases events.len(),
{
    if events.len() > 0 {
        law_output_is_forwarded(events.drop_last());
    }
}

// ---------------------------------------------------------------------------
// Interactive sessions
// ---------------------------------------------------------------------------
/// What happens in a session on the other daemon.
pub enum SessionRelayEvent {
    Stdin(Vec<u8>),
    Resize { cols: u32, rows: u32 },
    /// A message could not be sent to the other daemon.
    SendFailed,
    Answer(RemoteEvent),
    /// Output could not be handed on.
    OutputGone,
    /// The stream of answers ended or failed.
    Closed,
}

/// What to do in a session on the other daemon.
pub enum SessionRelayAction {
    Nothing,
    SendStdin(Vec<u8>),
    SendResize { cols: u32, rows: u32 },
    Forward(Vec<u8>),
    /// The session is over with this exit code.
    Finish(i32),
}

/// The exit code of a session that ends without one.
pub const LOST_EXIT_CODE: i32 = 255;

/// What an event leads to. Both kinds of output go to the terminal; a session that ends
/// without an exit status counts as lost.
pub fn session_relay(event: SessionRelayEvent) -> (r: SessionRelayAction)
    ensures
        match event {
            SessionRelayEvent::Stdin(data) => r == SessionRelayAction::SendStdin(data),
            SessionRelayEvent::Resize { cols, rows } => r == (SessionRelayAction::SendResize {
                cols,
                rows,
            }),
            SessionRelayEvent::Answer(RemoteEvent::Stdout(data)) => r
                == SessionRelayAction::Forward(data),
            SessionRelayEvent::Answer(RemoteEvent::Stderr(data)) => r
                == SessionRelayAction::Forward(data),
            SessionRelayEvent::Answer(RemoteEvent::ExitStatus(code)) => r
                == SessionRelayAction::Finish(code),
            SessionRelayEvent::Answer(RemoteEvent::Error(_)) => r == SessionRelayAction::Finish(
                LOST_EXIT_CODE,
            ),
            SessionRelayEvent::Answer(_) => r is Nothing,
            SessionRelayEvent::SendFailed => r == SessionRelayAction::Finish(LOST_EXIT_CODE),
            SessionRelayEvent::OutputGone => r == SessionRelayAction::Finish(LOST_EXIT_CODE),
            SessionRelayEvent::Closed => r == SessionRelayAction::Finish(LOST_EXIT_CODE),
        },
{
    match event {
        SessionRelayEvent::Stdin(data) => SessionRelayAction::SendStdin(data),
        SessionRelayEvent::Resize { cols, rows } => SessionRelayAction::SendResize { cols, rows },
        SessionRelayEvent::Answer(RemoteEvent::Stdout(data)) => SessionRelayAction::Forward(data),
        SessionRelayEvent::Answer(RemoteEvent::Stderr(data)) => SessionRelayAction::Forward(data),
        SessionRelayEvent::Answer(RemoteEvent::ExitStatus(code)) => SessionRelayAction::Finish(
            code,
        ),
        SessionRelayEvent::Answer(RemoteEvent::Error(_)) => SessionRelayAction::Finish(
            LOST_EXIT_CODE,
        ),
        SessionRelayEvent::Answer(_) => SessionRelayAction::Nothing,
        SessionRelayEvent::SendFailed => SessionRelayAction::Finish(LOST_EXIT_CODE),
        SessionRelayEvent::OutputGone => SessionRelayAction::Finish(LOST_EXIT_CODE),
        SessionRelayEvent::Closed => SessionRelayAction::Finish(LOST_EXIT_CODE),
    }
}

// ---------------------------------------------------------------------------
// Uploads
// ---------------------------------------------------------------------------
/// A piece of a file; the last one has the mark `eof`.
#[derive(Debug)]
pub struct CopyDataChunk {
    pub data: Vec<u8>,
    pub eof: bool,
}

/// The size of the pieces that a file is sent in.
pub const COPY_CHUNK_SIZE: usize = 65536;

/// The bytes in a sequence of pieces.
pub open spec fn chunk_bytes(chunks: Seq<CopyDataChunk>) -> Seq<u8>
    decreases chunks.len(),
{
    if chunks.len() == 0 {
        Seq::empty()
    } else {
        chunk_bytes(chunks.drop_last()) + chunks.last().data@
    }
}

/// The number of full or partial pieces of a file.
pub open spec fn piece_count(len: int) -> int {
    (len + COPY_CHUNK_SIZE - 1) / (COPY_CHUNK_SIZE as int)
}

/// The pieces of a file: full ones and a rest, then an empty one that ends it.
#[verifier::loop_isolation(false)]
pub fn upload_chunks(file: &[u8]) -> (r: Vec<CopyDataChunk>)
    ensures
        chunk_bytes(r@) == file@,
        r@.len() == piece_count(file@.len() as int) + 1,
        r@.last().eof && r@.last().data@.len() == 0,
        forall|i: int|
            0 <= i < r@.len() - 1 ==> !(#[trigger] r@[i]).eof && r@[i].data@ == file@.subrange(
                i * COPY_CHUNK_SIZE,
                if (i + 1) * COPY_CHUNK_SIZE <= file@.len() {
                    (i + 1) * COPY_CHUNK_SIZE
                } else {
                    file@.len() as int
                },
            ),
{
    let mut r: Vec<CopyDataChunk> = Vec::new();
    let mut start: usize = 0;
    assert(file@.take(0) =~= Seq::<u8>::empty());
    while start < file.len()
        invariant
            start <= file.len(),
            start < file.len() ==> start == r@.len() * COPY_CHUNK_SIZE,
            start == file.len() ==> r@.len() == piece_count(file@.len() as int),
            chunk_bytes(r@) == file@.take(start as int),
            forall|i: int|
                0 <= i < r@.len() ==> !(#[trigger] r@[i]).eof && r@[i].data@ == file@.subrange(
                    i * COPY_CHUNK_SIZE,
                    if (i + 1) * COPY_CHUNK_SIZE <= file@.len() {
                        (i + 1) * COPY_CHUNK_SIZE
                    } else {
                        file@.len() as int
                    },
                ),
        decreases file.len() - start,
    {
        let left: usize = file.len() - start;
        let size: usize = if left < COPY_CHUNK_SIZE {
            left
        } else {
            COPY_CHUNK_SIZE
        };
        let data = copy_range(file, start, start + size);
        let ghost before = r@;
        let chunk = CopyDataChunk { data, eof: false };
        r.push(chunk);
        proof {
            assert(r@.drop_last() =~= before);
            assert(file@.take(start as int) + data@ =~= file@.take(start + size));
        }
        start = start + size;
    }
    assert(file@.take(start as int) =~= file@);
    let ghost before = r@;
    let end: Vec<u8> = Vec::new();
    r.push(CopyDataChunk { data: end, eof: true });
    proof {
        assert(r@.drop_last() =~= before);
        assert(file@ + Seq::<u8>::empty() =~= file@);
        assert(end@ =~= Seq::<u8>::empty());
    }
    r
}

/// Pieces that come from elsewhere are handed on up to the last one: the result tells to stop
/// behind this one.
pub fn stops_upload(chunk: &CopyDataChunk) -> (r: bool)
    ensures
        r == chunk.eof,
{
    chunk.eof
}

// ---------------------------------------------------------------------------
// Downloads
// ---------------------------------------------------------------------------
/// What the other daemon says of a copy.
pub enum CopyEvent {
    Complete,
    Error(String),
    Info,
    AuthPrompt,
    Chunk(CopyDataChunk),
    /// A message without content.
    Empty,
    /// The stream of answers ended.
    Closed,
    /// The stream of answers failed.
    Failed(String),
    /// A piece could not be handed on.
    RelayGone,
    /// The local file could not be created, written or flushed.
    CreateFailed(String),
    WriteFailed(String),
    FlushFailed(String),
}

/// What to do in a copy, in order.
pub enum CopyAction {
    /// Hand the piece on. If that fails, say so.
    Relay(CopyDataChunk),
    CreateFile,
    Write(Vec<u8>),
    /// Flush and close the file.
    FlushFile,
    Done,
    Fail(String),
}

/// The mathematical counterpart of [`CopyAction`].
pub enum CopyActionView {
    Relay(Seq<u8>, bool),
    CreateFile,
    Write(Seq<u8>),
    FlushFile,
    Done,
    Fail(Seq<char>),
}

impl View for CopyAction {
    type V = CopyActionView;

    open spec fn view(&self) -> CopyActionView {
        match self {
            CopyAction::Relay(c) => CopyActionView::Relay(c.data@, c.eof),
            CopyAction::CreateFile => CopyActionView::CreateFile,
            CopyAction::Write(data) => CopyActionView::Write(data@),
            CopyAction::FlushFile => CopyActionView::FlushFile,
            CopyAction::Done => CopyActionView::Done,
            CopyAction::Fail(e) => CopyActionView::Fail(e@),
        }
    }
}

/// A copy on the other daemon.
pub struct CopyRelay {
    /// Pieces are handed on, not written to a file.
    pub relayed: bool,
    /// The local file is open.
    pub file_open: bool,
    pub over: bool,
}

/// What becomes of a piece that is written to a file: the file is created with the first
/// one, and closed with the last one.
pub open spec fn write_piece(file_open: bool, data: Seq<u8>, eof: bool) -> Seq<CopyActionView> {
    (if file_open {
        Seq::empty()
    } else {
        seq![CopyActionView::CreateFile]
    }) + (if data.len() > 0 {
        seq![CopyActionView::Write(data)]
    } else {
        Seq::empty()
    }) + (if eof {
        seq![CopyActionView::FlushFile]
    } else {
        Seq::empty()
    })
}

/// How a failure on the local file is reported.
pub open spec fn file_error(what: Seq<char>, path: Seq<char>, e: Seq<char>) -> Seq<char> {
    "download: failed to "@ + what + " local file "@ + text::debug_of(path) + ": "@ + e
}

/// What an event does to a copy.
pub open spec fn copy_step(relay: CopyRelay, path: Seq<char>, event: CopyEvent) -> (
    CopyRelay,
    Seq<CopyActionView>,
) {
    let ended = CopyRelay { over: true, ..relay };
    if relay.over {
        (relay, Seq::empty())
    } else {
        match event {
            CopyEvent::Complete => (ended, seq![CopyActionView::Done]),
            CopyEvent::Error(m) => (ended, seq![CopyActionView::Fail("remote copy error: "@ + m@)]),
            CopyEvent::Info | CopyEvent::AuthPrompt | CopyEvent::Empty => (relay, Seq::empty()),
            CopyEvent::Chunk(c) => if relay.relayed {
                (relay, seq![CopyActionView::Relay(c.data@, c.eof)])
            } else {
                (
                    CopyRelay { file_open: !c.eof, ..relay },
                    write_piece(relay.file_open, c.data@, c.eof),
                )
            },
            CopyEvent::Closed => (
                ended,
                seq![CopyActionView::Fail("remote daemon closed copy stream without completion"@)],
            ),
            CopyEvent::Failed(e) => (ended, seq![CopyActionView::Fail(e@)]),
            CopyEvent::RelayGone => (
                ended,
                seq![CopyActionView::Fail("download relay channel closed unexpectedly"@)],
            ),
            CopyEvent::CreateFailed(e) => (
                ended,
                seq![CopyActionView::Fail(file_error("create"@, path, e@))],
            ),
            CopyEvent::WriteFailed(e) => (
                ended,
                seq![CopyActionView::Fail(file_error("write to"@, path, e@))],
            ),
            CopyEvent::FlushFailed(e) => (
                ended,
                seq![CopyActionView::Fail(file_error("flush"@, path, e@))],
            ),
        }
    }
}

fn file_error_text(what: &str, path: &str, e: &str) -> (r: String)
    ensures
        r@ == file_error(what@, path@, e@),
{
    let shown = debug_text(path);
    let mut r = concat5(
        "download: failed to ",
        what,
        " local file ",
        shown.as_str(),
        ": ",
    );
    r.append(e);
    r
}

impl CopyRelay {
    pub fn new(relayed: bool) -> (r: Self)
        ensures
            r == (CopyRelay { relayed, file_open: false, over: false }),
    {
        CopyRelay { relayed, file_open: false, over: false }
    }

    fn fail(&mut self, message: String) -> (r: Vec<CopyAction>)
        ensures
            *final(self) == (CopyRelay { over: true, ..*old(self) }),
            lists::views(r@) == seq![CopyActionView::Fail(message@)],
    {
        self.over = true;
        let r = one(CopyAction::Fail(message));
        assert(lists::views(r@) =~= seq![CopyActionView::Fail(message@)]);
        r
    }

    /// Take one event of a copy to or from `path`.
    pub fn on_event(&mut self, path: &str, event: CopyEvent) -> (r: Vec<CopyAction>)
        ensures
            (*final(self), lists::views(r@)) == copy_step(*old(self), path@, event),
    {
        let nothing: Vec<CopyAction> = Vec::new();
        assert(lists::views(nothing@) =~= Seq::<CopyActionView>::empty());
        if self.over {
            return nothing;
        }
        let ghost wanted = copy_step(*self, path@, event).1;
        let r = match event {
            CopyEvent::Complete => {
                self.over = true;
                one(CopyAction::Done)
            },
            CopyEvent::Error(m) => {
                let mut e = "remote copy error: ".to_owned();
                e.append(m.as_str());
                self.fail(e)
            },
            CopyEvent::Info => nothing,
            CopyEvent::AuthPrompt => nothing,
            CopyEvent::Empty => nothing,
            CopyEvent::Chunk(c) => if self.relayed {
                one(CopyAction::Relay(c))
            } else {
                let mut actions: Vec<CopyAction> = Vec::new();
                if !self.file_open {
                    actions.push(CopyAction::CreateFile);
                }
                let eof = c.eof;
                if c.data.len() > 0 {
                    actions.push(CopyAction::Write(c.data));
                }
                if eof {
                    actions.push(CopyAction::FlushFile);
                }
                self.file_open = !eof;
                actions
            },
            CopyEvent::Closed => self.fail(
                "remote daemon closed copy stream without completion".to_owned(),
            ),
            CopyEvent::Failed(e) => self.fail(e),
            CopyEvent::RelayGone => self.fail(
                "download relay channel closed unexpectedly".to_owned(),
            ),
            CopyEvent::CreateFailed(e) => {
                let m = file_error_text("create", path, e.as_str());
                self.fail(m)
            },
            CopyEvent::WriteFailed(e) => {
                let m = file_error_text("write to", path, e.as_str());
                self.fail(m)
            },
            CopyEvent::FlushFailed(e) => {
                let m = file_error_text("flush", path, e.as_str());
                self.fail(m)
            },
        };
        assert(lists::views(r@) =~= wanted);
        r
    }
}

// ---------------------------------------------------------------------------
// What a download leaves
// ---------------------------------------------------------------------------
/// What an action makes of the content of the local file.
pub open spec fn file_after(content: Option<Seq<u8>>, action: CopyActionView) -> Option<Seq<u8>> {
    match action {
        CopyActionView::CreateFile => Some(Seq::empty()),
        CopyActionView::Write(data) => match content {
            Some(c) => Some(c + data),
            None => None,
        },
        _ => content,
    }
}

/// What some actions make of the content of the local file.
pub open spec fn file_after_all(
    content: Option<Seq<u8>>,
    actions: Seq<CopyActionView>,
) -> Option<Seq<u8>>
    decreases actions.len(),
{
    if actions.len() == 0 {
        content
    } else {
        file_after(file_after_all(content, actions.drop_last()), actions.last())
    }
}

/// What a sequence of pieces makes of the local file, and whether it is open then.
pub open spec fn downloaded(path: Seq<char>, chunks: Seq<CopyDataChunk>) -> (
    CopyRelay,
    Option<Seq<u8>>,
)
    decreases chunks.len(),
{
    if chunks.len() == 0 {
        (CopyRelay { relayed: false, file_open: false, over: false }, None)
    } else {
        let (relay, content) = downloaded(path, chunks.drop_last());
        let (next, actions) = copy_step(relay, path, CopyEvent::Chunk(chunks.last()));
        (next, file_after_all(content, actions))
    }
}

proof fn lemma_write_piece(content: Option<Seq<u8>>, file_open: bool, data: Seq<u8>, eof: bool)
    requires
        file_open ==> content is Some,
    ensures
        file_after_all(content, write_piece(file_open, data, eof)) == Some(
            (if file_open {
                content->0
            } else {
                Seq::empty()
            }) + data,
        ),
{
    let a = if file_open {
        Seq::empty()
    } else {
        seq![CopyActionView::CreateFile]
    };
    let b = if data.len() > 0 {
        seq![CopyActionView::Write(data)]
    } else {
        Seq::empty()
    };
    let c = if eof {
        seq![CopyActionView::FlushFile]
    } else {
        Seq::empty()
    };
    let start = if file_open {
        content->0
    } else {
        Seq::empty()
    };
    assert(write_piece(file_open, data, eof) == a + b + c);
    assert(file_after_all(content, a) == Some(start)) by {
        if !file_open {
            assert(a.drop_last() =~= Seq::<CopyActionView>::empty());
            assert(a.last() == CopyActionView::CreateFile);
            assert(file_after_all(content, a.drop_last()) == content);
        }
    }
    assert(file_after_all(content, a + b) == Some(start + data)) by {
        if data.len() > 0 {
            assert((a + b).drop_last() =~= a);
            assert((a + b).last() == CopyActionView::Write(data));
        } else {
            assert(a + b =~= a);
            assert(start + data =~= start);
        }
    }
    if eof {
        assert((a + b + c).drop_last() =~= a + b);
        assert((a + b + c).last() == CopyActionView::FlushFile);
    } else {
        assert(a + b + c =~= a + b);
    }
}

/// A download leaves exactly the bytes that were sent: where no piece but the last one is
/// marked as the end, the local file holds the pieces one after the other.
pub proof fn law_download_is_complete(path: Seq<char>, chunks: Seq<CopyDataChunk>)
    requires
        chunks.len() > 0,
        forall|i: int| 0 <= i < chunks.len() - 1 ==> !(#[trigger] chunks[i]).eof,
    ensures
        downloaded(path, chunks).1 == Some(chunk_bytes(chunks)),
        downloaded(path, chunks).0 == (CopyRelay {
            relayed: false,
            file_open: !chunks.last().eof,
            over: false,
        }),
    decreases chunks.len(),
{
    let before = chunks.drop_last();
    let last = chunks.last();
    if before.len() > 0 {
        assert(before.last() == chunks[chunks.len() - 2]);
        assert forall|i: int| 0 <= i < before.len() - 1 implies !(#[trigger] before[i]).eof by {
            assert(before[i] == chunks[i]);
        }
        law_download_is_complete(path, before);
        lemma_write_piece(downloaded(path, before).1, true, last.data@, last.eof);
    } else {
        assert(before =~= Seq::<CopyDataChunk>::empty());
        lemma_write_piece(None, false, last.data@, last.eof);
        assert(chunk_bytes(before) =~= Seq::<u8>::empty());
    }
}

/// A file that is uploaded in pieces and downloaded from them again is the same file.
pub proof fn law_upload_and_download_agree(
    path: Seq<char>,
    file: Seq<u8>,
    chunks: Seq<CopyDataChunk>,
)
    requires
        chunk_bytes(chunks) == file,
        chunks.len() > 0,
        chunks.last().eof,
        forall|i: int| 0 <= i < chunks.len() - 1 ==> !(#[trigger] chunks[i]).eof,
    ensures
        downloaded(path, chunks).1 == Some(file),
        !downloaded(path, chunks).0.file_open,
{
    law_download_is_complete(path, chunks);
}

// ---------------------------------------------------------------------------
// What is relayed
// ---------------------------------------------------------------------------
/// What ends the relay of an input.
pub open spec fn ends_input() -> spec_fn(StdinEvent) -> bool {
    |event: StdinEvent|
        match event {
            StdinEvent::Data(data) => data@.len() == 0,
            _ => true,
        }
}

/// The bytes of an input event.
pub open spec fn input_bytes() -> spec_fn(StdinEvent) -> Option<Seq<u8>> {
    |event: StdinEvent|
        match event {
            StdinEvent::Data(data) => Some(data@),
            _ => None,
        }
}

/// All of an input is sent, piece by piece in order, up to its end; the end is sent as an empty
/// piece, unless nothing can be sent any more.
pub proof fn law_all_input_is_sent(events: Seq<StdinEvent>)
    ensures
        ({
            let inner = lists::before_end(events, ends_input());
            let end = lists::first_end(events, ends_input());
            &&& stdin_run(events).1 == lists::picked(inner, input_bytes()) + match end {
                None => Seq::empty(),
                Some(StdinEvent::SendFailed) => Seq::empty(),
                Some(_) => seq![Seq::<u8>::empty()],
            }
            &&& stdin_run(events).0 == end is Some
        }),
    decreases events.len(),
{
    let ends = ends_input();
    let none = Seq::<Seq<u8>>::empty();
    if events.len() == 0 {
        assert(none + none =~= none);
    } else {
        let init = events.drop_last();
        law_all_input_is_sent(init);
        lists::lemma_before_end(init, ends);
        lists::lemma_before_end(events, ends);
        let inner = lists::before_end(init, ends);
        let sent = stdin_run(init).1;
        if lists::first_end(init, ends) is None {
            assert(inner =~= init);
            assert(sent =~= lists::picked(inner, input_bytes()));
            if ends(events.last()) {
                assert(lists::before_end(events, ends) == inner);
                assert(lists::first_end(events, ends) == Some(events.last()));
                if let StdinEvent::Data(data) = events.last() {
                    assert(data@ =~= Seq::<u8>::empty());
                }
                assert(sent + none =~= sent);
                assert(sent.push(Seq::<u8>::empty()) =~= sent + seq![Seq::<u8>::empty()]);
            } else {
                let longer = lists::before_end(events, ends);
                assert(longer == inner.push(events.last()));
                assert(longer.drop_last() =~= inner);
                assert(lists::first_end(events, ends) is None);
                assert(stdin_run(events).1 =~= lists::picked(longer, input_bytes()) + none);
            }
        } else {
            assert(lists::before_end(events, ends) == inner);
            assert(lists::first_end(events, ends) == lists::first_end(init, ends));
        }
    }
}

/// The events of a remote command are told as they are: what it writes, its errors apart from
/// its output, what a review found and what is asked. Its status and notes are no events.
pub proof fn law_remote_events_are_told(event: RemoteEvent)
    ensures
        event matches RemoteEvent::Stdout(data) ==> forwarded(event) == Some(
            execute::EventView::Stdout(data@),
        ),
        event matches RemoteEvent::Stderr(data) ==> forwarded(event) == Some(
            execute::EventView::Stderr(data@),
        ),
        event matches RemoteEvent::Error(message) ==> forwarded(event) == Some(
            execute::EventView::Error(message@),
        ),
        event is ExitStatus || event is Info || event is Empty ==> forwarded(event) is None,
        event matches RemoteEvent::ConfirmRequired { execution_id, reason } ==> forwarded(event)
            matches Some(execute::EventView::ConfirmRequired { execution_id: id, reason: why })
            && why == reason@ && (ids::uuid_value(execution_id@) matches Ok(n) ==> id == n),
        event matches RemoteEvent::AuthPrompt {
            prompt_id,
            target_label,
            kind,
            secret,
            message,
        } ==> forwarded(event) == Some(
            execute::EventView::AuthPrompt {
                prompt_id: prompt_id@,
                target_label: target_label@,
                kind: kind@,
                secret,
                message: message@,
            },
        ),
        event matches RemoteEvent::ReviewResult {
            execution_id,
            risk_level,
            action,
            reason,
            matched_whitelist_reason,
        } ==> forwarded(event) matches Some(told) && told is ReviewResult && told->ReviewResult_reason
            == reason@ && (told->matched_whitelist_reason is None == (
        matched_whitelist_reason@.len() == 0)) && (matched_whitelist_reason@.len() > 0
            ==> told->matched_whitelist_reason == Some(matched_whitelist_reason@)) && (
        ids::uuid_value(execution_id@) matches Ok(n) ==> told->ReviewResult_execution_id == n),
{
}

/// A review's risk and decision are read by their names; a name that is not known is taken for
/// the worst.
pub proof fn law_unknown_reviews_are_refused(name: Seq<char>)
    ensures
        risk_named("safe"@) is Safe,
        risk_named("risky"@) is Risky,
        risk_named(name) is Dangerous == (name != "safe"@ && name != "risky"@),
        action_named("allow"@) is Allow,
        action_named("warn"@) is Warn,
        action_named("confirm"@) is Confirm,
        action_named(name) is Deny == (name != "allow"@ && name != "warn"@ && name
            != "confirm"@),
{
    reveal_strlit("safe");
    reveal_strlit("risky");
    reveal_strlit("allow");
    reveal_strlit("warn");
    reveal_strlit("confirm");
    assert("safe"@.len() == 4 && "risky"@.len() == 5 && "allow"@.len() == 5 && "warn"@.len() == 4
        && "confirm"@.len() == 7);
}

/// A copy that is relayed hands each piece on as it came, and ends as the remote side ended it;
/// a stream that closes without a word is a failure. Behind its end nothing is done.
pub proof fn law_copies_are_relayed(path: Seq<char>, chunk: CopyDataChunk, error: String)
    ensures
        ({
            let relay = CopyRelay { relayed: true, file_open: false, over: false };
            let over = CopyRelay { over: true, ..relay };
            let done = copy_step(relay, path, CopyEvent::Complete);
            let failed = copy_step(relay, path, CopyEvent::Error(error));
            let closed = copy_step(relay, path, CopyEvent::Closed);
            let broken = copy_step(relay, path, CopyEvent::Failed(error));
            &&& copy_step(relay, path, CopyEvent::Chunk(chunk)) == (
                relay,
                seq![CopyActionView::Relay(chunk.data@, chunk.eof)],
            )
            &&& done.0.over && done.1 == seq![CopyActionView::Done]
            &&& failed.0.over && failed.1 == seq![
                CopyActionView::Fail("remote copy error: "@ + error@),
            ]
            &&& broken.0.over && broken.1 == seq![CopyActionView::Fail(error@)]
            &&& closed.0.over && closed.1.len() == 1 && closed.1[0] is Fail
            &&& forall|event: CopyEvent| (#[trigger] copy_step(over, path, event)).1.len() == 0
        }),
{
}

/// A local file that fails is told by its path and the error; an identifier that is none is
/// told as zero.
pub proof fn law_failures_name_the_file(path: Seq<char>, e: String, id: Seq<char>)
    ensures
        ({
            let relay = CopyRelay { relayed: false, file_open: true, over: false };
            let told = |event: CopyEvent, what: Seq<char>|
                copy_step(relay, path, event).1 == seq![
                    CopyActionView::Fail(
                        "download: failed to "@ + what + " local file "@ + text::debug_of(path)
                            + ": "@ + e@,
                    ),
                ];
            &&& told(CopyEvent::CreateFailed(e), "create"@)
            &&& told(CopyEvent::WriteFailed(e), "write to"@)
            &&& told(CopyEvent::FlushFailed(e), "flush"@)
            &&& copy_step(relay, path, CopyEvent::RelayGone).1.len() == 1
            &&& copy_step(relay, path, CopyEvent::RelayGone).1[0] is Fail
        }),
        ids::uuid_value(id) is Err ==> id_named(id) == 0,
        ids::uuid_value(id) matches Ok(n) ==> id_named(id) == n,
{
}

/// What is stated of a [`CopyAction`] is stated of its own parts: each kind is seen as that
/// kind, with all that it holds.
pub proof fn law_copy_action_is_seen_as_it_is(value: CopyAction)
    ensures
        ({
            let seen = value@;
            match value {
                CopyAction::Relay(c) => seen == CopyActionView::Relay(c.data@, c.eof),
                CopyAction::CreateFile => seen == CopyActionView::CreateFile,
                CopyAction::Write(data) => seen == CopyActionView::Write(data@),
                CopyAction::FlushFile => seen == CopyActionView::FlushFile,
                CopyAction::Done => seen == CopyActionView::Done,
                CopyAction::Fail(e) => seen == CopyActionView::Fail(e@),
            }
        }),
{
}

} // verus!
