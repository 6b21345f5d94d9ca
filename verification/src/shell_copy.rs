//! Commands and copies through the shell of a bastion: what is typed into it, and what its
//! output means. Files travel as base64.
use crate::lists;
use crate::lists::chunks;
use crate::output;
use crate::passthrough;
use crate::passthrough::wrap_shell_command;
use crate::paths;
use crate::paths::{
    file_name, join_remote_path, parent, plan_expansion, probe_output, shell_path_basename_or,
    trim_end_slashes, validate_remote_path, Expansion,
};
use crate::pty;
use crate::pty::{line_payload, PtyShell};
use crate::search;
use crate::shell;
use crate::shell::{build_final_command, shell_quote};
use crate::text;
use crate::text::{concat3, concat5};
use crate::transfer;
use crate::transfer::{file_frames, CopyFrame};
use base64::Engine;
use vstd::prelude::*;

verus! {

// ---------------------------------------------------------------------------
// Base64
// ---------------------------------------------------------------------------
/// What base64's `STANDARD` engine makes of some bytes, as bytes.
pub uninterp spec fn base64_of(data: Seq<u8>) -> Seq<u8>;

/// What base64's `STANDARD` engine reads from some bytes, if they are base64.
pub uninterp spec fn base64_read(encoded: Seq<u8>) -> Option<Seq<u8>>;

/// A byte of the standard base64 alphabet, or its padding.
pub open spec fn is_base64_byte(b: u8) -> bool {
    ||| 65 <= b <= 90
    ||| 97 <= b <= 122
    ||| 48 <= b <= 57
    ||| b == 43
    ||| b == 47
    ||| b == 61
}

/// The length of some bytes in base64.
pub open spec fn base64_len(len: int) -> int {
    4 * ((len + 2) / 3)
}

/// `Engine::encode` of the base64 crate, on its `STANDARD` engine, which uses the standard
/// alphabet and pads. The result is named; it holds four bytes of the alphabet for each three
/// bytes or fewer, and the same engine reads the data back from it.
#[verifier::external_body]
fn encode_base64(data: &[u8]) -> (r: Vec<u8>)
    requires
        base64_len(data@.len() as int) <= isize::MAX,
    ensures
        r@ == base64_of(data@),
        r@.len() == base64_len(data@.len() as int),
        forall|i: int| 0 <= i < r@.len() ==> is_base64_byte(#[trigger] r@[i]),
        base64_read(r@) == Some(data@),
{
    base64::engine::general_purpose::STANDARD.encode(data).into_bytes()
}

/// `Engine::decode` of the base64 crate, on its `STANDARD` engine. The result is named; it is
/// none where the crate reports an error.
#[verifier::external_body]
fn decode_base64(encoded: &[u8]) -> (r: Option<Vec<u8>>)
    ensures
        match r {
            Some(data) => base64_read(encoded@) == Some(data@),
            None => base64_read(encoded@) is None,
        },
{
    base64::engine::general_purpose::STANDARD.decode(encoded).ok()
}

// ---------------------------------------------------------------------------
// Commands
// ---------------------------------------------------------------------------
pub const EXEC_SENTINEL_PREFIX: &'static str = "__ARUN_EXEC__";

pub const COPY_SENTINEL_PREFIX: &'static str = "__ARUN_COPY__";

pub const COPY_HEREDOC_PREFIX: &'static str = "ARUN_COPY";

/// Whether a feature was asked for, refused, or left open.
#[derive(Clone, Copy, Debug, PartialEq, Eq, Structural)]
pub enum FlagIntent {
    Unset,
    Enable,
    Disable,
}

/// The command that a shell runs; one without input reads nothing.
pub open spec fn shell_exec_command(
    argv: Seq<Seq<char>>,
    shell_name: Seq<char>,
    stdin: FlagIntent,
) -> Seq<char> {
    let command = shell::final_command(argv, shell_name);
    if stdin == FlagIntent::Disable {
        "{ "@ + command + "; } </dev/null"@
    } else {
        command
    }
}

/// Build the command that a bastion's shell runs.
pub fn build_jumpserver_exec_command(
    argv: &[String],
    shell: &str,
    stdin_intent: FlagIntent,
) -> (r: String)
    ensures
        r@ == shell_exec_command(text::texts(argv@), shell@, stdin_intent),
{
    let command = build_final_command(argv, shell);
    if stdin_intent == FlagIntent::Disable {
        concat3("{ ", command.as_str(), "; } </dev/null")
    } else {
        command
    }
}

/// The line that feeds base64 to a command.
pub open spec fn stdin_line(command: Seq<char>, encoded: Seq<u8>) -> Seq<u8> {
    vstd::utf8::encode_utf8("printf %s '"@) + encoded + vstd::utf8::encode_utf8(
        "' | base64 -d | "@ + command + "\n"@,
    )
}

/// The line that runs a command on some input. The input stands in it as base64.
pub fn build_jumpserver_stdin_command(command: &str, stdin_payload: &[u8]) -> (r: Vec<u8>)
    requires
        base64_len(stdin_payload@.len() as int) <= isize::MAX,
    ensures
        r@ == stdin_line(command@, base64_of(stdin_payload@)),
        base64_read(base64_of(stdin_payload@)) == Some(stdin_payload@),
        forall|i: int|
            0 <= i < base64_of(stdin_payload@).len() ==> is_base64_byte(
                #[trigger] base64_of(stdin_payload@)[i],
            ),
{
    let mut r = "printf %s '".as_bytes_vec();
    let mut encoded = encode_base64(stdin_payload);
    r.append(&mut encoded);
    let rest = concat3("' | base64 -d | ", command, "\n");
    let mut tail = rest.as_str().as_bytes_vec();
    r.append(&mut tail);
    r
}

/// What is typed into a shell to run a command behind `marker`: a line, or one that feeds
/// input to it.
pub open spec fn typed_command(
    command: Seq<char>,
    marker: Seq<char>,
    stdin: Option<Seq<u8>>,
) -> Seq<u8> {
    let wrapped = passthrough::wrapped_command(command, marker);
    match stdin {
        Some(data) => stdin_line(wrapped, base64_of(data)),
        None => pty::line_bytes(wrapped),
    }
}

/// What to type into a shell to run a command.
pub fn command_input(command: &str, marker: &str, stdin: Option<&[u8]>) -> (r: Vec<u8>)
    requires
        stdin matches Some(data) ==> base64_len(data@.len() as int) <= isize::MAX,
    ensures
        r@ == typed_command(
            command@,
            marker@,
            match stdin {
                Some(data) => Some(data@),
                None => None,
            },
        ),
{
    let wrapped = wrap_shell_command(command, marker);
    match stdin {
        Some(data) => build_jumpserver_stdin_command(wrapped.as_str(), data),
        None => line_payload(wrapped.as_str()),
    }
}

/// A connection to a server through a bastion's shell: its own, or one that is lent to it.
pub struct JumpserverConnection {
    pub shell: Option<PtyShell>,
    pub lent: bool,
}

impl JumpserverConnection {
    pub fn new(shell: PtyShell) -> (r: Self)
        ensures
            r == (JumpserverConnection { shell: Some(shell), lent: false }),
    {
        JumpserverConnection { shell: Some(shell), lent: false }
    }

    /// A connection on a shell that goes back to its owner.
    pub fn new_borrowed(shell: PtyShell) -> (r: Self)
        ensures
            r == (JumpserverConnection { shell: Some(shell), lent: true }),
    {
        JumpserverConnection { shell: Some(shell), lent: true }
    }

    /// The shell, unless an interactive session has it.
    pub fn shell(&self) -> (r: Result<&PtyShell, String>)
        ensures
            match self.shell {
                Some(s) => r == Ok::<&PtyShell, String>(&s),
                None => r matches Err(e) && e@ == "jumpserver shell has been moved"@,
            },
    {
        match &self.shell {
            Some(s) => Ok(s),
            None => Err("jumpserver shell has been moved".to_owned()),
        }
    }

    /// Give the shell to an interactive session. A shell that is lent stays.
    pub fn exec_interactive(&mut self) -> (r: Result<PtyShell, String>)
        ensures
            final(self).lent == old(self).lent,
            if old(self).lent {
                &&& final(self).shell == old(self).shell
                &&& r matches Err(e) && e@
                    == "borrowed jumpserver connection cannot be moved into interactive mode"@
            } else {
                &&& final(self).shell is None
                &&& match old(self).shell {
                    Some(s) => r == Ok::<PtyShell, String>(s),
                    None => r matches Err(e) && e@ == "jumpserver shell has been moved"@,
                }
            },
    {
        if self.lent {
            return Err(
                "borrowed jumpserver connection cannot be moved into interactive mode".to_owned(),
            );
        }
        match self.shell.take() {
            Some(s) => Ok(s),
            None => Err("jumpserver shell has been moved".to_owned()),
        }
    }

    pub fn is_alive(&self) -> (r: bool)
        ensures
            r == self.shell is Some,
    {
        match &self.shell {
            Some(s) => s.is_channel_open(),
            None => false,
        }
    }
}

// ---------------------------------------------------------------------------
// Payloads
// ---------------------------------------------------------------------------
/// Bytes without the line ends behind them.
pub open spec fn without_newlines(b: Seq<u8>) -> Seq<u8>
    decreases b.len(),
{
    if b.len() > 0 && (b.last() == 10 || b.last() == 13) {
        without_newlines(b.drop_last())
    } else {
        b
    }
}

pub fn strip_trailing_newlines(bytes: Vec<u8>) -> (r: Vec<u8>)
    ensures
        r@ == without_newlines(bytes@),
{
    let mut r = bytes;
    while r.len() > 0 && (r[r.len() - 1] == 10 || r[r.len() - 1] == 13)
        invariant
            without_newlines(r@) == without_newlines(bytes@),
        decreases r.len(),
    {
        let ghost before = r@;
        r.pop();
        assert(r@ =~= before.drop_last());
    }
    r
}

/// What an upload types behind its command: base64 and a line end.
pub open spec fn payload_of(data: Seq<u8>) -> Seq<u8> {
    base64_of(data).push(10)
}

/// The payload of an upload. What a reader of base64 finds in it, once the line end is gone,
/// is the data.
pub fn upload_payload(data: &[u8]) -> (r: Vec<u8>)
    requires
        base64_len(data@.len() as int) <= isize::MAX,
    ensures
        r@ == payload_of(data@),
        base64_read(without_newlines(r@)) == Some(data@),
{
    let mut r = encode_base64(data);
    let ghost encoded = r@;
    r.push(10);
    proof {
        assert(r@.drop_last() =~= encoded);
        if encoded.len() > 0 {
            assert(is_base64_byte(encoded[encoded.len() - 1]));
        }
        assert(without_newlines(encoded) == encoded);
    }
    r
}

/// Read the payload of a download.
pub fn download_data(payload: Vec<u8>) -> (r: Result<Vec<u8>, String>)
    ensures
        match base64_read(without_newlines(payload@)) {
            Some(data) => r matches Ok(d) && d@ == data,
            None => r matches Err(e) && e@ == "failed to decode base64 download payload"@,
        },
{
    let encoded = strip_trailing_newlines(payload);
    match decode_base64(encoded.as_slice()) {
        Some(data) => Ok(data),
        None => Err("failed to decode base64 download payload".to_owned()),
    }
}

/// The size of the pieces that a payload is typed in.
pub const PAYLOAD_PIECE: usize = 32768;

/// The template of the command that takes an upload; the marker stands for `{}`.
pub open spec fn upload_template(recursive: bool, remote_path: Seq<char>) -> Seq<char> {
    if recursive {
        "base64 -d <<'{}' | tar xf - -C "@ + shell::quoted(remote_path)
    } else {
        "base64 -d <<'{}' > "@ + shell::quoted(remote_path)
    }
}

/// The command that takes an upload from a here-document.
pub fn upload_here_doc_command(recursive: bool, remote_path: &str) -> (r: String)
    ensures
        r@ == upload_template(recursive, remote_path@),
{
    let mut r = if recursive {
        "base64 -d <<'{}' | tar xf - -C ".to_owned()
    } else {
        "base64 -d <<'{}' > ".to_owned()
    };
    let q = shell_quote(remote_path);
    r.append(q.as_str());
    r
}

/// The command line of a here-document that ends at `marker`.
pub open spec fn here_doc_line(template: Seq<char>, marker: Seq<char>) -> Seq<u8> {
    pty::line_bytes(text::replaced(template, "{}"@, marker))
}

/// The writes of an upload, one after the other: the command, the payload in pieces, and the
/// marker that ends it.
#[verifier::loop_isolation(false)]
pub fn upload_writes(template: &str, marker: &str, data: &[u8]) -> (r: Vec<Vec<u8>>)
    requires
        base64_len(data@.len() as int) <= isize::MAX,
    ensures
        r@.len() >= 2,
        r@[0]@ == here_doc_line(template@, marker@),
        r@[r@.len() - 1]@ == pty::line_bytes(marker@),
        lists::cut_into(
            payload_of(data@),
            lists::views(r@).subrange(1, r@.len() - 1),
            PAYLOAD_PIECE as int,
        ),
{
    proof {
        reveal_strlit("{}");
    }
    let line = text::replace(template, "{}", marker);
    let payload = upload_payload(data);
    let mut pieces = chunks(payload.as_slice(), PAYLOAD_PIECE);
    let ghost middle = pieces@;
    let mut r: Vec<Vec<u8>> = Vec::new();
    r.push(line_payload(line.as_str()));
    r.append(&mut pieces);
    r.push(line_payload(marker));
    assert(lists::views(r@).subrange(1, r@.len() - 1) =~= lists::views(middle));
    r
}

/// The command that prints what is downloaded, as base64.
pub open spec fn download_line(recursive: bool, remote_path: Seq<char>) -> Option<Seq<char>> {
    if !recursive {
        Some("base64 -w 0 "@ + shell::quoted(remote_path) + " ; printf '\\n'"@)
    } else {
        match paths::file_name_of(remote_path) {
            None => None,
            Some(name) => {
                let above = paths::parent_of(remote_path);
                let dir = if above.len() == 0 {
                    "."@
                } else {
                    above
                };
                Some(
                    "cd "@ + shell::quoted(dir) + " && tar cf - "@ + shell::quoted(name)
                        + " | base64 -w 0; printf '\\n'"@,
                )
            },
        }
    }
}

/// The command that prints what is downloaded. A directory needs a name.
pub fn download_command(recursive: bool, remote_path: &str) -> (r: Result<String, String>)
    ensures
        match download_line(recursive, remote_path@) {
            Some(line) => r matches Ok(c) && c@ == line,
            None => r matches Err(e) && e@ == "invalid remote path for recursive copy: "@
                + remote_path@,
        },
{
    if !recursive {
        let q = shell_quote(remote_path);
        return Ok(concat3("base64 -w 0 ", q.as_str(), " ; printf '\\n'"));
    }
    match file_name(remote_path) {
        None => {
            let mut e = "invalid remote path for recursive copy: ".to_owned();
            e.append(remote_path);
            Err(e)
        },
        Some(name) => {
            let above = parent(remote_path);
            let dir = if above.as_str().is_empty() {
                ".".to_owned()
            } else {
                above
            };
            let quoted_dir = shell_quote(dir.as_str());
            let quoted_name = shell_quote(name.as_str());
            Ok(
                concat5(
                    "cd ",
                    quoted_dir.as_str(),
                    " && tar cf - ",
                    quoted_name.as_str(),
                    " | base64 -w 0; printf '\\n'",
                ),
            )
        },
    }
}

/// The frames of a download that is one file, under the name of its source.
pub fn download_frames(source_name: &str, data: &[u8]) -> (r: Vec<CopyFrame>)
    ensures
        transfer::are_file_frames(
            r@,
            paths::basename_or(source_name@, "download"@),
            data@,
        ),
{
    file_frames(shell_path_basename_or(source_name, "download"), data)
}

/// What an unpacked download is.
#[derive(Clone, Copy, Debug, PartialEq, Eq, Structural)]
pub enum TarRoot {
    /// The entry with the name that was asked for.
    Named,
    /// The one entry that there is.
    OnlyEntry,
    /// All that was unpacked.
    Everything,
}

/// Which part of what was unpacked a download hands on.
pub fn extracted_tar_root(named_exists: bool, entries: usize) -> (r: TarRoot)
    ensures
        r == if named_exists {
            TarRoot::Named
        } else if entries == 1 {
            TarRoot::OnlyEntry
        } else {
            TarRoot::Everything
        },
{
    if named_exists {
        TarRoot::Named
    } else if entries == 1 {
        TarRoot::OnlyEntry
    } else {
        TarRoot::Everything
    }
}

// ---------------------------------------------------------------------------
// Copies
// ---------------------------------------------------------------------------
/// What a copy through a shell does next.
pub enum ShellCopyAction {
    /// Run the command, and hand back its exit code and its output.
    Capture(String),
    /// Collect the upload and type it behind the command made from this template.
    Send(String),
    /// Hand the downloaded bytes on.
    Deliver(Vec<u8>),
    Fail(String),
    Nothing,
}

/// The mathematical counterpart of [`ShellCopyAction`].
pub enum ShellCopyActionView {
    Capture(Seq<char>),
    Send(Seq<char>),
    Deliver(Seq<u8>),
    Fail(Seq<char>),
    Nothing,
}

impl View for ShellCopyAction {
    type V = ShellCopyActionView;

    open spec fn view(&self) -> ShellCopyActionView {
        match self {
            ShellCopyAction::Capture(c) => ShellCopyActionView::Capture(c@),
            ShellCopyAction::Send(t) => ShellCopyActionView::Send(t@),
            ShellCopyAction::Deliver(d) => ShellCopyActionView::Deliver(d@),
            ShellCopyAction::Fail(e) => ShellCopyActionView::Fail(e@),
            ShellCopyAction::Nothing => ShellCopyActionView::Nothing,
        }
    }
}

/// What a copy waits for.
pub enum ShellCopyPhase {
    /// The home directory, printed by the command.
    Home { command: String, suffix: String },
    /// Whether the path of an upload is a directory.
    Directory { path: String },
    /// The output of a download.
    Output,
    /// Nothing any more.
    Over,
}

/// The mathematical counterpart of [`ShellCopyPhase`].
pub enum ShellCopyPhaseView {
    Home { command: Seq<char>, suffix: Seq<char> },
    Directory { path: Seq<char> },
    Output,
    Over,
}

impl View for ShellCopyPhase {
    type V = ShellCopyPhaseView;

    open spec fn view(&self) -> ShellCopyPhaseView {
        match self {
            ShellCopyPhase::Home { command, suffix } => ShellCopyPhaseView::Home {
                command: command@,
                suffix: suffix@,
            },
            ShellCopyPhase::Directory { path } => ShellCopyPhaseView::Directory { path: path@ },
            ShellCopyPhase::Output => ShellCopyPhaseView::Output,
            ShellCopyPhase::Over => ShellCopyPhaseView::Over,
        }
    }
}

/// What is copied.
pub struct ShellCopyRequest {
    pub upload: bool,
    pub recursive: bool,
    pub source_name: String,
}

/// A copy through a shell.
pub struct ShellCopy {
    request: ShellCopyRequest,
    phase: ShellCopyPhase,
}

/// The state of a copy through a shell.
pub struct ShellCopyState {
    pub upload: bool,
    pub recursive: bool,
    pub source_name: Seq<char>,
    pub phase: ShellCopyPhaseView,
}

impl View for ShellCopy {
    type V = ShellCopyState;

    closed spec fn view(&self) -> ShellCopyState {
        ShellCopyState {
            upload: self.request.upload,
            recursive: self.request.recursive,
            source_name: self.request.source_name@,
            phase: self.phase@,
        }
    }
}

impl ShellCopyState {
    pub open spec fn at(self, phase: ShellCopyPhaseView) -> ShellCopyState {
        ShellCopyState { phase, ..self }
    }

    pub open spec fn fail(self, error: Seq<char>) -> (ShellCopyState, ShellCopyActionView) {
        (self.at(ShellCopyPhaseView::Over), ShellCopyActionView::Fail(error))
    }

    pub open spec fn send(self, path: Seq<char>) -> (ShellCopyState, ShellCopyActionView) {
        (
            self.at(ShellCopyPhaseView::Over),
            ShellCopyActionView::Send(upload_template(self.recursive, path)),
        )
    }

    /// Where a copy goes on once its remote path is known.
    pub open spec fn with_path(self, path: Seq<char>) -> (ShellCopyState, ShellCopyActionView) {
        if !self.upload {
            match download_line(self.recursive, path) {
                Some(line) => (
                    self.at(ShellCopyPhaseView::Output),
                    ShellCopyActionView::Capture(line),
                ),
                None => self.fail("invalid remote path for recursive copy: "@ + path),
            }
        } else if self.recursive {
            self.send(path)
        } else {
            (
                self.at(ShellCopyPhaseView::Directory { path }),
                ShellCopyActionView::Capture("test -d "@ + shell::quoted(path)),
            )
        }
    }

    /// Where a copy of a remote path begins.
    pub open spec fn begin(self, path: Seq<char>) -> (ShellCopyState, ShellCopyActionView) {
        if path.len() == 0 {
            self.fail("remote_path must not be empty"@)
        } else if !paths::needs_expansion(path) {
            self.with_path(path)
        } else {
            match paths::tilde_parts(path) {
                Some((user, suffix)) => (
                    self.at(
                        ShellCopyPhaseView::Home { command: paths::home_command(user), suffix },
                    ),
                    ShellCopyActionView::Capture(paths::home_command(user)),
                ),
                None => self.fail("invalid remote path "@ + path),
            }
        }
    }

    /// Where the outcome of a command leads.
    pub open spec fn captured(self, exit_code: i32, output: Seq<u8>) -> (
        ShellCopyState,
        ShellCopyActionView,
    ) {
        match self.phase {
            ShellCopyPhaseView::Home { command, suffix } => match paths::probed(
                output::lossy_text(without_newlines(output)),
                Some(exit_code),
                command,
            ) {
                Ok(home) => self.with_path(paths::joined(home, suffix)),
                Err(e) => self.fail(e),
            },
            ShellCopyPhaseView::Directory { path } => if exit_code == 0 {
                self.send(
                    paths::without_end_slashes(path) + "/"@ + paths::basename_or(
                        self.source_name,
                        "copy"@,
                    ),
                )
            } else {
                self.send(path)
            },
            ShellCopyPhaseView::Output => if exit_code != 0 {
                self.fail(
                    "remote copy command exited with status "@ + text::signed_dec(
                        exit_code as int,
                    ),
                )
            } else {
                match base64_read(without_newlines(output)) {
                    Some(data) => (
                        self.at(ShellCopyPhaseView::Over),
                        ShellCopyActionView::Deliver(data),
                    ),
                    None => self.fail("failed to decode base64 download payload"@),
                }
            },
            ShellCopyPhaseView::Over => (self, ShellCopyActionView::Nothing),
        }
    }
}

impl ShellCopy {
    fn fail(&mut self, error: String) -> (r: ShellCopyAction)
        ensures
            (final(self)@, r@) == old(self)@.fail(error@),
    {
        self.phase = ShellCopyPhase::Over;
        ShellCopyAction::Fail(error)
    }

    fn send(&mut self, path: &str) -> (r: ShellCopyAction)
        ensures
            (final(self)@, r@) == old(self)@.send(path@),
    {
        self.phase = ShellCopyPhase::Over;
        ShellCopyAction::Send(upload_here_doc_command(self.request.recursive, path))
    }

    fn with_path(&mut self, path: String) -> (r: ShellCopyAction)
        ensures
            (final(self)@, r@) == old(self)@.with_path(path@),
    {
        if !self.request.upload {
            match download_command(self.request.recursive, path.as_str()) {
                Ok(line) => {
                    self.phase = ShellCopyPhase::Output;
                    ShellCopyAction::Capture(line)
                },
                Err(e) => self.fail(e),
            }
        } else if self.request.recursive {
            self.send(path.as_str())
        } else {
            let mut test = "test -d ".to_owned();
            let q = shell_quote(path.as_str());
            test.append(q.as_str());
            self.phase = ShellCopyPhase::Directory { path };
            ShellCopyAction::Capture(test)
        }
    }

    /// Begin a copy.
    pub fn begin(request: ShellCopyRequest, remote_path: &str) -> (r: (Self, ShellCopyAction))
        ensures
            (r.0@, r.1@) == (ShellCopyState {
                upload: request.upload,
                recursive: request.recursive,
                source_name: request.source_name@,
                phase: ShellCopyPhaseView::Over,
            }).begin(remote_path@),
    {
        let mut copy = ShellCopy { request, phase: ShellCopyPhase::Over };
        if let Err(e) = validate_remote_path(remote_path) {
            let action = copy.fail(e);
            return (copy, action);
        }
        let action = match plan_expansion(remote_path) {
            Expansion::Plain(path) => copy.with_path(path),
            Expansion::Ask { command, suffix } => {
                copy.phase = ShellCopyPhase::Home { command: command.clone(), suffix };
                ShellCopyAction::Capture(command)
            },
            Expansion::Fail(e) => copy.fail(e),
        };
        (copy, action)
    }

    /// Take the outcome of a command.
    pub fn on_captured(&mut self, exit_code: i32, output: Vec<u8>) -> (r: ShellCopyAction)
        ensures
            (final(self)@, r@) == old(self)@.captured(exit_code, output@),
    {
        let mut phase = ShellCopyPhase::Over;
        std::mem::swap(&mut self.phase, &mut phase);
        match phase {
            ShellCopyPhase::Home { command, suffix } => {
                let stripped = strip_trailing_newlines(output);
                match probe_output(stripped.as_slice(), Some(exit_code), command.as_str()) {
                    Ok(home) => {
                        let path = join_remote_path(home.as_str(), suffix.as_str());
                        self.with_path(path)
                    },
                    Err(e) => self.fail(e),
                }
            },
            ShellCopyPhase::Directory { path } => if exit_code == 0 {
                let dir = trim_end_slashes(path.as_str());
                let name = shell_path_basename_or(self.request.source_name.as_str(), "copy");
                let inside = concat3(dir.as_str(), "/", name.as_str());
                self.send(inside.as_str())
            } else {
                self.send(path.as_str())
            },
            ShellCopyPhase::Output => if exit_code != 0 {
                let mut e = "remote copy command exited with status ".to_owned();
                let code = text::signed_decimal(exit_code);
                e.append(code.as_str());
                self.fail(e)
            } else {
                match download_data(output) {
                    Ok(data) => ShellCopyAction::Deliver(data),
                    Err(e) => self.fail(e),
                }
            },
            ShellCopyPhase::Over => ShellCopyAction::Nothing,
        }
    }
}

// ---------------------------------------------------------------------------
// What a copy types
// ---------------------------------------------------------------------------
/// A copy that has not begun.
pub open spec fn asked(upload: bool, recursive: bool, source_name: Seq<char>) -> ShellCopyState {
    ShellCopyState { upload, recursive, source_name, phase: ShellCopyPhaseView::Over }
}

/// A recursive download packs the named entry of its directory with tar, wherever the slashes
/// at the end of its path are; the entries of the root are packed there, and a name alone where
/// the shell stands. What is packed comes as base64 on one line.
pub proof fn law_recursive_download_packs_the_entry(
    source_name: Seq<char>,
    dir: Seq<char>,
    name: Seq<char>,
)
    requires
        paths::is_entry_name(name),
        paths::is_plain_end(dir),
        dir[0] != '~',
        name[0] != '~',
    ensures
        ({
            let copy = asked(false, true, source_name);
            let tail = " && tar cf - "@ + shell::quoted(name) + " | base64 -w 0; printf '\\n'"@;
            let full = dir + seq!['/'] + name;
            &&& copy.begin(full).1 == ShellCopyActionView::Capture(
                "cd "@ + shell::quoted(dir) + tail,
            )
            &&& copy.begin(full.push('/')).1 == copy.begin(full).1
            &&& copy.begin(seq!['/'] + name).1 == ShellCopyActionView::Capture(
                "cd "@ + shell::quoted(seq!['/']) + tail,
            )
            &&& copy.begin(name).1 == ShellCopyActionView::Capture(
                "cd "@ + shell::quoted(seq!['.']) + tail,
            )
            &&& copy.begin(full).0.phase is Output
        }),
{
    let full = dir + seq!['/'] + name;
    let more = full + seq!['/'];
    let user = seq!['u'];
    assert(!user.contains('/'));
    assert(full.push('/') =~= more);
    reveal_strlit(".");
    assert("."@ =~= seq!['.']);
    paths::law_path_names_its_entry(dir, name, Seq::empty());
    paths::law_tildes_stand_for_homes(user, Seq::empty(), full);
    paths::law_tildes_stand_for_homes(user, Seq::empty(), more);
    paths::law_tildes_stand_for_homes(user, Seq::empty(), seq!['/'] + name);
    paths::law_tildes_stand_for_homes(user, Seq::empty(), name);
    let tail = " && tar cf - "@ + shell::quoted(name) + " | base64 -w 0; printf '\\n'"@;
    assert("cd "@ + shell::quoted(dir) + tail =~= "cd "@ + shell::quoted(dir) + " && tar cf - "@
        + shell::quoted(name) + " | base64 -w 0; printf '\\n'"@);
    assert("cd "@ + shell::quoted(seq!['/']) + tail =~= "cd "@ + shell::quoted(seq!['/'])
        + " && tar cf - "@ + shell::quoted(name) + " | base64 -w 0; printf '\\n'"@);
    assert("cd "@ + shell::quoted(seq!['.']) + tail =~= "cd "@ + shell::quoted(seq!['.'])
        + " && tar cf - "@ + shell::quoted(name) + " | base64 -w 0; printf '\\n'"@);
}

/// A download that is not recursive reads its path as one file.
pub proof fn law_plain_download_reads_the_file(source_name: Seq<char>, path: Seq<char>)
    requires
        path.len() > 0,
        path[0] != '~',
    ensures
        asked(false, false, source_name).begin(path).1 == ShellCopyActionView::Capture(
            "base64 -w 0 "@ + shell::quoted(path) + " ; printf '\\n'"@,
        ),
        asked(false, false, source_name).begin(path).0.phase is Output,
{
    let user = seq!['u'];
    assert(!user.contains('/'));
    paths::law_tildes_stand_for_homes(user, Seq::empty(), path);
}

/// What the command of a download prints is what is delivered, however its line ends; a
/// download whose command failed, or printed what is no base64, fails.
pub proof fn law_download_delivers_what_was_printed(
    copy: ShellCopyState,
    encoded: Seq<u8>,
    data: Seq<u8>,
    code: i32,
)
    requires
        copy.phase is Output,
        encoded.len() > 0 ==> encoded.last() != 10 && encoded.last() != 13,
    ensures
        base64_read(encoded) == Some(data) ==> {
            &&& copy.captured(0, encoded).1 == ShellCopyActionView::Deliver(data)
            &&& copy.captured(0, encoded.push(10)).1 == ShellCopyActionView::Deliver(data)
            &&& copy.captured(0, encoded.push(13).push(10)).1 == ShellCopyActionView::Deliver(data)
        },
        base64_read(encoded) is None ==> copy.captured(0, encoded).1 is Fail,
        code != 0 ==> copy.captured(code, encoded).1 is Fail,
{
    assert(encoded.push(10).drop_last() =~= encoded);
    assert(encoded.push(13).drop_last() =~= encoded);
    assert(encoded.push(13).push(10).drop_last() =~= encoded.push(13));
    assert(without_newlines(encoded) == encoded);
    assert(without_newlines(encoded.push(13)) == encoded);
}

/// A recursive upload is unpacked in the remote path. One that is not asks first if the remote
/// path is a directory: it goes into the directory under the name of its source, and to the
/// path itself otherwise.
pub proof fn law_uploads_are_typed_to_their_place(
    source_name: Seq<char>,
    path: Seq<char>,
    code: i32,
    output: Seq<u8>,
)
    requires
        path.len() > 0,
        path[0] != '~',
    ensures
        asked(true, true, source_name).begin(path).1 == ShellCopyActionView::Send(
            "base64 -d <<'{}' | tar xf - -C "@ + shell::quoted(path),
        ),
        ({
            let (copy, action) = asked(true, false, source_name).begin(path);
            let next = copy.captured(code, output).1;
            &&& action == ShellCopyActionView::Capture("test -d "@ + shell::quoted(path))
            &&& code != 0 ==> next == ShellCopyActionView::Send(
                "base64 -d <<'{}' > "@ + shell::quoted(path),
            )
            &&& code == 0 && path.last() != '/' && paths::is_entry_name(source_name) ==> next
                == ShellCopyActionView::Send(
                "base64 -d <<'{}' > "@ + shell::quoted(path + seq!['/'] + source_name),
            )
        }),
{
    let user = seq!['u'];
    assert(!user.contains('/'));
    paths::law_tildes_stand_for_homes(user, Seq::empty(), path);
    reveal_strlit("/");
    assert("/"@ =~= seq!['/']);
    if paths::is_entry_name(source_name) {
        paths::law_path_names_its_entry(seq!['d'], source_name, "copy"@);
    }
}

/// A path below a home directory leads where the same path below the directory that the remote
/// side tells leads: the copy asks for it, and goes on as if it had begun with the whole path.
pub proof fn law_homes_are_expanded(
    copy: ShellCopyState,
    user: Seq<char>,
    suffix: Seq<char>,
    output: Seq<u8>,
    home: Seq<char>,
    code: i32,
)
    requires
        user.len() > 0,
        !user.contains('/'),
        suffix.len() > 0,
        text::trim_of(output::lossy_text(without_newlines(output))) == home,
        home.len() > 0,
        home[0] == '/',
        home.last() != '/',
    ensures
        ({
            let (mine, action) = copy.begin(seq!['~', '/'] + suffix);
            let (theirs, other) = copy.begin(seq!['~'] + user + seq!['/'] + suffix);
            let whole = copy.begin(home + seq!['/'] + suffix);
            &&& action == ShellCopyActionView::Capture("printf %s \"$HOME\""@)
            &&& other == ShellCopyActionView::Capture(
                "getent passwd "@ + shell::quoted(user) + " | cut -d: -f6"@,
            )
            &&& mine.captured(0, output) == whole
            &&& theirs.captured(0, output) == whole
            &&& code != 0 ==> mine.captured(code, output).1 is Fail && theirs.captured(
                code,
                output,
            ).1 is Fail
        }),
{
    let whole = home + seq!['/'] + suffix;
    paths::law_tildes_stand_for_homes(user, suffix, whole);
    paths::law_homes_are_asked_for(user, home, Seq::empty(), None);
    paths::law_joined_path_lies_below(home, suffix);
    assert((seq!['~'] + user + seq!['/'] + suffix).len() > 0);
    let joined = paths::joined(home, suffix);
    let (mine, _) = copy.begin(seq!['~', '/'] + suffix);
    let (theirs, _) = copy.begin(seq!['~'] + user + seq!['/'] + suffix);
    lemma_path_forgets_phase(copy, mine, joined);
    lemma_path_forgets_phase(copy, theirs, joined);
}

/// Where a copy goes on does not depend on how its path became known.
proof fn lemma_path_forgets_phase(a: ShellCopyState, b: ShellCopyState, path: Seq<char>)
    requires
        b == a.at(b.phase),
    ensures
        a.with_path(path) == b.with_path(path),
{
}

/// The shell reads an upload up to its marker: the command that opens the here-document names
/// the marker in quotes, the payload is the base64 of the data on a line, and the marker alone
/// on a line ends it.
pub proof fn law_here_document_names_its_marker(rest: Seq<char>, marker: Seq<char>)
    ensures
        exists|tail: Seq<char>|
            text::replaced("base64 -d <<'{}'"@ + rest, "{}"@, marker) == #[trigger] (
            "base64 -d <<'"@ + marker + "'"@ + tail),
{
    reveal_strlit("base64 -d <<'{}'");
    reveal_strlit("base64 -d <<'");
    reveal_strlit("{}");
    reveal_strlit("'");
    let s = "base64 -d <<'{}'"@ + rest;
    let k = "base64 -d <<'"@.len() as int;
    assert(s.subrange(k, k + 2) =~= "{}"@);
    assert forall|j: int| 0 <= j < k implies !#[trigger] search::occurs_at(s, "{}"@, j) by {
        if search::occurs_at(s, "{}"@, j) {
            assert(s.subrange(j, j + 2)[0] == s[j]);
        }
    }
    search::lemma_find_is(s, "{}"@, k);
    let after = s.skip(k + 2);
    assert(after =~= "'"@ + rest);
    assert(s.take(k) =~= "base64 -d <<'"@);
    let made = text::replaced(after, "{}"@, marker);
    lemma_replaced_keeps_first(rest, marker);
    let tail = choose|tail: Seq<char>| made == #[trigger] ("'"@ + tail);
    assert(s.take(k) + marker + made =~= "base64 -d <<'"@ + marker + "'"@ + tail);
}

proof fn lemma_replaced_keeps_first(rest: Seq<char>, marker: Seq<char>)
    ensures
        exists|tail: Seq<char>|
            text::replaced("'"@ + rest, "{}"@, marker) == #[trigger] ("'"@ + tail),
{
    reveal_strlit("{}");
    reveal_strlit("'");
    let s = "'"@ + rest;
    search::lemma_find_from(s, "{}"@, 0);
    match search::find(s, "{}"@) {
        Some(k) => {
            if k == 0 {
                assert(s.subrange(0, 2)[0] == '\'');
            }
            let made = s.take(k) + marker + text::replaced(s.skip(k + 2), "{}"@, marker);
            assert(made =~= "'"@ + made.skip(1)) by {
                assert(s.take(k)[0] == '\'');
            }
        },
        None => {
            assert(s == "'"@ + rest);
        },
    }
}

// ---------------------------------------------------------------------------
// What is typed
// ---------------------------------------------------------------------------
/// A command that is to read nothing is run as a group that reads from nowhere; any other is
/// run as it is.
pub proof fn law_commands_without_input_read_nothing(argv: Seq<Seq<char>>, shell_name: Seq<char>)
    ensures
        shell_exec_command(argv, shell_name, FlagIntent::Disable) == "{ "@ + shell::final_command(
            argv,
            shell_name,
        ) + "; } </dev/null"@,
        forall|stdin: FlagIntent|
            stdin != FlagIntent::Disable ==> #[trigger] shell_exec_command(argv, shell_name, stdin)
                == shell::final_command(argv, shell_name),
{
}

/// A command is typed with its marker on one line. Its input, where it has one, is printed in
/// base64, decoded and piped into it.
pub proof fn law_input_is_piped_into_the_command(
    command: Seq<char>,
    marker: Seq<char>,
    data: Seq<u8>,
)
    ensures
        ({
            let wrapped = passthrough::wrapped_command(command, marker);
            let with = typed_command(command, marker, Some(data));
            let head = vstd::utf8::encode_utf8("printf %s '"@);
            let encoded = base64_of(data);
            let n = head.len() as int;
            let m = n + encoded.len();
            &&& typed_command(command, marker, None) == vstd::utf8::encode_utf8(
                wrapped + seq!['\r'],
            )
            &&& with.take(n) == head
            &&& with.subrange(n, m) == encoded
            &&& with.skip(m) == vstd::utf8::encode_utf8("' | base64 -d | "@ + wrapped + "\n"@)
        }),
{
    let wrapped = passthrough::wrapped_command(command, marker);
    pty::law_lines_are_typed_with_a_return(wrapped);
    let with = typed_command(command, marker, Some(data));
    let head = vstd::utf8::encode_utf8("printf %s '"@);
    let encoded = base64_of(data);
    let n = head.len() as int;
    let m = n + encoded.len();
    assert(with.take(n) =~= head);
    assert(with.subrange(n, m) =~= encoded);
    assert(with.skip(m) =~= vstd::utf8::encode_utf8("' | base64 -d | "@ + wrapped + "\n"@));
}

/// Only the line ends behind the bytes are dropped.
pub proof fn law_line_ends_behind_are_dropped(b: Seq<u8>, ends: Seq<u8>)
    requires
        b.len() > 0 ==> b.last() != 10 && b.last() != 13,
        forall|i: int| 0 <= i < ends.len() ==> (#[trigger] ends[i]) == 10 || ends[i] == 13,
    ensures
        without_newlines(b + ends) == b,
    decreases ends.len(),
{
    let s = b + ends;
    if ends.len() == 0 {
        assert(s =~= b);
    } else {
        assert(s.last() == ends[ends.len() - 1]);
        assert(s.drop_last() =~= b + ends.drop_last());
        law_line_ends_behind_are_dropped(b, ends.drop_last());
    }
}

/// The payload of an upload is the base64 of the bytes, as a line.
pub proof fn law_payload_is_a_line(data: Seq<u8>)
    ensures
        payload_of(data).len() == base64_of(data).len() + 1,
        payload_of(data).drop_last() == base64_of(data),
        payload_of(data).last() == 10,
{
    assert(payload_of(data).drop_last() =~= base64_of(data));
}

/// The line that begins a here document names the marker that ends it.
pub proof fn law_here_document_line_names_its_marker(rest: Seq<char>, marker: Seq<char>)
    ensures
        exists|tail: Seq<char>|
            here_doc_line("base64 -d <<'{}'"@ + rest, marker) == #[trigger] vstd::utf8::encode_utf8(
                "base64 -d <<'"@ + marker + "'"@ + tail + seq!['\r'],
            ),
{
    law_here_document_names_its_marker(rest, marker);
    let tail = choose|tail: Seq<char>|
        text::replaced("base64 -d <<'{}'"@ + rest, "{}"@, marker) == #[trigger] ("base64 -d <<'"@
            + marker + "'"@ + tail);
    let line = "base64 -d <<'"@ + marker + "'"@ + tail;
    pty::law_lines_are_typed_with_a_return(line);
    assert(here_doc_line("base64 -d <<'{}'"@ + rest, marker) == vstd::utf8::encode_utf8(
        "base64 -d <<'"@ + marker + "'"@ + tail + seq!['\r'],
    ));
}

/// An upload into a directory whose source has no name of its own is called `copy` there.
pub proof fn law_nameless_uploads_are_called_copy(path: Seq<char>, output: Seq<u8>)
    requires
        path.len() > 0,
        path[0] != '~',
        path.last() != '/',
    ensures
        asked(true, false, Seq::empty()).begin(path).0.captured(0, output).1
            == ShellCopyActionView::Send(
            "base64 -d <<'{}' > "@ + shell::quoted(path + seq!['/', 'c', 'o', 'p', 'y']),
        ),
{
    let none = Seq::<char>::empty();
    let user = seq!['u'];
    assert(!user.contains('/'));
    paths::law_tildes_stand_for_homes(user, Seq::empty(), path);
    reveal_strlit("/");
    assert("/"@ =~= seq!['/']);
    paths::law_slashes_have_no_name(none, "copy"@);
    reveal_strlit("copy");
    assert("copy"@ =~= seq!['c', 'o', 'p', 'y']);
    paths::law_joined_path_lies_below(path, "copy"@);
    assert(path + seq!['/'] + "copy"@ =~= path + seq!['/', 'c', 'o', 'p', 'y']);
}

/// What is stated of a [`ShellCopyAction`] is stated of its own parts: each kind is seen as that
/// kind, with all that it holds.
pub proof fn law_shell_copy_action_is_seen_as_it_is(value: ShellCopyAction)
    ensures
        ({
            let seen = value@;
            match value {
                ShellCopyAction::Capture(c) => seen == ShellCopyActionView::Capture(c@),
                ShellCopyAction::Send(t) => seen == ShellCopyActionView::Send(t@),
                ShellCopyAction::Deliver(d) => seen == ShellCopyActionView::Deliver(d@),
                ShellCopyAction::Fail(e) => seen == ShellCopyActionView::Fail(e@),
                ShellCopyAction::Nothing => seen == ShellCopyActionView::Nothing,
            }
        }),
{
}

} // verus!
