//! A shell behind a pseudo terminal: the bytes that are pending, and the state
//! machines that read a command's output from them.
use crate::output;
use crate::output::{
    decode_lossy, extract_marker, extract_sentinel, looks_like_prompt, prompt_output_split,
    strip_leading_shell_noise,
};
use crate::search;
use crate::search::bytes_until;
use crate::sentinel;
use crate::sentinel::copy_range;
use crate::text;
use vstd::prelude::*;

verus! {

/// The terminal that is asked for. The start-up files of shells turn colours on for a terminal
/// of this name.
pub const DEFAULT_PTY_TERM: &'static str = "xterm-256color";

pub const DEFAULT_PTY_COLS: u32 = 80;

pub const DEFAULT_PTY_ROWS: u32 = 24;

/// The prompts of the remote shells: a dollar or a hash sign with a space.
pub open spec fn default_suffixes() -> Seq<Seq<char>> {
    seq!["$ "@, "# "@]
}

/// The prompt suffixes of the remote shells.
pub fn shell_prompt_suffixes() -> (r: Vec<String>)
    ensures
        text::texts(r@) == default_suffixes(),
{
    let mut r: Vec<String> = Vec::new();
    r.push("$ ".to_owned());
    r.push("# ".to_owned());
    assert(text::texts(r@) == default_suffixes());
    r
}

// ---------------------------------------------------------------------------
// Messages of a channel
// ---------------------------------------------------------------------------
/// A message of an SSH channel.
pub enum ChannelMessage {
    Data(Vec<u8>),
    ExtendedData(Vec<u8>),
    ExitStatus(u32),
    ExitSignal,
    Eof,
    Close,
    Other,
}

/// What waiting for a channel message came to.
pub enum ShellRead {
    TimedOut,
    Closed,
    Message(ChannelMessage),
}

/// The bytes that a message brings to a shell reader.
pub open spec fn chunk_of(read: ShellRead) -> Result<Seq<u8>, Seq<char>> {
    match read {
        ShellRead::TimedOut => Err("timed out waiting for shell output"@),
        ShellRead::Closed => Err("shell closed unexpectedly"@),
        ShellRead::Message(message) => match message {
            ChannelMessage::Data(data) => Ok(data@),
            ChannelMessage::ExtendedData(data) => Ok(data@),
            ChannelMessage::Close => Err("shell closed unexpectedly"@),
            ChannelMessage::Eof => Err("shell closed unexpectedly"@),
            _ => Ok(Seq::empty()),
        },
    }
}

/// The next chunk of shell output: data of either stream, nothing for other messages,
/// an error when the channel ends or nothing came in time.
pub fn read_chunk(read: ShellRead) -> (r: Result<Vec<u8>, String>)
    ensures
        match r {
            Ok(data) => chunk_of(read) == Ok::<Seq<u8>, Seq<char>>(data@),
            Err(e) => chunk_of(read) == Err::<Seq<u8>, Seq<char>>(e@),
        },
{
    match read {
        ShellRead::TimedOut => Err("timed out waiting for shell output".to_owned()),
        ShellRead::Closed => Err("shell closed unexpectedly".to_owned()),
        ShellRead::Message(message) => match message {
            ChannelMessage::Data(data) => Ok(data),
            ChannelMessage::ExtendedData(data) => Ok(data),
            ChannelMessage::Close => Err("shell closed unexpectedly".to_owned()),
            ChannelMessage::Eof => Err("shell closed unexpectedly".to_owned()),
            _ => {
                let none: Vec<u8> = Vec::new();
                assert(none@ == Seq::<u8>::empty());
                Ok(none)
            },
        },
    }
}

/// The bytes that a line is sent as.
pub open spec fn line_bytes(line: Seq<char>) -> Seq<u8> {
    vstd::utf8::encode_utf8(line.push('\r'))
}

/// The bytes that type a line into a terminal: the line and a carriage return.
pub fn line_payload(line: &str) -> (r: Vec<u8>)
    ensures
        r@ == line_bytes(line@),
{
    let mut s = line.to_owned();
    s.push('\r');
    s.as_str().as_bytes_vec()
}

// ---------------------------------------------------------------------------
// Pending bytes
// ---------------------------------------------------------------------------
/// What a shell model holds.
pub struct PtyState {
    pub pending: Seq<u8>,
    pub suffixes: Seq<Seq<char>>,
}

impl PtyState {
    pub open spec fn with(self, pending: Seq<u8>) -> PtyState {
        PtyState { pending, ..self }
    }

    pub open spec fn has_prompt(self) -> bool {
        output::at_prompt(output::lossy_text(self.pending), self.suffixes)
    }
}

/// The bytes that came from a shell and are not consumed, and the prompts it shows.
pub struct PtyShell {
    pending: Vec<u8>,
    prompt_suffixes: Vec<String>,
}

impl View for PtyShell {
    type V = PtyState;

    closed spec fn view(&self) -> PtyState {
        PtyState { pending: self.pending@, suffixes: text::texts(self.prompt_suffixes@) }
    }
}

/// What is left of `bytes` once a reader has let the safe part through: the last
/// `keep` bytes stay, and the first part that goes out loses its leading noise.
pub open spec fn streamed(bytes: Seq<u8>, first: bool, keep: int) -> (Seq<u8>, Seq<u8>, bool) {
    if bytes.len() > keep {
        let safe = bytes.len() - keep;
        (
            if first {
                output::without_noise(bytes.take(safe))
            } else {
                bytes.take(safe)
            },
            bytes.skip(safe),
            false,
        )
    } else {
        (Seq::empty(), bytes, first)
    }
}

/// A command's last output: without noise if nothing went out before.
pub open spec fn last_output(bytes: Seq<u8>, first: bool) -> Seq<u8> {
    if first {
        output::without_noise(bytes)
    } else {
        bytes
    }
}

impl PtyShell {
    pub fn new(prompt_suffixes: Vec<String>) -> (r: Self)
        ensures
            r@ == (PtyState {
                pending: Seq::empty(),
                suffixes: text::texts(prompt_suffixes@),
            }),
    {
        let pending: Vec<u8> = Vec::new();
        assert(pending@ == Seq::<u8>::empty());
        PtyShell { pending, prompt_suffixes }
    }

    /// Optimistic liveness: a closed channel shows only when it is used.
    pub fn is_channel_open(&self) -> (r: bool)
        ensures
            r,
    {
        true
    }

    pub fn pending_text(&self) -> (r: String)
        ensures
            r@ == output::lossy_text(self@.pending),
    {
        decode_lossy(self.pending.as_slice())
    }

    pub fn pending_has_prompt(&self) -> (r: bool)
        ensures
            r == self@.has_prompt(),
    {
        looks_like_prompt(self.pending.as_slice(), self.prompt_suffixes.as_slice())
    }

    pub fn clear_pending(&mut self)
        ensures
            final(self)@ == old(self)@.with(Seq::empty()),
    {
        self.pending = Vec::new();
        assert(self@.pending == Seq::<u8>::empty());
    }

    pub fn extend_pending(&mut self, chunk: &[u8])
        ensures
            final(self)@ == old(self)@.with(old(self)@.pending + chunk@),
    {
        self.pending.extend_from_slice(chunk);
        assert(self@.pending == old(self)@.pending + chunk@);
    }

    /// Forget the pending bytes if they end with a prompt.
    pub fn clear_prompt_remainder(&mut self)
        ensures
            final(self)@ == if old(self)@.has_prompt() {
                old(self)@.with(Seq::empty())
            } else {
                old(self)@
            },
    {
        if self.pending_has_prompt() {
            self.clear_pending();
        }
    }

    /// Drop the pending bytes up to and with the first newline, which is where the
    /// echo of a typed command ends. Without a newline nothing is dropped.
    pub fn drain_echo_line(&mut self) -> (r: bool)
        ensures
            r == old(self)@.pending.contains(0x0a),
            final(self)@ == if r {
                old(self)@.with(
                    old(self)@.pending.skip(search::until(old(self)@.pending, 0x0a) + 1),
                )
            } else {
                old(self)@
            },
    {
        let pos: usize = bytes_until(self.pending.as_slice(), 0x0a);
        proof {
            search::lemma_until(self.pending@, 0x0a);
        }
        if pos < self.pending.len() {
            let ghost before = self.pending@;
            self.pending = copy_range(self.pending.as_slice(), pos + 1, self.pending.len());
            assert(self.pending@ == before.skip(pos + 1));
            true
        } else {
            false
        }
    }

    /// Let the safe part of the pending bytes through and keep the last `keep` ones.
    fn stream(&mut self, first_output: bool, keep: usize) -> (r: (Vec<u8>, bool))
        ensures
            final(self)@.suffixes == old(self)@.suffixes,
            (r.0@, final(self)@.pending, r.1) == streamed(
                old(self)@.pending,
                first_output,
                keep as int,
            ),
            final(self)@.pending.len() <= keep,
            !first_output ==> r.0@ + final(self)@.pending == old(self)@.pending,
    {
        if self.pending.len() > keep {
            let safe: usize = self.pending.len() - keep;
            let ghost before = self.pending@;
            let head = copy_range(self.pending.as_slice(), 0, safe);
            assert(head@ == before.take(safe as int));
            self.pending = copy_range(self.pending.as_slice(), safe, self.pending.len());
            assert(self.pending@ == before.skip(safe as int));
            assert(head@ + self.pending@ == before);
            (trim_output(head, first_output), false)
        } else {
            let none: Vec<u8> = Vec::new();
            assert(none@ == Seq::<u8>::empty());
            assert(none@ + self.pending@ == self.pending@);
            (none, first_output)
        }
    }
}

/// The output without its noise if it is the first.
fn trim_output(output: Vec<u8>, first_output: bool) -> (r: Vec<u8>)
    ensures
        r@ == last_output(output@, first_output),
{
    if first_output {
        let clean = strip_leading_shell_noise(output.as_slice());
        let r = copy_range(clean, 0, clean.len());
        assert(r@ == clean@);
        r
    } else {
        output
    }
}

// ---------------------------------------------------------------------------
// Reading up to a marker line
// ---------------------------------------------------------------------------
/// What happens while a marker line is awaited.
pub enum ReadEvent {
    /// Output of the shell.
    Chunk(Vec<u8>),
    /// Input for the command.
    Stdin(Vec<u8>),
    /// The input has ended.
    StdinClosed,
}

/// What to do next.
pub struct ReadStep {
    /// Bytes to type into the shell.
    pub write: Option<Vec<u8>>,
    /// Output to pass on (possibly none).
    pub emit: Vec<u8>,
    /// The exit code and the collected output, once the marker line has come.
    pub finished: Option<(i32, Vec<u8>)>,
}

/// What a marker reader holds.
pub struct ReaderState {
    pub prefix: Seq<u8>,
    pub first: bool,
    pub stdin_open: bool,
    pub streaming: bool,
    pub payload: Seq<u8>,
}

/// A reader of a command's output up to its marker line. It passes output on as it
/// comes, or collects it where nobody listens.
pub struct SentinelReader {
    prefix: Vec<u8>,
    first_output: bool,
    stdin_open: bool,
    streaming: bool,
    payload: Vec<u8>,
}

impl View for SentinelReader {
    type V = ReaderState;

    closed spec fn view(&self) -> ReaderState {
        ReaderState {
            prefix: self.prefix@,
            first: self.first_output,
            stdin_open: self.stdin_open,
            streaming: self.streaming,
            payload: self.payload@,
        }
    }
}

/// The output of one chunk: what goes out, what stays pending, whether the next
/// output is the first, and the exit code if the marker line is there.
pub open spec fn read_marker(bytes: Seq<u8>, prefix: Seq<u8>, first: bool) -> (
    Seq<u8>,
    Seq<u8>,
    bool,
    Option<int>,
) {
    match output::marker_line(bytes, prefix) {
        Some((code, before, after)) => (last_output(before, first), after, first, Some(code)),
        None => {
            let (out, rest, next) = streamed(bytes, first, (prefix.len() + 32) as int);
            (out, rest, next, None)
        },
    }
}

impl SentinelReader {
    /// A reader for the given marker. `streaming` tells whether output is passed on,
    /// `stdin_open` whether input may come.
    pub fn new(prefix: Vec<u8>, streaming: bool, stdin_open: bool) -> (r: Self)
        requires
            prefix@.len() > 0,
            prefix@.len() + 32 <= usize::MAX,
        ensures
            r@ == (ReaderState {
                prefix: prefix@,
                first: true,
                stdin_open,
                streaming,
                payload: Seq::empty(),
            }),
    {
        let payload: Vec<u8> = Vec::new();
        assert(payload@ == Seq::<u8>::empty());
        SentinelReader { prefix, first_output: true, stdin_open, streaming, payload }
    }

    pub fn is_stdin_open(&self) -> (r: bool)
        ensures
            r == self@.stdin_open,
    {
        self.stdin_open
    }

    /// Take one event. Input is typed into the shell, its end as an end-of-transmission
    /// character; output is searched for the marker line.
    pub fn on_event(&mut self, shell: &mut PtyShell, event: ReadEvent) -> (r: ReadStep)
        requires
            old(self)@.prefix.len() > 0,
            old(self)@.prefix.len() + 32 <= usize::MAX,
        ensures
            final(self)@.prefix == old(self)@.prefix,
            final(self)@.streaming == old(self)@.streaming,
            final(shell)@.suffixes == old(shell)@.suffixes,
            match event {
                ReadEvent::Stdin(data) => {
                    &&& r.write == Some(data)
                    &&& r.emit@.len() == 0
                    &&& r.finished is None
                    &&& final(self)@ == old(self)@
                    &&& final(shell)@ == old(shell)@
                },
                ReadEvent::StdinClosed => {
                    &&& r.write matches Some(w) && w@ == seq![0x04u8]
                    &&& r.emit@.len() == 0
                    &&& r.finished is None
                    &&& final(self)@ == (ReaderState { stdin_open: false, ..old(self)@ })
                    &&& final(shell)@ == old(shell)@
                },
                ReadEvent::Chunk(chunk) => {
                    let (out, rest, first, code) = read_marker(
                        old(shell)@.pending + chunk@,
                        old(self)@.prefix,
                        old(self)@.first,
                    );
                    let payload = if old(self)@.streaming {
                        old(self)@.payload
                    } else {
                        old(self)@.payload + out
                    };
                    &&& r.write is None
                    &&& r.emit@ == if old(self)@.streaming {
                        out
                    } else {
                        Seq::empty()
                    }
                    &&& final(shell)@ == old(shell)@.with(rest)
                    &&& final(self)@.stdin_open == old(self)@.stdin_open
                    &&& final(self)@.first == first
                    &&& (r.finished is Some <==> code is Some)
                    &&& r.finished is None ==> final(self)@.payload == payload
                    &&& r.finished matches Some((c, p)) ==> code == Some(c as int) && p@
                        == payload
                },
            },
    {
        match event {
            ReadEvent::Stdin(data) => ReadStep {
                write: Some(data),
                emit: Vec::new(),
                finished: None,
            },
            ReadEvent::StdinClosed => {
                self.stdin_open = false;
                let mut eot: Vec<u8> = Vec::new();
                eot.push(0x04);
                assert(eot@ == seq![0x04u8]);
                ReadStep { write: Some(eot), emit: Vec::new(), finished: None }
            },
            ReadEvent::Chunk(chunk) => {
                shell.extend_pending(chunk.as_slice());
                let ghost bytes = shell.pending@;
                let found: Option<(i32, Vec<u8>, Vec<u8>)> = match extract_sentinel(
                    shell.pending.as_slice(),
                    self.prefix.as_slice(),
                ) {
                    Some((code, before, after)) => {
                        let b = copy_range(before, 0, before.len());
                        let a = copy_range(after, 0, after.len());
                        assert(b@ == before@);
                        assert(a@ == after@);
                        Some((code, b, a))
                    },
                    None => None,
                };
                match found {
                    Some((code, before, after)) => {
                        let out = trim_output(before, self.first_output);
                        shell.pending = after;
                        let emit = self.deliver(out);
                        let mut payload: Vec<u8> = Vec::new();
                        std::mem::swap(&mut payload, &mut self.payload);
                        ReadStep { write: None, emit, finished: Some((code, payload)) }
                    },
                    None => {
                        let keep: usize = self.prefix.len() + 32;
                        let (out, first) = shell.stream(self.first_output, keep);
                        self.first_output = first;
                        let emit = self.deliver(out);
                        ReadStep { write: None, emit, finished: None }
                    },
                }
            },
        }
    }

    /// Pass output on, or collect it.
    fn deliver(&mut self, out: Vec<u8>) -> (r: Vec<u8>)
        ensures
            final(self)@ == (ReaderState {
                payload: if old(self)@.streaming {
                    old(self)@.payload
                } else {
                    old(self)@.payload + out@
                },
                ..old(self)@
            }),
            r@ == if old(self)@.streaming {
                out@
            } else {
                Seq::empty()
            },
    {
        if self.streaming {
            out
        } else {
            self.payload.extend_from_slice(out.as_slice());
            assert(self.payload@ == old(self)@.payload + out@);
            let none: Vec<u8> = Vec::new();
            assert(none@ == Seq::<u8>::empty());
            none
        }
    }
}

// ---------------------------------------------------------------------------
// Reading up to the next prompt
// ---------------------------------------------------------------------------
/// What a prompt reader holds.
pub struct CommandState {
    pub marker: Seq<u8>,
    pub keep: int,
    pub first: bool,
}

/// A reader of a command's output up to the next prompt, with the exit code of the
/// marker line in that output if there is a marker.
pub struct CommandReader {
    marker: Vec<u8>,
    keep: usize,
    first_output: bool,
}

impl View for CommandReader {
    type V = CommandState;

    closed spec fn view(&self) -> CommandState {
        CommandState { marker: self.marker@, keep: self.keep as int, first: self.first_output }
    }
}

/// The output of one chunk: what goes out, what stays pending (the prompt, once it is
/// there), whether the next output is the first, and the exit code at the prompt.
pub open spec fn read_prompt(bytes: Seq<u8>, suffixes: Seq<Seq<char>>, state: CommandState) -> (
    Seq<u8>,
    Seq<u8>,
    bool,
    Option<int>,
) {
    match output::prompt_split(bytes, suffixes) {
        Some(split) => {
            let (code, clean) = output::marker_code(bytes.take(split), state.marker);
            (last_output(clean, state.first), bytes.skip(split), state.first, Some(code))
        },
        None => {
            let (out, rest, next) = streamed(bytes, state.first, state.keep);
            (out, rest, next, None)
        },
    }
}

impl CommandReader {
    /// A reader for a command without a marker.
    pub fn plain() -> (r: Self)
        ensures
            r@ == (CommandState { marker: Seq::empty(), keep: 64, first: true }),
    {
        let marker: Vec<u8> = Vec::new();
        assert(marker@ == Seq::<u8>::empty());
        CommandReader { marker, keep: 64, first_output: true }
    }

    /// A reader for a command that prints its exit code behind a marker.
    pub fn with_marker(marker: Vec<u8>) -> (r: Self)
        requires
            marker@.len() + 32 <= usize::MAX,
        ensures
            r@ == (CommandState { marker: marker@, keep: (marker@.len() + 32) as int, first: true }),
    {
        let keep: usize = marker.len() + 32;
        CommandReader { marker, keep, first_output: true }
    }

    /// Take one chunk of output. Returns the output to pass on and, once the prompt is
    /// back, the exit code; the prompt stays pending.
    pub fn on_chunk(&mut self, shell: &mut PtyShell, chunk: &[u8]) -> (r: (Vec<u8>, Option<i32>))
        ensures
            ({
                let (out, rest, first, code) = read_prompt(
                    old(shell)@.pending + chunk@,
                    old(shell)@.suffixes,
                    old(self)@,
                );
                &&& r.0@ == out
                &&& final(shell)@ == old(shell)@.with(rest)
                &&& final(self)@ == (CommandState { first, ..old(self)@ })
                &&& (r.1 is Some <==> code is Some)
                &&& r.1 matches Some(c) ==> code == Some(c as int)
            }),
            r.1 is None ==> final(shell)@.pending.len() <= final(self)@.keep,
    {
        shell.extend_pending(chunk);
        let ghost bytes = shell.pending@;
        match prompt_output_split(shell.pending.as_slice(), shell.prompt_suffixes.as_slice()) {
            Some(split) => {
                let raw = copy_range(shell.pending.as_slice(), 0, split);
                assert(raw@ == bytes.take(split as int));
                let (code, clean) = extract_marker(raw.as_slice(), self.marker.as_slice());
                let clean_copy = copy_range(clean, 0, clean.len());
                assert(clean_copy@ == clean@);
                let out = trim_output(clean_copy, self.first_output);
                shell.pending = copy_range(shell.pending.as_slice(), split, shell.pending.len());
                assert(shell.pending@ == bytes.skip(split as int));
                (out, Some(code))
            },
            None => {
                let (out, first) = shell.stream(self.first_output, self.keep);
                self.first_output = first;
                (out, None)
            },
        }
    }
}

// ---------------------------------------------------------------------------
// An interactive command
// ---------------------------------------------------------------------------
/// What happens to an interactive command.
pub enum InteractiveEvent {
    Stdin(Vec<u8>),
    /// Input could not be written.
    WriteFailed,
    Resize(u32, u32),
    /// A message of the channel, or its end.
    Message(Option<ChannelMessage>),
}

/// What to do for an interactive command.
pub enum InteractiveAction {
    Nothing,
    Write(Vec<u8>),
    WindowChange(u32, u32),
    Output(Vec<u8>),
    /// The command is over: pass this output on, close the channel, report the code.
    Finish(Vec<u8>, i32),
}

/// What the reader of an interactive command holds.
pub struct InteractiveState {
    pub prefix: Seq<u8>,
    pub pending: Seq<u8>,
    pub first: bool,
    pub exit_code: int,
}

/// The reader of an interactive command. Its exit code is 255 until the channel or the
/// marker line says otherwise.
pub struct InteractiveReader {
    prefix: Vec<u8>,
    shell: PtyShell,
    first_output: bool,
    exit_code: i32,
}

impl View for InteractiveReader {
    type V = InteractiveState;

    closed spec fn view(&self) -> InteractiveState {
        InteractiveState {
            prefix: self.prefix@,
            pending: self.shell@.pending,
            first: self.first_output,
            exit_code: self.exit_code as int,
        }
    }
}

impl InteractiveReader {
    pub fn new(shell: PtyShell, prefix: Vec<u8>) -> (r: Self)
        requires
            prefix@.len() > 0,
            prefix@.len() + 32 <= usize::MAX,
        ensures
            r@ == (InteractiveState {
                prefix: prefix@,
                pending: shell@.pending,
                first: true,
                exit_code: 255,
            }),
    {
        InteractiveReader { prefix, shell, first_output: true, exit_code: 255 }
    }

    /// Search a chunk of output for the marker line.
    fn on_output(&mut self, chunk: Vec<u8>) -> (r: InteractiveAction)
        requires
            old(self)@.prefix.len() > 0,
            old(self)@.prefix.len() + 32 <= usize::MAX,
        ensures
            final(self)@.prefix == old(self)@.prefix,
            ({
                let (out, rest, first, code) = read_marker(
                    old(self)@.pending + chunk@,
                    old(self)@.prefix,
                    old(self)@.first,
                );
                if chunk@.len() == 0 {
                    r is Nothing && final(self)@ == old(self)@
                } else {
                    match code {
                        Some(c) => {
                            &&& r matches InteractiveAction::Finish(o, k) && o@ == out && k == c
                            &&& final(self)@.exit_code == c
                        },
                        None => {
                            &&& r matches InteractiveAction::Output(o) && o@ == out
                            &&& final(self)@ == (InteractiveState {
                                pending: rest,
                                first,
                                ..old(self)@
                            })
                        },
                    }
                }
            }),
    {
        if chunk.len() == 0 {
            return InteractiveAction::Nothing;
        }
        self.shell.extend_pending(chunk.as_slice());
        let found: Option<(i32, Vec<u8>)> = match extract_sentinel(
            self.shell.pending.as_slice(),
            self.prefix.as_slice(),
        ) {
            Some((code, before, _)) => {
                let b = copy_range(before, 0, before.len());
                assert(b@ == before@);
                Some((code, b))
            },
            None => None,
        };
        match found {
            Some((code, before)) => {
                self.exit_code = code;
                InteractiveAction::Finish(trim_output(before, self.first_output), code)
            },
            None => {
                let keep: usize = self.prefix.len() + 32;
                let (out, first) = self.shell.stream(self.first_output, keep);
                self.first_output = first;
                InteractiveAction::Output(out)
            },
        }
    }

    /// Take one event of the session.
    pub fn on_event(&mut self, event: InteractiveEvent) -> (r: InteractiveAction)
        requires
            old(self)@.prefix.len() > 0,
            old(self)@.prefix.len() + 32 <= usize::MAX,
        ensures
            final(self)@.prefix == old(self)@.prefix,
            match event {
                InteractiveEvent::Stdin(data) => r == InteractiveAction::Write(data)
                    && final(self)@ == old(self)@,
                InteractiveEvent::Resize(cols, rows) => r == InteractiveAction::WindowChange(
                    cols,
                    rows,
                ) && final(self)@ == old(self)@,
                InteractiveEvent::WriteFailed => {
                    &&& r matches InteractiveAction::Finish(o, k) && o@.len() == 0 && k
                        == old(self)@.exit_code
                    &&& final(self)@ == old(self)@
                },
                InteractiveEvent::Message(message) => match message {
                    None | Some(ChannelMessage::Close) | Some(ChannelMessage::Eof) => {
                        &&& r matches InteractiveAction::Finish(o, k) && o@.len() == 0 && k
                            == old(self)@.exit_code
                        &&& final(self)@ == old(self)@
                    },
                    Some(ChannelMessage::ExitStatus(status)) => {
                        &&& r is Nothing
                        &&& final(self)@ == (InteractiveState {
                            exit_code: (status as i32) as int,
                            ..old(self)@
                        })
                    },
                    Some(ChannelMessage::ExitSignal) => {
                        &&& r is Nothing
                        &&& final(self)@ == (InteractiveState { exit_code: 255, ..old(self)@ })
                    },
                    Some(ChannelMessage::Other) => r is Nothing && final(self)@ == old(self)@,
                    Some(ChannelMessage::Data(chunk)) | Some(
                        ChannelMessage::ExtendedData(chunk),
                    ) => {
                        let (out, rest, first, code) = read_marker(
                            old(self)@.pending + chunk@,
                            old(self)@.prefix,
                            old(self)@.first,
                        );
                        if chunk@.len() == 0 {
                            r is Nothing && final(self)@ == old(self)@
                        } else {
                            match code {
                                Some(c) => {
                                    &&& r matches InteractiveAction::Finish(o, k) && o@ == out
                                        && k == c
                                    &&& final(self)@.exit_code == c
                                },
                                None => {
                                    &&& r matches InteractiveAction::Output(o) && o@ == out
                                    &&& final(self)@ == (InteractiveState {
                                        pending: rest,
                                        first,
                                        ..old(self)@
                                    })
                                },
                            }
                        }
                    },
                },
            },
    {
        match event {
            InteractiveEvent::Stdin(data) => InteractiveAction::Write(data),
            InteractiveEvent::Resize(cols, rows) => InteractiveAction::WindowChange(cols, rows),
            InteractiveEvent::WriteFailed => InteractiveAction::Finish(
                Vec::new(),
                self.exit_code,
            ),
            InteractiveEvent::Message(message) => match message {
                None => InteractiveAction::Finish(Vec::new(), self.exit_code),
                Some(ChannelMessage::Close) => InteractiveAction::Finish(
                    Vec::new(),
                    self.exit_code,
                ),
                Some(ChannelMessage::Eof) => InteractiveAction::Finish(
                    Vec::new(),
                    self.exit_code,
                ),
                Some(ChannelMessage::ExitStatus(status)) => {
                    self.exit_code = #[verifier::truncate] (status as i32);
                    InteractiveAction::Nothing
                },
                Some(ChannelMessage::ExitSignal) => {
                    self.exit_code = 255;
                    InteractiveAction::Nothing
                },
                Some(ChannelMessage::Other) => InteractiveAction::Nothing,
                Some(ChannelMessage::Data(chunk)) => self.on_output(chunk),
                Some(ChannelMessage::ExtendedData(chunk)) => self.on_output(chunk),
            },
        }
    }
}

// ---------------------------------------------------------------------------
// Nothing is lost
// ---------------------------------------------------------------------------
/// What some chunks make of the pending bytes of a shell: the output that goes out, the bytes
/// that stay pending, whether the next output is the first, and the exit code once the marker
/// line is there. Chunks behind that line are not read.
pub open spec fn marker_run(prefix: Seq<u8>, pending: Seq<u8>, first: bool, chunks: Seq<Seq<u8>>) -> (
    Seq<u8>,
    Seq<u8>,
    bool,
    Option<int>,
)
    decreases chunks.len(),
{
    if chunks.len() == 0 {
        (Seq::empty(), pending, first, None)
    } else {
        let (out, rest, f, code) = marker_run(prefix, pending, first, chunks.drop_last());
        if code is Some {
            (out, rest, f, code)
        } else {
            let (more, left, g, c) = read_marker(rest + chunks.last(), prefix, f);
            (out + more, left, g, c)
        }
    }
}

/// The same of a reader that awaits the prompt.
pub open spec fn prompt_run(
    suffixes: Seq<Seq<char>>,
    state: CommandState,
    pending: Seq<u8>,
    chunks: Seq<Seq<u8>>,
) -> (Seq<u8>, Seq<u8>, bool, Option<int>)
    decreases chunks.len(),
{
    if chunks.len() == 0 {
        (Seq::empty(), pending, state.first, None)
    } else {
        let (out, rest, f, code) = prompt_run(suffixes, state, pending, chunks.drop_last());
        if code is Some {
            (out, rest, f, code)
        } else {
            let (more, left, g, c) = read_prompt(
                rest + chunks.last(),
                suffixes,
                CommandState { first: f, ..state },
            );
            (out + more, left, g, c)
        }
    }
}

/// Some bytes are all of a stream, but for the noise that its first `m` bytes begin with.
pub open spec fn all_but_noise(bytes: Seq<u8>, stream: Seq<u8>, m: int) -> bool {
    &&& 0 <= m <= stream.len()
    &&& bytes == output::without_noise(stream.take(m)) + stream.skip(m)
}

/// A line that begins with the marker and a colon.
pub open spec fn is_marked(line: Seq<u8>, marker: Seq<u8>) -> bool {
    &&& line.len() > marker.len()
    &&& line.take(marker.len() as int) == marker
    &&& line[marker.len() as int] == 0x3a
}

/// What is known of a reader that goes on: what went out and what is pending are all of the
/// stream, but for noise in front of the first output.
spec fn tells_all(
    stream: Seq<u8>,
    out: Seq<u8>,
    rest: Seq<u8>,
    began: bool,
    first: bool,
    m: int,
) -> bool {
    &&& all_but_noise(out + rest, stream, m)
    &&& first ==> began && out.len() == 0
    &&& first || !began ==> m == 0
}

proof fn lemma_streamed_tells(
    stream: Seq<u8>,
    chunk: Seq<u8>,
    out: Seq<u8>,
    rest: Seq<u8>,
    began: bool,
    first: bool,
    m: int,
    keep: int,
) -> (n: int)
    requires
        tells_all(stream, out, rest, began, first, m),
        keep >= 0,
    ensures
        ({
            let (more, left, g) = streamed(rest + chunk, first, keep);
            tells_all(stream + chunk, out + more, left, began, g, n)
        }),
{
    let bytes = rest + chunk;
    let (more, left, g) = streamed(bytes, first, keep);
    if first && bytes.len() > keep {
        lemma_first_bytes(stream, out, rest);
        let safe = bytes.len() - keep;
        assert(bytes =~= stream + chunk);
        assert(out + more + left =~= output::without_noise(bytes.take(safe)) + bytes.skip(safe));
        safe
    } else {
        assert(more + left =~= bytes);
        assert((stream + chunk).take(m) =~= stream.take(m));
        assert((stream + chunk).skip(m) =~= stream.skip(m) + chunk);
        assert(out + more + left =~= (out + rest) + chunk);
        assert(out + more + left =~= output::without_noise((stream + chunk).take(m)) + (stream
            + chunk).skip(m));
        m
    }
}

proof fn lemma_first_bytes(stream: Seq<u8>, out: Seq<u8>, rest: Seq<u8>)
    requires
        all_but_noise(out + rest, stream, 0),
        out.len() == 0,
    ensures
        rest == stream,
{
    let none = stream.take(0);
    assert(none =~= Seq::<u8>::empty());
    assert(output::noise_end(none, 0) == 0);
    assert(output::without_noise(none) =~= none);
    assert(out + rest =~= rest);
    assert(none + stream.skip(0) =~= stream);
}

proof fn lemma_ending_tells(
    stream: Seq<u8>,
    chunk: Seq<u8>,
    out: Seq<u8>,
    rest: Seq<u8>,
    began: bool,
    first: bool,
    m: int,
    b: int,
) -> (n: int)
    requires
        tells_all(stream, out, rest, began, first, m),
        0 <= b <= (rest + chunk).len(),
    ensures
        all_but_noise(
            out + last_output((rest + chunk).take(b), first) + (rest + chunk).skip(b),
            stream + chunk,
            n,
        ),
        !began ==> n == 0,
{
    let bytes = rest + chunk;
    let all = out + last_output(bytes.take(b), first) + bytes.skip(b);
    if first {
        lemma_first_bytes(stream, out, rest);
        assert(bytes =~= stream + chunk);
        assert(all =~= output::without_noise(bytes.take(b)) + bytes.skip(b));
        b
    } else {
        assert((stream + chunk).take(m) =~= stream.take(m));
        assert((stream + chunk).skip(m) =~= stream.skip(m) + chunk);
        assert(bytes.take(b) + bytes.skip(b) =~= bytes);
        assert(all =~= (out + rest) + chunk);
        assert(all =~= output::without_noise((stream + chunk).take(m)) + (stream + chunk).skip(m));
        m
    }
}

proof fn lemma_marker_line(bytes: Seq<u8>, prefix: Seq<u8>) -> (line: Seq<u8>)
    ensures
        output::marker_line(bytes, prefix) matches Some((_, before, after)) ==> is_marked(
            line,
            prefix,
        ) && before.len() <= bytes.len() && before == bytes.take(before.len() as int) && bytes.skip(
            before.len() as int,
        ) == line + after,
{
    match output::marker_line(bytes, prefix) {
        Some((_, before, after)) => {
            search::lemma_find_from(bytes, prefix, 0);
            let start = search::find(bytes, prefix)->0;
            let rest = bytes.skip(start + prefix.len()).skip(1);
            search::lemma_until(rest, 0x0a);
            let n = bytes.len() - start - after.len();
            let tail = bytes.skip(start);
            let line = tail.take(n);
            assert(before.len() == start);
            assert(line.take(prefix.len() as int) =~= bytes.subrange(start, start + prefix.len()));
            assert(tail.skip(n) =~= after);
            assert(tail =~= line + after);
            line
        },
        None => Seq::empty(),
    }
}

/// However a command's output is cut into chunks, no byte of it is lost, doubled or moved: what
/// goes out and what stays pending are, one after the other, all that came, but for line ends
/// and escape sequences in front of the first output. Once the marker line has come, it alone
/// stands between the output and what stays pending.
pub proof fn law_marked_output_is_complete(
    prefix: Seq<u8>,
    pending: Seq<u8>,
    first: bool,
    chunks: Seq<Seq<u8>>,
)
    requires
        chunks.len() > 0 ==> marker_run(prefix, pending, first, chunks.drop_last()).3 is None,
    ensures
        ({
            let (out, rest, _, code) = marker_run(prefix, pending, first, chunks);
            let stream = pending + sentinel::stream(chunks);
            match code {
                None => exists|m: int|
                    (!first ==> m == 0) && #[trigger] all_but_noise(out + rest, stream, m),
                Some(_) => exists|line: Seq<u8>, m: int|
                    is_marked(line, prefix) && (!first ==> m == 0) && #[trigger] all_but_noise(
                        out + line + rest,
                        stream,
                        m,
                    ),
            }
        }),
{
    let (out, rest, f, code) = marker_run(prefix, pending, first, chunks);
    let stream = pending + sentinel::stream(chunks);
    if code is None {
        let m = lemma_marker_run(prefix, pending, first, chunks);
        assert(all_but_noise(out + rest, stream, m));
    } else {
        let before = chunks.drop_last();
        let chunk = chunks.last();
        let (out0, rest0, f0, _) = marker_run(prefix, pending, first, before);
        let stream0 = pending + sentinel::stream(before);
        let m0 = lemma_marker_run(prefix, pending, first, before);
        let bytes = rest0 + chunk;
        let line = lemma_marker_line(bytes, prefix);
        let found = output::marker_line(bytes, prefix)->0;
        let b = found.1.len() as int;
        let m = lemma_ending_tells(stream0, chunk, out0, rest0, first, f0, m0, b);
        assert(stream0 + chunk =~= stream);
        assert(out + line + rest =~= out + bytes.skip(b));
        assert(all_but_noise(out + line + rest, stream, m));
    }
}

proof fn lemma_marker_run(prefix: Seq<u8>, pending: Seq<u8>, first: bool, chunks: Seq<Seq<u8>>) -> (m:
    int)
    requires
        marker_run(prefix, pending, first, chunks).3 is None,
    ensures
        ({
            let (out, rest, f, _) = marker_run(prefix, pending, first, chunks);
            tells_all(pending + sentinel::stream(chunks), out, rest, first, f, m)
        }),
    decreases chunks.len(),
{
    if chunks.len() == 0 {
        lemma_nothing_told(pending);
        assert(pending + sentinel::stream(chunks) =~= pending);
        0
    } else {
        let before = chunks.drop_last();
        let (out, rest, f, _) = marker_run(prefix, pending, first, before);
        let m = lemma_marker_run(prefix, pending, first, before);
        let stream = pending + sentinel::stream(before);
        assert(stream + chunks.last() =~= pending + sentinel::stream(chunks));
        lemma_streamed_tells(
            stream,
            chunks.last(),
            out,
            rest,
            first,
            f,
            m,
            (prefix.len() + 32) as int,
        )
    }
}

proof fn lemma_nothing_told(pending: Seq<u8>)
    ensures
        all_but_noise(Seq::<u8>::empty() + pending, pending, 0),
{
    let none = pending.take(0);
    assert(none =~= Seq::<u8>::empty());
    assert(output::noise_end(none, 0) == 0);
    assert(output::without_noise(none) =~= none);
    assert(Seq::<u8>::empty() + pending =~= none + pending.skip(0));
}

/// The same where the prompt is awaited: behind the output there may stand a marker line, and
/// what follows it up to the prompt; the prompt stays pending.
pub proof fn law_prompted_output_is_complete(
    suffixes: Seq<Seq<char>>,
    state: CommandState,
    pending: Seq<u8>,
    chunks: Seq<Seq<u8>>,
)
    requires
        state.keep >= 0,
        chunks.len() > 0 ==> prompt_run(suffixes, state, pending, chunks.drop_last()).3 is None,
    ensures
        ({
            let (out, rest, _, code) = prompt_run(suffixes, state, pending, chunks);
            let stream = pending + sentinel::stream(chunks);
            match code {
                None => exists|m: int|
                    (!state.first ==> m == 0) && #[trigger] all_but_noise(out + rest, stream, m),
                Some(_) => exists|tail: Seq<u8>, m: int|
                    (tail.len() == 0 || is_marked(tail, state.marker)) && (!state.first ==> m == 0)
                        && #[trigger] all_but_noise(out + tail + rest, stream, m),
            }
        }),
{
    let (out, rest, f, code) = prompt_run(suffixes, state, pending, chunks);
    let stream = pending + sentinel::stream(chunks);
    if code is None {
        let m = lemma_prompt_run(suffixes, state, pending, chunks);
        assert(all_but_noise(out + rest, stream, m));
    } else {
        let before = chunks.drop_last();
        let chunk = chunks.last();
        let (out0, rest0, f0, _) = prompt_run(suffixes, state, pending, before);
        let stream0 = pending + sentinel::stream(before);
        let m0 = lemma_prompt_run(suffixes, state, pending, before);
        let bytes = rest0 + chunk;
        let split = output::prompt_split(bytes, suffixes)->0;
        search::lemma_last_index(bytes, 0x0a);
        let raw = bytes.take(split);
        let clean = output::marker_code(raw, state.marker).1;
        output::lemma_marker_from(raw, state.marker, 0);
        let b = clean.len() as int;
        assert(clean =~= raw.take(b));
        assert(clean =~= bytes.take(b));
        let tail = raw.skip(b);
        if tail.len() > 0 {
            assert(tail.take(state.marker.len() as int) =~= raw.subrange(
                b,
                b + state.marker.len(),
            ));
        }
        let m = lemma_ending_tells(stream0, chunk, out0, rest0, state.first, f0, m0, b);
        assert(stream0 + chunk =~= stream);
        assert(bytes.skip(b) =~= tail + bytes.skip(split));
        assert(out + tail + rest =~= out + bytes.skip(b));
        assert(all_but_noise(out + tail + rest, stream, m));
    }
}

proof fn lemma_prompt_run(
    suffixes: Seq<Seq<char>>,
    state: CommandState,
    pending: Seq<u8>,
    chunks: Seq<Seq<u8>>,
) -> (m: int)
    requires
        state.keep >= 0,
        prompt_run(suffixes, state, pending, chunks).3 is None,
    ensures
        ({
            let (out, rest, f, _) = prompt_run(suffixes, state, pending, chunks);
            tells_all(pending + sentinel::stream(chunks), out, rest, state.first, f, m)
        }),
    decreases chunks.len(),
{
    if chunks.len() == 0 {
        lemma_nothing_told(pending);
        assert(pending + sentinel::stream(chunks) =~= pending);
        0
    } else {
        let before = chunks.drop_last();
        let (out, rest, f, _) = prompt_run(suffixes, state, pending, before);
        let m = lemma_prompt_run(suffixes, state, pending, before);
        let stream = pending + sentinel::stream(before);
        assert(stream + chunks.last() =~= pending + sentinel::stream(chunks));
        lemma_streamed_tells(stream, chunks.last(), out, rest, state.first, f, m, state.keep)
    }
}

// ---------------------------------------------------------------------------
// What a shell shows and reads
// ---------------------------------------------------------------------------
/// A shell waits for input where its last line ends in a dollar or a hash sign and a blank.
pub proof fn law_usual_prompts_are_known(before: Seq<char>, line: Seq<char>)
    requires
        !line.contains('\n'),
        line.len() > 0 ==> line.last() != '\r',
    ensures
        output::at_prompt(before + seq!['\n'] + line, default_suffixes()) == (text::ends(
            line,
            seq!['$', ' '],
        ) || text::ends(line, seq!['#', ' '])),
{
    reveal_strlit("$ ");
    reveal_strlit("# ");
    assert("$ "@ =~= seq!['$', ' ']);
    assert("# "@ =~= seq!['#', ' ']);
    output::law_prompt_ends_the_last_line(before, line, default_suffixes());
    let suffixes = default_suffixes();
    assert(suffixes[0] == seq!['$', ' ']);
    assert(suffixes[1] == seq!['#', ' ']);
}

/// What a shell writes is read as it is, its errors too; a shell that ends or is silent for too
/// long is an error. Other messages hold nothing.
pub proof fn law_shell_output_is_read(data: Vec<u8>, message: ChannelMessage)
    ensures
        chunk_of(ShellRead::Message(ChannelMessage::Data(data))) == Ok::<Seq<u8>, Seq<char>>(
            data@,
        ),
        chunk_of(ShellRead::Message(ChannelMessage::ExtendedData(data))) == Ok::<
            Seq<u8>,
            Seq<char>,
        >(data@),
        chunk_of(ShellRead::TimedOut) is Err,
        chunk_of(ShellRead::Closed) is Err,
        message is Eof || message is Close ==> chunk_of(ShellRead::Message(message)) is Err,
        message is ExitStatus || message is ExitSignal || message is Other ==> (chunk_of(
            ShellRead::Message(message),
        ) matches Ok(none) && none.len() == 0),
{
}

/// A line is typed with a carriage return behind it.
pub proof fn law_lines_are_typed_with_a_return(line: Seq<char>)
    ensures
        line_bytes(line) == vstd::utf8::encode_utf8(line + seq!['\r']),
{
    assert(line.push('\r') =~= line + seq!['\r']);
}

} // verus!
