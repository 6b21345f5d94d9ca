//! Byte-for-byte passthrough between a client and a remote terminal, with the
//! sentinel of a wrapped command filtered out of the stream.
use crate::ids;
use crate::ids::make_marker_with;
use crate::pty::ChannelMessage;
use crate::sentinel;
use crate::sentinel::SentinelScanner;
use crate::shell;
use crate::text;
use vstd::prelude::*;

verus! {

// ---------------------------------------------------------------------------
// Markers
// ---------------------------------------------------------------------------
/// A fresh exit-code marker.
pub fn make_marker() -> (r: String)
    ensures
        ids::is_marker(r@, "__XHO_E_"@),
{
    make_marker_with("__XHO_E_")
}

/// `command` with its exit code printed behind `marker` once it is done.
pub open spec fn wrapped_command(command: Seq<char>, marker: Seq<char>) -> Seq<char> {
    "{ "@ + command + "; }; status=$?; printf '"@ + marker + ":%s\\n' \"$status\""@
}

/// Wrap a command so that it prints its exit code behind the marker.
pub fn wrap_shell_command(command: &str, marker: &str) -> (r: String)
    ensures
        r@ == wrapped_command(command@, marker@),
{
    text::concat5(
        "{ ",
        command,
        "; }; status=$?; printf '",
        marker,
        ":%s\\n' \"$status\"",
    )
}

// ---------------------------------------------------------------------------
// Passthrough
// ---------------------------------------------------------------------------
/// What happens during a passthrough.
pub enum PassEvent {
    Stdin(Vec<u8>),
    /// Input could not be written to the terminal.
    WriteFailed,
    StdinClosed,
    Resize(u32, u32),
    /// A message of the channel, or its end.
    Message(Option<ChannelMessage>),
    /// The bytes of the last `Forward` went out, or could not.
    Forwarded(bool),
}

/// What to do next. After `Forward` the outcome comes back as `Forwarded`.
pub enum PassAction {
    Nothing,
    Write(Vec<u8>),
    SendEof,
    WindowChange(u32, u32),
    Forward(Vec<u8>),
    /// The passthrough is over. A terminal that can be used again comes with the bytes
    /// that are pending in it.
    Finish { exit_code: i32, reusable: Option<Vec<u8>> },
}

/// What a passthrough holds.
pub struct PassState {
    pub scan: Option<sentinel::ScanState>,
    pub exit_code: int,
    pub stdin_open: bool,
    pub reusable: bool,
}

/// The state of a passthrough. Only one that awaits a sentinel leaves a terminal that
/// can be used again: at its prompt, behind the sentinel.
pub struct Passthrough {
    scanner: Option<SentinelScanner>,
    exit_code: i32,
    stdin_open: bool,
    reusable: bool,
    done: bool,
}

impl View for Passthrough {
    type V = PassState;

    closed spec fn view(&self) -> PassState {
        PassState {
            scan: match self.scanner {
                Some(s) => Some(s@),
                None => None,
            },
            exit_code: self.exit_code as int,
            stdin_open: self.stdin_open,
            reusable: self.reusable,
        }
    }
}

impl PassState {
    pub open spec fn found(self) -> bool {
        match self.scan {
            Some(s) => s.done,
            None => false,
        }
    }

    pub open spec fn init(marker: Option<Seq<u8>>) -> PassState {
        PassState {
            scan: match marker {
                Some(m) => Some(sentinel::ScanState::init(m)),
                None => None,
            },
            exit_code: 0,
            stdin_open: true,
            reusable: marker is Some,
        }
    }

    /// The state after a chunk of output, and the bytes that go to the client.
    pub open spec fn output(self, chunk: Seq<u8>) -> (PassState, Seq<u8>) {
        match self.scan {
            Some(s) => (PassState { scan: Some(s.feed(chunk).0), ..self }, s.feed(chunk).1),
            None => (self, chunk),
        }
    }
}

/// The mathematical counterpart of [`PassAction`].
pub enum PassActionView {
    Nothing,
    Write(Seq<u8>),
    SendEof,
    WindowChange(u32, u32),
    Forward(Seq<u8>),
    Finish { exit_code: int, reusable: Option<Seq<u8>> },
}

impl View for PassAction {
    type V = PassActionView;

    open spec fn view(&self) -> PassActionView {
        match self {
            PassAction::Nothing => PassActionView::Nothing,
            PassAction::Write(data) => PassActionView::Write(data@),
            PassAction::SendEof => PassActionView::SendEof,
            PassAction::WindowChange(cols, rows) => PassActionView::WindowChange(*cols, *rows),
            PassAction::Forward(data) => PassActionView::Forward(data@),
            PassAction::Finish { exit_code, reusable } => PassActionView::Finish {
                exit_code: *exit_code as int,
                reusable: match reusable {
                    Some(pending) => Some(pending@),
                    None => None,
                },
            },
        }
    }
}

impl PassState {
    /// The end of a passthrough that leaves no usable terminal.
    pub open spec fn closed(self) -> PassActionView {
        PassActionView::Finish { exit_code: self.exit_code, reusable: None }
    }

    /// The end of a passthrough at the sentinel.
    pub open spec fn at_sentinel(self) -> PassActionView {
        PassActionView::Finish {
            exit_code: self.scan->0.code,
            reusable: if self.reusable {
                Some(self.scan->0.leftover)
            } else {
                None
            },
        }
    }

    /// What a chunk of output does.
    pub open spec fn on_data(self, chunk: Seq<u8>) -> (PassState, PassActionView) {
        let (state, out) = self.output(chunk);
        if self.scan is None || out.len() > 0 {
            (state, PassActionView::Forward(out))
        } else if state.found() {
            (state, state.at_sentinel())
        } else {
            (state, PassActionView::Nothing)
        }
    }
}

/// What an event does to a passthrough. Output that cannot be forwarded, input that cannot be
/// written and the end of the channel end it without a usable terminal.
pub open spec fn pass_step(state: PassState, event: PassEvent) -> (PassState, PassActionView) {
    match event {
        PassEvent::Stdin(data) => (state, PassActionView::Write(data@)),
        PassEvent::WriteFailed => (state, state.closed()),
        PassEvent::StdinClosed => (
            PassState { stdin_open: false, ..state },
            PassActionView::SendEof,
        ),
        PassEvent::Resize(cols, rows) => (state, PassActionView::WindowChange(cols, rows)),
        PassEvent::Forwarded(sent) => (
            state,
            if !sent {
                state.closed()
            } else if state.found() {
                state.at_sentinel()
            } else {
                PassActionView::Nothing
            },
        ),
        PassEvent::Message(message) => match message {
            None => (state, state.closed()),
            Some(ChannelMessage::Eof) => (state, state.closed()),
            Some(ChannelMessage::Close) => (state, state.closed()),
            Some(ChannelMessage::ExitStatus(status)) => (
                PassState { exit_code: (status as i32) as int, ..state },
                PassActionView::Nothing,
            ),
            Some(ChannelMessage::ExitSignal) => (
                PassState { exit_code: 255, reusable: false, ..state },
                PassActionView::Nothing,
            ),
            Some(ChannelMessage::Other) => (state, PassActionView::Nothing),
            Some(ChannelMessage::ExtendedData(data)) => (state, PassActionView::Forward(data@)),
            Some(ChannelMessage::Data(chunk)) => state.on_data(chunk@),
        },
    }
}

impl Passthrough {
    pub closed spec fn wf(&self) -> bool {
        self.done == self@.found()
    }

    /// Begin a passthrough. The pending bytes of the terminal go through the scanner
    /// too, or out as they are when no sentinel is awaited. The first part of the result
    /// is to be forwarded whatever comes of it; the second tells if that was all.
    pub fn start(marker: Option<Vec<u8>>, pending: Vec<u8>) -> (r: (
        Self,
        Vec<u8>,
        Option<PassAction>,
    ))
        ensures
            r.0.wf(),
            ({
                let m = match marker {
                    Some(m) => Some(m@),
                    None => None,
                };
                let (state, out) = PassState::init(m).output(pending@);
                &&& r.1@ == out
                &&& r.2 is Some <==> state.found()
                &&& r.2 matches Some(action) ==> action@ == state.at_sentinel()
                &&& r.2 is None ==> r.0@ == state
            }),
    {
        let reusable = marker.is_some();
        match marker {
            Some(m) => {
                let mut scanner = SentinelScanner::new(m);
                let (forward, done) = scanner.feed(pending.as_slice());
                let code: i32 = scanner.exit_code();
                let end = if done {
                    Some(
                        PassAction::Finish {
                            exit_code: code,
                            reusable: Some(scanner.take_leftover()),
                        },
                    )
                } else {
                    None
                };
                (
                    Passthrough {
                        scanner: Some(scanner),
                        exit_code: 0,
                        stdin_open: true,
                        reusable,
                        done,
                    },
                    forward,
                    end,
                )
            },
            None => (
                Passthrough {
                    scanner: None,
                    exit_code: 0,
                    stdin_open: true,
                    reusable,
                    done: false,
                },
                pending,
                None,
            ),
        }
    }

    /// Whether input is still read.
    pub fn is_stdin_open(&self) -> (r: bool)
        ensures
            r == self@.stdin_open,
    {
        self.stdin_open
    }

    /// The end at the sentinel.
    fn finish_found(&mut self) -> (r: PassAction)
        requires
            old(self).wf(),
            old(self)@.found(),
        ensures
            r@ == old(self)@.at_sentinel(),
    {
        match self.scanner.take() {
            Some(mut scanner) => {
                let code: i32 = scanner.exit_code();
                let leftover = scanner.take_leftover();
                self.exit_code = code;
                let reusable = if self.reusable {
                    Some(leftover)
                } else {
                    None
                };
                PassAction::Finish { exit_code: code, reusable }
            },
            None => PassAction::Nothing,
        }
    }

    /// Pass a chunk of output through the scanner.
    fn on_data(&mut self, chunk: Vec<u8>) -> (r: PassAction)
        requires
            old(self).wf(),
        ensures
            r@ == old(self)@.on_data(chunk@).1,
            !(r is Finish) ==> final(self)@ == old(self)@.on_data(chunk@).0 && final(self).wf(),
    {
        match self.scanner.take() {
            Some(mut scanner) => {
                let (forward, done) = scanner.feed(chunk.as_slice());
                self.scanner = Some(scanner);
                self.done = done;
                if forward.len() > 0 {
                    PassAction::Forward(forward)
                } else if done {
                    self.finish_found()
                } else {
                    PassAction::Nothing
                }
            },
            None => PassAction::Forward(chunk),
        }
    }

    /// Take one event. At the sentinel only the outcome of the last `Forward` is awaited.
    pub fn on_event(&mut self, event: PassEvent) -> (r: PassAction)
        requires
            old(self).wf(),
            event is Forwarded || !old(self)@.found(),
        ensures
            r@ == pass_step(old(self)@, event).1,
            !(r is Finish) ==> final(self)@ == pass_step(old(self)@, event).0 && final(self).wf(),
    {
        match event {
            PassEvent::Stdin(data) => PassAction::Write(data),
            PassEvent::WriteFailed => PassAction::Finish {
                exit_code: self.exit_code,
                reusable: None,
            },
            PassEvent::StdinClosed => {
                self.stdin_open = false;
                PassAction::SendEof
            },
            PassEvent::Resize(cols, rows) => PassAction::WindowChange(cols, rows),
            PassEvent::Forwarded(sent) => if !sent {
                PassAction::Finish { exit_code: self.exit_code, reusable: None }
            } else if self.done {
                self.finish_found()
            } else {
                PassAction::Nothing
            },
            PassEvent::Message(message) => match message {
                None => PassAction::Finish { exit_code: self.exit_code, reusable: None },
                Some(ChannelMessage::Eof) => PassAction::Finish {
                    exit_code: self.exit_code,
                    reusable: None,
                },
                Some(ChannelMessage::Close) => PassAction::Finish {
                    exit_code: self.exit_code,
                    reusable: None,
                },
                Some(ChannelMessage::ExitStatus(status)) => {
                    self.exit_code = #[verifier::truncate] (status as i32);
                    PassAction::Nothing
                },
                Some(ChannelMessage::ExitSignal) => {
                    self.exit_code = 255;
                    self.reusable = false;
                    PassAction::Nothing
                },
                Some(ChannelMessage::Other) => PassAction::Nothing,
                Some(ChannelMessage::ExtendedData(data)) => PassAction::Forward(data),
                Some(ChannelMessage::Data(chunk)) => self.on_data(chunk),
            },
        }
    }
}

// ---------------------------------------------------------------------------
// Transparency
// ---------------------------------------------------------------------------
/// Where a sequence of events leads a passthrough, none once it is over, and the actions on
/// the way. Events behind its end are not read.
pub open spec fn pass_run(state: PassState, events: Seq<PassEvent>) -> (
    Option<PassState>,
    Seq<PassActionView>,
)
    decreases events.len(),
{
    if events.len() == 0 {
        (Some(state), Seq::empty())
    } else {
        let (mid, actions) = pass_run(state, events.drop_last());
        match mid {
            None => (None, actions),
            Some(s) => {
                let (next, action) = pass_step(s, events.last());
                (
                    if action is Finish {
                        None
                    } else {
                        Some(next)
                    },
                    actions.push(action),
                )
            },
        }
    }
}

/// The input that comes before the end of a passthrough.
pub open spec fn typed(state: PassState, events: Seq<PassEvent>) -> Seq<u8>
    decreases events.len(),
{
    if events.len() == 0 {
        Seq::empty()
    } else {
        typed(state, events.drop_last()) + match events.last() {
            PassEvent::Stdin(data) if pass_run(state, events.drop_last()).0 is Some => data@,
            _ => Seq::empty(),
        }
    }
}

/// The chunks of output that come before the end of a passthrough.
pub open spec fn output_chunks(state: PassState, events: Seq<PassEvent>) -> Seq<Seq<u8>>
    decreases events.len(),
{
    if events.len() == 0 {
        Seq::empty()
    } else {
        let before = output_chunks(state, events.drop_last());
        match events.last() {
            PassEvent::Message(Some(ChannelMessage::Data(chunk))) => if pass_run(
                state,
                events.drop_last(),
            ).0 is Some {
                before.push(chunk@)
            } else {
                before
            },
            _ => before,
        }
    }
}

/// The bytes that some actions write to the terminal.
pub open spec fn written(actions: Seq<PassActionView>) -> Seq<u8>
    decreases actions.len(),
{
    if actions.len() == 0 {
        Seq::empty()
    } else {
        written(actions.drop_last()) + match actions.last() {
            PassActionView::Write(data) => data,
            _ => Seq::empty(),
        }
    }
}

/// The bytes that some actions forward to the client.
pub open spec fn forwarded(actions: Seq<PassActionView>) -> Seq<u8>
    decreases actions.len(),
{
    if actions.len() == 0 {
        Seq::empty()
    } else {
        forwarded(actions.drop_last()) + match actions.last() {
            PassActionView::Forward(data) => data,
            _ => Seq::empty(),
        }
    }
}

/// No event brings bytes of the error stream.
pub open spec fn no_extended_data(events: Seq<PassEvent>) -> bool {
    forall|i: int|
        0 <= i < events.len() ==> !((#[trigger] events[i]) matches PassEvent::Message(
            Some(ChannelMessage::ExtendedData(_)),
        ))
}

/// A passthrough writes exactly the client's input to the terminal. What it forwards, beginning
/// with the pending bytes, is the terminal's output byte for byte or, where a sentinel is
/// awaited, what a scanner for it lets through of that output. (A remote terminal has one
/// stream; bytes of an error stream are forwarded as they come.)
pub proof fn law_passthrough_is_transparent(
    marker: Option<Seq<u8>>,
    pending: Seq<u8>,
    events: Seq<PassEvent>,
)
    ensures
        ({
            let (start, first) = PassState::init(marker).output(pending);
            let (end, actions) = pass_run(start, events);
            let chunks = seq![pending] + output_chunks(start, events);
            &&& written(actions) == typed(start, events)
            &&& no_extended_data(events) ==> match marker {
                None => first + forwarded(actions) == sentinel::stream(chunks),
                Some(m) => {
                    &&& first + forwarded(actions) == sentinel::scan_all(m, chunks).1
                    &&& end matches Some(s) ==> s.scan == Some(sentinel::scan_all(m, chunks).0)
                },
            }
        }),
    decreases events.len(),
{
    let (start, first) = PassState::init(marker).output(pending);
    let (end, actions) = pass_run(start, events);
    let chunks = seq![pending] + output_chunks(start, events);
    if events.len() == 0 {
        assert(chunks =~= seq![pending]);
        assert(chunks.drop_last() =~= Seq::<Seq<u8>>::empty());
        assert(sentinel::stream(chunks.drop_last()) =~= Seq::<u8>::empty());
        assert(sentinel::stream(chunks) =~= pending);
        assert(first + forwarded(actions) =~= first);
        if let Some(m) = marker {
            assert(sentinel::scan_all(m, chunks.drop_last()).0 == sentinel::ScanState::init(m));
            assert(sentinel::scan_all(m, chunks).1 =~= first);
        }
    } else {
        let before = events.drop_last();
        let event = events.last();
        let (mid, done) = pass_run(start, before);
        let old_chunks = seq![pending] + output_chunks(start, before);
        law_passthrough_is_transparent(marker, pending, before);
        lemma_scans(marker, pending, before);
        if no_extended_data(events) {
            assert forall|i: int| 0 <= i < before.len() implies !((#[trigger] before[i])
                matches PassEvent::Message(Some(ChannelMessage::ExtendedData(_)))) by {
                assert(before[i] == events[i]);
            }
            assert(events[events.len() - 1] == event);
        }
        match mid {
            None => {
                assert(typed(start, events) =~= typed(start, before));
                assert(chunks =~= old_chunks);
            },
            Some(s) => {
                let action = pass_step(s, event).1;
                assert(actions == done.push(action));
                assert(actions.drop_last() =~= done);
                assert(written(actions) =~= typed(start, events));
                match event {
                    PassEvent::Message(Some(ChannelMessage::Data(chunk))) => {
                        let (next, out) = s.output(chunk@);
                        assert(chunks =~= old_chunks.push(chunk@));
                        assert(chunks.drop_last() =~= old_chunks);
                        assert(forwarded(actions) =~= forwarded(done) + out);
                        assert(first + forwarded(actions) =~= first + forwarded(done) + out);
                    },
                    _ => {
                        assert(chunks =~= old_chunks);
                        if no_extended_data(events) {
                            assert(forwarded(actions) =~= forwarded(done));
                        }
                    },
                }
            },
        }
    }
}

/// A passthrough has a scanner exactly where a sentinel is awaited.
proof fn lemma_scans(marker: Option<Seq<u8>>, pending: Seq<u8>, events: Seq<PassEvent>)
    ensures
        pass_run(PassState::init(marker).output(pending).0, events).0 matches Some(s) ==> (s.scan
            is Some <==> marker is Some),
    decreases events.len(),
{
    if events.len() > 0 {
        lemma_scans(marker, pending, events.drop_last());
    }
}

/// The wrapped command runs the command first, and then prints the marker, a colon and the
/// command's status on a line of their own.
pub proof fn law_wrapped_command_prints_its_status(command: Seq<char>, marker: Seq<char>)
    requires
        !marker.contains('\''),
    ensures
        exists|tail: Seq<char>|
            {
                &&& wrapped_command(command, marker) == "{ "@ + command + "; }; "@ + tail
                &&& #[trigger] shell::shell_words(tail) == Some(
                    seq!["status=$?;"@, "printf"@, marker + ":%s\\n"@, "\"$status\""@],
                )
            },
{
    let prefix = "status=$?; printf "@;
    let word = marker + ":%s\\n"@;
    let last = " \"$status\""@;
    reveal_strlit("{ ");
    reveal_strlit("; }; ");
    reveal_strlit("; }; status=$?; printf '");
    reveal_strlit("status=$?; printf ");
    reveal_strlit("status=$?;");
    reveal_strlit("printf");
    reveal_strlit(":%s\\n' \"$status\"");
    reveal_strlit(":%s\\n");
    reveal_strlit(" \"$status\"");
    reveal_strlit("\"$status\"");
    reveal_strlit("'");
    assert("'"@ =~= seq!['\'']);
    let tail = prefix + ("'"@ + word + "'"@) + last;
    assert(wrapped_command(command, marker) =~= "{ "@ + command + "; }; "@ + tail);
    assert forall|i: int| 0 <= i < word.len() implies word[i] != '\'' by {
        if i < marker.len() {
            assert(marker.contains(marker[i]));
        }
    }
    shell::lemma_plain_is_kept(word);
    assert("'"@ + word + "'"@ =~= shell::quoted(word));
    let first = "status=$?;"@;
    let second = "printf"@;
    let fourth = "\"$status\""@;
    let space = seq![' '];
    assert(tail =~= first + space + second + space + shell::quoted(word) + space + fourth);
    shell::lemma_reads_four(first, second, word, fourth);
    assert(shell::shell_words(tail) == Some(seq![first, second, word, fourth]));
}

/// The code that the messages of a channel tell: the last one counts, and a signal is told as
/// a code of its own.
pub open spec fn told_code(code: int, events: Seq<PassEvent>) -> int
    decreases events.len(),
{
    if events.len() == 0 {
        code
    } else {
        match events.last() {
            PassEvent::Message(Some(ChannelMessage::ExitStatus(status))) => (status as i32) as int,
            PassEvent::Message(Some(ChannelMessage::ExitSignal)) => 255,
            _ => told_code(code, events.drop_last()),
        }
    }
}

/// The output has ended, or cannot be forwarded any more.
pub open spec fn breaks_off(event: PassEvent) -> bool {
    match event {
        PassEvent::WriteFailed => true,
        PassEvent::Forwarded(sent) => !sent,
        PassEvent::Message(None) => true,
        PassEvent::Message(Some(ChannelMessage::Eof)) => true,
        PassEvent::Message(Some(ChannelMessage::Close)) => true,
        _ => false,
    }
}

/// Each event of a session is answered as it is: what is typed is written, the end of the input
/// and each new size are passed on, what the command writes is forwarded, errors too. A session
/// that breaks off ends with the last code that was told, and its shell is not used again.
pub proof fn law_passthrough_answers_each_event(state: PassState, events: Seq<PassEvent>, i: int)
    requires
        0 <= i < pass_run(state, events).1.len(),
    ensures
        i < events.len(),
        ({
            let action = pass_run(state, events).1[i];
            let event = events[i];
            &&& event matches PassEvent::Stdin(data) ==> action == PassActionView::Write(data@)
            &&& event is StdinClosed ==> action is SendEof
            &&& event matches PassEvent::Resize(cols, rows) ==> action
                == PassActionView::WindowChange(cols, rows)
            &&& event matches PassEvent::Message(Some(ChannelMessage::ExtendedData(data)))
                ==> action == PassActionView::Forward(data@)
            &&& event matches PassEvent::Message(Some(ChannelMessage::Data(data))) ==> (state.scan
                is None ==> action == PassActionView::Forward(data@))
            &&& breaks_off(event) ==> action == (PassActionView::Finish {
                exit_code: told_code(state.exit_code, events.take(i)),
                reusable: None,
            })
            &&& action is Finish ==> i == pass_run(state, events).1.len() - 1 && (state.scan
                is None ==> breaks_off(event))
        }),
    decreases events.len(),
{
    if events.len() > 0 {
        let init = events.drop_last();
        lemma_pass_run(state, init);
        let (mid, actions) = pass_run(state, init);
        if i < actions.len() {
            law_passthrough_answers_each_event(state, init, i);
            assert(init.take(i) =~= events.take(i));
        } else {
            assert(events.take(i) =~= init);
        }
        if i < actions.len() && actions[i] is Finish {
            assert(mid is None);
        }
    }
}

proof fn lemma_pass_run(state: PassState, events: Seq<PassEvent>)
    ensures
        ({
            let (end, actions) = pass_run(state, events);
            &&& actions.len() <= events.len()
            &&& end matches Some(s) ==> {
                &&& actions.len() == events.len()
                &&& s.exit_code == told_code(state.exit_code, events)
                &&& s.scan is None == state.scan is None
            }
            &&& end is None ==> actions.len() > 0 && actions.last() is Finish
            &&& forall|i: int|
                0 <= i < actions.len() && (#[trigger] actions[i]) is Finish ==> end is None && i
                    == actions.len() - 1
        }),
    decreases events.len(),
{
    if events.len() > 0 {
        lemma_pass_run(state, events.drop_last());
    }
}

/// A session whose marker was seen ends with the code behind it. Its shell is used again, with
/// what followed the marker, unless a signal ended the command.
pub proof fn law_marked_session_ends_with_its_code(state: PassState, chunk: Seq<u8>)
    requires
        state.scan is Some,
        !state.found(),
        state.scan->0.feed(chunk).0.done,
    ensures
        ({
            let seen = state.scan->0.feed(chunk).0;
            let end = PassActionView::Finish {
                exit_code: seen.code,
                reusable: if state.reusable {
                    Some(seen.leftover)
                } else {
                    None
                },
            };
            let (next, action) = state.on_data(chunk);
            if state.scan->0.feed(chunk).1.len() == 0 {
                action == end
            } else {
                &&& action == PassActionView::Forward(state.scan->0.feed(chunk).1)
                &&& pass_step(next, PassEvent::Forwarded(true)).1 == end
            }
        }),
{
}

/// A signal ends the use of a shell, nothing else does; a session without a marker never has
/// one.
pub proof fn law_signalled_shells_are_not_used_again(marker: Option<Seq<u8>>, event: PassEvent)
    ensures
        PassState::init(marker).reusable == marker is Some,
        forall|s: PassState| #[trigger]
            pass_step(s, event).0.reusable == (s.reusable && !(event matches PassEvent::Message(
                Some(ChannelMessage::ExitSignal),
            ))),
{
}

/// What is stated of a [`PassAction`] is stated of its own parts: each kind is seen as that
/// kind, with all that it holds.
pub proof fn law_pass_action_is_seen_as_it_is(value: PassAction)
    ensures
        ({
            let seen = value@;
            match value {
                PassAction::Nothing => seen == PassActionView::Nothing,
                PassAction::Write(data) => seen == PassActionView::Write(data@),
                PassAction::SendEof => seen == PassActionView::SendEof,
                PassAction::WindowChange(cols, rows) => seen == PassActionView::WindowChange(cols, rows),
                PassAction::Forward(data) => seen == PassActionView::Forward(data@),
                PassAction::Finish { exit_code, reusable } => seen == (PassActionView::Finish {
                    exit_code: exit_code as int,
                    reusable: match reusable {
                        Some(pending) => Some(pending@),
                        None => None,
                    },
                }),
            }
        }),
{
}

} // verus!
