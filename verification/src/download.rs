//! Downloads over SFTP: a walk over remote files that is told as frames.
use crate::lists;
use crate::lists::{one, two};
use crate::paths;
use crate::paths::remote_source_name;
use crate::text;
use crate::text::{concat3, starts_with};
use crate::transfer;
use crate::transfer::{CopyFrame, FrameView};
use vstd::prelude::*;

verus! {

// ---------------------------------------------------------------------------
// Entries
// ---------------------------------------------------------------------------
/// What a remote entry is.
#[derive(Clone, Copy, Debug, PartialEq, Eq, Structural)]
pub enum EntryKind {
    Directory,
    Symlink,
    Regular,
    Other,
}

/// What the remote side tells of an entry.
#[derive(Clone, Copy, Debug, PartialEq, Eq, Structural)]
pub struct EntryInfo {
    pub kind: EntryKind,
    pub permissions: Option<u32>,
    pub size: u64,
    pub mtime: Option<u32>,
}

/// An entry that is to be sent.
#[derive(Debug)]
pub struct Entry {
    pub remote: String,
    pub relative: String,
    pub info: EntryInfo,
}

/// The mathematical counterpart of [`Entry`].
#[verifier::ext_equal]
pub struct EntryView {
    pub remote: Seq<char>,
    pub relative: Seq<char>,
    pub info: EntryInfo,
}

impl View for Entry {
    type V = EntryView;

    open spec fn view(&self) -> EntryView {
        EntryView { remote: self.remote@, relative: self.relative@, info: self.info }
    }
}

/// The path of an entry of a directory. A name that is a whole path stands for itself.
pub open spec fn entry_path(dir: Seq<char>, name: Seq<char>) -> Seq<char> {
    if text::begins(name, "/"@) {
        name
    } else {
        paths::step_into(dir, name)
    }
}

/// The path of an entry of a directory.
pub fn join_entry(dir: &str, name: &str) -> (r: String)
    ensures
        r@ == entry_path(dir@, name@),
{
    if starts_with(name, "/") {
        return name.to_owned();
    }
    if dir.is_empty() {
        return name.to_owned();
    }
    let v = text::to_chars(dir);
    if v[v.len() - 1] == '/' {
        let mut r = dir.to_owned();
        r.append(name);
        r
    } else {
        concat3(dir, "/", name)
    }
}

/// The name stands for the directory itself or the one above.
pub open spec fn is_dots(name: Seq<char>) -> bool {
    name == "."@ || name == ".."@
}

/// Whether an entry of a directory stands for the directory itself or the one above.
pub fn is_dot_entry(name: &str) -> (r: bool)
    ensures
        r == is_dots(name@),
{
    text::same(name, ".") || text::same(name, "..")
}

/// A line of a directory's listing.
#[derive(Debug)]
pub struct Listed {
    pub name: String,
    pub info: EntryInfo,
}

/// The entries of a directory, the first one on top, without those for the directory itself
/// and the one above.
pub open spec fn entries_of(dir: EntryView, listing: Seq<Listed>) -> Seq<EntryView>
    decreases listing.len(),
{
    if listing.len() == 0 {
        Seq::empty()
    } else {
        let rest = entries_of(dir, listing.skip(1));
        let name = listing[0].name@;
        if is_dots(name) {
            rest
        } else {
            rest.push(
                EntryView {
                    remote: entry_path(dir.remote, name),
                    relative: entry_path(dir.relative, name),
                    info: listing[0].info,
                },
            )
        }
    }
}

// ---------------------------------------------------------------------------
// The walk
// ---------------------------------------------------------------------------
/// What happens during a download.
pub enum WalkEvent {
    /// What the remote path is.
    Stat(Result<EntryInfo, String>),
    Listing(Result<Vec<Listed>, String>),
    Link(Result<String, String>),
    Opened(Result<(), String>),
    /// The next bytes of the open file; none at its end.
    Read(Result<Vec<u8>, String>),
    /// A frame could not be sent.
    SendFailed,
}

/// What to do in a download, in order.
pub enum WalkAction {
    /// Send the frame. If that fails, drop the actions behind it and say so.
    Send(CopyFrame),
    ReadDir(String),
    ReadLink(String),
    Open(String),
    /// Read some bytes of the open file.
    Read,
    Finish,
    Fail(String),
}

/// The mathematical counterpart of [`WalkAction`].
pub enum WalkActionView {
    Send(FrameView),
    ReadDir(Seq<char>),
    ReadLink(Seq<char>),
    Open(Seq<char>),
    Read,
    Finish,
    Fail(Seq<char>),
}

impl View for WalkAction {
    type V = WalkActionView;

    open spec fn view(&self) -> WalkActionView {
        match self {
            WalkAction::Send(f) => WalkActionView::Send(f@),
            WalkAction::ReadDir(p) => WalkActionView::ReadDir(p@),
            WalkAction::ReadLink(p) => WalkActionView::ReadLink(p@),
            WalkAction::Open(p) => WalkActionView::Open(p@),
            WalkAction::Read => WalkActionView::Read,
            WalkAction::Finish => WalkActionView::Finish,
            WalkAction::Fail(e) => WalkActionView::Fail(e@),
        }
    }
}

/// What a download waits for.
pub enum WalkPhase {
    /// What the remote path is.
    Root(String),
    /// The entries of this directory.
    Listing(Entry),
    /// The target of this link.
    Linking(Entry),
    /// This file to be opened.
    Opening(Entry),
    Reading,
    /// The outcome stands, unless a frame before it cannot be sent.
    Ending,
    Over,
}

/// The mathematical counterpart of [`WalkPhase`].
pub enum WalkPhaseView {
    Root(Seq<char>),
    Listing(EntryView),
    Linking(EntryView),
    Opening(EntryView),
    Reading,
    Ending,
    Over,
}

impl View for WalkPhase {
    type V = WalkPhaseView;

    open spec fn view(&self) -> WalkPhaseView {
        match self {
            WalkPhase::Root(p) => WalkPhaseView::Root(p@),
            WalkPhase::Listing(e) => WalkPhaseView::Listing(e@),
            WalkPhase::Linking(e) => WalkPhaseView::Linking(e@),
            WalkPhase::Opening(e) => WalkPhaseView::Opening(e@),
            WalkPhase::Reading => WalkPhaseView::Reading,
            WalkPhase::Ending => WalkPhaseView::Ending,
            WalkPhase::Over => WalkPhaseView::Over,
        }
    }
}

/// The state of a download: what is still to be sent has its next entry on top.
pub struct WalkState {
    pub recursive: bool,
    pub stack: Seq<EntryView>,
    pub phase: WalkPhaseView,
}

impl WalkState {
    pub open spec fn at(self, phase: WalkPhaseView) -> WalkState {
        WalkState { phase, ..self }
    }

    /// The download fails.
    pub open spec fn fail(self, error: Seq<char>) -> (WalkState, Seq<WalkActionView>) {
        (self.at(WalkPhaseView::Over), seq![WalkActionView::Fail(error)])
    }

    /// Begin with an entry.
    pub open spec fn visit(self, e: EntryView) -> (WalkState, Seq<WalkActionView>) {
        match e.info.kind {
            EntryKind::Directory => (
                self.at(WalkPhaseView::Listing(e)),
                seq![
                    WalkActionView::Send(
                        FrameView::BeginDirectory {
                            relative_path: e.relative,
                            mode: 0,
                            mtime: 0,
                        },
                    ),
                    WalkActionView::ReadDir(e.remote),
                ],
            ),
            EntryKind::Symlink => (
                self.at(WalkPhaseView::Linking(e)),
                seq![WalkActionView::ReadLink(e.remote)],
            ),
            EntryKind::Regular => (
                self.at(WalkPhaseView::Opening(e)),
                seq![
                    WalkActionView::Send(
                        FrameView::BeginFile {
                            relative_path: e.relative,
                            mode: match e.info.permissions {
                                Some(p) => p,
                                None => 0,
                            },
                            size: e.info.size,
                            mtime: match e.info.mtime {
                                Some(t) => t as i64,
                                None => 0,
                            },
                        },
                    ),
                    WalkActionView::Open(e.remote),
                ],
            ),
            EntryKind::Other => (
                self.at(WalkPhaseView::Ending),
                seq![WalkActionView::Fail("unsupported remote file type for copy: "@ + e.remote)],
            ),
        }
    }

    /// Go on with the next entry, or end.
    pub open spec fn advance(self) -> (WalkState, Seq<WalkActionView>) {
        if self.stack.len() == 0 {
            (
                self.at(WalkPhaseView::Ending),
                seq![WalkActionView::Send(FrameView::EndOfStream), WalkActionView::Finish],
            )
        } else {
            WalkState { stack: self.stack.drop_last(), ..self }.visit(self.stack.last())
        }
    }

    /// Send a frame and go on with the next entry.
    pub open spec fn send_and_advance(self, frame: FrameView) -> (WalkState, Seq<WalkActionView>) {
        (self.advance().0, seq![WalkActionView::Send(frame)] + self.advance().1)
    }
}

/// What an event does to a download. An event that the phase does not wait for does nothing.
pub open spec fn walk_step(s: WalkState, event: WalkEvent) -> (WalkState, Seq<WalkActionView>) {
    let idle = (s, Seq::<WalkActionView>::empty());
    match (s.phase, event) {
        (WalkPhaseView::Over, _) => idle,
        (_, WalkEvent::SendFailed) => s.fail("download copy frame stream closed"@),
        (WalkPhaseView::Root(path), WalkEvent::Stat(r)) => match r {
            Err(_) => s.fail("failed to stat remote path "@ + path),
            Ok(info) => if info.kind == EntryKind::Directory && !s.recursive {
                s.fail("copying a remote directory requires -r"@)
            } else {
                s.visit(
                    EntryView {
                        remote: path,
                        relative: if info.kind == EntryKind::Directory {
                            Seq::empty()
                        } else {
                            paths::basename_or(path, "download"@)
                        },
                        info,
                    },
                )
            },
        },
        (WalkPhaseView::Listing(dir), WalkEvent::Listing(r)) => match r {
            Err(_) => s.fail("failed to read remote dir "@ + dir.remote),
            Ok(listing) => WalkState {
                stack: s.stack + entries_of(dir, listing@),
                ..s
            }.advance(),
        },
        (WalkPhaseView::Linking(e), WalkEvent::Link(r)) => match r {
            Err(_) => s.fail("failed to read remote symlink "@ + e.remote),
            Ok(target) => s.send_and_advance(
                FrameView::Symlink { relative_path: e.relative, target: target@ },
            ),
        },
        (WalkPhaseView::Opening(e), WalkEvent::Opened(r)) => match r {
            Err(_) => s.fail("failed to open remote "@ + e.remote),
            Ok(_) => (s.at(WalkPhaseView::Reading), seq![WalkActionView::Read]),
        },
        (WalkPhaseView::Reading, WalkEvent::Read(r)) => match r {
            Err(e) => s.fail(e@),
            Ok(data) => if data@.len() == 0 {
                s.send_and_advance(FrameView::EndFile)
            } else {
                (
                    s,
                    seq![
                        WalkActionView::Send(FrameView::FileData { data: data@ }),
                        WalkActionView::Read,
                    ],
                )
            },
        },
        _ => idle,
    }
}

/// A download.
pub struct Walk {
    recursive: bool,
    stack: Vec<Entry>,
    phase: WalkPhase,
}

impl View for Walk {
    type V = WalkState;

    closed spec fn view(&self) -> WalkState {
        WalkState {
            recursive: self.recursive,
            stack: lists::views(self.stack@),
            phase: self.phase@,
        }
    }
}

impl Walk {
    /// A download of a remote path. What it is has to be found out first.
    pub fn new(remote_path: String, recursive: bool) -> (r: Self)
        ensures
            r@ == (WalkState {
                recursive,
                stack: Seq::empty(),
                phase: WalkPhaseView::Root(remote_path@),
            }),
    {
        let r = Walk { recursive, stack: Vec::new(), phase: WalkPhase::Root(remote_path) };
        assert(r@.stack =~= Seq::<EntryView>::empty());
        r
    }

    fn fail(&mut self, error: String) -> (r: Vec<WalkAction>)
        ensures
            (final(self)@, lists::views(r@)) == old(self)@.fail(error@),
    {
        self.phase = WalkPhase::Over;
        let r = one(WalkAction::Fail(error));
        assert(lists::views(r@) =~= seq![WalkActionView::Fail(error@)]);
        r
    }

    fn fail_at(&mut self, what: &str, path: &str) -> (r: Vec<WalkAction>)
        ensures
            (final(self)@, lists::views(r@)) == old(self)@.fail(what@ + path@),
    {
        let mut e = what.to_owned();
        e.append(path);
        self.fail(e)
    }

    fn visit(&mut self, e: Entry) -> (r: Vec<WalkAction>)
        ensures
            (final(self)@, lists::views(r@)) == old(self)@.visit(e@),
    {
        let ghost wanted = self@.visit(e@).1;
        let r = match e.info.kind {
            EntryKind::Directory => {
                let begin = CopyFrame::BeginDirectory {
                    relative_path: e.relative.clone(),
                    mode: 0,
                    mtime: 0,
                };
                let path = e.remote.clone();
                self.phase = WalkPhase::Listing(e);
                two(WalkAction::Send(begin), WalkAction::ReadDir(path))
            },
            EntryKind::Symlink => {
                let path = e.remote.clone();
                self.phase = WalkPhase::Linking(e);
                one(WalkAction::ReadLink(path))
            },
            EntryKind::Regular => {
                let begin = CopyFrame::BeginFile {
                    relative_path: e.relative.clone(),
                    mode: match e.info.permissions {
                        Some(p) => p,
                        None => 0,
                    },
                    size: e.info.size,
                    mtime: match e.info.mtime {
                        Some(t) => t as i64,
                        None => 0,
                    },
                };
                let path = e.remote.clone();
                self.phase = WalkPhase::Opening(e);
                two(WalkAction::Send(begin), WalkAction::Open(path))
            },
            EntryKind::Other => {
                let r = self.fail_at(
                    "unsupported remote file type for copy: ",
                    e.remote.as_str(),
                );
                self.phase = WalkPhase::Ending;
                r
            },
        };
        assert(lists::views(r@) =~= wanted);
        r
    }

    fn advance(&mut self) -> (r: Vec<WalkAction>)
        ensures
            (final(self)@, lists::views(r@)) == old(self)@.advance(),
    {
        let ghost before = self@;
        match self.stack.pop() {
            None => {
                self.phase = WalkPhase::Ending;
                let r = two(WalkAction::Send(CopyFrame::EndOfStream), WalkAction::Finish);
                assert(lists::views(r@) =~= before.advance().1);
                assert(self@.stack =~= before.stack);
                r
            },
            Some(e) => {
                assert(e@ == before.stack.last());
                assert(self@.stack =~= before.stack.drop_last());
                self.visit(e)
            },
        }
    }

    fn send_and_advance(&mut self, frame: CopyFrame) -> (r: Vec<WalkAction>)
        ensures
            (final(self)@, lists::views(r@)) == old(self)@.send_and_advance(frame@),
    {
        let ghost wanted = self@.send_and_advance(frame@).1;
        let mut r = one(WalkAction::Send(frame));
        let ghost first = r@;
        let mut more = self.advance();
        let ghost second = more@;
        r.append(&mut more);
        assert(lists::views(r@) =~= lists::views(first) + lists::views(second));
        assert(lists::views(r@) =~= wanted);
        r
    }

    /// Put the entries of a directory on the stack.
    #[verifier::loop_isolation(false)]
    fn push_entries(&mut self, dir: &Entry, listing: &Vec<Listed>)
        ensures
            final(self)@ == (WalkState {
                stack: old(self)@.stack + entries_of(dir@, listing@),
                ..old(self)@
            }),
    {
        let ghost before = self@;
        let mut i: usize = listing.len();
        assert(listing@.skip(listing@.len() as int) =~= Seq::<Listed>::empty());
        assert(self@.stack =~= before.stack + entries_of(dir@, listing@.skip(i as int)));
        while i > 0
            invariant
                i <= listing.len(),
                self@ == (WalkState {
                    stack: before.stack + entries_of(dir@, listing@.skip(i as int)),
                    ..before
                }),
            decreases i,
        {
            i -= 1;
            let line = &listing[i];
            let ghost rest = listing@.skip(i as int);
            let ghost stack = self@.stack;
            assert(rest.skip(1) =~= listing@.skip(i + 1));
            assert(rest[0] == *line);
            if !is_dot_entry(line.name.as_str()) {
                let entry = Entry {
                    remote: join_entry(dir.remote.as_str(), line.name.as_str()),
                    relative: join_entry(dir.relative.as_str(), line.name.as_str()),
                    info: line.info,
                };
                let ghost e = entry@;
                self.stack.push(entry);
                assert(self@.stack =~= stack.push(e));
                assert(self@.stack =~= before.stack + entries_of(dir@, rest));
            }
        }
        assert(listing@.skip(0) =~= listing@);
    }

    fn on_root(&mut self, path: String, stat: Result<EntryInfo, String>) -> (r: Vec<WalkAction>)
        requires
            old(self)@.phase == WalkPhaseView::Over,
        ensures
            (final(self)@, lists::views(r@)) == walk_step(
                old(self)@.at(WalkPhaseView::Root(path@)),
                WalkEvent::Stat(stat),
            ),
    {
        match stat {
            Err(_) => self.fail_at("failed to stat remote path ", path.as_str()),
            Ok(info) => {
                if info.kind == EntryKind::Directory && !self.recursive {
                    self.fail("copying a remote directory requires -r".to_owned())
                } else {
                    let relative = if info.kind == EntryKind::Directory {
                        let none = String::new();
                        assert(none@ =~= Seq::<char>::empty());
                        none
                    } else {
                        remote_source_name(path.as_str())
                    };
                    self.visit(Entry { remote: path, relative, info })
                }
            },
        }
    }

    /// Take one event.
    pub fn on_event(&mut self, event: WalkEvent) -> (r: Vec<WalkAction>)
        ensures
            (final(self)@, lists::views(r@)) == walk_step(old(self)@, event),
    {
        let nothing: Vec<WalkAction> = Vec::new();
        assert(lists::views(nothing@) =~= Seq::<WalkActionView>::empty());
        let ghost before = self@;
        let mut phase = WalkPhase::Over;
        std::mem::swap(&mut self.phase, &mut phase);
        match (phase, event) {
            (WalkPhase::Over, _) => nothing,
            (_, WalkEvent::SendFailed) => self.fail("download copy frame stream closed".to_owned()),
            (WalkPhase::Root(path), WalkEvent::Stat(stat)) => self.on_root(path, stat),
            (WalkPhase::Listing(dir), WalkEvent::Listing(listing)) => match listing {
                Err(_) => self.fail_at("failed to read remote dir ", dir.remote.as_str()),
                Ok(listing) => {
                    self.push_entries(&dir, &listing);
                    self.advance()
                },
            },
            (WalkPhase::Linking(e), WalkEvent::Link(link)) => match link {
                Err(_) => self.fail_at("failed to read remote symlink ", e.remote.as_str()),
                Ok(target) => self.send_and_advance(
                    CopyFrame::Symlink { relative_path: e.relative, target },
                ),
            },
            (WalkPhase::Opening(e), WalkEvent::Opened(opened)) => match opened {
                Err(_) => self.fail_at("failed to open remote ", e.remote.as_str()),
                Ok(_) => {
                    self.phase = WalkPhase::Reading;
                    let r = one(WalkAction::Read);
                    assert(lists::views(r@) =~= seq![WalkActionView::Read]);
                    r
                },
            },
            (WalkPhase::Reading, WalkEvent::Read(read)) => match read {
                Err(e) => self.fail(e),
                Ok(data) => if data.len() == 0 {
                    self.send_and_advance(CopyFrame::EndFile)
                } else {
                    self.phase = WalkPhase::Reading;
                    let ghost bytes = data@;
                    let r = two(
                        WalkAction::Send(CopyFrame::FileData { data }),
                        WalkAction::Read,
                    );
                    assert(lists::views(r@) =~= seq![
                        WalkActionView::Send(FrameView::FileData { data: bytes }),
                        WalkActionView::Read,
                    ]);
                    r
                },
            },
            (phase, _) => {
                self.phase = phase;
                nothing
            },
        }
    }
}

// ---------------------------------------------------------------------------
// What holds of every download
// ---------------------------------------------------------------------------
/// Where a sequence of events leads a download, and the actions on the way.
pub open spec fn walk_run(start: WalkState, events: Seq<WalkEvent>) -> (
    WalkState,
    Seq<WalkActionView>,
)
    decreases events.len(),
{
    if events.len() == 0 {
        (start, Seq::empty())
    } else {
        let (mid, actions) = walk_run(start, events.drop_last());
        let (next, more) = walk_step(mid, events.last());
        (next, actions + more)
    }
}

/// The frames that some actions send.
pub open spec fn sent(actions: Seq<WalkActionView>) -> Seq<Option<FrameView>>
    decreases actions.len(),
{
    if actions.len() == 0 {
        Seq::empty()
    } else {
        match actions.last() {
            WalkActionView::Send(f) => sent(actions.drop_last()).push(Some(f)),
            _ => sent(actions.drop_last()),
        }
    }
}

/// No action of an upload fails.
pub open spec fn no_failure(actions: Seq<transfer::UploadActionView>) -> bool {
    forall|i: int| 0 <= i < actions.len() ==> !((#[trigger] actions[i]) is Fail)
}

/// Where an upload stands that is given the frames of a download so far.
pub open spec fn in_step(s: WalkState, u: transfer::Upload) -> bool {
    &&& u.recursive == s.recursive
    &&& !(s.phase is Over || s.phase is Ending) ==> !u.over && u.file_open == (s.phase is Opening
        || s.phase is Reading)
    &&& s.phase is Listing ==> s.recursive
    &&& s.stack.len() > 0 ==> s.recursive
}

/// A single action, given to an upload as far as it sends anything.
proof fn lemma_send(start: transfer::Upload, actions: Seq<WalkActionView>, a: WalkActionView)
    ensures
        ({
            let (u, done) = transfer::upload_run(start, sent(actions));
            let (next, all) = transfer::upload_run(start, sent(actions.push(a)));
            match a {
                WalkActionView::Send(f) => {
                    let (v, more) = transfer::upload_step(u, Some(f));
                    next == v && all == done + more
                },
                _ => next == u && all == done,
            }
        }),
{
    assert(actions.push(a).drop_last() =~= actions);
    if let WalkActionView::Send(f) = a {
        assert(sent(actions).push(Some(f)).drop_last() =~= sent(actions));
    }
}

/// The actions that follow once an upload is in step and no file is open.
proof fn lemma_visit(
    start: transfer::Upload,
    actions: Seq<WalkActionView>,
    s: WalkState,
    e: EntryView,
)
    requires
        no_failure(transfer::upload_run(start, sent(actions)).1),
        transfer::upload_run(start, sent(actions)).0.recursive == s.recursive,
        !transfer::upload_run(start, sent(actions)).0.over,
        !transfer::upload_run(start, sent(actions)).0.file_open,
        s.stack.len() > 0 ==> s.recursive,
        e.info.kind == EntryKind::Directory ==> s.recursive,
    ensures
        ({
            let (next, more) = s.visit(e);
            let (u, done) = transfer::upload_run(start, sent(actions + more));
            &&& no_failure(done)
            &&& in_step(next, u)
            &&& !(more.last() is Finish)
        }),
{
    let (next, more) = s.visit(e);
    lemma_send(start, actions, more[0]);
    if more.len() == 1 {
        assert(actions + more =~= actions.push(more[0]));
    } else {
        lemma_send(start, actions.push(more[0]), more[1]);
        assert(actions + more =~= actions.push(more[0]).push(more[1]));
    }
}

proof fn lemma_advance(start: transfer::Upload, actions: Seq<WalkActionView>, s: WalkState)
    requires
        no_failure(transfer::upload_run(start, sent(actions)).1),
        transfer::upload_run(start, sent(actions)).0.recursive == s.recursive,
        !transfer::upload_run(start, sent(actions)).0.over,
        !transfer::upload_run(start, sent(actions)).0.file_open,
        s.stack.len() > 0 ==> s.recursive,
    ensures
        ({
            let (next, more) = s.advance();
            let (u, done) = transfer::upload_run(start, sent(actions + more));
            &&& no_failure(done)
            &&& in_step(next, u)
            &&& more.last() is Finish ==> done.len() > 0 && done.last() is Done
        }),
{
    let (next, more) = s.advance();
    if s.stack.len() == 0 {
        lemma_send(start, actions, more[0]);
        lemma_send(start, actions.push(more[0]), more[1]);
        assert(actions + more =~= actions.push(more[0]).push(more[1]));
    } else {
        lemma_visit(
            start,
            actions,
            WalkState { stack: s.stack.drop_last(), ..s },
            s.stack.last(),
        );
    }
}

proof fn lemma_walk_step(
    start: transfer::Upload,
    actions: Seq<WalkActionView>,
    s: WalkState,
    event: WalkEvent,
)
    requires
        no_failure(transfer::upload_run(start, sent(actions)).1),
        in_step(s, transfer::upload_run(start, sent(actions)).0),
    ensures
        ({
            let (next, more) = walk_step(s, event);
            let (u, done) = transfer::upload_run(start, sent(actions + more));
            &&& no_failure(done)
            &&& in_step(next, u)
            &&& more.len() > 0 && more.last() is Finish ==> done.len() > 0 && done.last() is Done
            &&& more.len() == 0 ==> actions + more == actions
        }),
{
    let (next, more) = walk_step(s, event);
    if more.len() == 0 {
        assert(actions + more =~= actions);
    } else if more.len() == 1 && more[0] is Fail {
        lemma_send(start, actions, more[0]);
        assert(actions + more =~= actions.push(more[0]));
    } else {
        match (s.phase, event) {
            (WalkPhaseView::Root(path), WalkEvent::Stat(Ok(info))) => {
                let e = EntryView {
                    remote: path,
                    relative: if info.kind == EntryKind::Directory {
                        Seq::empty()
                    } else {
                        paths::basename_or(path, "download"@)
                    },
                    info,
                };
                lemma_visit(start, actions, s, e);
            },
            (WalkPhaseView::Listing(dir), WalkEvent::Listing(Ok(listing))) => {
                lemma_advance(
                    start,
                    actions,
                    WalkState { stack: s.stack + entries_of(dir, listing@), ..s },
                );
            },
            (WalkPhaseView::Linking(e), WalkEvent::Link(Ok(target))) => {
                let a = WalkActionView::Send(
                    FrameView::Symlink { relative_path: e.relative, target: target@ },
                );
                lemma_send(start, actions, a);
                lemma_advance(start, actions.push(a), s);
                assert(actions + more =~= actions.push(a) + s.advance().1);
            },
            (WalkPhaseView::Reading, WalkEvent::Read(Ok(data))) => {
                if data@.len() == 0 {
                    let a = WalkActionView::Send(FrameView::EndFile);
                    lemma_send(start, actions, a);
                    lemma_advance(start, actions.push(a), s);
                    assert(actions + more =~= actions.push(a) + s.advance().1);
                } else {
                    lemma_send(start, actions, more[0]);
                    lemma_send(start, actions.push(more[0]), more[1]);
                    assert(actions + more =~= actions.push(more[0]).push(more[1]));
                }
            },
            _ => {
                lemma_send(start, actions, more[0]);
                assert(actions + more =~= actions.push(more[0]));
            },
        }
    }
}

/// A download fails whenever one of its frames could not be sent, the last ones included: in
/// every phase that follows a frame, the failed send ends it with an error.
pub proof fn law_unsent_frames_fail_the_download(s: WalkState, event: WalkEvent)
    requires
        walk_step(s, event).1.len() > 0,
        walk_step(s, event).1[0] is Send,
    ensures
        walk_step(walk_step(s, event).0, WalkEvent::SendFailed).1 == seq![
            WalkActionView::Fail("download copy frame stream closed"@),
        ],
{
    let (next, more) = walk_step(s, event);
    assert(!(next.phase is Over));
}

/// What a download sends, an upload takes: whatever the remote side holds, no frame of a
/// download is refused by an upload of the same kind, and where the download ends well, so does
/// the upload.
pub proof fn law_downloads_can_be_uploaded(
    path: Seq<char>,
    recursive: bool,
    root_is_dir: bool,
    events: Seq<WalkEvent>,
)
    ensures
        ({
            let walk = WalkState {
                recursive,
                stack: Seq::empty(),
                phase: WalkPhaseView::Root(path),
            };
            let upload = transfer::Upload {
                recursive,
                root_is_dir,
                file_open: false,
                over: false,
            };
            let (s, actions) = walk_run(walk, events);
            let (u, done) = transfer::upload_run(upload, sent(actions));
            &&& no_failure(done)
            &&& actions.len() > 0 && actions.last() is Finish ==> done.len() > 0
                && done.last() is Done
            &&& in_step(s, u)
        }),
    decreases events.len(),
{
    let walk = WalkState { recursive, stack: Seq::empty(), phase: WalkPhaseView::Root(path) };
    let upload = transfer::Upload { recursive, root_is_dir, file_open: false, over: false };
    if events.len() > 0 {
        law_downloads_can_be_uploaded(path, recursive, root_is_dir, events.drop_last());
        let (mid, actions) = walk_run(walk, events.drop_last());
        let (next, more) = walk_step(mid, events.last());
        lemma_walk_step(upload, actions, mid, events.last());
        if more.len() > 0 {
            assert((actions + more).last() == more.last());
        }
    }
}

// ---------------------------------------------------------------------------
// What a download tells of a tree
// ---------------------------------------------------------------------------
/// What is on the remote side: a file with what is read of it, a link with its target, or a
/// directory with its listing and what each entry of it is.
pub enum Tree {
    File(Seq<Vec<u8>>),
    Link(String),
    Directory(Vec<Listed>, Seq<Tree>),
}

/// The name is one of an entry below the directory that is listed.
pub open spec fn is_inner(name: Seq<char>) -> bool {
    name != seq!['.'] && name != seq!['.', '.']
}

/// What is told of an entry fits what it is. Entries have plain names.
pub open spec fn fits(info: EntryInfo, tree: Tree) -> bool
    decreases tree,
{
    match tree {
        Tree::File(chunks) => {
            &&& info.kind == EntryKind::Regular
            &&& forall|i: int| 0 <= i < chunks.len() ==> (#[trigger] chunks[i])@.len() > 0
        },
        Tree::Link(_) => info.kind == EntryKind::Symlink,
        Tree::Directory(listing, inner) => info.kind == EntryKind::Directory && all_fit(
            listing@,
            inner,
        ),
    }
}

/// [`fits`] for each entry of a listing.
pub open spec fn all_fit(listing: Seq<Listed>, inner: Seq<Tree>) -> bool
    decreases inner,
{
    &&& listing.len() == inner.len()
    &&& listing.len() > 0 ==> {
        &&& is_inner(listing[0].name@) ==> fits(listing[0].info, inner[0])
        &&& listing[0].name@.len() > 0 && listing[0].name@[0] != '/'
        &&& all_fit(listing.skip(1), inner.skip(1))
    }
}

/// What the remote side answers while a tree is walked; `end` holds no bytes.
pub open spec fn answers(tree: Tree, end: Vec<u8>) -> Seq<WalkEvent>
    decreases tree,
{
    match tree {
        Tree::File(chunks) => seq![WalkEvent::Opened(Ok(()))] + chunks.map_values(
            |chunk: Vec<u8>| WalkEvent::Read(Ok(chunk)),
        ) + seq![WalkEvent::Read(Ok(end))],
        Tree::Link(target) => seq![WalkEvent::Link(Ok(target))],
        Tree::Directory(listing, inner) => seq![WalkEvent::Listing(Ok(listing))] + all_answers(
            listing@,
            inner,
            end,
        ),
    }
}

/// [`answers`] for the entries of a listing, one behind the other.
pub open spec fn all_answers(listing: Seq<Listed>, inner: Seq<Tree>, end: Vec<u8>) -> Seq<WalkEvent>
    decreases inner,
{
    if listing.len() == 0 || inner.len() == 0 {
        Seq::empty()
    } else if is_inner(listing[0].name@) {
        answers(inner[0], end) + all_answers(listing.skip(1), inner.skip(1), end)
    } else {
        all_answers(listing.skip(1), inner.skip(1), end)
    }
}

/// Where an entry of a directory is.
pub open spec fn inner_path(dir: Seq<char>, name: Seq<char>) -> Seq<char> {
    if dir.len() == 0 || dir.last() == '/' {
        dir + name
    } else {
        dir + seq!['/'] + name
    }
}

/// How a tree is told: a file by its header, its bytes and its end, a link by its target, and a
/// directory by its header and its entries in the order of the listing, each with its path
/// below the directory. What is asked for is at the remote path of the entry.
pub open spec fn told_as(
    remote: Seq<char>,
    relative: Seq<char>,
    info: EntryInfo,
    tree: Tree,
) -> Seq<WalkActionView>
    decreases tree,
{
    match tree {
        Tree::File(chunks) => seq![
            WalkActionView::Send(
                FrameView::BeginFile {
                    relative_path: relative,
                    mode: match info.permissions {
                        Some(p) => p,
                        None => 0,
                    },
                    size: info.size,
                    mtime: match info.mtime {
                        Some(t) => t as i64,
                        None => 0,
                    },
                },
            ),
            WalkActionView::Open(remote),
        ] + chunks.map_values(
            |chunk: Vec<u8>| WalkActionView::Send(FrameView::FileData { data: chunk@ }),
        ) + seq![WalkActionView::Send(FrameView::EndFile)],
        Tree::Link(target) => seq![
            WalkActionView::ReadLink(remote),
            WalkActionView::Send(FrameView::Symlink { relative_path: relative, target: target@ }),
        ],
        Tree::Directory(listing, inner) => seq![
            WalkActionView::Send(
                FrameView::BeginDirectory { relative_path: relative, mode: 0, mtime: 0 },
            ),
            WalkActionView::ReadDir(remote),
        ] + all_told_as(remote, relative, listing@, inner),
    }
}

/// [`told_as`] for the entries of a directory, one behind the other.
pub open spec fn all_told_as(
    remote: Seq<char>,
    relative: Seq<char>,
    listing: Seq<Listed>,
    inner: Seq<Tree>,
) -> Seq<WalkActionView>
    decreases inner,
{
    if listing.len() == 0 || inner.len() == 0 {
        Seq::empty()
    } else {
        let rest = all_told_as(remote, relative, listing.skip(1), inner.skip(1));
        let name = listing[0].name@;
        if is_inner(name) {
            told_as(
                inner_path(remote, name),
                inner_path(relative, name),
                listing[0].info,
                inner[0],
            ) + rest
        } else {
            rest
        }
    }
}

/// The actions but those that only ask for more of a file.
pub open spec fn but_reads() -> spec_fn(WalkActionView) -> Option<WalkActionView> {
    |action: WalkActionView|
        if action is Read {
            None
        } else {
            Some(action)
        }
}

proof fn lemma_walk_on(start: WalkState, a: Seq<WalkEvent>, b: Seq<WalkEvent>)
    ensures
        walk_run(start, a + b).0 == walk_run(walk_run(start, a).0, b).0,
        walk_run(start, a + b).1 == walk_run(start, a).1 + walk_run(walk_run(start, a).0, b).1,
    decreases b.len(),
{
    if b.len() == 0 {
        assert(a + b =~= a);
        assert(walk_run(start, a).1 + Seq::<WalkActionView>::empty() =~= walk_run(start, a).1);
    } else {
        lemma_walk_on(start, a, b.drop_last());
        assert((a + b).drop_last() =~= a + b.drop_last());
        let mid = walk_run(start, a).0;
        let more = walk_step(walk_run(mid, b.drop_last()).0, b.last()).1;
        assert(walk_run(start, a).1 + (walk_run(mid, b.drop_last()).1 + more) =~= (walk_run(
            start,
            a,
        ).1 + walk_run(mid, b.drop_last()).1) + more);
    }
}

proof fn lemma_walk_one(s: WalkState, event: WalkEvent)
    ensures
        walk_run(s, seq![event]) == walk_step(s, event),
{
    let none = Seq::<WalkEvent>::empty();
    assert(seq![event].drop_last() =~= none);
    assert(walk_run(s, none) == (s, Seq::<WalkActionView>::empty()));
    assert(Seq::<WalkActionView>::empty() + walk_step(s, event).1 =~= walk_step(s, event).1);
}

proof fn lemma_chunks_are_told(s: WalkState, chunks: Seq<Vec<u8>>)
    requires
        s.phase is Reading,
        forall|i: int| 0 <= i < chunks.len() ==> (#[trigger] chunks[i])@.len() > 0,
    ensures
        ({
            let events = chunks.map_values(|chunk: Vec<u8>| WalkEvent::Read(Ok(chunk)));
            let (end, actions) = walk_run(s, events);
            &&& end == s
            &&& lists::picked(actions, but_reads()) == chunks.map_values(
                |chunk: Vec<u8>| WalkActionView::Send(FrameView::FileData { data: chunk@ }),
            )
        }),
    decreases chunks.len(),
{
    let ask = |chunk: Vec<u8>| WalkEvent::Read(Ok(chunk));
    let tell = |chunk: Vec<u8>| WalkActionView::Send(FrameView::FileData { data: chunk@ });
    let events = chunks.map_values(ask);
    if chunks.len() == 0 {
        assert(chunks.map_values(tell) =~= Seq::<WalkActionView>::empty());
    } else {
        let init = chunks.drop_last();
        assert forall|i: int| 0 <= i < init.len() implies (#[trigger] init[i])@.len() > 0 by {
            assert(init[i] == chunks[i]);
        }
        lemma_chunks_are_told(s, init);
        assert(events.drop_last() =~= init.map_values(ask));
        assert(chunks.last()@.len() > 0);
        let (mid, before) = walk_run(s, init.map_values(ask));
        let (next, more) = walk_step(mid, events.last());
        lists::lemma_picked_add(before, more, but_reads());
        lists::lemma_picked_few(more, but_reads());
        assert(chunks.map_values(tell) =~= init.map_values(tell).push(tell(chunks.last())));
        assert(lists::picked(more, but_reads()) =~= seq![tell(chunks.last())]);
    }
}

proof fn lemma_file_is_told(s: WalkState, e: EntryView, chunks: Seq<Vec<u8>>, end: Vec<u8>)
    requires
        fits(e.info, Tree::File(chunks)),
        end@.len() == 0,
    ensures
        ({
            let (a, first) = s.visit(e);
            let (b, more) = walk_run(a, answers(Tree::File(chunks), end));
            &&& b == s.advance().0
            &&& lists::picked(first + more, but_reads()) == told_as(
                e.remote,
                e.relative,
                e.info,
                Tree::File(chunks),
            ) + lists::picked(s.advance().1, but_reads())
        }),
{
    let f = but_reads();
    let opened = seq![WalkEvent::Opened(Ok(()))];
    let read = chunks.map_values(|chunk: Vec<u8>| WalkEvent::Read(Ok(chunk)));
    let last = seq![WalkEvent::Read(Ok(end))];
    let (a, first) = s.visit(e);
    lemma_walk_on(a, opened + read, last);
    lemma_walk_on(a, opened, read);
    lemma_walk_one(a, WalkEvent::Opened(Ok(())));
    let (b, second) = walk_run(a, opened);
    lemma_chunks_are_told(b, chunks);
    let (c, third) = walk_run(b, read);
    lemma_walk_one(c, WalkEvent::Read(Ok(end)));
    let (d, fourth) = walk_run(c, last);
    assert(d == s.advance().0);
    let ending = seq![WalkActionView::Send(FrameView::EndFile)];
    assert(fourth =~= ending + s.advance().1);
    lists::lemma_picked_add(first, second + third + fourth, f);
    lists::lemma_picked_add(second + third, fourth, f);
    lists::lemma_picked_add(second, third, f);
    lists::lemma_picked_add(ending, s.advance().1, f);
    lists::lemma_picked_few(first, f);
    lists::lemma_picked_few(second, f);
    lists::lemma_picked_few(ending, f);
    assert(lists::picked(second, f) =~= Seq::<WalkActionView>::empty());
    let told = chunks.map_values(
        |chunk: Vec<u8>| WalkActionView::Send(FrameView::FileData { data: chunk@ }),
    );
    assert(lists::picked(first, f) =~= first);
    assert(lists::picked(ending, f) =~= ending);
    assert(first + (Seq::<WalkActionView>::empty() + told + (ending + lists::picked(
        s.advance().1,
        f,
    ))) =~= first + told + ending + lists::picked(s.advance().1, f));
}

proof fn lemma_tree_is_told(s: WalkState, e: EntryView, tree: Tree, end: Vec<u8>)
    requires
        fits(e.info, tree),
        end@.len() == 0,
    ensures
        ({
            let (a, first) = s.visit(e);
            let (b, more) = walk_run(a, answers(tree, end));
            &&& b == s.advance().0
            &&& lists::picked(first + more, but_reads()) == told_as(
                e.remote,
                e.relative,
                e.info,
                tree,
            ) + lists::picked(s.advance().1, but_reads())
        }),
    decreases tree,
{
    let f = but_reads();
    let (a, first) = s.visit(e);
    match tree {
        Tree::File(chunks) => {
            lemma_file_is_told(s, e, chunks, end);
        },
        Tree::Link(target) => {
            lemma_walk_one(a, WalkEvent::Link(Ok(target)));
            let frame = seq![
                WalkActionView::Send(
                    FrameView::Symlink { relative_path: e.relative, target: target@ },
                ),
            ];
            let (b, more) = walk_run(a, answers(tree, end));
            assert(more =~= frame + s.advance().1);
            lists::lemma_picked_add(first, more, f);
            lists::lemma_picked_add(frame, s.advance().1, f);
            lists::lemma_picked_few(first, f);
            lists::lemma_picked_few(frame, f);
            assert(lists::picked(first, f) + (lists::picked(frame, f) + lists::picked(
                s.advance().1,
                f,
            )) =~= told_as(e.remote, e.relative, e.info, tree) + lists::picked(s.advance().1, f));
        },
        Tree::Directory(listing, inner) => {
            let event = WalkEvent::Listing(Ok(listing));
            let behind = all_answers(listing@, inner, end);
            lemma_walk_on(a, seq![event], behind);
            lemma_walk_one(a, event);
            lemma_entries_are_told(s, e, listing@, inner, end);
            let top = WalkState { stack: s.stack + entries_of(e, listing@), ..s };
            assert(walk_step(a, event) == top.advance());
            let second = top.advance().1;
            let third = walk_run(top.advance().0, behind).1;
            lists::lemma_picked_add(first, second + third, f);
            lists::lemma_picked_few(first, f);
            assert(lists::picked(first, f) =~= first);
            let told = all_told_as(e.remote, e.relative, listing@, inner);
            assert(first + (told + lists::picked(s.advance().1, f)) =~= first + told
                + lists::picked(s.advance().1, f));
        },
    }
}

proof fn lemma_entries_are_told(
    s: WalkState,
    e: EntryView,
    listing: Seq<Listed>,
    inner: Seq<Tree>,
    end: Vec<u8>,
)
    requires
        all_fit(listing, inner),
        end@.len() == 0,
    ensures
        ({
            let top = WalkState { stack: s.stack + entries_of(e, listing), ..s };
            let (a, first) = top.advance();
            let (b, more) = walk_run(a, all_answers(listing, inner, end));
            &&& b == s.advance().0
            &&& lists::picked(first + more, but_reads()) == all_told_as(
                e.remote,
                e.relative,
                listing,
                inner,
            ) + lists::picked(s.advance().1, but_reads())
        }),
    decreases inner,
{
    let f = but_reads();
    let top = WalkState { stack: s.stack + entries_of(e, listing), ..s };
    reveal_strlit(".");
    reveal_strlit("..");
    reveal_strlit("/");
    assert("."@ =~= seq!['.']);
    assert(".."@ =~= seq!['.', '.']);
    assert("/"@ =~= seq!['/']);
    if listing.len() == 0 {
        assert(top.stack =~= s.stack);
        let none = Seq::<WalkActionView>::empty();
        assert(s.advance().1 + none =~= s.advance().1);
        assert(none + lists::picked(s.advance().1, f) =~= lists::picked(s.advance().1, f));
    } else {
        let rest = listing.skip(1);
        let trees = inner.skip(1);
        let name = listing[0].name@;
        lemma_entries_are_told(s, e, rest, trees, end);
        if is_inner(name) {
            assert(!text::begins(name, "/"@)) by {
                if text::begins(name, "/"@) {
                    assert(name.take(1)[0] == name[0]);
                }
            }
            let child = EntryView {
                remote: inner_path(e.remote, name),
                relative: inner_path(e.relative, name),
                info: listing[0].info,
            };
            assert(Seq::<char>::empty() + name =~= name);
            assert(e.remote.len() == 0 ==> e.remote + name =~= name);
            assert(e.relative.len() == 0 ==> e.relative + name =~= name);
            assert(entries_of(e, listing) == entries_of(e, rest).push(child));
            let m = WalkState { stack: s.stack + entries_of(e, rest), ..s };
            assert(top.stack.drop_last() =~= m.stack);
            assert(top.stack.last() == child);
            assert(top.advance() == m.visit(child));
            lemma_tree_is_told(m, child, inner[0], end);
            let here = answers(inner[0], end);
            let behind = all_answers(rest, trees, end);
            let (a, first) = top.advance();
            lemma_walk_on(a, here, behind);
            let (b, second) = walk_run(a, here);
            let (c, third) = walk_run(b, behind);
            let next = m.advance().1;
            lists::lemma_picked_add(first, second + third, f);
            lists::lemma_picked_add(second, third, f);
            lists::lemma_picked_add(first, second, f);
            lists::lemma_picked_add(next, third, f);
            let told = told_as(child.remote, child.relative, child.info, inner[0]);
            let others = all_told_as(e.remote, e.relative, rest, trees);
            let after = lists::picked(s.advance().1, f);
            assert(lists::picked(first, f) + lists::picked(second, f) == told + lists::picked(
                next,
                f,
            ));
            assert(lists::picked(next, f) + lists::picked(third, f) == others + after);
            assert(lists::picked(first, f) + (lists::picked(second, f) + lists::picked(third, f))
                =~= (lists::picked(first, f) + lists::picked(second, f)) + lists::picked(third, f));
            assert((told + lists::picked(next, f)) + lists::picked(third, f) =~= told + (
            lists::picked(next, f) + lists::picked(third, f)));
            assert(told + (others + after) =~= (told + others) + after);
        } else {
            assert(entries_of(e, listing) == entries_of(e, rest));
        }
    }
}

/// A download tells everything below the path that was asked for: each file with all its
/// bytes, each link and each directory, in the order of the listings, and then its end. The
/// paths that it tells lie below the directory, or are the file's own name.
pub proof fn law_downloads_tell_the_whole_tree(
    path: Seq<char>,
    recursive: bool,
    info: EntryInfo,
    tree: Tree,
    end: Vec<u8>,
)
    requires
        fits(info, tree),
        tree is Directory ==> recursive,
        end@.len() == 0,
    ensures
        ({
            let start = WalkState {
                recursive,
                stack: Seq::empty(),
                phase: WalkPhaseView::Root(path),
            };
            let events = seq![WalkEvent::Stat(Ok(info))] + answers(tree, end);
            let relative = if tree is Directory {
                Seq::empty()
            } else {
                paths::basename_or(path, "download"@)
            };
            lists::picked(walk_run(start, events).1, but_reads()) == told_as(
                path,
                relative,
                info,
                tree,
            ) + seq![WalkActionView::Send(FrameView::EndOfStream), WalkActionView::Finish]
        }),
{
    let start = WalkState { recursive, stack: Seq::empty(), phase: WalkPhaseView::Root(path) };
    let event = WalkEvent::Stat(Ok(info));
    let relative = if tree is Directory {
        Seq::empty()
    } else {
        paths::basename_or(path, "download"@)
    };
    let e = EntryView { remote: path, relative, info };
    lemma_walk_on(start, seq![event], answers(tree, end));
    lemma_walk_one(start, event);
    assert(walk_step(start, event) == start.visit(e));
    lemma_tree_is_told(start, e, tree, end);
    lists::lemma_picked_few(start.advance().1, but_reads());
    assert(lists::picked(start.advance().1, but_reads()) =~= start.advance().1);
}

/// A directory is not downloaded unless that was asked for.
pub proof fn law_directories_are_downloaded_on_request(path: Seq<char>, info: EntryInfo)
    requires
        info.kind == EntryKind::Directory,
    ensures
        ({
            let start = WalkState {
                recursive: false,
                stack: Seq::empty(),
                phase: WalkPhaseView::Root(path),
            };
            let (end, actions) = walk_step(start, WalkEvent::Stat(Ok(info)));
            end.phase is Over && actions.len() == 1 && actions[0] is Fail
        }),
{
}

/// What is stated of a [`WalkAction`] is stated of its own parts: each kind is seen as that
/// kind, with all that it holds.
pub proof fn law_walk_action_is_seen_as_it_is(value: WalkAction)
    ensures
        ({
            let seen = value@;
            match value {
                WalkAction::Send(f) => seen == WalkActionView::Send(f@),
                WalkAction::ReadDir(p) => seen == WalkActionView::ReadDir(p@),
                WalkAction::ReadLink(p) => seen == WalkActionView::ReadLink(p@),
                WalkAction::Open(p) => seen == WalkActionView::Open(p@),
                WalkAction::Read => seen == WalkActionView::Read,
                WalkAction::Finish => seen == WalkActionView::Finish,
                WalkAction::Fail(e) => seen == WalkActionView::Fail(e@),
            }
        }),
{
}

} // verus!
