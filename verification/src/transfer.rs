//! Commands and file transfers over an SSH connection to a server.
use crate::execute;
use crate::execute::ServerEvent;
use crate::lists;
use crate::lists::{chunks, one, three, two};
use crate::paths;
use crate::paths::{join_remote_path, shell_path_basename_or};
use crate::pty::ChannelMessage;
use vstd::prelude::*;

verus! {

// ---------------------------------------------------------------------------
// Commands
// ---------------------------------------------------------------------------
/// The exit code of a command that ends without one, or by a signal.
pub const NO_EXIT_CODE: i32 = 255;

/// What happens while a command runs on a channel.
pub enum ExecEvent {
    /// Input for the command; none at its end.
    Stdin(Option<Vec<u8>>),
    /// A message of the channel, or its end.
    Message(Option<ChannelMessage>),
}

/// What to do while a command runs on a channel.
pub enum ExecAction {
    Nothing,
    Write(Vec<u8>),
    SendEof,
    Forward(ServerEvent),
    Finish(i32),
}

/// The mathematical counterpart of [`ExecAction`].
pub enum ExecActionView {
    Nothing,
    Write(Seq<u8>),
    SendEof,
    Forward(execute::EventView),
    Finish(int),
}

impl View for ExecAction {
    type V = ExecActionView;

    open spec fn view(&self) -> ExecActionView {
        match self {
            ExecAction::Nothing => ExecActionView::Nothing,
            ExecAction::Write(d) => ExecActionView::Write(d@),
            ExecAction::SendEof => ExecActionView::SendEof,
            ExecAction::Forward(e) => ExecActionView::Forward(e@),
            ExecAction::Finish(c) => ExecActionView::Finish(*c as int),
        }
    }
}

/// A command on a channel.
pub struct ExecChannel {
    pub exit_code: Option<i32>,
    /// Input is still read.
    pub stdin_open: bool,
}

/// The exit code that a message of the channel reports, if it does.
pub open spec fn reported_code(message: ChannelMessage) -> Option<i32> {
    match message {
        ChannelMessage::ExitStatus(status) => Some(status as i32),
        ChannelMessage::ExitSignal => Some(NO_EXIT_CODE),
        _ => None,
    }
}

/// What an event does to a command on a channel. The last code that is reported counts.
pub open spec fn exec_step(c: ExecChannel, event: ExecEvent) -> (ExecChannel, ExecActionView) {
    match event {
        ExecEvent::Stdin(Some(data)) => if c.stdin_open {
            (c, ExecActionView::Write(data@))
        } else {
            (c, ExecActionView::Nothing)
        },
        ExecEvent::Stdin(None) => if c.stdin_open {
            (ExecChannel { stdin_open: false, ..c }, ExecActionView::SendEof)
        } else {
            (c, ExecActionView::Nothing)
        },
        ExecEvent::Message(None) => (
            c,
            ExecActionView::Finish(
                match c.exit_code {
                    Some(code) => code as int,
                    None => NO_EXIT_CODE as int,
                },
            ),
        ),
        ExecEvent::Message(Some(m)) => match m {
            ChannelMessage::Data(d) => (
                c,
                ExecActionView::Forward(execute::EventView::Stdout(d@)),
            ),
            ChannelMessage::ExtendedData(d) => (
                c,
                ExecActionView::Forward(execute::EventView::Stderr(d@)),
            ),
            _ => (
                match reported_code(m) {
                    Some(code) => ExecChannel { exit_code: Some(code), ..c },
                    None => c,
                },
                ExecActionView::Nothing,
            ),
        },
    }
}

impl ExecChannel {
    pub fn new(stdin: bool) -> (r: Self)
        ensures
            r == (ExecChannel { exit_code: None, stdin_open: stdin }),
    {
        ExecChannel { exit_code: None, stdin_open: stdin }
    }

    /// Take one event.
    pub fn on_event(&mut self, event: ExecEvent) -> (r: ExecAction)
        ensures
            (*final(self), r@) == exec_step(*old(self), event),
    {
        match event {
            ExecEvent::Stdin(Some(data)) => if self.stdin_open {
                ExecAction::Write(data)
            } else {
                ExecAction::Nothing
            },
            ExecEvent::Stdin(None) => if self.stdin_open {
                self.stdin_open = false;
                ExecAction::SendEof
            } else {
                ExecAction::Nothing
            },
            ExecEvent::Message(None) => ExecAction::Finish(
                match self.exit_code {
                    Some(code) => code,
                    None => NO_EXIT_CODE,
                },
            ),
            ExecEvent::Message(Some(ChannelMessage::Data(data))) => ExecAction::Forward(
                ServerEvent::Stdout { data },
            ),
            ExecEvent::Message(Some(ChannelMessage::ExtendedData(data))) => ExecAction::Forward(
                ServerEvent::Stderr { data },
            ),
            ExecEvent::Message(Some(ChannelMessage::ExitStatus(status))) => {
                self.exit_code = Some(#[verifier::truncate] (status as i32));
                ExecAction::Nothing
            },
            ExecEvent::Message(Some(ChannelMessage::ExitSignal)) => {
                self.exit_code = Some(NO_EXIT_CODE);
                ExecAction::Nothing
            },
            ExecEvent::Message(Some(_)) => ExecAction::Nothing,
        }
    }
}

/// What happens in an interactive session on a channel.
pub enum TerminalEvent {
    Stdin(Vec<u8>),
    Resize(u32, u32),
    Message(Option<ChannelMessage>),
    /// Output could not be handed on.
    OutputGone,
}

/// What to do in an interactive session on a channel.
pub enum TerminalAction {
    Nothing,
    Write(Vec<u8>),
    WindowChange(u32, u32),
    Forward(Vec<u8>),
    /// The session is over; with a code if it ended by itself.
    Finish(Option<i32>),
}

/// An interactive session on a channel.
pub struct TerminalChannel {
    pub exit_code: Option<i32>,
}

impl TerminalChannel {
    pub fn new() -> (r: Self)
        ensures
            r.exit_code is None,
    {
        TerminalChannel { exit_code: None }
    }

    /// Take one event. A session that ends without a code counts as a success.
    pub fn on_event(&mut self, event: TerminalEvent) -> (r: TerminalAction)
        ensures
            match event {
                TerminalEvent::Stdin(data) => r == TerminalAction::Write(data)
                    && final(self).exit_code == old(self).exit_code,
                TerminalEvent::Resize(c, w) => r == TerminalAction::WindowChange(c, w)
                    && final(self).exit_code == old(self).exit_code,
                TerminalEvent::OutputGone => r == TerminalAction::Finish(None)
                    && final(self).exit_code == old(self).exit_code,
                TerminalEvent::Message(None) | TerminalEvent::Message(Some(ChannelMessage::Eof)) => {
                    &&& r == TerminalAction::Finish(
                        Some(
                            match old(self).exit_code {
                                Some(code) => code,
                                None => 0,
                            },
                        ),
                    )
                    &&& final(self).exit_code == old(self).exit_code
                },
                TerminalEvent::Message(Some(ChannelMessage::Data(data))) => r
                    == TerminalAction::Forward(data) && final(self).exit_code
                    == old(self).exit_code,
                TerminalEvent::Message(Some(m)) => r is Nothing && final(self).exit_code
                    == match reported_code(m) {
                    Some(code) => Some(code),
                    None => old(self).exit_code,
                },
            },
    {
        match event {
            TerminalEvent::Stdin(data) => TerminalAction::Write(data),
            TerminalEvent::Resize(c, w) => TerminalAction::WindowChange(c, w),
            TerminalEvent::OutputGone => TerminalAction::Finish(None),
            TerminalEvent::Message(None) => TerminalAction::Finish(
                Some(
                    match self.exit_code {
                        Some(code) => code,
                        None => 0,
                    },
                ),
            ),
            TerminalEvent::Message(Some(ChannelMessage::Eof)) => TerminalAction::Finish(
                Some(
                    match self.exit_code {
                        Some(code) => code,
                        None => 0,
                    },
                ),
            ),
            TerminalEvent::Message(Some(ChannelMessage::Data(data))) => TerminalAction::Forward(
                data,
            ),
            TerminalEvent::Message(Some(ChannelMessage::ExitStatus(status))) => {
                self.exit_code = Some(#[verifier::truncate] (status as i32));
                TerminalAction::Nothing
            },
            TerminalEvent::Message(Some(ChannelMessage::ExitSignal)) => {
                self.exit_code = Some(NO_EXIT_CODE);
                TerminalAction::Nothing
            },
            TerminalEvent::Message(Some(_)) => TerminalAction::Nothing,
        }
    }
}

// ---------------------------------------------------------------------------
// Uploads
// ---------------------------------------------------------------------------
/// A piece of a copy.
#[derive(Debug)]
pub enum CopyFrame {
    BeginFile { relative_path: String, mode: u32, size: u64, mtime: i64 },
    FileData { data: Vec<u8> },
    EndFile,
    BeginDirectory { relative_path: String, mode: u32, mtime: i64 },
    Symlink { relative_path: String, target: String },
    EndOfStream,
}

/// The mathematical counterpart of [`CopyFrame`].
pub enum FrameView {
    BeginFile { relative_path: Seq<char>, mode: u32, size: u64, mtime: i64 },
    FileData { data: Seq<u8> },
    EndFile,
    BeginDirectory { relative_path: Seq<char>, mode: u32, mtime: i64 },
    Symlink { relative_path: Seq<char>, target: Seq<char> },
    EndOfStream,
}

impl View for CopyFrame {
    type V = FrameView;

    open spec fn view(&self) -> FrameView {
        match self {
            CopyFrame::BeginFile { relative_path, mode, size, mtime } => FrameView::BeginFile {
                relative_path: relative_path@,
                mode: *mode,
                size: *size,
                mtime: *mtime,
            },
            CopyFrame::FileData { data } => FrameView::FileData { data: data@ },
            CopyFrame::EndFile => FrameView::EndFile,
            CopyFrame::BeginDirectory { relative_path, mode, mtime } => {
                FrameView::BeginDirectory {
                    relative_path: relative_path@,
                    mode: *mode,
                    mtime: *mtime,
                }
            },
            CopyFrame::Symlink { relative_path, target } => FrameView::Symlink {
                relative_path: relative_path@,
                target: target@,
            },
            CopyFrame::EndOfStream => FrameView::EndOfStream,
        }
    }
}

/// The view of a frame, or of the end of the frames.
pub open spec fn frame_view(frame: Option<CopyFrame>) -> Option<FrameView> {
    match frame {
        Some(f) => Some(f@),
        None => None,
    }
}

/// Where an entry goes.
#[derive(Debug)]
pub enum Destination {
    /// Its relative path below the remote path.
    Below(String),
    /// Its name in the remote directory.
    Inside(String),
    /// The remote path itself.
    Exactly,
}

/// The mathematical counterpart of [`Destination`].
pub enum DestinationView {
    Below(Seq<char>),
    Inside(Seq<char>),
    Exactly,
}

impl View for Destination {
    type V = DestinationView;

    open spec fn view(&self) -> DestinationView {
        match self {
            Destination::Below(p) => DestinationView::Below(p@),
            Destination::Inside(p) => DestinationView::Inside(p@),
            Destination::Exactly => DestinationView::Exactly,
        }
    }
}

/// The remote path of a destination. An entry without a name of its own takes that of the
/// source, and without that the name `copy`.
pub open spec fn place_of(root: Seq<char>, source_name: Seq<char>, d: DestinationView) -> Seq<char> {
    match d {
        DestinationView::Below(relative) => paths::joined(root, relative),
        DestinationView::Inside(relative) => paths::joined(
            root,
            paths::basename_or(relative, paths::basename_or(source_name, "copy"@)),
        ),
        DestinationView::Exactly => root,
    }
}

/// Find the remote path of a destination.
pub fn place(root: &str, source_name: &str, d: &Destination) -> (r: String)
    ensures
        r@ == place_of(root@, source_name@, d@),
{
    match d {
        Destination::Below(relative) => join_remote_path(root, relative.as_str()),
        Destination::Inside(relative) => {
            let fallback = shell_path_basename_or(source_name, "copy");
            let name = shell_path_basename_or(relative.as_str(), fallback.as_str());
            join_remote_path(root, name.as_str())
        },
        Destination::Exactly => root.to_owned(),
    }
}

/// What to do with a frame of an upload, in order.
pub enum UploadAction {
    /// Make the directories above the destination.
    CreateParents(Destination),
    CreateFile(Destination),
    Write(Vec<u8>),
    CloseFile,
    CreateDirs(Destination),
    /// Remove what is there; that it cannot be removed does not count.
    RemoveFile(Destination),
    CreateSymlink(Destination, String),
    Done,
    Fail(String),
}

/// The mathematical counterpart of [`UploadAction`].
pub enum UploadActionView {
    CreateParents(DestinationView),
    CreateFile(DestinationView),
    Write(Seq<u8>),
    CloseFile,
    CreateDirs(DestinationView),
    RemoveFile(DestinationView),
    CreateSymlink(DestinationView, Seq<char>),
    Done,
    Fail(Seq<char>),
}

impl View for UploadAction {
    type V = UploadActionView;

    open spec fn view(&self) -> UploadActionView {
        match self {
            UploadAction::CreateParents(d) => UploadActionView::CreateParents(d@),
            UploadAction::CreateFile(d) => UploadActionView::CreateFile(d@),
            UploadAction::Write(data) => UploadActionView::Write(data@),
            UploadAction::CloseFile => UploadActionView::CloseFile,
            UploadAction::CreateDirs(d) => UploadActionView::CreateDirs(d@),
            UploadAction::RemoveFile(d) => UploadActionView::RemoveFile(d@),
            UploadAction::CreateSymlink(d, t) => UploadActionView::CreateSymlink(d@, t@),
            UploadAction::Done => UploadActionView::Done,
            UploadAction::Fail(e) => UploadActionView::Fail(e@),
        }
    }
}

/// An upload.
pub struct Upload {
    pub recursive: bool,
    /// The remote path is a directory.
    pub root_is_dir: bool,
    pub file_open: bool,
    pub over: bool,
}

/// Where an entry of an upload goes.
pub open spec fn destination(u: Upload, relative_path: Seq<char>) -> DestinationView {
    if u.recursive {
        DestinationView::Below(relative_path)
    } else if u.root_is_dir {
        DestinationView::Inside(relative_path)
    } else {
        DestinationView::Exactly
    }
}

/// What a frame does to an upload; none at the end of the frames.
pub open spec fn upload_step(u: Upload, frame: Option<FrameView>) -> (
    Upload,
    Seq<UploadActionView>,
) {
    let ended = Upload { over: true, ..u };
    if u.over {
        (u, Seq::empty())
    } else {
        match frame {
            Some(FrameView::BeginFile { relative_path, .. }) => if u.file_open {
                (
                    ended,
                    seq![
                        UploadActionView::Fail(
                            "copy stream began a new file before ending the previous file"@,
                        ),
                    ],
                )
            } else {
                (
                    Upload { file_open: true, ..u },
                    seq![
                        UploadActionView::CreateParents(destination(u, relative_path)),
                        UploadActionView::CreateFile(destination(u, relative_path)),
                    ],
                )
            },
            Some(FrameView::FileData { data }) => if u.file_open {
                (u, seq![UploadActionView::Write(data)])
            } else {
                (
                    ended,
                    seq![UploadActionView::Fail("copy stream sent file data before BeginFile"@)],
                )
            },
            Some(FrameView::EndFile) => if u.file_open {
                (Upload { file_open: false, ..u }, seq![UploadActionView::CloseFile])
            } else {
                (ended, seq![UploadActionView::Fail("copy stream sent EndFile before BeginFile"@)])
            },
            Some(FrameView::BeginDirectory { relative_path, .. }) => if u.recursive {
                (
                    u,
                    seq![
                        UploadActionView::CreateDirs(DestinationView::Below(relative_path)),
                    ],
                )
            } else {
                (
                    ended,
                    seq![
                        UploadActionView::Fail("remote directory frame requires recursive copy"@),
                    ],
                )
            },
            Some(FrameView::Symlink { relative_path, target }) => (
                u,
                seq![
                    UploadActionView::CreateParents(destination(u, relative_path)),
                    UploadActionView::RemoveFile(destination(u, relative_path)),
                    UploadActionView::CreateSymlink(destination(u, relative_path), target),
                ],
            ),
            Some(FrameView::EndOfStream) | None => if u.file_open {
                (ended, seq![UploadActionView::Fail("copy stream ended before EndFile"@)])
            } else {
                (ended, seq![UploadActionView::Done])
            },
        }
    }
}

impl Upload {
    pub fn new(recursive: bool, root_is_dir: bool) -> (r: Self)
        ensures
            r == (Upload { recursive, root_is_dir, file_open: false, over: false }),
    {
        Upload { recursive, root_is_dir, file_open: false, over: false }
    }

    fn destination(&self, relative_path: &String) -> (r: Destination)
        ensures
            r@ == destination(*self, relative_path@),
    {
        if self.recursive {
            Destination::Below(relative_path.clone())
        } else if self.root_is_dir {
            Destination::Inside(relative_path.clone())
        } else {
            Destination::Exactly
        }
    }

    fn fail(&mut self, message: &str) -> (r: Vec<UploadAction>)
        ensures
            *final(self) == (Upload { over: true, ..*old(self) }),
            lists::views(r@) == seq![UploadActionView::Fail(message@)],
    {
        self.over = true;
        let r = one(UploadAction::Fail(message.to_owned()));
        assert(lists::views(r@) =~= seq![UploadActionView::Fail(message@)]);
        r
    }

    /// Take one frame, or the end of the frames.
    pub fn on_frame(&mut self, frame: Option<CopyFrame>) -> (r: Vec<UploadAction>)
        ensures
            (*final(self), lists::views(r@)) == upload_step(*old(self), frame_view(frame)),
    {
        let nothing: Vec<UploadAction> = Vec::new();
        assert(lists::views(nothing@) =~= Seq::<UploadActionView>::empty());
        if self.over {
            return nothing;
        }
        let ghost wanted = upload_step(*self, frame_view(frame)).1;
        let r = match frame {
            Some(CopyFrame::BeginFile { relative_path, .. }) => if self.file_open {
                self.fail("copy stream began a new file before ending the previous file")
            } else {
                self.file_open = true;
                let above = self.destination(&relative_path);
                let here = self.destination(&relative_path);
                two(UploadAction::CreateParents(above), UploadAction::CreateFile(here))
            },
            Some(CopyFrame::FileData { data }) => if self.file_open {
                one(UploadAction::Write(data))
            } else {
                self.fail("copy stream sent file data before BeginFile")
            },
            Some(CopyFrame::EndFile) => if self.file_open {
                self.file_open = false;
                one(UploadAction::CloseFile)
            } else {
                self.fail("copy stream sent EndFile before BeginFile")
            },
            Some(CopyFrame::BeginDirectory { relative_path, .. }) => if self.recursive {
                one(UploadAction::CreateDirs(Destination::Below(relative_path)))
            } else {
                self.fail("remote directory frame requires recursive copy")
            },
            Some(CopyFrame::Symlink { relative_path, target }) => {
                let above = self.destination(&relative_path);
                let gone = self.destination(&relative_path);
                let here = self.destination(&relative_path);
                three(
                    UploadAction::CreateParents(above),
                    UploadAction::RemoveFile(gone),
                    UploadAction::CreateSymlink(here, target),
                )
            },
            Some(CopyFrame::EndOfStream) => if self.file_open {
                self.fail("copy stream ended before EndFile")
            } else {
                self.over = true;
                one(UploadAction::Done)
            },
            None => if self.file_open {
                self.fail("copy stream ended before EndFile")
            } else {
                self.over = true;
                one(UploadAction::Done)
            },
        };
        assert(lists::views(r@) =~= wanted);
        r
    }
}

/// Where a sequence of frames leads an upload, and the actions on the way.
pub open spec fn upload_run(u: Upload, frames: Seq<Option<FrameView>>) -> (
    Upload,
    Seq<UploadActionView>,
)
    decreases frames.len(),
{
    if frames.len() == 0 {
        (u, Seq::empty())
    } else {
        let (mid, actions) = upload_run(u, frames.drop_last());
        let (next, more) = upload_step(mid, frames.last());
        (next, actions + more)
    }
}

/// Whether a file is open behind some actions: the last one that opened or closed any decides.
pub open spec fn open_after(actions: Seq<UploadActionView>) -> bool
    decreases actions.len(),
{
    if actions.len() == 0 {
        false
    } else {
        match actions.last() {
            UploadActionView::CreateFile(_) => true,
            UploadActionView::CloseFile => false,
            _ => open_after(actions.drop_last()),
        }
    }
}

/// Every file is opened before it is written or closed, no file is opened before the one
/// before it was closed, and none is left open where an upload succeeds.
pub open spec fn well_nested(actions: Seq<UploadActionView>) -> bool {
    forall|k: int|
        0 <= k < actions.len() ==> match #[trigger] actions[k] {
            UploadActionView::CreateFile(_) => !open_after(actions.take(k)),
            UploadActionView::Write(_) => open_after(actions.take(k)),
            UploadActionView::CloseFile => open_after(actions.take(k)),
            UploadActionView::Done => !open_after(actions.take(k)),
            _ => true,
        }
}

proof fn lemma_push_nested(actions: Seq<UploadActionView>, a: UploadActionView)
    requires
        well_nested(actions),
        match a {
            UploadActionView::CreateFile(_) => !open_after(actions),
            UploadActionView::Write(_) => open_after(actions),
            UploadActionView::CloseFile => open_after(actions),
            UploadActionView::Done => !open_after(actions),
            _ => true,
        },
    ensures
        well_nested(actions.push(a)),
        open_after(actions.push(a)) == match a {
            UploadActionView::CreateFile(_) => true,
            UploadActionView::CloseFile => false,
            _ => open_after(actions),
        },
{
    let all = actions.push(a);
    assert(all.drop_last() =~= actions);
    assert forall|k: int| 0 <= k < all.len() implies match #[trigger] all[k] {
        UploadActionView::CreateFile(_) => !open_after(all.take(k)),
        UploadActionView::Write(_) => open_after(all.take(k)),
        UploadActionView::CloseFile => open_after(all.take(k)),
        UploadActionView::Done => !open_after(all.take(k)),
        _ => true,
    } by {
        if k < actions.len() {
            assert(all.take(k) =~= actions.take(k));
            assert(all[k] == actions[k]);
        } else {
            assert(all.take(k) =~= actions);
        }
    }
}

#[verifier::rlimit(40)]
proof fn lemma_upload_run(u: Upload, frames: Seq<Option<FrameView>>)
    requires
        !u.file_open,
        !u.over,
    ensures
        well_nested(upload_run(u, frames).1),
        !upload_run(u, frames).0.over ==> upload_run(u, frames).0.file_open == open_after(
            upload_run(u, frames).1,
        ),
    decreases frames.len(),
{
    if frames.len() > 0 {
        let (mid, actions) = upload_run(u, frames.drop_last());
        let (next, more) = upload_step(mid, frames.last());
        lemma_upload_run(u, frames.drop_last());
        if more.len() == 0 {
            assert(actions + more =~= actions);
        } else {
            lemma_push_nested(actions, more[0]);
            if more.len() == 1 {
                assert(actions + more =~= actions.push(more[0]));
            } else {
                let a = actions.push(more[0]);
                lemma_push_nested(a, more[1]);
                if more.len() == 2 {
                    assert(actions + more =~= a.push(more[1]));
                } else {
                    lemma_push_nested(a.push(more[1]), more[2]);
                    assert(actions + more =~= a.push(more[1]).push(more[2]));
                }
            }
        }
    }
}

/// Whatever frames come, files of an upload are opened, written and closed one after the
/// other, and an upload succeeds only where all of them were closed.
pub proof fn law_uploads_are_well_nested(
    recursive: bool,
    root_is_dir: bool,
    frames: Seq<Option<FrameView>>,
)
    ensures
        well_nested(
            upload_run(
                Upload { recursive, root_is_dir, file_open: false, over: false },
                frames,
            ).1,
        ),
{
    lemma_upload_run(Upload { recursive, root_is_dir, file_open: false, over: false }, frames);
}

// ---------------------------------------------------------------------------
// What an upload leaves behind
// ---------------------------------------------------------------------------
/// Something that lies on the remote side.
pub enum Entry {
    File(Seq<u8>),
    Link(Seq<char>),
}

/// The remote side: what lies where, the directories that were made sure of, and the file that
/// is open.
#[verifier::ext_equal]
pub struct Remote {
    pub entries: Map<Seq<char>, Entry>,
    pub dirs: Set<Seq<char>>,
    pub open: Option<Seq<char>>,
}

impl Remote {
    pub open spec fn nothing() -> Remote {
        Remote { entries: Map::empty(), dirs: Set::empty(), open: None }
    }

    pub open spec fn create(self, path: Seq<char>) -> Remote {
        Remote {
            entries: self.entries.insert(path, Entry::File(Seq::empty())),
            dirs: self.dirs.insert(paths::parent_of(path)),
            open: Some(path),
        }
    }

    pub open spec fn write(self, data: Seq<u8>) -> Remote {
        match self.open {
            Some(path) => match self.entries[path] {
                Entry::File(bytes) => Remote {
                    entries: self.entries.insert(path, Entry::File(bytes + data)),
                    ..self
                },
                Entry::Link(_) => self,
            },
            None => self,
        }
    }

    pub open spec fn link(self, path: Seq<char>, target: Seq<char>) -> Remote {
        Remote {
            entries: self.entries.insert(path, Entry::Link(target)),
            dirs: self.dirs.insert(paths::parent_of(path)),
            ..self
        }
    }
}

/// What an action of an upload to `root` does to the remote side.
pub open spec fn performed(r: Remote, root: Seq<char>, source: Seq<char>, a: UploadActionView) -> Remote {
    match a {
        UploadActionView::CreateParents(d) => Remote {
            dirs: r.dirs.insert(paths::parent_of(place_of(root, source, d))),
            ..r
        },
        UploadActionView::CreateFile(d) => Remote {
            entries: r.entries.insert(place_of(root, source, d), Entry::File(Seq::empty())),
            open: Some(place_of(root, source, d)),
            ..r
        },
        UploadActionView::Write(data) => r.write(data),
        UploadActionView::CloseFile => Remote { open: None, ..r },
        UploadActionView::CreateDirs(d) => Remote {
            dirs: r.dirs.insert(place_of(root, source, d)),
            ..r
        },
        UploadActionView::RemoveFile(d) => Remote {
            entries: r.entries.remove(place_of(root, source, d)),
            ..r
        },
        UploadActionView::CreateSymlink(d, target) => Remote {
            entries: r.entries.insert(place_of(root, source, d), Entry::Link(target)),
            ..r
        },
        UploadActionView::Done | UploadActionView::Fail(_) => r,
    }
}

pub open spec fn performed_all(root: Seq<char>, source: Seq<char>, actions: Seq<UploadActionView>) -> Remote
    decreases actions.len(),
{
    if actions.len() == 0 {
        Remote::nothing()
    } else {
        performed(performed_all(root, source, actions.drop_last()), root, source, actions.last())
    }
}

/// Where an entry belongs: below the remote path if the copy is recursive, in the remote
/// directory under its own name if the remote path is one, and at the remote path otherwise.
pub open spec fn belongs(
    recursive: bool,
    root_is_dir: bool,
    root: Seq<char>,
    source: Seq<char>,
    relative: Seq<char>,
) -> Seq<char> {
    if recursive {
        paths::joined(root, relative)
    } else if root_is_dir {
        paths::joined(
            root,
            paths::basename_or(relative, paths::basename_or(source, seq!['c', 'o', 'p', 'y'])),
        )
    } else {
        root
    }
}

/// What lies on the remote side once some frames were taken over as they are.
pub open spec fn taken_over(
    recursive: bool,
    root_is_dir: bool,
    root: Seq<char>,
    source: Seq<char>,
    frames: Seq<Option<FrameView>>,
) -> Remote
    decreases frames.len(),
{
    if frames.len() == 0 {
        Remote::nothing()
    } else {
        let r = taken_over(recursive, root_is_dir, root, source, frames.drop_last());
        match frames.last() {
            Some(FrameView::BeginFile { relative_path, .. }) => r.create(
                belongs(recursive, root_is_dir, root, source, relative_path),
            ),
            Some(FrameView::FileData { data }) => r.write(data),
            Some(FrameView::EndFile) => Remote { open: None, ..r },
            Some(FrameView::BeginDirectory { relative_path, .. }) => Remote {
                dirs: r.dirs.insert(paths::joined(root, relative_path)),
                ..r
            },
            Some(FrameView::Symlink { relative_path, target }) => r.link(
                belongs(recursive, root_is_dir, root, source, relative_path),
                target,
            ),
            Some(FrameView::EndOfStream) | None => r,
        }
    }
}

proof fn lemma_performed_add(
    root: Seq<char>,
    source: Seq<char>,
    a: Seq<UploadActionView>,
    b: Seq<UploadActionView>,
)
    requires
        b.len() <= 3,
    ensures
        ({
            let r = performed_all(root, source, a);
            let all = performed_all(root, source, a + b);
            &&& b.len() == 0 ==> all == r
            &&& b.len() == 1 ==> all == performed(r, root, source, b[0])
            &&& b.len() == 2 ==> all == performed(
                performed(r, root, source, b[0]),
                root,
                source,
                b[1],
            )
            &&& b.len() == 3 ==> all == performed(
                performed(performed(r, root, source, b[0]), root, source, b[1]),
                root,
                source,
                b[2],
            )
        }),
    decreases b.len(),
{
    if b.len() == 0 {
        assert(a + b =~= a);
    } else {
        let init = b.drop_last();
        lemma_performed_add(root, source, a, init);
        assert((a + b).drop_last() =~= a + init);
        assert((a + b).last() == b.last());
        assert(forall|i: int| 0 <= i < init.len() ==> init[i] == b[i]);
    }
}

/// An upload leaves behind what was sent, where it belongs: as long as the frames are accepted,
/// every file holds exactly the bytes of its data frames, every link its target, and the
/// directories above them and those that were sent are made sure of.
pub proof fn law_uploads_leave_what_was_sent(
    recursive: bool,
    root_is_dir: bool,
    root: Seq<char>,
    source: Seq<char>,
    frames: Seq<Option<FrameView>>,
)
    requires
        !upload_run(Upload { recursive, root_is_dir, file_open: false, over: false }, frames).0.over,
    ensures
        ({
            let u = Upload { recursive, root_is_dir, file_open: false, over: false };
            let (next, actions) = upload_run(u, frames);
            let r = taken_over(recursive, root_is_dir, root, source, frames);
            &&& next == (Upload { file_open: next.file_open, ..u })
            &&& performed_all(root, source, actions) == r
            &&& next.file_open == r.open is Some
        }),
    decreases frames.len(),
{
    let u = Upload { recursive, root_is_dir, file_open: false, over: false };
    reveal_strlit("copy");
    assert("copy"@ =~= seq!['c', 'o', 'p', 'y']);
    if frames.len() > 0 {
        let init = frames.drop_last();
        let (mid, actions) = upload_run(u, init);
        let more = upload_step(mid, frames.last()).1;
        law_uploads_leave_what_was_sent(recursive, root_is_dir, root, source, init);
        lemma_performed_add(root, source, actions, more);
        assert(performed_all(root, source, actions + more) =~= taken_over(
            recursive,
            root_is_dir,
            root,
            source,
            frames,
        ));
    }
}

/// The frames of a file come in order, and the end of the frames ends the upload: it succeeds
/// where no file is open, and fails otherwise, as do data and the end of a file that is not
/// open, a file that begins within another, and a directory in a copy that is not recursive.
/// Nothing else fails.
pub proof fn law_uploads_fail_on_disorder(u: Upload, frame: Option<FrameView>)
    requires
        !u.over,
    ensures
        ({
            let (next, actions) = upload_step(u, frame);
            let fails = actions.len() == 1 && actions[0] is Fail;
            let ends = frame is None || frame matches Some(FrameView::EndOfStream);
            &&& next.over == (fails || ends)
            &&& ends && !u.file_open ==> actions == seq![UploadActionView::Done]
            &&& !ends ==> !(actions.contains(UploadActionView::Done))
            &&& fails == match frame {
                Some(FrameView::BeginFile { .. }) => u.file_open,
                Some(FrameView::FileData { .. }) => !u.file_open,
                Some(FrameView::EndFile) => !u.file_open,
                Some(FrameView::BeginDirectory { .. }) => !u.recursive,
                Some(FrameView::Symlink { .. }) => false,
                Some(FrameView::EndOfStream) | None => u.file_open,
            }
        }),
{
}

// ---------------------------------------------------------------------------
// Files at hand
// ---------------------------------------------------------------------------
/// The size of the frames that a file is sent in.
pub const FRAME_SIZE: usize = 65536;

/// What some frames hold that are all data.
pub open spec fn data_of(frames: Seq<CopyFrame>) -> Seq<Seq<u8>> {
    Seq::new(frames.len(), |i: int| frames[i]->data@)
}

/// The frames of a single file that is at hand: its beginning, its bytes, its end, and the end
/// of the copy.
pub open spec fn are_file_frames(frames: Seq<CopyFrame>, name: Seq<char>, data: Seq<u8>) -> bool {
    let n = frames.len();
    &&& n >= 3
    &&& frames[0] matches CopyFrame::BeginFile { relative_path, mode, size, mtime }
        && relative_path@ == name && mode == 0 && size == data.len() && mtime == 0
    &&& forall|i: int| 1 <= i < n - 2 ==> #[trigger] frames[i] is FileData
    &&& lists::cut_into(data, data_of(frames.subrange(1, n - 2)), FRAME_SIZE as int)
    &&& frames[n - 2] is EndFile
    &&& frames[n - 1] is EndOfStream
}

/// The frames of a single file that is at hand.
#[verifier::loop_isolation(false)]
pub fn file_frames(name: String, data: &[u8]) -> (r: Vec<CopyFrame>)
    ensures
        are_file_frames(r@, name@, data@),
{
    let ghost wanted = name@;
    let mut r: Vec<CopyFrame> = Vec::new();
    let size: u64 = data.len() as u64;
    let first = CopyFrame::BeginFile { relative_path: name, mode: 0, size, mtime: 0 };
    let ghost begin = first;
    r.push(first);
    let mut pieces = chunks(data, FRAME_SIZE);
    let ghost all = lists::views(pieces@);
    let ghost mut done: int = 0;
    while pieces.len() > 0
        invariant
            0 <= done <= all.len(),
            lists::views(pieces@) == all.skip(done),
            r@.len() == done + 1,
            r@[0] == begin,
            forall|i: int| 1 <= i < r@.len() ==> #[trigger] r@[i] is FileData,
            data_of(r@.skip(1)) == all.take(done),
        decreases pieces.len(),
    {
        let ghost left = lists::views(pieces@);
        let piece = pieces.remove(0);
        let ghost before = r@;
        r.push(CopyFrame::FileData { data: piece });
        proof {
            assert(left[0] == piece@);
            assert(piece@ == all[done]);
            assert(lists::views(pieces@) =~= left.skip(1));
            assert(r@.skip(1) =~= before.skip(1).push(r@[done + 1]));
            assert(data_of(r@.skip(1)) =~= data_of(before.skip(1)).push(piece@));
            done = done + 1;
            assert(lists::views(pieces@) =~= all.skip(done));
            assert(all.take(done) =~= all.take(done - 1).push(piece@));
        }
    }
    let ghost before = r@;
    r.push(CopyFrame::EndFile);
    r.push(CopyFrame::EndOfStream);
    proof {
        assert(all.take(done) =~= all);
        assert(r@.subrange(1, r@.len() - 2) =~= before.skip(1));
    }
    r
}

// ---------------------------------------------------------------------------
// What a channel tells
// ---------------------------------------------------------------------------
/// What an open channel does with some events, one action for each.
pub open spec fn channel_run(c: ExecChannel, events: Seq<ExecEvent>) -> (
    ExecChannel,
    Seq<ExecActionView>,
)
    decreases events.len(),
{
    if events.len() == 0 {
        (c, Seq::empty())
    } else {
        let (mid, actions) = channel_run(c, events.drop_last());
        let (next, action) = exec_step(mid, events.last());
        (next, actions.push(action))
    }
}

/// The last code that the messages told: a status, or 255 for a signal.
pub open spec fn last_code(events: Seq<ExecEvent>) -> Option<i32>
    decreases events.len(),
{
    if events.len() == 0 {
        None
    } else {
        match events.last() {
            ExecEvent::Message(Some(ChannelMessage::ExitStatus(status))) => Some(status as i32),
            ExecEvent::Message(Some(ChannelMessage::ExitSignal)) => Some(255),
            _ => last_code(events.drop_last()),
        }
    }
}

/// A channel writes the input as it comes until it ends, and tells its end once; it forwards
/// output and errors as what they are; and at its end it tells the last code that was reported,
/// or 255 where none was.
pub proof fn law_channels_tell_what_happens(events: Seq<ExecEvent>, i: int)
    requires
        0 <= i < events.len(),
    ensures
        ({
            let open = ExecChannel { exit_code: None, stdin_open: true };
            let actions = channel_run(open, events).1;
            let ended = exists|j: int|
                0 <= j < i && (#[trigger] events[j]) matches ExecEvent::Stdin(None);
            &&& actions.len() == events.len()
            &&& match events[i] {
                ExecEvent::Stdin(Some(data)) => actions[i] == if ended {
                    ExecActionView::Nothing
                } else {
                    ExecActionView::Write(data@)
                },
                ExecEvent::Stdin(None) => actions[i] == if ended {
                    ExecActionView::Nothing
                } else {
                    ExecActionView::SendEof
                },
                ExecEvent::Message(Some(ChannelMessage::Data(data))) => actions[i]
                    == ExecActionView::Forward(execute::EventView::Stdout(data@)),
                ExecEvent::Message(Some(ChannelMessage::ExtendedData(data))) => actions[i]
                    == ExecActionView::Forward(execute::EventView::Stderr(data@)),
                ExecEvent::Message(Some(_)) => actions[i] is Nothing,
                ExecEvent::Message(None) => actions[i] == ExecActionView::Finish(
                    match last_code(events.take(i)) {
                        Some(code) => code as int,
                        None => 255,
                    },
                ),
            }
        }),
    decreases events.len(),
{
    let open = ExecChannel { exit_code: None, stdin_open: true };
    let init = events.drop_last();
    lemma_channel_run(init);
    if i < init.len() {
        law_channels_tell_what_happens(init, i);
        assert(init.take(i) =~= events.take(i));
        assert forall|j: int| 0 <= j < i implies #[trigger] events[j] == init[j] by {}
    } else {
        assert(events.take(i) =~= init);
        assert forall|j: int| 0 <= j < i implies #[trigger] events[j] == init[j] by {}
    }
}

proof fn lemma_channel_run(events: Seq<ExecEvent>)
    ensures
        ({
            let open = ExecChannel { exit_code: None, stdin_open: true };
            let (c, actions) = channel_run(open, events);
            &&& actions.len() == events.len()
            &&& c.exit_code == last_code(events)
            &&& c.stdin_open == !exists|j: int|
                0 <= j < events.len() && (#[trigger] events[j]) matches ExecEvent::Stdin(None)
        }),
    decreases events.len(),
{
    if events.len() > 0 {
        let init = events.drop_last();
        lemma_channel_run(init);
        assert forall|j: int| 0 <= j < init.len() implies #[trigger] events[j] == init[j] by {}
        if exists|j: int|
            0 <= j < init.len() && (#[trigger] init[j]) matches ExecEvent::Stdin(None) {
            let j = choose|j: int|
                0 <= j < init.len() && (#[trigger] init[j]) matches ExecEvent::Stdin(None);
            assert(events[j] matches ExecEvent::Stdin(None));
        }
        if events.last() matches ExecEvent::Stdin(None) {
            assert(events[events.len() - 1] matches ExecEvent::Stdin(None));
        }
    }
}

/// The frames of a file tell its name and its size, all its bytes in order, and its end.
pub proof fn law_file_frames_tell_the_file(
    frames: Seq<CopyFrame>,
    name: Seq<char>,
    data: Seq<u8>,
)
    requires
        are_file_frames(frames, name, data),
    ensures
        ({
            let n = frames.len() as int;
            &&& n >= 3
            &&& frames[0]@ == (FrameView::BeginFile {
                relative_path: name,
                mode: 0,
                size: data.len() as u64,
                mtime: 0,
            })
            &&& lists::flat(data_of(frames.subrange(1, n - 2))) == data
            &&& forall|i: int|
                1 <= i < n - 2 ==> (#[trigger] frames[i])@ == (FrameView::FileData {
                    data: data_of(frames.subrange(1, n - 2))[i - 1],
                })
            &&& frames[n - 2] is EndFile
            &&& frames[n - 1] is EndOfStream
        }),
{
    let n = frames.len() as int;
    assert forall|i: int| 1 <= i < n - 2 implies (#[trigger] frames[i])@ == (FrameView::FileData {
        data: data_of(frames.subrange(1, n - 2))[i - 1],
    }) by {
        assert(frames.subrange(1, n - 2)[i - 1] == frames[i]);
    }
}

/// What is stated of a [`ExecAction`] is stated of its own parts: each kind is seen as that
/// kind, with all that it holds.
pub proof fn law_exec_action_is_seen_as_it_is(value: ExecAction)
    ensures
        ({
            let seen = value@;
            match value {
                ExecAction::Nothing => seen == ExecActionView::Nothing,
                ExecAction::Write(d) => seen == ExecActionView::Write(d@),
                ExecAction::SendEof => seen == ExecActionView::SendEof,
                ExecAction::Forward(e) => seen == ExecActionView::Forward(e@),
                ExecAction::Finish(c) => seen == ExecActionView::Finish(c as int),
            }
        }),
{
}

/// What is stated of a [`CopyFrame`] is stated of its own parts: each kind is seen as that
/// kind, with all that it holds.
pub proof fn law_copy_frame_is_seen_as_it_is(value: CopyFrame)
    ensures
        ({
            let seen = value@;
            match value {
                CopyFrame::BeginFile { relative_path, mode, size, mtime } => seen
                    == (FrameView::BeginFile {
                    relative_path: relative_path@,
                    mode: mode,
                    size: size,
                    mtime: mtime,
                }),
                CopyFrame::FileData { data } => seen == (FrameView::FileData { data: data@ }),
                CopyFrame::EndFile => seen == FrameView::EndFile,
                CopyFrame::BeginDirectory { relative_path, mode, mtime } => seen == ({
                    FrameView::BeginDirectory {
                        relative_path: relative_path@,
                        mode: mode,
                        mtime: mtime,
                    }
                }),
                CopyFrame::Symlink { relative_path, target } => seen == (FrameView::Symlink {
                    relative_path: relative_path@,
                    target: target@,
                }),
                CopyFrame::EndOfStream => seen == FrameView::EndOfStream,
            }
        }),
{
}

/// What is stated of a [`UploadAction`] is stated of its own parts: each kind is seen as that
/// kind, with all that it holds.
pub proof fn law_upload_action_is_seen_as_it_is(value: UploadAction)
    ensures
        ({
            let seen = value@;
            match value {
                UploadAction::CreateParents(d) => seen == UploadActionView::CreateParents(d@),
                UploadAction::CreateFile(d) => seen == UploadActionView::CreateFile(d@),
                UploadAction::Write(data) => seen == UploadActionView::Write(data@),
                UploadAction::CloseFile => seen == UploadActionView::CloseFile,
                UploadAction::CreateDirs(d) => seen == UploadActionView::CreateDirs(d@),
                UploadAction::RemoveFile(d) => seen == UploadActionView::RemoveFile(d@),
                UploadAction::CreateSymlink(d, t) => seen == UploadActionView::CreateSymlink(d@, t@),
                UploadAction::Done => seen == UploadActionView::Done,
                UploadAction::Fail(e) => seen == UploadActionView::Fail(e@),
            }
        }),
{
}

} // verus!
