//! Receiving one changeset in the enclave.
//!
//! The files of a directory `d` lie in a stamped directory `d/..<time>`. The link
//! `d/..data` leads there, and a link `d/<name>` for each file leads through
//! `..data`. A changeset is received into a stamped directory of its own and put
//! in place by renaming a fresh link over `..data`, so that readers see either all
//! of the old files or all of the new ones.
//!
//! When a file cannot be stored, what was received is removed, and the content
//! that is still on the connection is read to its end, so that the messages behind
//! it are found.

use vstd::prelude::*;
use vstd::string::*;

use crate::actions::{Action, ActionView, Reply, ReplyView};
use crate::clock::{is_moment, is_stamp_dir, stamp_dir_name, stamp_dir_of, Moment};
use crate::files::SYNC_IO_BUFFER_SIZE;
use crate::messages::{
    entry_views, message_text, option_view, FileEntry, FileEntryView, MessageView, SyncMessage,
};
use crate::paths::{join, join_of};
use crate::sizes::{
    lemma_offset_order, lemma_offset_step, lemma_total_bound, size_from, sum_sizes_from, total_size,
};

verus! {

/// What is known of a directory that changesets were received for.
#[derive(Debug)]
pub struct DirectoryState {
    /// Name of the stamped directory that is in place.
    pub current_ts_dir: Option<String>,
    /// Whether the links to the single files have been created.
    pub symlinks_created: bool,
}

/// The value of a [`DirectoryState`].
#[verifier::ext_equal]
pub struct DirectoryStateView {
    pub current_ts_dir: Option<Seq<char>>,
    pub symlinks_created: bool,
}

impl View for DirectoryState {
    type V = DirectoryStateView;

    open spec fn view(&self) -> DirectoryStateView {
        DirectoryStateView {
            current_ts_dir: option_view(self.current_ts_dir),
            symlinks_created: self.symlinks_created,
        }
    }
}

/// The value of an optional directory state.
pub open spec fn state_view(s: Option<DirectoryState>) -> Option<DirectoryStateView> {
    match s {
        Some(t) => Some(t@),
        None => None,
    }
}

impl Clone for DirectoryState {
    fn clone(&self) -> (result: Self)
        ensures
            result@ == self@,
    {
        DirectoryState {
            current_ts_dir: match &self.current_ts_dir {
                Some(name) => Some(name.clone()),
                None => None,
            },
            symlinks_created: self.symlinks_created,
        }
    }
}

/// Why a changeset was not put in place. Where an operation failed, `reason` is
/// what it gave as its reason.
#[derive(Debug)]
pub enum ChangesetError {
    CreateTarget { directory: String, reason: String },
    CreateStamped { path: String, reason: String },
    CreateTemp { name: String, reason: String },
    ReadContent { name: String, reason: String },
    RenameTemp { path: String, reason: String },
    UnexpectedEnd { directory: String, got: String },
    LinkData { reason: String },
    SwapData { reason: String },
    LinkFile { link: String, target: String, reason: String },
    /// An operation failed that has nothing to add to its reason.
    Io { reason: String },
}

/// The value of a [`ChangesetError`].
#[verifier::ext_equal]
pub enum ErrorView {
    CreateTarget { directory: Seq<char>, reason: Seq<char> },
    CreateStamped { path: Seq<char>, reason: Seq<char> },
    CreateTemp { name: Seq<char>, reason: Seq<char> },
    ReadContent { name: Seq<char>, reason: Seq<char> },
    RenameTemp { path: Seq<char>, reason: Seq<char> },
    UnexpectedEnd { directory: Seq<char>, got: Seq<char> },
    LinkData { reason: Seq<char> },
    SwapData { reason: Seq<char> },
    LinkFile { link: Seq<char>, target: Seq<char>, reason: Seq<char> },
    Io { reason: Seq<char> },
}

impl View for ChangesetError {
    type V = ErrorView;

    open spec fn view(&self) -> ErrorView {
        match self {
            ChangesetError::CreateTarget { directory, reason } => ErrorView::CreateTarget {
                directory: directory@,
                reason: reason@,
            },
            ChangesetError::CreateStamped { path, reason } => ErrorView::CreateStamped {
                path: path@,
                reason: reason@,
            },
            ChangesetError::CreateTemp { name, reason } => ErrorView::CreateTemp {
                name: name@,
                reason: reason@,
            },
            ChangesetError::ReadContent { name, reason } => ErrorView::ReadContent {
                name: name@,
                reason: reason@,
            },
            ChangesetError::RenameTemp { path, reason } => ErrorView::RenameTemp {
                path: path@,
                reason: reason@,
            },
            ChangesetError::UnexpectedEnd { directory, got } => ErrorView::UnexpectedEnd {
                directory: directory@,
                got: got@,
            },
            ChangesetError::LinkData { reason } => ErrorView::LinkData { reason: reason@ },
            ChangesetError::SwapData { reason } => ErrorView::SwapData { reason: reason@ },
            ChangesetError::LinkFile { link, target, reason } => ErrorView::LinkFile {
                link: link@,
                target: target@,
                reason: reason@,
            },
            ChangesetError::Io { reason } => ErrorView::Io { reason: reason@ },
        }
    }
}

impl ErrorView {
    /// The text that tells the host what went wrong.
    pub open spec fn text(self) -> Seq<char> {
        match self {
            ErrorView::CreateTarget { directory, .. } => "creating target directory "@ + directory,
            ErrorView::CreateStamped { path, .. } => "creating timestamped directory "@ + path,
            ErrorView::CreateTemp { name, .. } => "creating temp file for "@ + name,
            ErrorView::ReadContent { name, .. } => "reading file content for "@ + name,
            ErrorView::RenameTemp { path, .. } => "renaming temp file to "@ + path,
            ErrorView::UnexpectedEnd { directory, got } => "expected ChangesetEnd for "@ + directory
                + ", got "@ + got,
            ErrorView::LinkData { .. } => "creating ..data_tmp symlink"@,
            ErrorView::SwapData { .. } => "atomic rename ..data_tmp to ..data"@,
            ErrorView::LinkFile { link, target, .. } => "creating file symlink "@ + link + " -> "@
                + target,
            ErrorView::Io { reason } => reason,
        }
    }

    /// What is behind the error: the reason of the operation that failed, where
    /// the text does not give it already.
    pub open spec fn cause(self) -> Option<Seq<char>> {
        match self {
            ErrorView::CreateTarget { reason, .. } => Some(reason),
            ErrorView::CreateStamped { reason, .. } => Some(reason),
            ErrorView::CreateTemp { reason, .. } => Some(reason),
            ErrorView::ReadContent { reason, .. } => Some(reason),
            ErrorView::RenameTemp { reason, .. } => Some(reason),
            ErrorView::UnexpectedEnd { .. } => None,
            ErrorView::LinkData { reason } => Some(reason),
            ErrorView::SwapData { reason } => Some(reason),
            ErrorView::LinkFile { reason, .. } => Some(reason),
            ErrorView::Io { .. } => None,
        }
    }
}

impl ChangesetError {
    /// The text that tells the host what went wrong.
    pub fn message(&self) -> (result: String)
        ensures
            result@ == self@.text(),
    {
        match self {
            ChangesetError::CreateTarget { directory, .. } => {
                "creating target directory ".to_owned().concat(directory.as_str())
            },
            ChangesetError::CreateStamped { path, .. } => {
                "creating timestamped directory ".to_owned().concat(path.as_str())
            },
            ChangesetError::CreateTemp { name, .. } => {
                "creating temp file for ".to_owned().concat(name.as_str())
            },
            ChangesetError::ReadContent { name, .. } => {
                "reading file content for ".to_owned().concat(name.as_str())
            },
            ChangesetError::RenameTemp { path, .. } => {
                "renaming temp file to ".to_owned().concat(path.as_str())
            },
            ChangesetError::UnexpectedEnd { directory, got } => {
                "expected ChangesetEnd for ".to_owned().concat(directory.as_str()).concat(
                    ", got ",
                ).concat(got.as_str())
            },
            ChangesetError::LinkData { .. } => "creating ..data_tmp symlink".to_owned(),
            ChangesetError::SwapData { .. } => "atomic rename ..data_tmp to ..data".to_owned(),
            ChangesetError::LinkFile { link, target, .. } => {
                "creating file symlink ".to_owned().concat(link.as_str()).concat(" -> ").concat(
                    target.as_str(),
                )
            },
            ChangesetError::Io { reason } => reason.clone(),
        }
    }

    /// What is behind the error, where [`ChangesetError::message`] does not give
    /// it already.
    pub fn cause(&self) -> (result: Option<String>)
        ensures
            option_view(result) == self@.cause(),
    {
        match self {
            ChangesetError::CreateTarget { reason, .. } => Some(reason.clone()),
            ChangesetError::CreateStamped { reason, .. } => Some(reason.clone()),
            ChangesetError::CreateTemp { reason, .. } => Some(reason.clone()),
            ChangesetError::ReadContent { reason, .. } => Some(reason.clone()),
            ChangesetError::RenameTemp { reason, .. } => Some(reason.clone()),
            ChangesetError::UnexpectedEnd { .. } => None,
            ChangesetError::LinkData { reason } => Some(reason.clone()),
            ChangesetError::SwapData { reason } => Some(reason.clone()),
            ChangesetError::LinkFile { reason, .. } => Some(reason.clone()),
            ChangesetError::Io { .. } => None,
        }
    }
}

/// Which operation of a changeset is under way.
#[derive(Clone, Copy, Debug, PartialEq, Eq, Structural)]
pub enum Stage {
    /// Creating the target directory.
    MakeTarget,
    /// Creating the stamped directory.
    MakeStamped,
    /// Creating the temporary file for a file.
    CreateTemp { file: usize },
    /// Reading content of which `remaining` bytes are missing.
    ReadChunk { file: usize, remaining: u64 },
    /// Writing content, after which `remaining` bytes are missing.
    WriteChunk { file: usize, remaining: u64 },
    /// Flushing the temporary file.
    Flush { file: usize },
    /// Giving the temporary file its name.
    RenameTemp { file: usize },
    /// Removing the stamped directory after the files could not be received, of
    /// whose content `unread` bytes are still on the connection.
    Discard { unread: u128 },
    /// Reading content that nothing is done with, so that the message behind it
    /// is found.
    Skip { unread: u128 },
    /// Receiving the message that ends the changeset that was given up.
    Drain,
    /// Receiving the message that ends the changeset.
    AwaitEnd,
    /// Removing the stamped directory after a message that does not end the
    /// changeset.
    Reject,
    /// Removing what an earlier attempt left of the link that is renamed.
    DropStale,
    /// Creating the link that is renamed.
    LinkData,
    /// Renaming the link over the one in place.
    SwapData,
    /// Removing what is where the link to a file belongs.
    ClearLink { file: usize },
    /// Creating the link to a file.
    MakeLink { file: usize },
    /// Removing the stamped directory that was in place before.
    Retire,
    /// The changeset is over.
    Finished,
}

/// How a changeset goes on: with an operation, or not at all.
#[derive(Debug)]
pub enum Progress {
    Next { action: Action },
    Finished { result: Result<(), ChangesetError> },
}

/// The value of a [`Progress`].
#[verifier::ext_equal]
pub enum ProgressView {
    Next { action: ActionView },
    Finished { result: Result<(), ErrorView> },
}

impl View for Progress {
    type V = ProgressView;

    open spec fn view(&self) -> ProgressView {
        match self {
            Progress::Next { action } => ProgressView::Next { action: action@ },
            Progress::Finished { result } => ProgressView::Finished {
                result: match result {
                    Ok(()) => Ok(()),
                    Err(e) => Err(e@),
                },
            },
        }
    }
}

/// How many bytes are read at a time when `remaining` are missing.
pub open spec fn chunk_len(remaining: nat) -> nat {
    if remaining <= SYNC_IO_BUFFER_SIZE {
        remaining
    } else {
        SYNC_IO_BUFFER_SIZE as nat
    }
}

/// Computes [`chunk_len`].
pub fn chunk(remaining: u128) -> (result: usize)
    ensures
        result == chunk_len(remaining as nat),
{
    if remaining <= SYNC_IO_BUFFER_SIZE as u128 {
        remaining as usize
    } else {
        SYNC_IO_BUFFER_SIZE
    }
}

/// The value of a changeset that is being received.
#[verifier::ext_equal]
pub struct ChangesetView {
    pub directory: Seq<char>,
    pub files: Seq<FileEntryView>,
    /// Name of the stamped directory, once it has one.
    pub ts_dir: Seq<char>,
    /// What is known of the directory.
    pub state: Option<DirectoryStateView>,
    pub stage: Stage,
    /// Why the changeset was given up, until that is reported.
    pub failure: Option<ErrorView>,
}

impl ChangesetView {
    /// A changeset about to create its target directory.
    pub open spec fn initial(
        directory: Seq<char>,
        files: Seq<FileEntryView>,
        state: Option<DirectoryStateView>,
    ) -> Self {
        ChangesetView {
            directory,
            files,
            ts_dir: Seq::empty(),
            state,
            stage: Stage::MakeTarget,
            failure: None,
        }
    }

    /// Path of the stamped directory.
    pub open spec fn ts_path(self) -> Seq<char> {
        join_of(self.directory, self.ts_dir)
    }

    /// Path of the temporary file for the file `i`.
    pub open spec fn tmp_path(self, i: int) -> Seq<char> {
        join_of(self.ts_path(), ".tmp."@ + self.files[i].name)
    }

    /// Path of the file `i` in the stamped directory.
    pub open spec fn file_path(self, i: int) -> Seq<char> {
        join_of(self.ts_path(), self.files[i].name)
    }

    /// Path of the link that leads to the files in place.
    pub open spec fn data_path(self) -> Seq<char> {
        join_of(self.directory, "..data"@)
    }

    /// Path of the link that is renamed over it.
    pub open spec fn data_tmp_path(self) -> Seq<char> {
        join_of(self.directory, "..data_tmp"@)
    }

    /// Path of the link to the file `i`.
    pub open spec fn link_path(self, i: int) -> Seq<char> {
        join_of(self.directory, self.files[i].name)
    }

    /// Where the link to the file `i` leads.
    pub open spec fn link_target(self, i: int) -> Seq<char> {
        join_of("..data"@, self.files[i].name)
    }

    /// Goes on with `action` in `stage`.
    pub open spec fn go(self, stage: Stage, action: ActionView) -> (Self, ProgressView) {
        (ChangesetView { stage, ..self }, ProgressView::Next { action })
    }

    /// Ends with `result`.
    pub open spec fn end(self, result: Result<(), ErrorView>) -> (Self, ProgressView) {
        (
            ChangesetView { stage: Stage::Finished, failure: None, ..self },
            ProgressView::Finished { result },
        )
    }

    /// Goes on with the file `i`, or with the end of the changeset behind the
    /// last one.
    pub open spec fn next_file(self, i: int) -> (Self, ProgressView) {
        if i < self.files.len() {
            self.go(
                Stage::CreateTemp { file: i as usize },
                ActionView::CreateFile { path: self.tmp_path(i) },
            )
        } else {
            self.go(Stage::AwaitEnd, ActionView::Receive)
        }
    }

    /// Goes on with the content of the file `i`, of which `remaining` bytes are
    /// missing.
    pub open spec fn next_chunk(self, i: int, remaining: nat) -> (Self, ProgressView) {
        if remaining > 0 {
            self.go(
                Stage::ReadChunk { file: i as usize, remaining: remaining as u64 },
                ActionView::ReadExact { len: chunk_len(remaining) },
            )
        } else {
            self.go(Stage::Flush { file: i as usize }, ActionView::Flush)
        }
    }

    /// Gives the changeset up: what was received is removed first.
    pub open spec fn give_up(self, error: ErrorView, stage: Stage) -> (Self, ProgressView) {
        (ChangesetView { failure: Some(error), ..self }).go(
            stage,
            ActionView::RemoveDir { path: self.ts_path() },
        )
    }

    /// Gives up the files that are being received, with `unread` bytes of their
    /// content still to come.
    pub open spec fn discard(self, error: ErrorView, unread: nat) -> (Self, ProgressView) {
        self.give_up(error, Stage::Discard { unread: unread as u128 })
    }

    /// Goes on with reading the content that nothing is done with; behind it, the
    /// message that ends the changeset is received.
    pub open spec fn skip(self, unread: nat) -> (Self, ProgressView) {
        if unread > 0 {
            self.go(
                Stage::Skip { unread: unread as u128 },
                ActionView::ReadExact { len: chunk_len(unread) },
            )
        } else {
            self.go(Stage::Drain, ActionView::Receive)
        }
    }

    /// Goes on with the link to the file `i`; behind the last one, the links
    /// have been created.
    pub open spec fn next_link(self, i: int) -> (Self, ProgressView) {
        if i < self.files.len() {
            self.go(
                Stage::ClearLink { file: i as usize },
                ActionView::RemoveFile { path: self.link_path(i) },
            )
        } else {
            (ChangesetView {
                state: Some(DirectoryStateView { symlinks_created: true, ..self.state->0 }),
                ..self
            }).retire()
        }
    }

    /// Goes on with removing the stamped directory that was in place before, if
    /// there was one.
    pub open spec fn retire(self) -> (Self, ProgressView) {
        match self.state->0.current_ts_dir {
            Some(old_dir) => self.go(
                Stage::Retire,
                ActionView::RemoveDir { path: join_of(self.directory, old_dir) },
            ),
            None => self.complete(),
        }
    }

    /// Ends well: the stamped directory of this changeset is in place.
    pub open spec fn complete(self) -> (Self, ProgressView) {
        (ChangesetView {
            state: Some(
                DirectoryStateView { current_ts_dir: Some(self.ts_dir), ..self.state->0 },
            ),
            ..self
        }).end(Ok(()))
    }

    /// What is known of the directory once the files are in place.
    pub open spec fn placed(self) -> Self {
        ChangesetView {
            state: Some(
                match self.state {
                    Some(s) => s,
                    None => DirectoryStateView { current_ts_dir: None, symlinks_created: false },
                },
            ),
            ..self
        }
    }

    /// Whether `reply` can be the outcome of the operation under way.
    pub open spec fn expects(self, reply: ReplyView) -> bool {
        match self.stage {
            Stage::ReadChunk { file, remaining } => match reply {
                ReplyView::Data { bytes } => bytes.len() == chunk_len(remaining as nat),
                ReplyView::Failed { reason } => true,
                _ => false,
            },
            Stage::Skip { unread } => match reply {
                ReplyView::Data { bytes } => bytes.len() == chunk_len(unread as nat),
                ReplyView::Failed { reason } => true,
                _ => false,
            },
            Stage::AwaitEnd | Stage::Drain => reply is Message || reply is Failed,
            Stage::Finished => false,
            _ => reply is Done || reply is Failed,
        }
    }

    /// The changeset after `reply`, and how it goes on. `now` is the time at
    /// which the stamped directory gets its name.
    pub open spec fn step(self, reply: ReplyView, now: Moment) -> (Self, ProgressView) {
        let failed = reply is Failed;
        let reason = reply->Failed_reason;
        let io = ErrorView::Io { reason };
        match self.stage {
            Stage::MakeTarget => if failed {
                self.end(Err(ErrorView::CreateTarget { directory: self.directory, reason }))
            } else {
                let named = ChangesetView { ts_dir: stamp_dir_of(now), ..self };
                named.go(Stage::MakeStamped, ActionView::CreateDir { path: named.ts_path() })
            },
            Stage::MakeStamped => if failed {
                self.end(Err(ErrorView::CreateStamped { path: self.ts_path(), reason }))
            } else {
                self.next_file(0)
            },
            Stage::CreateTemp { file } => if failed {
                self.discard(
                    ErrorView::CreateTemp { name: self.files[file as int].name, reason },
                    size_from(self.files, file as int),
                )
            } else {
                self.next_chunk(file as int, self.files[file as int].size)
            },
            Stage::ReadChunk { file, remaining } => if failed {
                self.discard(
                    ErrorView::ReadContent { name: self.files[file as int].name, reason },
                    0,
                )
            } else {
                self.go(
                    Stage::WriteChunk {
                        file,
                        remaining: (remaining - chunk_len(remaining as nat)) as u64,
                    },
                    ActionView::Write { bytes: reply->Data_bytes },
                )
            },
            Stage::WriteChunk { file, remaining } => if failed {
                self.discard(io, remaining as nat + size_from(self.files, file + 1))
            } else {
                self.next_chunk(file as int, remaining as nat)
            },
            Stage::Flush { file } => if failed {
                self.discard(io, size_from(self.files, file + 1))
            } else {
                self.go(
                    Stage::RenameTemp { file },
                    ActionView::Rename {
                        from: self.tmp_path(file as int),
                        to: self.file_path(file as int),
                    },
                )
            },
            Stage::RenameTemp { file } => if failed {
                self.discard(
                    ErrorView::RenameTemp { path: self.file_path(file as int), reason },
                    size_from(self.files, file + 1),
                )
            } else {
                self.next_file(file + 1)
            },
            Stage::Discard { unread } => self.skip(unread as nat),
            Stage::Skip { unread } => if failed {
                self.end(Err(io))
            } else {
                self.skip((unread - chunk_len(unread as nat)) as nat)
            },
            Stage::Drain => if failed {
                self.end(Err(io))
            } else {
                self.end(Err(self.failure->0))
            },
            Stage::AwaitEnd => if failed {
                self.end(Err(io))
            } else if reply->Message_message == (MessageView::ChangesetEnd {
                directory: self.directory,
            }) {
                self.go(
                    Stage::DropStale,
                    ActionView::RemoveFile { path: self.data_tmp_path() },
                )
            } else {
                self.give_up(
                    ErrorView::UnexpectedEnd {
                        directory: self.directory,
                        got: message_text(reply->Message_message),
                    },
                    Stage::Reject,
                )
            },
            Stage::Reject => self.end(Err(self.failure->0)),
            Stage::DropStale => self.go(
                Stage::LinkData,
                ActionView::Symlink { target: self.ts_dir, link: self.data_tmp_path() },
            ),
            Stage::LinkData => if failed {
                self.end(Err(ErrorView::LinkData { reason }))
            } else {
                self.go(
                    Stage::SwapData,
                    ActionView::Rename { from: self.data_tmp_path(), to: self.data_path() },
                )
            },
            Stage::SwapData => if failed {
                self.end(Err(ErrorView::SwapData { reason }))
            } else if self.placed().state->0.symlinks_created {
                self.placed().retire()
            } else {
                self.placed().next_link(0)
            },
            Stage::ClearLink { file } => self.go(
                Stage::MakeLink { file },
                ActionView::Symlink {
                    target: self.link_target(file as int),
                    link: self.link_path(file as int),
                },
            ),
            Stage::MakeLink { file } => if failed {
                self.end(
                    Err(
                        ErrorView::LinkFile {
                            link: self.link_path(file as int),
                            target: self.link_target(file as int),
                            reason,
                        },
                    ),
                )
            } else {
                self.next_link(file + 1)
            },
            Stage::Retire => self.complete(),
            Stage::Finished => self.end(Ok(())),
        }
    }

    /// What holds of every changeset at every stage.
    pub open spec fn wf(self) -> bool {
        &&& self.files.len() <= usize::MAX
        &&& forall|i: int| 0 <= i < self.files.len() ==> (#[trigger] self.files[i]).size <= u64::MAX
        &&& self.stage != Stage::MakeTarget && self.stage != Stage::Finished ==> is_stamp_dir(
            self.ts_dir,
        )
        &&& self.failure is Some <==> (self.stage is Discard || self.stage is Skip || self.stage
            == Stage::Drain || self.stage == Stage::Reject)
        &&& match self.stage {
            Stage::CreateTemp { file } | Stage::Flush { file } | Stage::RenameTemp { file } => file
                < self.files.len(),
            Stage::ReadChunk { file, remaining } => file < self.files.len() && 0 < remaining
                <= self.files[file as int].size,
            Stage::WriteChunk { file, remaining } => file < self.files.len() && remaining
                < self.files[file as int].size,
            Stage::Discard { unread } => unread <= total_size(self.files),
            Stage::Skip { unread } => 0 < unread <= total_size(self.files),
            Stage::ClearLink { file } | Stage::MakeLink { file } => file < self.files.len()
                && self.state is Some && !self.state->0.symlinks_created,
            Stage::Retire => self.state is Some && self.state->0.symlinks_created
                && self.state->0.current_ts_dir is Some,
            _ => true,
        }
    }
}

/// The unread content of a changeset is never more than all of its content, which
/// 128 bits can count.
pub proof fn lemma_sizes_bounded(c: ChangesetView)
    requires
        c.wf(),
    ensures
        total_size(c.files) <= u128::MAX,
        match c.stage {
            Stage::CreateTemp { file } => size_from(c.files, file as int) <= total_size(c.files),
            Stage::WriteChunk { file, remaining } => remaining + size_from(c.files, file + 1)
                <= total_size(c.files),
            Stage::Flush { file } | Stage::RenameTemp { file } => size_from(c.files, file + 1)
                <= total_size(c.files),
            _ => true,
        },
{
    lemma_total_bound(c.files);
    match c.stage {
        Stage::CreateTemp { file }
        | Stage::WriteChunk { file, .. }
        | Stage::Flush { file }
        | Stage::RenameTemp { file } => {
            lemma_offset_step(c.files, file as int);
            lemma_offset_order(c.files, file as int, file + 1);
        },
        _ => {},
    }
}

/// A changeset that is being received.
pub struct ChangesetReceiver {
    directory: String,
    files: Vec<FileEntry>,
    ts_dir: String,
    state: Option<DirectoryState>,
    stage: Stage,
    failure: Option<ChangesetError>,
}

impl View for ChangesetReceiver {
    type V = ChangesetView;

    closed spec fn view(&self) -> ChangesetView {
        ChangesetView {
            directory: self.directory@,
            files: entry_views(self.files@),
            ts_dir: self.ts_dir@,
            state: state_view(self.state),
            stage: self.stage,
            failure: match self.failure {
                Some(e) => Some(e@),
                None => None,
            },
        }
    }
}

impl ChangesetReceiver {
    /// Begins to receive a changeset: the target directory is created first.
    pub fn start(
        directory: String,
        files: Vec<FileEntry>,
        state: Option<DirectoryState>,
    ) -> (result: (Self, Action))
        ensures
            result.0@ == ChangesetView::initial(
                directory@,
                entry_views(files@),
                state_view(state),
            ),
            result.0@.wf(),
            result.1@ == (ActionView::CreateDir { path: directory@ }),
    {
        assert(files.len() == entry_views(files@).len());
        let path = directory.clone();
        let receiver = ChangesetReceiver {
            directory,
            files,
            ts_dir: String::new(),
            state,
            stage: Stage::MakeTarget,
            failure: None,
        };
        (receiver, Action::CreateDir { path })
    }

    /// The directory of the changeset.
    pub fn directory(&self) -> (result: &String)
        ensures
            result@ == self@.directory,
    {
        &self.directory
    }

    /// What is known of the directory.
    pub fn into_state(self) -> (result: Option<DirectoryState>)
        ensures
            state_view(result) == self@.state,
    {
        self.state
    }

    fn ts_path(&self) -> (result: String)
        ensures
            result@ == self@.ts_path(),
    {
        join(self.directory.as_str(), self.ts_dir.as_str())
    }

    fn name(&self, i: usize) -> (result: &String)
        requires
            i < self@.files.len(),
        ensures
            result@ == self@.files[i as int].name,
    {
        &self.files[i].name
    }

    fn tmp_path(&self, i: usize) -> (result: String)
        requires
            i < self@.files.len(),
        ensures
            result@ == self@.tmp_path(i as int),
    {
        let tmp = ".tmp.".to_owned().concat(self.name(i).as_str());
        join(self.ts_path().as_str(), tmp.as_str())
    }

    fn file_path(&self, i: usize) -> (result: String)
        requires
            i < self@.files.len(),
        ensures
            result@ == self@.file_path(i as int),
    {
        join(self.ts_path().as_str(), self.name(i).as_str())
    }

    fn data_tmp_path(&self) -> (result: String)
        ensures
            result@ == self@.data_tmp_path(),
    {
        join(self.directory.as_str(), "..data_tmp")
    }

    fn link_path(&self, i: usize) -> (result: String)
        requires
            i < self@.files.len(),
        ensures
            result@ == self@.link_path(i as int),
    {
        join(self.directory.as_str(), self.name(i).as_str())
    }

    fn link_target(&self, i: usize) -> (result: String)
        requires
            i < self@.files.len(),
        ensures
            result@ == self@.link_target(i as int),
    {
        join("..data", self.name(i).as_str())
    }

    fn go(&mut self, stage: Stage, action: Action) -> (result: Progress)
        ensures
            (final(self)@, result@) == old(self)@.go(stage, action@),
    {
        self.stage = stage;
        Progress::Next { action }
    }

    fn end(&mut self, result: Result<(), ChangesetError>) -> (progress: Progress)
        ensures
            (final(self)@, progress@) == old(self)@.end(
                match result {
                    Ok(()) => Ok(()),
                    Err(e) => Err(e@),
                },
            ),
    {
        self.stage = Stage::Finished;
        self.failure = None;
        Progress::Finished { result }
    }

    fn next_file(&mut self, i: usize) -> (result: Progress)
        ensures
            (final(self)@, result@) == old(self)@.next_file(i as int),
    {
        if i < self.files.len() {
            let path = self.tmp_path(i);
            self.go(Stage::CreateTemp { file: i }, Action::CreateFile { path })
        } else {
            self.go(Stage::AwaitEnd, Action::Receive)
        }
    }

    fn next_chunk(&mut self, i: usize, remaining: u64) -> (result: Progress)
        ensures
            (final(self)@, result@) == old(self)@.next_chunk(i as int, remaining as nat),
    {
        if remaining > 0 {
            let len = chunk(remaining as u128);
            self.go(Stage::ReadChunk { file: i, remaining }, Action::ReadExact { len })
        } else {
            self.go(Stage::Flush { file: i }, Action::Flush)
        }
    }

    fn give_up(&mut self, error: ChangesetError, stage: Stage) -> (result: Progress)
        ensures
            (final(self)@, result@) == old(self)@.give_up(error@, stage),
    {
        let path = self.ts_path();
        self.failure = Some(error);
        self.go(stage, Action::RemoveDir { path })
    }

    fn discard(&mut self, error: ChangesetError, unread: u128) -> (result: Progress)
        ensures
            (final(self)@, result@) == old(self)@.discard(error@, unread as nat),
    {
        self.give_up(error, Stage::Discard { unread })
    }

    fn skip(&mut self, unread: u128) -> (result: Progress)
        ensures
            (final(self)@, result@) == old(self)@.skip(unread as nat),
    {
        if unread > 0 {
            let len = chunk(unread);
            self.go(Stage::Skip { unread }, Action::ReadExact { len })
        } else {
            self.go(Stage::Drain, Action::Receive)
        }
    }

    /// The number of content bytes of the files from `i` on.
    fn unread_from(&self, i: usize) -> (result: u128)
        requires
            i <= self@.files.len(),
        ensures
            result == size_from(self@.files, i as int),
    {
        sum_sizes_from(&self.files, i)
    }

    fn next_link(&mut self, i: usize) -> (result: Progress)
        requires
            old(self)@.state is Some,
        ensures
            (final(self)@, result@) == old(self)@.next_link(i as int),
    {
        if i < self.files.len() {
            let path = self.link_path(i);
            self.go(Stage::ClearLink { file: i }, Action::RemoveFile { path })
        } else {
            match self.state.take() {
                Some(s) => {
                    self.state =
                    Some(
                        DirectoryState {
                            current_ts_dir: s.current_ts_dir,
                            symlinks_created: true,
                        },
                    );
                },
                None => {},
            }
            self.retire()
        }
    }

    fn retire(&mut self) -> (result: Progress)
        requires
            old(self)@.state is Some,
        ensures
            (final(self)@, result@) == old(self)@.retire(),
    {
        let old_dir = match &self.state {
            Some(s) => match &s.current_ts_dir {
                Some(name) => Some(name.clone()),
                None => None,
            },
            None => None,
        };
        match old_dir {
            Some(name) => {
                let path = join(self.directory.as_str(), name.as_str());
                self.go(Stage::Retire, Action::RemoveDir { path })
            },
            None => self.complete(),
        }
    }

    fn complete(&mut self) -> (result: Progress)
        requires
            old(self)@.state is Some,
        ensures
            (final(self)@, result@) == old(self)@.complete(),
    {
        match self.state.take() {
            Some(s) => {
                self.state =
                Some(
                    DirectoryState {
                        current_ts_dir: Some(self.ts_dir.clone()),
                        symlinks_created: s.symlinks_created,
                    },
                );
            },
            None => {},
        }
        self.end(Ok(()))
    }

    /// Reports the failure for which the changeset was given up.
    fn report(&mut self) -> (result: Progress)
        requires
            old(self)@.failure is Some,
        ensures
            (final(self)@, result@) == old(self)@.end(Err(old(self)@.failure->0)),
    {
        match self.failure.take() {
            Some(error) => self.end(Err(error)),
            None => self.end(Ok(())),
        }
    }

    /// Takes the outcome of the operation under way at the time `now`, and says
    /// how the changeset goes on.
    pub fn step_at(&mut self, reply: Reply, now: Moment) -> (result: Progress)
        requires
            old(self)@.wf(),
            old(self)@.expects(reply@),
            is_moment(now),
        ensures
            (final(self)@, result@) == old(self)@.step(reply@, now),
            final(self)@.wf(),
    {
        proof {
            lemma_sizes_bounded(self@);
        }
        let failed: Option<String> = match &reply {
            Reply::Failed { reason } => Some(reason.clone()),
            _ => None,
        };
        match self.stage {
            Stage::MakeTarget => match failed {
                Some(reason) => {
                    let directory = self.directory.clone();
                    self.end(Err(ChangesetError::CreateTarget { directory, reason }))
                },
                None => {
                    self.ts_dir = stamp_dir_name(now);
                    let path = self.ts_path();
                    self.go(Stage::MakeStamped, Action::CreateDir { path })
                },
            },
            Stage::MakeStamped => match failed {
                Some(reason) => {
                    let path = self.ts_path();
                    self.end(Err(ChangesetError::CreateStamped { path, reason }))
                },
                None => {
                    self.next_file(0)
                },
            },
            Stage::CreateTemp { file } => match failed {
                Some(reason) => {
                    let name = self.name(file).clone();
                    let unread = self.unread_from(file);
                    self.discard(ChangesetError::CreateTemp { name, reason }, unread)
                },
                None => {
                    let size = self.files[file].size;
                    self.next_chunk(file, size)
                },
            },
            Stage::ReadChunk { file, remaining } => match reply {
                Reply::Data { bytes } => {
                    let left: u64 = remaining - chunk(remaining as u128) as u64;
                    self.go(Stage::WriteChunk { file, remaining: left }, Action::Write { bytes })
                },
                _ => {
                    let name = self.name(file).clone();
                    let reason = match failed {
                        Some(reason) => reason,
                        None => String::new(),
                    };
                    self.discard(ChangesetError::ReadContent { name, reason }, 0)
                },
            },
            Stage::WriteChunk { file, remaining } => match failed {
                Some(reason) => {
                    let unread: u128 = remaining as u128 + self.unread_from(file + 1);
                    self.discard(ChangesetError::Io { reason }, unread)
                },
                None => self.next_chunk(file, remaining),
            },
            Stage::Flush { file } => match failed {
                Some(reason) => {
                    let unread = self.unread_from(file + 1);
                    self.discard(ChangesetError::Io { reason }, unread)
                },
                None => {
                    let from = self.tmp_path(file);
                    let to = self.file_path(file);
                    self.go(Stage::RenameTemp { file }, Action::Rename { from, to })
                },
            },
            Stage::RenameTemp { file } => match failed {
                Some(reason) => {
                    let path = self.file_path(file);
                    let unread = self.unread_from(file + 1);
                    self.discard(ChangesetError::RenameTemp { path, reason }, unread)
                },
                None => {
                    self.next_file(file + 1)
                },
            },
            Stage::Discard { unread } => self.skip(unread),
            Stage::Skip { unread } => match failed {
                Some(reason) => self.end(Err(ChangesetError::Io { reason })),
                None => self.skip(unread - chunk(unread) as u128),
            },
            Stage::Drain => match failed {
                Some(reason) => self.end(Err(ChangesetError::Io { reason })),
                None => self.report(),
            },
            Stage::AwaitEnd => match reply {
                Reply::Message { message } => {
                    let matching = match &message {
                        SyncMessage::ChangesetEnd { directory } => *directory == self.directory,
                        _ => false,
                    };
                    if matching {
                        let path = self.data_tmp_path();
                        self.go(Stage::DropStale, Action::RemoveFile { path })
                    } else {
                        let directory = self.directory.clone();
                        let got = message.describe();
                        self.give_up(
                            ChangesetError::UnexpectedEnd { directory, got },
                            Stage::Reject,
                        )
                    }
                },
                _ => match failed {
                    Some(reason) => self.end(Err(ChangesetError::Io { reason })),
                    None => self.end(Ok(())),
                },
            },
            Stage::Reject => self.report(),
            Stage::DropStale => {
                let target = self.ts_dir.clone();
                let link = self.data_tmp_path();
                self.go(Stage::LinkData, Action::Symlink { target, link })
            },
            Stage::LinkData => match failed {
                Some(reason) => {
                    self.end(Err(ChangesetError::LinkData { reason }))
                },
                None => {
                    let from = self.data_tmp_path();
                    let to = join(self.directory.as_str(), "..data");
                    self.go(Stage::SwapData, Action::Rename { from, to })
                },
            },
            Stage::SwapData => match failed {
                Some(reason) => {
                    self.end(Err(ChangesetError::SwapData { reason }))
                },
                None => {
                    let known = match self.state.take() {
                        Some(s) => s,
                        None => DirectoryState { current_ts_dir: None, symlinks_created: false },
                    };
                    let linked = known.symlinks_created;
                    self.state = Some(known);
                    if linked {
                        self.retire()
                    } else {
                        self.next_link(0)
                    }
                },
            },
            Stage::ClearLink { file } => {
                let target = self.link_target(file);
                let link = self.link_path(file);
                self.go(Stage::MakeLink { file }, Action::Symlink { target, link })
            },
            Stage::MakeLink { file } => match failed {
                Some(reason) => {
                    let link = self.link_path(file);
                    let target = self.link_target(file);
                    self.end(Err(ChangesetError::LinkFile { link, target, reason }))
                },
                None => {
                    self.next_link(file + 1)
                },
            },
            Stage::Retire => self.complete(),
            Stage::Finished => self.end(Ok(())),
        }
    }

    /// Whether the stamped directory gets its name with the next step.
    pub fn awaits_name(&self) -> (result: bool)
        ensures
            result == (self@.stage == Stage::MakeTarget),
    {
        match self.stage {
            Stage::MakeTarget => true,
            _ => false,
        }
    }
}

/// What each error says, and the reason that is behind it.
pub proof fn law_changeset_errors_are_told(
    directory: Seq<char>,
    path: Seq<char>,
    name: Seq<char>,
    got: Seq<char>,
    target: Seq<char>,
    reason: Seq<char>,
)
    ensures
        (ErrorView::CreateTarget { directory, reason }).text() == "creating target directory "@
            + directory,
        (ErrorView::CreateStamped { path, reason }).text() == "creating timestamped directory "@
            + path,
        (ErrorView::CreateTemp { name, reason }).text() == "creating temp file for "@ + name,
        (ErrorView::ReadContent { name, reason }).text() == "reading file content for "@ + name,
        (ErrorView::RenameTemp { path, reason }).text() == "renaming temp file to "@ + path,
        (ErrorView::UnexpectedEnd { directory, got }).text() == "expected ChangesetEnd for "@
            + directory + ", got "@ + got,
        (ErrorView::LinkData { reason }).text() == "creating ..data_tmp symlink"@,
        (ErrorView::SwapData { reason }).text() == "atomic rename ..data_tmp to ..data"@,
        (ErrorView::LinkFile { link: path, target, reason }).text() == "creating file symlink "@
            + path + " -> "@ + target,
        (ErrorView::Io { reason }).text() == reason,
        (ErrorView::CreateTarget { directory, reason }).cause() == Some(reason),
        (ErrorView::CreateStamped { path, reason }).cause() == Some(reason),
        (ErrorView::CreateTemp { name, reason }).cause() == Some(reason),
        (ErrorView::ReadContent { name, reason }).cause() == Some(reason),
        (ErrorView::RenameTemp { path, reason }).cause() == Some(reason),
        (ErrorView::UnexpectedEnd { directory, got }).cause() is None,
        (ErrorView::LinkData { reason }).cause() == Some(reason),
        (ErrorView::SwapData { reason }).cause() == Some(reason),
        (ErrorView::LinkFile { link: path, target, reason }).cause() == Some(reason),
        (ErrorView::Io { reason }).cause() is None,
{
}

/// The values of errors, of what is known of a directory and of how a changeset
/// goes on hold all that these hold.
pub proof fn law_changeset_values(e: ChangesetError, s: DirectoryState, action: Action)
    ensures
        match e {
            ChangesetError::CreateTarget { directory, reason } => e@ == (ErrorView::CreateTarget {
                directory: directory@,
                reason: reason@,
            }),
            ChangesetError::CreateStamped { path, reason } => e@ == (ErrorView::CreateStamped {
                path: path@,
                reason: reason@,
            }),
            ChangesetError::CreateTemp { name, reason } => e@ == (ErrorView::CreateTemp {
                name: name@,
                reason: reason@,
            }),
            ChangesetError::ReadContent { name, reason } => e@ == (ErrorView::ReadContent {
                name: name@,
                reason: reason@,
            }),
            ChangesetError::RenameTemp { path, reason } => e@ == (ErrorView::RenameTemp {
                path: path@,
                reason: reason@,
            }),
            ChangesetError::UnexpectedEnd { directory, got } => e@ == (ErrorView::UnexpectedEnd {
                directory: directory@,
                got: got@,
            }),
            ChangesetError::LinkData { reason } => e@ == (ErrorView::LinkData { reason: reason@ }),
            ChangesetError::SwapData { reason } => e@ == (ErrorView::SwapData { reason: reason@ }),
            ChangesetError::LinkFile { link, target, reason } => e@ == (ErrorView::LinkFile {
                link: link@,
                target: target@,
                reason: reason@,
            }),
            ChangesetError::Io { reason } => e@ == (ErrorView::Io { reason: reason@ }),
        },
        s@.symlinks_created == s.symlinks_created,
        s@.current_ts_dir is Some <==> s.current_ts_dir is Some,
        s.current_ts_dir matches Some(name) ==> s@.current_ts_dir == Some(name@),
        state_view(Some(s)) == Some(s@),
        state_view(None) is None,
        (Progress::Next { action })@ == (ProgressView::Next { action: action@ }),
        (Progress::Finished { result: Ok(()) })@ == (ProgressView::Finished { result: Ok(()) }),
        (Progress::Finished { result: Err(e) })@ == (ProgressView::Finished { result: Err(e@) }),
{
}

/// As much is read at a time as is missing, but never more than the buffer holds.
pub proof fn law_reads_fit_the_buffer(remaining: nat)
    ensures
        remaining <= 65536 ==> chunk_len(remaining) == remaining,
        remaining > 65536 ==> chunk_len(remaining) == 65536,
{
}

} // verus!
