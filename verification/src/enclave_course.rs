//! Laws of the course of a changeset in the enclave: which operation follows which,
//! told by what was asked for and how it came out.

use vstd::prelude::*;

use crate::actions::{ActionView, ReplyView};
use crate::changeset::{
    law_reads_fit_the_buffer, lemma_sizes_bounded, ChangesetView, DirectoryStateView, ErrorView,
    ProgressView, Stage,
};
use crate::clock::{is_stamp_dir, stamp_dir_of, Moment};
use crate::messages::{message_text, FileEntryView, MessageView};
use crate::paths::join_of;
use crate::sizes::{lemma_offset_order, lemma_offset_step, offset, total_size};

verus! {

/// What a changeset is about: its directory and files, what is known of the
/// directory, and the time at which it is received.
#[verifier::ext_equal]
pub struct Task {
    pub directory: Seq<char>,
    pub files: Seq<FileEntryView>,
    pub state: Option<DirectoryStateView>,
    pub now: Moment,
}

impl Task {
    /// Whether the task can be set: its numbers are within the machine's limits,
    /// and the time can be stamped.
    pub open spec fn is_sound(self) -> bool {
        &&& self.files.len() <= usize::MAX
        &&& forall|i: int| 0 <= i < self.files.len() ==> (#[trigger] self.files[i]).size <= u64::MAX
        &&& is_stamp_dir(stamp_dir_of(self.now))
    }

    /// The directory that the files are received into.
    pub open spec fn stamped(self) -> Seq<char> {
        join_of(self.directory, stamp_dir_of(self.now))
    }

    /// The stamped directory that was in place before, if any.
    pub open spec fn previous(self) -> Option<Seq<char>> {
        if self.state is Some {
            self.state->0.current_ts_dir
        } else {
            None
        }
    }

    /// Whether the links to the single files exist.
    pub open spec fn is_linked(self) -> bool {
        self.state is Some && self.state->0.symlinks_created
    }

    /// The number of operations up to the link in place, reading and writing of
    /// content aside.
    pub open spec fn placed_after(self) -> int {
        6 + 3 * self.files.len() as int
    }

    /// The number of all operations, in the same way.
    pub open spec fn done_after(self) -> int {
        self.placed_after() + (if self.is_linked() {
            0
        } else {
            2 * self.files.len()
        }) + (if self.previous() is Some {
            1int
        } else {
            0
        })
    }

    /// Whether operations are those that are called for, in order: both directories are
    /// created; each file is created under a temporary name in the new directory,
    /// flushed and given its name there; the end of the changeset is received; a
    /// link to the new directory is made in place of a stale one and renamed to
    /// `..data`; where the links to the files do not exist, what is in their place
    /// is removed and they are created; the previous directory is removed last.
    pub open spec fn is_in_order(self, asked: Seq<ActionView>) -> bool {
        let n = self.files.len() as int;
        let t = self.stamped();
        let tmp_link = join_of(self.directory, "..data_tmp"@);
        let end = 2 + 3 * n;
        let placed = self.placed_after();
        &&& asked.len() <= self.done_after()
        &&& asked.len() > 0 ==> asked[0] == (ActionView::CreateDir { path: self.directory })
        &&& asked.len() > 1 ==> asked[1] == (ActionView::CreateDir { path: t })
        &&& forall|i: int| #![trigger self.files[i]] 0 <= i < n ==> {
            let name = self.files[i].name;
            let tmp = join_of(t, ".tmp."@ + name);
            &&& 2 + 3 * i < asked.len() ==> asked[2 + 3 * i] == (ActionView::CreateFile {
                path: tmp,
            })
            &&& 3 + 3 * i < asked.len() ==> asked[3 + 3 * i] == ActionView::Flush
            &&& 4 + 3 * i < asked.len() ==> asked[4 + 3 * i] == (ActionView::Rename {
                from: tmp,
                to: join_of(t, name),
            })
        }
        &&& end < asked.len() ==> asked[end] == ActionView::Receive
        &&& end + 1 < asked.len() ==> asked[end + 1] == (ActionView::RemoveFile { path: tmp_link })
        &&& end + 2 < asked.len() ==> asked[end + 2] == (ActionView::Symlink {
            target: stamp_dir_of(self.now),
            link: tmp_link,
        })
        &&& end + 3 < asked.len() ==> asked[end + 3] == (ActionView::Rename {
            from: tmp_link,
            to: join_of(self.directory, "..data"@),
        })
        &&& !self.is_linked() ==> forall|i: int| #![trigger self.files[i]] 0 <= i < n ==> {
            let name = self.files[i].name;
            &&& placed + 2 * i < asked.len() ==> asked[placed + 2 * i] == (ActionView::RemoveFile {
                path: join_of(self.directory, name),
            })
            &&& placed + 2 * i + 1 < asked.len() ==> asked[placed + 2 * i + 1] == (
            ActionView::Symlink {
                target: join_of("..data"@, name),
                link: join_of(self.directory, name),
            })
        }
        &&& self.previous() is Some && asked.len() == self.done_after() ==> asked[asked.len() - 1]
            == (ActionView::RemoveDir { path: join_of(self.directory, self.previous()->0) })
    }
}

/// What first went wrong: the operation, its outcome, and how many operations had
/// been asked for, reading and writing of content aside.
#[verifier::ext_equal]
pub struct Fault {
    pub action: ActionView,
    pub reply: ReplyView,
    pub at: nat,
}

/// Whether an outcome goes against a changeset of the directory: an operation
/// other than a removal failed, or a message came that does not end it.
pub open spec fn is_fault(action: ActionView, reply: ReplyView, directory: Seq<char>) -> bool {
    match reply {
        ReplyView::Failed { .. } => !(action is RemoveFile) && !(action is RemoveDir),
        ReplyView::Message { message } => message != (MessageView::ChangesetEnd { directory }),
        _ => false,
    }
}

/// The error that tells of a file that could not be stored.
pub open spec fn storing_error(task: Task, fault: Fault) -> ErrorView {
    let name = task.files[(fault.at - 3) / 3].name;
    let reason = fault.reply->Failed_reason;
    match fault.action {
        ActionView::CreateFile { .. } => ErrorView::CreateTemp { name, reason },
        ActionView::ReadExact { .. } => ErrorView::ReadContent { name, reason },
        ActionView::Rename { to, .. } => ErrorView::RenameTemp { path: to, reason },
        _ => ErrorView::Io { reason },
    }
}

/// A changeset on its course: its value, how it goes on, the operations that were
/// asked for in order, reading and writing of content aside, the content bytes
/// that were read, and what first went wrong.
#[verifier::ext_equal]
pub struct EnclaveCourse {
    pub changeset: ChangesetView,
    pub progress: ProgressView,
    pub asked: Seq<ActionView>,
    pub received: Seq<u8>,
    pub fault: Option<Fault>,
}

/// The length of a read of what is missing.
pub open spec fn portion(missing: int) -> nat {
    if missing <= 65536 {
        missing as nat
    } else {
        65536
    }
}

/// How many content bytes of the file created last have not been received; none once
/// it has been flushed.
pub open spec fn missing(task: Task, asked: Seq<ActionView>, received: Seq<u8>) -> int {
    if asked.last() is CreateFile {
        total_size(task.files.take((asked.len() - 3) / 3 + 1)) - received.len()
    } else {
        0
    }
}

impl EnclaveCourse {
    /// The course before any outcome.
    pub open spec fn initial(task: Task) -> Self {
        let action = ActionView::CreateDir { path: task.directory };
        EnclaveCourse {
            changeset: ChangesetView::initial(task.directory, task.files, task.state),
            progress: ProgressView::Next { action },
            asked: seq![action],
            received: Seq::empty(),
            fault: None,
        }
    }

    /// The course after one more outcome.
    pub open spec fn advance(self, reply: ReplyView, now: Moment) -> Self {
        let (changeset, progress) = self.changeset.step(reply, now);
        let action = self.progress->action;
        EnclaveCourse {
            changeset,
            progress,
            asked: match progress {
                ProgressView::Next { action: next } => if next is ReadExact || next is Write {
                    self.asked
                } else {
                    self.asked.push(next)
                },
                ProgressView::Finished { .. } => self.asked,
            },
            received: if reply is Data {
                self.received + reply->Data_bytes
            } else {
                self.received
            },
            fault: if self.fault is None && is_fault(action, reply, self.changeset.directory) {
                Some(Fault { action, reply, at: self.asked.len() })
            } else {
                self.fault
            },
        }
    }

    /// The course after a list of outcomes.
    pub open spec fn after(self, replies: Seq<ReplyView>, now: Moment) -> Self
        decreases replies.len(),
    {
        if replies.len() == 0 {
            self
        } else {
            self.after(replies.drop_last(), now).advance(replies.last(), now)
        }
    }

    /// Whether a list of outcomes can come.
    pub open spec fn admits(self, replies: Seq<ReplyView>, now: Moment) -> bool
        decreases replies.len(),
    {
        replies.len() == 0 || (self.admits(replies.drop_last(), now) && self.after(
            replies.drop_last(),
            now,
        ).progress is Next && self.after(replies.drop_last(), now).changeset.expects(
            replies.last(),
        ))
    }

    /// How many content bytes are still to be read after something went wrong:
    /// none where it was the reading.
    pub open spec fn unread(self, task: Task) -> int {
        if self.fault->0.action is ReadExact {
            0
        } else {
            total_size(task.files) - self.received.len()
        }
    }

    /// What is known of the directory once a changeset has come to its result.
    spec fn state_inv(self, task: Task) -> bool {
        let c = self.changeset;
        let found = Some(
            DirectoryStateView {
                current_ts_dir: task.previous(),
                symlinks_created: task.is_linked(),
            },
        );
        match c.stage {
            Stage::ClearLink { .. } | Stage::MakeLink { .. } => !task.is_linked() && c.state
                == found,
            Stage::Retire => task.previous() is Some && c.state == Some(
                DirectoryStateView { current_ts_dir: task.previous(), symlinks_created: true },
            ),
            Stage::Finished => self.progress is Finished && is_known_after(
                task,
                self.progress->result,
                c.state,
            ),
            _ => c.state == task.state,
        }
    }

    /// All that holds at every point of a course.
    spec fn inv(self, task: Task) -> bool {
        let c = self.changeset;
        let n = task.files.len() as int;
        let len = self.asked.len() as int;
        let got = self.received.len() as int;
        let action = self.progress->action;
        let last = self.asked.last();
        let end = 2 + 3 * n;
        let placed = task.placed_after();
        let fault = self.fault->0;
        let before = self.asked.take(fault.at as int);
        &&& c.wf()
        &&& c.directory == task.directory
        &&& c.files == task.files
        &&& c.stage != Stage::MakeTarget && c.stage != Stage::Finished ==> c.ts_dir
            == stamp_dir_of(task.now)
        &&& self.progress is Finished <==> c.stage == Stage::Finished
        &&& self.state_inv(task)
        &&& self.fault is None ==> task.is_in_order(self.asked)
        &&& self.fault is Some ==> {
            &&& 0 < fault.at <= len <= fault.at + 2
            &&& task.is_in_order(before)
            &&& len > fault.at ==> self.asked[fault.at as int] == (ActionView::RemoveDir {
                path: task.stamped(),
            })
            &&& len > fault.at + 1 ==> self.asked[fault.at as int + 1] == ActionView::Receive
        }
        &&& match c.stage {
            Stage::MakeTarget => self.fault is None && len == 1 && got == 0 && action == last,
            Stage::MakeStamped => self.fault is None && len == 2 && got == 0 && action == last,
            Stage::CreateTemp { file } => self.fault is None && len == 3 + 3 * file && got == offset(
                task.files,
                file as int,
            ) && action == last,
            Stage::ReadChunk { file, remaining } => self.fault is None && len == 3 + 3 * file && got
                + remaining == offset(task.files, file + 1) && action == (ActionView::ReadExact {
                len: portion(remaining as int),
            }),
            Stage::WriteChunk { file, remaining } => self.fault is None && len == 3 + 3 * file
                && got + remaining == offset(task.files, file + 1) && action is Write,
            Stage::Flush { file } => self.fault is None && len == 4 + 3 * file && got == offset(
                task.files,
                file + 1,
            ) && action == last,
            Stage::RenameTemp { file } => self.fault is None && len == 5 + 3 * file && got == offset(
                task.files,
                file + 1,
            ) && action == last,
            Stage::AwaitEnd => self.fault is None && len == end + 1 && got == total_size(task.files)
                && action == last,
            Stage::DropStale => self.fault is None && len == end + 2 && action == last,
            Stage::LinkData => self.fault is None && len == end + 3 && action == last,
            Stage::SwapData => self.fault is None && len == end + 4 && action == last,
            Stage::ClearLink { file } => self.fault is None && len == placed + 2 * file + 1
                && action == last,
            Stage::MakeLink { file } => self.fault is None && len == placed + 2 * file + 2
                && action == last,
            Stage::Retire => self.fault is None && len == task.done_after() && action == last,
            Stage::Discard { unread } => self.fault is Some && fault.reply is Failed && len
                == fault.at + 1 && action == last && unread == self.unread(task) && c.failure
                == Some(storing_error(task, fault)),
            Stage::Skip { unread } => self.fault is Some && fault.reply is Failed && len == fault.at
                + 1 && action == (ActionView::ReadExact { len: portion(unread as int) }) && unread
                == self.unread(task) && c.failure == Some(storing_error(task, fault)),
            Stage::Drain => self.fault is Some && fault.reply is Failed && len == fault.at + 2
                && action == last && c.failure == Some(storing_error(task, fault)),
            Stage::Reject => self.fault is Some && fault.reply is Message && len == fault.at + 1
                && action == last && c.failure == Some(
                ErrorView::UnexpectedEnd {
                    directory: task.directory,
                    got: message_text(fault.reply->Message_message),
                },
            ),
            Stage::Finished => true,
        }
    }
}

/// What is known of a directory after a changeset: after a success, the new stamped
/// directory, and that the links exist; where only a link to a file could not be
/// created, what was known before, so that the links are created with the next
/// changeset; and after any other failure, no more than before.
pub open spec fn is_known_after(
    task: Task,
    result: Result<(), ErrorView>,
    state: Option<DirectoryStateView>,
) -> bool {
    match result {
        Ok(()) => state == Some(
            DirectoryStateView {
                current_ts_dir: Some(stamp_dir_of(task.now)),
                symlinks_created: true,
            },
        ),
        Err(e) => if e is LinkFile {
            state == Some(
                DirectoryStateView { current_ts_dir: task.previous(), symlinks_created: false },
            )
        } else {
            state == task.state
        },
    }
}

/// Whether a reply can be the outcome of an operation.
pub open spec fn reply_fits(action: ActionView, reply: ReplyView) -> bool {
    reply is Failed || match action {
        ActionView::ReadExact { len } => reply is Data && reply->Data_bytes.len() == len,
        ActionView::Receive => reply is Message,
        _ => reply is Done,
    }
}

/// Whether a changeset goes on with `action`.
pub open spec fn goes_on_with(after: EnclaveCourse, action: ActionView) -> bool {
    after.progress == (ProgressView::Next { action })
}

/// Whether a changeset goes on as it should when nothing went wrong: with reading
/// what is missing of the file created last, with what is next in order, or, when
/// everything is done, not at all and with success.
pub open spec fn goes_well(task: Task, before: EnclaveCourse, after: EnclaveCourse) -> bool {
    let missing = missing(task, before.asked, before.received);
    if missing > 0 {
        goes_on_with(after, ActionView::ReadExact { len: portion(missing) })
    } else if before.asked.len() == task.done_after() {
        after.progress == (ProgressView::Finished { result: Ok(()) })
    } else {
        &&& after.asked.len() == before.asked.len() + 1
        &&& goes_on_with(after, after.asked.last())
    }
}

/// Whether a changeset that went wrong goes on as it should: with reading what is
/// still to be read, and then with receiving the message behind it.
pub open spec fn skips_on(task: Task, after: EnclaveCourse) -> bool {
    if after.unread(task) > 0 {
        goes_on_with(after, ActionView::ReadExact { len: portion(after.unread(task)) })
    } else {
        goes_on_with(after, ActionView::Receive)
    }
}

/// Whether a changeset has ended with this error.
pub open spec fn ends_with(after: EnclaveCourse, e: ErrorView) -> bool {
    after.progress == (ProgressView::Finished { result: Err(e) })
}

/// Whether a changeset goes on as it should after something first went wrong. While
/// the files are received, and when a message comes that does not end the
/// changeset, the stamped directory is removed; otherwise the changeset is over.
pub open spec fn goes_wrong(
    task: Task,
    before: EnclaveCourse,
    after: EnclaveCourse,
    action: ActionView,
    reply: ReplyView,
) -> bool {
    let at = before.asked.len() as int;
    let end = 2 + 3 * task.files.len();
    let reason = reply->Failed_reason;
    if at == 1 {
        ends_with(after, ErrorView::CreateTarget { directory: task.directory, reason })
    } else if at == 2 {
        ends_with(after, ErrorView::CreateStamped { path: task.stamped(), reason })
    } else if at <= end || reply is Message {
        goes_on_with(after, ActionView::RemoveDir { path: task.stamped() })
    } else if at == end + 1 {
        ends_with(after, ErrorView::Io { reason })
    } else if at == end + 3 {
        ends_with(after, ErrorView::LinkData { reason })
    } else if at == end + 4 {
        ends_with(after, ErrorView::SwapData { reason })
    } else {
        &&& action is Symlink
        &&& ends_with(
            after,
            ErrorView::LinkFile { link: action->link, target: action->target, reason },
        )
    }
}

/// More operations are in order when the next one is.
proof fn lemma_in_order_push(task: Task, asked: Seq<ActionView>, action: ActionView)
    requires
        task.is_in_order(asked),
        asked.len() < task.done_after(),
        ({
            let n = task.files.len() as int;
            let k = asked.len() as int;
            let t = task.stamped();
            let end = 2 + 3 * n;
            let placed = task.placed_after();
            let tmp_link = join_of(task.directory, "..data_tmp"@);
            &&& k == 0 ==> action == (ActionView::CreateDir { path: task.directory })
            &&& k == 1 ==> action == (ActionView::CreateDir { path: t })
            &&& forall|i: int| #![trigger task.files[i]] 0 <= i < n ==> {
                let tmp = join_of(t, ".tmp."@ + task.files[i].name);
                &&& k == 2 + 3 * i ==> action == (ActionView::CreateFile { path: tmp })
                &&& k == 3 + 3 * i ==> action == ActionView::Flush
                &&& k == 4 + 3 * i ==> action == (ActionView::Rename {
                    from: tmp,
                    to: join_of(t, task.files[i].name),
                })
            }
            &&& k == end ==> action == ActionView::Receive
            &&& k == end + 1 ==> action == (ActionView::RemoveFile { path: tmp_link })
            &&& k == end + 2 ==> action == (ActionView::Symlink {
                target: stamp_dir_of(task.now),
                link: tmp_link,
            })
            &&& k == end + 3 ==> action == (ActionView::Rename {
                from: tmp_link,
                to: join_of(task.directory, "..data"@),
            })
            &&& !task.is_linked() ==> forall|i: int| #![trigger task.files[i]] 0 <= i < n ==> {
                let name = task.files[i].name;
                &&& k == placed + 2 * i ==> action == (ActionView::RemoveFile {
                    path: join_of(task.directory, name),
                })
                &&& k == placed + 2 * i + 1 ==> action == (ActionView::Symlink {
                    target: join_of("..data"@, name),
                    link: join_of(task.directory, name),
                })
            }
            &&& task.previous() is Some && k + 1 == task.done_after() ==> action == (
            ActionView::RemoveDir { path: join_of(task.directory, task.previous()->0) })
        }),
    ensures
        task.is_in_order(asked.push(action)),
{
}

#[verifier::rlimit(100)]
proof fn lemma_step_naming(c: EnclaveCourse, task: Task, reply: ReplyView)
    requires
        task.is_sound(),
        c.inv(task),
        c.progress is Next,
        c.changeset.expects(reply),
        match c.changeset.stage {
            Stage::MakeTarget | Stage::MakeStamped => true,
            _ => false,
        },
    ensures
        c.advance(reply, task.now).inv(task),
{
    let after = c.advance(reply, task.now);
    let n = task.files.len() as int;
    lemma_sizes_bounded(c.changeset);
    assert(task.files.take(n) =~= task.files);
    assert(task.files.take(0).len() == 0);
    if after.fault is Some {
        assert(after.asked.take(c.asked.len() as int) =~= c.asked);
    } else if after.asked.len() > c.asked.len() {
        lemma_in_order_push(task, c.asked, after.asked.last());
    }
}

#[verifier::rlimit(100)]
proof fn lemma_step_create(c: EnclaveCourse, task: Task, reply: ReplyView)
    requires
        task.is_sound(),
        c.inv(task),
        c.progress is Next,
        c.changeset.expects(reply),
        match c.changeset.stage {
            Stage::CreateTemp { .. } => true,
            _ => false,
        },
    ensures
        c.advance(reply, task.now).inv(task),
{
    let after = c.advance(reply, task.now);
    let n = task.files.len() as int;
    lemma_sizes_bounded(c.changeset);
    assert(task.files.take(n) =~= task.files);
    assert(task.files.take(0).len() == 0);
    match c.changeset.stage {
        Stage::CreateTemp { file } => {
            lemma_offset_step(task.files, file as int);
            lemma_offset_order(task.files, file as int, n);
            lemma_offset_order(task.files, file + 1, n);
            assert((c.asked.len() - 3) / 3 == file as int);
            law_reads_fit_the_buffer(task.files[file as int].size);
        },
        _ => {},
    }
    if after.fault is Some {
        assert(after.asked.take(c.asked.len() as int) =~= c.asked);
    } else if after.asked.len() > c.asked.len() {
        lemma_in_order_push(task, c.asked, after.asked.last());
    }
}

#[verifier::rlimit(100)]
proof fn lemma_step_read(c: EnclaveCourse, task: Task, reply: ReplyView)
    requires
        task.is_sound(),
        c.inv(task),
        c.progress is Next,
        c.changeset.expects(reply),
        match c.changeset.stage {
            Stage::ReadChunk { .. } => true,
            _ => false,
        },
    ensures
        c.advance(reply, task.now).inv(task),
{
    let after = c.advance(reply, task.now);
    let n = task.files.len() as int;
    lemma_sizes_bounded(c.changeset);
    assert(task.files.take(n) =~= task.files);
    assert(task.files.take(0).len() == 0);
    match c.changeset.stage {
        Stage::ReadChunk { file, remaining } => {
            lemma_offset_step(task.files, file as int);
            lemma_offset_order(task.files, file as int, n);
            lemma_offset_order(task.files, file + 1, n);
            assert((c.asked.len() - 3) / 3 == file as int);
            law_reads_fit_the_buffer(remaining as nat);
        },
        _ => {},
    }
    if after.fault is Some {
        assert(after.asked.take(c.asked.len() as int) =~= c.asked);
    } else if after.asked.len() > c.asked.len() {
        lemma_in_order_push(task, c.asked, after.asked.last());
    }
}

#[verifier::rlimit(100)]
proof fn lemma_step_write(c: EnclaveCourse, task: Task, reply: ReplyView)
    requires
        task.is_sound(),
        c.inv(task),
        c.progress is Next,
        c.changeset.expects(reply),
        match c.changeset.stage {
            Stage::WriteChunk { .. } => true,
            _ => false,
        },
    ensures
        c.advance(reply, task.now).inv(task),
{
    let after = c.advance(reply, task.now);
    let n = task.files.len() as int;
    lemma_sizes_bounded(c.changeset);
    assert(task.files.take(n) =~= task.files);
    assert(task.files.take(0).len() == 0);
    match c.changeset.stage {
        Stage::WriteChunk { file, remaining } => {
            lemma_offset_step(task.files, file as int);
            lemma_offset_order(task.files, file as int, n);
            lemma_offset_order(task.files, file + 1, n);
            assert((c.asked.len() - 3) / 3 == file as int);
            law_reads_fit_the_buffer(remaining as nat);
        },
        _ => {},
    }
    if after.fault is Some {
        assert(after.asked.take(c.asked.len() as int) =~= c.asked);
    } else if after.asked.len() > c.asked.len() {
        lemma_in_order_push(task, c.asked, after.asked.last());
    }
}

#[verifier::rlimit(100)]
proof fn lemma_step_flush(c: EnclaveCourse, task: Task, reply: ReplyView)
    requires
        task.is_sound(),
        c.inv(task),
        c.progress is Next,
        c.changeset.expects(reply),
        match c.changeset.stage {
            Stage::Flush { .. } => true,
            _ => false,
        },
    ensures
        c.advance(reply, task.now).inv(task),
{
    let after = c.advance(reply, task.now);
    let n = task.files.len() as int;
    lemma_sizes_bounded(c.changeset);
    assert(task.files.take(n) =~= task.files);
    assert(task.files.take(0).len() == 0);
    match c.changeset.stage {
        Stage::Flush { file } => {
            lemma_offset_order(task.files, file + 1, n);
            assert((c.asked.len() - 3) / 3 == file as int);
        },
        _ => {},
    }
    if after.fault is Some {
        assert(after.asked.take(c.asked.len() as int) =~= c.asked);
    } else if after.asked.len() > c.asked.len() {
        lemma_in_order_push(task, c.asked, after.asked.last());
    }
}

#[verifier::rlimit(100)]
proof fn lemma_step_rename(c: EnclaveCourse, task: Task, reply: ReplyView)
    requires
        task.is_sound(),
        c.inv(task),
        c.progress is Next,
        c.changeset.expects(reply),
        match c.changeset.stage {
            Stage::RenameTemp { .. } => true,
            _ => false,
        },
    ensures
        c.advance(reply, task.now).inv(task),
{
    let after = c.advance(reply, task.now);
    let n = task.files.len() as int;
    lemma_sizes_bounded(c.changeset);
    assert(task.files.take(n) =~= task.files);
    assert(task.files.take(0).len() == 0);
    match c.changeset.stage {
        Stage::RenameTemp { file } => {
            lemma_offset_order(task.files, file + 1, n);
            assert((c.asked.len() - 3) / 3 == file as int);
        },
        _ => {},
    }
    if after.fault is Some {
        assert(after.asked.take(c.asked.len() as int) =~= c.asked);
    } else if after.asked.len() > c.asked.len() {
        lemma_in_order_push(task, c.asked, after.asked.last());
    }
}

#[verifier::rlimit(100)]
proof fn lemma_step_placing(c: EnclaveCourse, task: Task, reply: ReplyView)
    requires
        task.is_sound(),
        c.inv(task),
        c.progress is Next,
        c.changeset.expects(reply),
        match c.changeset.stage {
            Stage::AwaitEnd
            | Stage::DropStale
            | Stage::LinkData
            | Stage::SwapData
            | Stage::ClearLink { .. }
            | Stage::MakeLink { .. }
            | Stage::Retire => true,
            _ => false,
        },
    ensures
        c.advance(reply, task.now).inv(task),
{
    let after = c.advance(reply, task.now);
    if after.fault is Some {
        assert(after.asked.take(c.asked.len() as int) =~= c.asked);
    } else if after.asked.len() > c.asked.len() {
        lemma_in_order_push(task, c.asked, after.asked.last());
    }
}

#[verifier::rlimit(100)]
proof fn lemma_step_giving_up(c: EnclaveCourse, task: Task, reply: ReplyView)
    requires
        task.is_sound(),
        c.inv(task),
        c.progress is Next,
        c.changeset.expects(reply),
        match c.changeset.stage {
            Stage::Discard { .. } | Stage::Skip { .. } | Stage::Drain | Stage::Reject => true,
            _ => false,
        },
    ensures
        c.advance(reply, task.now).inv(task),
{
    let after = c.advance(reply, task.now);
    lemma_sizes_bounded(c.changeset);
    match c.changeset.stage {
        Stage::Discard { unread } | Stage::Skip { unread } => {
            law_reads_fit_the_buffer(unread as nat);
            if reply is Data {
                law_reads_fit_the_buffer((unread - reply->Data_bytes.len()) as nat);
            }
        },
        _ => {},
    }
    let at = c.fault->0.at as int;
    assert(after.asked.take(at) =~= c.asked.take(at));
}

proof fn lemma_inv_step(c: EnclaveCourse, task: Task, reply: ReplyView)
    requires
        task.is_sound(),
        c.inv(task),
        c.progress is Next,
        c.changeset.expects(reply),
    ensures
        c.advance(reply, task.now).inv(task),
{
    match c.changeset.stage {
        Stage::MakeTarget | Stage::MakeStamped => lemma_step_naming(c, task, reply),
        Stage::CreateTemp { .. } => lemma_step_create(c, task, reply),
        Stage::ReadChunk { .. } => lemma_step_read(c, task, reply),
        Stage::WriteChunk { .. } => lemma_step_write(c, task, reply),
        Stage::Flush { .. } => lemma_step_flush(c, task, reply),
        Stage::RenameTemp { .. } => lemma_step_rename(c, task, reply),
        Stage::Discard { .. } | Stage::Skip { .. } | Stage::Drain | Stage::Reject => {
            lemma_step_giving_up(c, task, reply)
        },
        Stage::Finished => {},
        _ => lemma_step_placing(c, task, reply),
    }
}

proof fn lemma_inv(task: Task, replies: Seq<ReplyView>)
    requires
        task.is_sound(),
        EnclaveCourse::initial(task).admits(replies, task.now),
    ensures
        EnclaveCourse::initial(task).after(replies, task.now).inv(task),
    decreases replies.len(),
{
    let start = EnclaveCourse::initial(task);
    if replies.len() > 0 {
        lemma_inv(task, replies.drop_last());
        lemma_inv_step(start.after(replies.drop_last(), task.now), task, replies.last());
    }
}

/// The operations of a changeset come in one order, and never another one: see
/// [`Task::is_in_order`]. In particular, the directory that the files are received
/// into is created right before the first file is, and everything is stored before
/// the link in place is touched. After something went wrong nothing follows but
/// the removal of the new directory, and the message behind the content.
pub proof fn law_operations_come_in_order(task: Task, replies: Seq<ReplyView>)
    requires
        task.is_sound(),
        EnclaveCourse::initial(task).admits(replies, task.now),
    ensures
        ({
            let c = EnclaveCourse::initial(task).after(replies, task.now);
            &&& c.fault is None ==> task.is_in_order(c.asked)
            &&& c.fault matches Some(fault) ==> {
                &&& 0 < fault.at <= c.asked.len() <= fault.at + 2
                &&& task.is_in_order(c.asked.take(fault.at as int))
                &&& c.asked.len() > fault.at ==> c.asked[fault.at as int] == (
                ActionView::RemoveDir { path: task.stamped() })
                &&& c.asked.len() > fault.at + 1 ==> c.asked[fault.at as int + 1]
                    == ActionView::Receive
            }
        }),
{
    lemma_inv(task, replies);
}

/// Whether a changeset answers an outcome as it should. What is read is written as
/// it is, until each file has its announced size; then the next operation in order
/// follows, up to success. What goes wrong first settles the error, after the
/// content that is still to come has been read; only a connection that fails
/// meanwhile is told in its place.
pub open spec fn answers_well(task: Task, c: EnclaveCourse, reply: ReplyView) -> bool {
    let action = c.progress->action;
    let after = c.advance(reply, task.now);
    let reason = reply->Failed_reason;
    match c.fault {
        None => if is_fault(action, reply, task.directory) {
            goes_wrong(task, c, after, action, reply)
        } else if reply is Data {
            goes_on_with(after, ActionView::Write { bytes: reply->Data_bytes })
        } else {
            goes_well(task, c, after)
        },
        Some(fault) => match action {
            ActionView::RemoveDir { .. } => if fault.reply is Message {
                ends_with(
                    after,
                    ErrorView::UnexpectedEnd {
                        directory: task.directory,
                        got: message_text(fault.reply->Message_message),
                    },
                )
            } else {
                skips_on(task, after)
            },
            ActionView::ReadExact { .. } => if reply is Failed {
                ends_with(after, ErrorView::Io { reason })
            } else {
                skips_on(task, after)
            },
            _ => if reply is Failed {
                ends_with(after, ErrorView::Io { reason })
            } else {
                ends_with(after, storing_error(task, fault))
            },
        },
    }
}

#[verifier::rlimit(100)]
proof fn lemma_answers_naming(c: EnclaveCourse, task: Task, reply: ReplyView)
    requires
        task.is_sound(),
        c.inv(task),
        c.progress is Next,
        match c.changeset.stage {
            Stage::MakeTarget | Stage::MakeStamped => true,
            _ => false,
        },
    ensures
        c.changeset.expects(reply) <==> reply_fits(c.progress->action, reply),
        reply_fits(c.progress->action, reply) ==> answers_well(task, c, reply),
{
    let after = c.advance(reply, task.now);
    if reply_fits(c.progress->action, reply) {
        lemma_inv_step(c, task, reply);
    }
}

#[verifier::rlimit(100)]
proof fn lemma_answers_content(c: EnclaveCourse, task: Task, reply: ReplyView)
    requires
        task.is_sound(),
        c.inv(task),
        c.progress is Next,
        match c.changeset.stage {
            Stage::CreateTemp { .. } | Stage::ReadChunk { .. } | Stage::WriteChunk { .. } => true,
            _ => false,
        },
    ensures
        c.changeset.expects(reply) <==> reply_fits(c.progress->action, reply),
        reply_fits(c.progress->action, reply) ==> answers_well(task, c, reply),
{
    let after = c.advance(reply, task.now);
    match c.changeset.stage {
        Stage::ReadChunk { remaining, .. } => {
            law_reads_fit_the_buffer(remaining as nat);
        },
        _ => {},
    }
    if reply_fits(c.progress->action, reply) {
        lemma_inv_step(c, task, reply);
        match c.changeset.stage {
            Stage::CreateTemp { file }
            | Stage::ReadChunk { file, .. }
            | Stage::WriteChunk { file, .. } => {
                lemma_offset_step(task.files, file as int);
                assert((c.asked.len() - 3) / 3 == file as int);
                let name = task.files[file as int].name;
                assert(c.asked.last() == c.asked[2 + 3 * file]);
                assert(c.asked.last() is CreateFile);
            },
            _ => {},
        }
    }
}

#[verifier::rlimit(100)]
proof fn lemma_answers_sealing(c: EnclaveCourse, task: Task, reply: ReplyView)
    requires
        task.is_sound(),
        c.inv(task),
        c.progress is Next,
        match c.changeset.stage {
            Stage::Flush { .. } | Stage::RenameTemp { .. } => true,
            _ => false,
        },
    ensures
        c.changeset.expects(reply) <==> reply_fits(c.progress->action, reply),
        reply_fits(c.progress->action, reply) ==> answers_well(task, c, reply),
{
    let after = c.advance(reply, task.now);
    let n = task.files.len() as int;
    assert(task.files.take(n) =~= task.files);
    if reply_fits(c.progress->action, reply) {
        lemma_inv_step(c, task, reply);
    }
}

#[verifier::rlimit(100)]
proof fn lemma_answers_placing(c: EnclaveCourse, task: Task, reply: ReplyView)
    requires
        task.is_sound(),
        c.inv(task),
        c.progress is Next,
        match c.changeset.stage {
            Stage::AwaitEnd
            | Stage::DropStale
            | Stage::LinkData
            | Stage::SwapData => true,
            _ => false,
        },
    ensures
        c.changeset.expects(reply) <==> reply_fits(c.progress->action, reply),
        reply_fits(c.progress->action, reply) ==> answers_well(task, c, reply),
{
    let after = c.advance(reply, task.now);
    if reply_fits(c.progress->action, reply) {
        lemma_inv_step(c, task, reply);
    }
}

#[verifier::rlimit(100)]
proof fn lemma_answers_linking(c: EnclaveCourse, task: Task, reply: ReplyView)
    requires
        task.is_sound(),
        c.inv(task),
        c.progress is Next,
        match c.changeset.stage {
            Stage::ClearLink { .. } | Stage::MakeLink { .. } | Stage::Retire => true,
            _ => false,
        },
    ensures
        c.changeset.expects(reply) <==> reply_fits(c.progress->action, reply),
        reply_fits(c.progress->action, reply) ==> answers_well(task, c, reply),
{
    let after = c.advance(reply, task.now);
    if reply_fits(c.progress->action, reply) {
        lemma_inv_step(c, task, reply);
    }
}

#[verifier::rlimit(100)]
proof fn lemma_answers_giving_up(c: EnclaveCourse, task: Task, reply: ReplyView)
    requires
        task.is_sound(),
        c.inv(task),
        c.progress is Next,
        match c.changeset.stage {
            Stage::Discard { .. } | Stage::Skip { .. } | Stage::Drain | Stage::Reject => true,
            _ => false,
        },
    ensures
        c.changeset.expects(reply) <==> reply_fits(c.progress->action, reply),
        reply_fits(c.progress->action, reply) ==> answers_well(task, c, reply),
{
    let after = c.advance(reply, task.now);
    match c.changeset.stage {
        Stage::Skip { unread } => {
            law_reads_fit_the_buffer(unread as nat);
        },
        _ => {},
    }
    if reply_fits(c.progress->action, reply) {
        lemma_inv_step(c, task, reply);
    }
}

/// A changeset takes every outcome that its operation can have, and answers it as
/// it should: see [`answers_well`].
pub proof fn law_changeset_goes_on(task: Task, replies: Seq<ReplyView>, reply: ReplyView)
    requires
        task.is_sound(),
        EnclaveCourse::initial(task).admits(replies, task.now),
        EnclaveCourse::initial(task).after(replies, task.now).progress is Next,
    ensures
        ({
            let c = EnclaveCourse::initial(task).after(replies, task.now);
            &&& c.changeset.expects(reply) <==> reply_fits(c.progress->action, reply)
            &&& reply_fits(c.progress->action, reply) ==> answers_well(task, c, reply)
        }),
{
    lemma_inv(task, replies);
    let c = EnclaveCourse::initial(task).after(replies, task.now);
    match c.changeset.stage {
        Stage::MakeTarget | Stage::MakeStamped => lemma_answers_naming(c, task, reply),
        Stage::CreateTemp { .. } | Stage::ReadChunk { .. } | Stage::WriteChunk { .. } => {
            lemma_answers_content(c, task, reply)
        },
        Stage::Flush { .. } | Stage::RenameTemp { .. } => lemma_answers_sealing(c, task, reply),
        Stage::ClearLink { .. } | Stage::MakeLink { .. } | Stage::Retire => {
            lemma_answers_linking(c, task, reply)
        },
        Stage::Discard { .. } | Stage::Skip { .. } | Stage::Drain | Stage::Reject => {
            lemma_answers_giving_up(c, task, reply)
        },
        Stage::Finished => {},
        _ => lemma_answers_placing(c, task, reply),
    }
}

/// What is known of a directory after a changeset, by its result: see
/// [`is_known_after`].
pub proof fn law_what_is_known_after(task: Task, replies: Seq<ReplyView>)
    requires
        task.is_sound(),
        EnclaveCourse::initial(task).admits(replies, task.now),
    ensures
        ({
            let c = EnclaveCourse::initial(task).after(replies, task.now);
            c.progress matches ProgressView::Finished { result } ==> is_known_after(
                task,
                result,
                c.changeset.state,
            )
        }),
{
    lemma_inv(task, replies);
}

/// The time makes no difference but to the name of the new directory, which it
/// gets when the target directory has been created.
pub proof fn law_time_settles_the_name_only(
    c: ChangesetView,
    reply: ReplyView,
    now: Moment,
    later: Moment,
)
    ensures
        c.stage != Stage::MakeTarget || reply is Failed ==> c.step(reply, now) == c.step(
            reply,
            later,
        ),
        c.stage == Stage::MakeTarget && !(reply is Failed) ==> c.step(reply, now).0.ts_dir
            == stamp_dir_of(now),
{
}

} // verus!
