//! Laws of what a changeset can do: on a file system where an operation succeeds
//! exactly when it can, a changeset always succeeds.

use vstd::prelude::*;

use crate::actions::{ActionView, ReplyView};
use crate::changeset::{chunk_len, lemma_sizes_bounded, ChangesetView, ProgressView, Stage};
use crate::clock::stamp_dir_of;
use crate::enclave_course::Task;
use crate::messages::MessageView;
use crate::outcome::law_every_operation_counts;
use crate::paths::{join_of, law_join_separates_by_one_slash};
use crate::placement::law_stamp_is_no_link;

verus! {

/// Which directories there are, and which paths lead to a file or a link.
#[verifier::ext_equal]
pub struct Tree {
    pub dirs: Set<Seq<char>>,
    pub entries: Set<Seq<char>>,
}

/// Whether a name is that of a single entry of a directory.
pub open spec fn is_entry_name(name: Seq<char>) -> bool {
    name.len() > 0 && !name.contains('/')
}

impl Tree {
    /// Whether an entry can be made at `p`: it lies right in a directory that
    /// exists, and is not itself a directory.
    pub open spec fn has_room(self, p: Seq<char>) -> bool {
        &&& !self.dirs.contains(p)
        &&& exists|d: Seq<char>, name: Seq<char>|
            self.dirs.contains(d) && is_entry_name(name) && p == #[trigger] join_of(d, name)
    }

    /// Whether an operation can succeed.
    pub open spec fn can(self, action: ActionView) -> bool {
        match action {
            ActionView::CreateDir { path } => !self.entries.contains(path),
            ActionView::CreateFile { path } => self.has_room(path),
            ActionView::Rename { from, to } => self.entries.contains(from) && self.has_room(to),
            ActionView::RemoveFile { path } => self.entries.contains(path),
            ActionView::Symlink { link, .. } => self.has_room(link) && !self.entries.contains(link),
            ActionView::RemoveDir { path } => self.dirs.contains(path),
            _ => true,
        }
    }

    /// The tree after an operation that succeeded.
    pub open spec fn apply(self, action: ActionView) -> Self {
        match action {
            ActionView::CreateDir { path } => Tree { dirs: self.dirs.insert(path), ..self },
            ActionView::CreateFile { path } => Tree { entries: self.entries.insert(path), ..self },
            ActionView::Rename { from, to } => Tree {
                entries: self.entries.remove(from).insert(to),
                ..self
            },
            ActionView::RemoveFile { path } => Tree { entries: self.entries.remove(path), ..self },
            ActionView::Symlink { link, .. } => Tree { entries: self.entries.insert(link), ..self },
            ActionView::RemoveDir { path } => Tree { dirs: self.dirs.remove(path), ..self },
            _ => self,
        }
    }
}

/// Whether an outcome is the true one: an operation on files succeeds exactly when
/// it can, as much content is read as was asked for, and the message that is
/// received ends the changeset of the directory.
pub open spec fn is_true(
    tree: Tree,
    action: ActionView,
    reply: ReplyView,
    directory: Seq<char>,
) -> bool {
    match action {
        ActionView::ReadExact { len } => reply is Data && reply->Data_bytes.len() == len,
        ActionView::Receive => reply == (ReplyView::Message {
            message: MessageView::ChangesetEnd { directory },
        }),
        _ => if tree.can(action) {
            reply is Done
        } else {
            reply is Failed
        },
    }
}

/// A changeset on such a file system.
#[verifier::ext_equal]
pub struct Venture {
    pub changeset: ChangesetView,
    pub progress: ProgressView,
    pub tree: Tree,
}

impl Venture {
    /// The changeset before any outcome.
    pub open spec fn initial(task: Task, tree: Tree) -> Self {
        Venture {
            changeset: ChangesetView::initial(task.directory, task.files, task.state),
            progress: ProgressView::Next {
                action: ActionView::CreateDir { path: task.directory },
            },
            tree,
        }
    }

    /// The changeset after one more outcome.
    pub open spec fn advance(self, task: Task, reply: ReplyView) -> Self {
        let (changeset, progress) = self.changeset.step(reply, task.now);
        Venture {
            changeset,
            progress,
            tree: if reply is Failed {
                self.tree
            } else {
                self.tree.apply(self.progress->action)
            },
        }
    }

    /// The changeset after a list of outcomes.
    pub open spec fn after(self, task: Task, replies: Seq<ReplyView>) -> Self
        decreases replies.len(),
    {
        if replies.len() == 0 {
            self
        } else {
            self.after(task, replies.drop_last()).advance(task, replies.last())
        }
    }

    /// Whether every outcome of a list is the true one.
    pub open spec fn is_true(self, task: Task, replies: Seq<ReplyView>) -> bool
        decreases replies.len(),
    {
        replies.len() == 0 || {
            let before = self.after(task, replies.drop_last());
            &&& self.is_true(task, replies.drop_last())
            &&& before.progress is Next
            &&& is_true(before.tree, before.progress->action, replies.last(), task.directory)
        }
    }

    /// Whether neither a directory lies where an entry is to be made, nor an entry
    /// where a directory is to be made.
    pub open spec fn is_clear(self, task: Task) -> bool {
        &&& !self.tree.dirs.contains(join_of(task.directory, "..data"@))
        &&& !self.tree.dirs.contains(join_of(task.directory, "..data_tmp"@))
        &&& forall|i: int| #![trigger task.files[i]] 0 <= i < task.files.len() ==> {
            let name = task.files[i].name;
            &&& !self.tree.dirs.contains(join_of(task.directory, name))
            &&& !self.tree.dirs.contains(join_of(task.stamped(), name))
            &&& !self.tree.dirs.contains(join_of(task.stamped(), ".tmp."@ + name))
        }
    }

    spec fn inv(self, task: Task) -> bool {
        let c = self.changeset;
        let action = self.progress->action;
        let tree = self.tree;
        &&& c.wf()
        &&& c.directory == task.directory
        &&& c.files == task.files
        &&& self.progress is Finished <==> c.stage == Stage::Finished
        &&& self.progress is Finished ==> self.progress->result is Ok
        &&& self.progress is Next ==> self.is_clear(task)
        &&& c.stage != Stage::MakeTarget && c.stage != Stage::Finished ==> c.ts_dir
            == stamp_dir_of(task.now) && tree.dirs.contains(task.directory)
        &&& match c.stage {
            Stage::MakeTarget => {
                &&& action == (ActionView::CreateDir { path: task.directory })
                &&& !tree.entries.contains(task.directory)
                &&& !tree.entries.contains(task.stamped())
            },
            Stage::MakeStamped => {
                &&& action == (ActionView::CreateDir { path: task.stamped() })
                &&& !tree.entries.contains(task.stamped())
            },
            Stage::CreateTemp { file } => tree.dirs.contains(task.stamped()) && action == (
            ActionView::CreateFile { path: c.tmp_path(file as int) }),
            Stage::ReadChunk { file, remaining } => tree.dirs.contains(task.stamped())
                && tree.entries.contains(c.tmp_path(file as int)) && action is ReadExact
                && action->len == chunk_len(remaining as nat),
            Stage::WriteChunk { file, .. } => tree.dirs.contains(task.stamped())
                && tree.entries.contains(c.tmp_path(file as int)) && action is Write,
            Stage::Flush { file } => tree.dirs.contains(task.stamped()) && tree.entries.contains(
                c.tmp_path(file as int),
            ) && action is Flush,
            Stage::RenameTemp { file } => tree.dirs.contains(task.stamped())
                && tree.entries.contains(c.tmp_path(file as int)) && action == (
            ActionView::Rename { from: c.tmp_path(file as int), to: c.file_path(file as int) }),
            Stage::AwaitEnd => action is Receive,
            Stage::DropStale => action == (ActionView::RemoveFile { path: c.data_tmp_path() }),
            Stage::LinkData => action is Symlink && action->link == c.data_tmp_path()
                && !tree.entries.contains(c.data_tmp_path()),
            Stage::SwapData => tree.entries.contains(c.data_tmp_path()) && action == (
            ActionView::Rename { from: c.data_tmp_path(), to: c.data_path() }),
            Stage::ClearLink { file } => action == (ActionView::RemoveFile {
                path: c.link_path(file as int),
            }),
            Stage::MakeLink { file } => action is Symlink && action->link == c.link_path(
                file as int,
            ) && !tree.entries.contains(c.link_path(file as int)),
            Stage::Retire => action is RemoveDir,
            Stage::Finished => true,
            _ => false,
        }
    }
}

/// An entry of a directory has another path than any directory it lies in.
proof fn lemma_join_is_longer(d: Seq<char>, name: Seq<char>)
    requires
        is_entry_name(name),
    ensures
        join_of(d, name).len() > d.len(),
{
    assert(name.contains(name[0]));
    law_join_separates_by_one_slash(d, name);
}

/// Entries of one directory have the same path only if they have the same name.
proof fn lemma_join_tells_names_apart(d: Seq<char>, a: Seq<char>, b: Seq<char>)
    requires
        is_entry_name(a),
        is_entry_name(b),
        join_of(d, a) == join_of(d, b),
    ensures
        a == b,
{
    assert(a.contains(a[0]));
    assert(b.contains(b[0]));
    law_join_separates_by_one_slash(d, a);
    law_join_separates_by_one_slash(d, b);
    let front = join_of(d, a).len() - a.len();
    assert(join_of(d, a).skip(front) =~= a);
    assert(join_of(d, b).skip(front) =~= b);
}

proof fn lemma_names(task: Task)
    requires
        task.is_sound(),
        forall|i: int|
            0 <= i < task.files.len() ==> is_entry_name((#[trigger] task.files[i]).name)
                && task.files[i].name != stamp_dir_of(task.now),
    ensures
        is_entry_name("..data"@),
        is_entry_name("..data_tmp"@),
        is_entry_name(stamp_dir_of(task.now)),
        join_of(task.directory, "..data"@) != task.directory,
        join_of(task.directory, "..data_tmp"@) != task.directory,
        join_of(task.directory, "..data"@) != task.stamped(),
        join_of(task.directory, "..data_tmp"@) != task.stamped(),
        forall|i: int| #![trigger task.files[i]] 0 <= i < task.files.len() ==> {
            let name = task.files[i].name;
            let tmp = ".tmp."@ + name;
            &&& is_entry_name(tmp)
            &&& join_of(task.directory, name) != task.directory
            &&& join_of(task.directory, name) != task.stamped()
            &&& join_of(task.stamped(), name) != task.directory
            &&& join_of(task.stamped(), name) != task.stamped()
            &&& join_of(task.stamped(), tmp) != task.directory
            &&& join_of(task.stamped(), tmp) != task.stamped()
        },
{
    let d = task.directory;
    let stamp = stamp_dir_of(task.now);
    law_stamp_is_no_link(stamp);
    reveal_strlit("..data");
    reveal_strlit("..data_tmp");
    reveal_strlit(".tmp.");
    assert(!"..data"@.contains('/'));
    assert(!"..data_tmp"@.contains('/'));
    lemma_join_is_longer(d, "..data"@);
    lemma_join_is_longer(d, "..data_tmp"@);
    lemma_join_is_longer(d, stamp);
    if join_of(d, "..data"@) == task.stamped() {
        lemma_join_tells_names_apart(d, "..data"@, stamp);
    }
    if join_of(d, "..data_tmp"@) == task.stamped() {
        lemma_join_tells_names_apart(d, "..data_tmp"@, stamp);
    }
    assert forall|i: int| #![trigger task.files[i]] 0 <= i < task.files.len() implies {
        let name = task.files[i].name;
        let tmp = ".tmp."@ + name;
        &&& is_entry_name(tmp)
        &&& join_of(task.directory, name) != task.directory
        &&& join_of(task.directory, name) != task.stamped()
        &&& join_of(task.stamped(), name) != task.directory
        &&& join_of(task.stamped(), name) != task.stamped()
        &&& join_of(task.stamped(), tmp) != task.directory
        &&& join_of(task.stamped(), tmp) != task.stamped()
    } by {
        let name = task.files[i].name;
        let tmp = ".tmp."@ + name;
        if tmp.contains('/') {
            let k = choose|k: int| 0 <= k < tmp.len() && tmp[k] == '/';
            if k >= 5 {
                assert(name[k - 5] == '/');
                assert(name.contains('/'));
            }
        }
        lemma_join_is_longer(d, name);
        lemma_join_is_longer(task.stamped(), name);
        lemma_join_is_longer(task.stamped(), tmp);
        if join_of(d, name) == task.stamped() {
            lemma_join_tells_names_apart(d, name, stamp);
        }
    }
}

#[verifier::rlimit(60)]
proof fn lemma_inv_step(v: Venture, task: Task, reply: ReplyView)
    requires
        task.is_sound(),
        forall|i: int|
            0 <= i < task.files.len() ==> is_entry_name((#[trigger] task.files[i]).name)
                && task.files[i].name != stamp_dir_of(task.now),
        v.inv(task),
        v.progress is Next,
        is_true(v.tree, v.progress->action, reply, task.directory),
    ensures
        v.changeset.expects(reply),
        v.advance(task, reply).inv(task),
{
    let c = v.changeset;
    let tree = v.tree;
    let after = v.advance(task, reply);
    lemma_names(task);
    lemma_sizes_bounded(c);
    match c.stage {
        Stage::CreateTemp { file } => {
            let name = task.files[file as int].name;
            assert(c.tmp_path(file as int) == join_of(task.stamped(), ".tmp."@ + name));
            assert(tree.has_room(c.tmp_path(file as int)));
        },
        Stage::RenameTemp { file } => {
            let name = task.files[file as int].name;
            assert(c.file_path(file as int) == join_of(task.stamped(), name));
            assert(tree.has_room(c.file_path(file as int)));
        },
        Stage::LinkData => {
            assert(c.data_tmp_path() == join_of(task.directory, "..data_tmp"@));
            assert(tree.has_room(c.data_tmp_path()));
        },
        Stage::SwapData => {
            assert(c.data_path() == join_of(task.directory, "..data"@));
            assert(tree.has_room(c.data_path()));
        },
        Stage::MakeLink { file } => {
            let name = task.files[file as int].name;
            assert(c.link_path(file as int) == join_of(task.directory, name));
            assert(tree.has_room(c.link_path(file as int)));
        },
        _ => {},
    }
    assert(v.changeset.expects(reply));
    law_every_operation_counts(c, reply, task.now);
}

proof fn lemma_inv(task: Task, tree: Tree, replies: Seq<ReplyView>)
    requires
        task.is_sound(),
        forall|i: int|
            0 <= i < task.files.len() ==> is_entry_name((#[trigger] task.files[i]).name)
                && task.files[i].name != stamp_dir_of(task.now),
        Venture::initial(task, tree).is_clear(task),
        !tree.entries.contains(task.directory),
        !tree.entries.contains(task.stamped()),
        Venture::initial(task, tree).is_true(task, replies),
    ensures
        Venture::initial(task, tree).after(task, replies).inv(task),
    decreases replies.len(),
{
    if replies.len() > 0 {
        lemma_inv(task, tree, replies.drop_last());
        lemma_inv_step(
            Venture::initial(task, tree).after(task, replies.drop_last()),
            task,
            replies.last(),
        );
    }
}

/// A changeset never asks for what cannot be done. On a file system where an
/// operation succeeds exactly when it can (files, links and renames need their
/// directory to exist, a file that is renamed must be there, and a link needs a
/// vacant place), and on a connection that delivers the content and the end of the
/// changeset, every changeset goes on or succeeds. It must only be that no
/// directory lies where an entry is to be made, and no entry where a directory is.
pub proof fn law_changeset_can_be_carried_out(task: Task, tree: Tree, replies: Seq<ReplyView>)
    requires
        task.is_sound(),
        forall|i: int|
            0 <= i < task.files.len() ==> is_entry_name((#[trigger] task.files[i]).name)
                && task.files[i].name != stamp_dir_of(task.now),
        Venture::initial(task, tree).is_clear(task),
        !tree.entries.contains(task.directory),
        !tree.entries.contains(task.stamped()),
        Venture::initial(task, tree).is_true(task, replies),
    ensures
        ({
            let v = Venture::initial(task, tree).after(task, replies);
            v.progress matches ProgressView::Finished { result } ==> result is Ok
        }),
        ({
            let v = Venture::initial(task, tree).after(task, replies);
            v.progress matches ProgressView::Next { action } ==> v.tree.can(action)
                || action is RemoveFile || action is RemoveDir
        }),
{
    lemma_inv(task, tree, replies);
    lemma_names(task);
    let v = Venture::initial(task, tree).after(task, replies);
    let c = v.changeset;
    match c.stage {
        Stage::CreateTemp { file } => {
            let name = task.files[file as int].name;
            assert(c.tmp_path(file as int) == join_of(task.stamped(), ".tmp."@ + name));
        },
        Stage::RenameTemp { file } => {
            let name = task.files[file as int].name;
            assert(c.file_path(file as int) == join_of(task.stamped(), name));
        },
        Stage::LinkData => {
            assert(c.data_tmp_path() == join_of(task.directory, "..data_tmp"@));
        },
        Stage::SwapData => {
            assert(c.data_path() == join_of(task.directory, "..data"@));
        },
        Stage::MakeLink { file } => {
            let name = task.files[file as int].name;
            assert(c.link_path(file as int) == join_of(task.directory, name));
        },
        _ => {},
    }
}

} // verus!
