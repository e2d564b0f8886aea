//! Laws of receiving a changeset: what it does to the file system, whatever the
//! outcomes of its operations.

use vstd::prelude::*;

use crate::actions::{ActionView, ReplyView};
use crate::changeset::{
    lemma_sizes_bounded, ChangesetView, DirectoryStateView, ErrorView, ProgressView, Stage,
};
use crate::clock::{is_stamp_char, is_stamp_dir, stamp_dir_of, Moment};
use crate::disk::{effect, under, Disk};
use crate::messages::{FileEntryView, MessageView};
use crate::paths::join_of;
use crate::sizes::{lemma_offset_order, lemma_offset_step, offset, share, total_size};

verus! {

/// Names that stay inside their directory and leave the link to the files in place
/// alone: single components, none of which is the name of that link.
pub open spec fn simple_names(files: Seq<FileEntryView>) -> bool {
    forall|i: int|
        0 <= i < files.len() ==> !(#[trigger] files[i]).name.contains('/') && files[i].name
            != "..data"@
}

/// Names none of which is the temporary name of another.
pub open spec fn untangled_names(files: Seq<FileEntryView>) -> bool {
    forall|i: int, j: int|
        0 <= i < files.len() && 0 <= j < files.len() ==> (#[trigger] files[j]).name != ".tmp."@ + (
        #[trigger] files[i]).name
}

/// Names no two of which are alike.
pub open spec fn distinct_names(files: Seq<FileEntryView>) -> bool {
    forall|i: int, j: int|
        0 <= i < j < files.len() ==> (#[trigger] files[i]).name != (#[trigger] files[j]).name
}

/// Joining a relative name appends it behind the slash.
proof fn lemma_join_relative(dir: Seq<char>, name: Seq<char>)
    requires
        !name.contains('/'),
    ensures
        join_of(dir, name) == join_of(dir, Seq::empty()) + name,
{
    if name.len() > 0 {
        assert(name.contains(name[0]));
    }
    assert(join_of(dir, name) =~= join_of(dir, Seq::empty()) + name);
}

/// Sequences with a common front differ where their ends differ.
proof fn lemma_common_front(front: Seq<char>, a: Seq<char>, b: Seq<char>)
    ensures
        front + a == front + b <==> a == b,
{
    if front + a == front + b {
        assert(a =~= (front + a).skip(front.len() as int));
        assert(b =~= (front + b).skip(front.len() as int));
    }
}

/// A name without slash lies in no directory beside it.
proof fn lemma_not_under(front: Seq<char>, dir: Seq<char>, name: Seq<char>)
    requires
        !name.contains('/'),
    ensures
        !(front + dir.push('/')).is_prefix_of(front + name),
{
    let prefix = front + dir.push('/');
    let p = front + name;
    if prefix.is_prefix_of(p) {
        let at = front.len() + dir.len();
        assert(prefix[at as int] == '/');
        assert(p.subrange(0, prefix.len() as int)[at as int] == p[at as int]);
        assert(p[at as int] == name[dir.len() as int]);
        assert(name.contains(name[dir.len() as int]));
    }
}

/// What lies in one of two differently named directories does not lie in the
/// other.
proof fn lemma_not_under_sibling(
    front: Seq<char>,
    dir: Seq<char>,
    other: Seq<char>,
    name: Seq<char>,
)
    requires
        !dir.contains('/'),
        !other.contains('/'),
        dir != other,
    ensures
        !(front + other.push('/')).is_prefix_of(front + dir.push('/') + name),
{
    let prefix = front + other.push('/');
    let p = front + dir.push('/') + name;
    if prefix.is_prefix_of(p) {
        assert forall|k: int| 0 <= k < prefix.len() implies prefix[k] == p[k] by {
            assert(p.subrange(0, prefix.len() as int)[k] == p[k]);
        }
        let n = front.len() as int;
        if other.len() < dir.len() {
            assert(prefix[n + other.len()] == '/');
            assert(p[n + other.len()] == dir[other.len() as int]);
            assert(dir.contains(dir[other.len() as int]));
        } else if dir.len() < other.len() {
            assert(p[n + dir.len()] == '/');
            assert(prefix[n + dir.len()] == other[dir.len() as int]);
            assert(other.contains(other[dir.len() as int]));
        } else {
            assert forall|k: int| 0 <= k < dir.len() implies dir[k] == other[k] by {
                assert(prefix[n + k] == other[k]);
                assert(p[n + k] == dir[k]);
            }
            assert(dir =~= other);
        }
    }
}

/// The name of a stamped directory is a single component and none of the names of
/// the links.
pub proof fn law_stamp_is_no_link(name: Seq<char>)
    requires
        is_stamp_dir(name),
    ensures
        !name.contains('/'),
        name != "..data"@,
        name != "..data_tmp"@,
{
    reveal_strlit("..data");
    reveal_strlit("..data_tmp");
    assert("..data"@[2] == 'd');
    assert("..data_tmp"@[2] == 'd');
    if name.contains('/') {
        let i = choose|i: int| 0 <= i < name.len() && name[i] == '/';
        assert(is_stamp_char(name[i]));
    }
}

/// The paths of a changeset, as names behind the directories they lie in.
proof fn lemma_paths(c: ChangesetView)
    requires
        is_stamp_dir(c.ts_dir),
        simple_names(c.files),
    ensures
        join_of(c.ts_path(), Seq::empty()) == join_of(c.directory, Seq::empty()) + c.ts_dir.push('/'),
        forall|i: int|
            0 <= i < c.files.len() ==> #[trigger] c.file_path(i) == join_of(
                c.ts_path(),
                Seq::empty(),
            ) + c.files[i].name,
        forall|i: int|
            0 <= i < c.files.len() ==> #[trigger] c.tmp_path(i) == join_of(
                c.ts_path(),
                Seq::empty(),
            ) + (".tmp."@ + c.files[i].name),
        forall|i: int|
            0 <= i < c.files.len() ==> #[trigger] c.link_path(i) == join_of(
                c.directory,
                Seq::empty(),
            ) + c.files[i].name,
{
    let d = join_of(c.directory, Seq::empty());
    let ts = c.ts_dir;
    law_stamp_is_no_link(ts);
    lemma_join_relative(c.directory, ts);
    reveal_strlit(".tmp.");
    let t = join_of(c.ts_path(), Seq::empty());
    assert(c.ts_path().last() == ts.last());
    assert(is_stamp_char(ts[ts.len() - 1]));
    assert(t =~= d + ts.push('/'));
    assert forall|i: int| 0 <= i < c.files.len() implies #[trigger] c.file_path(i) == t
        + c.files[i].name by {
        lemma_join_relative(c.ts_path(), c.files[i].name);
    }
    assert forall|i: int| 0 <= i < c.files.len() implies #[trigger] c.tmp_path(i) == t + (".tmp."@
        + c.files[i].name) by {
        let tmp = ".tmp."@ + c.files[i].name;
        if tmp.contains('/') {
            let k = choose|k: int| 0 <= k < tmp.len() && tmp[k] == '/';
            if k >= 5 {
                assert(c.files[i].name[k - 5] == '/');
                assert(c.files[i].name.contains('/'));
            }
        }
        lemma_join_relative(c.ts_path(), tmp);
    }
    assert forall|i: int| 0 <= i < c.files.len() implies #[trigger] c.link_path(i) == d
        + c.files[i].name by {
        lemma_join_relative(c.directory, c.files[i].name);
    }
}

/// Which paths of a changeset lie in its stamped directory, and which do not.
proof fn lemma_layout(c: ChangesetView)
    requires
        is_stamp_dir(c.ts_dir),
        simple_names(c.files),
    ensures
        forall|i: int|
            0 <= i < c.files.len() ==> under(#[trigger] c.file_path(i), c.ts_path()),
        forall|i: int|
            0 <= i < c.files.len() ==> under(#[trigger] c.tmp_path(i), c.ts_path()),
        !under(c.data_path(), c.ts_path()),
        !under(c.data_tmp_path(), c.ts_path()),
        c.data_path() != c.data_tmp_path(),
        forall|i: int|
            0 <= i < c.files.len() ==> !under(#[trigger] c.link_path(i), c.ts_path())
                && c.link_path(i) != c.data_path(),
{
    let d = join_of(c.directory, Seq::empty());
    let t = join_of(c.ts_path(), Seq::empty());
    lemma_paths(c);
    reveal_strlit("..data");
    reveal_strlit("..data_tmp");
    assert(!"..data"@.contains('/'));
    assert(!"..data_tmp"@.contains('/'));
    lemma_join_relative(c.directory, "..data"@);
    lemma_join_relative(c.directory, "..data_tmp"@);
    assert forall|x: Seq<char>| #[trigger] t.is_prefix_of(t + x) by {
        assert((t + x).subrange(0, t.len() as int) =~= t);
    }
    assert forall|i: int| 0 <= i < c.files.len() implies under(
        #[trigger] c.file_path(i),
        c.ts_path(),
    ) by {}
    assert forall|i: int| 0 <= i < c.files.len() implies under(
        #[trigger] c.tmp_path(i),
        c.ts_path(),
    ) by {}
    lemma_not_under(d, c.ts_dir, "..data"@);
    lemma_not_under(d, c.ts_dir, "..data_tmp"@);
    lemma_common_front(d, "..data"@, "..data_tmp"@);
    assert forall|i: int| 0 <= i < c.files.len() implies !under(
        #[trigger] c.link_path(i),
        c.ts_path(),
    ) && c.link_path(i) != c.data_path() by {
        lemma_not_under(d, c.ts_dir, c.files[i].name);
        lemma_common_front(d, c.files[i].name, "..data"@);
    }
}

/// No file has the path of a temporary file.
proof fn lemma_layout_temps(c: ChangesetView)
    requires
        is_stamp_dir(c.ts_dir),
        simple_names(c.files),
        untangled_names(c.files),
    ensures
        forall|i: int, j: int|
            0 <= i < c.files.len() && 0 <= j < c.files.len() ==> #[trigger] c.tmp_path(i)
                != #[trigger] c.file_path(j),
{
    let t = join_of(c.ts_path(), Seq::empty());
    lemma_paths(c);
    assert forall|i: int, j: int|
        0 <= i < c.files.len() && 0 <= j < c.files.len() implies #[trigger] c.tmp_path(i)
        != #[trigger] c.file_path(j) by {
        lemma_common_front(t, ".tmp."@ + c.files[i].name, c.files[j].name);
    }
}

/// Files with different names have different paths.
proof fn lemma_layout_files(c: ChangesetView)
    requires
        is_stamp_dir(c.ts_dir),
        simple_names(c.files),
        distinct_names(c.files),
    ensures
        forall|i: int, j: int|
            0 <= i < j < c.files.len() ==> #[trigger] c.file_path(i) != #[trigger] c.file_path(j),
{
    let t = join_of(c.ts_path(), Seq::empty());
    lemma_paths(c);
    assert forall|i: int, j: int| 0 <= i < j < c.files.len() implies #[trigger] c.file_path(i)
        != #[trigger] c.file_path(j) by {
        lemma_common_front(t, c.files[i].name, c.files[j].name);
    }
}

/// Files whose links have the same path have the same name.
proof fn lemma_same_link(c: ChangesetView, i: int, j: int)
    requires
        is_stamp_dir(c.ts_dir),
        simple_names(c.files),
        0 <= i < c.files.len(),
        0 <= j < c.files.len(),
        c.link_path(i) == c.link_path(j),
    ensures
        c.files[i].name == c.files[j].name,
{
    lemma_paths(c);
    lemma_common_front(join_of(c.directory, Seq::empty()), c.files[i].name, c.files[j].name);
}

/// The stamped directory that was in place before has nothing in common with the
/// paths of the changeset.
proof fn lemma_layout_previous(c: ChangesetView, previous: Seq<char>)
    requires
        is_stamp_dir(c.ts_dir),
        is_stamp_dir(previous),
        previous != c.ts_dir,
        simple_names(c.files),
    ensures
        forall|i: int|
            0 <= i < c.files.len() ==> !under(
                #[trigger] c.file_path(i),
                join_of(c.directory, previous),
            ),
        forall|i: int|
            0 <= i < c.files.len() ==> !under(
                #[trigger] c.link_path(i),
                join_of(c.directory, previous),
            ),
        !under(c.data_path(), join_of(c.directory, previous)),
        forall|p: Seq<char>|
            under(p, c.ts_path()) ==> !(#[trigger] under(p, join_of(c.directory, previous))),
{
    let d = join_of(c.directory, Seq::empty());
    let ts = c.ts_dir;
    law_stamp_is_no_link(ts);
    law_stamp_is_no_link(previous);
    lemma_join_relative(c.directory, ts);
    lemma_join_relative(c.directory, previous);
    reveal_strlit("..data");
    assert(!"..data"@.contains('/'));
    lemma_join_relative(c.directory, "..data"@);
    let t = join_of(c.ts_path(), Seq::empty());
    assert(c.ts_path().last() == ts.last());
    assert(is_stamp_char(ts[ts.len() - 1]));
    assert(t =~= d + ts.push('/'));
    let old_path = join_of(c.directory, previous);
    assert(old_path.last() == previous.last());
    assert(is_stamp_char(previous[previous.len() - 1]));
    assert(join_of(old_path, Seq::empty()) =~= d + previous.push('/'));
    assert forall|i: int| 0 <= i < c.files.len() implies !under(
        #[trigger] c.file_path(i),
        old_path,
    ) by {
        lemma_join_relative(c.ts_path(), c.files[i].name);
        lemma_not_under_sibling(d, ts, previous, c.files[i].name);
    }
    assert forall|i: int| 0 <= i < c.files.len() implies !under(
        #[trigger] c.link_path(i),
        old_path,
    ) by {
        lemma_join_relative(c.directory, c.files[i].name);
        lemma_not_under(d, previous, c.files[i].name);
    }
    lemma_not_under(d, previous, "..data"@);
    assert forall|p: Seq<char>| under(p, c.ts_path()) implies !(#[trigger] under(p, old_path)) by {
        lemma_not_under_sibling(d, ts, previous, p.skip(t.len() as int));
        assert(t + p.skip(t.len() as int) =~= p);
    }
}

/// What a changeset starts from.
#[verifier::ext_equal]
pub struct Setting {
    pub directory: Seq<char>,
    pub files: Seq<FileEntryView>,
    pub state: Option<DirectoryStateView>,
    pub disk: Disk,
    /// The time at which the stamped directory gets its name.
    pub now: Moment,
}

impl Setting {
    /// Path of the stamped directory.
    pub open spec fn ts_path(self) -> Seq<char> {
        join_of(self.directory, stamp_dir_of(self.now))
    }

    /// Path of the file `i` in the stamped directory.
    pub open spec fn file_path(self, i: int) -> Seq<char> {
        join_of(self.ts_path(), self.files[i].name)
    }

    /// Path of the temporary file for the file `i`.
    pub open spec fn tmp_path(self, i: int) -> Seq<char> {
        join_of(self.ts_path(), ".tmp."@ + self.files[i].name)
    }

    /// The stamped directory that was in place before, if any.
    pub open spec fn previous(self) -> Option<Seq<char>> {
        match self.state {
            Some(s) => s.current_ts_dir,
            None => None,
        }
    }

    /// Whether the links to the single files are still to be created.
    pub open spec fn unlinked(self) -> bool {
        !(self.state is Some && self.state->0.symlinks_created)
    }

    /// Whether `p` is none of the paths that the changeset has to do with: the two
    /// links, what lies in its stamped directory or in the previous one, and the
    /// links to the single files where they are still to be created.
    pub open spec fn is_apart(self, p: Seq<char>) -> bool {
        &&& p != join_of(self.directory, "..data"@)
        &&& p != join_of(self.directory, "..data_tmp"@)
        &&& !under(p, self.ts_path())
        &&& self.previous() is Some ==> !under(p, join_of(self.directory, self.previous()->0))
        &&& self.unlinked() ==> forall|i: int|
            0 <= i < self.files.len() ==> p != join_of(
                self.directory,
                (#[trigger] self.files[i]).name,
            )
    }

    /// Whether the laws speak of this start: the names are simple, the stamped
    /// directory is another one than before, and no link lies in it.
    pub open spec fn is_placeable(self) -> bool {
        &&& is_stamp_dir(stamp_dir_of(self.now))
        &&& self.files.len() <= usize::MAX
        &&& forall|i: int| 0 <= i < self.files.len() ==> (#[trigger] self.files[i]).size <= u64::MAX
        &&& simple_names(self.files)
        &&& self.previous() is Some ==> is_stamp_dir(self.previous()->0) && self.previous()->0
            != stamp_dir_of(self.now)
        &&& forall|p: Seq<char>|
            under(p, self.ts_path()) ==> !(#[trigger] self.disk.links.contains_key(p))
    }

    /// Whether also the laws on contents speak of this start: the files can lie
    /// side by side, with their temporary files.
    pub open spec fn is_regular(self) -> bool {
        self.is_placeable() && untangled_names(self.files) && distinct_names(self.files)
    }
}

/// The outcome of an operation, and the file system after it.
#[verifier::ext_equal]
pub struct Happening {
    pub reply: ReplyView,
    pub disk: Disk,
}

/// A changeset on its way: its value, the operation under way, the file system,
/// the content bytes received so far, how many files have been given their names,
/// whether the changeset has been given up, whether its stamped directory has then
/// been removed, whether the host has ended the changeset, and whether its files
/// have been put in place.
#[verifier::ext_equal]
pub struct Reception {
    pub changeset: ChangesetView,
    pub progress: ProgressView,
    pub disk: Disk,
    pub received: Seq<u8>,
    pub renamed: nat,
    pub discarded: bool,
    pub removed: bool,
    pub ended: bool,
    pub published: bool,
}

impl Reception {
    /// The reception before any outcome.
    pub open spec fn initial(setting: Setting) -> Self {
        Reception {
            changeset: ChangesetView::initial(setting.directory, setting.files, setting.state),
            progress: ProgressView::Next {
                action: ActionView::CreateDir { path: setting.directory },
            },
            disk: setting.disk,
            received: Seq::empty(),
            renamed: 0,
            discarded: false,
            removed: false,
            ended: false,
            published: false,
        }
    }

    /// Whether `h` can happen now.
    pub open spec fn allows(self, h: Happening) -> bool {
        &&& self.progress is Next
        &&& self.changeset.expects(h.reply)
        &&& effect(self.disk, self.progress->action, h.reply, h.disk)
    }

    /// The reception after `h`.
    pub open spec fn advance(self, h: Happening, now: Moment) -> Self {
        let (changeset, progress) = self.changeset.step(h.reply, now);
        Reception {
            changeset,
            progress,
            disk: h.disk,
            received: if h.reply is Data {
                self.received + h.reply->Data_bytes
            } else {
                self.received
            },
            renamed: if self.changeset.stage is RenameTemp && h.reply is Done {
                self.renamed + 1
            } else {
                self.renamed
            },
            discarded: self.discarded || changeset.failure is Some,
            removed: self.removed || ((self.changeset.stage is Discard || self.changeset.stage
                == Stage::Reject) && h.reply is Done),
            ended: self.ended || (self.changeset.stage == Stage::AwaitEnd && h.reply == (
            ReplyView::Message {
                message: MessageView::ChangesetEnd { directory: self.changeset.directory },
            })),
            published: self.published || (self.changeset.stage == Stage::SwapData
                && h.reply is Done),
        }
    }

    /// The reception after a list of happenings.
    pub open spec fn after(self, hs: Seq<Happening>, now: Moment) -> Self
        decreases hs.len(),
    {
        if hs.len() == 0 {
            self
        } else {
            self.after(hs.drop_last(), now).advance(hs.last(), now)
        }
    }

    /// Whether a list of happenings can take place.
    pub open spec fn admits(self, hs: Seq<Happening>, now: Moment) -> bool
        decreases hs.len(),
    {
        hs.len() == 0 || (self.admits(hs.drop_last(), now) && self.after(
            hs.drop_last(),
            now,
        ).allows(hs.last()))
    }

    /// Whether the first `n` files lie complete in the stamped directory.
    pub open spec fn stored(self, n: int) -> bool {
        forall|j: int|
            0 <= j < n ==> self.disk.holds(
                #[trigger] self.changeset.file_path(j),
                share(self.changeset.files, self.received, j),
            )
    }

    /// Whether the links to the first `n` files are there.
    pub open spec fn linked(self, n: int) -> bool {
        forall|j: int|
            0 <= j < n ==> self.disk.leads(
                #[trigger] self.changeset.link_path(j),
                self.changeset.link_target(j),
            )
    }

    /// The operation under way at each stage, and the file that is open.
    spec fn action_inv(self, s: Setting) -> bool {
        let c = self.changeset;
        let action = self.progress->action;
        match c.stage {
            Stage::MakeTarget | Stage::MakeStamped => action is CreateDir,
            Stage::CreateTemp { file } => action == (ActionView::CreateFile {
                path: c.tmp_path(file as int),
            }),
            Stage::ReadChunk { file, .. } => action is ReadExact && self.disk.open == c.tmp_path(
                file as int,
            ),
            Stage::WriteChunk { file, .. } => action is Write && self.disk.open == c.tmp_path(
                file as int,
            ),
            Stage::Flush { .. } => action is Flush,
            Stage::RenameTemp { file } => action == (ActionView::Rename {
                from: c.tmp_path(file as int),
                to: c.file_path(file as int),
            }),
            Stage::Discard { .. } | Stage::Reject => action == (ActionView::RemoveDir {
                path: c.ts_path(),
            }),
            Stage::Skip { .. } => action is ReadExact,
            Stage::Drain | Stage::AwaitEnd => action is Receive,
            Stage::DropStale => action == (ActionView::RemoveFile { path: c.data_tmp_path() }),
            Stage::LinkData => action == (ActionView::Symlink {
                target: c.ts_dir,
                link: c.data_tmp_path(),
            }),
            Stage::SwapData => {
                &&& action == (ActionView::Rename { from: c.data_tmp_path(), to: c.data_path() })
                &&& self.disk.leads(c.data_tmp_path(), c.ts_dir)
                &&& !self.disk.contents.contains_key(c.data_tmp_path())
            },
            Stage::ClearLink { file } => action == (ActionView::RemoveFile {
                path: c.link_path(file as int),
            }),
            Stage::MakeLink { file } => action == (ActionView::Symlink {
                target: c.link_target(file as int),
                link: c.link_path(file as int),
            }),
            Stage::Retire => {
                &&& s.previous() is Some
                &&& action == (ActionView::RemoveDir {
                    path: join_of(s.directory, s.previous()->0),
                })
            },
            Stage::Finished => true,
        }
    }

    /// How much has been received at each stage.
    spec fn length_inv(self) -> bool {
        let files = self.changeset.files;
        let len = self.received.len();
        match self.changeset.stage {
            Stage::MakeTarget | Stage::MakeStamped => len == 0,
            Stage::CreateTemp { file } => len == offset(files, file as int),
            Stage::ReadChunk { file, remaining } | Stage::WriteChunk { file, remaining } => len
                + remaining == offset(files, file + 1),
            Stage::Flush { file } | Stage::RenameTemp { file } => len == offset(files, file + 1),
            Stage::AwaitEnd => len == total_size(files),
            Stage::DropStale
            | Stage::LinkData
            | Stage::SwapData
            | Stage::ClearLink { .. }
            | Stage::MakeLink { .. }
            | Stage::Retire => len == total_size(files) && self.ended,
            Stage::Finished => self.published ==> len == total_size(files) && self.ended,
            _ => true,
        }
    }

    /// What lies outside of the stamped directory, and that no link lies in it.
    spec fn place_inv(self, s: Setting) -> bool {
        let c = self.changeset;
        &&& forall|p: Seq<char>| s.is_apart(p) ==> #[trigger] s.disk.same_at(self.disk, p)
        &&& !self.published ==> forall|p: Seq<char>|
            p != c.data_tmp_path() && !under(p, s.ts_path()) ==> #[trigger] s.disk.same_at(
                self.disk,
                p,
            )
        &&& self.published ==> self.disk.leads(c.data_path(), stamp_dir_of(s.now))
        &&& forall|p: Seq<char>|
            under(p, s.ts_path()) ==> !(#[trigger] self.disk.links.contains_key(p))
    }

    /// Which links to single files are there at each stage.
    spec fn links_inv(self, s: Setting) -> bool {
        let c = self.changeset;
        match c.stage {
            Stage::ClearLink { file } => self.linked(file as int),
            Stage::MakeLink { file } => forall|j: int|
                0 <= j < file ==> #[trigger] c.link_path(j) == c.link_path(file as int)
                    || self.disk.leads(c.link_path(j), c.link_target(j)),
            Stage::Retire => s.unlinked() ==> self.linked(c.files.len() as int),
            Stage::Finished => self.progress == (ProgressView::Finished { result: Ok(()) })
                && s.unlinked() ==> self.linked(c.files.len() as int),
            _ => true,
        }
    }

    /// What is left of a changeset that has been given up.
    spec fn discard_inv(self, s: Setting) -> bool {
        &&& self.removed ==> self.discarded && forall|p: Seq<char>| #[trigger]
            under(p, s.ts_path()) ==> self.disk.lacks(p)
        &&& match self.changeset.stage {
            Stage::Discard { .. } | Stage::Skip { .. } | Stage::Drain | Stage::Reject => {
                self.discarded
            },
            Stage::Finished => self.discarded ==> !self.published,
            _ => !self.discarded,
        }
    }

    /// What is stored at each stage.
    spec fn content_inv(self) -> bool {
        let c = self.changeset;
        let files = c.files;
        let len = self.received.len();
        match c.stage {
            Stage::CreateTemp { file } => self.stored(file as int),
            Stage::ReadChunk { file, remaining } => {
                &&& self.stored(file as int)
                &&& self.disk.holds(
                    c.tmp_path(file as int),
                    self.received.skip(offset(files, file as int)),
                )
            },
            Stage::WriteChunk { file, remaining } => {
                let bytes = self.progress->action->Write_bytes;
                &&& self.stored(file as int)
                &&& offset(files, file as int) + bytes.len() <= len
                &&& bytes == self.received.skip(len - bytes.len())
                &&& self.disk.holds(
                    c.tmp_path(file as int),
                    self.received.subrange(offset(files, file as int), len - bytes.len()),
                )
            },
            Stage::Flush { file } | Stage::RenameTemp { file } => {
                &&& self.stored(file as int)
                &&& self.disk.holds(
                    c.tmp_path(file as int),
                    share(files, self.received, file as int),
                )
            },
            Stage::AwaitEnd
            | Stage::DropStale
            | Stage::LinkData
            | Stage::SwapData
            | Stage::ClearLink { .. }
            | Stage::MakeLink { .. }
            | Stage::Retire => self.stored(files.len() as int),
            Stage::Finished => self.published ==> self.stored(files.len() as int),
            _ => true,
        }
    }

    /// Whether nothing has been done yet to the paths of the files from `n` on.
    spec fn untouched(self, s: Setting, n: int) -> bool {
        forall|j: int|
            n <= j < s.files.len() ==> s.disk.same_at(self.disk, #[trigger] s.file_path(j))
    }

    /// Which files bear their names at each stage.
    spec fn naming_inv(self, s: Setting) -> bool {
        let n = s.files.len();
        &&& self.renamed <= n
        &&& self.renamed > 0 ==> self.changeset.ts_dir == stamp_dir_of(s.now)
        &&& match self.changeset.stage {
            Stage::MakeTarget | Stage::MakeStamped => self.renamed == 0 && self.untouched(s, 0),
            Stage::CreateTemp { file }
            | Stage::ReadChunk { file, .. }
            | Stage::WriteChunk { file, .. }
            | Stage::Flush { file }
            | Stage::RenameTemp { file } => self.renamed == file && self.untouched(s, file as int),
            Stage::Discard { .. } | Stage::Skip { .. } | Stage::Drain | Stage::Reject => true,
            Stage::AwaitEnd
            | Stage::DropStale
            | Stage::LinkData
            | Stage::SwapData
            | Stage::ClearLink { .. }
            | Stage::MakeLink { .. }
            | Stage::Retire => self.renamed == n,
            Stage::Finished => !self.discarded ==> self.stored(self.renamed as int)
                && self.untouched(s, self.renamed as int),
        }
    }

    /// Whether no temporary file of the first `n` files exists.
    spec fn cleared(self, n: int) -> bool {
        forall|j: int| 0 <= j < n ==> self.disk.lacks(#[trigger] self.changeset.tmp_path(j))
    }

    /// Which temporary files can exist at each stage.
    spec fn temps_inv(self) -> bool {
        let c = self.changeset;
        match c.stage {
            Stage::CreateTemp { file } => self.cleared(file as int),
            Stage::ReadChunk { file, .. }
            | Stage::WriteChunk { file, .. }
            | Stage::Flush { file }
            | Stage::RenameTemp { file } => forall|j: int|
                0 <= j < file ==> #[trigger] c.tmp_path(j) == c.tmp_path(file as int)
                    || self.disk.lacks(c.tmp_path(j)),
            Stage::AwaitEnd
            | Stage::DropStale
            | Stage::LinkData
            | Stage::SwapData
            | Stage::ClearLink { .. }
            | Stage::MakeLink { .. }
            | Stage::Retire => self.cleared(c.files.len() as int),
            Stage::Finished => self.published ==> self.cleared(c.files.len() as int),
            _ => true,
        }
    }

    /// What is known of the directory at each stage.
    spec fn state_inv(self, s: Setting) -> bool {
        let c = self.changeset;
        let linked_before = s.state is Some && s.state->0.symlinks_created;
        let found = Some(
            DirectoryStateView { current_ts_dir: s.previous(), symlinks_created: linked_before },
        );
        match c.stage {
            Stage::ClearLink { .. } | Stage::MakeLink { .. } => self.published && s.unlinked()
                && c.state == found,
            Stage::Retire => self.published && c.state == Some(
                DirectoryStateView { current_ts_dir: s.previous(), symlinks_created: true },
            ),
            Stage::Finished => {
                &&& self.progress is Finished
                &&& match self.progress->result {
                    Ok(()) => self.published && c.state == Some(
                        DirectoryStateView {
                            current_ts_dir: Some(stamp_dir_of(s.now)),
                            symlinks_created: true,
                        },
                    ),
                    Err(e) => {
                        &&& self.published <==> e is LinkFile
                        &&& self.published ==> c.state == found && s.unlinked()
                        &&& !self.published ==> c.state == s.state
                    },
                }
            },
            _ => !self.published && c.state == s.state,
        }
    }

    /// What holds of a reception at every point, whatever its files are called.
    spec fn outer_inv(self, s: Setting) -> bool {
        let c = self.changeset;
        &&& c.wf()
        &&& c.directory == s.directory
        &&& c.files == s.files
        &&& c.stage != Stage::Finished ==> self.progress is Next
        &&& c.stage != Stage::MakeTarget && c.stage != Stage::Finished ==> c.ts_dir
            == stamp_dir_of(s.now)
        &&& self.published ==> c.ts_dir == stamp_dir_of(s.now)
        &&& c.failure is Some ==> !(c.failure->0 is LinkFile)
        &&& self.action_inv(s)
        &&& self.length_inv()
        &&& self.place_inv(s)
        &&& self.links_inv(s)
        &&& self.discard_inv(s)
        &&& self.state_inv(s)
    }

    /// What holds besides where the files can lie side by side.
    spec fn inner_inv(self, s: Setting) -> bool {
        self.content_inv() && self.naming_inv(s)
    }
}

/// More content leaves the shares of the files before it alone.
proof fn lemma_share_extended(
    files: Seq<FileEntryView>,
    content: Seq<u8>,
    more: Seq<u8>,
    n: int,
)
    requires
        0 <= n <= files.len(),
        offset(files, n) <= content.len(),
    ensures
        forall|j: int|
            0 <= j < n ==> #[trigger] share(files, content + more, j) == share(files, content, j),
{
    assert forall|j: int| 0 <= j < n implies #[trigger] share(files, content + more, j) == share(
        files,
        content,
        j,
    ) by {
        lemma_offset_order(files, j, j + 1);
        lemma_offset_order(files, j + 1, n);
        assert(share(files, content + more, j) =~= share(files, content, j));
    }
}

/// Files stay stored while the file system stays the same where they lie.
proof fn lemma_stored_kept(before: Reception, after: Reception, n: int)
    requires
        before.stored(n),
        0 <= n <= before.changeset.files.len(),
        offset(before.changeset.files, n) <= before.received.len(),
        after.changeset.files == before.changeset.files,
        after.changeset.directory == before.changeset.directory,
        after.changeset.ts_dir == before.changeset.ts_dir,
        after.received == before.received || exists|more: Seq<u8>|
            after.received == before.received + more,
        forall|j: int|
            0 <= j < n ==> before.disk.same_at(
                after.disk,
                #[trigger] before.changeset.file_path(j),
            ),
    ensures
        after.stored(n),
{
    let files = before.changeset.files;
    if after.received != before.received {
        let more = choose|more: Seq<u8>| after.received == before.received + more;
        lemma_share_extended(files, before.received, more, n);
    }
    assert forall|j: int| 0 <= j < n implies after.disk.holds(
        #[trigger] after.changeset.file_path(j),
        share(files, after.received, j),
    ) by {
        assert(after.changeset.file_path(j) == before.changeset.file_path(j));
        assert(share(files, after.received, j) == share(files, before.received, j));
    }
}

/// What lies outside of the stamped directory stays as it was at the start while
/// a happening touches nothing there.
proof fn lemma_outside_kept(r: Reception, s: Setting, disk: Disk)
    requires
        r.place_inv(s),
        !r.published,
        forall|p: Seq<char>|
            p != r.changeset.data_tmp_path() && !under(p, s.ts_path()) ==> #[trigger] r.disk.same_at(
                disk,
                p,
            ),
    ensures
        forall|p: Seq<char>|
            p != r.changeset.data_tmp_path() && !under(p, s.ts_path()) ==> #[trigger] s.disk.same_at(
                disk,
                p,
            ),
{
    assert forall|p: Seq<char>|
        p != r.changeset.data_tmp_path() && !under(p, s.ts_path()) implies #[trigger] s.disk.same_at(
        disk,
        p,
    ) by {
        assert(s.disk.same_at(r.disk, p));
        assert(r.disk.same_at(disk, p));
    }
}

/// What the changeset has nothing to do with stays as it was at the start while a
/// happening touches nothing there.
proof fn lemma_apart_kept(r: Reception, s: Setting, disk: Disk)
    requires
        r.place_inv(s),
        forall|p: Seq<char>| s.is_apart(p) ==> #[trigger] r.disk.same_at(disk, p),
    ensures
        forall|p: Seq<char>| s.is_apart(p) ==> #[trigger] s.disk.same_at(disk, p),
{
    assert forall|p: Seq<char>| s.is_apart(p) implies #[trigger] s.disk.same_at(disk, p) by {
        assert(s.disk.same_at(r.disk, p));
        assert(r.disk.same_at(disk, p));
    }
}

/// Paths stay untouched while the file system stays the same there.
proof fn lemma_untouched_kept(before: Reception, after: Reception, s: Setting, n: int, m: int)
    requires
        before.untouched(s, n),
        0 <= n <= m,
        before.changeset.ts_path() == s.ts_path(),
        before.changeset.files == s.files,
        forall|j: int|
            m <= j < s.files.len() ==> before.disk.same_at(
                after.disk,
                #[trigger] before.changeset.file_path(j),
            ),
    ensures
        after.untouched(s, m),
{
    assert forall|j: int| m <= j < s.files.len() implies s.disk.same_at(
        after.disk,
        #[trigger] s.file_path(j),
    ) by {
        assert(before.changeset.file_path(j) == s.file_path(j));
        assert(s.disk.same_at(before.disk, s.file_path(j)));
    }
}

#[verifier::rlimit(40)]
proof fn lemma_outer_naming(r: Reception, s: Setting, h: Happening)
    requires
        s.is_placeable(),
        r.outer_inv(s),
        r.allows(h),
        r.changeset.stage == Stage::MakeTarget || r.changeset.stage == Stage::MakeStamped,
    ensures
        r.advance(h, s.now).outer_inv(s),
{
    assert(s.files.take(0).len() == 0);
    assert(offset(s.files, 0) == 0);
    if s.files.len() == 0 {
        assert(total_size(s.files) == 0);
    }
}

#[verifier::rlimit(40)]
proof fn lemma_outer_create(r: Reception, s: Setting, h: Happening, file: usize)
    requires
        s.is_placeable(),
        r.outer_inv(s),
        r.allows(h),
        r.changeset.stage == (Stage::CreateTemp { file }),
    ensures
        r.advance(h, s.now).outer_inv(s),
{
    let c = r.changeset;
    lemma_layout(c);
    lemma_sizes_bounded(c);
    lemma_offset_step(s.files, file as int);
    assert(s.files.take(s.files.len() as int) =~= s.files);
    assert forall|p: Seq<char>| !under(p, s.ts_path()) implies #[trigger] r.disk.same_at(
        h.disk,
        p,
    ) by {}
    lemma_outside_kept(r, s, h.disk);
    lemma_apart_kept(r, s, h.disk);
}

#[verifier::rlimit(40)]
proof fn lemma_outer_content(r: Reception, s: Setting, h: Happening, file: usize)
    requires
        s.is_placeable(),
        r.outer_inv(s),
        r.allows(h),
        match r.changeset.stage {
            Stage::ReadChunk { file: f, .. } | Stage::WriteChunk { file: f, .. } | Stage::Flush {
                file: f,
            } => f == file,
            _ => false,
        },
    ensures
        r.advance(h, s.now).outer_inv(s),
{
    let c = r.changeset;
    lemma_layout(c);
    lemma_sizes_bounded(c);
    lemma_offset_step(s.files, file as int);
    assert(s.files.take(s.files.len() as int) =~= s.files);
    assert forall|p: Seq<char>| !under(p, s.ts_path()) implies #[trigger] r.disk.same_at(
        h.disk,
        p,
    ) by {}
    lemma_outside_kept(r, s, h.disk);
    lemma_apart_kept(r, s, h.disk);
}

#[verifier::rlimit(40)]
proof fn lemma_outer_rename(r: Reception, s: Setting, h: Happening, file: usize)
    requires
        s.is_placeable(),
        r.outer_inv(s),
        r.allows(h),
        r.changeset.stage == (Stage::RenameTemp { file }),
    ensures
        r.advance(h, s.now).outer_inv(s),
{
    let c = r.changeset;
    lemma_layout(c);
    lemma_sizes_bounded(c);
    lemma_offset_step(s.files, file as int);
    assert(s.files.take(s.files.len() as int) =~= s.files);
    assert forall|p: Seq<char>| !under(p, s.ts_path()) implies #[trigger] r.disk.same_at(
        h.disk,
        p,
    ) by {}
    lemma_outside_kept(r, s, h.disk);
    lemma_apart_kept(r, s, h.disk);
}

#[verifier::rlimit(40)]
proof fn lemma_outer_messages(r: Reception, s: Setting, h: Happening)
    requires
        s.is_placeable(),
        r.outer_inv(s),
        r.allows(h),
        r.changeset.stage is Skip || r.changeset.stage == Stage::Drain || r.changeset.stage
            == Stage::AwaitEnd,
    ensures
        r.advance(h, s.now).outer_inv(s),
{
    assert(h.disk == r.disk);
    lemma_sizes_bounded(r.changeset);
}

#[verifier::rlimit(40)]
proof fn lemma_outer_discard(r: Reception, s: Setting, h: Happening)
    requires
        s.is_placeable(),
        r.outer_inv(s),
        r.allows(h),
        r.changeset.stage is Discard || r.changeset.stage == Stage::Reject,
    ensures
        r.advance(h, s.now).outer_inv(s),
{
    let c = r.changeset;
    let after = r.advance(h, s.now);
    lemma_sizes_bounded(c);
    lemma_layout(c);
    assert forall|p: Seq<char>| !under(p, s.ts_path()) implies #[trigger] r.disk.same_at(
        after.disk,
        p,
    ) by {}
    assert forall|p: Seq<char>| under(p, s.ts_path()) implies !(
    #[trigger] after.disk.links.contains_key(p)) by {
        assert(r.disk.same_at(after.disk, p) || after.disk.lacks(p));
    }
    if after.removed {
        assert forall|p: Seq<char>| #[trigger] under(p, s.ts_path()) implies after.disk.lacks(p) by {
            if h.reply is Failed {
                assert(r.disk.same_at(after.disk, p) || after.disk.lacks(p));
            }
        }
    }
    lemma_outside_kept(r, s, h.disk);
}

#[verifier::rlimit(40)]
proof fn lemma_outer_swap(r: Reception, s: Setting, h: Happening)
    requires
        s.is_placeable(),
        r.outer_inv(s),
        r.allows(h),
        r.changeset.stage == Stage::DropStale || r.changeset.stage == Stage::LinkData
            || r.changeset.stage == Stage::SwapData,
    ensures
        r.advance(h, s.now).outer_inv(s),
{
    let c = r.changeset;
    let after = r.advance(h, s.now);
    lemma_layout(c);
    assert forall|p: Seq<char>| s.is_apart(p) implies #[trigger] r.disk.same_at(h.disk, p) by {}
    lemma_apart_kept(r, s, h.disk);
    if !after.published {
        assert forall|p: Seq<char>|
            p != c.data_tmp_path() && !under(p, s.ts_path()) implies #[trigger] r.disk.same_at(
            h.disk,
            p,
        ) by {}
        lemma_outside_kept(r, s, h.disk);
    }
}

#[verifier::rlimit(40)]
proof fn lemma_outer_links(r: Reception, s: Setting, h: Happening, file: usize)
    requires
        s.is_placeable(),
        r.outer_inv(s),
        r.allows(h),
        r.changeset.stage == (Stage::ClearLink { file }) || r.changeset.stage == (Stage::MakeLink {
            file,
        }),
    ensures
        r.advance(h, s.now).outer_inv(s),
{
    let c = r.changeset;
    let after = r.advance(h, s.now);
    lemma_layout(c);
    assert forall|p: Seq<char>| s.is_apart(p) implies #[trigger] r.disk.same_at(h.disk, p) by {
        assert(p != join_of(s.directory, s.files[file as int].name));
    }
    lemma_apart_kept(r, s, h.disk);
    assert forall|j: int| 0 <= j < file implies #[trigger] after.changeset.link_path(j)
        == c.link_path(file as int) || after.disk.leads(
        after.changeset.link_path(j),
        after.changeset.link_target(j),
    ) by {
        assert(after.changeset.link_path(j) == c.link_path(j));
    }
    if c.stage == (Stage::MakeLink { file }) && h.reply is Done {
        assert forall|j: int| 0 <= j < file + 1 implies after.disk.leads(
            #[trigger] after.changeset.link_path(j),
            after.changeset.link_target(j),
        ) by {
            assert(after.changeset.link_path(j) == c.link_path(j));
            if c.link_path(j) == c.link_path(file as int) {
                lemma_same_link(c, j, file as int);
            }
        }
        assert(after.linked(file + 1));
    }
}

#[verifier::rlimit(40)]
proof fn lemma_outer_retire(r: Reception, s: Setting, h: Happening)
    requires
        s.is_placeable(),
        r.outer_inv(s),
        r.allows(h),
        r.changeset.stage == Stage::Retire,
    ensures
        r.advance(h, s.now).outer_inv(s),
{
    let c = r.changeset;
    let after = r.advance(h, s.now);
    let gone = join_of(s.directory, s.previous()->0);
    lemma_layout(c);
    lemma_layout_previous(c, s.previous()->0);
    assert forall|p: Seq<char>| !under(p, gone) implies #[trigger] r.disk.same_at(
        after.disk,
        p,
    ) by {}
    assert forall|p: Seq<char>| s.is_apart(p) implies #[trigger] r.disk.same_at(h.disk, p) by {}
    lemma_apart_kept(r, s, h.disk);
    assert(r.disk.same_at(after.disk, c.data_path()));
    if s.unlinked() {
        assert forall|j: int| 0 <= j < s.files.len() implies after.disk.leads(
            #[trigger] after.changeset.link_path(j),
            after.changeset.link_target(j),
        ) by {
            assert(after.changeset.link_path(j) == c.link_path(j));
            assert(r.disk.same_at(after.disk, c.link_path(j)));
        }
    }
    assert forall|p: Seq<char>| under(p, s.ts_path()) implies !(
    #[trigger] after.disk.links.contains_key(p)) by {
        if !under(p, gone) {
            assert(r.disk.same_at(after.disk, p));
        }
    }
}

/// Every happening keeps the outer invariant.
proof fn lemma_outer_step(r: Reception, s: Setting, h: Happening)
    requires
        s.is_placeable(),
        r.outer_inv(s),
        r.allows(h),
    ensures
        r.advance(h, s.now).outer_inv(s),
{
    match r.changeset.stage {
        Stage::MakeTarget | Stage::MakeStamped => lemma_outer_naming(r, s, h),
        Stage::CreateTemp { file } => lemma_outer_create(r, s, h, file),
        Stage::ReadChunk { file, .. } | Stage::WriteChunk { file, .. } | Stage::Flush { file } => {
            lemma_outer_content(r, s, h, file)
        },
        Stage::RenameTemp { file } => lemma_outer_rename(r, s, h, file),
        Stage::Skip { .. } | Stage::Drain | Stage::AwaitEnd => lemma_outer_messages(r, s, h),
        Stage::Discard { .. } | Stage::Reject => lemma_outer_discard(r, s, h),
        Stage::DropStale | Stage::LinkData | Stage::SwapData => lemma_outer_swap(r, s, h),
        Stage::ClearLink { file } | Stage::MakeLink { file } => lemma_outer_links(r, s, h, file),
        Stage::Retire => lemma_outer_retire(r, s, h),
        Stage::Finished => {},
    }
}

/// The outer invariant holds at every point of every reception.
proof fn lemma_outer(s: Setting, hs: Seq<Happening>)
    requires
        s.is_placeable(),
        Reception::initial(s).admits(hs, s.now),
    ensures
        Reception::initial(s).after(hs, s.now).outer_inv(s),
    decreases hs.len(),
{
    if hs.len() > 0 {
        lemma_outer(s, hs.drop_last());
        lemma_outer_step(Reception::initial(s).after(hs.drop_last(), s.now), s, hs.last());
    }
}

/// Once all files have been received, what lies in the stamped directory stays.
proof fn lemma_stamped_kept(r: Reception, s: Setting, h: Happening, p: Seq<char>)
    requires
        s.is_placeable(),
        r.outer_inv(s),
        r.allows(h),
        under(p, s.ts_path()),
        match r.changeset.stage {
            Stage::AwaitEnd
            | Stage::DropStale
            | Stage::LinkData
            | Stage::SwapData
            | Stage::ClearLink { .. }
            | Stage::MakeLink { .. }
            | Stage::Retire => true,
            _ => false,
        },
    ensures
        r.disk.same_at(h.disk, p),
{
    lemma_layout(r.changeset);
    if r.changeset.stage == Stage::Retire {
        lemma_layout_previous(r.changeset, s.previous()->0);
    }
}

#[verifier::rlimit(40)]
proof fn lemma_inner_temp(r: Reception, s: Setting, h: Happening, file: usize)
    requires
        s.is_regular(),
        r.outer_inv(s),
        r.inner_inv(s),
        r.allows(h),
        r.changeset.stage == (Stage::CreateTemp { file }),
    ensures
        r.advance(h, s.now).inner_inv(s),
{
    let c = r.changeset;
    let after = r.advance(h, s.now);
    lemma_layout_temps(c);
    lemma_offset_step(s.files, file as int);
    if h.reply is Done {
        lemma_stored_kept(r, after, file as int);
        lemma_untouched_kept(r, after, s, file as int, file as int);
        let empty = Seq::<u8>::empty();
        assert(r.received.skip(offset(s.files, file as int)) =~= empty);
        if c.files[file as int].size == 0 {
            assert(share(s.files, r.received, file as int) =~= empty);
        }
    }
}

#[verifier::rlimit(40)]
proof fn lemma_inner_read(r: Reception, s: Setting, h: Happening, file: usize, remaining: u64)
    requires
        s.is_regular(),
        r.outer_inv(s),
        r.inner_inv(s),
        r.allows(h),
        r.changeset.stage == (Stage::ReadChunk { file, remaining }),
    ensures
        r.advance(h, s.now).inner_inv(s),
{
    let after = r.advance(h, s.now);
    lemma_offset_step(s.files, file as int);
    if h.reply is Data {
        let bytes = h.reply->Data_bytes;
        assert(after.received == r.received + bytes);
        lemma_stored_kept(r, after, file as int);
        lemma_untouched_kept(r, after, s, file as int, file as int);
        assert(bytes =~= after.received.skip(after.received.len() - bytes.len()));
        assert(r.received.skip(offset(s.files, file as int)) =~= after.received.subrange(
            offset(s.files, file as int),
            after.received.len() - bytes.len(),
        ));
    }
}

#[verifier::rlimit(40)]
proof fn lemma_inner_write(r: Reception, s: Setting, h: Happening, file: usize, remaining: u64)
    requires
        s.is_regular(),
        r.outer_inv(s),
        r.inner_inv(s),
        r.allows(h),
        r.changeset.stage == (Stage::WriteChunk { file, remaining }),
    ensures
        r.advance(h, s.now).inner_inv(s),
{
    let after = r.advance(h, s.now);
    let bytes = r.progress->action->Write_bytes;
    lemma_layout_temps(r.changeset);
    lemma_offset_step(s.files, file as int);
    if h.reply is Done {
        lemma_stored_kept(r, after, file as int);
        lemma_untouched_kept(r, after, s, file as int, file as int);
        let from = offset(s.files, file as int);
        let len = r.received.len();
        assert(r.received.subrange(from, len - bytes.len()) + bytes =~= r.received.skip(from));
        if remaining == 0 {
            assert(r.received.skip(from) =~= share(s.files, r.received, file as int));
        }
    }
}

proof fn lemma_inner_flush(r: Reception, s: Setting, h: Happening, file: usize)
    requires
        s.is_regular(),
        r.outer_inv(s),
        r.inner_inv(s),
        r.allows(h),
        r.changeset.stage == (Stage::Flush { file }),
    ensures
        r.advance(h, s.now).inner_inv(s),
{
    let after = r.advance(h, s.now);
    assert(h.disk == r.disk);
    lemma_offset_step(s.files, file as int);
    if h.reply is Done {
        lemma_stored_kept(r, after, file as int);
        lemma_untouched_kept(r, after, s, file as int, file as int);
    }
}

#[verifier::rlimit(40)]
proof fn lemma_inner_rename(r: Reception, s: Setting, h: Happening, file: usize)
    requires
        s.is_regular(),
        r.outer_inv(s),
        r.inner_inv(s),
        r.allows(h),
        r.changeset.stage == (Stage::RenameTemp { file }),
    ensures
        r.advance(h, s.now).inner_inv(s),
{
    let c = r.changeset;
    let after = r.advance(h, s.now);
    lemma_layout_temps(c);
    lemma_layout_files(c);
    lemma_offset_step(s.files, file as int);
    if h.reply is Done {
        lemma_stored_kept(r, after, file as int);
        assert forall|j: int| file + 1 <= j < s.files.len() implies r.disk.same_at(
            after.disk,
            #[trigger] c.file_path(j),
        ) by {
            assert(c.file_path(file as int) != c.file_path(j));
        }
        lemma_untouched_kept(r, after, s, file as int, file + 1);
        assert forall|j: int| 0 <= j < file + 1 implies after.disk.holds(
            #[trigger] after.changeset.file_path(j),
            share(s.files, after.received, j),
        ) by {
            if j == file {
                assert(after.changeset.file_path(j) == c.file_path(j));
            }
        }
        assert(after.stored(file + 1));
    }
}

/// Every happening keeps the inner invariant.
#[verifier::rlimit(40)]
proof fn lemma_inner_step(r: Reception, s: Setting, h: Happening)
    requires
        s.is_regular(),
        r.outer_inv(s),
        r.inner_inv(s),
        r.allows(h),
    ensures
        r.advance(h, s.now).inner_inv(s),
{
    let after = r.advance(h, s.now);
    match r.changeset.stage {
        Stage::MakeTarget | Stage::MakeStamped => {
            assert(h.disk == r.disk);
        },
        Stage::CreateTemp { file } => lemma_inner_temp(r, s, h, file),
        Stage::ReadChunk { file, remaining } => lemma_inner_read(r, s, h, file, remaining),
        Stage::WriteChunk { file, remaining } => lemma_inner_write(r, s, h, file, remaining),
        Stage::Flush { file } => lemma_inner_flush(r, s, h, file),
        Stage::RenameTemp { file } => lemma_inner_rename(r, s, h, file),
        Stage::Discard { .. } | Stage::Skip { .. } | Stage::Drain | Stage::Reject => {
            lemma_outer_step(r, s, h);
        },
        Stage::Finished => {},
        _ => {
            let n = s.files.len() as int;
            lemma_layout(r.changeset);
            assert(s.files.take(n) =~= s.files);
            assert forall|j: int| 0 <= j < n implies r.disk.same_at(
                h.disk,
                #[trigger] r.changeset.file_path(j),
            ) by {
                lemma_stamped_kept(r, s, h, r.changeset.file_path(j));
            }
            lemma_stored_kept(r, after, n);
        },
    }
}

/// Both invariants hold at every point of every reception of files that can lie
/// side by side.
proof fn lemma_inner(s: Setting, hs: Seq<Happening>)
    requires
        s.is_regular(),
        Reception::initial(s).admits(hs, s.now),
    ensures
        Reception::initial(s).after(hs, s.now).outer_inv(s),
        Reception::initial(s).after(hs, s.now).inner_inv(s),
    decreases hs.len(),
{
    lemma_outer(s, hs);
    if hs.len() > 0 {
        lemma_inner(s, hs.drop_last());
        lemma_inner_step(Reception::initial(s).after(hs.drop_last(), s.now), s, hs.last());
    }
}

/// Every happening keeps what holds of temporary files.
#[verifier::rlimit(40)]
proof fn lemma_temps_step(r: Reception, s: Setting, h: Happening)
    requires
        s.is_placeable(),
        untangled_names(s.files),
        r.outer_inv(s),
        r.temps_inv(),
        r.allows(h),
    ensures
        r.advance(h, s.now).temps_inv(),
{
    let c = r.changeset;
    let after = r.advance(h, s.now);
    lemma_outer_step(r, s, h);
    match c.stage {
        Stage::MakeTarget | Stage::MakeStamped => {},
        Stage::CreateTemp { file }
        | Stage::ReadChunk { file, .. }
        | Stage::WriteChunk { file, .. }
        | Stage::Flush { file } => {
            lemma_layout_temps(c);
            assert forall|j: int| 0 <= j < file && !(h.reply is Failed) implies
                #[trigger] after.changeset.tmp_path(j) == c.tmp_path(file as int)
                || after.disk.lacks(after.changeset.tmp_path(j)) by {
                assert(after.changeset.tmp_path(j) == c.tmp_path(j));
            }
        },
        Stage::RenameTemp { file } => {
            lemma_layout(c);
            lemma_layout_temps(c);
            if h.reply is Done {
                assert forall|j: int| 0 <= j < file + 1 implies after.disk.lacks(
                    #[trigger] after.changeset.tmp_path(j),
                ) by {
                    assert(after.changeset.tmp_path(j) == c.tmp_path(j));
                    assert(c.tmp_path(j) != c.file_path(file as int));
                    assert(under(c.tmp_path(j), s.ts_path()));
                }
                assert(after.cleared(file + 1));
            }
        },
        Stage::Discard { .. } | Stage::Skip { .. } | Stage::Drain | Stage::Reject => {},
        Stage::Finished => {},
        _ => {
            lemma_layout(c);
            assert forall|j: int| 0 <= j < s.files.len() implies after.disk.lacks(
                #[trigger] after.changeset.tmp_path(j),
            ) by {
                assert(after.changeset.tmp_path(j) == c.tmp_path(j));
                lemma_stamped_kept(r, s, h, c.tmp_path(j));
            }
        },
    }
}

proof fn lemma_temps(s: Setting, hs: Seq<Happening>)
    requires
        s.is_placeable(),
        untangled_names(s.files),
        Reception::initial(s).admits(hs, s.now),
    ensures
        Reception::initial(s).after(hs, s.now).outer_inv(s),
        Reception::initial(s).after(hs, s.now).temps_inv(),
    decreases hs.len(),
{
    lemma_outer(s, hs);
    if hs.len() > 0 {
        lemma_temps(s, hs.drop_last());
        lemma_temps_step(Reception::initial(s).after(hs.drop_last(), s.now), s, hs.last());
    }
}

/// At every point, whatever failed so far and whatever the files are called, the
/// files in place change at once or not at all: either nothing outside of the new
/// stamped directory has changed, but for the link that is about to be renamed, or
/// `..data` leads to the new stamped directory, all announced content has been
/// received, and the host had ended the changeset.
pub proof fn law_files_change_at_once(s: Setting, hs: Seq<Happening>)
    requires
        s.is_placeable(),
        Reception::initial(s).admits(hs, s.now),
    ensures
        ({
            let r = Reception::initial(s).after(hs, s.now);
            if r.published {
                &&& r.disk.leads(join_of(s.directory, "..data"@), stamp_dir_of(s.now))
                &&& r.received.len() == total_size(s.files)
                &&& r.ended
            } else {
                forall|p: Seq<char>|
                    p != join_of(s.directory, "..data_tmp"@) && !under(p, s.ts_path())
                        ==> #[trigger] s.disk.same_at(r.disk, p)
            }
        }),
{
    lemma_outer(s, hs);
}

/// At every point, whatever failed so far, the files in place are whole: either
/// nothing outside of the new stamped directory has changed, but for the link
/// that is about to be renamed, or `..data` leads to the new stamped directory,
/// all files lie there with the content that was sent for them, and the host had
/// ended the changeset.
pub proof fn law_files_in_place_are_whole(s: Setting, hs: Seq<Happening>)
    requires
        s.is_regular(),
        Reception::initial(s).admits(hs, s.now),
    ensures
        ({
            let r = Reception::initial(s).after(hs, s.now);
            if r.published {
                &&& r.disk.leads(join_of(s.directory, "..data"@), stamp_dir_of(s.now))
                &&& r.received.len() == total_size(s.files)
                &&& forall|i: int|
                    #![trigger s.files[i]]
                    0 <= i < s.files.len() ==> r.disk.holds(
                        join_of(s.ts_path(), s.files[i].name),
                        share(s.files, r.received, i),
                    )
                &&& r.ended
            } else {
                forall|p: Seq<char>|
                    p != join_of(s.directory, "..data_tmp"@) && !under(p, s.ts_path())
                        ==> #[trigger] s.disk.same_at(r.disk, p)
            }
        }),
{
    lemma_inner(s, hs);
    let r = Reception::initial(s).after(hs, s.now);
    if r.published {
        assert(r.stored(s.files.len() as int));
        assert forall|i: int|
            #![trigger s.files[i]]
            0 <= i < s.files.len() implies r.disk.holds(
            join_of(s.ts_path(), s.files[i].name),
            share(s.files, r.received, i),
        ) by {
            assert(r.changeset.file_path(i) == join_of(s.ts_path(), s.files[i].name));
        }
    }
}

/// A file that bears its name in the new stamped directory is never partial: until
/// the directory is to be removed again, every file that was given its name holds
/// all the content that was sent for it, nothing has been done to the paths of
/// the others, and a file is given its name only once it holds all its content,
/// one file after the other.
pub proof fn law_named_files_are_whole(s: Setting, hs: Seq<Happening>)
    requires
        s.is_regular(),
        Reception::initial(s).admits(hs, s.now),
    ensures
        ({
            let r = Reception::initial(s).after(hs, s.now);
            &&& r.renamed <= s.files.len()
            &&& !r.discarded ==> forall|j: int|
                0 <= j < r.renamed ==> r.disk.holds(
                    #[trigger] s.file_path(j),
                    share(s.files, r.received, j),
                )
            &&& !r.discarded ==> forall|j: int|
                r.renamed <= j < s.files.len() ==> s.disk.same_at(
                    r.disk,
                    #[trigger] s.file_path(j),
                )
            &&& forall|from: Seq<char>, j: int|
                0 <= j < s.files.len() && r.progress == (ProgressView::Next {
                    action: ActionView::Rename { from, to: #[trigger] s.file_path(j) },
                }) ==> j == r.renamed && #[trigger] r.disk.holds(
                    from,
                    share(s.files, r.received, j),
                )
        }),
{
    lemma_inner(s, hs);
    let r = Reception::initial(s).after(hs, s.now);
    let c = ChangesetView { ts_dir: stamp_dir_of(s.now), ..r.changeset };
    lemma_layout(c);
    lemma_layout_files(c);
    assert forall|j: int| 0 <= j < s.files.len() implies #[trigger] s.file_path(j)
        == c.file_path(j) by {}
    if !r.discarded {
        assert forall|j: int| 0 <= j < r.renamed implies r.disk.holds(
            #[trigger] s.file_path(j),
            share(s.files, r.received, j),
        ) by {
            assert(r.changeset.file_path(j) == s.file_path(j));
        }
    }
    assert forall|from: Seq<char>, j: int|
        0 <= j < s.files.len() && r.progress == (ProgressView::Next {
            action: ActionView::Rename { from, to: #[trigger] s.file_path(j) },
        }) implies j == r.renamed && #[trigger] r.disk.holds(
        from,
        share(s.files, r.received, j),
    ) by {
        match r.changeset.stage {
            Stage::RenameTemp { file } => {
                assert(c.file_path(file as int) == s.file_path(j));
                if j < file {
                    assert(c.file_path(j) != c.file_path(file as int));
                } else if file < j {
                    assert(c.file_path(file as int) != c.file_path(j));
                }
            },
            Stage::SwapData => {
                assert(under(c.file_path(j), c.ts_path()));
            },
            _ => {},
        }
    }
}

/// A changeset that is given up leaves nothing of its stamped directory once that
/// has been removed, and what was in place before stays in place.
pub proof fn law_given_up_leaves_nothing(s: Setting, hs: Seq<Happening>)
    requires
        s.is_placeable(),
        Reception::initial(s).admits(hs, s.now),
        Reception::initial(s).after(hs, s.now).discarded,
    ensures
        ({
            let r = Reception::initial(s).after(hs, s.now);
            &&& !r.published
            &&& r.removed ==> forall|p: Seq<char>| #[trigger]
                under(p, s.ts_path()) ==> r.disk.lacks(p)
            &&& forall|p: Seq<char>|
                p != join_of(s.directory, "..data_tmp"@) && !under(p, s.ts_path())
                    ==> #[trigger] s.disk.same_at(r.disk, p)
        }),
{
    lemma_outer(s, hs);
    law_files_change_at_once(s, hs);
}

/// The link `..data` is what it was before up to one point, and from there on it
/// leads to the new stamped directory: it is never missing in between, and never
/// goes back.
pub proof fn law_data_link_switches_once(s: Setting, hs: Seq<Happening>)
    requires
        s.is_placeable(),
        Reception::initial(s).admits(hs, s.now),
    ensures
        ({
            let r = Reception::initial(s).after(hs, s.now);
            let data = join_of(s.directory, "..data"@);
            &&& !r.published ==> s.disk.same_at(r.disk, data)
            &&& r.published ==> r.disk.leads(data, stamp_dir_of(s.now))
            &&& hs.len() > 0 && Reception::initial(s).after(hs.drop_last(), s.now).published
                ==> r.published
        }),
{
    lemma_outer(s, hs);
    let r = Reception::initial(s).after(hs, s.now);
    lemma_layout(ChangesetView { ts_dir: stamp_dir_of(s.now), ..r.changeset });
    law_files_change_at_once(s, hs);
}

/// The files that were in place before stay as they are until the new ones are in
/// place.
pub proof fn law_previous_files_kept_until_replaced(s: Setting, hs: Seq<Happening>, p: Seq<char>)
    requires
        s.is_placeable(),
        Reception::initial(s).admits(hs, s.now),
        s.previous() is Some,
        under(p, join_of(s.directory, s.previous()->0)),
        !Reception::initial(s).after(hs, s.now).published,
    ensures
        s.disk.same_at(Reception::initial(s).after(hs, s.now).disk, p),
{
    lemma_outer(s, hs);
    law_files_change_at_once(s, hs);
    let previous = s.previous()->0;
    let r = Reception::initial(s).after(hs, s.now);
    let c = ChangesetView { ts_dir: stamp_dir_of(s.now), ..r.changeset };
    lemma_layout_previous(c, previous);
    if p == join_of(s.directory, "..data_tmp"@) {
        let d = join_of(s.directory, Seq::empty());
        law_stamp_is_no_link(previous);
        reveal_strlit("..data_tmp");
        assert(!"..data_tmp"@.contains('/'));
        lemma_join_relative(s.directory, "..data_tmp"@);
        lemma_join_relative(s.directory, previous);
        lemma_not_under(d, previous, "..data_tmp"@);
        let old_path = join_of(s.directory, previous);
        assert(old_path.last() == previous.last());
        assert(is_stamp_char(previous[previous.len() - 1]));
        assert(join_of(old_path, Seq::empty()) =~= d + previous.push('/'));
    }
}

/// A changeset that succeeds has put its files in place, every file is reached by
/// its link where the links were still to be created, and the directory is known
/// to hold this changeset.
pub proof fn law_success_means_in_place(s: Setting, hs: Seq<Happening>)
    requires
        s.is_placeable(),
        Reception::initial(s).admits(hs, s.now),
        Reception::initial(s).after(hs, s.now).progress == (ProgressView::Finished {
            result: Ok(()),
        }),
    ensures
        ({
            let r = Reception::initial(s).after(hs, s.now);
            &&& r.published
            &&& r.ended
            &&& r.changeset.state == Some(
                DirectoryStateView {
                    current_ts_dir: Some(stamp_dir_of(s.now)),
                    symlinks_created: true,
                },
            )
            &&& s.unlinked() ==> forall|i: int|
                #![trigger s.files[i]]
                0 <= i < s.files.len() ==> r.disk.leads(
                    join_of(s.directory, s.files[i].name),
                    join_of("..data"@, s.files[i].name),
                )
        }),
{
    lemma_outer(s, hs);
    let r = Reception::initial(s).after(hs, s.now);
    assert(r.changeset.stage == Stage::Finished) by {
        lemma_finished(s, hs);
    }
    if s.unlinked() {
        assert forall|i: int|
            #![trigger s.files[i]]
            0 <= i < s.files.len() implies r.disk.leads(
            join_of(s.directory, s.files[i].name),
            join_of("..data"@, s.files[i].name),
        ) by {
            assert(r.changeset.link_path(i) == join_of(s.directory, s.files[i].name));
            assert(r.changeset.link_target(i) == join_of("..data"@, s.files[i].name));
        }
    }
}

/// Whoever opens a file of a changeset that succeeded finds the content that was
/// sent for it, through the links: where the links were still to be created, and
/// where the link to the file was there before.
#[verifier::rlimit(60)]
pub proof fn law_readers_find_new_files(s: Setting, hs: Seq<Happening>, i: int)
    requires
        s.is_regular(),
        Reception::initial(s).admits(hs, s.now),
        Reception::initial(s).after(hs, s.now).progress == (ProgressView::Finished {
            result: Ok(()),
        }),
        0 <= i < s.files.len(),
        s.unlinked() || (s.files[i].name != "..data_tmp"@ && s.disk.leads(
            join_of(s.directory, s.files[i].name),
            join_of("..data"@, s.files[i].name),
        )),
    ensures
        Reception::initial(s).after(hs, s.now).disk.reads(
            s.directory,
            s.files[i].name,
            share(s.files, Reception::initial(s).after(hs, s.now).received, i),
        ),
{
    law_success_means_in_place(s, hs);
    law_files_in_place_are_whole(s, hs);
    let name = s.files[i].name;
    let p = join_of(s.directory, name);
    if !s.unlinked() {
        let r = Reception::initial(s).after(hs, s.now);
        lemma_inner(s, hs);
        let c = ChangesetView { ts_dir: stamp_dir_of(s.now), ..r.changeset };
        lemma_layout(c);
        assert(p == c.link_path(i));
        if s.previous() is Some {
            lemma_layout_previous(c, s.previous()->0);
        }
        reveal_strlit("..data_tmp");
        assert(!"..data_tmp"@.contains('/'));
        lemma_join_relative(s.directory, name);
        lemma_join_relative(s.directory, "..data_tmp"@);
        lemma_common_front(join_of(s.directory, Seq::empty()), name, "..data_tmp"@);
        law_other_paths_untouched(s, hs, p);
    }
}

/// A changeset that succeeds leaves none of its temporary files behind.
pub proof fn law_success_leaves_no_temporary_files(s: Setting, hs: Seq<Happening>)
    requires
        s.is_placeable(),
        untangled_names(s.files),
        Reception::initial(s).admits(hs, s.now),
        Reception::initial(s).after(hs, s.now).progress == (ProgressView::Finished {
            result: Ok(()),
        }),
    ensures
        forall|i: int|
            0 <= i < s.files.len() ==> Reception::initial(s).after(hs, s.now).disk.lacks(
                #[trigger] s.tmp_path(i),
            ),
{
    let r = Reception::initial(s).after(hs, s.now);
    lemma_temps(s, hs);
    lemma_finished(s, hs);
    assert forall|i: int| 0 <= i < s.files.len() implies r.disk.lacks(
        #[trigger] s.tmp_path(i),
    ) by {
        assert(s.tmp_path(i) == r.changeset.tmp_path(i));
    }
}

/// The last thing that a changeset does before it succeeds is to remove the
/// stamped directory that was in place before. Where that can be removed, nothing
/// is left of it.
pub proof fn law_success_retires_previous_files(s: Setting, hs: Seq<Happening>)
    requires
        s.is_placeable(),
        Reception::initial(s).admits(hs, s.now),
        Reception::initial(s).after(hs, s.now).progress == (ProgressView::Finished {
            result: Ok(()),
        }),
        s.previous() is Some,
    ensures
        hs.len() > 0,
        Reception::initial(s).after(hs.drop_last(), s.now).progress == (ProgressView::Next {
            action: ActionView::RemoveDir { path: join_of(s.directory, s.previous()->0) },
        }),
        hs.last().reply is Done ==> forall|p: Seq<char>| #[trigger]
            under(p, join_of(s.directory, s.previous()->0)) ==> Reception::initial(s).after(
                hs,
                s.now,
            ).disk.lacks(p),
{
    assert(hs.len() > 0);
    let before = Reception::initial(s).after(hs.drop_last(), s.now);
    lemma_outer(s, hs.drop_last());
    assert(before.changeset.stage == Stage::Retire);
}

/// A changeset that fails leaves what is known of the directory as it was, and
/// what is in place too, unless only a link to a file could not be created: then
/// the new files are in place and the links will be created with the next
/// changeset.
pub proof fn law_failure_leaves_files_in_place(s: Setting, hs: Seq<Happening>, e: ErrorView)
    requires
        s.is_placeable(),
        Reception::initial(s).admits(hs, s.now),
        Reception::initial(s).after(hs, s.now).progress == (ProgressView::Finished {
            result: Err(e),
        }),
    ensures
        ({
            let r = Reception::initial(s).after(hs, s.now);
            &&& r.published <==> e is LinkFile
            &&& !r.published ==> r.changeset.state == s.state
            &&& r.published ==> r.changeset.state == Some(
                DirectoryStateView { current_ts_dir: s.previous(), symlinks_created: false },
            )
        }),
{
    lemma_outer(s, hs);
    lemma_finished(s, hs);
}

/// At every point, everything that the changeset has nothing to do with is as it
/// was. In particular, a changeset of a directory whose links to the single files
/// exist leaves these links alone.
pub proof fn law_other_paths_untouched(s: Setting, hs: Seq<Happening>, p: Seq<char>)
    requires
        s.is_placeable(),
        Reception::initial(s).admits(hs, s.now),
        s.is_apart(p),
    ensures
        s.disk.same_at(Reception::initial(s).after(hs, s.now).disk, p),
{
    lemma_outer(s, hs);
}

/// A reception is over exactly at the last stage.
proof fn lemma_finished(s: Setting, hs: Seq<Happening>)
    requires
        s.is_placeable(),
        Reception::initial(s).admits(hs, s.now),
    ensures
        ({
            let r = Reception::initial(s).after(hs, s.now);
            r.progress is Finished <==> r.changeset.stage == Stage::Finished
        }),
{
    lemma_outer(s, hs);
}

} // verus!
