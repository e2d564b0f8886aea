//! Watching the directories of the groups on the host.

use vstd::prelude::*;
use vstd::string::*;

use crate::files::{
    group_directory, groups_of, law_every_file_in_one_group, string_views, DirectoryGroup,
    DirectoryGroupView,
};
use crate::paths::{file_name_of, parent, parent_of};
use crate::table::{distinct_keys, pairs_map, StringMap};

verus! {

/// Which names a renaming event tells.
#[derive(Clone, Copy, Debug, PartialEq, Eq, Structural)]
pub enum RenameMode {
    Any,
    To,
    From,
    Both,
    Other,
}

/// What was modified.
#[derive(Clone, Copy, Debug, PartialEq, Eq, Structural)]
pub enum ModifyKind {
    Any,
    Data,
    Metadata,
    Name { mode: RenameMode },
    Other,
}

/// What happened to a file.
#[derive(Clone, Copy, Debug, PartialEq, Eq, Structural)]
pub enum EventKind {
    Any,
    Access,
    Create,
    Modify { kind: ModifyKind },
    Remove,
    Other,
}

/// Whether an event can give a file new content: it was created, written to, or
/// another file took its name.
pub open spec fn brings_content(kind: EventKind) -> bool {
    match kind {
        EventKind::Create => true,
        EventKind::Modify { kind: ModifyKind::Data } => true,
        EventKind::Modify { kind: ModifyKind::Name { mode: RenameMode::Both } } => true,
        EventKind::Modify { kind: ModifyKind::Name { mode: RenameMode::To } } => true,
        _ => false,
    }
}

/// Decides [`brings_content`].
fn is_relevant(kind: EventKind) -> (result: bool)
    ensures
        result == brings_content(kind),
{
    match kind {
        EventKind::Create => true,
        EventKind::Modify { kind } => match kind {
            ModifyKind::Data => true,
            ModifyKind::Name { mode } => match mode {
                RenameMode::Both => true,
                RenameMode::To => true,
                _ => false,
            },
            _ => false,
        },
        _ => false,
    }
}

/// Whether `path` lies right in a watched directory.
pub open spec fn is_watched(
    table: Map<Seq<char>, DirectoryGroupView>,
    path: Seq<char>,
) -> bool {
    parent_of(path) is Some && table.contains_key(parent_of(path)->0)
}

/// Whether `group` is what an event calls for: the group of the first of its
/// paths that lies in a watched directory.
pub open spec fn is_called_for(
    table: Map<Seq<char>, DirectoryGroupView>,
    kind: EventKind,
    paths: Seq<Seq<char>>,
    group: DirectoryGroupView,
) -> bool {
    brings_content(kind) && exists|i: int|
        {
            &&& 0 <= i < paths.len()
            &&& is_watched(table, #[trigger] paths[i])
            &&& group == table[parent_of(paths[i])->0]
            &&& forall|j: int| 0 <= j < i ==> !is_watched(table, #[trigger] paths[j])
        }
}

/// Whether an event calls for nothing.
pub open spec fn calls_for_nothing(
    table: Map<Seq<char>, DirectoryGroupView>,
    kind: EventKind,
    paths: Seq<Seq<char>>,
) -> bool {
    !brings_content(kind) || forall|i: int|
        0 <= i < paths.len() ==> !is_watched(table, #[trigger] paths[i])
}

/// Why the watcher wakes up.
#[derive(Debug)]
pub enum Wake {
    /// Something happened to these paths.
    Event { kind: EventKind, paths: Vec<String> },
    /// There will be no more events.
    Closed,
    /// Nothing happened for a while.
    Tick,
}

/// What the watcher does next.
#[derive(Debug)]
pub enum WatchStep {
    /// Hand on a group to be sent, and wait.
    Emit { group: DirectoryGroup },
    /// Wait.
    Wait,
    /// Stop.
    Stop,
}

/// The watched directories, each with its group.
pub struct DirectoryGroupWatcher {
    dir_to_group: StringMap<DirectoryGroup>,
}

impl View for DirectoryGroupWatcher {
    type V = Map<Seq<char>, DirectoryGroupView>;

    closed spec fn view(&self) -> Map<Seq<char>, DirectoryGroupView> {
        self.dir_to_group@
    }
}

/// The watched directories with their groups, when the groups are watched one
/// after the other in the directories `targets`, some of them nowhere.
pub open spec fn watched_groups(
    groups: Seq<(String, DirectoryGroup)>,
    targets: Seq<Option<String>>,
) -> Map<Seq<char>, DirectoryGroupView>
    decreases groups.len(),
{
    if groups.len() == 0 {
        Map::empty()
    } else {
        let before = watched_groups(groups.drop_last(), targets.drop_last());
        match targets.last() {
            Some(directory) => before.insert(directory@, groups.last().1@),
            None => before,
        }
    }
}

/// The directory to watch for a group: its resolved path, or the path as it is
/// when it cannot be resolved.
pub fn watch_target(group: &DirectoryGroup, canonical: Option<String>) -> (result: String)
    ensures
        result@ == match canonical {
            Some(path) => path@,
            None => group@.directory,
        },
{
    match canonical {
        Some(path) => path,
        None => group.directory.clone(),
    }
}

impl DirectoryGroupWatcher {
    /// The watched directories with their groups, in the order in which the
    /// groups are first handed on.
    pub closed spec fn pairs(self) -> Seq<(String, DirectoryGroup)> {
        self.dir_to_group.pairs()
    }

    /// A watcher of the groups. For each of them, in order, `targets` holds the
    /// directory that is watched, or nothing where it could not be watched; such
    /// a group is left out.
    pub fn new(groups: &StringMap<DirectoryGroup>, targets: &Vec<Option<String>>) -> (result: Self)
        requires
            targets@.len() == groups.pairs().len(),
        ensures
            result@ == watched_groups(groups.pairs(), targets@),
    {
        let n: usize = groups.len();
        let mut watcher = DirectoryGroupWatcher { dir_to_group: StringMap::new() };
        let mut i: usize = 0;
        while i < n
            invariant
                i <= n,
                n == groups.pairs().len(),
                n == targets@.len(),
                watcher@ == watched_groups(
                    groups.pairs().take(i as int),
                    targets@.take(i as int),
                ),
            decreases n - i,
        {
            let (_, group) = groups.entry(i);
            let _ = watcher.watch_directory(group, &targets[i]);
            i = i + 1;
            assert(groups.pairs().take(i as int).drop_last() =~= groups.pairs().take(i - 1));
            assert(targets@.take(i as int).drop_last() =~= targets@.take(i - 1));
        }
        assert(groups.pairs().take(n as int) =~= groups.pairs());
        assert(targets@.take(n as int) =~= targets@);
        watcher
    }

    /// Takes note that the directory `target` of a group is watched. When it
    /// could not be watched, nothing changes and the error says so.
    pub fn watch_directory(&mut self, group: &DirectoryGroup, target: &Option<String>) -> (result:
        Result<(), String>)
        ensures
            match result {
                Ok(()) => *target is Some && final(self)@ == old(self)@.insert(
                    target->0@,
                    group@,
                ),
                Err(text) => *target is None && final(self)@ == old(self)@ && text@
                    == "watching directory "@ + group@.directory,
            },
    {
        match target {
            Some(directory) => {
                self.dir_to_group.insert(directory.clone(), group.clone());
                Ok(())
            },
            None => Err("watching directory ".to_owned().concat(group.directory.as_str())),
        }
    }

    /// All groups, each once, to be sent before any change is waited for.
    pub fn initial_groups(&self) -> (result: Vec<DirectoryGroup>)
        ensures
            distinct_keys(self.pairs()),
            self@ == pairs_map(self.pairs()),
            result@.len() == self.pairs().len(),
            forall|i: int|
                0 <= i < result@.len() ==> (#[trigger] result@[i])@ == self.pairs()[i].1@,
    {
        let n: usize = self.dir_to_group.len();
        let mut result: Vec<DirectoryGroup> = Vec::new();
        let mut i: usize = 0;
        while i < n
            invariant
                i <= n,
                n == self.pairs().len(),
                result@.len() == i,
                forall|j: int| 0 <= j < i ==> (#[trigger] result@[j])@ == self.pairs()[j].1@,
            decreases n - i,
        {
            let (_, group) = self.dir_to_group.entry(i);
            result.push(group.clone());
            i = i + 1;
        }
        result
    }

    /// The group that an event calls for. It is one group at most, even where
    /// several paths lie in watched directories.
    pub fn handle_event(&self, kind: EventKind, paths: &Vec<String>) -> (result: Option<
        DirectoryGroup,
    >)
        ensures
            match result {
                Some(group) => is_called_for(self@, kind, string_views(paths@), group@),
                None => calls_for_nothing(self@, kind, string_views(paths@)),
            },
    {
        if !is_relevant(kind) {
            return None;
        }
        let ghost views = string_views(paths@);
        let mut i: usize = 0;
        while i < paths.len()
            invariant
                i <= paths@.len(),
                views == string_views(paths@),
                brings_content(kind),
                forall|j: int| 0 <= j < i ==> !is_watched(self@, #[trigger] views[j]),
            decreases paths@.len() - i,
        {
            assert(views[i as int] == paths@[i as int]@);
            match parent(paths[i].as_str()) {
                Some(directory) => match self.dir_to_group.get(&directory) {
                    Some(group) => {
                        assert(is_watched(self@, views[i as int]));
                        return Some(group.clone());
                    },
                    None => {},
                },
                None => {},
            }
            i = i + 1;
        }
        None
    }

    /// What to do after waking up.
    pub fn wake(&self, wake: Wake) -> (result: WatchStep)
        ensures
            match wake {
                Wake::Event { kind, paths } => match result {
                    WatchStep::Emit { group } => is_called_for(
                        self@,
                        kind,
                        string_views(paths@),
                        group@,
                    ),
                    WatchStep::Wait => calls_for_nothing(self@, kind, string_views(paths@)),
                    WatchStep::Stop => false,
                },
                Wake::Closed => result is Stop,
                Wake::Tick => result is Wait,
            },
    {
        match wake {
            Wake::Event { kind, paths } => match self.handle_event(kind, &paths) {
                Some(group) => WatchStep::Emit { group },
                None => WatchStep::Wait,
            },
            Wake::Closed => WatchStep::Stop,
            Wake::Tick => WatchStep::Wait,
        }
    }
}

/// A group whose directory could be watched is kept for that directory, unless a
/// later group is watched in the same one. That other groups could not be watched
/// makes no difference.
pub proof fn law_watched_group_is_kept(
    groups: Seq<(String, DirectoryGroup)>,
    targets: Seq<Option<String>>,
    i: int,
)
    requires
        targets.len() == groups.len(),
        0 <= i < groups.len(),
        targets[i] is Some,
        forall|j: int|
            i < j < targets.len() && (#[trigger] targets[j]) is Some ==> targets[j]->0@
                != targets[i]->0@,
    ensures
        watched_groups(groups, targets).contains_key(targets[i]->0@),
        watched_groups(groups, targets)[targets[i]->0@] == groups[i].1@,
    decreases groups.len(),
{
    let n = groups.len() - 1;
    if i < n {
        assert(targets[n] is Some ==> targets[n]->0@ != targets[i]->0@);
        law_watched_group_is_kept(groups.drop_last(), targets.drop_last(), i);
    }
}

/// Nothing else is watched: what is kept for a directory is one of the groups
/// that are watched there.
pub proof fn law_only_groups_are_watched(
    groups: Seq<(String, DirectoryGroup)>,
    targets: Seq<Option<String>>,
    directory: Seq<char>,
)
    requires
        targets.len() == groups.len(),
        watched_groups(groups, targets).contains_key(directory),
    ensures
        exists|i: int|
            0 <= i < groups.len() && (#[trigger] targets[i]) is Some && targets[i]->0@ == directory
                && watched_groups(groups, targets)[directory] == groups[i].1@,
    decreases groups.len(),
{
    let n = groups.len() - 1;
    assert(groups.len() > 0);
    if targets[n] is Some && targets[n]->0@ == directory {
        assert(watched_groups(groups, targets)[directory] == groups[n].1@);
    } else {
        law_only_groups_are_watched(groups.drop_last(), targets.drop_last(), directory);
        let i = choose|i: int|
            0 <= i < n && (#[trigger] targets.drop_last()[i]) is Some
                && targets.drop_last()[i]->0@ == directory && watched_groups(
                groups.drop_last(),
                targets.drop_last(),
            )[directory] == groups.drop_last()[i].1@;
        assert(targets[i] == targets.drop_last()[i]);
    }
}

/// An event calls for one group or for none, and which one it is is settled.
pub proof fn law_event_calls_for_one_group(
    table: Map<Seq<char>, DirectoryGroupView>,
    kind: EventKind,
    paths: Seq<Seq<char>>,
    group: DirectoryGroupView,
    other: DirectoryGroupView,
)
    requires
        is_called_for(table, kind, paths, group),
    ensures
        !calls_for_nothing(table, kind, paths),
        is_called_for(table, kind, paths, other) ==> other == group,
{
    let i = choose|i: int|
        {
            &&& 0 <= i < paths.len()
            &&& is_watched(table, #[trigger] paths[i])
            &&& group == table[parent_of(paths[i])->0]
            &&& forall|j: int| 0 <= j < i ==> !is_watched(table, #[trigger] paths[j])
        };
    if is_called_for(table, kind, paths, other) {
        let k = choose|k: int|
            {
                &&& 0 <= k < paths.len()
                &&& is_watched(table, #[trigger] paths[k])
                &&& other == table[parent_of(paths[k])->0]
                &&& forall|j: int| 0 <= j < k ==> !is_watched(table, #[trigger] paths[j])
            };
        assert(i == k);
    }
}

/// Where every group is watched under its own directory, new content of a listed
/// file calls for the group that the file is in.
pub proof fn law_change_calls_for_its_group(
    listed: Seq<Seq<char>>,
    p: Seq<char>,
    kind: EventKind,
)
    requires
        listed.contains(p),
        file_name_of(p) is Some,
        parent_of(p) is Some && parent_of(p)->0.len() > 0,
        brings_content(kind),
    ensures
        is_called_for(
            groups_of(listed),
            kind,
            seq![p],
            groups_of(listed)[group_directory(p)],
        ),
        groups_of(listed)[group_directory(p)].files.contains_key(p),
{
    law_every_file_in_one_group(listed, p);
    let table = groups_of(listed);
    let paths = seq![p];
    assert(paths[0] == p);
    assert(is_watched(table, paths[0]));
}

/// New content in a watched directory is never missed: an event that creates a
/// file, writes to it or gives another file its name calls for the group that is
/// kept for the directory of the first of its paths that lies in a watched one,
/// whatever directory that group itself bears, and for no other.
pub proof fn law_change_is_never_missed(
    table: Map<Seq<char>, DirectoryGroupView>,
    kind: EventKind,
    paths: Seq<Seq<char>>,
    i: int,
)
    requires
        kind is Create || kind == (EventKind::Modify { kind: ModifyKind::Data }) || kind == (
        EventKind::Modify { kind: ModifyKind::Name { mode: RenameMode::Both } }) || kind == (
        EventKind::Modify { kind: ModifyKind::Name { mode: RenameMode::To } }),
        0 <= i < paths.len(),
        parent_of(paths[i]) is Some,
        table.contains_key(parent_of(paths[i])->0),
        forall|j: int|
            0 <= j < i && parent_of(#[trigger] paths[j]) is Some ==> !table.contains_key(
                parent_of(paths[j])->0,
            ),
    ensures
        is_called_for(table, kind, paths, table[parent_of(paths[i])->0]),
        !calls_for_nothing(table, kind, paths),
        forall|other: DirectoryGroupView|
            is_called_for(table, kind, paths, other) ==> other == table[parent_of(paths[i])->0],
{
    assert(is_watched(table, paths[i]));
    assert forall|other: DirectoryGroupView| is_called_for(table, kind, paths, other) implies other
        == table[parent_of(paths[i])->0] by {
        law_event_calls_for_one_group(table, kind, paths, table[parent_of(paths[i])->0], other);
    }
}

/// Nothing is sent without cause: an event of another kind, or none of whose paths
/// lies right in a watched directory, calls for nothing.
pub proof fn law_other_events_call_for_nothing(
    table: Map<Seq<char>, DirectoryGroupView>,
    kind: EventKind,
    paths: Seq<Seq<char>>,
    group: DirectoryGroupView,
)
    requires
        (match kind {
            EventKind::Any | EventKind::Access | EventKind::Remove | EventKind::Other => true,
            EventKind::Create => false,
            EventKind::Modify { kind: change } => match change {
                ModifyKind::Data => false,
                ModifyKind::Name { mode } => mode != RenameMode::Both && mode != RenameMode::To,
                _ => true,
            },
        }) || forall|j: int|
            0 <= j < paths.len() && parent_of(#[trigger] paths[j]) is Some ==> !table.contains_key(
                parent_of(paths[j])->0,
            ),
    ensures
        calls_for_nothing(table, kind, paths),
        !is_called_for(table, kind, paths, group),
{
}

} // verus!
