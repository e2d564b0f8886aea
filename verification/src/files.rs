//! The files of a manifest, grouped by the directory they lie in.

use vstd::prelude::*;
use vstd::string::*;

use crate::paths::{
    file_name, file_name_of, is_tidy, join_of, law_join_restores_tidy_path, parent, parent_of,
};
use crate::table::StringMap;

verus! {

/// How long the watcher gathers changes of a directory before it reports them.
pub const DIRECTORY_WATCH_DEBOUNCE_MILLIS: u64 = 500;

/// The most content bytes that are read or written at a time.
pub const SYNC_IO_BUFFER_SIZE: usize = 65536;

/// The listed files of one directory, which are replaced together.
#[derive(Debug)]
pub struct DirectoryGroup {
    pub directory: String,
    /// From the path in the manifest to the file name.
    pub files: StringMap<String>,
}

/// The value of a [`DirectoryGroup`].
#[verifier::ext_equal]
pub struct DirectoryGroupView {
    pub directory: Seq<char>,
    pub files: Map<Seq<char>, Seq<char>>,
}

impl View for DirectoryGroup {
    type V = DirectoryGroupView;

    open spec fn view(&self) -> DirectoryGroupView {
        DirectoryGroupView { directory: self.directory@, files: self.files@ }
    }
}

impl Clone for DirectoryGroup {
    fn clone(&self) -> (result: Self)
        ensures
            result@ == self@,
    {
        DirectoryGroup { directory: self.directory.clone(), files: self.files.clone() }
    }
}

/// The values of a list of strings.
pub open spec fn string_views(strings: Seq<String>) -> Seq<Seq<char>> {
    strings.map_values(|s: String| s@)
}

/// The directory whose group a path belongs to: its directory part, or the root
/// when that is missing or empty.
pub open spec fn group_directory(p: Seq<char>) -> Seq<char> {
    match parent_of(p) {
        Some(d) => if d.len() > 0 {
            d
        } else {
            seq!['/']
        },
        None => seq!['/'],
    }
}

/// Whether `p` is listed, names a file, and belongs to the group of `d`.
pub open spec fn in_group(paths: Seq<Seq<char>>, d: Seq<char>, p: Seq<char>) -> bool {
    paths.contains(p) && file_name_of(p) is Some && group_directory(p) == d
}

/// The group of `d`: its listed paths, each with its file name.
pub open spec fn group_of(paths: Seq<Seq<char>>, d: Seq<char>) -> DirectoryGroupView {
    DirectoryGroupView {
        directory: d,
        files: Map::new(
            |p: Seq<char>| in_group(paths, d, p),
            |p: Seq<char>| file_name_of(p)->0,
        ),
    }
}

/// The groups that are not empty, by their directories.
pub open spec fn groups_of(paths: Seq<Seq<char>>) -> Map<Seq<char>, DirectoryGroupView> {
    Map::new(
        |d: Seq<char>| exists|p: Seq<char>| in_group(paths, d, p),
        |d: Seq<char>| group_of(paths, d),
    )
}

/// One more path joins the group of its directory, or none if it has no file
/// name.
proof fn lemma_groups_push(paths: Seq<Seq<char>>, p: Seq<char>)
    ensures
        file_name_of(p) is None ==> groups_of(paths.push(p)) == groups_of(paths),
        file_name_of(p) is Some ==> groups_of(paths.push(p)) == groups_of(paths).insert(
            group_directory(p),
            (DirectoryGroupView {
                directory: group_directory(p),
                files: group_of(paths, group_directory(p)).files.insert(p, file_name_of(p)->0),
            }),
        ),
{
    let more = paths.push(p);
    let dir = group_directory(p);
    assert forall|d: Seq<char>, q: Seq<char>| #[trigger]
        in_group(more, d, q) == (in_group(paths, d, q) || (q == p && file_name_of(p) is Some && d
            == dir)) by {
        if paths.contains(q) {
            let i = choose|i: int| 0 <= i < paths.len() && paths[i] == q;
            assert(more[i] == q);
        }
        assert(more[paths.len() as int] == p);
        if more.contains(q) {
            let i = choose|i: int| 0 <= i < more.len() && more[i] == q;
            if i < paths.len() {
                assert(paths[i] == q);
            }
        }
    }
    assert forall|d: Seq<char>| file_name_of(p) is None || d != dir implies #[trigger] group_of(
        more,
        d,
    ) == group_of(paths, d) by {
        assert(group_of(more, d).files =~= group_of(paths, d).files);
    }
    if file_name_of(p) is Some {
        let grown = DirectoryGroupView {
            directory: dir,
            files: group_of(paths, dir).files.insert(p, file_name_of(p)->0),
        };
        assert(in_group(more, dir, p));
        assert(group_of(more, dir).files =~= grown.files);
        assert forall|d: Seq<char>| #[trigger]
            groups_of(more).contains_key(d) == groups_of(paths).insert(dir, grown).contains_key(
                d,
            ) by {
            if groups_of(paths).contains_key(d) {
                let q = choose|q: Seq<char>| in_group(paths, d, q);
                assert(in_group(more, d, q));
            }
            if groups_of(more).contains_key(d) {
                let q = choose|q: Seq<char>| in_group(more, d, q);
                assert(d == dir || in_group(paths, d, q));
            }
        }
        assert(groups_of(more) =~= groups_of(paths).insert(dir, grown));
    } else {
        assert forall|d: Seq<char>| #[trigger]
            groups_of(more).contains_key(d) == groups_of(paths).contains_key(d) by {
            if groups_of(paths).contains_key(d) {
                let q = choose|q: Seq<char>| in_group(paths, d, q);
                assert(in_group(more, d, q));
            }
            if groups_of(more).contains_key(d) {
                let q = choose|q: Seq<char>| in_group(more, d, q);
                assert(in_group(paths, d, q));
            }
        }
        assert(groups_of(more) =~= groups_of(paths));
    }
}

/// Groups the listed paths by directory. Paths without a file name are left out.
pub fn group_files_by_directory(manifest_files: &[String]) -> (result: StringMap<DirectoryGroup>)
    ensures
        result@ == groups_of(string_views(manifest_files@)),
{
    let ghost paths = string_views(manifest_files@);
    let mut groups: StringMap<DirectoryGroup> = StringMap::new();
    proof {
        assert(paths.take(0).len() == 0);
        assert forall|d: Seq<char>| !(#[trigger] groups_of(paths.take(0)).contains_key(d)) by {
            if groups_of(paths.take(0)).contains_key(d) {
                let q = choose|q: Seq<char>| in_group(paths.take(0), d, q);
                assert(paths.take(0).contains(q));
            }
        }
        assert(groups@ =~= groups_of(paths.take(0)));
    }
    let mut i: usize = 0;
    while i < manifest_files.len()
        invariant
            i <= manifest_files@.len(),
            paths == string_views(manifest_files@),
            groups@ == groups_of(paths.take(i as int)),
        decreases manifest_files@.len() - i,
    {
        let file_path = &manifest_files[i];
        proof {
            lemma_groups_push(paths.take(i as int), file_path@);
            assert(paths.take(i + 1) =~= paths.take(i as int).push(file_path@));
        }
        i = i + 1;
        proof {
            reveal_strlit("/");
            assert("/"@ =~= seq!['/']);
        }
        let directory = match parent(file_path.as_str()) {
            Some(d) => if d.as_str().is_empty() {
                "/".to_owned()
            } else {
                d
            },
            None => "/".to_owned(),
        };
        let filename = match file_name(file_path.as_str()) {
            Some(name) => name,
            None => {
                continue ;
            },
        };
        let ghost before = paths.take(i - 1);
        let mut group = match groups.remove(&directory) {
            Some(group) => group,
            None => {
                proof {
                    assert forall|p: Seq<char>| !in_group(before, directory@, p) by {
                        if in_group(before, directory@, p) {
                            assert(groups_of(before).contains_key(directory@));
                        }
                    }
                    assert(group_of(before, directory@).files =~= Map::empty());
                }
                DirectoryGroup { directory: directory.clone(), files: StringMap::new() }
            },
        };
        group.files.insert(file_path.clone(), filename);
        let ghost grown = group@;
        groups.insert(directory, group);
        proof {
            assert(groups_of(before).remove(directory@).insert(directory@, grown) =~= groups_of(
                before,
            ).insert(directory@, grown));
        }
    }
    assert(paths.take(paths.len() as int) =~= paths);
    groups
}

/// Every listed path that names a file is in the group of its directory, under
/// its file name, and in no other group.
pub proof fn law_every_file_in_one_group(paths: Seq<Seq<char>>, p: Seq<char>)
    requires
        paths.contains(p),
        file_name_of(p) is Some,
    ensures
        groups_of(paths).contains_key(group_directory(p)),
        groups_of(paths)[group_directory(p)].files.contains_key(p),
        groups_of(paths)[group_directory(p)].files[p] == file_name_of(p)->0,
        forall|d: Seq<char>| #[trigger]
            groups_of(paths).contains_key(d) && groups_of(paths)[d].files.contains_key(p) ==> d
                == group_directory(p),
{
    assert(in_group(paths, group_directory(p), p));
}

/// Every group has a file, bears the directory under which it is found, and
/// holds listed paths only.
pub proof fn law_groups_hold_listed_files(paths: Seq<Seq<char>>, d: Seq<char>)
    requires
        groups_of(paths).contains_key(d),
    ensures
        groups_of(paths)[d].directory == d,
        exists|p: Seq<char>| #[trigger] groups_of(paths)[d].files.contains_key(p),
        forall|p: Seq<char>| #[trigger]
            groups_of(paths)[d].files.contains_key(p) ==> paths.contains(p),
{
    let p = choose|p: Seq<char>| in_group(paths, d, p);
    assert(groups_of(paths)[d].files.contains_key(p));
}

/// A tidy absolute path is its group's directory joined with its file name.
pub proof fn law_group_locates_file(paths: Seq<Seq<char>>, p: Seq<char>)
    requires
        paths.contains(p),
        file_name_of(p) is Some,
        is_tidy(p),
        p[0] == '/',
        p.len() > 0,
    ensures
        ({
            let group = groups_of(paths)[group_directory(p)];
            join_of(group.directory, group.files[p]) == p
        }),
{
    law_join_restores_tidy_path(p);
    law_every_file_in_one_group(paths, p);
    crate::paths::lemma_absolute_parent(p);
}

/// The directory of a path's group is the directory part of the path; a path
/// without one, or with an empty one, belongs to the root.
pub proof fn law_group_directory(p: Seq<char>, d: Seq<char>)
    ensures
        parent_of(p) == Some(d) && d.len() > 0 ==> group_directory(p) == d,
        parent_of(p) is None || parent_of(p)->0.len() == 0 ==> group_directory(p) == seq!['/'],
{
}

/// What is in a group: exactly the listed paths that name a file and whose
/// directory is the group's, each with its own file name.
pub proof fn law_group_is_its_directory(paths: Seq<Seq<char>>, d: Seq<char>, p: Seq<char>)
    ensures
        groups_of(paths).contains_key(d) && groups_of(paths)[d].files.contains_key(p)
            <==> paths.contains(p) && file_name_of(p) is Some && group_directory(p) == d,
        groups_of(paths).contains_key(d) && groups_of(paths)[d].files.contains_key(p)
            ==> groups_of(paths)[d].files[p] == file_name_of(p)->0,
        groups_of(paths).contains_key(d) ==> groups_of(paths)[d].directory == d && exists|
            q: Seq<char>,
        | #[trigger]
            groups_of(paths)[d].files.contains_key(q),
{
    if paths.contains(p) && file_name_of(p) is Some && group_directory(p) == d {
        law_every_file_in_one_group(paths, p);
    }
    if groups_of(paths).contains_key(d) {
        law_groups_hold_listed_files(paths, d);
    }
}

/// The value of a group holds its directory and its files, and the values of
/// strings are listed in order.
pub proof fn law_group_values(group: DirectoryGroup, strings: Seq<String>)
    ensures
        group@.directory == group.directory@,
        group@.files == group.files@,
        string_views(strings).len() == strings.len(),
        forall|i: int| 0 <= i < strings.len() ==> #[trigger] string_views(strings)[i] == strings[i]@,
{
}

} // verus!
