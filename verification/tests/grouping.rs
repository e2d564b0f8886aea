use enclaver::files::{
    group_files_by_directory, DIRECTORY_WATCH_DEBOUNCE_MILLIS, SYNC_IO_BUFFER_SIZE,
};
use enclaver::table::StringMap;

fn s(text: &str) -> String {
    text.to_string()
}

fn list(paths: &[&str]) -> Vec<String> {
    paths.iter().map(|p| p.to_string()).collect()
}

/// The groups as sorted plain values.
fn groups(paths: &[&str]) -> Vec<(String, Vec<(String, String)>)> {
    let table = group_files_by_directory(&list(paths));
    let mut all = Vec::new();
    for i in 0..table.len() {
        let (directory, group) = table.entry(i);
        assert_eq!(directory, &group.directory);
        let mut files = Vec::new();
        for j in 0..group.files.len() {
            let (path, name) = group.files.entry(j);
            files.push((path.clone(), name.clone()));
        }
        files.sort();
        all.push((directory.clone(), files));
    }
    all.sort();
    all
}

#[test]
fn files_are_grouped_by_directory() {
    assert_eq!(
        groups(&["/etc/app/a.conf", "/etc/app/b.conf", "/var/x", "/top"]),
        vec![
            (s("/"), vec![(s("/top"), s("top"))]),
            (
                s("/etc/app"),
                vec![
                    (s("/etc/app/a.conf"), s("a.conf")),
                    (s("/etc/app/b.conf"), s("b.conf")),
                ],
            ),
            (s("/var"), vec![(s("/var/x"), s("x"))]),
        ]
    );
    assert_eq!(groups(&[]), vec![]);
}

#[test]
fn bare_names_belong_to_the_root() {
    assert_eq!(
        groups(&["name", "dir/name"]),
        vec![
            (s("/"), vec![(s("name"), s("name"))]),
            (s("dir"), vec![(s("dir/name"), s("name"))]),
        ]
    );
}

#[test]
fn paths_without_a_file_name_are_left_out() {
    assert_eq!(groups(&["/", "", "..", "/a/..", "."]), vec![]);
    assert_eq!(
        groups(&["/a/..", "/a/b/"]),
        vec![(s("/a"), vec![(s("/a/b/"), s("b"))])]
    );
}

#[test]
fn a_path_listed_twice_counts_once() {
    assert_eq!(
        groups(&["/a/x", "/a/x"]),
        vec![(s("/a"), vec![(s("/a/x"), s("x"))])]
    );
    assert_eq!(
        groups(&["/a/x", "/a//x"]),
        vec![(s("/a"), vec![(s("/a//x"), s("x")), (s("/a/x"), s("x"))])]
    );
}

#[test]
fn every_listed_file_is_in_exactly_one_group() {
    let paths = list(&["/a/x", "/b/x", "/a/y", "z", "/c/d/e", "/c/d"]);
    let table = group_files_by_directory(&paths);
    for path in &paths {
        let holders = (0..table.len())
            .filter(|i| table.entry(*i).1.files.get(path).is_some())
            .count();
        assert_eq!(holders, 1, "{}", path);
    }
    let kept: usize = (0..table.len()).map(|i| table.entry(i).1.files.len()).sum();
    assert_eq!(kept, paths.len());
}

#[test]
fn directory_and_name_lead_back_to_the_file() {
    let table = group_files_by_directory(&list(&["/etc/app/a.conf", "/top", "/x/y/z"]));
    for i in 0..table.len() {
        let (directory, group) = table.entry(i);
        for j in 0..group.files.len() {
            let (path, name) = group.files.entry(j);
            assert_eq!(&enclaver::paths::join(directory, name), path);
            assert!(!name.is_empty() && !name.contains('/'));
        }
    }
}

#[test]
fn groups_can_be_copied() {
    let table = group_files_by_directory(&list(&["/a/x", "/a/y"]));
    let group = table.get(&s("/a")).unwrap();
    let copy = group.clone();
    assert_eq!(format!("{:?}", copy), format!("{:?}", group));
    assert_eq!(copy.files.get(&s("/a/y")), Some(&s("y")));
}

#[test]
fn sizes_and_intervals() {
    assert_eq!(SYNC_IO_BUFFER_SIZE, 65536);
    assert_eq!(DIRECTORY_WATCH_DEBOUNCE_MILLIS, 500);
}

#[test]
fn table_keeps_the_last_value_of_a_key() {
    let mut table: StringMap<String> = StringMap::new();
    assert!(table.is_empty());
    table.insert(s("a"), s("1"));
    table.insert(s("b"), s("2"));
    table.insert(s("a"), s("3"));
    assert_eq!(table.len(), 2);
    assert!(!table.is_empty());
    assert_eq!(table.get(&s("a")), Some(&s("3")));
    assert_eq!(table.get(&s("c")), None);
    assert_eq!(table.remove(&s("c")), None);
    assert_eq!(table.remove(&s("a")), Some(s("3")));
    assert_eq!(table.remove(&s("a")), None);
    assert_eq!(table.len(), 1);
    let copy = table.clone();
    assert_eq!(copy.entry(0), (&s("b"), &s("2")));
    let listed = StringMap::from_pairs(vec![(s("x"), s("1")), (s("y"), s("2"))]);
    assert_eq!(listed.get(&s("y")), Some(&s("2")));
    assert_eq!(listed.len(), 2);
}
