use enclaver::files::{group_files_by_directory, DirectoryGroup};
use enclaver::table::StringMap;
use enclaver::watcher::{
    watch_target, DirectoryGroupWatcher, EventKind, ModifyKind, RenameMode, Wake, WatchStep,
};

fn s(text: &str) -> String {
    text.to_string()
}

fn list(paths: &[&str]) -> Vec<String> {
    paths.iter().map(|p| p.to_string()).collect()
}

fn grouped(paths: &[&str]) -> StringMap<DirectoryGroup> {
    group_files_by_directory(&list(paths))
}

/// Watches every group in its own directory.
fn watching(paths: &[&str]) -> DirectoryGroupWatcher {
    let groups = grouped(paths);
    let targets = (0..groups.len())
        .map(|i| Some(groups.entry(i).0.clone()))
        .collect();
    DirectoryGroupWatcher::new(&groups, &targets)
}

fn called_for(watcher: &DirectoryGroupWatcher, kind: EventKind, paths: &[&str]) -> Option<String> {
    watcher
        .handle_event(kind, &list(paths))
        .map(|group| group.directory)
}

fn modified(kind: ModifyKind) -> EventKind {
    EventKind::Modify { kind }
}

fn renamed(mode: RenameMode) -> EventKind {
    modified(ModifyKind::Name { mode })
}

#[test]
fn new_content_calls_for_the_group_of_its_directory() {
    let watcher = watching(&["/a/x", "/a/y", "/b/z"]);
    for kind in [
        EventKind::Create,
        modified(ModifyKind::Data),
        renamed(RenameMode::Both),
        renamed(RenameMode::To),
    ] {
        assert_eq!(called_for(&watcher, kind, &["/a/x"]), Some(s("/a")));
        assert_eq!(called_for(&watcher, kind, &["/b/z"]), Some(s("/b")));
        assert_eq!(called_for(&watcher, kind, &["/b/unlisted"]), Some(s("/b")));
    }
    let group = watcher
        .handle_event(EventKind::Create, &list(&["/a/x"]))
        .unwrap();
    assert_eq!(group.files.len(), 2);
    assert_eq!(group.files.get(&s("/a/y")), Some(&s("y")));
}

#[test]
fn other_events_call_for_nothing() {
    let watcher = watching(&["/a/x"]);
    for kind in [
        EventKind::Any,
        EventKind::Access,
        EventKind::Remove,
        EventKind::Other,
        modified(ModifyKind::Any),
        modified(ModifyKind::Metadata),
        modified(ModifyKind::Other),
        renamed(RenameMode::Any),
        renamed(RenameMode::From),
        renamed(RenameMode::Other),
    ] {
        assert_eq!(called_for(&watcher, kind, &["/a/x"]), None);
    }
}

#[test]
fn only_paths_right_in_a_watched_directory_count() {
    let watcher = watching(&["/a/x"]);
    assert_eq!(called_for(&watcher, EventKind::Create, &[]), None);
    assert_eq!(called_for(&watcher, EventKind::Create, &["/a"]), None);
    assert_eq!(called_for(&watcher, EventKind::Create, &["/a/b/x"]), None);
    assert_eq!(called_for(&watcher, EventKind::Create, &["/", ""]), None);
}

#[test]
fn an_event_calls_for_one_group_only() {
    let watcher = watching(&["/a/x", "/b/z"]);
    let kind = renamed(RenameMode::Both);
    assert_eq!(called_for(&watcher, kind, &["/a/x", "/b/z"]), Some(s("/a")));
    assert_eq!(called_for(&watcher, kind, &["/b/z", "/a/x"]), Some(s("/b")));
    assert_eq!(
        called_for(&watcher, kind, &["/elsewhere/q", "/", "/b/z"]),
        Some(s("/b"))
    );
}

#[test]
fn waking_up() {
    let watcher = watching(&["/a/x"]);
    let event = |kind: EventKind, path: &str| Wake::Event {
        kind,
        paths: list(&[path]),
    };
    match watcher.wake(event(EventKind::Create, "/a/x")) {
        WatchStep::Emit { group } => assert_eq!(group.directory, "/a"),
        other => panic!("{:?}", other),
    }
    assert!(matches!(
        watcher.wake(event(EventKind::Remove, "/a/x")),
        WatchStep::Wait
    ));
    assert!(matches!(
        watcher.wake(event(EventKind::Create, "/c/x")),
        WatchStep::Wait
    ));
    assert!(matches!(watcher.wake(Wake::Tick), WatchStep::Wait));
    assert!(matches!(watcher.wake(Wake::Closed), WatchStep::Stop));
}

#[test]
fn all_watched_groups_are_sent_first() {
    let watcher = watching(&["/a/x", "/b/z", "/c/q", "/c/r"]);
    let mut directories: Vec<(String, usize)> = watcher
        .initial_groups()
        .into_iter()
        .map(|group| (group.directory, group.files.len()))
        .collect();
    directories.sort();
    assert_eq!(directories, vec![(s("/a"), 1), (s("/b"), 1), (s("/c"), 2)]);
    assert_eq!(watching(&[]).initial_groups().len(), 0);
}

#[test]
fn groups_that_cannot_be_watched_are_left_out() {
    let groups = grouped(&["/a/x", "/b/z"]);
    let targets = (0..groups.len())
        .map(|i| {
            if groups.entry(i).0 == "/a" {
                None
            } else {
                Some(s("/real/b"))
            }
        })
        .collect();
    let watcher = DirectoryGroupWatcher::new(&groups, &targets);
    assert_eq!(watcher.initial_groups().len(), 1);
    assert_eq!(called_for(&watcher, EventKind::Create, &["/a/x"]), None);
    assert_eq!(called_for(&watcher, EventKind::Create, &["/b/z"]), None);
    assert_eq!(
        called_for(&watcher, EventKind::Create, &["/real/b/z"]),
        Some(s("/b"))
    );
}

#[test]
fn a_later_group_takes_over_a_shared_directory() {
    let groups = grouped(&["/a/x", "/b/z"]);
    let watcher = DirectoryGroupWatcher::new(&groups, &vec![Some(s("/real")), Some(s("/real"))]);
    assert_eq!(watcher.initial_groups().len(), 1);
    assert_eq!(
        called_for(&watcher, EventKind::Create, &["/real/x"]),
        Some(groups.entry(1).0.clone())
    );
}

#[test]
fn watching_one_more_directory() {
    let groups = grouped(&["/a/x", "/b/z"]);
    let mut watcher = watching(&["/a/x"]);
    let group = groups.get(&s("/b")).unwrap();
    assert_eq!(
        watcher.watch_directory(group, &None),
        Err(s("watching directory /b"))
    );
    assert_eq!(watcher.initial_groups().len(), 1);
    assert_eq!(watcher.watch_directory(group, &Some(s("/b"))), Ok(()));
    assert_eq!(watcher.initial_groups().len(), 2);
    assert_eq!(
        called_for(&watcher, EventKind::Create, &["/b/z"]),
        Some(s("/b"))
    );
}

#[test]
fn the_resolved_directory_is_watched() {
    let groups = grouped(&["/a/x"]);
    let group = groups.get(&s("/a")).unwrap();
    assert_eq!(watch_target(group, Some(s("/real/a"))), "/real/a");
    assert_eq!(watch_target(group, None), "/a");
}
