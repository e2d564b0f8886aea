use std::collections::{BTreeMap, VecDeque};

use enclaver::actions::{Action, Reply};
use enclaver::changeset::{
    chunk, ChangesetError, ChangesetReceiver, DirectoryState, Progress, Stage,
};
use enclaver::clock::{stamp_dir_name, Moment};
use enclaver::file_sync::{needs_file_sync, FileSyncServer};
use enclaver::files::group_files_by_directory;
use enclaver::messages::{FileEntry, SyncMessage};
use enclaver::sender::{ChangesetSender, SendAction, SendProgress, SendReply, SyncOutcome};

fn s(text: &str) -> String {
    text.to_string()
}

fn entry(name: &str, size: u64) -> FileEntry {
    FileEntry {
        name: s(name),
        manifest_path: format!("/d/{}", name),
        size,
    }
}

fn at(secs: i64) -> Moment {
    Moment { secs, nanos: 0 }
}

fn end(directory: &str) -> SyncMessage {
    SyncMessage::ChangesetEnd {
        directory: s(directory),
    }
}

fn begin(directory: &str, files: Vec<FileEntry>) -> SyncMessage {
    SyncMessage::ChangesetBegin {
        directory: s(directory),
        files,
    }
}

/// A file system and a connection, both in memory.
#[derive(Default)]
struct World {
    files: BTreeMap<String, Vec<u8>>,
    links: BTreeMap<String, String>,
    open: String,
    incoming: VecDeque<SyncMessage>,
    content: VecDeque<u8>,
    sent: Vec<String>,
    /// The last message that was sent.
    answer: Option<SyncMessage>,
    /// Each operation, as text.
    log: Vec<String>,
    /// Where `/d/..data` has led, one entry for each change.
    history: Vec<String>,
    notified: usize,
    failing: Option<usize>,
}

impl World {
    fn attempt(&mut self, action: Action) -> Option<Reply> {
        match action {
            Action::Accept | Action::CreateDir { .. } | Action::Flush => {}
            Action::Notify => self.notified += 1,
            Action::Send { message } => {
                self.sent.push(format!("{:?}", message));
                self.answer = Some(message);
            }
            Action::Receive => {
                return self
                    .incoming
                    .pop_front()
                    .map(|message| Reply::Message { message });
            }
            Action::ReadExact { len } => {
                if self.content.len() < len {
                    return None;
                }
                return Some(Reply::Data {
                    bytes: self.content.drain(..len).collect(),
                });
            }
            Action::RemoveDir { path } => {
                let inside = format!("{}/", path);
                self.files.retain(|p, _| !p.starts_with(&inside));
                self.links.retain(|p, _| !p.starts_with(&inside));
            }
            Action::CreateFile { path } => {
                self.files.insert(path.clone(), Vec::new());
                self.open = path;
            }
            Action::Write { bytes } => {
                let open = self.open.clone();
                self.files.get_mut(&open)?.extend(bytes);
            }
            Action::Rename { from, to } => {
                if let Some(content) = self.files.remove(&from) {
                    self.links.remove(&to);
                    self.files.insert(to, content);
                } else {
                    let target = self.links.remove(&from)?;
                    self.files.remove(&to);
                    self.links.insert(to, target);
                }
            }
            Action::RemoveFile { path } => {
                if self.files.remove(&path).is_none() {
                    self.links.remove(&path)?;
                }
            }
            Action::Symlink { target, link } => {
                if self.files.contains_key(&link) || self.links.contains_key(&link) {
                    return None;
                }
                self.links.insert(link, target);
            }
        }
        Some(Reply::Done)
    }

    fn perform(&mut self, action: Action) -> Reply {
        let number = self.log.len();
        self.log.push(format!("{:?}", action));
        if self.failing == Some(number) {
            return Reply::Failed { reason: s("broken") };
        }
        let before = self.links.get("/d/..data").cloned();
        let reply = self
            .attempt(action)
            .unwrap_or(Reply::Failed { reason: s("failed") });
        let after = self.links.get("/d/..data").cloned();
        if before != after {
            self.history.extend(after);
        }
        reply
    }

    /// The content that a reader finds under a path, through the links.
    fn read(&self, path: &str) -> Option<&Vec<u8>> {
        let mut path = path.to_string();
        for _ in 0..8 {
            if let Some(content) = self.files.get(&path) {
                return Some(content);
            }
            let (link, rest) = self
                .links
                .keys()
                .filter(|l| path == **l || path.starts_with(&format!("{}/", l)))
                .map(|l| (l.clone(), path[l.len()..].to_string()))
                .next()?;
            let directory = &link[..link.rfind('/')?];
            path = format!("{}/{}{}", directory, self.links[&link], rest);
        }
        None
    }

    fn receive(
        &mut self,
        files: Vec<FileEntry>,
        state: Option<DirectoryState>,
        now: Moment,
    ) -> (Option<DirectoryState>, Result<(), ChangesetError>) {
        let (mut receiver, mut action) = ChangesetReceiver::start(s("/d"), files, state);
        assert_eq!(receiver.directory(), "/d");
        loop {
            let reply = self.perform(action);
            match receiver.step_at(reply, now) {
                Progress::Next { action: next } => action = next,
                Progress::Finished { result } => return (receiver.into_state(), result),
            }
        }
    }

    /// A world in which `/d` holds `a` and `b`, received at `now`.
    fn settled(now: Moment) -> (Self, Option<DirectoryState>) {
        let mut world = World::default();
        world.content.extend(b"oldA");
        world.content.extend(b"oldBB");
        world.incoming.push_back(end("/d"));
        let (state, result) = world.receive(vec![entry("a", 4), entry("b", 5)], None, now);
        assert!(result.is_ok());
        world.log.clear();
        (world, state)
    }
}

fn message(result: Result<(), ChangesetError>) -> String {
    result.unwrap_err().message()
}

#[test]
fn files_are_stored_linked_and_put_in_place() {
    let mut world = World::default();
    world.content.extend(b"hello");
    world.content.extend(b"xy");
    world.incoming.push_back(end("/d"));
    let files = vec![entry("a", 5), entry("b", 0), entry("c", 2)];
    let (state, result) = world.receive(files, None, at(1431648000));
    assert!(result.is_ok());
    let stamp = "..2015_05_15_00_00_00.000000";
    let state = state.unwrap();
    assert_eq!(state.current_ts_dir, Some(s(stamp)));
    assert!(state.symlinks_created);
    assert_eq!(world.read("/d/a"), Some(&b"hello".to_vec()));
    assert_eq!(world.read("/d/b"), Some(&b"".to_vec()));
    assert_eq!(world.read("/d/c"), Some(&b"xy".to_vec()));
    assert_eq!(world.links["/d/..data"], stamp);
    assert_eq!(world.links["/d/a"], "..data/a");
    assert_eq!(world.files.len(), 3);
    assert_eq!(world.links.len(), 4);
    let t = format!("/d/{}", stamp);
    let mut expected = vec![
        s("CreateDir { path: \"/d\" }"),
        format!("CreateDir {{ path: \"{}\" }}", t),
    ];
    for (name, bytes) in [("a", Some("[104, 101, 108, 108, 111]")), ("b", None), ("c", Some("[120, 121]"))] {
        expected.push(format!("CreateFile {{ path: \"{}/.tmp.{}\" }}", t, name));
        if let Some(bytes) = bytes {
            let len = bytes.split(',').count();
            expected.push(format!("ReadExact {{ len: {} }}", len));
            expected.push(format!("Write {{ bytes: {} }}", bytes));
        }
        expected.push(s("Flush"));
        expected.push(format!(
            "Rename {{ from: \"{}/.tmp.{}\", to: \"{}/{}\" }}",
            t, name, t, name
        ));
    }
    expected.push(s("Receive"));
    expected.push(s("RemoveFile { path: \"/d/..data_tmp\" }"));
    expected.push(format!(
        "Symlink {{ target: \"{}\", link: \"/d/..data_tmp\" }}",
        stamp
    ));
    expected.push(s("Rename { from: \"/d/..data_tmp\", to: \"/d/..data\" }"));
    for name in ["a", "b", "c"] {
        expected.push(format!("RemoveFile {{ path: \"/d/{}\" }}", name));
        expected.push(format!(
            "Symlink {{ target: \"..data/{}\", link: \"/d/{}\" }}",
            name, name
        ));
    }
    assert_eq!(world.log, expected);
}

#[test]
fn a_later_changeset_replaces_the_files_at_once() {
    let (mut world, state) = World::settled(at(1000));
    let old = world.links["/d/..data"].clone();
    world.content.extend(b"newerA");
    world.content.extend(b"B");
    world.incoming.push_back(end("/d"));
    let (state, result) = world.receive(vec![entry("a", 6), entry("b", 1)], state, at(2000));
    assert!(result.is_ok());
    let new = stamp_dir_name(at(2000));
    assert_eq!(world.history, vec![old.clone(), new.clone()]);
    assert_eq!(state.unwrap().current_ts_dir, Some(new));
    assert_eq!(world.read("/d/a"), Some(&b"newerA".to_vec()));
    assert_eq!(world.read("/d/b"), Some(&b"B".to_vec()));
    // The links stay, and the old files are gone.
    assert!(!world.log.iter().any(|l| l.contains("link: \"/d/a\"")));
    assert!(!world.files.keys().any(|p| p.contains(&old)));
    assert_eq!(
        world.log.last().unwrap(),
        &format!("RemoveDir {{ path: \"/d/{}\" }}", old)
    );
}

#[test]
fn old_files_are_read_until_the_link_is_renamed() {
    let count = {
        let (mut world, state) = World::settled(at(1000));
        world.content.extend(b"newA");
        world.incoming.push_back(end("/d"));
        assert!(world.receive(vec![entry("a", 4)], state, at(2000)).1.is_ok());
        world.log.len()
    };
    for failing in 0..count {
        let (mut world, state) = World::settled(at(1000));
        world.content.extend(b"newA");
        world.incoming.push_back(end("/d"));
        world.failing = Some(failing);
        let (state, result) = world.receive(vec![entry("a", 4)], state, at(2000));
        let swapped = world.links["/d/..data"] == stamp_dir_name(at(2000));
        let current = state.unwrap().current_ts_dir;
        assert_eq!(result.is_ok(), swapped, "operation {}", failing);
        if swapped {
            assert_eq!(world.read("/d/a"), Some(&b"newA".to_vec()));
            assert_eq!(current, Some(stamp_dir_name(at(2000))));
        } else {
            assert_eq!(world.read("/d/a"), Some(&b"oldA".to_vec()));
            assert_eq!(world.read("/d/b"), Some(&b"oldBB".to_vec()));
            assert_eq!(current, Some(stamp_dir_name(at(1000))));
        }
    }
}

#[test]
fn each_failure_has_its_text() {
    let stamped = format!("/d/{}", stamp_dir_name(at(1000)));
    let run = |failing: Option<usize>| {
        let mut world = World::default();
        world.content.extend(b"hello");
        world.incoming.push_back(end("/d"));
        world.failing = failing;
        let (_, result) = world.receive(vec![entry("a", 5)], None, at(1000));
        (world, result)
    };
    let expected = [
        Some(s("creating target directory /d")),
        Some(format!("creating timestamped directory {}", stamped)),
        Some(s("creating temp file for a")),
        Some(s("reading file content for a")),
        Some(s("broken")),
        Some(s("broken")),
        Some(format!("renaming temp file to {}/a", stamped)),
        Some(s("broken")),
        None,
        Some(s("creating ..data_tmp symlink")),
        Some(s("atomic rename ..data_tmp to ..data")),
        None,
        Some(s("creating file symlink /d/a -> ..data/a")),
    ];
    for (i, text) in expected.iter().enumerate() {
        let (world, result) = run(Some(i));
        match text {
            Some(text) => {
                let error = result.unwrap_err();
                assert_eq!(&error.message(), text, "operation {}", i);
                let cause = if text == "broken" { None } else { Some(s("broken")) };
                assert_eq!(error.cause(), cause, "operation {}", i);
            }
            None => assert!(result.is_ok(), "operation {}", i),
        }
        // Failing to store a file removes what there is, reads the content that is
        // still to come, and waits for the end.
        if (2..7).contains(&i) {
            let mut rest = vec![format!("RemoveDir {{ path: \"{}\" }}", stamped)];
            if i == 2 {
                rest.push(s("ReadExact { len: 5 }"));
            }
            rest.push(s("Receive"));
            assert_eq!(world.log[i + 1..], rest);
            assert!(world.files.is_empty());
            assert!(world.incoming.is_empty());
            assert_eq!(world.content.is_empty(), i != 3);
        }
        assert!(world.log.len() <= 2 * 5 + 5 + 7);
    }
    let (world, result) = run(None);
    assert!(result.is_ok());
    assert_eq!(world.log.len(), expected.len());
}

/// Receives three files of which the middle one is long, while one operation fails.
fn receive_three(failing: usize) -> (World, Result<(), ChangesetError>) {
    let mut world = World::default();
    world.content.extend(vec![7; 3 + 70_000 + 2]);
    world.incoming.push_back(end("/d"));
    world.failing = Some(failing);
    let files = vec![entry("a", 3), entry("b", 70_000), entry("c", 2)];
    let (state, result) = world.receive(files, None, at(1000));
    assert!(state.is_none());
    (world, result)
}

#[test]
fn unread_content_is_skipped_after_a_local_failure() {
    // Two directories, then for each file: create, read and write, flush, rename.
    for (failing, reads, text) in [
        (2, vec![65536, 4469], "creating temp file for a"),
        (4, vec![65536, 4466], "broken"),
        (5, vec![65536, 4466], "broken"),
        (7, vec![65536, 4466], "creating temp file for b"),
        (9, vec![4466], "broken"),
        (11, vec![2], "broken"),
        (12, vec![2], "broken"),
        (14, vec![2], "creating temp file for c"),
        (16, vec![], "broken"),
        (17, vec![], "broken"),
    ] {
        let (world, result) = receive_three(failing);
        assert_eq!(message(result), text, "operation {}", failing);
        let mut rest = vec![format!(
            "RemoveDir {{ path: \"/d/{}\" }}",
            stamp_dir_name(at(1000))
        )];
        for len in reads {
            rest.push(format!("ReadExact {{ len: {} }}", len));
        }
        rest.push(s("Receive"));
        assert_eq!(world.log[failing + 1..], rest, "operation {}", failing);
        // Everything up to the end of the changeset was taken, and nothing is left.
        assert!(world.content.is_empty());
        assert!(world.incoming.is_empty());
        assert!(world.files.is_empty());
    }
    // The sizes add up beyond sixty-four bits.
    let huge = vec![entry("a", u64::MAX), entry("b", u64::MAX), entry("c", 5)];
    let (mut receiver, _) = ChangesetReceiver::start(s("/d"), huge, None);
    for reply in [Reply::Done, Reply::Done, Reply::Failed { reason: s("x") }, Reply::Done] {
        match receiver.step_at(reply, at(1000)) {
            Progress::Next { .. } => {}
            other => panic!("{:?}", other),
        }
    }
    match receiver.step_at(Reply::Data { bytes: vec![0; 65536] }, at(1000)) {
        Progress::Next {
            action: Action::ReadExact { len },
        } => assert_eq!(len, 65536),
        other => panic!("{:?}", other),
    }
}

#[test]
fn a_failed_read_goes_straight_to_the_end() {
    for failing in [3, 8, 10, 15] {
        let (world, result) = receive_three(failing);
        assert!(message(result).starts_with("reading file content for "));
        assert_eq!(world.log.len(), failing + 3);
        assert_eq!(world.log[failing + 2], "Receive");
    }
}

#[test]
fn skipping_fails_when_the_connection_does() {
    let mut world = World::default();
    world.content.extend(b"short");
    world.incoming.push_back(end("/d"));
    world.failing = Some(2);
    let (_, result) = world.receive(vec![entry("a", 100)], None, at(1000));
    assert_eq!(message(result), "failed");
    assert_eq!(world.log.last().unwrap(), "ReadExact { len: 100 }");
}

#[test]
fn a_file_under_its_name_is_never_partial() {
    let mut world = World::default();
    let long: Vec<u8> = (0..150_000u32).map(|i| (i % 233) as u8).collect();
    world.content.extend(b"first");
    world.content.extend(&long);
    world.incoming.push_back(end("/d"));
    let t = format!("/d/{}", stamp_dir_name(at(1000)));
    let whole = [
        (format!("{}/a", t), b"first".to_vec()),
        (format!("{}/b", t), long.clone()),
    ];
    let files = vec![entry("a", 5), entry("b", 150_000)];
    let (mut receiver, mut action) = ChangesetReceiver::start(s("/d"), files, None);
    let mut seen = 0;
    loop {
        let reply = world.perform(action);
        let named: Vec<&(String, Vec<u8>)> = whole
            .iter()
            .filter(|(path, _)| world.files.contains_key(path))
            .collect();
        for (path, content) in &named {
            assert_eq!(&world.files[path], content);
        }
        assert!(named.len() >= seen);
        seen = named.len();
        match receiver.step_at(reply, at(1000)) {
            Progress::Next { action: next } => action = next,
            Progress::Finished { result } => {
                assert!(result.is_ok());
                break;
            }
        }
    }
    assert_eq!(seen, 2);
}

#[test]
fn the_end_must_name_the_directory() {
    for (got, text) in [
        (end("/e"), "ChangesetEnd { directory: \"/e\" }"),
        (SyncMessage::InitialSyncComplete, "InitialSyncComplete"),
    ] {
        let mut world = World::default();
        world.content.extend(b"hello");
        world.incoming.push_back(got);
        let (state, result) = world.receive(vec![entry("a", 5)], None, at(1000));
        assert!(state.is_none());
        assert_eq!(result.as_ref().unwrap_err().cause(), None);
        assert_eq!(
            message(result),
            format!("expected ChangesetEnd for /d, got {}", text)
        );
        assert!(world.files.is_empty());
        assert!(world.links.is_empty());
    }
}

#[test]
fn a_connection_lost_before_the_end_is_reported_as_such() {
    let mut world = World::default();
    world.content.extend(b"hello");
    let (_, result) = world.receive(vec![entry("a", 5)], None, at(1000));
    assert_eq!(message(result), "failed");
    // The content breaks off, and nothing follows it.
    let mut world = World::default();
    world.content.extend(b"hel");
    let (_, result) = world.receive(vec![entry("a", 5)], None, at(1000));
    assert_eq!(message(result), "failed");
    assert!(world.files.is_empty());
}

#[test]
fn links_are_made_again_until_all_of_them_are_there() {
    let mut world = World::default();
    world.content.extend(b"AB");
    world.incoming.push_back(end("/d"));
    // Two directories, two files of five operations each, the end, the link in
    // place with three, the first file's link with two, then the second's.
    world.failing = Some(2 + 2 * 5 + 1 + 3 + 2 + 1);
    let files = || vec![entry("a", 1), entry("b", 1)];
    let (state, result) = world.receive(files(), None, at(1000));
    assert_eq!(
        message(result),
        "creating file symlink /d/b -> ..data/b"
    );
    let state = state.unwrap();
    assert!(!state.symlinks_created);
    assert_eq!(state.current_ts_dir, None);
    world.failing = None;
    world.content.extend(b"CD");
    world.incoming.push_back(end("/d"));
    let (state, result) = world.receive(files(), Some(state), at(2000));
    assert!(result.is_ok());
    assert!(state.unwrap().symlinks_created);
    assert_eq!(world.read("/d/a"), Some(&b"C".to_vec()));
    assert_eq!(world.read("/d/b"), Some(&b"D".to_vec()));
}

#[test]
fn what_lies_in_the_way_of_a_link_is_replaced() {
    let mut world = World::default();
    world.files.insert(s("/d/a"), b"in the way".to_vec());
    world.files.insert(s("/d/other"), b"kept".to_vec());
    world.files.insert(s("/elsewhere"), b"kept too".to_vec());
    world.links.insert(s("/d/..data_tmp"), s("stale"));
    world.content.extend(b"new");
    world.incoming.push_back(end("/d"));
    let (_, result) = world.receive(vec![entry("a", 3)], None, at(1000));
    assert!(result.is_ok());
    assert_eq!(world.read("/d/a"), Some(&b"new".to_vec()));
    assert_eq!(world.read("/d/other"), Some(&b"kept".to_vec()));
    assert_eq!(world.read("/elsewhere"), Some(&b"kept too".to_vec()));
    assert!(!world.links.contains_key("/d/..data_tmp"));
}

#[test]
fn content_is_read_in_portions() {
    let sizes = [1u64, 65535, 65536, 65537, 200_000];
    for size in sizes {
        let content: Vec<u8> = (0..size).map(|i| (i % 241) as u8).collect();
        let mut world = World::default();
        world.content.extend(&content);
        world.incoming.push_back(end("/d"));
        let (_, result) = world.receive(vec![entry("a", size)], None, at(1000));
        assert!(result.is_ok());
        assert_eq!(world.read("/d/a"), Some(&content));
        let reads = world.log.iter().filter(|l| l.starts_with("ReadExact"));
        assert_eq!(reads.count() as u64, size.div_ceil(65536));
    }
    assert_eq!(chunk(0), 0);
    assert_eq!(chunk(65535), 65535);
    assert_eq!(chunk(65536), 65536);
    assert_eq!(chunk(65537), 65536);
    assert_eq!(chunk(u64::MAX as u128), 65536);
    assert_eq!(chunk(u128::MAX), 65536);
}

#[test]
fn a_changeset_without_files_is_put_in_place() {
    let mut world = World::default();
    world.incoming.push_back(end("/d"));
    let (state, result) = world.receive(vec![], None, at(1000));
    assert!(result.is_ok());
    assert!(state.unwrap().symlinks_created);
    assert_eq!(world.links.len(), 1);
}

#[test]
fn repeated_names_leave_everything_else_alone() {
    // One file that is listed under two paths.
    let (mut world, state) = World::settled(at(1000));
    world.files.insert(s("/d/other"), b"kept".to_vec());
    let old = world.links["/d/..data"].clone();
    world.content.extend(b"onetwo");
    world.incoming.push_back(end("/d"));
    let files = vec![entry("a", 3), entry("a", 3)];
    let (state, result) = world.receive(files, state, at(2000));
    assert!(result.is_ok());
    assert_eq!(
        world.history,
        vec![old.clone(), stamp_dir_name(at(2000))]
    );
    assert_eq!(world.read("/d/a"), Some(&b"two".to_vec()));
    assert_eq!(world.read("/d/other"), Some(&b"kept".to_vec()));
    assert!(!world.files.keys().any(|p| p.contains(&old)));
    // Nor does a failure touch what is in place.
    let failing = world.log.len() + 9;
    world.failing = Some(failing);
    world.content.extend(b"drei");
    world.incoming.push_back(end("/d"));
    let files = vec![entry("a", 2), entry("a", 2)];
    let (_, result) = world.receive(files, state, at(3000));
    assert!(result.is_err());
    assert_eq!(world.read("/d/a"), Some(&b"two".to_vec()));
    assert_eq!(world.read("/d/other"), Some(&b"kept".to_vec()));
}

#[test]
fn success_leaves_no_temporary_files_and_no_old_ones() {
    let (mut world, state) = World::settled(at(1000));
    let old = world.links["/d/..data"].clone();
    world.content.extend(b"AAAB");
    world.incoming.push_back(end("/d"));
    let files = vec![entry("a", 1), entry("a", 2), entry("b", 1)];
    let (_, result) = world.receive(files, state, at(2000));
    assert!(result.is_ok());
    assert!(!world.files.keys().any(|p| p.contains("/.tmp.")));
    assert!(!world.files.keys().any(|p| p.contains(&old)));
    assert_eq!(world.files.len(), 2);
    assert_eq!(
        world.log.last().unwrap(),
        &format!("RemoveDir {{ path: \"/d/{}\" }}", old)
    );
    // Where the old directory cannot be removed, the changeset still succeeds.
    let (mut world, state) = World::settled(at(1000));
    world.content.extend(b"A");
    world.incoming.push_back(end("/d"));
    // Two directories, five operations for the file, the end, and three for the
    // link in place.
    world.failing = Some(2 + 5 + 1 + 3);
    let (_, result) = world.receive(vec![entry("a", 1)], state, at(2000));
    assert!(result.is_ok());
    assert!(world.files.keys().any(|p| p.contains(&old)));
    assert!(!world.files.keys().any(|p| p.contains("/.tmp.")));
}

#[test]
fn a_temporary_name_that_is_listed_too_loses_its_file() {
    // ".tmp.x" is both a listed file and the temporary file of "x".
    let mut world = World::default();
    world.content.extend(b"12");
    world.incoming.push_back(end("/d"));
    let (_, result) = world.receive(vec![entry(".tmp.x", 1), entry("x", 1)], None, at(1000));
    assert!(result.is_ok());
    assert_eq!(world.read("/d/.tmp.x"), None);
    assert_eq!(world.read("/d/x"), Some(&b"2".to_vec()));
}

#[test]
fn states_and_stages_are_plain_values() {
    let state = DirectoryState {
        current_ts_dir: Some(s("..x")),
        symlinks_created: true,
    };
    assert_eq!(format!("{:?}", state.clone()), format!("{:?}", state));
    assert_eq!(Stage::Retire, Stage::Retire);
    assert_ne!(Stage::Flush { file: 1 }, Stage::Flush { file: 2 });
}

#[test]
fn file_sync_is_for_manifests_with_files() {
    assert!(!needs_file_sync(&None));
    assert!(!needs_file_sync(&Some(vec![])));
    assert!(needs_file_sync(&Some(vec![s("/d/a")])));
}

/// Runs a server until it waits for a message that does not come.
fn serve(world: &mut World, server: &mut FileSyncServer, first: Action, now: Moment) -> Action {
    let mut action = first;
    loop {
        let starved = matches!(action, Action::Receive) && world.incoming.is_empty();
        if starved {
            return action;
        }
        let reply = world.perform(action);
        action = server.step_at(reply, now);
    }
}

#[test]
fn the_server_answers_each_changeset_in_turn() {
    let mut world = World::default();
    let (mut server, first) = FileSyncServer::new();
    assert!(matches!(first, Action::Accept));
    world.incoming.push_back(begin("/d", vec![entry("a", 2)]));
    world.content.extend(b"hi");
    world.incoming.push_back(end("/d"));
    world.incoming.push_back(begin("/e", vec![]));
    world.incoming.push_back(end("/d"));
    world.incoming.push_back(SyncMessage::InitialSyncComplete);
    let next = serve(&mut world, &mut server, first, at(1000));
    assert_eq!(
        world.sent,
        vec![
            s("ChangesetAck { directory: \"/d\", success: true, error: None }"),
            s("ChangesetAck { directory: \"/e\", success: false, error: Some(\
               \"expected ChangesetEnd for /e, got ChangesetEnd { directory: \\\"/d\\\" }\") }"),
            s("InitialSyncAck"),
        ]
    );
    assert_eq!(world.notified, 1);
    assert_eq!(world.read("/d/a"), Some(&b"hi".to_vec()));
    // What is known of /d lasts: the links are not made again, and the old
    // directory is removed.
    world.incoming.push_back(begin("/d", vec![entry("a", 3)]));
    world.content.extend(b"bye");
    world.incoming.push_back(end("/d"));
    world.incoming.push_back(SyncMessage::InitialSyncComplete);
    world.log.clear();
    serve(&mut world, &mut server, next, at(2000));
    assert_eq!(world.notified, 1);
    assert_eq!(world.sent.len(), 5);
    assert_eq!(world.sent[4], "InitialSyncAck");
    assert_eq!(world.read("/d/a"), Some(&b"bye".to_vec()));
    let removal = format!("RemoveDir {{ path: \"/d/{}\" }}", stamp_dir_name(at(1000)));
    assert!(world.log.contains(&removal));
    assert!(!world.log.iter().any(|l| l.contains("link: \"/d/a\"")));
}

#[test]
fn messages_out_of_place_are_passed_over() {
    let mut world = World::default();
    let (mut server, first) = FileSyncServer::new();
    world.incoming.push_back(end("/d"));
    world.incoming.push_back(SyncMessage::InitialSyncAck);
    world.incoming.push_back(SyncMessage::ChangesetAck {
        directory: s("/d"),
        success: true,
        error: None,
    });
    serve(&mut world, &mut server, first, at(1000));
    assert_eq!(world.log, vec!["Accept", "Receive", "Receive", "Receive"]);
    assert!(world.sent.is_empty());
}

#[test]
fn a_lost_connection_is_followed_by_the_next() {
    let failed = || Reply::Failed { reason: s("reset") };
    let now = at(1000);
    let (mut server, first) = FileSyncServer::new();
    assert!(matches!(first, Action::Accept));
    assert!(matches!(server.step_at(failed(), now), Action::Accept));
    assert!(matches!(server.step_at(Reply::Done, now), Action::Receive));
    // While waiting for a message.
    assert!(matches!(server.step_at(failed(), now), Action::Accept));
    assert!(matches!(server.step_at(Reply::Done, now), Action::Receive));
    // While answering that the initial sync is complete: it is not announced.
    let complete = || Reply::Message {
        message: SyncMessage::InitialSyncComplete,
    };
    assert!(matches!(server.step_at(complete(), now), Action::Send { .. }));
    assert!(matches!(server.step_at(failed(), now), Action::Accept));
    assert!(matches!(server.step_at(Reply::Done, now), Action::Receive));
    assert!(matches!(server.step_at(complete(), now), Action::Send { .. }));
    assert!(matches!(server.step_at(Reply::Done, now), Action::Notify));
    assert!(matches!(server.step_at(failed(), now), Action::Receive));
    // While a changeset is received and answered.
    let started = server.step_at(
        Reply::Message {
            message: begin("/d", vec![]),
        },
        now,
    );
    assert!(matches!(started, Action::CreateDir { .. }));
    match server.step_at(failed(), now) {
        Action::Send { message } => assert_eq!(
            format!("{:?}", message),
            "ChangesetAck { directory: \"/d\", success: false, \
             error: Some(\"creating target directory /d\") }"
        ),
        other => panic!("{:?}", other),
    }
    assert!(matches!(server.step_at(failed(), now), Action::Accept));
}

/// Sends a file of the host to the enclave, reading it in small portions, and tells
/// what the host learns.
fn transfer(
    world: &mut World,
    server: &mut FileSyncServer,
    next: Action,
    content: &[u8],
    now: Moment,
) -> (Action, Result<SyncOutcome, String>) {
    let groups = group_files_by_directory(&[s("/d/a")]);
    let (mut sender, mut progress) = ChangesetSender::start(groups.entry(0).1);
    let mut next = next;
    let mut taken = 0;
    loop {
        let action = match progress {
            SendProgress::Next { action } => action,
            SendProgress::Finished { result } => return (next, result.map_err(|e| e.message())),
        };
        let reply = match action {
            SendAction::Resolve { manifest_path } => {
                assert_eq!(manifest_path, "/d/a");
                SendReply::Resolved {
                    size: content.len() as u64,
                }
            }
            SendAction::Send { message } => {
                world.incoming.push_back(message);
                SendReply::Done
            }
            SendAction::Open { .. } => SendReply::Done,
            SendAction::Read { len } => {
                let n = len.min(1000).min(content.len() - taken);
                taken += n;
                SendReply::Data {
                    bytes: content[taken - n..taken].to_vec(),
                }
            }
            SendAction::Write { bytes } => {
                world.content.extend(bytes);
                SendReply::Done
            }
            SendAction::Receive => {
                next = serve(world, server, next, now);
                SendReply::Message {
                    message: world.answer.take().unwrap(),
                }
            }
        };
        progress = sender.step(reply);
    }
}

#[test]
fn the_enclave_holds_what_the_host_read() {
    let mut world = World::default();
    let (mut server, first) = FileSyncServer::new();
    let old: Vec<u8> = (0..70_000u32).map(|i| (i % 239) as u8).collect();
    let (next, result) = transfer(&mut world, &mut server, first, &old, at(1000));
    assert_eq!(result, Ok(SyncOutcome::Acknowledged));
    assert_eq!(world.read("/d/a"), Some(&old));
    let (next, result) = transfer(&mut world, &mut server, next, b"new", at(2000));
    assert_eq!(result, Ok(SyncOutcome::Acknowledged));
    assert_eq!(world.read("/d/a"), Some(&b"new".to_vec()));
    // The host learns why a changeset was not put in place, and the files stay.
    world.log.clear();
    world.failing = Some(3);
    let (next, result) = transfer(&mut world, &mut server, next, b"lost", at(3000));
    assert_eq!(
        result,
        Err(s(
            "file sync: changeset for /d failed: creating temp file for a"
        ))
    );
    assert_eq!(world.read("/d/a"), Some(&b"new".to_vec()));
    // The connection is still in step: nothing is left over, and the next
    // changeset is put in place.
    assert!(world.content.is_empty());
    assert!(world.incoming.is_empty());
    let (_, result) = transfer(&mut world, &mut server, next, b"newest", at(4000));
    assert_eq!(result, Ok(SyncOutcome::Acknowledged));
    assert_eq!(world.read("/d/a"), Some(&b"newest".to_vec()));
}

fn clock_now() -> Moment {
    let now = std::time::SystemTime::now()
        .duration_since(std::time::UNIX_EPOCH)
        .unwrap();
    Moment {
        secs: now.as_secs() as i64,
        nanos: now.subsec_nanos(),
    }
}

#[test]
fn the_server_stamps_directories_with_the_present_time() {
    let (mut server, _) = FileSyncServer::new();
    assert!(matches!(server.step(Reply::Done), Action::Receive));
    let started = server.step(Reply::Message {
        message: begin("/d", vec![]),
    });
    assert!(matches!(started, Action::CreateDir { .. }));
    let before = format!("/d/{}", stamp_dir_name(clock_now()));
    let stamped = match server.step(Reply::Done) {
        Action::CreateDir { path } => path,
        other => panic!("{:?}", other),
    };
    let after = format!("/d/{}", stamp_dir_name(clock_now()));
    assert!(before <= stamped && stamped <= after, "{}", stamped);
}
