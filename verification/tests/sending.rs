use enclaver::files::{group_files_by_directory, DirectoryGroup};
use enclaver::messages::SyncMessage;
use enclaver::sender::{
    initial_sync_complete, judge_ack, judge_initial_ack, ChangesetSender, SendAction, SendProgress,
    SendReply, SyncError, SyncOutcome,
};

fn s(text: &str) -> String {
    text.to_string()
}

fn group(paths: &[&str]) -> DirectoryGroup {
    let paths: Vec<String> = paths.iter().map(|p| p.to_string()).collect();
    let groups = group_files_by_directory(&paths);
    assert_eq!(groups.len(), 1);
    groups.entry(0).1.clone()
}

fn ack(success: bool, error: Option<&str>) -> SyncMessage {
    SyncMessage::ChangesetAck {
        directory: s("/other"),
        success,
        error: error.map(s),
    }
}

/// A host: the contents of its files, and what it has put on the connection.
struct Host {
    files: Vec<(String, Vec<u8>)>,
    /// Most bytes that a read gives.
    portion: usize,
    /// Sizes told in place of the true ones.
    told: Option<u64>,
    answer: Option<SyncMessage>,
    /// Which operation fails, counted from the first.
    failing: Option<usize>,
    resolved: Vec<usize>,
    open: usize,
    at: usize,
    operations: usize,
    messages: Vec<String>,
    content: Vec<u8>,
    /// What was put on the connection, in order.
    written: Vec<&'static str>,
}

impl Host {
    fn new(files: &[(&str, &[u8])]) -> Self {
        Host {
            files: files.iter().map(|(p, c)| (s(p), c.to_vec())).collect(),
            portion: usize::MAX,
            told: None,
            answer: Some(ack(true, None)),
            failing: None,
            resolved: Vec::new(),
            open: 0,
            at: 0,
            operations: 0,
            messages: Vec::new(),
            content: Vec::new(),
            written: Vec::new(),
        }
    }

    fn perform(&mut self, action: SendAction) -> SendReply {
        let number = self.operations;
        self.operations += 1;
        if self.failing == Some(number) {
            return SendReply::Failed { reason: s("broken") };
        }
        match action {
            SendAction::Resolve { manifest_path } => {
                match self.files.iter().position(|f| f.0 == manifest_path) {
                    Some(i) => {
                        self.resolved.push(i);
                        SendReply::Resolved {
                            size: self.told.unwrap_or(self.files[i].1.len() as u64),
                        }
                    }
                    None => SendReply::Failed { reason: s("absent") },
                }
            }
            SendAction::Send { message } => {
                self.messages.push(format!("{:?}", message));
                self.written.push("message");
                SendReply::Done
            }
            SendAction::Open { file } => {
                self.open = self.resolved[file];
                self.at = 0;
                SendReply::Done
            }
            SendAction::Read { len } => {
                let rest = &self.files[self.open].1[self.at..];
                let n = len.min(rest.len()).min(self.portion);
                self.at += n;
                SendReply::Data {
                    bytes: rest[..n].to_vec(),
                }
            }
            SendAction::Write { bytes } => {
                self.content.extend(bytes);
                self.written.push("content");
                SendReply::Done
            }
            SendAction::Receive => match self.answer.take() {
                Some(message) => SendReply::Message { message },
                None => SendReply::Failed { reason: s("closed") },
            },
        }
    }

    fn send(&mut self, group: &DirectoryGroup) -> Result<SyncOutcome, SyncError> {
        let (mut sender, mut progress) = ChangesetSender::start(group);
        loop {
            match progress {
                SendProgress::Next { action } => {
                    let reply = self.perform(action);
                    progress = sender.step(reply);
                }
                SendProgress::Finished { result } => return result,
            }
        }
    }
}

fn text(result: Result<SyncOutcome, SyncError>) -> String {
    match result {
        Ok(outcome) => panic!("{:?}", outcome),
        Err(error) => error.message(),
    }
}

#[test]
fn a_group_is_sent_between_two_messages() {
    let mut host = Host::new(&[("/d/a", b"hello"), ("/d/b", b""), ("/d/c", b"world!")]);
    let result = host.send(&group(&["/d/a", "/d/b", "/d/c"]));
    assert_eq!(result.unwrap(), SyncOutcome::Acknowledged);
    assert_eq!(
        host.messages,
        vec![
            s("ChangesetBegin { directory: \"/d\", files: [\
               FileEntry { name: \"a\", manifest_path: \"/d/a\", size: 5 }, \
               FileEntry { name: \"b\", manifest_path: \"/d/b\", size: 0 }, \
               FileEntry { name: \"c\", manifest_path: \"/d/c\", size: 6 }] }"),
            s("ChangesetEnd { directory: \"/d\" }"),
        ]
    );
    assert_eq!(host.content, b"helloworld!");
    assert_eq!(
        host.written,
        vec!["message", "content", "content", "message"]
    );
}

#[test]
fn a_group_without_files_is_sent_too() {
    let mut host = Host::new(&[]);
    let mut empty = group(&["/d/a"]);
    assert_eq!(empty.files.remove(&s("/d/a")), Some(s("a")));
    assert_eq!(host.send(&empty).unwrap(), SyncOutcome::Acknowledged);
    assert_eq!(
        host.messages,
        vec![
            s("ChangesetBegin { directory: \"/d\", files: [] }"),
            s("ChangesetEnd { directory: \"/d\" }"),
        ]
    );
    assert_eq!(host.operations, 3);
}

#[test]
fn content_is_sent_as_it_is_read() {
    let long: Vec<u8> = (0..200_000u32).map(|i| (i % 253) as u8).collect();
    for portion in [7, 1000, 65536, usize::MAX] {
        let mut host = Host::new(&[("/d/a", &long)]);
        host.portion = portion;
        let result = host.send(&group(&["/d/a"]));
        assert_eq!(result.unwrap(), SyncOutcome::Acknowledged);
        assert_eq!(host.content, long);
        assert!(host.operations <= 2 * long.len() + 2 + 3);
    }
    let mut host = Host::new(&[("/d/a", &long)]);
    host.send(&group(&["/d/a"])).unwrap();
    // Resolve, begin, open, four reads and writes, end, receive.
    assert_eq!(host.operations, 3 + 2 * 4 + 2);
}

#[test]
fn no_more_than_the_announced_size_is_sent() {
    let mut host = Host::new(&[("/d/a", b"0123456789")]);
    host.told = Some(4);
    host.send(&group(&["/d/a"])).unwrap();
    assert_eq!(host.content, b"0123");
}

#[test]
fn a_file_that_has_shrunk_is_sent_as_far_as_it_goes() {
    let mut host = Host::new(&[("/d/a", b"01"), ("/d/b", b"xy")]);
    host.told = Some(4);
    let result = host.send(&group(&["/d/a", "/d/b"]));
    assert_eq!(result.unwrap(), SyncOutcome::Acknowledged);
    assert_eq!(host.content, b"01xy");
}

#[test]
fn a_missing_file_skips_the_whole_group() {
    let mut host = Host::new(&[("/d/a", b"hello")]);
    let result = host.send(&group(&["/d/a", "/d/absent"]));
    assert_eq!(result.unwrap(), SyncOutcome::Skipped);
    assert!(host.messages.is_empty());
    assert!(host.content.is_empty());
}

#[test]
fn each_operation_can_fail() {
    let files: &[(&str, &[u8])] = &[("/d/a", b"hello")];
    // Resolve, begin, open, read, write, end, receive.
    let expected = [
        None,
        Some("broken"),
        Some("opening file /d/a for sync"),
        Some("broken"),
        Some("broken"),
        Some("broken"),
        Some("broken"),
    ];
    for (i, message) in expected.iter().enumerate() {
        let mut host = Host::new(files);
        host.failing = Some(i);
        let result = host.send(&group(&["/d/a"]));
        match message {
            None => assert_eq!(result.unwrap(), SyncOutcome::Skipped),
            Some(message) => {
                let error = result.unwrap_err();
                assert_eq!(&error.message(), message);
                // Only the message of a file that cannot be opened hides why.
                let cause = if i == 2 { Some(s("broken")) } else { None };
                assert_eq!(error.cause(), cause);
            }
        }
        assert_eq!(host.operations, i + 1);
    }
    let mut host = Host::new(files);
    host.failing = Some(expected.len());
    assert_eq!(
        host.send(&group(&["/d/a"])).unwrap(),
        SyncOutcome::Acknowledged
    );
}

#[test]
fn answers_to_a_changeset() {
    let judge = |answer: SyncMessage| judge_ack(&s("/d"), answer);
    assert_eq!(judge(ack(true, None)).unwrap(), SyncOutcome::Acknowledged);
    assert_eq!(
        judge(ack(true, Some("ignored"))).unwrap(),
        SyncOutcome::Acknowledged
    );
    assert_eq!(
        text(judge(ack(false, Some("disk full")))),
        "file sync: changeset for /d failed: disk full"
    );
    assert_eq!(
        text(judge(ack(false, None))),
        "file sync: changeset for /d failed: unknown error"
    );
    assert!(matches!(
        judge(ack(false, None)),
        Err(SyncError::Rejected { .. })
    ));
    assert_eq!(
        text(judge(SyncMessage::InitialSyncAck)),
        "file sync: unexpected message after changeset: InitialSyncAck"
    );
    assert_eq!(
        text(judge(SyncMessage::ChangesetEnd {
            directory: s("a\"b")
        })),
        "file sync: unexpected message after changeset: ChangesetEnd { directory: \"a\\\"b\" }"
    );
}

#[test]
fn a_rejected_changeset_is_an_error() {
    let mut host = Host::new(&[("/d/a", b"hello")]);
    host.answer = Some(ack(false, Some("creating ..data_tmp symlink")));
    assert_eq!(
        text(host.send(&group(&["/d/a"]))),
        "file sync: changeset for /d failed: creating ..data_tmp symlink"
    );
    let mut host = Host::new(&[("/d/a", b"hello")]);
    host.answer = None;
    assert_eq!(text(host.send(&group(&["/d/a"]))), "closed");
}

#[test]
fn the_initial_sync_is_announced_and_acknowledged() {
    assert!(matches!(
        initial_sync_complete(),
        SyncMessage::InitialSyncComplete
    ));
    assert!(judge_initial_ack(SyncMessage::InitialSyncAck).is_ok());
    assert_eq!(
        judge_initial_ack(SyncMessage::InitialSyncComplete)
            .unwrap_err()
            .message(),
        "file sync: unexpected message after InitialSyncComplete: InitialSyncComplete"
    );
    assert_eq!(
        judge_initial_ack(ack(true, None)).unwrap_err().message(),
        "file sync: unexpected message after InitialSyncComplete: \
         ChangesetAck { directory: \"/other\", success: true, error: None }"
    );
}
