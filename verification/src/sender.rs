//! The host's side of the protocol: sending a directory group as a changeset.

use vstd::prelude::*;
use vstd::string::*;

use crate::changeset::{chunk, chunk_len};
use crate::files::DirectoryGroup;
use crate::messages::{
    copy_entries, entry_views, message_text, option_view, FileEntry, FileEntryView, MessageView,
    SyncMessage,
};

verus! {

/// An operation of the host.
#[derive(Debug)]
pub enum SendAction {
    /// Find the file that a path of the manifest leads to, and its size.
    Resolve { manifest_path: String },
    /// Send a message.
    Send { message: SyncMessage },
    /// Open a resolved file, by its position in the changeset.
    Open { file: usize },
    /// Read at most `len` bytes of the open file.
    Read { len: usize },
    /// Send content bytes, all of them.
    Write { bytes: Vec<u8> },
    /// Receive a message.
    Receive,
}

/// The outcome of an operation of the host.
#[derive(Debug)]
pub enum SendReply {
    /// It succeeded.
    Done,
    /// The file was found and has this size.
    Resolved { size: u64 },
    /// These bytes were read; none at the end of the file.
    Data { bytes: Vec<u8> },
    /// This message was received.
    Message { message: SyncMessage },
    /// It failed, for this reason.
    Failed { reason: String },
}

/// How a transfer that did not fail ended.
#[derive(Clone, Copy, Debug, PartialEq, Eq, Structural)]
pub enum SyncOutcome {
    /// A file was not there; nothing was sent.
    Skipped,
    /// The enclave has put the changeset in place.
    Acknowledged,
}

/// Why a transfer failed. Where an operation failed, `reason` is what it gave as
/// its reason.
#[derive(Debug)]
pub enum SyncError {
    Rejected { directory: String, reason: String },
    UnexpectedMessage { got: String },
    UnexpectedInitialReply { got: String },
    OpenFile { manifest_path: String, reason: String },
    /// An operation failed that has nothing to add to its reason.
    Io { reason: String },
}

/// The value of a [`SendAction`].
#[verifier::ext_equal]
pub enum SendActionView {
    Resolve { manifest_path: Seq<char> },
    Send { message: MessageView },
    Open { file: nat },
    Read { len: nat },
    Write { bytes: Seq<u8> },
    Receive,
}

/// The value of a [`SendReply`].
#[verifier::ext_equal]
pub enum SendReplyView {
    Done,
    Resolved { size: nat },
    Data { bytes: Seq<u8> },
    Message { message: MessageView },
    Failed { reason: Seq<char> },
}

/// The value of a [`SyncError`].
#[verifier::ext_equal]
pub enum SyncErrorView {
    Rejected { directory: Seq<char>, reason: Seq<char> },
    UnexpectedMessage { got: Seq<char> },
    UnexpectedInitialReply { got: Seq<char> },
    OpenFile { manifest_path: Seq<char>, reason: Seq<char> },
    Io { reason: Seq<char> },
}

impl View for SendAction {
    type V = SendActionView;

    open spec fn view(&self) -> SendActionView {
        match self {
            SendAction::Resolve { manifest_path } => SendActionView::Resolve {
                manifest_path: manifest_path@,
            },
            SendAction::Send { message } => SendActionView::Send { message: message@ },
            SendAction::Open { file } => SendActionView::Open { file: *file as nat },
            SendAction::Read { len } => SendActionView::Read { len: *len as nat },
            SendAction::Write { bytes } => SendActionView::Write { bytes: bytes@ },
            SendAction::Receive => SendActionView::Receive,
        }
    }
}

impl View for SendReply {
    type V = SendReplyView;

    open spec fn view(&self) -> SendReplyView {
        match self {
            SendReply::Done => SendReplyView::Done,
            SendReply::Resolved { size } => SendReplyView::Resolved { size: *size as nat },
            SendReply::Data { bytes } => SendReplyView::Data { bytes: bytes@ },
            SendReply::Message { message } => SendReplyView::Message { message: message@ },
            SendReply::Failed { reason } => SendReplyView::Failed { reason: reason@ },
        }
    }
}

impl View for SyncError {
    type V = SyncErrorView;

    open spec fn view(&self) -> SyncErrorView {
        match self {
            SyncError::Rejected { directory, reason } => SyncErrorView::Rejected {
                directory: directory@,
                reason: reason@,
            },
            SyncError::UnexpectedMessage { got } => SyncErrorView::UnexpectedMessage { got: got@ },
            SyncError::UnexpectedInitialReply { got } => SyncErrorView::UnexpectedInitialReply {
                got: got@,
            },
            SyncError::OpenFile { manifest_path, reason } => SyncErrorView::OpenFile {
                manifest_path: manifest_path@,
                reason: reason@,
            },
            SyncError::Io { reason } => SyncErrorView::Io { reason: reason@ },
        }
    }
}

impl SyncErrorView {
    /// The text of the error.
    pub open spec fn text(self) -> Seq<char> {
        match self {
            SyncErrorView::Rejected { directory, reason } => "file sync: changeset for "@
                + directory + " failed: "@ + reason,
            SyncErrorView::UnexpectedMessage {
                got,
            } => "file sync: unexpected message after changeset: "@ + got,
            SyncErrorView::UnexpectedInitialReply {
                got,
            } => "file sync: unexpected message after InitialSyncComplete: "@ + got,
            SyncErrorView::OpenFile { manifest_path, .. } => "opening file "@ + manifest_path
                + " for sync"@,
            SyncErrorView::Io { reason } => reason,
        }
    }

    /// What is behind the error: the reason of the operation that failed, where
    /// the text does not give it already.
    pub open spec fn cause(self) -> Option<Seq<char>> {
        match self {
            SyncErrorView::OpenFile { reason, .. } => Some(reason),
            _ => None,
        }
    }
}

impl SyncError {
    /// The text of the error.
    pub fn message(&self) -> (result: String)
        ensures
            result@ == self@.text(),
    {
        match self {
            SyncError::Rejected { directory, reason } => {
                "file sync: changeset for ".to_owned().concat(directory.as_str()).concat(
                    " failed: ",
                ).concat(reason.as_str())
            },
            SyncError::UnexpectedMessage { got } => {
                "file sync: unexpected message after changeset: ".to_owned().concat(got.as_str())
            },
            SyncError::UnexpectedInitialReply { got } => {
                "file sync: unexpected message after InitialSyncComplete: ".to_owned().concat(
                    got.as_str(),
                )
            },
            SyncError::OpenFile { manifest_path, .. } => "opening file ".to_owned().concat(
                manifest_path.as_str(),
            ).concat(" for sync"),
            SyncError::Io { reason } => reason.clone(),
        }
    }

    /// What is behind the error, where [`SyncError::message`] does not give it
    /// already.
    pub fn cause(&self) -> (result: Option<String>)
        ensures
            option_view(result) == self@.cause(),
    {
        match self {
            SyncError::OpenFile { reason, .. } => Some(reason.clone()),
            _ => None,
        }
    }
}

/// How a transfer goes on: with an operation, or not at all.
#[derive(Debug)]
pub enum SendProgress {
    Next { action: SendAction },
    Finished { result: Result<SyncOutcome, SyncError> },
}

/// The value of a [`SendProgress`].
#[verifier::ext_equal]
pub enum SendProgressView {
    Next { action: SendActionView },
    Finished { result: Result<SyncOutcome, SyncErrorView> },
}

impl View for SendProgress {
    type V = SendProgressView;

    open spec fn view(&self) -> SendProgressView {
        match self {
            SendProgress::Next { action } => SendProgressView::Next { action: action@ },
            SendProgress::Finished { result } => SendProgressView::Finished {
                result: match result {
                    Ok(outcome) => Ok(*outcome),
                    Err(e) => Err(e@),
                },
            },
        }
    }
}

/// Which operation of a transfer is under way.
#[derive(Clone, Copy, Debug, PartialEq, Eq, Structural)]
pub enum SendStage {
    /// Resolving a file.
    Resolving { file: usize },
    /// Sending the message that begins the changeset.
    Beginning,
    /// Opening a file.
    Opening { file: usize },
    /// Reading content of which `remaining` bytes are missing.
    Reading { file: usize, remaining: u64 },
    /// Sending content, after which `remaining` bytes are missing.
    Writing { file: usize, remaining: u64 },
    /// Sending the message that ends the changeset.
    Ending,
    /// Receiving the answer.
    AwaitAck,
    /// The transfer is over.
    Finished,
}

/// Whether `listed` enumerates the files of a group, each once.
pub open spec fn lists_files(
    listed: Seq<(Seq<char>, Seq<char>)>,
    files: Map<Seq<char>, Seq<char>>,
) -> bool {
    &&& forall|i: int, j: int|
        0 <= i < j < listed.len() ==> (#[trigger] listed[i]).0 != (#[trigger] listed[j]).0
    &&& forall|i: int|
        0 <= i < listed.len() ==> files.contains_key((#[trigger] listed[i]).0)
            && files[listed[i].0] == listed[i].1
    &&& forall|p: Seq<char>| #[trigger]
        files.contains_key(p) ==> exists|i: int|
            0 <= i < listed.len() && (#[trigger] listed[i]).0 == p
}

/// What the answer to a changeset means for the host. The directory that it names
/// makes no difference.
pub open spec fn ack_result(directory: Seq<char>, answer: MessageView) -> Result<
    SyncOutcome,
    SyncErrorView,
> {
    match answer {
        MessageView::ChangesetAck { directory: _, success: true, error: _ } => Ok(
            SyncOutcome::Acknowledged,
        ),
        MessageView::ChangesetAck { directory: _, success: false, error } => Err(
            SyncErrorView::Rejected {
                directory,
                reason: match error {
                    Some(reason) => reason,
                    None => "unknown error"@,
                },
            },
        ),
        other => Err(SyncErrorView::UnexpectedMessage { got: message_text(other) }),
    }
}

/// Decides what the answer to a changeset means, as [`ack_result`] says.
pub fn judge_ack(directory: &String, answer: SyncMessage) -> (result: Result<
    SyncOutcome,
    SyncError,
>)
    ensures
        match result {
            Ok(outcome) => ack_result(directory@, answer@) == Ok::<SyncOutcome, SyncErrorView>(
                outcome,
            ),
            Err(e) => ack_result(directory@, answer@) == Err::<SyncOutcome, SyncErrorView>(e@),
        },
{
    match answer {
        SyncMessage::ChangesetAck { directory: _, success, error } => if success {
            Ok(SyncOutcome::Acknowledged)
        } else {
            let reason = match error {
                Some(reason) => reason,
                None => "unknown error".to_owned(),
            };
            Err(SyncError::Rejected { directory: directory.clone(), reason })
        },
        other => Err(SyncError::UnexpectedMessage { got: other.describe() }),
    }
}

/// The message that ends the initial sync.
pub fn initial_sync_complete() -> (result: SyncMessage)
    ensures
        result@ == MessageView::InitialSyncComplete,
{
    SyncMessage::InitialSyncComplete
}

/// Decides whether the answer to [`initial_sync_complete`] is the one it calls
/// for.
pub fn judge_initial_ack(answer: SyncMessage) -> (result: Result<(), SyncError>)
    ensures
        match result {
            Ok(()) => answer@ is InitialSyncAck,
            Err(e) => !(answer@ is InitialSyncAck) && e@ == (SyncErrorView::UnexpectedInitialReply {
                got: message_text(answer@),
            }),
        },
{
    match answer {
        SyncMessage::InitialSyncAck => Ok(()),
        other => Err(SyncError::UnexpectedInitialReply { got: other.describe() }),
    }
}

/// The value of a transfer.
#[verifier::ext_equal]
pub struct SenderView {
    pub directory: Seq<char>,
    /// The files of the group: path in the manifest, and file name.
    pub listed: Seq<(Seq<char>, Seq<char>)>,
    /// The files that have been resolved.
    pub entries: Seq<FileEntryView>,
    pub stage: SendStage,
}

impl SenderView {
    /// A transfer of which nothing has been done.
    pub open spec fn initial(directory: Seq<char>, listed: Seq<(Seq<char>, Seq<char>)>) -> Self {
        SenderView {
            directory,
            listed,
            entries: Seq::empty(),
            stage: SendStage::Resolving { file: 0 },
        }
    }

    /// Goes on with `action` in `stage`.
    pub open spec fn go(self, stage: SendStage, action: SendActionView) -> (
        Self,
        SendProgressView,
    ) {
        (SenderView { stage, ..self }, SendProgressView::Next { action })
    }

    /// Ends with `result`.
    pub open spec fn end(self, result: Result<SyncOutcome, SyncErrorView>) -> (
        Self,
        SendProgressView,
    ) {
        (
            SenderView { stage: SendStage::Finished, ..self },
            SendProgressView::Finished { result },
        )
    }

    /// Goes on with resolving the file `i`; behind the last one, the changeset
    /// begins.
    pub open spec fn next_resolve(self, i: int) -> (Self, SendProgressView) {
        if i < self.listed.len() {
            self.go(
                SendStage::Resolving { file: i as usize },
                SendActionView::Resolve { manifest_path: self.listed[i].0 },
            )
        } else {
            self.go(
                SendStage::Beginning,
                SendActionView::Send {
                    message: MessageView::ChangesetBegin {
                        directory: self.directory,
                        files: self.entries,
                    },
                },
            )
        }
    }

    /// Goes on with the content of the file `i`; behind the last one, the
    /// changeset ends.
    pub open spec fn next_file(self, i: int) -> (Self, SendProgressView) {
        if i < self.entries.len() {
            self.go(
                SendStage::Opening { file: i as usize },
                SendActionView::Open { file: i as nat },
            )
        } else {
            self.go(
                SendStage::Ending,
                SendActionView::Send {
                    message: MessageView::ChangesetEnd { directory: self.directory },
                },
            )
        }
    }

    /// Goes on with reading the file `i`, of which `remaining` bytes are missing.
    pub open spec fn next_chunk(self, i: int, remaining: nat) -> (Self, SendProgressView) {
        if remaining > 0 {
            self.go(
                SendStage::Reading { file: i as usize, remaining: remaining as u64 },
                SendActionView::Read { len: chunk_len(remaining) },
            )
        } else {
            self.next_file(i + 1)
        }
    }

    /// Whether `reply` can be the outcome of the operation under way.
    pub open spec fn expects(self, reply: SendReplyView) -> bool {
        match self.stage {
            SendStage::Resolving { file } => match reply {
                SendReplyView::Resolved { size } => size <= u64::MAX,
                SendReplyView::Failed { reason } => true,
                _ => false,
            },
            SendStage::Reading { file, remaining } => match reply {
                SendReplyView::Data { bytes } => bytes.len() <= chunk_len(remaining as nat),
                SendReplyView::Failed { reason } => true,
                _ => false,
            },
            SendStage::AwaitAck => reply is Message || reply is Failed,
            SendStage::Finished => false,
            _ => reply is Done || reply is Failed,
        }
    }

    /// The transfer after `reply`, and how it goes on.
    pub open spec fn step(self, reply: SendReplyView) -> (Self, SendProgressView) {
        let failed = reply is Failed;
        let io = SyncErrorView::Io { reason: reply->Failed_reason };
        match self.stage {
            SendStage::Resolving { file } => if failed {
                self.end(Ok(SyncOutcome::Skipped))
            } else {
                let entry = FileEntryView {
                    name: self.listed[file as int].1,
                    manifest_path: self.listed[file as int].0,
                    size: reply->Resolved_size,
                };
                (SenderView { entries: self.entries.push(entry), ..self }).next_resolve(file + 1)
            },
            SendStage::Beginning => if failed {
                self.end(Err(io))
            } else {
                self.next_file(0)
            },
            SendStage::Opening { file } => if failed {
                self.end(
                    Err(
                        SyncErrorView::OpenFile {
                            manifest_path: self.entries[file as int].manifest_path,
                            reason: reply->Failed_reason,
                        },
                    ),
                )
            } else {
                self.next_chunk(file as int, self.entries[file as int].size)
            },
            SendStage::Reading { file, remaining } => if failed {
                self.end(Err(io))
            } else if reply->Data_bytes.len() == 0 {
                self.next_file(file + 1)
            } else {
                self.go(
                    SendStage::Writing {
                        file,
                        remaining: (remaining - reply->Data_bytes.len()) as u64,
                    },
                    SendActionView::Write { bytes: reply->Data_bytes },
                )
            },
            SendStage::Writing { file, remaining } => if failed {
                self.end(Err(io))
            } else {
                self.next_chunk(file as int, remaining as nat)
            },
            SendStage::Ending => if failed {
                self.end(Err(io))
            } else {
                self.go(SendStage::AwaitAck, SendActionView::Receive)
            },
            SendStage::AwaitAck => if failed {
                self.end(Err(io))
            } else {
                self.end(ack_result(self.directory, reply->Message_message))
            },
            SendStage::Finished => self.end(Ok(SyncOutcome::Skipped)),
        }
    }

    /// What holds of every transfer at every stage.
    pub open spec fn wf(self) -> bool {
        &&& self.listed.len() <= usize::MAX
        &&& self.entries.len() <= self.listed.len()
        &&& forall|i: int|
            0 <= i < self.entries.len() ==> (#[trigger] self.entries[i]).size <= u64::MAX
        &&& forall|i: int|
            #![trigger self.entries[i]]
            0 <= i < self.entries.len() ==> self.entries[i].manifest_path == self.listed[i].0
                && self.entries[i].name == self.listed[i].1
        &&& match self.stage {
            SendStage::Resolving { file } => file < self.listed.len() && self.entries.len() == file,
            SendStage::Finished => true,
            _ => self.entries.len() == self.listed.len(),
        }
        &&& match self.stage {
            SendStage::Opening { file } => file < self.entries.len(),
            SendStage::Reading { file, remaining } => file < self.entries.len() && 0 < remaining
                <= self.entries[file as int].size,
            SendStage::Writing { file, remaining } => file < self.entries.len() && remaining
                < self.entries[file as int].size,
            _ => true,
        }
    }
}

/// The transfer of a directory group.
pub struct ChangesetSender {
    directory: String,
    listed: Vec<(String, String)>,
    entries: Vec<FileEntry>,
    stage: SendStage,
}

/// The values of a list of pairs of strings.
pub open spec fn pair_views(pairs: Seq<(String, String)>) -> Seq<(Seq<char>, Seq<char>)> {
    pairs.map_values(|p: (String, String)| (p.0@, p.1@))
}

impl View for ChangesetSender {
    type V = SenderView;

    closed spec fn view(&self) -> SenderView {
        SenderView {
            directory: self.directory@,
            listed: pair_views(self.listed@),
            entries: entry_views(self.entries@),
            stage: self.stage,
        }
    }
}

impl ChangesetSender {
    /// Begins to send a group: its files are resolved first.
    pub fn start(group: &DirectoryGroup) -> (result: (Self, SendProgress))
        ensures
            result.0@.wf(),
            lists_files(result.0@.listed, group@.files),
            (result.0@, result.1@) == SenderView::initial(
                group@.directory,
                result.0@.listed,
            ).next_resolve(0),
    {
        let mut listed: Vec<(String, String)> = Vec::new();
        let n: usize = group.files.len();
        let ghost pairs = group.files.pairs();
        let mut i: usize = 0;
        while i < n
            invariant
                i <= n,
                n == pairs.len(),
                pairs == group.files.pairs(),
                listed@ == pairs.take(i as int),
            decreases n - i,
        {
            let (manifest_path, filename) = group.files.entry(i);
            listed.push((manifest_path.clone(), filename.clone()));
            i = i + 1;
        }
        proof {
            assert(listed@ =~= pairs);
            let views = pair_views(listed@);
            assert forall|a: int, b: int| 0 <= a < b < views.len() implies (#[trigger] views[a]).0
                != (#[trigger] views[b]).0 by {
                assert(pairs[a].0@ != pairs[b].0@);
            }
            assert forall|a: int| 0 <= a < views.len() implies group@.files.contains_key(
                (#[trigger] views[a]).0,
            ) && group@.files[views[a].0] == views[a].1 by {
                assert(group@.files.contains_key(pairs[a].0@));
            }
            assert forall|p: Seq<char>| #[trigger] group@.files.contains_key(p) implies exists|
                a: int,
            |
                0 <= a < views.len() && (#[trigger] views[a]).0 == p by {
                let a = choose|a: int| 0 <= a < pairs.len() && #[trigger] pairs[a].0@ == p;
                assert(views[a].0 == p);
            }
            assert(lists_files(views, group@.files));
            assert(entry_views(Seq::<FileEntry>::empty()) =~= Seq::empty());
            assert(listed.len() == views.len());
        }
        let mut sender = ChangesetSender {
            directory: group.directory.clone(),
            listed,
            entries: Vec::new(),
            stage: SendStage::Resolving { file: 0 },
        };
        let progress = sender.next_resolve(0);
        (sender, progress)
    }

    fn go(&mut self, stage: SendStage, action: SendAction) -> (result: SendProgress)
        ensures
            (final(self)@, result@) == old(self)@.go(stage, action@),
    {
        self.stage = stage;
        SendProgress::Next { action }
    }

    fn end(&mut self, result: Result<SyncOutcome, SyncError>) -> (progress: SendProgress)
        ensures
            (final(self)@, progress@) == old(self)@.end(
                match result {
                    Ok(outcome) => Ok(outcome),
                    Err(e) => Err(e@),
                },
            ),
    {
        self.stage = SendStage::Finished;
        SendProgress::Finished { result }
    }

    fn fail(&mut self, reason: String) -> (progress: SendProgress)
        ensures
            (final(self)@, progress@) == old(self)@.end(
                Err(SyncErrorView::Io { reason: reason@ }),
            ),
    {
        self.end(Err(SyncError::Io { reason }))
    }

    fn next_resolve(&mut self, i: usize) -> (result: SendProgress)
        ensures
            (final(self)@, result@) == old(self)@.next_resolve(i as int),
    {
        if i < self.listed.len() {
            let manifest_path = self.listed[i].0.clone();
            self.go(SendStage::Resolving { file: i }, SendAction::Resolve { manifest_path })
        } else {
            let message = SyncMessage::ChangesetBegin {
                directory: self.directory.clone(),
                files: copy_entries(&self.entries),
            };
            self.go(SendStage::Beginning, SendAction::Send { message })
        }
    }

    fn next_file(&mut self, i: usize) -> (result: SendProgress)
        ensures
            (final(self)@, result@) == old(self)@.next_file(i as int),
    {
        if i < self.entries.len() {
            self.go(SendStage::Opening { file: i }, SendAction::Open { file: i })
        } else {
            let message = SyncMessage::ChangesetEnd { directory: self.directory.clone() };
            self.go(SendStage::Ending, SendAction::Send { message })
        }
    }

    fn next_chunk(&mut self, i: usize, remaining: u64) -> (result: SendProgress)
        requires
            i < old(self)@.entries.len() <= usize::MAX,
        ensures
            (final(self)@, result@) == old(self)@.next_chunk(i as int, remaining as nat),
    {
        if remaining > 0 {
            let len = chunk(remaining as u128);
            self.go(SendStage::Reading { file: i, remaining }, SendAction::Read { len })
        } else {
            self.next_file(i + 1)
        }
    }

    /// Takes the outcome of the operation under way, and says how the transfer
    /// goes on.
    pub fn step(&mut self, reply: SendReply) -> (result: SendProgress)
        requires
            old(self)@.wf(),
            old(self)@.expects(reply@),
        ensures
            (final(self)@, result@) == old(self)@.step(reply@),
            final(self)@.wf(),
    {
        match self.stage {
            SendStage::Resolving { file } => match reply {
                SendReply::Resolved { size } => {
                    let entry = FileEntry {
                        name: self.listed[file].1.clone(),
                        manifest_path: self.listed[file].0.clone(),
                        size,
                    };
                    let ghost before = self.entries@;
                    self.entries.push(entry);
                    proof {
                        assert(entry_views(before.push(entry)) =~= entry_views(before).push(
                            entry@,
                        ));
                    }
                    self.next_resolve(file + 1)
                },
                _ => self.end(Ok(SyncOutcome::Skipped)),
            },
            SendStage::Beginning => match reply {
                SendReply::Failed { reason } => self.fail(reason),
                _ => self.next_file(0),
            },
            SendStage::Opening { file } => match reply {
                SendReply::Failed { reason } => {
                    let manifest_path = self.entries[file].manifest_path.clone();
                    self.end(Err(SyncError::OpenFile { manifest_path, reason }))
                },
                _ => {
                    let size = self.entries[file].size;
                    self.next_chunk(file, size)
                },
            },
            SendStage::Reading { file, remaining } => match reply {
                SendReply::Data { bytes } => if bytes.len() == 0 {
                    self.next_file(file + 1)
                } else {
                    let left: u64 = remaining - bytes.len() as u64;
                    self.go(
                        SendStage::Writing { file, remaining: left },
                        SendAction::Write { bytes },
                    )
                },
                SendReply::Failed { reason } => self.fail(reason),
                _ => self.next_file(file + 1),
            },
            SendStage::Writing { file, remaining } => match reply {
                SendReply::Failed { reason } => self.fail(reason),
                _ => self.next_chunk(file, remaining),
            },
            SendStage::Ending => match reply {
                SendReply::Failed { reason } => self.fail(reason),
                _ => self.go(SendStage::AwaitAck, SendAction::Receive),
            },
            SendStage::AwaitAck => match reply {
                SendReply::Message { message } => {
                    let result = judge_ack(&self.directory, message);
                    self.end(result)
                },
                SendReply::Failed { reason } => self.fail(reason),
                _ => self.end(Ok(SyncOutcome::Skipped)),
            },
            SendStage::Finished => self.end(Ok(SyncOutcome::Skipped)),
        }
    }
}

/// What each error says, and the reason that is behind it.
pub proof fn law_transfer_errors_are_told(
    directory: Seq<char>,
    manifest_path: Seq<char>,
    got: Seq<char>,
    reason: Seq<char>,
)
    ensures
        (SyncErrorView::Rejected { directory, reason }).text() == "file sync: changeset for "@
            + directory + " failed: "@ + reason,
        (SyncErrorView::UnexpectedMessage { got }).text()
            == "file sync: unexpected message after changeset: "@ + got,
        (SyncErrorView::UnexpectedInitialReply { got }).text()
            == "file sync: unexpected message after InitialSyncComplete: "@ + got,
        (SyncErrorView::OpenFile { manifest_path, reason }).text() == "opening file "@
            + manifest_path + " for sync"@,
        (SyncErrorView::Io { reason }).text() == reason,
        (SyncErrorView::Rejected { directory, reason }).cause() is None,
        (SyncErrorView::UnexpectedMessage { got }).cause() is None,
        (SyncErrorView::UnexpectedInitialReply { got }).cause() is None,
        (SyncErrorView::OpenFile { manifest_path, reason }).cause() == Some(reason),
        (SyncErrorView::Io { reason }).cause() is None,
{
}

/// What the answer to a changeset means: success is success, a failure is told
/// with its reason, and any other message is unexpected. The directory that the
/// answer names makes no difference.
pub proof fn law_answers_mean_what_they_say(
    directory: Seq<char>,
    named: Seq<char>,
    error: Option<Seq<char>>,
    reason: Seq<char>,
    other: MessageView,
)
    ensures
        ack_result(
            directory,
            MessageView::ChangesetAck { directory: named, success: true, error },
        ) == Ok::<SyncOutcome, SyncErrorView>(SyncOutcome::Acknowledged),
        ack_result(
            directory,
            MessageView::ChangesetAck { directory: named, success: false, error: Some(reason) },
        ) == Err::<SyncOutcome, SyncErrorView>(SyncErrorView::Rejected { directory, reason }),
        ack_result(
            directory,
            MessageView::ChangesetAck { directory: named, success: false, error: None },
        ) == Err::<SyncOutcome, SyncErrorView>(
            SyncErrorView::Rejected { directory, reason: "unknown error"@ },
        ),
        !(other is ChangesetAck) ==> ack_result(directory, other) == Err::<
            SyncOutcome,
            SyncErrorView,
        >(SyncErrorView::UnexpectedMessage { got: message_text(other) }),
{
}

/// A listing of the files of a group holds each of them once, under its path and
/// with its name, and nothing else.
pub proof fn law_listing_is_complete(
    listed: Seq<(Seq<char>, Seq<char>)>,
    files: Map<Seq<char>, Seq<char>>,
    p: Seq<char>,
    i: int,
    j: int,
)
    requires
        lists_files(listed, files),
    ensures
        files.contains_key(p) <==> exists|k: int|
            0 <= k < listed.len() && (#[trigger] listed[k]).0 == p,
        0 <= i < listed.len() ==> listed[i].1 == files[listed[i].0],
        0 <= i < j < listed.len() ==> listed[i].0 != listed[j].0,
{
    if exists|k: int| 0 <= k < listed.len() && (#[trigger] listed[k]).0 == p {
        let k = choose|k: int| 0 <= k < listed.len() && (#[trigger] listed[k]).0 == p;
        assert(files.contains_key(listed[k].0));
    }
}

/// The values of operations, outcomes, errors and of how a transfer goes on hold
/// all that these hold.
pub proof fn law_transfer_values(
    action: SendAction,
    reply: SendReply,
    e: SyncError,
    outcome: SyncOutcome,
)
    ensures
        match action {
            SendAction::Resolve { manifest_path } => action@ == (SendActionView::Resolve {
                manifest_path: manifest_path@,
            }),
            SendAction::Send { message } => action@ == (SendActionView::Send { message: message@ }),
            SendAction::Open { file } => action@ == (SendActionView::Open { file: file as nat }),
            SendAction::Read { len } => action@ == (SendActionView::Read { len: len as nat }),
            SendAction::Write { bytes } => action@ == (SendActionView::Write { bytes: bytes@ }),
            SendAction::Receive => action@ is Receive,
        },
        match reply {
            SendReply::Done => reply@ is Done,
            SendReply::Resolved { size } => reply@ == (SendReplyView::Resolved {
                size: size as nat,
            }),
            SendReply::Data { bytes } => reply@ == (SendReplyView::Data { bytes: bytes@ }),
            SendReply::Message { message } => reply@ == (SendReplyView::Message {
                message: message@,
            }),
            SendReply::Failed { reason } => reply@ == (SendReplyView::Failed { reason: reason@ }),
        },
        match e {
            SyncError::Rejected { directory, reason } => e@ == (SyncErrorView::Rejected {
                directory: directory@,
                reason: reason@,
            }),
            SyncError::UnexpectedMessage { got } => e@ == (SyncErrorView::UnexpectedMessage {
                got: got@,
            }),
            SyncError::UnexpectedInitialReply { got } => e@ == (
            SyncErrorView::UnexpectedInitialReply { got: got@ }),
            SyncError::OpenFile { manifest_path, reason } => e@ == (SyncErrorView::OpenFile {
                manifest_path: manifest_path@,
                reason: reason@,
            }),
            SyncError::Io { reason } => e@ == (SyncErrorView::Io { reason: reason@ }),
        },
        (SendProgress::Next { action })@ == (SendProgressView::Next { action: action@ }),
        (SendProgress::Finished { result: Ok(outcome) })@ == (SendProgressView::Finished {
            result: Ok(outcome),
        }),
        (SendProgress::Finished { result: Err(e) })@ == (SendProgressView::Finished {
            result: Err(e@),
        }),
{
}

} // verus!
