//! The enclave's side of the protocol: answering the host, over one connection
//! after the other.

use vstd::prelude::*;
use vstd::string::*;

use crate::actions::{Action, ActionView, Reply, ReplyView};
use crate::changeset::{
    ChangesetError, ChangesetReceiver, ChangesetView, DirectoryState, DirectoryStateView, ErrorView,
    Progress, ProgressView, Stage,
};
use crate::clock::{is_moment, utc_now, Moment};
use crate::messages::{MessageView, SyncMessage};
use crate::table::StringMap;

verus! {

/// Whether there are files to be kept in step: the manifest lists at least one.
pub fn needs_file_sync(files: &Option<Vec<String>>) -> (result: bool)
    ensures
        result == (files is Some && files->0@.len() > 0),
{
    match files {
        Some(list) => list.len() > 0,
        None => false,
    }
}

/// The message that tells the host how its changeset fared.
pub open spec fn ack_of(directory: Seq<char>, result: Result<(), ErrorView>) -> MessageView {
    MessageView::ChangesetAck {
        directory,
        success: result is Ok,
        error: match result {
            Ok(()) => None,
            Err(e) => Some(e.text()),
        },
    }
}

/// Makes the message that [`ack_of`] describes.
fn acknowledge(directory: &String, result: &Result<(), ChangesetError>) -> (message: SyncMessage)
    ensures
        message@ == ack_of(
            directory@,
            match *result {
                Ok(()) => Ok(()),
                Err(e) => Err(e@),
            },
        ),
{
    match result {
        Ok(()) => SyncMessage::ChangesetAck {
            directory: directory.clone(),
            success: true,
            error: None,
        },
        Err(e) => SyncMessage::ChangesetAck {
            directory: directory.clone(),
            success: false,
            error: Some(e.message()),
        },
    }
}

/// What the server is doing.
pub enum ServerStage {
    /// Waiting for the host to connect.
    Accepting,
    /// Waiting for a message.
    Waiting,
    /// Receiving a changeset.
    Receiving { changeset: ChangesetReceiver },
    /// Answering a changeset.
    Acking,
    /// Answering that the initial sync is complete.
    AckingInitial,
    /// Announcing that the initial sync is complete.
    Notifying,
}

/// The value of a [`ServerStage`].
#[verifier::ext_equal]
pub enum ServerStageView {
    Accepting,
    Waiting,
    Receiving { changeset: ChangesetView },
    Acking,
    AckingInitial,
    Notifying,
}

impl View for ServerStage {
    type V = ServerStageView;

    open spec fn view(&self) -> ServerStageView {
        match self {
            ServerStage::Accepting => ServerStageView::Accepting,
            ServerStage::Waiting => ServerStageView::Waiting,
            ServerStage::Receiving { changeset } => ServerStageView::Receiving {
                changeset: changeset@,
            },
            ServerStage::Acking => ServerStageView::Acking,
            ServerStage::AckingInitial => ServerStageView::AckingInitial,
            ServerStage::Notifying => ServerStageView::Notifying,
        }
    }
}

/// The value of a [`FileSyncServer`].
#[verifier::ext_equal]
pub struct ServerView {
    /// What is known of each directory.
    pub dir_state: Map<Seq<char>, DirectoryStateView>,
    /// Whether the end of the initial sync is still to be announced.
    pub notifier: bool,
    pub stage: ServerStageView,
}

impl ServerView {
    /// A server before the first connection.
    pub open spec fn initial() -> Self {
        ServerView { dir_state: Map::empty(), notifier: true, stage: ServerStageView::Accepting }
    }

    /// What is known of a directory.
    pub open spec fn state_of(self, directory: Seq<char>) -> Option<DirectoryStateView> {
        if self.dir_state.contains_key(directory) {
            Some(self.dir_state[directory])
        } else {
            None
        }
    }

    /// Goes on with `action` in `stage`.
    pub open spec fn go(self, stage: ServerStageView, action: ActionView) -> (Self, ActionView) {
        (ServerView { stage, ..self }, action)
    }

    /// Goes on with the next message.
    pub open spec fn listen(self) -> (Self, ActionView) {
        self.go(ServerStageView::Waiting, ActionView::Receive)
    }

    /// Goes on with the next connection.
    pub open spec fn reconnect(self) -> (Self, ActionView) {
        self.go(ServerStageView::Accepting, ActionView::Accept)
    }

    /// The server that takes over what a changeset left known of its directory.
    pub open spec fn learn(self, changeset: ChangesetView) -> Self {
        match changeset.state {
            Some(s) => ServerView {
                dir_state: self.dir_state.insert(changeset.directory, s),
                ..self
            },
            None => self,
        }
    }

    /// Whether `reply` can be the outcome of the operation under way.
    pub open spec fn expects(self, reply: ReplyView) -> bool {
        match self.stage {
            ServerStageView::Waiting => reply is Message || reply is Failed,
            ServerStageView::Receiving { changeset } => changeset.expects(reply),
            _ => reply is Done || reply is Failed,
        }
    }

    /// The server after `reply`, and the operation it goes on with. `now` is the
    /// time at which a changeset's directory gets its name.
    pub open spec fn step(self, reply: ReplyView, now: Moment) -> (Self, ActionView) {
        let failed = reply is Failed;
        match self.stage {
            ServerStageView::Accepting => if failed {
                self.reconnect()
            } else {
                self.listen()
            },
            ServerStageView::Waiting => if failed {
                self.reconnect()
            } else {
                match reply->Message_message {
                    MessageView::ChangesetBegin { directory, files } => self.go(
                        ServerStageView::Receiving {
                            changeset: ChangesetView::initial(
                                directory,
                                files,
                                self.state_of(directory),
                            ),
                        },
                        ActionView::CreateDir { path: directory },
                    ),
                    MessageView::InitialSyncComplete => self.go(
                        ServerStageView::AckingInitial,
                        ActionView::Send { message: MessageView::InitialSyncAck },
                    ),
                    _ => self.listen(),
                }
            },
            ServerStageView::Receiving { changeset } => match changeset.step(reply, now) {
                (after, ProgressView::Next { action }) => self.go(
                    ServerStageView::Receiving { changeset: after },
                    action,
                ),
                (after, ProgressView::Finished { result }) => self.learn(after).go(
                    ServerStageView::Acking,
                    ActionView::Send { message: ack_of(after.directory, result) },
                ),
            },
            ServerStageView::Acking => if failed {
                self.reconnect()
            } else {
                self.listen()
            },
            ServerStageView::AckingInitial => if failed {
                self.reconnect()
            } else if self.notifier {
                (ServerView { notifier: false, ..self }).go(
                    ServerStageView::Notifying,
                    ActionView::Notify,
                )
            } else {
                self.listen()
            },
            ServerStageView::Notifying => self.listen(),
        }
    }

    /// What holds of every server at every stage.
    pub open spec fn wf(self) -> bool {
        self.stage matches ServerStageView::Receiving { changeset } ==> changeset.wf()
            && changeset.stage != Stage::Finished
    }
}

/// The server that keeps the enclave's files in step with the host's.
pub struct FileSyncServer {
    dir_state: StringMap<DirectoryState>,
    notifier: bool,
    stage: ServerStage,
}

impl View for FileSyncServer {
    type V = ServerView;

    closed spec fn view(&self) -> ServerView {
        ServerView { dir_state: self.dir_state@, notifier: self.notifier, stage: self.stage@ }
    }
}

impl FileSyncServer {
    /// A server that waits for its first connection.
    pub fn new() -> (result: (Self, Action))
        ensures
            result.0@ == ServerView::initial(),
            result.0@.wf(),
            result.1@ == ActionView::Accept,
    {
        let server = FileSyncServer {
            dir_state: StringMap::new(),
            notifier: true,
            stage: ServerStage::Accepting,
        };
        (server, Action::Accept)
    }

    fn go(&mut self, stage: ServerStage, action: Action) -> (result: Action)
        ensures
            (final(self)@, result@) == old(self)@.go(stage@, action@),
    {
        self.stage = stage;
        action
    }

    fn listen(&mut self) -> (result: Action)
        ensures
            (final(self)@, result@) == old(self)@.listen(),
    {
        self.go(ServerStage::Waiting, Action::Receive)
    }

    fn reconnect(&mut self) -> (result: Action)
        ensures
            (final(self)@, result@) == old(self)@.reconnect(),
    {
        self.go(ServerStage::Accepting, Action::Accept)
    }

    /// Takes a message that arrived between changesets.
    fn handle_message(&mut self, message: SyncMessage) -> (result: Action)
        requires
            old(self)@.stage is Waiting,
        ensures
            forall|now: Moment|
                (final(self)@, result@) == #[trigger] old(self)@.step(
                    ReplyView::Message { message: message@ },
                    now,
                ),
            final(self)@.wf(),
    {
        match message {
            SyncMessage::ChangesetBegin { directory, files } => {
                let known = match self.dir_state.get(&directory) {
                    Some(s) => Some(s.clone()),
                    None => None,
                };
                let (changeset, action) = ChangesetReceiver::start(directory, files, known);
                self.go(ServerStage::Receiving { changeset }, action)
            },
            SyncMessage::InitialSyncComplete => self.go(
                ServerStage::AckingInitial,
                Action::Send { message: SyncMessage::InitialSyncAck },
            ),
            _ => self.listen(),
        }
    }

    /// Takes the outcome of an operation of the changeset that is being received.
    fn handle_changeset(
        &mut self,
        mut changeset: ChangesetReceiver,
        reply: Reply,
        now: Moment,
    ) -> (result: Action)
        requires
            changeset@.wf(),
            changeset@.expects(reply@),
            is_moment(now),
        ensures
            (final(self)@, result@) == (ServerView {
                stage: ServerStageView::Receiving { changeset: changeset@ },
                ..old(self)@
            }).step(reply@, now),
            final(self)@.wf(),
    {
        match changeset.step_at(reply, now) {
            Progress::Next { action } => self.go(ServerStage::Receiving { changeset }, action),
            Progress::Finished { result } => {
                let directory = changeset.directory().clone();
                let message = acknowledge(&directory, &result);
                match changeset.into_state() {
                    Some(s) => self.dir_state.insert(directory, s),
                    None => {},
                }
                self.go(ServerStage::Acking, Action::Send { message })
            },
        }
    }

    /// Takes the outcome of the operation under way at the time `now`, and says
    /// which operation is next.
    pub fn step_at(&mut self, reply: Reply, now: Moment) -> (result: Action)
        requires
            old(self)@.wf(),
            old(self)@.expects(reply@),
            is_moment(now),
        ensures
            (final(self)@, result@) == old(self)@.step(reply@, now),
            final(self)@.wf(),
    {
        let failed = match &reply {
            Reply::Failed { .. } => true,
            _ => false,
        };
        let mut stage = ServerStage::Waiting;
        std::mem::swap(&mut stage, &mut self.stage);
        match stage {
            ServerStage::Accepting => if failed {
                self.reconnect()
            } else {
                self.listen()
            },
            ServerStage::Waiting => match reply {
                Reply::Message { message } => self.handle_message(message),
                _ => self.reconnect(),
            },
            ServerStage::Receiving { changeset } => self.handle_changeset(changeset, reply, now),
            ServerStage::Acking => if failed {
                self.reconnect()
            } else {
                self.listen()
            },
            ServerStage::AckingInitial => if failed {
                self.reconnect()
            } else if self.notifier {
                self.notifier = false;
                self.go(ServerStage::Notifying, Action::Notify)
            } else {
                self.listen()
            },
            ServerStage::Notifying => self.listen(),
        }
    }

    /// Takes the outcome of the operation under way, and says which operation is
    /// next. The directories of changesets get their names from the clock.
    pub fn step(&mut self, reply: Reply) -> (result: Action)
        requires
            old(self)@.wf(),
            old(self)@.expects(reply@),
        ensures
            exists|now: Moment|
                is_moment(now) && (final(self)@, result@) == #[trigger] old(self)@.step(
                    reply@,
                    now,
                ),
            final(self)@.wf(),
    {
        let naming = match &self.stage {
            ServerStage::Receiving { changeset } => changeset.awaits_name(),
            _ => false,
        };
        let now = if naming {
            utc_now()
        } else {
            Moment { secs: 0, nanos: 0 }
        };
        self.step_at(reply, now)
    }
}

} // verus!
