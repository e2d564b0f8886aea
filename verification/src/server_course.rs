//! Laws of the course of the server: which operation follows which, over all its
//! connections, told by what was asked for and how it came out.

use vstd::prelude::*;

use crate::actions::{ActionView, ReplyView};
use crate::changeset::{
    chunk_len, lemma_sizes_bounded, ChangesetView, DirectoryStateView, ProgressView, Stage,
};
use crate::clock::{is_stamp_dir, stamp_dir_of, Moment};
use crate::enclave_course::reply_fits;
use crate::file_sync::{ServerStageView, ServerView};
use crate::messages::{FileEntryView, MessageView};
use crate::outcome::law_every_operation_counts;

verus! {

/// A changeset that is being received: its value and how it goes on.
#[verifier::ext_equal]
pub struct Reading {
    pub changeset: ChangesetView,
    pub progress: ProgressView,
}

/// A server on its course: its value, the operation under way, what the changesets
/// have left known of their directories, the changeset that is being received, and
/// whether the end of the initial sync has been announced.
#[verifier::ext_equal]
pub struct ServerCourse {
    pub server: ServerView,
    pub action: ActionView,
    pub known: Map<Seq<char>, DirectoryStateView>,
    pub reading: Option<Reading>,
    pub announced: bool,
}

/// The outcome of an operation, and the time.
#[verifier::ext_equal]
pub struct Event {
    pub reply: ReplyView,
    pub now: Moment,
}

/// What is known of a directory.
pub open spec fn known_of(known: Map<Seq<char>, DirectoryStateView>, directory: Seq<char>) -> Option<
    DirectoryStateView,
> {
    if known.contains_key(directory) {
        Some(known[directory])
    } else {
        None
    }
}

/// A changeset of the directory that is begun.
pub open spec fn begun(
    directory: Seq<char>,
    files: Seq<FileEntryView>,
    state: Option<DirectoryStateView>,
) -> Reading {
    Reading {
        changeset: ChangesetView::initial(directory, files, state),
        progress: ProgressView::Next { action: ActionView::CreateDir { path: directory } },
    }
}

impl Reading {
    /// The changeset after one more outcome.
    pub open spec fn advance(self, event: Event) -> Self {
        let (changeset, progress) = self.changeset.step(event.reply, event.now);
        Reading { changeset, progress }
    }
}

impl ServerCourse {
    /// The course before the first connection.
    pub open spec fn initial() -> Self {
        ServerCourse {
            server: ServerView::initial(),
            action: ActionView::Accept,
            known: Map::empty(),
            reading: None,
            announced: false,
        }
    }

    /// The course after one more outcome.
    pub open spec fn advance(self, event: Event) -> Self {
        let (server, action) = self.server.step(event.reply, event.now);
        let next = self.reading->0.advance(event);
        ServerCourse {
            server,
            action,
            known: if self.reading is Some && next.progress is Finished && next.changeset.state
                is Some {
                self.known.insert(self.reading->0.changeset.directory, next.changeset.state->0)
            } else {
                self.known
            },
            reading: if self.reading is Some {
                if next.progress is Finished {
                    None
                } else {
                    Some(next)
                }
            } else if self.action is Receive && event.reply is Message
                && event.reply->Message_message is ChangesetBegin {
                let directory = event.reply->Message_message->ChangesetBegin_directory;
                let files = event.reply->Message_message->files;
                Some(begun(directory, files, known_of(self.known, directory)))
            } else {
                None
            },
            announced: self.announced || action is Notify,
        }
    }

    /// The course after a list of outcomes.
    pub open spec fn after(self, events: Seq<Event>) -> Self
        decreases events.len(),
    {
        if events.len() == 0 {
            self
        } else {
            self.after(events.drop_last()).advance(events.last())
        }
    }

    /// Whether a list of outcomes can come. Messages hold what a machine can hold,
    /// and every time can be stamped.
    pub open spec fn admits(self, events: Seq<Event>) -> bool
        decreases events.len(),
    {
        events.len() == 0 || (self.admits(events.drop_last()) && self.after(
            events.drop_last(),
        ).server.expects(events.last().reply) && is_sound(events.last()))
    }

    /// All that holds at every point of a course.
    spec fn inv(self) -> bool {
        &&& self.known == self.server.dir_state
        &&& self.announced == !self.server.notifier
        &&& match self.server.stage {
            ServerStageView::Accepting => self.action is Accept && self.reading is None,
            ServerStageView::Waiting => self.action is Receive && self.reading is None,
            ServerStageView::Receiving { changeset } => {
                &&& self.reading is Some
                &&& self.reading->0.changeset == changeset
                &&& self.reading->0.progress == (ProgressView::Next { action: self.action })
                &&& changeset.wf()
                &&& changeset.stage != Stage::Finished
                &&& action_fits_stage(changeset.stage, self.action)
            },
            ServerStageView::Acking => self.reading is None && self.action is Send
                && self.action->Send_message is ChangesetAck,
            ServerStageView::AckingInitial => self.reading is None && self.action == (
            ActionView::Send { message: MessageView::InitialSyncAck }),
            ServerStageView::Notifying => self.reading is None && self.action is Notify,
        }
    }
}

/// Whether an outcome is one that a machine can hand over: its numbers are within
/// the machine's limits, and the time can be stamped.
pub open spec fn is_sound(event: Event) -> bool {
    &&& is_stamp_dir(stamp_dir_of(event.now))
    &&& event.reply is Message && event.reply->Message_message is ChangesetBegin ==> {
        let files = event.reply->Message_message->files;
        &&& files.len() <= usize::MAX
        &&& forall|i: int| 0 <= i < files.len() ==> (#[trigger] files[i]).size <= u64::MAX
    }
}

/// Whether an operation of a changeset has the kind of outcomes that are expected
/// at a stage.
spec fn action_fits_stage(stage: Stage, action: ActionView) -> bool {
    match stage {
        Stage::ReadChunk { remaining, .. } => action == (ActionView::ReadExact {
            len: chunk_len(remaining as nat),
        }),
        Stage::Skip { unread } => action == (ActionView::ReadExact {
            len: chunk_len(unread as nat),
        }),
        Stage::AwaitEnd | Stage::Drain => action is Receive,
        _ => !(action is ReadExact) && !(action is Receive),
    }
}

proof fn lemma_action_fits(c: ChangesetView, reply: ReplyView, now: Moment)
    requires
        c.wf(),
        c.expects(reply),
    ensures
        c.step(reply, now).1 matches ProgressView::Next { action } ==> action_fits_stage(
            c.step(reply, now).0.stage,
            action,
        ) && c.step(reply, now).0.stage != Stage::Finished,
        c.step(reply, now).0.directory == c.directory,
{
    lemma_sizes_bounded(c);
}

#[verifier::rlimit(40)]
proof fn lemma_inv_step(c: ServerCourse, event: Event)
    requires
        c.inv(),
        c.server.expects(event.reply),
        is_sound(event),
    ensures
        c.advance(event).inv(),
{
    match c.server.stage {
        ServerStageView::Receiving { changeset } => {
            lemma_action_fits(changeset, event.reply, event.now);
            law_every_operation_counts(changeset, event.reply, event.now);
        },
        _ => {},
    }
}

proof fn lemma_inv(events: Seq<Event>)
    requires
        ServerCourse::initial().admits(events),
    ensures
        ServerCourse::initial().after(events).inv(),
    decreases events.len(),
{
    if events.len() > 0 {
        lemma_inv(events.drop_last());
        lemma_inv_step(ServerCourse::initial().after(events.drop_last()), events.last());
    }
}

/// How the server answers each outcome between changesets. A connection is followed
/// by its first message, every message by the next one once it has been answered,
/// and a failed one by the next connection. A changeset that begins is received
/// for its own directory, with its own files and what is known of that directory;
/// that the initial sync is complete is acknowledged, and announced the first
/// time; other messages are passed over.
pub proof fn law_server_goes_on(events: Seq<Event>, event: Event)
    requires
        ServerCourse::initial().admits(events),
        is_sound(event),
        ServerCourse::initial().after(events).reading is None,
    ensures
        ({
            let c = ServerCourse::initial().after(events);
            let next = c.advance(event).action;
            &&& c.server.expects(event.reply) <==> reply_fits(c.action, event.reply)
            &&& reply_fits(c.action, event.reply) ==> match event.reply {
                ReplyView::Failed { .. } => if c.action is Notify {
                    next == ActionView::Receive
                } else {
                    next == ActionView::Accept
                },
                ReplyView::Message { message } => match message {
                    MessageView::ChangesetBegin { directory, files } => {
                        &&& next == (ActionView::CreateDir { path: directory })
                        &&& c.advance(event).reading == Some(
                            begun(directory, files, known_of(c.known, directory)),
                        )
                    },
                    MessageView::InitialSyncComplete => next == (ActionView::Send {
                        message: MessageView::InitialSyncAck,
                    }),
                    _ => next == ActionView::Receive,
                },
                _ => if c.action == (ActionView::Send { message: MessageView::InitialSyncAck })
                    && !c.announced {
                    next == ActionView::Notify
                } else {
                    next == ActionView::Receive
                },
            }
        }),
{
    lemma_inv(events);
}

/// While a changeset is received, the server asks for the changeset's operations and
/// no others. Once it is over, the host is told its result at once: success, or the
/// text of the error.
pub proof fn law_server_receives_changesets(events: Seq<Event>, event: Event)
    requires
        ServerCourse::initial().admits(events),
        is_sound(event),
        ServerCourse::initial().after(events).reading is Some,
    ensures
        ({
            let c = ServerCourse::initial().after(events);
            let reading = c.reading->0;
            let next = c.advance(event).action;
            &&& reading.progress == (ProgressView::Next { action: c.action })
            &&& c.server.expects(event.reply) <==> reply_fits(c.action, event.reply)
            &&& reply_fits(c.action, event.reply) ==> match reading.advance(event).progress {
                ProgressView::Next { action } => next == action,
                ProgressView::Finished { result } => next == (ActionView::Send {
                    message: MessageView::ChangesetAck {
                        directory: reading.changeset.directory,
                        success: result is Ok,
                        error: if result is Ok {
                            None
                        } else {
                            Some(result->Err_0.text())
                        },
                    },
                }),
            }
        }),
{
    lemma_inv(events);
    let c = ServerCourse::initial().after(events);
    if c.server.expects(event.reply) {
        lemma_action_fits(c.reading->0.changeset, event.reply, event.now);
    }
}

/// A connection is given up only when an operation on it has failed: whenever the
/// server waits for a connection, either it has just been started, or the outcome
/// it was given last is a failure. And after the host has been answered, the next
/// message is received on the same connection.
pub proof fn law_connection_is_kept(events: Seq<Event>)
    requires
        ServerCourse::initial().admits(events),
        events.len() > 0,
    ensures
        ({
            let before = ServerCourse::initial().after(events.drop_last());
            let c = ServerCourse::initial().after(events);
            &&& c.action is Accept ==> events.last().reply is Failed
            &&& before.action is Send && events.last().reply is Done ==> c.action is Receive
                || c.action is Notify
            &&& before.action is Notify ==> c.action is Receive
        }),
{
    let before = ServerCourse::initial().after(events.drop_last());
    lemma_inv(events.drop_last());
    lemma_inv(events);
    if before.reading is Some {
        law_server_receives_changesets(events.drop_last(), events.last());
        lemma_action_fits(
            before.reading->0.changeset,
            events.last().reply,
            events.last().now,
        );
        lemma_no_talk(before.reading->0.changeset, events.last().reply, events.last().now);
        lemma_quiet(events.drop_last());
    }
}

/// No operation of a changeset concerns the connection as a whole.
proof fn lemma_no_talk(c: ChangesetView, reply: ReplyView, now: Moment)
    ensures
        c.step(reply, now).1 matches ProgressView::Next { action } ==> !(action is Accept) && !(
        action is Send) && !(action is Notify),
{
}

proof fn lemma_quiet(events: Seq<Event>)
    requires
        ServerCourse::initial().admits(events),
    ensures
        ServerCourse::initial().after(events).reading is Some ==> {
            let action = ServerCourse::initial().after(events).action;
            !(action is Accept) && !(action is Send) && !(action is Notify)
        },
    decreases events.len(),
{
    if events.len() > 0 {
        let before = ServerCourse::initial().after(events.drop_last());
        lemma_inv(events.drop_last());
        lemma_inv(events);
        lemma_quiet(events.drop_last());
        if before.reading is Some {
            lemma_no_talk(before.reading->0.changeset, events.last().reply, events.last().now);
        }
    }
}

} // verus!
