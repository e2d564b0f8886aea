//! Laws of the server: what it answers over its whole life, over any number of
//! connections.

use vstd::prelude::*;

use crate::actions::{ActionView, ReplyView};
use crate::changeset::{ChangesetView, DirectoryStateView, ProgressView, Stage};
use crate::clock::{is_stamp_dir, stamp_dir_of, Moment};
use crate::file_sync::{ack_of, ServerStageView, ServerView};
use crate::messages::MessageView;

verus! {

/// The outcome of an operation, and the time.
#[verifier::ext_equal]
pub struct Input {
    pub reply: ReplyView,
    pub now: Moment,
}

/// A server at work: its value, the operation under way, the directories of the
/// changesets that were begun, the answers to changesets, whether the host has
/// been told that the initial sync is complete, and how often that was announced.
#[verifier::ext_equal]
pub struct Service {
    pub server: ServerView,
    pub action: ActionView,
    pub begun: Seq<Seq<char>>,
    pub answers: Seq<MessageView>,
    pub told: bool,
    pub announced: nat,
}

impl Service {
    /// A server before the first connection.
    pub open spec fn initial() -> Self {
        Service {
            server: ServerView::initial(),
            action: ActionView::Accept,
            begun: Seq::empty(),
            answers: Seq::empty(),
            told: false,
            announced: 0,
        }
    }

    /// The server after one more outcome.
    pub open spec fn advance(self, input: Input) -> Self {
        let (server, action) = self.server.step(input.reply, input.now);
        Service {
            server,
            action,
            begun: if self.server.stage is Waiting && input.reply is Message
                && input.reply->Message_message is ChangesetBegin {
                self.begun.push(input.reply->Message_message->ChangesetBegin_directory)
            } else {
                self.begun
            },
            answers: if action is Send && action->Send_message is ChangesetAck {
                self.answers.push(action->Send_message)
            } else {
                self.answers
            },
            told: self.told || (self.action == (ActionView::Send {
                message: MessageView::InitialSyncAck,
            }) && input.reply is Done),
            announced: if action is Notify {
                self.announced + 1
            } else {
                self.announced
            },
        }
    }

    /// The server after a list of outcomes.
    pub open spec fn after(self, inputs: Seq<Input>) -> Self
        decreases inputs.len(),
    {
        if inputs.len() == 0 {
            self
        } else {
            self.after(inputs.drop_last()).advance(inputs.last())
        }
    }

    /// Whether every outcome of a list can come when it comes.
    pub open spec fn admits(self, inputs: Seq<Input>) -> bool
        decreases inputs.len(),
    {
        inputs.len() == 0 || (self.admits(inputs.drop_last()) && self.after(
            inputs.drop_last(),
        ).server.expects(inputs.last().reply))
    }

    /// All that holds of a server at every point.
    spec fn inv(self) -> bool {
        &&& self.announced == (if self.server.notifier {
            0nat
        } else {
            1nat
        })
        &&& self.action is Notify ==> self.told
        &&& self.server.stage is AckingInitial ==> self.action == (ActionView::Send {
            message: MessageView::InitialSyncAck,
        })
        &&& match self.server.stage {
            ServerStageView::Receiving { changeset } => {
                &&& self.begun.len() == self.answers.len() + 1
                &&& self.begun.last() == changeset.directory
                &&& !(self.action is Send) && !(self.action is Notify)
            },
            _ => self.begun.len() == self.answers.len(),
        }
        &&& forall|i: int|
            #![trigger self.answers[i]]
            0 <= i < self.answers.len() ==> is_answer_to(self.answers[i], self.begun[i])
    }
}

/// Whether a message answers a changeset of the directory: it names it, and gives
/// a reason exactly when the changeset failed.
pub open spec fn is_answer_to(answer: MessageView, named: Seq<char>) -> bool {
    answer matches MessageView::ChangesetAck { directory, success, error } && directory == named
        && (success <==> error is None)
}

/// A changeset keeps its directory, and none of its operations answers the host.
proof fn lemma_changeset_step(c: ChangesetView, reply: ReplyView, now: Moment)
    ensures
        c.step(reply, now).0.directory == c.directory,
        c.step(reply, now).1 matches ProgressView::Next { action } ==> !(action is Send) && !(
        action is Notify),
{
}

/// Every outcome keeps the invariant.
proof fn lemma_inv_step(v: Service, input: Input)
    requires
        v.inv(),
        v.server.expects(input.reply),
    ensures
        v.advance(input).inv(),
{
    let after = v.advance(input);
    match v.server.stage {
        ServerStageView::Receiving { changeset } => {
            lemma_changeset_step(changeset, input.reply, input.now);
        },
        _ => {},
    }
    assert forall|i: int|
        #![trigger after.answers[i]]
        0 <= i < after.answers.len() implies is_answer_to(after.answers[i], after.begun[i]) by {
        if i < v.answers.len() {
            assert(after.answers[i] == v.answers[i]);
            assert(is_answer_to(v.answers[i], v.begun[i]));
        }
    }
}

/// The invariant holds at every point of every server's life.
proof fn lemma_inv(inputs: Seq<Input>)
    requires
        Service::initial().admits(inputs),
    ensures
        Service::initial().after(inputs).inv(),
    decreases inputs.len(),
{
    if inputs.len() > 0 {
        lemma_inv(inputs.drop_last());
        lemma_inv_step(Service::initial().after(inputs.drop_last()), inputs.last());
    }
}

/// Changesets are answered one by one, in the order in which they were begun:
/// each answer names the directory of its changeset, and all changesets have been
/// answered but the one that is being received.
pub proof fn law_changesets_are_answered_in_order(inputs: Seq<Input>)
    requires
        Service::initial().admits(inputs),
    ensures
        ({
            let v = Service::initial().after(inputs);
            &&& v.begun.len() == v.answers.len() + (if v.server.stage is Receiving {
                1nat
            } else {
                0nat
            })
            &&& forall|i: int|
                #![trigger v.answers[i]]
                0 <= i < v.answers.len() ==> is_answer_to(v.answers[i], v.begun[i])
        }),
{
    lemma_inv(inputs);
}

/// The end of the initial sync is announced at most once, and not before the host
/// has been told.
pub proof fn law_initial_sync_announced_once(inputs: Seq<Input>)
    requires
        Service::initial().admits(inputs),
    ensures
        Service::initial().after(inputs).announced <= 1,
        Service::initial().after(inputs).announced == 1 ==> Service::initial().after(inputs).told,
    decreases inputs.len(),
{
    lemma_inv(inputs);
    if inputs.len() > 0 {
        law_initial_sync_announced_once(inputs.drop_last());
    }
}

/// An operation of one changeset changes nothing that is known of other
/// directories, and between changesets nothing is forgotten, not even when the
/// connection is lost.
pub proof fn law_other_directories_stay_known(
    server: ServerView,
    reply: ReplyView,
    now: Moment,
    directory: Seq<char>,
)
    requires
        server.stage matches ServerStageView::Receiving { changeset } ==> changeset.directory
            != directory,
    ensures
        server.step(reply, now).0.state_of(directory) == server.state_of(directory),
{
    match server.stage {
        ServerStageView::Receiving { changeset } => {
            lemma_changeset_step(changeset, reply, now);
        },
        _ => {},
    }
}

/// A changeset that is over is answered at once, with the result it came to, and
/// what it left known of its directory is kept for the next one.
pub proof fn law_result_is_reported(
    server: ServerView,
    changeset: ChangesetView,
    reply: ReplyView,
    now: Moment,
)
    requires
        server.stage == (ServerStageView::Receiving { changeset }),
        changeset.step(reply, now).1 is Finished,
    ensures
        server.step(reply, now).1 == (ActionView::Send {
            message: ack_of(changeset.directory, changeset.step(reply, now).1->result),
        }),
        server.step(reply, now).0.state_of(changeset.directory) == match changeset.step(
            reply,
            now,
        ).0.state {
            Some(known) => Some(known),
            None => server.state_of(changeset.directory),
        },
{
    lemma_changeset_step(changeset, reply, now);
}

/// Whether a known directory has a stamped directory exactly when its links have
/// been created, and the stamped directory bears the name of one.
pub open spec fn is_stamped(state: Option<DirectoryStateView>) -> bool {
    state matches Some(known) ==> {
        &&& known.symlinks_created <==> known.current_ts_dir is Some
        &&& known.current_ts_dir matches Some(name) ==> is_stamp_dir(name)
    }
}

/// The same of what a changeset knows and adds.
spec fn changeset_is_stamped(c: ChangesetView) -> bool {
    &&& is_stamped(c.state)
    &&& c.stage != Stage::MakeTarget && c.stage != Stage::Finished ==> is_stamp_dir(c.ts_dir)
    &&& match c.stage {
        Stage::ClearLink { .. } | Stage::MakeLink { .. } => c.state is Some
            && !c.state->0.symlinks_created,
        Stage::Retire => c.state is Some && c.state->0.symlinks_created,
        _ => true,
    }
}

proof fn lemma_stamped_step(c: ChangesetView, reply: ReplyView, now: Moment)
    requires
        changeset_is_stamped(c),
        c.expects(reply),
        is_stamp_dir(stamp_dir_of(now)),
    ensures
        changeset_is_stamped(c.step(reply, now).0),
{
}

proof fn lemma_known_stamped(inputs: Seq<Input>)
    requires
        Service::initial().admits(inputs),
        forall|i: int|
            0 <= i < inputs.len() ==> is_stamp_dir(stamp_dir_of((#[trigger] inputs[i]).now)),
    ensures
        ({
            let server = Service::initial().after(inputs).server;
            &&& forall|d: Seq<char>| is_stamped(#[trigger] server.state_of(d))
            &&& server.stage matches ServerStageView::Receiving { changeset }
                ==> changeset_is_stamped(changeset)
        }),
    decreases inputs.len(),
{
    if inputs.len() > 0 {
        let fewer = inputs.drop_last();
        assert forall|i: int| 0 <= i < fewer.len() implies is_stamp_dir(
            stamp_dir_of((#[trigger] fewer[i]).now),
        ) by {
            assert(fewer[i] == inputs[i]);
        }
        lemma_known_stamped(fewer);
        let before = Service::initial().after(fewer).server;
        let after = Service::initial().after(inputs).server;
        let last = inputs.last();
        assert(last == inputs[inputs.len() - 1]);
        match before.stage {
            ServerStageView::Receiving { changeset } => {
                lemma_changeset_step(changeset, last.reply, last.now);
                lemma_stamped_step(changeset, last.reply, last.now);
                assert forall|d: Seq<char>| is_stamped(#[trigger] after.state_of(d)) by {
                    assert(is_stamped(before.state_of(d)));
                }
            },
            _ => {
                assert forall|d: Seq<char>| is_stamped(#[trigger] after.state_of(d)) by {
                    assert(is_stamped(before.state_of(d)));
                }
            },
        }
    }
}

/// What a server knows to be in place always bears the name of a stamped
/// directory, and the links to the single files have been created exactly where
/// something is known to be in place.
pub proof fn law_known_directories_are_stamped(inputs: Seq<Input>, directory: Seq<char>)
    requires
        Service::initial().admits(inputs),
        forall|i: int|
            0 <= i < inputs.len() ==> is_stamp_dir(stamp_dir_of((#[trigger] inputs[i]).now)),
    ensures
        is_stamped(Service::initial().after(inputs).server.state_of(directory)),
{
    lemma_known_stamped(inputs);
}

} // verus!
