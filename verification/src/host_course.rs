//! Laws of the course of a transfer: which operation follows which, told by what was
//! asked for and how it came out.

use vstd::prelude::*;

use crate::changeset::law_reads_fit_the_buffer;
use crate::messages::{message_text, FileEntryView, MessageView};
use crate::sender::{
    law_answers_mean_what_they_say, SendActionView, SendProgressView, SendReplyView, SendStage,
    SenderView, SyncErrorView, SyncOutcome,
};

verus! {

/// A transfer on its course: its value, how it goes on, the operations that were
/// asked for in order, reading and writing of content aside, the sizes that files
/// were found to have, and what was read of each opened file.
#[verifier::ext_equal]
pub struct HostCourse {
    pub sender: SenderView,
    pub progress: SendProgressView,
    pub asked: Seq<SendActionView>,
    pub sizes: Seq<nat>,
    pub taken: Seq<Seq<u8>>,
}

/// The operations that were asked for once it is known how a transfer goes on.
pub open spec fn asked_after(asked: Seq<SendActionView>, progress: SendProgressView) -> Seq<
    SendActionView,
> {
    match progress {
        SendProgressView::Next { action } => if action is Read || action is Write {
            asked
        } else {
            asked.push(action)
        },
        SendProgressView::Finished { .. } => asked,
    }
}

/// Whether an operation sends the message that begins a changeset of the directory,
/// with the listed files in order, each under its name and path and with its size.
pub open spec fn announces(
    action: SendActionView,
    directory: Seq<char>,
    listed: Seq<(Seq<char>, Seq<char>)>,
    sizes: Seq<nat>,
) -> bool {
    &&& action is Send
    &&& action->Send_message is ChangesetBegin
    &&& action->Send_message->ChangesetBegin_directory == directory
    &&& action->Send_message->files.len() == listed.len()
    &&& sizes.len() == listed.len()
    &&& forall|i: int|
        #![trigger action->Send_message->files[i]]
        0 <= i < listed.len() ==> action->Send_message->files[i] == (FileEntryView {
            name: listed[i].1,
            manifest_path: listed[i].0,
            size: sizes[i],
        })
}

impl HostCourse {
    /// The course before any outcome.
    pub open spec fn initial(directory: Seq<char>, listed: Seq<(Seq<char>, Seq<char>)>) -> Self {
        let (sender, progress) = SenderView::initial(directory, listed).next_resolve(0);
        HostCourse {
            sender,
            progress,
            asked: asked_after(Seq::empty(), progress),
            sizes: Seq::empty(),
            taken: Seq::empty(),
        }
    }

    /// The course after one more outcome.
    pub open spec fn advance(self, reply: SendReplyView) -> Self {
        let (sender, progress) = self.sender.step(reply);
        let action = self.progress->action;
        HostCourse {
            sender,
            progress,
            asked: asked_after(self.asked, progress),
            sizes: if reply is Resolved {
                self.sizes.push(reply->Resolved_size)
            } else {
                self.sizes
            },
            taken: if action is Open && reply is Done {
                self.taken.push(Seq::empty())
            } else if reply is Data {
                self.taken.drop_last().push(self.taken.last() + reply->Data_bytes)
            } else {
                self.taken
            },
        }
    }

    /// The course after a list of outcomes.
    pub open spec fn after(self, replies: Seq<SendReplyView>) -> Self
        decreases replies.len(),
    {
        if replies.len() == 0 {
            self
        } else {
            self.after(replies.drop_last()).advance(replies.last())
        }
    }

    /// Whether a list of outcomes can come.
    pub open spec fn admits(self, replies: Seq<SendReplyView>) -> bool
        decreases replies.len(),
    {
        replies.len() == 0 || (self.admits(replies.drop_last()) && self.after(
            replies.drop_last(),
        ).progress is Next && self.after(replies.drop_last()).sender.expects(replies.last()))
    }

    /// How many bytes of the file opened last have not been read.
    pub open spec fn missing(self) -> int {
        self.sizes[self.taken.len() - 1] - self.taken.last().len()
    }

    /// What was asked for, by its place.
    pub open spec fn is_in_order(
        self,
        directory: Seq<char>,
        listed: Seq<(Seq<char>, Seq<char>)>,
    ) -> bool {
        let n = listed.len() as int;
        let asked = self.asked;
        &&& asked.len() <= 2 * n + 3
        &&& forall|k: int|
            0 <= k < n && k < asked.len() ==> #[trigger] asked[k] == (SendActionView::Resolve {
                manifest_path: listed[k].0,
            })
        &&& n < asked.len() ==> announces(asked[n], directory, listed, self.sizes)
        &&& forall|k: int|
            n < k <= 2 * n && k < asked.len() ==> #[trigger] asked[k] == (SendActionView::Open {
                file: (k - n - 1) as nat,
            })
        &&& 2 * n + 1 < asked.len() ==> asked[2 * n + 1] == (SendActionView::Send {
            message: MessageView::ChangesetEnd { directory },
        })
        &&& 2 * n + 2 < asked.len() ==> asked[2 * n + 2] == SendActionView::Receive
    }

    /// All that holds at every point of a course.
    spec fn inv(self, directory: Seq<char>, listed: Seq<(Seq<char>, Seq<char>)>) -> bool {
        let n = listed.len() as int;
        let entries = self.sender.entries;
        let len = self.asked.len() as int;
        let action = self.progress->action;
        &&& self.sender.wf()
        &&& self.sender.directory == directory
        &&& self.sender.listed == listed
        &&& self.is_in_order(directory, listed)
        &&& self.sizes.len() == entries.len()
        &&& forall|i: int|
            #![trigger entries[i]]
            0 <= i < entries.len() ==> entries[i].size == self.sizes[i]
        &&& self.progress is Finished <==> self.sender.stage == SendStage::Finished
        &&& match self.sender.stage {
            SendStage::Resolving { file } => len == file + 1 && action == self.asked.last()
                && self.taken.len() == 0,
            SendStage::Beginning => len == n + 1 && action == self.asked.last()
                && self.taken.len() == 0,
            SendStage::Opening { file } => len == n + 2 + file && action == self.asked.last()
                && self.taken.len() == file,
            SendStage::Reading { file, remaining } => len == n + 2 + file && self.taken.len() == file
                + 1 && self.missing() == remaining && action is Read && action->len
                == if remaining <= 65536 {
                remaining as nat
            } else {
                65536
            },
            SendStage::Writing { file, remaining } => len == n + 2 + file && self.taken.len() == file
                + 1 && self.missing() == remaining && action is Write,
            SendStage::Ending => len == 2 * n + 2 && action == self.asked.last(),
            SendStage::AwaitAck => len == 2 * n + 3 && action == self.asked.last(),
            SendStage::Finished => true,
        }
    }
}

#[verifier::rlimit(40)]
proof fn lemma_inv_step(
    c: HostCourse,
    directory: Seq<char>,
    listed: Seq<(Seq<char>, Seq<char>)>,
    reply: SendReplyView,
)
    requires
        listed.len() <= usize::MAX,
        c.inv(directory, listed),
        c.progress is Next,
        c.sender.expects(reply),
    ensures
        c.advance(reply).inv(directory, listed),
{
    let after = c.advance(reply);
    match c.sender.stage {
        SendStage::Opening { file } => {
            law_reads_fit_the_buffer(c.sender.entries[file as int].size);
        },
        SendStage::Reading { file, remaining } => {
            law_reads_fit_the_buffer(remaining as nat);
        },
        SendStage::Writing { file, remaining } => {
            law_reads_fit_the_buffer(remaining as nat);
        },
        _ => {},
    }
}

proof fn lemma_inv(
    directory: Seq<char>,
    listed: Seq<(Seq<char>, Seq<char>)>,
    replies: Seq<SendReplyView>,
)
    requires
        listed.len() <= usize::MAX,
        HostCourse::initial(directory, listed).admits(replies),
    ensures
        HostCourse::initial(directory, listed).after(replies).inv(directory, listed),
    decreases replies.len(),
{
    let start = HostCourse::initial(directory, listed);
    if replies.len() > 0 {
        lemma_inv(directory, listed, replies.drop_last());
        lemma_inv_step(start.after(replies.drop_last()), directory, listed, replies.last());
    }
}

/// The operations of a transfer come in one order: all files are resolved, in the
/// order of the listing; the message that begins the changeset announces them,
/// with the sizes they were found to have; then the files are opened, the first
/// one first; the message that ends the changeset follows, and its answer is
/// received. Content is read and written only of the file that was opened last,
/// so what is read for the entry `i` is read of the file that was resolved for it.
pub proof fn law_files_are_sent_one_after_the_other(
    directory: Seq<char>,
    listed: Seq<(Seq<char>, Seq<char>)>,
    replies: Seq<SendReplyView>,
)
    requires
        listed.len() <= usize::MAX,
        HostCourse::initial(directory, listed).admits(replies),
    ensures
        ({
            let c = HostCourse::initial(directory, listed).after(replies);
            &&& c.is_in_order(directory, listed)
            &&& c.asked.len() > 0
            &&& c.progress matches SendProgressView::Next { action } ==> if action is Read
                || action is Write {
                &&& c.taken.len() > 0
                &&& c.asked.last() == (SendActionView::Open { file: (c.taken.len() - 1) as nat })
            } else {
                c.asked.last() == action
            }
        }),
{
    lemma_inv(directory, listed, replies);
    let c = HostCourse::initial(directory, listed).after(replies);
    lemma_asked_something(directory, listed, replies);
}

proof fn lemma_asked_something(
    directory: Seq<char>,
    listed: Seq<(Seq<char>, Seq<char>)>,
    replies: Seq<SendReplyView>,
)
    ensures
        HostCourse::initial(directory, listed).after(replies).asked.len() > 0,
    decreases replies.len(),
{
    if replies.len() > 0 {
        lemma_asked_something(directory, listed, replies.drop_last());
    }
}

/// Whether a reply can be the outcome of an operation.
pub open spec fn send_reply_fits(action: SendActionView, reply: SendReplyView) -> bool {
    reply is Failed || match action {
        SendActionView::Resolve { .. } => reply is Resolved && reply->Resolved_size <= u64::MAX,
        SendActionView::Read { len } => reply is Data && reply->Data_bytes.len() <= len,
        SendActionView::Receive => reply is Message,
        _ => reply is Done,
    }
}

/// Whether a transfer goes on with the operation that is next in order.
pub open spec fn is_next_in_order(before: HostCourse, after: HostCourse) -> bool {
    &&& after.asked.len() == before.asked.len() + 1
    &&& after.progress == (SendProgressView::Next { action: after.asked.last() })
}

/// Whether a transfer goes on with reading as much as is missing, at most what the
/// buffer holds, or with what is next in order where nothing is missing.
pub open spec fn is_reading_on(before: HostCourse, after: HostCourse) -> bool {
    if after.missing() > 0 {
        after.progress == (SendProgressView::Next {
            action: SendActionView::Read {
                len: if after.missing() <= 65536 {
                    after.missing() as nat
                } else {
                    65536
                },
            },
        })
    } else {
        is_next_in_order(before, after)
    }
}

/// How a transfer answers each outcome. A file that cannot be resolved ends it
/// without an error; any other failure ends it with one. What is read is written
/// as it is, until the announced size or the end of the file is reached; then the
/// next operation in order follows. The answer of the enclave settles the result.
#[verifier::rlimit(40)]
pub proof fn law_transfer_goes_on(
    directory: Seq<char>,
    listed: Seq<(Seq<char>, Seq<char>)>,
    replies: Seq<SendReplyView>,
    reply: SendReplyView,
)
    requires
        listed.len() <= usize::MAX,
        HostCourse::initial(directory, listed).admits(replies),
        HostCourse::initial(directory, listed).after(replies).progress is Next,
    ensures
        ({
            let c = HostCourse::initial(directory, listed).after(replies);
            let action = c.progress->action;
            let after = c.advance(reply);
            &&& c.sender.expects(reply) <==> send_reply_fits(action, reply)
            &&& send_reply_fits(action, reply) ==> match reply {
                SendReplyView::Failed { reason } => after.progress == (SendProgressView::Finished {
                    result: match action {
                        SendActionView::Resolve { .. } => Ok(SyncOutcome::Skipped),
                        SendActionView::Open { file } => Err(
                            SyncErrorView::OpenFile {
                                manifest_path: listed[file as int].0,
                                reason,
                            },
                        ),
                        _ => Err(SyncErrorView::Io { reason }),
                    },
                }),
                SendReplyView::Resolved { size } => is_next_in_order(c, after),
                SendReplyView::Done => if action is Send {
                    is_next_in_order(c, after)
                } else {
                    is_reading_on(c, after)
                },
                SendReplyView::Data { bytes } => if bytes.len() == 0 {
                    is_next_in_order(c, after)
                } else {
                    after.progress == (SendProgressView::Next {
                        action: SendActionView::Write { bytes },
                    })
                },
                SendReplyView::Message { message } => after.progress == (
                SendProgressView::Finished {
                    result: match message {
                        MessageView::ChangesetAck { success, error, .. } => if success {
                            Ok(SyncOutcome::Acknowledged)
                        } else {
                            Err(
                                SyncErrorView::Rejected {
                                    directory,
                                    reason: if error is Some {
                                        error->0
                                    } else {
                                        "unknown error"@
                                    },
                                },
                            )
                        },
                        _ => Err(SyncErrorView::UnexpectedMessage { got: message_text(message) }),
                    },
                }),
            }
        }),
{
    lemma_inv(directory, listed, replies);
    let c = HostCourse::initial(directory, listed).after(replies);
    if send_reply_fits(c.progress->action, reply) {
        lemma_inv_step(c, directory, listed, reply);
    }
    match c.sender.stage {
        SendStage::Opening { file } => {
            law_reads_fit_the_buffer(c.sender.entries[file as int].size);
        },
        SendStage::Reading { file, remaining } => {
            law_reads_fit_the_buffer(remaining as nat);
        },
        SendStage::Writing { file, remaining } => {
            law_reads_fit_the_buffer(remaining as nat);
        },
        SendStage::AwaitAck => {
            if reply is Message {
                let message = reply->Message_message;
                law_answers_mean_what_they_say(
                    directory,
                    message->ChangesetAck_directory,
                    message->error,
                    message->error->0,
                    message,
                );
            }
        },
        _ => {},
    }
}

} // verus!
