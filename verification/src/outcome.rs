//! Laws of receiving a changeset: that it comes to an end, when it succeeds, and
//! what it takes off the connection.

use vstd::prelude::*;

use crate::actions::ReplyView;
use crate::changeset::{
    lemma_sizes_bounded, ChangesetView, DirectoryStateView, ErrorView, ProgressView, Stage,
};
use crate::clock::{is_stamp_dir, stamp_dir_of, Moment};
use crate::json_transport::{first_message, frame_of, law_frame_round_trip, MAX_BODY};
use crate::messages::{FileEntryView, MessageView};
use crate::sizes::{lemma_offset_order, lemma_offset_step, offset, total_size};

verus! {

/// The changeset after a list of outcomes.
pub open spec fn changeset_after(c: ChangesetView, replies: Seq<ReplyView>, now: Moment) -> (
    ChangesetView,
    ProgressView,
)
    recommends
        replies.len() > 0,
    decreases replies.len(),
{
    if replies.len() <= 1 {
        c.step(replies.last(), now)
    } else {
        changeset_after(c, replies.drop_last(), now).0.step(replies.last(), now)
    }
}

/// Whether every outcome of a list can come when it comes.
pub open spec fn changeset_admits(c: ChangesetView, replies: Seq<ReplyView>, now: Moment) -> bool
    decreases replies.len(),
{
    if replies.len() <= 1 {
        replies.len() == 1 ==> c.expects(replies.last())
    } else {
        changeset_admits(c, replies.drop_last(), now) && changeset_after(
            c,
            replies.drop_last(),
            now,
        ).0.expects(replies.last())
    }
}

/// The most operations that can follow before a changeset is over.
pub open spec fn operations_left(c: ChangesetView) -> int {
    let n = c.files.len() as int;
    let links = 2 * n + 5;
    match c.stage {
        Stage::MakeTarget => links + contents_left(c.files, 0) + 2,
        Stage::MakeStamped => links + contents_left(c.files, 0) + 1,
        Stage::CreateTemp { file } => links + contents_left(c.files, file as int),
        Stage::ReadChunk { file, remaining } => links + contents_left(c.files, file + 1) + 2 + 2
            * remaining,
        Stage::WriteChunk { file, remaining } => links + contents_left(c.files, file + 1) + 3 + 2
            * remaining,
        Stage::Flush { file } => links + contents_left(c.files, file + 1) + 2,
        Stage::RenameTemp { file } => links + contents_left(c.files, file + 1) + 1,
        Stage::Discard { unread } => 2 + unread,
        Stage::Skip { unread } => 1 + unread,
        Stage::Drain => 1,
        Stage::AwaitEnd => links,
        Stage::Reject => 1,
        Stage::DropStale => links - 1,
        Stage::LinkData => links - 2,
        Stage::SwapData => links - 3,
        Stage::ClearLink { file } => 2 * (n - file) + 1,
        Stage::MakeLink { file } => 2 * (n - file),
        Stage::Retire => 1,
        Stage::Finished => 0,
    }
}

/// The most operations that storing the files from `i` on can take.
pub open spec fn contents_left(files: Seq<FileEntryView>, i: int) -> int {
    2 * (total_size(files) - offset(files, i)) + 3 * (files.len() - i)
}

/// Every operation brings a changeset closer to its end.
#[verifier::rlimit(50)]
pub proof fn law_every_operation_counts(c: ChangesetView, reply: ReplyView, now: Moment)
    requires
        c.wf(),
        c.expects(reply),
    ensures
        0 <= operations_left(c.step(reply, now).0) < operations_left(c),
        c.step(reply, now).0.files == c.files,
        is_stamp_dir(stamp_dir_of(now)) ==> c.step(reply, now).0.wf(),
{
    let n = c.files.len() as int;
    assert(c.files.take(n) =~= c.files);
    assert(c.files.take(0).len() == 0);
    lemma_offset_order(c.files, 0, n);
    lemma_sizes_bounded(c);
    match c.stage {
        Stage::CreateTemp { file }
        | Stage::ReadChunk { file, .. }
        | Stage::WriteChunk { file, .. }
        | Stage::Flush { file }
        | Stage::RenameTemp { file } => {
            lemma_offset_step(c.files, file as int);
            lemma_offset_order(c.files, file as int, n);
            lemma_offset_order(c.files, file + 1, n);
        },
        _ => {},
    }
}

/// A changeset is over after a number of operations that its files settle,
/// whatever the outcomes: it cannot go on for ever.
pub proof fn law_changeset_ends(
    directory: Seq<char>,
    files: Seq<FileEntryView>,
    state: Option<DirectoryStateView>,
    replies: Seq<ReplyView>,
    now: Moment,
)
    requires
        ChangesetView::initial(directory, files, state).wf(),
        is_stamp_dir(stamp_dir_of(now)),
        changeset_admits(ChangesetView::initial(directory, files, state), replies, now),
    ensures
        replies.len() <= 2 * total_size(files) + 5 * files.len() + 7,
{
    let start = ChangesetView::initial(directory, files, state);
    assert(files.take(0).len() == 0);
    if replies.len() > 0 {
        lemma_operations_spent(start, replies, now);
    }
    lemma_offset_order(files, 0, files.len() as int);
}

proof fn lemma_operations_spent(c: ChangesetView, replies: Seq<ReplyView>, now: Moment)
    requires
        c.wf(),
        is_stamp_dir(stamp_dir_of(now)),
        replies.len() > 0,
        changeset_admits(c, replies, now),
    ensures
        changeset_after(c, replies, now).0.wf(),
        0 <= operations_left(changeset_after(c, replies, now).0),
        operations_left(changeset_after(c, replies, now).0) + replies.len() <= operations_left(c),
    decreases replies.len(),
{
    if replies.len() == 1 {
        law_every_operation_counts(c, replies.last(), now);
    } else {
        lemma_operations_spent(c, replies.drop_last(), now);
        law_every_operation_counts(
            changeset_after(c, replies.drop_last(), now).0,
            replies.last(),
            now,
        );
    }
}

/// Whether an outcome is a good one: nothing failed, and a message that came is
/// the one that ends a changeset of the directory.
pub open spec fn is_good(reply: ReplyView, directory: Seq<char>) -> bool {
    match reply {
        ReplyView::Failed { reason } => false,
        ReplyView::Message { message } => message == (MessageView::ChangesetEnd { directory }),
        _ => true,
    }
}

/// A changeset never fails by itself: while all outcomes are good, it goes on or
/// succeeds.
pub proof fn law_good_outcomes_succeed(
    directory: Seq<char>,
    files: Seq<FileEntryView>,
    state: Option<DirectoryStateView>,
    replies: Seq<ReplyView>,
    now: Moment,
)
    requires
        replies.len() > 0,
        changeset_admits(ChangesetView::initial(directory, files, state), replies, now),
        forall|i: int| 0 <= i < replies.len() ==> is_good(#[trigger] replies[i], directory),
    ensures
        changeset_after(ChangesetView::initial(directory, files, state), replies, now).1 matches
            ProgressView::Finished { result } ==> result is Ok,
{
    lemma_stays_good(ChangesetView::initial(directory, files, state), replies, now);
}

/// Whether a changeset has not been given up.
spec fn is_on_course(c: ChangesetView) -> bool {
    !(c.stage is Discard) && !(c.stage is Skip) && c.stage != Stage::Drain && c.stage
        != Stage::Reject
}

proof fn lemma_stays_good(c: ChangesetView, replies: Seq<ReplyView>, now: Moment)
    requires
        is_on_course(c),
        replies.len() > 0,
        changeset_admits(c, replies, now),
        forall|i: int| 0 <= i < replies.len() ==> is_good(#[trigger] replies[i], c.directory),
    ensures
        is_on_course(changeset_after(c, replies, now).0),
        changeset_after(c, replies, now).0.directory == c.directory,
        changeset_after(c, replies, now).1 matches ProgressView::Finished { result } ==> result
            is Ok,
    decreases replies.len(),
{
    assert(is_good(replies[replies.len() - 1], c.directory));
    if replies.len() > 1 {
        let fewer = replies.drop_last();
        assert forall|i: int| 0 <= i < fewer.len() implies is_good(
            #[trigger] fewer[i],
            c.directory,
        ) by {
            assert(fewer[i] == replies[i]);
        }
        lemma_stays_good(c, fewer, now);
    }
}

/// The content bytes that a list of outcomes took off the connection.
pub open spec fn taken_content(replies: Seq<ReplyView>) -> Seq<u8>
    decreases replies.len(),
{
    if replies.len() == 0 {
        Seq::empty()
    } else {
        let before = taken_content(replies.drop_last());
        match replies.last() {
            ReplyView::Data { bytes } => before + bytes,
            _ => before,
        }
    }
}

/// The number of messages that a list of outcomes took off the connection.
pub open spec fn taken_messages(replies: Seq<ReplyView>) -> nat
    decreases replies.len(),
{
    if replies.len() == 0 {
        0
    } else if replies.last() is Message {
        taken_messages(replies.drop_last()) + 1
    } else {
        taken_messages(replies.drop_last())
    }
}

/// What has been taken off the connection at each stage: `content` bytes and
/// `messages` messages.
spec fn is_in_step(c: ChangesetView, content: int, messages: nat) -> bool {
    let total = total_size(c.files) as int;
    match c.stage {
        Stage::MakeTarget | Stage::MakeStamped => content == 0 && messages == 0,
        Stage::CreateTemp { file } => content == offset(c.files, file as int) && messages == 0,
        Stage::ReadChunk { file, remaining } | Stage::WriteChunk { file, remaining } => content
            + remaining == offset(c.files, file + 1) && messages == 0,
        Stage::Flush { file } | Stage::RenameTemp { file } => content == offset(c.files, file + 1)
            && messages == 0,
        Stage::Discard { unread } => messages == 0 && if c.failure->0 is ReadContent {
            unread == 0
        } else {
            content + unread == total
        },
        Stage::Skip { unread } => messages == 0 && content + unread == total,
        Stage::Drain => messages == 0 && (c.failure->0 is ReadContent || content == total),
        Stage::AwaitEnd => messages == 0 && content == total,
        Stage::Finished => true,
        _ => messages == 1 && content == total,
    }
}

/// What has been taken off the connection by a changeset that came to `result`
/// with the outcome `last`.
spec fn is_consumed(
    result: Result<(), ErrorView>,
    last: ReplyView,
    total: nat,
    content: nat,
    messages: nat,
) -> bool {
    &&& messages <= 1
    &&& messages == 1 ==> content == total || (result matches Err(e) && e is ReadContent)
    &&& messages == 0 ==> last is Failed && (result matches Err(e) && (e is CreateTarget
        || e is CreateStamped || e is Io))
}

proof fn lemma_step_in_step(
    c: ChangesetView,
    reply: ReplyView,
    now: Moment,
    content: int,
    messages: nat,
)
    requires
        c.wf(),
        c.expects(reply),
        is_in_step(c, content, messages),
    ensures
        ({
            let (after, progress) = c.step(reply, now);
            let more = content + if reply is Data {
                reply->Data_bytes.len() as int
            } else {
                0
            };
            let count = messages + if reply is Message {
                1nat
            } else {
                0nat
            };
            &&& is_in_step(after, more, count)
            &&& progress matches ProgressView::Finished { result } ==> is_consumed(
                result,
                reply,
                total_size(c.files),
                more as nat,
                count,
            )
        }),
{
    let n = c.files.len() as int;
    assert(c.files.take(n) =~= c.files);
    assert(c.files.take(0).len() == 0);
    lemma_sizes_bounded(c);
    match c.stage {
        Stage::CreateTemp { file }
        | Stage::ReadChunk { file, .. }
        | Stage::WriteChunk { file, .. }
        | Stage::Flush { file }
        | Stage::RenameTemp { file } => {
            lemma_offset_step(c.files, file as int);
            lemma_offset_order(c.files, file as int, n);
            lemma_offset_order(c.files, file + 1, n);
        },
        _ => {},
    }
}

proof fn lemma_in_step(c: ChangesetView, replies: Seq<ReplyView>, now: Moment)
    requires
        c.wf(),
        c.stage == Stage::MakeTarget,
        is_stamp_dir(stamp_dir_of(now)),
        replies.len() > 0,
        changeset_admits(c, replies, now),
    ensures
        ({
            let (after, progress) = changeset_after(c, replies, now);
            &&& after.wf()
            &&& after.files == c.files
            &&& is_in_step(
                after,
                taken_content(replies).len() as int,
                taken_messages(replies),
            )
            &&& progress matches ProgressView::Finished { result } ==> is_consumed(
                result,
                replies.last(),
                total_size(c.files),
                taken_content(replies).len(),
                taken_messages(replies),
            )
        }),
    decreases replies.len(),
{
    let fewer = replies.drop_last();
    if replies.len() == 1 {
        assert(taken_content(fewer).len() == 0);
        assert(taken_messages(fewer) == 0);
        law_every_operation_counts(c, replies.last(), now);
        lemma_step_in_step(c, replies.last(), now, 0, 0);
    } else {
        lemma_in_step(c, fewer, now);
        let before = changeset_after(c, fewer, now).0;
        law_every_operation_counts(before, replies.last(), now);
        lemma_step_in_step(
            before,
            replies.last(),
            now,
            taken_content(fewer).len() as int,
            taken_messages(fewer),
        );
    }
}

/// When a file could not be stored, all content of the changeset is read all the
/// same before the message behind it is received, unless it was the reading that
/// failed. The changeset then ends with what went wrong with the file.
pub proof fn law_local_failure_reads_all_content(
    directory: Seq<char>,
    files: Seq<FileEntryView>,
    state: Option<DirectoryStateView>,
    replies: Seq<ReplyView>,
    now: Moment,
)
    requires
        ChangesetView::initial(directory, files, state).wf(),
        is_stamp_dir(stamp_dir_of(now)),
        replies.len() > 0,
        changeset_admits(ChangesetView::initial(directory, files, state), replies, now),
        ({
            let c = changeset_after(
                ChangesetView::initial(directory, files, state),
                replies,
                now,
            ).0;
            c.stage == Stage::Drain && !(c.failure->0 is ReadContent)
        }),
    ensures
        taken_content(replies).len() == total_size(files),
        taken_messages(replies) == 0,
        ({
            let c = changeset_after(
                ChangesetView::initial(directory, files, state),
                replies,
                now,
            ).0;
            forall|message: MessageView, then: Moment| #[trigger]
                c.step(ReplyView::Message { message }, then).1 == (ProgressView::Finished {
                    result: Err(c.failure->0),
                })
        }),
{
    lemma_in_step(ChangesetView::initial(directory, files, state), replies, now);
}

/// A changeset that is over has taken at most one message. Where it has taken it,
/// it has taken all announced content too, unless reading content failed. Where it
/// has not, its directories could not be created or the connection failed.
pub proof fn law_changeset_is_consumed(
    directory: Seq<char>,
    files: Seq<FileEntryView>,
    state: Option<DirectoryStateView>,
    replies: Seq<ReplyView>,
    now: Moment,
    result: Result<(), ErrorView>,
)
    requires
        ChangesetView::initial(directory, files, state).wf(),
        is_stamp_dir(stamp_dir_of(now)),
        replies.len() > 0,
        changeset_admits(ChangesetView::initial(directory, files, state), replies, now),
        changeset_after(ChangesetView::initial(directory, files, state), replies, now).1 == (
        ProgressView::Finished { result }),
    ensures
        taken_messages(replies) <= 1,
        taken_messages(replies) == 1 ==> taken_content(replies).len() == total_size(files) || (
        result matches Err(e) && e is ReadContent),
        taken_messages(replies) == 0 ==> replies.last() is Failed && (result matches Err(e) && (
        e is CreateTarget || e is CreateStamped || e is Io)),
{
    lemma_in_step(ChangesetView::initial(directory, files, state), replies, now);
}

/// The connection stays in step, also when files could not be stored: where it
/// carries the announced content, a framed message and then `rest`, a changeset
/// that took its message off it, and did not fail to read, took exactly the
/// content before that message, and leaves the connection at `rest`.
pub proof fn law_connection_stays_in_step(
    directory: Seq<char>,
    files: Seq<FileEntryView>,
    state: Option<DirectoryStateView>,
    replies: Seq<ReplyView>,
    now: Moment,
    result: Result<(), ErrorView>,
    content: Seq<u8>,
    body: Seq<u8>,
    rest: Seq<u8>,
)
    requires
        ChangesetView::initial(directory, files, state).wf(),
        is_stamp_dir(stamp_dir_of(now)),
        replies.len() > 0,
        changeset_admits(ChangesetView::initial(directory, files, state), replies, now),
        changeset_after(ChangesetView::initial(directory, files, state), replies, now).1 == (
        ProgressView::Finished { result }),
        taken_messages(replies) == 1,
        !(result matches Err(e) && e is ReadContent),
        content.len() == total_size(files),
        body.len() <= MAX_BODY,
        taken_content(replies).is_prefix_of(content + frame_of(body) + rest),
    ensures
        taken_content(replies) == content,
        first_message((content + frame_of(body) + rest).skip(taken_content(replies).len() as int))
            == Some((body, rest)),
{
    law_changeset_is_consumed(directory, files, state, replies, now, result);
    let stream = content + frame_of(body) + rest;
    let taken = taken_content(replies);
    assert forall|i: int| 0 <= i < taken.len() implies taken[i] == content[i] by {
        assert(taken[i] == stream[i]);
    }
    assert(taken =~= content);
    assert(stream.skip(content.len() as int) =~= frame_of(body) + rest);
    law_frame_round_trip(body, rest);
}

} // verus!
