//! Laws of sending a changeset, and of host and enclave together.

use vstd::prelude::*;

use crate::changeset::{ErrorView, ProgressView};
use crate::file_sync::ack_of;
use crate::json_transport::{frame_of, HEADER_LEN, MAX_BODY};
use crate::messages::{FileEntryView, MessageView};
use crate::paths::join_of;
use crate::placement::{
    law_files_in_place_are_whole, law_readers_find_new_files, law_success_means_in_place,
    Happening, Reception, Setting,
};
use crate::sender::{
    ack_result, SendActionView, SendProgressView, SendReplyView, SendStage, SenderView,
    SyncErrorView, SyncOutcome,
};
use crate::sizes::{lemma_offset_order, lemma_offset_step, offset, share, total_size};

verus! {

/// The sequences of a list, one after the other.
pub open spec fn concatenation(parts: Seq<Seq<u8>>) -> Seq<u8>
    decreases parts.len(),
{
    if parts.len() == 0 {
        Seq::empty()
    } else {
        concatenation(parts.drop_last()) + parts.last()
    }
}

/// The content bytes among what was written.
pub open spec fn written_content(written: Seq<SendActionView>) -> Seq<u8>
    decreases written.len(),
{
    if written.len() == 0 {
        Seq::empty()
    } else {
        let before = written_content(written.drop_last());
        match written.last() {
            SendActionView::Write { bytes } => before + bytes,
            _ => before,
        }
    }
}

/// The bytes that what was written makes on the connection, when messages are
/// serialised by `encode`: frames and content as they come.
pub open spec fn wire(
    written: Seq<SendActionView>,
    encode: spec_fn(MessageView) -> Seq<u8>,
) -> Seq<u8>
    decreases written.len(),
{
    if written.len() == 0 {
        Seq::empty()
    } else {
        let before = wire(written.drop_last(), encode);
        match written.last() {
            SendActionView::Send { message } => before + frame_of(encode(message)),
            SendActionView::Write { bytes } => before + bytes,
            _ => before,
        }
    }
}

/// A transfer on its way: its value, the operation under way, the messages and the
/// content that have been written, in order, and what was read of each opened file.
#[verifier::ext_equal]
pub struct Dispatch {
    pub sender: SenderView,
    pub progress: SendProgressView,
    pub written: Seq<SendActionView>,
    pub taken: Seq<Seq<u8>>,
}

impl Dispatch {
    /// The transfer before any outcome.
    pub open spec fn initial(directory: Seq<char>, listed: Seq<(Seq<char>, Seq<char>)>) -> Self {
        let (sender, progress) = SenderView::initial(directory, listed).next_resolve(0);
        Dispatch { sender, progress, written: Seq::empty(), taken: Seq::empty() }
    }

    /// Whether `reply` can come now.
    pub open spec fn allows(self, reply: SendReplyView) -> bool {
        self.progress is Next && self.sender.expects(reply)
    }

    /// The transfer after `reply`.
    pub open spec fn advance(self, reply: SendReplyView) -> Self {
        let (sender, progress) = self.sender.step(reply);
        let action = self.progress->action;
        Dispatch {
            sender,
            progress,
            written: if (action is Send || action is Write) && reply is Done {
                self.written.push(action)
            } else {
                self.written
            },
            taken: if action is Open && reply is Done {
                self.taken.push(Seq::empty())
            } else if action is Read && reply is Data {
                self.taken.drop_last().push(self.taken.last() + reply->Data_bytes)
            } else {
                self.taken
            },
        }
    }

    /// The transfer after a list of replies.
    pub open spec fn after(self, replies: Seq<SendReplyView>) -> Self
        decreases replies.len(),
    {
        if replies.len() == 0 {
            self
        } else {
            self.after(replies.drop_last()).advance(replies.last())
        }
    }

    /// Whether a list of replies can come.
    pub open spec fn admits(self, replies: Seq<SendReplyView>) -> bool
        decreases replies.len(),
    {
        replies.len() == 0 || (self.admits(replies.drop_last()) && self.after(
            replies.drop_last(),
        ).allows(replies.last()))
    }

    /// Sending the message that begins the changeset.
    pub open spec fn begin(self) -> SendActionView {
        SendActionView::Send {
            message: MessageView::ChangesetBegin {
                directory: self.sender.directory,
                files: self.sender.entries,
            },
        }
    }

    /// Sending the message that ends the changeset.
    pub open spec fn finish(self) -> SendActionView {
        SendActionView::Send {
            message: MessageView::ChangesetEnd { directory: self.sender.directory },
        }
    }

    /// Whether the message that ends the changeset has been written.
    pub open spec fn has_ended(self) -> bool {
        self.written.len() > 0 && self.written.last() == self.finish()
    }

    /// Whether no file was read beyond its announced size.
    pub open spec fn within_sizes(self) -> bool {
        forall|i: int|
            0 <= i < self.taken.len() ==> (#[trigger] self.taken[i]).len()
                <= self.sender.entries[i].size
    }

    /// Whether all that was read of all files has been written, in order.
    pub open spec fn all_sent(self) -> bool {
        &&& self.taken.len() == self.sender.entries.len()
        &&& written_content(self.written) == concatenation(self.taken)
        &&& self.within_sizes()
    }

    /// Whether content alone has been written behind the message that begins the
    /// changeset, up to the position `n`.
    spec fn opened(self, n: int) -> bool {
        &&& 0 < n <= self.written.len()
        &&& self.written[0] == self.begin()
        &&& forall|i: int| 1 <= i < n ==> (#[trigger] self.written[i]) is Write
    }

    /// All that holds of a transfer at every point.
    spec fn inv(self, directory: Seq<char>, listed: Seq<(Seq<char>, Seq<char>)>) -> bool {
        let action = self.progress->action;
        let content = written_content(self.written);
        let len = self.written.len() as int;
        &&& self.sender.wf()
        &&& self.sender.directory == directory
        &&& self.sender.listed == listed
        &&& self.progress is Finished <==> self.sender.stage == SendStage::Finished
        &&& self.has_ended() ==> self.opened(len - 1) && self.all_sent()
            && self.sender.entries.len() == listed.len()
        &&& match self.sender.stage {
            SendStage::Resolving { file } => {
                &&& action is Resolve
                &&& len == 0
                &&& self.taken.len() == 0
            },
            SendStage::Beginning => {
                &&& action == self.begin()
                &&& len == 0
                &&& self.taken.len() == 0
            },
            SendStage::Opening { file } => {
                &&& action is Open
                &&& self.opened(len)
                &&& self.taken.len() == file
                &&& self.within_sizes()
                &&& content == concatenation(self.taken)
            },
            SendStage::Reading { file, remaining } => {
                &&& action is Read
                &&& self.opened(len)
                &&& self.taken.len() == file + 1
                &&& self.within_sizes()
                &&& self.taken.last().len() + remaining == self.sender.entries[file as int].size
                &&& content == concatenation(self.taken)
            },
            SendStage::Writing { file, remaining } => {
                &&& action is Write
                &&& self.opened(len)
                &&& self.taken.len() == file + 1
                &&& self.within_sizes()
                &&& self.taken.last().len() + remaining == self.sender.entries[file as int].size
                &&& content + action->Write_bytes == concatenation(self.taken)
            },
            SendStage::Ending => {
                &&& action == self.finish()
                &&& self.opened(len)
                &&& self.all_sent()
            },
            SendStage::AwaitAck => action is Receive && self.has_ended(),
            SendStage::Finished => match self.progress->result {
                Ok(SyncOutcome::Skipped) => len == 0,
                Ok(SyncOutcome::Acknowledged) => self.has_ended(),
                Err(_) => true,
            },
        }
    }
}

/// Every reply keeps the invariant.
proof fn lemma_inv_step(
    d: Dispatch,
    directory: Seq<char>,
    listed: Seq<(Seq<char>, Seq<char>)>,
    reply: SendReplyView,
)
    requires
        listed.len() <= usize::MAX,
        d.inv(directory, listed),
        d.allows(reply),
    ensures
        d.advance(reply).inv(directory, listed),
{
    let after = d.advance(reply);
    if after.written.len() > d.written.len() {
        assert(after.written.drop_last() =~= d.written);
    }
    match d.sender.stage {
        SendStage::Beginning => {
            if reply is Done {
                assert(written_content(d.written) =~= Seq::<u8>::empty());
                assert(concatenation(after.taken) =~= Seq::<u8>::empty());
            }
        },
        SendStage::Opening { file } => {
            assert(after.taken.drop_last() =~= d.taken || !(reply is Done));
            assert(concatenation(d.taken) + Seq::<u8>::empty() =~= concatenation(d.taken));
        },
        SendStage::Reading { file, remaining } => {
            if reply is Data {
                let bytes = reply->Data_bytes;
                assert(after.taken.drop_last() =~= d.taken.drop_last());
                assert(concatenation(after.taken) =~= concatenation(d.taken) + bytes);
                assert forall|i: int| 0 <= i < after.taken.len() implies (
                #[trigger] after.taken[i]).len() <= after.sender.entries[i].size by {
                    if i < file {
                        assert(after.taken[i] == d.taken[i]);
                    }
                }
                if bytes.len() == 0 {
                    assert(after.taken =~= d.taken);
                }
            }
        },
        _ => {},
    }
}

/// The invariant holds at every point of every transfer.
proof fn lemma_inv(
    directory: Seq<char>,
    listed: Seq<(Seq<char>, Seq<char>)>,
    replies: Seq<SendReplyView>,
)
    requires
        listed.len() <= usize::MAX,
        Dispatch::initial(directory, listed).admits(replies),
    ensures
        Dispatch::initial(directory, listed).after(replies).inv(directory, listed),
    decreases replies.len(),
{
    let start = Dispatch::initial(directory, listed);
    if replies.len() > 0 {
        lemma_inv(directory, listed, replies.drop_last());
        lemma_inv_step(start.after(replies.drop_last()), directory, listed, replies.last());
    }
}

/// A transfer that is skipped has sent nothing at all.
pub proof fn law_skipped_sends_nothing(
    directory: Seq<char>,
    listed: Seq<(Seq<char>, Seq<char>)>,
    replies: Seq<SendReplyView>,
)
    requires
        listed.len() <= usize::MAX,
        Dispatch::initial(directory, listed).admits(replies),
        Dispatch::initial(directory, listed).after(replies).progress == (
        SendProgressView::Finished { result: Ok(SyncOutcome::Skipped) }),
    ensures
        Dispatch::initial(directory, listed).after(replies).written.len() == 0,
{
    lemma_inv(directory, listed, replies);
}

/// A transfer that has written the message that ends the changeset has written
/// before it, in this order and nothing else, the message that begins the
/// changeset, with every file of the group, and the content that was read of each
/// file, in the order of the files and never more than was announced.
pub proof fn law_everything_is_sent_in_order(
    directory: Seq<char>,
    listed: Seq<(Seq<char>, Seq<char>)>,
    replies: Seq<SendReplyView>,
)
    requires
        listed.len() <= usize::MAX,
        Dispatch::initial(directory, listed).admits(replies),
        Dispatch::initial(directory, listed).after(replies).has_ended(),
    ensures
        ({
            let d = Dispatch::initial(directory, listed).after(replies);
            let files = d.sender.entries;
            let writes = d.written.subrange(1, d.written.len() - 1);
            &&& d.written.len() >= 2
            &&& d.written == seq![
                SendActionView::Send { message: MessageView::ChangesetBegin { directory, files } },
            ] + writes + seq![
                SendActionView::Send { message: MessageView::ChangesetEnd { directory } },
            ]
            &&& forall|i: int| 0 <= i < writes.len() ==> (#[trigger] writes[i]) is Write
            &&& written_content(writes) == concatenation(d.taken)
            &&& files.len() == listed.len()
            &&& forall|i: int|
                #![trigger files[i]]
                0 <= i < files.len() ==> files[i].manifest_path == listed[i].0 && files[i].name
                    == listed[i].1
            &&& d.taken.len() == files.len()
            &&& forall|i: int|
                #![trigger d.taken[i]]
                0 <= i < files.len() ==> d.taken[i].len() <= files[i].size
        }),
{
    lemma_inv(directory, listed, replies);
    let d = Dispatch::initial(directory, listed).after(replies);
    let n = d.written.len() as int;
    let writes = d.written.subrange(1, n - 1);
    assert(d.written =~= seq![d.begin()] + writes + seq![d.finish()]);
    lemma_content_behind_message(d.written.drop_last());
    assert(d.written.drop_last().skip(1) =~= writes);
}

/// A message in front adds no content.
proof fn lemma_content_behind_message(written: Seq<SendActionView>)
    requires
        written.len() > 0,
        written[0] is Send,
    ensures
        written_content(written) == written_content(written.skip(1)),
    decreases written.len(),
{
    if written.len() == 1 {
        assert(written_content(written.drop_last()) =~= Seq::<u8>::empty());
    } else {
        lemma_content_behind_message(written.drop_last());
        assert(written.drop_last().skip(1) =~= written.skip(1).drop_last());
    }
}

/// Content goes over the connection as it is.
proof fn lemma_wire_of_content(
    writes: Seq<SendActionView>,
    encode: spec_fn(MessageView) -> Seq<u8>,
)
    requires
        forall|i: int| 0 <= i < writes.len() ==> (#[trigger] writes[i]) is Write,
    ensures
        wire(writes, encode) == written_content(writes),
    decreases writes.len(),
{
    if writes.len() > 0 {
        let fewer = writes.drop_last();
        assert forall|i: int| 0 <= i < fewer.len() implies (#[trigger] fewer[i]) is Write by {
            assert(fewer[i] == writes[i]);
        }
        lemma_wire_of_content(fewer, encode);
        assert(writes[writes.len() - 1] is Write);
    }
}

/// A transfer that is acknowledged has sent everything.
pub proof fn law_acknowledged_sent_everything(
    directory: Seq<char>,
    listed: Seq<(Seq<char>, Seq<char>)>,
    replies: Seq<SendReplyView>,
)
    requires
        listed.len() <= usize::MAX,
        Dispatch::initial(directory, listed).admits(replies),
        Dispatch::initial(directory, listed).after(replies).progress == (
        SendProgressView::Finished { result: Ok(SyncOutcome::Acknowledged) }),
    ensures
        Dispatch::initial(directory, listed).after(replies).has_ended(),
        Dispatch::initial(directory, listed).after(replies).all_sent(),
{
    lemma_inv(directory, listed, replies);
}

/// Parts of the announced sizes are the shares of their concatenation.
pub proof fn law_shares_of_concatenation(files: Seq<FileEntryView>, parts: Seq<Seq<u8>>)
    requires
        parts.len() == files.len(),
        forall|i: int|
            #![trigger parts[i]]
            0 <= i < files.len() ==> parts[i].len() == files[i].size,
    ensures
        concatenation(parts).len() == total_size(files),
        forall|i: int|
            #![trigger parts[i]]
            0 <= i < files.len() ==> share(files, concatenation(parts), i) == parts[i],
    decreases files.len(),
{
    if files.len() > 0 {
        let n = files.len() - 1;
        let fewer = files.drop_last();
        let before = parts.drop_last();
        assert forall|i: int| #![trigger before[i]] 0 <= i < fewer.len() implies before[i].len()
            == fewer[i].size by {
            assert(before[i] == parts[i]);
        }
        law_shares_of_concatenation(fewer, before);
        assert(parts[n].len() == files[n].size);
        let front = concatenation(before);
        let whole = concatenation(parts);
        assert(files.take(files.len() as int) =~= files);
        assert(files.take(n) =~= fewer);
        assert forall|i: int| #![trigger parts[i]] 0 <= i < files.len() implies share(
            files,
            whole,
            i,
        ) == parts[i] by {
            lemma_offset_order(files, i, i + 1);
            lemma_offset_order(files, i + 1, files.len() as int);
            if i < n {
                assert(files.take(i) =~= fewer.take(i));
                assert(files.take(i + 1) =~= fewer.take(i + 1));
                lemma_offset_order(fewer, i + 1, n);
                assert(fewer.take(n) =~= fewer);
                assert(before[i] == parts[i]);
                assert(share(files, whole, i) =~= share(fewer, front, i));
            } else {
                assert(share(files, whole, i) =~= parts[n]);
            }
        }
    }
}

/// Parts that are within the announced sizes and fill them together fill each.
proof fn lemma_parts_fill(files: Seq<FileEntryView>, parts: Seq<Seq<u8>>)
    requires
        parts.len() == files.len(),
        forall|i: int| 0 <= i < parts.len() ==> (#[trigger] parts[i]).len() <= files[i].size,
    ensures
        concatenation(parts).len() <= total_size(files),
        concatenation(parts).len() == total_size(files) ==> forall|i: int|
            0 <= i < parts.len() ==> (#[trigger] parts[i]).len() == files[i].size,
    decreases files.len(),
{
    if files.len() > 0 {
        let n = files.len() - 1;
        let before = parts.drop_last();
        assert forall|i: int| 0 <= i < before.len() implies (#[trigger] before[i]).len()
            <= files.drop_last()[i].size by {
            assert(before[i] == parts[i]);
        }
        lemma_parts_fill(files.drop_last(), before);
        assert(parts[n].len() <= files[n].size);
        if concatenation(parts).len() == total_size(files) {
            assert forall|i: int| 0 <= i < parts.len() implies (#[trigger] parts[i]).len()
                == files[i].size by {
                if i < n {
                    assert(before[i].len() == files.drop_last()[i].size);
                }
            }
        }
    }
}

/// Whether no piece of a serialised message but the whole is read as that message.
pub open spec fn is_read_whole(
    text: Seq<u8>,
    message: MessageView,
    decode: spec_fn(Seq<u8>) -> Option<MessageView>,
) -> bool {
    forall|from: int, to: int|
        0 < from <= to <= text.len() ==> #[trigger] decode(text.subrange(from, to)) != Some(message)
}

/// Where `content` and the frame of `text` are delivered, and at least as many
/// bytes are taken as `content` has, followed by a frame that is read as the
/// message of `text`, exactly the content and that frame have been taken.
proof fn lemma_taken_is_delivered(
    content: Seq<u8>,
    text: Seq<u8>,
    taken: Seq<u8>,
    body: Seq<u8>,
    message: MessageView,
    decode: spec_fn(Seq<u8>) -> Option<MessageView>,
)
    requires
        text.len() <= MAX_BODY,
        body.len() <= MAX_BODY,
        decode(body) == Some(message),
        is_read_whole(text, message, decode),
        content.len() <= taken.len(),
        (taken + frame_of(body)).is_prefix_of(content + frame_of(text)),
    ensures
        taken == content,
        body == text,
{
    let stream = content + frame_of(text);
    let got = taken + frame_of(body);
    assert forall|i: int| 0 <= i < got.len() implies got[i] == stream[i] by {}
    let k = taken.len() - content.len();
    if k > 0 {
        assert(k + body.len() <= text.len());
        assert(body =~= text.subrange(k, k + body.len())) by {
            assert forall|i: int| 0 <= i < body.len() implies body[i] == text[k + i] by {
                let at = taken.len() + HEADER_LEN + i;
                assert(got[at] == body[i]);
                assert(stream[at] == text[k + i]);
            }
        }
    } else {
        assert forall|i: int| 0 <= i < taken.len() implies taken[i] == content[i] by {
            assert(got[i] == taken[i] && stream[i] == content[i]);
        }
        assert(taken =~= content);
        let at = content.len() as int;
        assert(got[at] == (body.len() % 256) as u8 && stream[at] == (text.len() % 256) as u8);
        assert(got[at + 1] == (body.len() / 256) as u8 && stream[at + 1] == (text.len()
            / 256) as u8);
        assert(body.len() == text.len());
        assert forall|i: int| 0 <= i < body.len() implies body[i] == text[i] by {
            assert(got[at + 2 + i] == body[i] && stream[at + 2 + i] == text[i]);
        }
        assert(body =~= text);
    }
}

/// What the host read of its files is what the enclave holds of them. The host has
/// written a changeset to its end; of the bytes behind the message that begins it,
/// the connection has delivered to the enclave what the enclave took: content, and
/// a frame that is read as the end of the changeset. Where the changeset
/// succeeded, the enclave has taken all of these bytes, the host had read every
/// file to its announced size, every file lies in the new stamped directory with
/// exactly the content that the host read, and that content is what a reader finds
/// through the links.
///
/// `encode` and `decode` stand for how messages are serialised: any way in which
/// no later piece of the text of a message is read as the same message.
pub proof fn law_enclave_holds_what_host_read(
    s: Setting,
    hs: Seq<Happening>,
    listed: Seq<(Seq<char>, Seq<char>)>,
    replies: Seq<SendReplyView>,
    encode: spec_fn(MessageView) -> Seq<u8>,
    decode: spec_fn(Seq<u8>) -> Option<MessageView>,
    body: Seq<u8>,
)
    requires
        listed.len() <= usize::MAX,
        Dispatch::initial(s.directory, listed).admits(replies),
        Dispatch::initial(s.directory, listed).after(replies).has_ended(),
        s.is_regular(),
        s.files == Dispatch::initial(s.directory, listed).after(replies).sender.entries,
        Reception::initial(s).admits(hs, s.now),
        Reception::initial(s).after(hs, s.now).progress == (ProgressView::Finished {
            result: Ok(()),
        }),
        ({
            let end = MessageView::ChangesetEnd { directory: s.directory };
            &&& encode(end).len() <= MAX_BODY
            &&& is_read_whole(encode(end), end, decode)
            &&& body.len() <= MAX_BODY
            &&& decode(body) == Some(end)
        }),
        (Reception::initial(s).after(hs, s.now).received + frame_of(body)).is_prefix_of(
            wire(
                Dispatch::initial(s.directory, listed).after(replies).written.skip(1),
                encode,
            ),
        ),
    ensures
        ({
            let d = Dispatch::initial(s.directory, listed).after(replies);
            let r = Reception::initial(s).after(hs, s.now);
            &&& r.received + frame_of(body) == wire(d.written.skip(1), encode)
            &&& r.received == concatenation(d.taken)
            &&& d.taken.len() == s.files.len()
            &&& forall|i: int|
                #![trigger d.taken[i]]
                0 <= i < s.files.len() ==> {
                    &&& d.taken[i].len() == s.files[i].size
                    &&& r.disk.holds(s.file_path(i), d.taken[i])
                    &&& s.unlinked() ==> r.disk.reads(
                        s.directory,
                        s.files[i].name,
                        d.taken[i],
                    )
                    &&& s.files[i].name != "..data_tmp"@ && s.disk.leads(
                        join_of(s.directory, s.files[i].name),
                        join_of("..data"@, s.files[i].name),
                    ) ==> r.disk.reads(s.directory, s.files[i].name, d.taken[i])
                }
        }),
{
    let d = Dispatch::initial(s.directory, listed).after(replies);
    let r = Reception::initial(s).after(hs, s.now);
    let end = MessageView::ChangesetEnd { directory: s.directory };
    let content = concatenation(d.taken);
    let writes = d.written.subrange(1, d.written.len() - 1);
    law_everything_is_sent_in_order(s.directory, listed, replies);
    lemma_wire_of_content(writes, encode);
    assert(d.written.skip(1).drop_last() =~= writes);
    assert(wire(d.written.skip(1), encode) == content + frame_of(encode(end)));
    law_success_means_in_place(s, hs);
    law_files_in_place_are_whole(s, hs);
    assert forall|i: int| 0 <= i < d.taken.len() implies (#[trigger] d.taken[i]).len()
        <= s.files[i].size by {}
    lemma_parts_fill(s.files, d.taken);
    lemma_taken_is_delivered(content, encode(end), r.received, body, end, decode);
    law_shares_of_concatenation(s.files, d.taken);
    assert forall|i: int| #![trigger d.taken[i]] 0 <= i < s.files.len() implies {
        &&& d.taken[i].len() == s.files[i].size
        &&& r.disk.holds(s.file_path(i), d.taken[i])
        &&& s.unlinked() ==> r.disk.reads(s.directory, s.files[i].name, d.taken[i])
        &&& s.files[i].name != "..data_tmp"@ && s.disk.leads(
            join_of(s.directory, s.files[i].name),
            join_of("..data"@, s.files[i].name),
        ) ==> r.disk.reads(s.directory, s.files[i].name, d.taken[i])
    } by {
        assert(share(s.files, r.received, i) == d.taken[i]);
        let name = s.files[i].name;
        let linked = name != "..data_tmp"@ && s.disk.leads(
            join_of(s.directory, name),
            join_of("..data"@, name),
        );
        if s.unlinked() || linked {
            law_readers_find_new_files(s, hs, i);
        }
    }
}

/// The host learns from the answer exactly what the enclave reports: success for
/// success, and for a failure its text.
pub proof fn law_host_learns_the_result(
    directory: Seq<char>,
    named: Seq<char>,
    result: Result<(), ErrorView>,
)
    ensures
        ack_result(directory, ack_of(named, result)) == match result {
            Ok(()) => Ok::<SyncOutcome, SyncErrorView>(SyncOutcome::Acknowledged),
            Err(e) => Err(SyncErrorView::Rejected { directory, reason: e.text() }),
        },
{
}

/// The most operations that can have gone before.
spec fn operations_before(s: SenderView) -> int {
    let n = s.listed.len() as int;
    let content = n + 1;
    match s.stage {
        SendStage::Resolving { file } => file as int,
        SendStage::Beginning => n,
        SendStage::Opening { file } => content + file + 2 * offset(s.entries, file as int),
        SendStage::Reading { file, remaining } => content + file + 1 + 2 * (offset(
            s.entries,
            file + 1,
        ) - remaining),
        SendStage::Writing { file, remaining } => content + file + 2 * (offset(s.entries, file + 1)
            - remaining),
        SendStage::Ending => content + n + 2 * total_size(s.entries),
        SendStage::AwaitAck => content + n + 2 * total_size(s.entries) + 1,
        SendStage::Finished => content + n + 2 * total_size(s.entries) + 2,
    }
}

/// A transfer is over after a number of operations that its files settle,
/// whatever the outcomes: it cannot go on for ever.
pub proof fn law_transfer_ends(
    directory: Seq<char>,
    listed: Seq<(Seq<char>, Seq<char>)>,
    replies: Seq<SendReplyView>,
)
    requires
        listed.len() <= usize::MAX,
        Dispatch::initial(directory, listed).admits(replies),
    ensures
        replies.len() <= 2 * total_size(
            Dispatch::initial(directory, listed).after(replies).sender.entries,
        ) + 2 * listed.len() + 3,
{
    let s = Dispatch::initial(directory, listed).after(replies).sender;
    let n = s.entries.len() as int;
    lemma_inv(directory, listed, replies);
    lemma_operations_before(directory, listed, replies);
    assert(s.entries.take(n) =~= s.entries);
    match s.stage {
        SendStage::Opening { file } => {
            lemma_offset_order(s.entries, file as int, n);
        },
        SendStage::Reading { file, .. } | SendStage::Writing { file, .. } => {
            lemma_offset_order(s.entries, file + 1, n);
        },
        _ => {},
    }
}

#[verifier::rlimit(40)]
proof fn lemma_operations_before(
    directory: Seq<char>,
    listed: Seq<(Seq<char>, Seq<char>)>,
    replies: Seq<SendReplyView>,
)
    requires
        listed.len() <= usize::MAX,
        Dispatch::initial(directory, listed).admits(replies),
    ensures
        replies.len() <= operations_before(
            Dispatch::initial(directory, listed).after(replies).sender,
        ),
    decreases replies.len(),
{
    let start = Dispatch::initial(directory, listed);
    if replies.len() > 0 {
        lemma_operations_before(directory, listed, replies.drop_last());
        lemma_inv(directory, listed, replies.drop_last());
        let s = start.after(replies.drop_last()).sender;
        let n = s.entries.len() as int;
        assert(s.entries.take(n) =~= s.entries);
        assert(s.entries.take(0).len() == 0);
        match s.stage {
            SendStage::Opening { file }
            | SendStage::Reading { file, .. }
            | SendStage::Writing { file, .. } => {
                lemma_offset_step(s.entries, file as int);
                lemma_offset_order(s.entries, file as int, n);
                lemma_offset_order(s.entries, file + 1, n);
            },
            _ => {},
        }
    }
}

/// Whether an outcome is a good one for the host: nothing failed, and an answer
/// that came reports success.
pub open spec fn is_favourable(reply: SendReplyView) -> bool {
    match reply {
        SendReplyView::Failed { reason } => false,
        SendReplyView::Message { message } => message matches MessageView::ChangesetAck {
            success,
            ..
        } && success,
        _ => true,
    }
}

/// A transfer never fails and is never skipped by itself: while all outcomes are
/// good, it goes on or is acknowledged.
pub proof fn law_good_replies_are_acknowledged(
    directory: Seq<char>,
    listed: Seq<(Seq<char>, Seq<char>)>,
    replies: Seq<SendReplyView>,
)
    requires
        Dispatch::initial(directory, listed).admits(replies),
        forall|i: int| 0 <= i < replies.len() ==> is_favourable(#[trigger] replies[i]),
    ensures
        Dispatch::initial(directory, listed).after(replies).progress matches
            SendProgressView::Finished { result } ==> result == Ok::<SyncOutcome, SyncErrorView>(
            SyncOutcome::Acknowledged,
        ),
{
    if replies.len() > 0 {
        assert(is_favourable(replies[replies.len() - 1]));
    }
}

} // verus!
