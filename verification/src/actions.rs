//! What the enclave's side asks of the outside world, and what comes back.

use vstd::prelude::*;

use crate::messages::{MessageView, SyncMessage};

verus! {

/// An operation to be performed on the connection or on the file system.
#[derive(Debug)]
pub enum Action {
    /// Wait for the host to connect.
    Accept,
    /// Receive a message.
    Receive,
    /// Send a message.
    Send { message: SyncMessage },
    /// Announce that the initial sync is complete.
    Notify,
    /// Read exactly `len` bytes of file content.
    ReadExact { len: usize },
    /// Create a directory and those above it, where missing.
    CreateDir { path: String },
    /// Remove a directory with all that it holds.
    RemoveDir { path: String },
    /// Create a file, or empty it, and keep it open for writing.
    CreateFile { path: String },
    /// Write to the open file.
    Write { bytes: Vec<u8> },
    /// Flush the open file and close it.
    Flush,
    /// Rename a file or a link, over what has the new name.
    Rename { from: String, to: String },
    /// Remove a file or a link.
    RemoveFile { path: String },
    /// Create a symbolic link.
    Symlink { target: String, link: String },
}

/// The outcome of an operation.
#[derive(Debug)]
pub enum Reply {
    /// It succeeded.
    Done,
    /// These bytes were read.
    Data { bytes: Vec<u8> },
    /// This message was received.
    Message { message: SyncMessage },
    /// It failed, for this reason.
    Failed { reason: String },
}

/// The value of an [`Action`].
#[verifier::ext_equal]
pub enum ActionView {
    Accept,
    Receive,
    Send { message: MessageView },
    Notify,
    ReadExact { len: nat },
    CreateDir { path: Seq<char> },
    RemoveDir { path: Seq<char> },
    CreateFile { path: Seq<char> },
    Write { bytes: Seq<u8> },
    Flush,
    Rename { from: Seq<char>, to: Seq<char> },
    RemoveFile { path: Seq<char> },
    Symlink { target: Seq<char>, link: Seq<char> },
}

/// The value of a [`Reply`].
#[verifier::ext_equal]
pub enum ReplyView {
    Done,
    Data { bytes: Seq<u8> },
    Message { message: MessageView },
    Failed { reason: Seq<char> },
}

impl View for Action {
    type V = ActionView;

    open spec fn view(&self) -> ActionView {
        match self {
            Action::Accept => ActionView::Accept,
            Action::Receive => ActionView::Receive,
            Action::Send { message } => ActionView::Send { message: message@ },
            Action::Notify => ActionView::Notify,
            Action::ReadExact { len } => ActionView::ReadExact { len: *len as nat },
            Action::CreateDir { path } => ActionView::CreateDir { path: path@ },
            Action::RemoveDir { path } => ActionView::RemoveDir { path: path@ },
            Action::CreateFile { path } => ActionView::CreateFile { path: path@ },
            Action::Write { bytes } => ActionView::Write { bytes: bytes@ },
            Action::Flush => ActionView::Flush,
            Action::Rename { from, to } => ActionView::Rename { from: from@, to: to@ },
            Action::RemoveFile { path } => ActionView::RemoveFile { path: path@ },
            Action::Symlink { target, link } => ActionView::Symlink { target: target@, link: link@ },
        }
    }
}

impl View for Reply {
    type V = ReplyView;

    open spec fn view(&self) -> ReplyView {
        match self {
            Reply::Done => ReplyView::Done,
            Reply::Data { bytes } => ReplyView::Data { bytes: bytes@ },
            Reply::Message { message } => ReplyView::Message { message: message@ },
            Reply::Failed { reason } => ReplyView::Failed { reason: reason@ },
        }
    }
}

/// The value of an operation or of its outcome holds all that it holds.
pub proof fn law_action_values(action: Action, reply: Reply)
    ensures
        match action {
            Action::Accept => action@ is Accept,
            Action::Receive => action@ is Receive,
            Action::Send { message } => action@ == (ActionView::Send { message: message@ }),
            Action::Notify => action@ is Notify,
            Action::ReadExact { len } => action@ == (ActionView::ReadExact { len: len as nat }),
            Action::CreateDir { path } => action@ == (ActionView::CreateDir { path: path@ }),
            Action::RemoveDir { path } => action@ == (ActionView::RemoveDir { path: path@ }),
            Action::CreateFile { path } => action@ == (ActionView::CreateFile { path: path@ }),
            Action::Write { bytes } => action@ == (ActionView::Write { bytes: bytes@ }),
            Action::Flush => action@ is Flush,
            Action::Rename { from, to } => action@ == (ActionView::Rename { from: from@, to: to@ }),
            Action::RemoveFile { path } => action@ == (ActionView::RemoveFile { path: path@ }),
            Action::Symlink { target, link } => action@ == (ActionView::Symlink {
                target: target@,
                link: link@,
            }),
        },
        match reply {
            Reply::Done => reply@ is Done,
            Reply::Data { bytes } => reply@ == (ReplyView::Data { bytes: bytes@ }),
            Reply::Message { message } => reply@ == (ReplyView::Message { message: message@ }),
            Reply::Failed { reason } => reply@ == (ReplyView::Failed { reason: reason@ }),
        },
{
}

} // verus!
