//! The messages that host and enclave exchange.

use vstd::prelude::*;
use vstd::string::*;

use crate::text::{decimal, quote, quoted, render_number};

verus! {

/// A message of the sync protocol.
#[derive(Debug)]
pub enum SyncMessage {
    /// The contents of `files` follow, one after the other, as raw bytes.
    ChangesetBegin { directory: String, files: Vec<FileEntry> },
    /// All contents of the changeset have been sent.
    ChangesetEnd { directory: String },
    /// The changeset was put in place, or it was not, and why.
    ChangesetAck { directory: String, success: bool, error: Option<String> },
    /// Every directory group has been sent once.
    InitialSyncComplete,
    /// Answers `InitialSyncComplete`.
    InitialSyncAck,
}

/// A file of a changeset.
#[derive(Debug)]
pub struct FileEntry {
    /// The name within the directory.
    pub name: String,
    /// The path under which the manifest lists the file.
    pub manifest_path: String,
    /// The number of content bytes.
    pub size: u64,
}

/// The value of a [`FileEntry`].
#[verifier::ext_equal]
pub struct FileEntryView {
    pub name: Seq<char>,
    pub manifest_path: Seq<char>,
    pub size: nat,
}

/// The value of a [`SyncMessage`].
#[verifier::ext_equal]
pub enum MessageView {
    ChangesetBegin { directory: Seq<char>, files: Seq<FileEntryView> },
    ChangesetEnd { directory: Seq<char> },
    ChangesetAck { directory: Seq<char>, success: bool, error: Option<Seq<char>> },
    InitialSyncComplete,
    InitialSyncAck,
}

impl View for FileEntry {
    type V = FileEntryView;

    open spec fn view(&self) -> FileEntryView {
        FileEntryView {
            name: self.name@,
            manifest_path: self.manifest_path@,
            size: self.size as nat,
        }
    }
}

/// The values of a list of files.
pub open spec fn entry_views(files: Seq<FileEntry>) -> Seq<FileEntryView> {
    files.map_values(|e: FileEntry| e@)
}

/// The value of an optional string.
pub open spec fn option_view(s: Option<String>) -> Option<Seq<char>> {
    match s {
        Some(t) => Some(t@),
        None => None,
    }
}

impl View for SyncMessage {
    type V = MessageView;

    open spec fn view(&self) -> MessageView {
        match self {
            SyncMessage::ChangesetBegin { directory, files } => MessageView::ChangesetBegin {
                directory: directory@,
                files: entry_views(files@),
            },
            SyncMessage::ChangesetEnd { directory } => MessageView::ChangesetEnd {
                directory: directory@,
            },
            SyncMessage::ChangesetAck { directory, success, error } => MessageView::ChangesetAck {
                directory: directory@,
                success: *success,
                error: option_view(*error),
            },
            SyncMessage::InitialSyncComplete => MessageView::InitialSyncComplete,
            SyncMessage::InitialSyncAck => MessageView::InitialSyncAck,
        }
    }
}

impl Clone for FileEntry {
    fn clone(&self) -> (result: Self)
        ensures
            result == *self,
    {
        FileEntry {
            name: self.name.clone(),
            manifest_path: self.manifest_path.clone(),
            size: self.size,
        }
    }
}

/// Copies a list of files.
pub(crate) fn copy_entries(files: &Vec<FileEntry>) -> (result: Vec<FileEntry>)
    ensures
        result@ == files@,
{
    let mut result: Vec<FileEntry> = Vec::new();
    let mut i: usize = 0;
    while i < files.len()
        invariant
            i <= files@.len(),
            result@ == files@.take(i as int),
        decreases files@.len() - i,
    {
        result.push(files[i].clone());
        i = i + 1;
    }
    assert(files@.take(files@.len() as int) == files@);
    result
}

/// How a file is rendered for diagnostics.
pub open spec fn entry_text(e: FileEntryView) -> Seq<char> {
    "FileEntry { name: "@ + quoted(e.name) + ", manifest_path: "@ + quoted(e.manifest_path)
        + ", size: "@ + decimal(e.size) + " }"@
}

/// The renderings of a list of files, separated by commas.
pub open spec fn entries_text(files: Seq<FileEntryView>) -> Seq<char>
    decreases files.len(),
{
    if files.len() == 0 {
        Seq::empty()
    } else if files.len() == 1 {
        entry_text(files[0])
    } else {
        entries_text(files.drop_last()) + ", "@ + entry_text(files.last())
    }
}

/// How an optional reason is rendered for diagnostics.
pub open spec fn reason_text(error: Option<Seq<char>>) -> Seq<char> {
    match error {
        Some(reason) => "Some("@ + quoted(reason) + ")"@,
        None => "None"@,
    }
}

/// How a message is rendered for diagnostics.
pub open spec fn message_text(m: MessageView) -> Seq<char> {
    match m {
        MessageView::ChangesetBegin { directory, files } => "ChangesetBegin { directory: "@
            + quoted(directory) + ", files: ["@ + entries_text(files) + "] }"@,
        MessageView::ChangesetEnd { directory } => "ChangesetEnd { directory: "@ + quoted(directory)
            + " }"@,
        MessageView::ChangesetAck { directory, success, error } => "ChangesetAck { directory: "@
            + quoted(directory) + ", success: "@ + (if success {
            "true"@
        } else {
            "false"@
        }) + ", error: "@ + reason_text(error) + " }"@,
        MessageView::InitialSyncComplete => "InitialSyncComplete"@,
        MessageView::InitialSyncAck => "InitialSyncAck"@,
    }
}

impl FileEntry {
    /// Renders the file, as [`entry_text`] says.
    pub fn describe(&self) -> (result: String)
        ensures
            result@ == entry_text(self@),
    {
        "FileEntry { name: ".to_owned().concat(quote(self.name.as_str()).as_str()).concat(
            ", manifest_path: ",
        ).concat(quote(self.manifest_path.as_str()).as_str()).concat(", size: ").concat(
            render_number(self.size).as_str(),
        ).concat(" }")
    }
}

/// Renders a list of files, as [`entries_text`] says.
fn describe_entries(files: &Vec<FileEntry>) -> (result: String)
    ensures
        result@ == entries_text(entry_views(files@)),
{
    let ghost views = entry_views(files@);
    let mut result = String::new();
    let mut i: usize = 0;
    while i < files.len()
        invariant
            i <= files@.len(),
            views == entry_views(files@),
            result@ == entries_text(views.take(i as int)),
        decreases files@.len() - i,
    {
        if i > 0 {
            result.append(", ");
        }
        result.append(files[i].describe().as_str());
        proof {
            let done = views.take(i + 1);
            assert(done.drop_last() =~= views.take(i as int));
            assert(done.last() == files@[i as int]@);
            if i == 0 {
                assert(views.take(0).len() == 0);
                assert(result@ =~= entry_text(done[0]));
            }
        }
        i = i + 1;
    }
    assert(views.take(views.len() as int) =~= views);
    result
}

impl SyncMessage {
    /// Renders the message, as [`message_text`] says.
    pub fn describe(&self) -> (result: String)
        ensures
            result@ == message_text(self@),
    {
        match self {
            SyncMessage::ChangesetBegin {
                directory,
                files,
            } => "ChangesetBegin { directory: ".to_owned().concat(
                quote(directory.as_str()).as_str(),
            ).concat(", files: [").concat(describe_entries(files).as_str()).concat("] }"),
            SyncMessage::ChangesetEnd { directory } => "ChangesetEnd { directory: ".to_owned().concat(
                quote(directory.as_str()).as_str(),
            ).concat(" }"),
            SyncMessage::ChangesetAck { directory, success, error } => {
                let reason = match error {
                    Some(reason) => "Some(".to_owned().concat(
                        quote(reason.as_str()).as_str(),
                    ).concat(")"),
                    None => "None".to_owned(),
                };
                "ChangesetAck { directory: ".to_owned().concat(
                    quote(directory.as_str()).as_str(),
                ).concat(", success: ").concat(
                    if *success {
                        "true"
                    } else {
                        "false"
                    },
                ).concat(", error: ").concat(reason.as_str()).concat(" }")
            },
            SyncMessage::InitialSyncComplete => "InitialSyncComplete".to_owned(),
            SyncMessage::InitialSyncAck => "InitialSyncAck".to_owned(),
        }
    }
}

/// The value of a message holds all that the message holds.
pub proof fn law_message_values(m: SyncMessage, e: FileEntry, files: Seq<FileEntry>)
    ensures
        e@.name == e.name@,
        e@.manifest_path == e.manifest_path@,
        e@.size == e.size,
        entry_views(files).len() == files.len(),
        forall|i: int| 0 <= i < files.len() ==> #[trigger] entry_views(files)[i] == files[i]@,
        match m {
            SyncMessage::ChangesetBegin { directory, files } => m@ == (
            MessageView::ChangesetBegin { directory: directory@, files: entry_views(files@) }),
            SyncMessage::ChangesetEnd { directory } => m@ == (MessageView::ChangesetEnd {
                directory: directory@,
            }),
            SyncMessage::ChangesetAck { directory, success, error } => {
                &&& m@ is ChangesetAck
                &&& m@->ChangesetAck_directory == directory@
                &&& m@->success == success
                &&& m@->error is Some <==> error is Some
                &&& error matches Some(reason) ==> m@->error == Some(reason@)
            },
            SyncMessage::InitialSyncComplete => m@ is InitialSyncComplete,
            SyncMessage::InitialSyncAck => m@ is InitialSyncAck,
        },
{
}

/// A message is rendered with the names and values of all its fields, strings
/// quoted, as a program text would write it.
pub proof fn law_messages_are_rendered_in_full(
    directory: Seq<char>,
    files: Seq<FileEntryView>,
    reason: Seq<char>,
)
    ensures
        message_text(MessageView::InitialSyncComplete) == "InitialSyncComplete"@,
        message_text(MessageView::InitialSyncAck) == "InitialSyncAck"@,
        message_text(MessageView::ChangesetEnd { directory }) == "ChangesetEnd { directory: "@
            + quoted(directory) + " }"@,
        message_text(MessageView::ChangesetBegin { directory, files })
            == "ChangesetBegin { directory: "@ + quoted(directory) + ", files: ["@ + entries_text(
            files,
        ) + "] }"@,
        message_text(MessageView::ChangesetAck { directory, success: true, error: None })
            == "ChangesetAck { directory: "@ + quoted(directory) + ", success: "@ + "true"@
            + ", error: "@ + "None"@ + " }"@,
        message_text(MessageView::ChangesetAck { directory, success: false, error: None })
            == "ChangesetAck { directory: "@ + quoted(directory) + ", success: "@ + "false"@
            + ", error: "@ + "None"@ + " }"@,
        message_text(MessageView::ChangesetAck { directory, success: true, error: Some(reason) })
            == "ChangesetAck { directory: "@ + quoted(directory) + ", success: "@ + "true"@
            + ", error: "@ + ("Some("@ + quoted(reason) + ")"@) + " }"@,
        message_text(MessageView::ChangesetAck { directory, success: false, error: Some(reason) })
            == "ChangesetAck { directory: "@ + quoted(directory) + ", success: "@ + "false"@
            + ", error: "@ + ("Some("@ + quoted(reason) + ")"@) + " }"@,
{
}

/// The files of a message are rendered one after the other, separated by commas,
/// each with its name, path and size.
pub proof fn law_files_are_rendered_in_order(files: Seq<FileEntryView>, e: FileEntryView)
    ensures
        entries_text(Seq::empty()) == Seq::<char>::empty(),
        files.len() == 0 ==> entries_text(files.push(e)) == entry_text(e),
        files.len() > 0 ==> entries_text(files.push(e)) == entries_text(files) + ", "@
            + entry_text(e),
        entry_text(e) == "FileEntry { name: "@ + quoted(e.name) + ", manifest_path: "@ + quoted(
            e.manifest_path,
        ) + ", size: "@ + decimal(e.size) + " }"@,
{
    assert(files.push(e).drop_last() =~= files);
}

/// The value of an optional string is that of the string, where there is one.
pub proof fn law_optional_values(s: Option<String>)
    ensures
        s is None ==> option_view(s) is None,
        s matches Some(t) ==> option_view(s) == Some(t@),
{
}

} // verus!
