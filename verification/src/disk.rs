//! A model of the file system, and what the operations of a changeset do to it.
//!
//! Nothing here is executed: the model is what the laws of [`crate::placement`]
//! speak of. Paths are told apart by their text.

use vstd::prelude::*;

use crate::actions::{ActionView, ReplyView};
use crate::paths::join_of;

verus! {

/// The files and links of a file system, and the path of the file that is open
/// for writing.
#[verifier::ext_equal]
pub struct Disk {
    pub contents: Map<Seq<char>, Seq<u8>>,
    pub links: Map<Seq<char>, Seq<char>>,
    pub open: Seq<char>,
}

/// Whether `p` lies in the directory `dir`, at any depth.
pub open spec fn under(p: Seq<char>, dir: Seq<char>) -> bool {
    join_of(dir, Seq::empty()).is_prefix_of(p)
}

impl Disk {
    /// Whether there is a file at `p` with this content.
    pub open spec fn holds(self, p: Seq<char>, content: Seq<u8>) -> bool {
        self.contents.contains_key(p) && self.contents[p] == content
    }

    /// Whether there is a link at `p` that leads to `target`.
    pub open spec fn leads(self, p: Seq<char>, target: Seq<char>) -> bool {
        self.links.contains_key(p) && self.links[p] == target
    }

    /// Whether a reader who opens `name` in `directory` finds this content: the
    /// link there leads through the link `..data` to a file with it.
    pub open spec fn reads(self, directory: Seq<char>, name: Seq<char>, content: Seq<u8>) -> bool {
        &&& self.leads(join_of(directory, name), join_of("..data"@, name))
        &&& self.links.contains_key(join_of(directory, "..data"@))
        &&& self.holds(
            join_of(join_of(directory, self.links[join_of(directory, "..data"@)]), name),
            content,
        )
    }

    /// Whether there is nothing at `p`.
    pub open spec fn lacks(self, p: Seq<char>) -> bool {
        !self.contents.contains_key(p) && !self.links.contains_key(p)
    }

    /// Whether `other` has the same at `p`: the same file, the same link, or
    /// nothing.
    pub open spec fn same_at(self, other: Self, p: Seq<char>) -> bool {
        &&& self.contents.contains_key(p) == other.contents.contains_key(p)
        &&& self.contents.contains_key(p) ==> self.contents[p] == other.contents[p]
        &&& self.links.contains_key(p) == other.links.contains_key(p)
        &&& self.links.contains_key(p) ==> self.links[p] == other.links[p]
    }

    /// The file system after an operation that succeeded.
    pub open spec fn apply(self, action: ActionView) -> Self {
        match action {
            ActionView::CreateFile { path } => Disk {
                contents: self.contents.insert(path, Seq::empty()),
                open: path,
                ..self
            },
            ActionView::Write { bytes } => Disk {
                contents: self.contents.insert(self.open, self.contents[self.open] + bytes),
                ..self
            },
            ActionView::Rename { from, to } => if self.contents.contains_key(from) {
                Disk {
                    contents: self.contents.remove(from).insert(to, self.contents[from]),
                    links: self.links.remove(to),
                    ..self
                }
            } else if self.links.contains_key(from) {
                Disk {
                    contents: self.contents.remove(to),
                    links: self.links.remove(from).insert(to, self.links[from]),
                    ..self
                }
            } else {
                self
            },
            ActionView::RemoveFile { path } => Disk {
                contents: self.contents.remove(path),
                links: self.links.remove(path),
                ..self
            },
            ActionView::RemoveDir { path } => Disk {
                contents: self.contents.remove_keys(Set::new(|p: Seq<char>| under(p, path))),
                links: self.links.remove_keys(Set::new(|p: Seq<char>| under(p, path))),
                ..self
            },
            ActionView::Symlink { target, link } => Disk {
                contents: self.contents.remove(link),
                links: self.links.insert(link, target),
                ..self
            },
            _ => self,
        }
    }
}

/// Whether `after` can be the file system once `action` has had the outcome
/// `reply`. Removing a directory, writing and creating a file can fail half way;
/// the other operations have no effect when they fail.
pub open spec fn effect(before: Disk, action: ActionView, reply: ReplyView, after: Disk) -> bool {
    if reply is Failed {
        match action {
            ActionView::RemoveDir { path } => {
                &&& after.open == before.open
                &&& forall|p: Seq<char>| #[trigger]
                    before.same_at(after, p) || (under(p, path) && after.lacks(p))
            },
            ActionView::Write { bytes } => {
                &&& after.open == before.open
                &&& forall|p: Seq<char>| p != before.open ==> #[trigger] before.same_at(after, p)
                &&& after.links == before.links
            },
            ActionView::CreateFile { path } => {
                &&& forall|p: Seq<char>| p != path ==> #[trigger] before.same_at(after, p)
                &&& after.links == before.links
            },
            _ => after == before,
        }
    } else {
        after == before.apply(action)
    }
}

} // verus!
