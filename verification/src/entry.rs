//! Entries: the objects that the store holds, each a directory or a file.

use vstd::prelude::*;
use crate::attr::{attr_of, perm_of, FileAttr, FileType};
use crate::directory::Directory;
use crate::file::File;

verus! {

/// What an entry is, as a mathematical value.
pub enum Node {
    /// A directory, given by its links in the order of a listing.
    Directory(Seq<(Seq<u8>, u64)>),
    /// A file, given by its bytes.
    File(Seq<u8>),
}

impl Node {
    /// The kind of the entry.
    pub open spec fn kind(self) -> FileType {
        match self {
            Node::Directory(_) => FileType::Directory,
            Node::File(_) => FileType::RegularFile,
        }
    }

    /// The size of the entry: 0 for a directory, the number of its bytes
    /// for a file.
    pub open spec fn size(self) -> nat {
        match self {
            Node::Directory(_) => 0,
            Node::File(bytes) => bytes.len(),
        }
    }

    /// The attribute record of the entry, held under the identifier `ino`.
    pub open spec fn attr(self, ino: u64) -> FileAttr {
        attr_of(ino, self.kind(), self.size() as u64)
    }

    /// The entry that a creation of kind `kind` makes: without links, or
    /// without bytes.
    pub open spec fn empty(kind: FileType) -> Node {
        match kind {
            FileType::Directory => Node::Directory(Seq::empty()),
            FileType::RegularFile => Node::File(Seq::empty()),
        }
    }
}

/// An entry of the store.
pub enum DirEntry {
    Directory(Directory),
    File(File),
}

impl View for DirEntry {
    type V = Node;

    open spec fn view(&self) -> Node {
        match self {
            DirEntry::Directory(dir) => Node::Directory(dir@),
            DirEntry::File(file) => Node::File(file@),
        }
    }
}

impl DirEntry {
    /// An entry of kind `kind` without links or bytes.
    pub fn empty(kind: FileType) -> (entry: DirEntry)
        ensures
            entry@ == Node::empty(kind),
    {
        match kind {
            FileType::Directory => DirEntry::Directory(Directory::new()),
            FileType::RegularFile => DirEntry::File(File::new()),
        }
    }

    /// The size of the entry: 0 for a directory, the number of its bytes
    /// for a file.
    pub fn size(&self) -> (n: u64)
        ensures
            n == self@.size(),
    {
        match self {
            DirEntry::Directory(_) => 0,
            DirEntry::File(file) => file.size(),
        }
    }

    /// The permission bits of the entry.
    pub fn perms(&self) -> (p: u16)
        ensures
            p == perm_of(self@.kind()),
    {
        match self {
            DirEntry::Directory(_) => crate::attr::DIR_PERM,
            DirEntry::File(_) => crate::attr::FILE_PERM,
        }
    }

    /// The kind of the entry.
    pub fn kind(&self) -> (k: FileType)
        ensures
            k == self@.kind(),
    {
        match self {
            DirEntry::Directory(_) => FileType::Directory,
            DirEntry::File(_) => FileType::RegularFile,
        }
    }

    /// The attribute record of the entry, held under the identifier `ino`.
    pub fn attr(&self, ino: u64) -> (attr: FileAttr)
        ensures
            attr == self@.attr(ino),
    {
        FileAttr::new(ino, self.kind(), self.size())
    }
}

} // verus!
