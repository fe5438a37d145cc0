//! The abstract state of the store, and what each primitive does to it.
//!
//! A state is a counter and a finite map from identifiers to entries. Each
//! primitive is a function of the state: one that gives its result and, for a
//! primitive that mutates, one that gives the state after it. They are defined
//! on every state, also on one that is not well formed, so that a broken link
//! has a meaning: the primitive that meets one reports it.

use vstd::prelude::*;
use crate::attr::{FileAttr, FileType};
use crate::directory::{bound, distinct_names, mapping};
use crate::entry::Node;
use crate::error::FsError;
use crate::file::{max_len, read_span, truncated, written};

verus! {

/// The identifier of the root directory.
pub const ROOT_INO: u64 = 1;

/// The identifier of the file that the root directory holds at the start.
pub const HELLO_INO: u64 = 2;

/// The first identifier that a creation hands out.
pub const FIRST_FREE_INO: u64 = 3;

/// One item of a listing, as a mathematical value.
pub struct ChildView {
    pub ino: u64,
    pub name: Seq<u8>,
    pub kind: FileType,
}

/// The state of the store.
#[verifier::ext_equal]
pub struct StoreView {
    /// The identifier that the next creation hands out.
    pub next: u64,
    /// The entries, by identifier.
    pub nodes: Map<u64, Node>,
}

impl StoreView {
    /// Whether `ino` names a directory.
    pub open spec fn is_dir(self, ino: u64) -> bool {
        self.nodes.contains_key(ino) && self.nodes[ino] is Directory
    }

    /// Whether `ino` names a file.
    pub open spec fn is_file(self, ino: u64) -> bool {
        self.nodes.contains_key(ino) && self.nodes[ino] is File
    }

    /// The links of the directory `ino`.
    pub open spec fn links(self, ino: u64) -> Seq<(Seq<u8>, u64)>
        recommends
            self.is_dir(ino),
    {
        self.nodes[ino]->Directory_0
    }

    /// The bytes of the file `ino`.
    pub open spec fn bytes(self, ino: u64) -> Seq<u8>
        recommends
            self.is_file(ino),
    {
        self.nodes[ino]->File_0
    }

    /// Whether the state is well formed: the root is a directory, the counter
    /// lies above every identifier in use, no directory binds a name twice,
    /// every link leads to an entry of the store, and every file has a length
    /// that a buffer can have.
    pub open spec fn wf(self) -> bool {
        &&& self.is_dir(ROOT_INO)
        &&& forall|ino: u64| #[trigger] self.nodes.contains_key(ino) ==> ino < self.next
        &&& forall|ino: u64| #[trigger] self.is_dir(ino) ==> distinct_names(self.links(ino))
        &&& forall|ino: u64, i: int|
            #![trigger self.links(ino)[i]]
            self.is_dir(ino) && 0 <= i < self.links(ino).len() ==> self.nodes.contains_key(
                self.links(ino)[i].1,
            )
        &&& forall|ino: u64| #[trigger] self.is_file(ino) ==> self.bytes(ino).len() <= usize::MAX
    }

    /// The state at the start: the root directory, which binds `hello.txt`
    /// to a file of the eleven bytes `Hello world`.
    pub open spec fn bootstrap() -> StoreView {
        StoreView {
            next: FIRST_FREE_INO,
            nodes: Map::empty().insert(
                ROOT_INO,
                Node::Directory(seq![(hello_name(), HELLO_INO)]),
            ).insert(HELLO_INO, Node::File(hello_bytes())),
        }
    }

    /// `resolve_child`: the identifier that `name` is bound to in the
    /// directory `parent`, with the entry it names. It fails where `parent`
    /// is no directory, where `name` is not bound in it, and where the
    /// identifier it is bound to names no entry.
    pub open spec fn resolve_child(self, parent: u64, name: Seq<u8>) -> Result<
        (u64, Node),
        FsError,
    > {
        if !self.is_dir(parent) {
            Err(FsError::NotFound)
        } else if !mapping(self.links(parent)).contains_key(name) {
            Err(FsError::NotFound)
        } else {
            let child = mapping(self.links(parent))[name];
            if self.nodes.contains_key(child) {
                Ok((child, self.nodes[child]))
            } else {
                Err(FsError::NotFound)
            }
        }
    }

    /// `attributes`: the attribute record of the entry `ino`. It fails where
    /// `ino` names no entry.
    pub open spec fn attributes(self, ino: u64) -> Result<FileAttr, FsError> {
        if self.nodes.contains_key(ino) {
            Ok(self.nodes[ino].attr(ino))
        } else {
            Err(FsError::NotFound)
        }
    }

    /// `read`: at most `size` bytes of the file `ino`, from `offset` on. It
    /// fails where `ino` names no file, and where `offset` lies beyond the
    /// end of the file.
    pub open spec fn read(self, ino: u64, offset: u64, size: u32) -> Result<Seq<u8>, FsError> {
        if !self.is_file(ino) {
            Err(FsError::NotFound)
        } else if offset > self.bytes(ino).len() {
            Err(FsError::InvalidOffset)
        } else {
            Ok(read_span(self.bytes(ino), offset as int, size as int))
        }
    }

    /// `write`: the number of bytes written, which is all of `data`. It
    /// fails where `ino` names no file, and where the write would end beyond
    /// the greatest length a buffer can have.
    pub open spec fn write(self, ino: u64, offset: u64, data: Seq<u8>) -> Result<usize, FsError> {
        if !self.is_file(ino) {
            Err(FsError::NotFound)
        } else if offset + data.len() > max_len() {
            Err(FsError::InvalidOffset)
        } else {
            Ok(data.len() as usize)
        }
    }

    /// The state after `write`: the file `ino` holds `data` at `offset`, and
    /// nothing else has changed. A write that fails changes nothing.
    pub open spec fn after_write(self, ino: u64, offset: u64, data: Seq<u8>) -> StoreView {
        if self.write(ino, offset, data) is Ok {
            StoreView {
                nodes: self.nodes.insert(
                    ino,
                    Node::File(written(self.bytes(ino), offset as int, data)),
                ),
                ..self
            }
        } else {
            self
        }
    }

    /// `truncate`: it fails where `ino` names no file.
    pub open spec fn truncate(self, ino: u64, new_size: u64) -> Result<(), FsError> {
        if self.is_file(ino) {
            Ok(())
        } else {
            Err(FsError::NotFound)
        }
    }

    /// The state after `truncate`: the file `ino` has lost its bytes at or
    /// beyond `new_size`, and nothing else has changed. A truncation that
    /// fails changes nothing.
    pub open spec fn after_truncate(self, ino: u64, new_size: u64) -> StoreView {
        if self.is_file(ino) {
            StoreView {
                nodes: self.nodes.insert(
                    ino,
                    Node::File(truncated(self.bytes(ino), new_size as int)),
                ),
                ..self
            }
        } else {
            self
        }
    }

    /// `create_child`: the identifier of the new entry, which is the
    /// counter. It fails where `parent` is no directory, and where the
    /// counter has reached the last identifier.
    pub open spec fn create_child(self, parent: u64, name: Seq<u8>, kind: FileType) -> Result<
        u64,
        FsError,
    > {
        if !self.is_dir(parent) {
            Err(FsError::NotFound)
        } else if self.next == u64::MAX {
            Err(FsError::NoSpace)
        } else {
            Ok(self.next)
        }
    }

    /// The state after `create_child`: the store holds an empty entry of
    /// kind `kind` under the old counter, `parent` binds `name` to it, the
    /// counter has moved on by one, and nothing else has changed. A creation
    /// that fails changes nothing.
    pub open spec fn after_create_child(
        self,
        parent: u64,
        name: Seq<u8>,
        kind: FileType,
    ) -> StoreView {
        if self.create_child(parent, name, kind) is Ok {
            StoreView {
                next: (self.next + 1) as u64,
                nodes: self.nodes.insert(self.next, Node::empty(kind)).insert(
                    parent,
                    Node::Directory(bound(self.links(parent), name, self.next)),
                ),
            }
        } else {
            self
        }
    }

    /// Whether the link at position `i` of the directory `ino` leads nowhere.
    pub open spec fn broken_at(self, ino: u64, i: int) -> bool {
        !self.nodes.contains_key(self.links(ino)[i].1)
    }

    /// The item of a listing that stands for the link at position `i` of the
    /// directory `ino`.
    pub open spec fn child_at(self, ino: u64, i: int) -> ChildView {
        let (name, child) = self.links(ino)[i];
        ChildView { ino: child, name, kind: self.nodes[child].kind() }
    }

    /// `list_children`: one item for each link of the directory `ino` from
    /// position `start` on, in the order of the links. It fails where `ino`
    /// is no directory, and where one of those links leads nowhere.
    pub open spec fn list_children(self, ino: u64, start: u64) -> Result<Seq<ChildView>, FsError> {
        if !self.is_dir(ino) {
            Err(FsError::NotFound)
        } else if exists|i: int| start <= i < self.links(ino).len() && self.broken_at(ino, i) {
            Err(FsError::NotFound)
        } else if start >= self.links(ino).len() {
            Ok(Seq::empty())
        } else {
            Ok(
                Seq::new(
                    (self.links(ino).len() - start) as nat,
                    |k: int| self.child_at(ino, start + k),
                ),
            )
        }
    }
}

/// The bytes of the name `hello.txt`.
pub open spec fn hello_name() -> Seq<u8> {
    seq![104u8, 101u8, 108u8, 108u8, 111u8, 46u8, 116u8, 120u8, 116u8]
}

/// The bytes of the text `Hello world`.
pub open spec fn hello_bytes() -> Seq<u8> {
    seq![72u8, 101u8, 108u8, 108u8, 111u8, 32u8, 119u8, 111u8, 114u8, 108u8, 100u8]
}

} // verus!
