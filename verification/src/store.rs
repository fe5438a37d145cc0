//! The entry store: the inode table that owns every entry.

use std::collections::HashMap;
use vstd::prelude::*;
use crate::attr::{FileAttr, FileType};
use crate::directory::Directory;
use crate::entry::{DirEntry, Node};
use crate::error::FsError;
use crate::file::File;
use crate::model::{ChildView, StoreView, FIRST_FREE_INO, HELLO_INO, ROOT_INO};

verus! {

broadcast use vstd::std_specs::hash::group_hash_axioms;

/// One item of a listing: a child of a directory.
#[derive(Debug, PartialEq, Eq)]
pub struct Child {
    pub ino: u64,
    pub name: Vec<u8>,
    pub kind: FileType,
}

impl View for Child {
    type V = ChildView;

    open spec fn view(&self) -> ChildView {
        ChildView { ino: self.ino, name: self.name@, kind: self.kind }
    }
}

/// The inode table. It owns every entry and hands out the identifiers.
pub struct EntryStore {
    next: u64,
    inodes: HashMap<u64, DirEntry>,
}

impl View for EntryStore {
    type V = StoreView;

    closed spec fn view(&self) -> StoreView {
        StoreView { next: self.next, nodes: self.inodes@.map_values(|entry: DirEntry| entry@) }
    }
}

impl EntryStore {
    /// The store at the start: the root directory, with the one file that it
    /// holds.
    pub fn bootstrap() -> (store: EntryStore)
        ensures
            store@ == StoreView::bootstrap(),
            store@.wf(),
    {
        let name: Vec<u8> = vec![104u8, 101u8, 108u8, 108u8, 111u8, 46u8, 116u8, 120u8, 116u8];
        let text: Vec<u8> = vec![
            72u8,
            101u8,
            108u8,
            108u8,
            111u8,
            32u8,
            119u8,
            111u8,
            114u8,
            108u8,
            100u8,
        ];
        let mut root = Directory::new();
        root.bind(name.as_slice(), HELLO_INO);
        let mut inodes: HashMap<u64, DirEntry> = HashMap::new();
        inodes.insert(ROOT_INO, DirEntry::Directory(root));
        inodes.insert(HELLO_INO, DirEntry::File(File::from_bytes(text)));
        let store = EntryStore { next: FIRST_FREE_INO, inodes };
        proof {
            crate::laws::lemma_bootstrap_wf();
            assert(name@ =~= crate::model::hello_name());
            assert(text@ =~= crate::model::hello_bytes());
            assert(root@ =~= seq![(crate::model::hello_name(), HELLO_INO)]);
            assert(store@.nodes =~= StoreView::bootstrap().nodes);
        }
        store
    }

    /// The identifier that `name` is bound to in the directory `parent`, and
    /// the entry that it names.
    pub fn resolve_child(&self, parent: u64, name: &[u8]) -> (r: Result<(u64, &DirEntry), FsError>)
        ensures
            match r {
                Ok((ino, entry)) => self@.resolve_child(parent, name@) == Ok::<
                    (u64, Node),
                    FsError,
                >((ino, entry@)),
                Err(e) => self@.resolve_child(parent, name@) == Err::<(u64, Node), FsError>(e),
            },
    {
        match self.inodes.get(&parent) {
            Some(DirEntry::Directory(dir)) => match dir.find(name) {
                Some(ino) => match self.inodes.get(&ino) {
                    Some(entry) => Ok((ino, entry)),
                    None => Err(FsError::NotFound),
                },
                None => Err(FsError::NotFound),
            },
            _ => Err(FsError::NotFound),
        }
    }

    /// The attribute record of the entry `ino`.
    pub fn attributes(&self, ino: u64) -> (r: Result<FileAttr, FsError>)
        ensures
            r == self@.attributes(ino),
    {
        match self.inodes.get(&ino) {
            Some(entry) => Ok(entry.attr(ino)),
            None => Err(FsError::NotFound),
        }
    }

    /// At most `size` bytes of the file `ino`, from `offset` on.
    pub fn read(&self, ino: u64, offset: u64, size: u32) -> (r: Result<&[u8], FsError>)
        ensures
            match r {
                Ok(span) => self@.read(ino, offset, size) == Ok::<Seq<u8>, FsError>(span@),
                Err(e) => self@.read(ino, offset, size) == Err::<Seq<u8>, FsError>(e),
            },
    {
        match self.inodes.get(&ino) {
            Some(DirEntry::File(file)) => file.read(offset, size),
            _ => Err(FsError::NotFound),
        }
    }

    /// Writes `data` at `offset` into the file `ino` and returns the number
    /// of bytes written.
    pub fn write(&mut self, ino: u64, offset: u64, data: &[u8]) -> (r: Result<usize, FsError>)
        ensures
            r == old(self)@.write(ino, offset, data@),
            final(self)@ == old(self)@.after_write(ino, offset, data@),
            old(self)@.wf() ==> final(self)@.wf(),
    {
        let r = match self.inodes.remove(&ino) {
            Some(DirEntry::File(mut file)) => {
                let r = file.write(offset, data);
                self.inodes.insert(ino, DirEntry::File(file));
                r
            },
            Some(other) => {
                self.inodes.insert(ino, other);
                Err(FsError::NotFound)
            },
            None => Err(FsError::NotFound),
        };
        proof {
            assert(self@.nodes =~= old(self)@.after_write(ino, offset, data@).nodes);
            if old(self)@.wf() {
                crate::laws::lemma_write_keeps_wf(old(self)@, ino, offset, data@);
            }
        }
        r
    }

    /// Drops the bytes of the file `ino` at or beyond `new_size`.
    pub fn truncate(&mut self, ino: u64, new_size: u64) -> (r: Result<(), FsError>)
        ensures
            r == old(self)@.truncate(ino, new_size),
            final(self)@ == old(self)@.after_truncate(ino, new_size),
            old(self)@.wf() ==> final(self)@.wf(),
    {
        let r = match self.inodes.remove(&ino) {
            Some(DirEntry::File(mut file)) => {
                file.truncate(new_size);
                self.inodes.insert(ino, DirEntry::File(file));
                Ok(())
            },
            Some(other) => {
                self.inodes.insert(ino, other);
                Err(FsError::NotFound)
            },
            None => Err(FsError::NotFound),
        };
        proof {
            assert(self@.nodes =~= old(self)@.after_truncate(ino, new_size).nodes);
            if old(self)@.wf() {
                crate::laws::lemma_truncate_keeps_wf(old(self)@, ino, new_size);
            }
        }
        r
    }

    /// Makes an empty entry of kind `kind`, binds `name` to it in the
    /// directory `parent`, and returns its identifier.
    pub fn create_child(&mut self, parent: u64, name: &[u8], kind: FileType) -> (r: Result<
        u64,
        FsError,
    >)
        ensures
            r == old(self)@.create_child(parent, name@, kind),
            final(self)@ == old(self)@.after_create_child(parent, name@, kind),
            old(self)@.wf() ==> final(self)@.wf(),
    {
        let r = match self.inodes.remove(&parent) {
            Some(DirEntry::Directory(mut dir)) => {
                if self.next == u64::MAX {
                    self.inodes.insert(parent, DirEntry::Directory(dir));
                    Err(FsError::NoSpace)
                } else {
                    let ino: u64 = self.next;
                    self.next = ino + 1;
                    dir.bind(name, ino);
                    self.inodes.insert(ino, DirEntry::empty(kind));
                    self.inodes.insert(parent, DirEntry::Directory(dir));
                    Ok(ino)
                }
            },
            Some(other) => {
                self.inodes.insert(parent, other);
                Err(FsError::NotFound)
            },
            None => Err(FsError::NotFound),
        };
        proof {
            assert(self@.nodes =~= old(self)@.after_create_child(parent, name@, kind).nodes);
            if old(self)@.wf() {
                crate::laws::lemma_create_child_keeps_wf(old(self)@, parent, name@, kind);
            }
        }
        r
    }

    /// The children of the directory `ino` from position `start` of its
    /// listing on, in the order of the listing. The positions of the children
    /// that it gives all fit a machine word.
    pub fn list_children(&self, ino: u64, start: u64) -> (r: Result<Vec<Child>, FsError>)
        ensures
            match r {
                Ok(items) => {
                    &&& self@.list_children(ino, start) == Ok::<Seq<ChildView>, FsError>(
                        items@.map_values(|c: Child| c@),
                    )
                    &&& items@.len() > 0 ==> start + items@.len() <= usize::MAX
                },
                Err(e) => self@.list_children(ino, start) == Err::<Seq<ChildView>, FsError>(e),
            },
    {
        let dir = match self.inodes.get(&ino) {
            Some(DirEntry::Directory(dir)) => dir,
            _ => { return Err(FsError::NotFound); },
        };
        let len: usize = dir.len();
        let first: usize = if start > len as u64 {
            len
        } else {
            start as usize
        };
        let mut items: Vec<Child> = Vec::new();
        let mut i: usize = first;
        while i < len
            invariant
                self@.is_dir(ino),
                dir@ == self@.links(ino),
                len == dir@.len(),
                first <= i <= len,
                first == start || (first == len && start > len),
                items@.len() == i - first,
                forall|k: int| first <= k < i ==> !self@.broken_at(ino, k),
                forall|k: int|
                    0 <= k < items@.len() ==> (#[trigger] items@[k])@ == self@.child_at(
                        ino,
                        first + k,
                    ),
            decreases len - i,
        {
            let (name, child) = match dir.get(i) {
                Some(link) => link,
                None => { return Err(FsError::NotFound); },
            };
            let kind = match self.inodes.get(&child) {
                Some(entry) => entry.kind(),
                None => {
                    assert(self@.broken_at(ino, i as int));
                    return Err(FsError::NotFound);
                },
            };
            items.push(Child { ino: child, name: vstd::slice::slice_to_vec(name), kind });
            i += 1;
        }
        proof {
            let listed = items@.map_values(|c: Child| c@);
            if start < len {
                assert(listed =~= Seq::new(
                    (len - start) as nat,
                    |k: int| self@.child_at(ino, start + k),
                ));
            } else {
                assert(listed =~= Seq::<ChildView>::empty());
            }
        }
        Ok(items)
    }
}

} // verus!
