//! The calls that a kernel makes of the file system.
//!
//! Each call is one transaction on the entry store: it resolves its
//! identifiers there, performs the query or the mutation, and shapes the
//! reply. A call takes the file system by `&` or by `&mut`; where threads
//! share it, the lock that guards it is held for the whole call.

use vstd::prelude::*;
use crate::attr::{ttl, FileAttr, FileType, Timespec, TTL_SECS};
use crate::entry::Node;
use crate::error::FsError;
use crate::model::{ChildView, StoreView};
use crate::store::{Child, EntryStore};

verus! {

/// The reply to `lookup` and to `mkdir`: an attribute record, how long it
/// stays valid, and the generation of the identifier.
#[derive(Clone, Copy, Debug, PartialEq, Eq, Structural)]
pub struct EntryReply {
    pub ttl: Timespec,
    pub attr: FileAttr,
    pub generation: u64,
}

/// The reply to `getattr` and to `setattr`: an attribute record and how long
/// it stays valid.
#[derive(Clone, Copy, Debug, PartialEq, Eq, Structural)]
pub struct AttrReply {
    pub ttl: Timespec,
    pub attr: FileAttr,
}

/// The reply to `create`: that of `lookup`, with the handle and the flags of
/// the open file.
#[derive(Clone, Copy, Debug, PartialEq, Eq, Structural)]
pub struct CreateReply {
    pub ttl: Timespec,
    pub attr: FileAttr,
    pub generation: u64,
    pub fh: u64,
    pub flags: u32,
}

/// One record of the reply to `readdir`.
#[derive(Debug, PartialEq, Eq)]
pub struct DirRecord {
    /// The name of the child in the directory.
    pub name: Vec<u8>,
    /// The position after this record, at which a later listing goes on.
    pub offset: u64,
    /// The attribute record of the child.
    pub attr: FileAttr,
}

/// One record of the reply to `readdir`, as a mathematical value.
pub struct DirRecordView {
    pub name: Seq<u8>,
    pub offset: u64,
    pub attr: FileAttr,
}

impl View for DirRecord {
    type V = DirRecordView;

    open spec fn view(&self) -> DirRecordView {
        DirRecordView { name: self.name@, offset: self.offset, attr: self.attr }
    }
}

/// The reply that carries `attr` as the record of a directory entry.
pub open spec fn entry_reply(attr: FileAttr) -> EntryReply {
    EntryReply { ttl: ttl(), attr, generation: 0 }
}

/// The reply that carries `attr`.
pub open spec fn attr_reply(attr: FileAttr) -> AttrReply {
    AttrReply { ttl: ttl(), attr }
}

/// The reply that carries `attr` as the record of a file just created.
pub open spec fn create_reply(attr: FileAttr) -> CreateReply {
    CreateReply { ttl: ttl(), attr, generation: 0, fh: 0, flags: 0 }
}

impl StoreView {
    /// `lookup`: the record of the entry that `name` is bound to in the
    /// directory `parent`. It fails as `resolve_child` does.
    pub open spec fn lookup(self, parent: u64, name: Seq<u8>) -> Result<EntryReply, FsError> {
        match self.resolve_child(parent, name) {
            Ok((ino, node)) => Ok(entry_reply(node.attr(ino))),
            Err(e) => Err(e),
        }
    }

    /// `getattr`: the record of the entry `ino`. It fails as `attributes`
    /// does.
    pub open spec fn getattr(self, ino: u64) -> Result<AttrReply, FsError> {
        match self.attributes(ino) {
            Ok(attr) => Ok(attr_reply(attr)),
            Err(e) => Err(e),
        }
    }

    /// The record of a listing that stands for `child`, the item at position
    /// `k` of a listing that began at `offset`.
    pub open spec fn record_of(self, child: ChildView, offset: u64, k: int) -> DirRecordView {
        DirRecordView {
            name: child.name,
            offset: (offset + k + 1) as u64,
            attr: self.nodes[child.ino].attr(child.ino),
        }
    }

    /// `readdir`: one record for each child that `list_children` gives from
    /// position `offset` on. It fails as `list_children` does.
    pub open spec fn readdir(self, ino: u64, offset: u64) -> Result<Seq<DirRecordView>, FsError> {
        match self.list_children(ino, offset) {
            Ok(children) => Ok(
                Seq::new(children.len(), |k: int| self.record_of(children[k], offset, k)),
            ),
            Err(e) => Err(e),
        }
    }

    /// The state after `setattr`: where a size is given and `ino` names a
    /// file, the file is truncated to it; otherwise nothing changes.
    pub open spec fn after_setattr(self, ino: u64, size: Option<u64>) -> StoreView {
        match size {
            Some(new_size) => self.after_truncate(ino, new_size),
            None => self,
        }
    }

    /// `setattr`: the record of the entry `ino` after the call. It fails
    /// where `ino` names no entry.
    pub open spec fn setattr(self, ino: u64, size: Option<u64>) -> Result<AttrReply, FsError> {
        self.after_setattr(ino, size).getattr(ino)
    }

    /// `create`: the record of the new file. It fails as `create_child`
    /// does.
    pub open spec fn create(self, parent: u64, name: Seq<u8>) -> Result<CreateReply, FsError> {
        match self.create_child(parent, name, FileType::RegularFile) {
            Ok(ino) => Ok(create_reply(Node::empty(FileType::RegularFile).attr(ino))),
            Err(e) => Err(e),
        }
    }

    /// The state after `create`.
    pub open spec fn after_create(self, parent: u64, name: Seq<u8>) -> StoreView {
        self.after_create_child(parent, name, FileType::RegularFile)
    }

    /// `mkdir`: the record of the new directory. It fails as `create_child`
    /// does.
    pub open spec fn mkdir(self, parent: u64, name: Seq<u8>) -> Result<EntryReply, FsError> {
        match self.create_child(parent, name, FileType::Directory) {
            Ok(ino) => Ok(entry_reply(Node::empty(FileType::Directory).attr(ino))),
            Err(e) => Err(e),
        }
    }

    /// The state after `mkdir`.
    pub open spec fn after_mkdir(self, parent: u64, name: Seq<u8>) -> StoreView {
        self.after_create_child(parent, name, FileType::Directory)
    }
}

/// The file system: the entry store behind the calls of a kernel.
pub struct FstnFS {
    store: EntryStore,
}

impl View for FstnFS {
    type V = StoreView;

    closed spec fn view(&self) -> StoreView {
        self.store@
    }
}

impl Default for FstnFS {
    /// The file system at the start: the root directory `1`, which binds
    /// `hello.txt` to the file `2`, whose bytes are `Hello world`.
    fn default() -> (fs: FstnFS)
        ensures
            fs@ == StoreView::bootstrap(),
            fs@.wf(),
    {
        FstnFS { store: EntryStore::bootstrap() }
    }
}

impl FstnFS {
    /// The entry store behind the calls.
    pub fn store(&self) -> (store: &EntryStore)
        ensures
            store@ == self@,
    {
        &self.store
    }

    /// Looks `name` up in the directory `parent`.
    pub fn lookup(&self, parent: u64, name: &[u8]) -> (r: Result<EntryReply, FsError>)
        ensures
            r == self@.lookup(parent, name@),
    {
        match self.store.resolve_child(parent, name) {
            Ok((ino, entry)) => Ok(
                EntryReply { ttl: validity(), attr: entry.attr(ino), generation: 0 },
            ),
            Err(e) => Err(e),
        }
    }

    /// The attribute record of the entry `ino`.
    pub fn getattr(&self, ino: u64) -> (r: Result<AttrReply, FsError>)
        ensures
            r == self@.getattr(ino),
    {
        match self.store.attributes(ino) {
            Ok(attr) => Ok(AttrReply { ttl: validity(), attr }),
            Err(e) => Err(e),
        }
    }

    /// Lists the directory `ino` from position `offset` on: one record for
    /// each child, in the order of the listing.
    pub fn readdir(&self, ino: u64, offset: u64) -> (r: Result<Vec<DirRecord>, FsError>)
        ensures
            match r {
                Ok(records) => self@.readdir(ino, offset) == Ok::<Seq<DirRecordView>, FsError>(
                    records@.map_values(|d: DirRecord| d@),
                ),
                Err(e) => self@.readdir(ino, offset) == Err::<Seq<DirRecordView>, FsError>(e),
            },
    {
        let children = match self.store.list_children(ino, offset) {
            Ok(children) => children,
            Err(e) => { return Err(e); },
        };
        let ghost listed = children@.map_values(|c: Child| c@);
        let count: usize = children.len();
        let mut records: Vec<DirRecord> = Vec::new();
        let mut k: usize = 0;
        while k < count
            invariant
                k <= count,
                count == children@.len(),
                count > 0 ==> offset + count <= usize::MAX,
                listed == children@.map_values(|c: Child| c@),
                self@.list_children(ino, offset) == Ok::<Seq<ChildView>, FsError>(listed),
                records@.len() == k,
                forall|j: int|
                    0 <= j < k ==> (#[trigger] records@[j])@ == self@.record_of(
                        listed[j],
                        offset,
                        j,
                    ),
            decreases count - k,
        {
            let child = &children[k];
            assert(listed[k as int] == child@);
            assert(!self@.broken_at(ino, offset + k));
            let attr = match self.store.attributes(child.ino) {
                Ok(attr) => attr,
                Err(e) => { return Err(e); },
            };
            records.push(
                DirRecord {
                    name: vstd::slice::slice_to_vec(child.name.as_slice()),
                    offset: offset + k as u64 + 1,
                    attr,
                },
            );
            k += 1;
        }
        proof {
            assert(records@.map_values(|d: DirRecord| d@) =~= Seq::new(
                listed.len(),
                |j: int| self@.record_of(listed[j], offset, j),
            ));
        }
        Ok(records)
    }

    /// At most `size` bytes of the file `ino`, from `offset` on.
    pub fn read(&self, ino: u64, offset: u64, size: u32) -> (r: Result<&[u8], FsError>)
        ensures
            match r {
                Ok(span) => self@.read(ino, offset, size) == Ok::<Seq<u8>, FsError>(span@),
                Err(e) => self@.read(ino, offset, size) == Err::<Seq<u8>, FsError>(e),
            },
    {
        self.store.read(ino, offset, size)
    }

    /// Writes `data` at `offset` into the file `ino` and replies with the
    /// number of bytes written.
    pub fn write(&mut self, ino: u64, offset: u64, data: &[u8]) -> (r: Result<usize, FsError>)
        ensures
            r == old(self)@.write(ino, offset, data@),
            final(self)@ == old(self)@.after_write(ino, offset, data@),
            old(self)@.wf() ==> final(self)@.wf(),
    {
        self.store.write(ino, offset, data)
    }

    /// Truncates the file `ino` to `size`, where one is given, and replies
    /// with the attribute record of the entry `ino` as it then is. On a
    /// directory a size changes nothing.
    pub fn setattr(&mut self, ino: u64, size: Option<u64>) -> (r: Result<AttrReply, FsError>)
        ensures
            r == old(self)@.setattr(ino, size),
            final(self)@ == old(self)@.after_setattr(ino, size),
            old(self)@.wf() ==> final(self)@.wf(),
    {
        match size {
            Some(new_size) => {
                let _ = self.store.truncate(ino, new_size);
            },
            None => {},
        }
        self.getattr(ino)
    }

    /// Makes an empty file, binds `name` to it in the directory `parent`,
    /// and replies with its attribute record.
    pub fn create(&mut self, parent: u64, name: &[u8]) -> (r: Result<CreateReply, FsError>)
        ensures
            r == old(self)@.create(parent, name@),
            final(self)@ == old(self)@.after_create(parent, name@),
            old(self)@.wf() ==> final(self)@.wf(),
    {
        match self.store.create_child(parent, name, FileType::RegularFile) {
            Ok(ino) => Ok(
                CreateReply {
                    ttl: validity(),
                    attr: FileAttr::new(ino, FileType::RegularFile, 0),
                    generation: 0,
                    fh: 0,
                    flags: 0,
                },
            ),
            Err(e) => Err(e),
        }
    }

    /// Makes an empty directory, binds `name` to it in the directory
    /// `parent`, and replies with its attribute record.
    pub fn mkdir(&mut self, parent: u64, name: &[u8]) -> (r: Result<EntryReply, FsError>)
        ensures
            r == old(self)@.mkdir(parent, name@),
            final(self)@ == old(self)@.after_mkdir(parent, name@),
            old(self)@.wf() ==> final(self)@.wf(),
    {
        match self.store.create_child(parent, name, FileType::Directory) {
            Ok(ino) => Ok(
                EntryReply {
                    ttl: validity(),
                    attr: FileAttr::new(ino, FileType::Directory, 0),
                    generation: 0,
                },
            ),
            Err(e) => Err(e),
        }
    }
}

/// How long a caller may cache an attribute record.
pub fn validity() -> (t: Timespec)
    ensures
        t == ttl(),
{
    Timespec { sec: TTL_SECS, nsec: 0 }
}

} // verus!
