//! Attribute records and the replies that carry them.

use vstd::prelude::*;

verus! {

/// Permission bits of every directory.
pub const DIR_PERM: u16 = 0o700;

/// Permission bits of every file.
pub const FILE_PERM: u16 = 0o600;

/// Link count reported for every entry.
pub const LINK_COUNT: u32 = 2;

/// Owner reported for every entry.
pub const OWNER_UID: u32 = 1000;

/// Group reported for every entry.
pub const OWNER_GID: u32 = 100;

/// Seconds for which a caller may cache an attribute record.
pub const TTL_SECS: i64 = 3;

/// A point in time, or a duration: seconds and nanoseconds.
#[derive(Clone, Copy, Debug, PartialEq, Eq, Structural)]
pub struct Timespec {
    pub sec: i64,
    pub nsec: i32,
}

/// The two shapes an entry can have.
#[derive(Clone, Copy, Debug, PartialEq, Eq, Structural)]
pub enum FileType {
    Directory,
    RegularFile,
}

/// The attribute record of one entry. It is derived from the entry on every
/// call and never stored.
#[derive(Clone, Copy, Debug, PartialEq, Eq, Structural)]
pub struct FileAttr {
    pub ino: u64,
    pub size: u64,
    pub blocks: u64,
    pub atime: Timespec,
    pub mtime: Timespec,
    pub ctime: Timespec,
    pub crtime: Timespec,
    pub kind: FileType,
    pub perm: u16,
    pub nlink: u32,
    pub uid: u32,
    pub gid: u32,
    pub rdev: u32,
    pub flags: u32,
}

/// The epoch, at which every timestamp of the store is fixed.
pub open spec fn epoch() -> Timespec {
    Timespec { sec: 0, nsec: 0 }
}

/// The validity that accompanies every attribute record.
pub open spec fn ttl() -> Timespec {
    Timespec { sec: TTL_SECS, nsec: 0 }
}

/// The permission bits that go with a kind.
pub open spec fn perm_of(kind: FileType) -> u16 {
    match kind {
        FileType::Directory => DIR_PERM,
        FileType::RegularFile => FILE_PERM,
    }
}

/// The attribute record of the entry `ino` of kind `kind` and size `size`.
pub open spec fn attr_of(ino: u64, kind: FileType, size: u64) -> FileAttr {
    FileAttr {
        ino,
        size,
        blocks: 0,
        atime: epoch(),
        mtime: epoch(),
        ctime: epoch(),
        crtime: epoch(),
        kind,
        perm: perm_of(kind),
        nlink: LINK_COUNT,
        uid: OWNER_UID,
        gid: OWNER_GID,
        rdev: 0,
        flags: 0,
    }
}

impl FileType {
    /// The permission bits of an entry of this kind.
    pub fn perm(self) -> (p: u16)
        ensures
            p == perm_of(self),
    {
        match self {
            FileType::Directory => DIR_PERM,
            FileType::RegularFile => FILE_PERM,
        }
    }
}

impl FileAttr {
    /// Builds the attribute record of the entry `ino`.
    pub fn new(ino: u64, kind: FileType, size: u64) -> (attr: FileAttr)
        ensures
            attr == attr_of(ino, kind, size),
    {
        let zero = Timespec { sec: 0, nsec: 0 };
        FileAttr {
            ino,
            size,
            blocks: 0,
            atime: zero,
            mtime: zero,
            ctime: zero,
            crtime: zero,
            kind,
            perm: kind.perm(),
            nlink: LINK_COUNT,
            uid: OWNER_UID,
            gid: OWNER_GID,
            rdev: 0,
            flags: 0,
        }
    }
}

} // verus!
