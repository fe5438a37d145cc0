//! A memory-resident hierarchical file store, and the argument forms of the
//! command line that goes with it.
//!
//! The store keeps directories and files in an inode table ([`store`]) and
//! answers the calls that a kernel makes of a file system ([`fs`]): lookup,
//! getattr, readdir, read, write, setattr, create and mkdir. Every call is a
//! total function: it asks nothing of its caller and reports what it cannot
//! do as an [`error::FsError`]. Its contract says what it returns and what it
//! changes as a function of the abstract state in [`model`]; [`laws`] holds
//! what follows for every state and across calls.
//!
//! Nothing is kept beyond the life of the process, nothing is ever removed,
//! and the permission bits, owner and timestamps of every entry are fixed.
//!
//! Where a file system could behave in more than one way, this one behaves
//! as follows.
//! - A read at the end of a file yields no bytes; a read beyond the end fails
//!   with `InvalidOffset`.
//! - A write or a truncation of what is not a file fails with `NotFound` and
//!   changes nothing; it never reports bytes that it did not write.
//! - `setattr` of an identifier that names nothing fails with `NotFound`; on
//!   a directory a size is ignored.
//! - A creation under a name that is bound already binds the name anew. The
//!   entry that it was bound to stays in the store, no longer reachable by
//!   that name.
//! - A creation that fails hands out no identifier.
//! - A listing follows the order in which the names of a directory were
//!   first bound.

pub mod args;
pub mod attr;
pub mod directory;
pub mod entry;
pub mod error;
pub mod file;
pub mod fs;
pub mod laws;
pub mod model;
pub mod store;
