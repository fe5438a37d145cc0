//! What holds of the store in every state and across calls.

use vstd::prelude::*;
use crate::attr::{attr_of, FileType};
use crate::directory::{
    bound,
    distinct_names,
    lemma_bound_keeps_distinct,
    lemma_bound_links,
    lemma_bound_mapping,
    lemma_distinct_mapping,
    lemma_slot_exists,
    mapping,
    slot_of,
};
use crate::entry::Node;
use crate::error::FsError;
use crate::file::{max_len, truncated, written};
use crate::fs::{attr_reply, create_reply, entry_reply, DirRecordView};
use crate::model::{hello_bytes, hello_name, StoreView, HELLO_INO, ROOT_INO};

verus! {

/// The state at the start is well formed.
pub proof fn lemma_bootstrap_wf()
    ensures
        StoreView::bootstrap().wf(),
{
}

/// A listing of the root from the start, in the state at the start, holds
/// exactly one record: the name `hello.txt`, with the record of a file of
/// size 11.
pub proof fn lemma_bootstrap_listing()
    ensures
        StoreView::bootstrap().readdir(ROOT_INO, 0) == Ok::<Seq<DirRecordView>, FsError>(
            seq![
                DirRecordView {
                    name: hello_name(),
                    offset: 1,
                    attr: attr_of(HELLO_INO, FileType::RegularFile, 11),
                },
            ],
        ),
{
    let s = StoreView::bootstrap();
    assert(s.links(ROOT_INO) =~= seq![(hello_name(), HELLO_INO)]);
    assert(s.nodes.contains_key(HELLO_INO));
    assert(hello_bytes().len() == 11);
    let children = s.list_children(ROOT_INO, 0);
    assert(children is Ok);
    assert(children->Ok_0.len() == 1);
    assert(s.readdir(ROOT_INO, 0)->Ok_0 =~= seq![
        DirRecordView {
            name: hello_name(),
            offset: 1,
            attr: attr_of(HELLO_INO, FileType::RegularFile, 11),
        },
    ]);
}

/// A write leaves a well-formed state well formed.
pub proof fn lemma_write_keeps_wf(s: StoreView, ino: u64, offset: u64, data: Seq<u8>)
    requires
        s.wf(),
    ensures
        s.after_write(ino, offset, data).wf(),
{
    let t = s.after_write(ino, offset, data);
    if s.write(ino, offset, data) is Ok {
        assert forall|i: u64| #[trigger] t.nodes.contains_key(i) implies i < t.next by {
            assert(s.nodes.contains_key(i));
        }
        assert forall|i: u64| #[trigger] t.is_dir(i) implies distinct_names(t.links(i)) by {
            assert(s.is_dir(i));
        }
        assert forall|i: u64, k: int|
            #![trigger t.links(i)[k]]
            t.is_dir(i) && 0 <= k < t.links(i).len() implies t.nodes.contains_key(
            t.links(i)[k].1,
        ) by {
            assert(s.is_dir(i));
            assert(s.nodes.contains_key(s.links(i)[k].1));
        }
        assert forall|i: u64| #[trigger] t.is_file(i) implies t.bytes(i).len() <= usize::MAX by {
            assert(s.is_file(i));
        }
    }
}

/// A truncation leaves a well-formed state well formed.
pub proof fn lemma_truncate_keeps_wf(s: StoreView, ino: u64, new_size: u64)
    requires
        s.wf(),
    ensures
        s.after_truncate(ino, new_size).wf(),
{
    let t = s.after_truncate(ino, new_size);
    if s.is_file(ino) {
        assert forall|i: u64| #[trigger] t.nodes.contains_key(i) implies i < t.next by {
            assert(s.nodes.contains_key(i));
        }
        assert forall|i: u64| #[trigger] t.is_dir(i) implies distinct_names(t.links(i)) by {
            assert(s.is_dir(i));
        }
        assert forall|i: u64, k: int|
            #![trigger t.links(i)[k]]
            t.is_dir(i) && 0 <= k < t.links(i).len() implies t.nodes.contains_key(
            t.links(i)[k].1,
        ) by {
            assert(s.is_dir(i));
            assert(s.nodes.contains_key(s.links(i)[k].1));
        }
        assert forall|i: u64| #[trigger] t.is_file(i) implies t.bytes(i).len() <= usize::MAX by {
            assert(s.is_file(i));
        }
    }
}

/// A creation leaves a well-formed state well formed.
pub proof fn lemma_create_child_keeps_wf(s: StoreView, parent: u64, name: Seq<u8>, kind: FileType)
    requires
        s.wf(),
    ensures
        s.after_create_child(parent, name, kind).wf(),
{
    let t = s.after_create_child(parent, name, kind);
    if s.create_child(parent, name, kind) is Ok {
        let new = s.next;
        let old_links = s.links(parent);
        let new_links = bound(old_links, name, new);
        assert(s.nodes.contains_key(parent));
        assert(!s.nodes.contains_key(new));
        lemma_bound_keeps_distinct(old_links, name, new);
        assert forall|i: u64| #[trigger] t.nodes.contains_key(i) implies i < t.next by {
            if i != new {
                assert(s.nodes.contains_key(i));
            }
        }
        assert forall|i: u64| #[trigger] t.is_dir(i) implies distinct_names(t.links(i)) by {
            if i != new && i != parent {
                assert(s.is_dir(i));
            }
        }
        assert forall|i: u64, k: int|
            #![trigger t.links(i)[k]]
            t.is_dir(i) && 0 <= k < t.links(i).len() implies t.nodes.contains_key(
            t.links(i)[k].1,
        ) by {
            if i == parent {
                lemma_bound_links(old_links, name, new, k);
                if new_links[k] != (name, new) {
                    let j = choose|j: int| 0 <= j < old_links.len() && old_links[j] == new_links[k];
                    assert(s.nodes.contains_key(s.links(parent)[j].1));
                }
            } else if i != new {
                assert(s.is_dir(i));
                assert(s.nodes.contains_key(s.links(i)[k].1));
            }
        }
        assert forall|i: u64| #[trigger] t.is_file(i) implies t.bytes(i).len() <= usize::MAX by {
            if i != new {
                assert(s.is_file(i));
            }
        }
    }
}

/// A lookup of a name that the directory does not bind fails with
/// `NotFound`.
pub proof fn lemma_lookup_absent_name(s: StoreView, parent: u64, name: Seq<u8>)
    requires
        s.is_dir(parent),
        !mapping(s.links(parent)).contains_key(name),
    ensures
        s.lookup(parent, name) == Err::<crate::fs::EntryReply, FsError>(FsError::NotFound),
{
}

/// The identifier that a creation hands out named no entry before, and
/// names the empty entry of the kind asked for afterwards.
pub proof fn lemma_create_child_is_fresh(s: StoreView, parent: u64, name: Seq<u8>, kind: FileType)
    requires
        s.wf(),
        s.is_dir(parent),
        s.next < u64::MAX,
    ensures
        s.create_child(parent, name, kind) == Ok::<u64, FsError>(s.next),
        !s.nodes.contains_key(s.next),
        s.after_create_child(parent, name, kind).nodes.contains_key(s.next),
        s.after_create_child(parent, name, kind).nodes[s.next] == Node::empty(kind),
        s.after_create_child(parent, name, kind).next == s.next + 1,
{
}

/// After a creation, the name resolves in the parent to the new identifier
/// and the new entry.
pub proof fn lemma_create_child_then_resolve(
    s: StoreView,
    parent: u64,
    name: Seq<u8>,
    kind: FileType,
)
    requires
        s.wf(),
        s.is_dir(parent),
        s.next < u64::MAX,
    ensures
        s.after_create_child(parent, name, kind).resolve_child(parent, name) == Ok::<
            (u64, Node),
            FsError,
        >((s.next, Node::empty(kind))),
{
    lemma_create_child_is_fresh(s, parent, name, kind);
    lemma_bound_mapping(s.links(parent), name, s.next);
}

/// After `create`, a lookup of the name in the parent replies with the
/// record of the new file: its identifier, size 0, the kind of a file and
/// the permission bits of a file.
pub proof fn lemma_create_then_lookup(s: StoreView, parent: u64, name: Seq<u8>)
    requires
        s.wf(),
        s.is_dir(parent),
        s.next < u64::MAX,
    ensures
        s.create(parent, name) == Ok::<crate::fs::CreateReply, FsError>(
            create_reply(attr_of(s.next, FileType::RegularFile, 0)),
        ),
        s.after_create(parent, name).lookup(parent, name) == Ok::<crate::fs::EntryReply, FsError>(
            entry_reply(attr_of(s.next, FileType::RegularFile, 0)),
        ),
{
    lemma_create_child_then_resolve(s, parent, name, FileType::RegularFile);
}

/// After `mkdir`, a lookup of the name in the parent replies with the record
/// of the new directory: its identifier, size 0, the kind of a directory and
/// the permission bits of a directory.
pub proof fn lemma_mkdir_then_lookup(s: StoreView, parent: u64, name: Seq<u8>)
    requires
        s.wf(),
        s.is_dir(parent),
        s.next < u64::MAX,
    ensures
        s.mkdir(parent, name) == Ok::<crate::fs::EntryReply, FsError>(
            entry_reply(attr_of(s.next, FileType::Directory, 0)),
        ),
        s.after_mkdir(parent, name).lookup(parent, name) == Ok::<crate::fs::EntryReply, FsError>(
            entry_reply(attr_of(s.next, FileType::Directory, 0)),
        ),
{
    lemma_create_child_then_resolve(s, parent, name, FileType::Directory);
}

/// After a write, a read at the same offset of as many bytes as were
/// written returns exactly those bytes.
pub proof fn lemma_write_then_read(s: StoreView, ino: u64, offset: u64, data: Seq<u8>)
    requires
        s.is_file(ino),
        offset + data.len() <= max_len(),
        data.len() <= u32::MAX,
    ensures
        s.write(ino, offset, data) == Ok::<usize, FsError>(data.len() as usize),
        s.after_write(ino, offset, data).read(ino, offset, data.len() as u32) == Ok::<
            Seq<u8>,
            FsError,
        >(data),
{
    let after = s.after_write(ino, offset, data);
    let bytes = written(s.bytes(ino), offset as int, data);
    assert(after.bytes(ino) == bytes);
    assert(crate::file::read_span(bytes, offset as int, data.len() as int) =~= data);
}

/// After `create` and a write of `data` at the start of the new file, a read
/// from the start of as many bytes returns exactly `data`.
pub proof fn lemma_create_then_write_then_read(
    s: StoreView,
    parent: u64,
    name: Seq<u8>,
    data: Seq<u8>,
)
    requires
        s.wf(),
        s.is_dir(parent),
        s.next < u64::MAX,
        data.len() <= max_len(),
        data.len() <= u32::MAX,
    ensures
        s.after_create(parent, name).after_write(s.next, 0, data).read(
            s.next,
            0,
            data.len() as u32,
        ) == Ok::<Seq<u8>, FsError>(data),
{
    lemma_create_child_is_fresh(s, parent, name, FileType::RegularFile);
    lemma_write_then_read(s.after_create(parent, name), s.next, 0, data);
}

/// A write at or past the end of a file fills the gap with zeros: a read of
/// the whole file returns the old bytes, then a zero for each position of
/// the gap, then the bytes written.
pub proof fn lemma_write_past_end_zero_fills(s: StoreView, ino: u64, offset: u64, data: Seq<u8>)
    requires
        s.is_file(ino),
        s.bytes(ino).len() <= offset,
        offset + data.len() <= max_len(),
        offset + data.len() <= u32::MAX,
    ensures
        s.after_write(ino, offset, data).read(ino, 0, (offset + data.len()) as u32) == Ok::<
            Seq<u8>,
            FsError,
        >(s.bytes(ino) + Seq::new((offset - s.bytes(ino).len()) as nat, |i: int| 0u8) + data),
{
    let after = s.after_write(ino, offset, data);
    let bytes = written(s.bytes(ino), offset as int, data);
    assert(after.bytes(ino) == bytes);
    assert(crate::file::read_span(bytes, 0, offset + data.len()) =~= s.bytes(ino) + Seq::new(
        (offset - s.bytes(ino).len()) as nat,
        |i: int| 0u8,
    ) + data);
}

/// After `setattr` with a size, the file is no longer than that size, keeps
/// the bytes below it, and its record shows the new size.
pub proof fn lemma_setattr_truncates(s: StoreView, ino: u64, new_size: u64)
    requires
        s.is_file(ino),
    ensures
        s.after_setattr(ino, Some(new_size)).is_file(ino),
        s.after_setattr(ino, Some(new_size)).bytes(ino) == truncated(
            s.bytes(ino),
            new_size as int,
        ),
        s.after_setattr(ino, Some(new_size)).bytes(ino).len() <= new_size,
        s.setattr(ino, Some(new_size)) == Ok::<crate::fs::AttrReply, FsError>(
            attr_reply(
                attr_of(
                    ino,
                    FileType::RegularFile,
                    truncated(s.bytes(ino), new_size as int).len() as u64,
                ),
            ),
        ),
{
}

/// After `setattr` with the size 0, a read from the start returns no bytes,
/// however many are asked for.
pub proof fn lemma_setattr_zero_then_read(s: StoreView, ino: u64, size: u32)
    requires
        s.is_file(ino),
    ensures
        s.after_setattr(ino, Some(0)).read(ino, 0, size) == Ok::<Seq<u8>, FsError>(Seq::empty()),
{
    let after = s.after_setattr(ino, Some(0));
    assert(after.bytes(ino) =~= Seq::<u8>::empty());
    assert(crate::file::read_span(after.bytes(ino), 0, size as int) =~= Seq::<u8>::empty());
}

/// `getattr` depends on nothing but the entry: two states that hold the same
/// entry under `ino`, or both none, give the same reply. In particular two
/// calls between which the state has not changed reply alike.
pub proof fn lemma_getattr_depends_on_entry(s: StoreView, t: StoreView, ino: u64)
    requires
        s.nodes.contains_key(ino) == t.nodes.contains_key(ino),
        s.nodes.contains_key(ino) ==> s.nodes[ino] == t.nodes[ino],
    ensures
        s.getattr(ino) == t.getattr(ino),
{
}

/// In a well-formed state a listing of a directory never fails: no link is
/// broken.
pub proof fn lemma_listing_succeeds(s: StoreView, ino: u64, start: u64)
    requires
        s.wf(),
        s.is_dir(ino),
    ensures
        s.list_children(ino, start) is Ok,
        s.readdir(ino, start) is Ok,
{
    assert forall|i: int| start <= i < s.links(ino).len() implies !s.broken_at(ino, i) by {
        assert(s.nodes.contains_key(s.links(ino)[i].1));
    }
}

/// In a well-formed state a name resolves in a directory exactly where the
/// directory binds it.
pub proof fn lemma_resolve_succeeds(s: StoreView, parent: u64, name: Seq<u8>)
    requires
        s.wf(),
        s.is_dir(parent),
    ensures
        s.resolve_child(parent, name) is Ok <==> mapping(s.links(parent)).contains_key(name),
{
    if mapping(s.links(parent)).contains_key(name) {
        lemma_slot_exists(s.links(parent), name);
        let i = slot_of(s.links(parent), name);
        assert(s.nodes.contains_key(s.links(parent)[i].1));
    }
}

/// In a well-formed state every child that a listing shows resolves by its
/// name, in the directory listed, to its own identifier and entry.
pub proof fn lemma_listed_child_resolves(s: StoreView, ino: u64, i: int)
    requires
        s.wf(),
        s.is_dir(ino),
        0 <= i < s.links(ino).len(),
    ensures
        s.resolve_child(ino, s.links(ino)[i].0) == Ok::<(u64, Node), FsError>(
            (s.links(ino)[i].1, s.nodes[s.links(ino)[i].1]),
        ),
{
    lemma_distinct_mapping(s.links(ino), i);
    assert(s.nodes.contains_key(s.links(ino)[i].1));
}

/// A call that fails changes nothing.
pub proof fn lemma_failure_changes_nothing(
    s: StoreView,
    ino: u64,
    offset: u64,
    data: Seq<u8>,
    new_size: u64,
    name: Seq<u8>,
    kind: FileType,
)
    ensures
        s.write(ino, offset, data) is Err ==> s.after_write(ino, offset, data) == s,
        s.truncate(ino, new_size) is Err ==> s.after_truncate(ino, new_size) == s,
        s.setattr(ino, Some(new_size)) is Err ==> s.after_setattr(ino, Some(new_size)) == s,
        s.create_child(ino, name, kind) is Err ==> s.after_create_child(ino, name, kind) == s,
        s.create(ino, name) is Err ==> s.after_create(ino, name) == s,
        s.mkdir(ino, name) is Err ==> s.after_mkdir(ino, name) == s,
{
}

/// `setattr` changes no directory, whatever size it is given, and without
/// a size it changes nothing at all.
pub proof fn lemma_setattr_leaves_directories(s: StoreView, ino: u64, size: Option<u64>)
    ensures
        s.is_dir(ino) ==> s.after_setattr(ino, size) == s,
        size is None ==> s.after_setattr(ino, size) == s,
{
}

/// No call removes an entry or changes its kind: every entry of the state
/// before a write is an entry of the same kind after it.
pub proof fn lemma_write_keeps_entries(
    s: StoreView,
    ino: u64,
    offset: u64,
    data: Seq<u8>,
    other: u64,
)
    requires
        s.nodes.contains_key(other),
    ensures
        s.after_write(ino, offset, data).nodes.contains_key(other),
        s.after_write(ino, offset, data).nodes[other].kind() == s.nodes[other].kind(),
        other != ino ==> s.after_write(ino, offset, data).nodes[other] == s.nodes[other],
{
}

/// Every entry of the state before a truncation is an entry of the same kind
/// after it, and every entry but the truncated file is unchanged.
pub proof fn lemma_truncate_keeps_entries(s: StoreView, ino: u64, new_size: u64, other: u64)
    requires
        s.nodes.contains_key(other),
    ensures
        s.after_truncate(ino, new_size).nodes.contains_key(other),
        s.after_truncate(ino, new_size).nodes[other].kind() == s.nodes[other].kind(),
        other != ino ==> s.after_truncate(ino, new_size).nodes[other] == s.nodes[other],
{
}

/// Every entry of a well-formed state before a creation is an entry of the
/// same kind after it, and every entry but the parent is unchanged.
pub proof fn lemma_create_child_keeps_entries(
    s: StoreView,
    parent: u64,
    name: Seq<u8>,
    kind: FileType,
    other: u64,
)
    requires
        s.wf(),
        s.nodes.contains_key(other),
    ensures
        s.after_create_child(parent, name, kind).nodes.contains_key(other),
        s.after_create_child(parent, name, kind).nodes[other].kind() == s.nodes[other].kind(),
        other != parent ==> s.after_create_child(parent, name, kind).nodes[other]
            == s.nodes[other],
{
}

} // verus!
