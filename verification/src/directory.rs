//! The name mapping of a directory.
//!
//! A directory binds names to inode identifiers. It holds its links in the
//! order in which their names were first bound, no name twice; that order is
//! the order of a listing.

use vstd::prelude::*;

verus! {

/// Whether some link of `links` carries `name`.
pub open spec fn binds(links: Seq<(Seq<u8>, u64)>, name: Seq<u8>) -> bool {
    exists|i: int| #![trigger links[i]] 0 <= i < links.len() && links[i].0 == name
}

/// Whether `i` is the first position of `links` that carries `name`.
pub open spec fn is_slot_of(links: Seq<(Seq<u8>, u64)>, name: Seq<u8>, i: int) -> bool {
    &&& 0 <= i < links.len()
    &&& links[i].0 == name
    &&& forall|j: int| #![trigger links[j]] 0 <= j < i ==> links[j].0 != name
}

/// The first position of `links` that carries `name`, where there is one.
pub open spec fn slot_of(links: Seq<(Seq<u8>, u64)>, name: Seq<u8>) -> int
    recommends
        binds(links, name),
{
    choose|i: int| is_slot_of(links, name, i)
}

/// The mapping that `links` stands for: each name that some link carries, to
/// the identifier of the first link that carries it.
pub open spec fn mapping(links: Seq<(Seq<u8>, u64)>) -> Map<Seq<u8>, u64> {
    Map::new(|name: Seq<u8>| binds(links, name), |name: Seq<u8>| links[slot_of(links, name)].1)
}

/// The links after `name` has been bound to `ino`: a link that carries `name`
/// already is overwritten where it stands, otherwise a new link is added at
/// the end.
pub open spec fn bound(links: Seq<(Seq<u8>, u64)>, name: Seq<u8>, ino: u64) -> Seq<
    (Seq<u8>, u64),
> {
    if binds(links, name) {
        links.update(slot_of(links, name), (name, ino))
    } else {
        links.push((name, ino))
    }
}

/// Whether no two links of `links` carry the same name.
pub open spec fn distinct_names(links: Seq<(Seq<u8>, u64)>) -> bool {
    forall|i: int, j: int|
        #![trigger links[i], links[j]]
        0 <= i < j < links.len() ==> links[i].0 != links[j].0
}

/// A name that is bound has a first position.
pub proof fn lemma_slot_exists(links: Seq<(Seq<u8>, u64)>, name: Seq<u8>)
    requires
        binds(links, name),
    ensures
        is_slot_of(links, name, slot_of(links, name)),
{
    let i = choose|i: int| #![trigger links[i]] 0 <= i < links.len() && links[i].0 == name;
    lemma_first_at_or_before(links, name, i);
}

/// Where position `i` carries `name`, some position at or before `i` is the
/// first that does.
proof fn lemma_first_at_or_before(links: Seq<(Seq<u8>, u64)>, name: Seq<u8>, i: int)
    requires
        0 <= i < links.len(),
        links[i].0 == name,
    ensures
        exists|k: int| is_slot_of(links, name, k),
    decreases i,
{
    if exists|j: int| #![trigger links[j]] 0 <= j < i && links[j].0 == name {
        let j = choose|j: int| #![trigger links[j]] 0 <= j < i && links[j].0 == name;
        lemma_first_at_or_before(links, name, j);
    } else {
        assert(is_slot_of(links, name, i));
    }
}

/// The first position that carries a name is the only one that is first.
pub proof fn lemma_slot_unique(links: Seq<(Seq<u8>, u64)>, name: Seq<u8>, i: int)
    requires
        is_slot_of(links, name, i),
    ensures
        binds(links, name),
        slot_of(links, name) == i,
{
    let k = slot_of(links, name);
    assert(is_slot_of(links, name, k));
    if k < i {
        assert(links[k].0 == name);
    }
    if i < k {
        assert(links[i].0 == name);
    }
}

/// Binding a name keeps the names of a directory distinct.
pub proof fn lemma_bound_keeps_distinct(links: Seq<(Seq<u8>, u64)>, name: Seq<u8>, ino: u64)
    requires
        distinct_names(links),
    ensures
        distinct_names(bound(links, name, ino)),
{
    let after = bound(links, name, ino);
    if binds(links, name) {
        lemma_slot_exists(links, name);
        let s = slot_of(links, name);
        assert forall|i: int, j: int|
            #![trigger after[i], after[j]]
            0 <= i < j < after.len() implies after[i].0 != after[j].0 by {
            assert(after[i].0 == links[i].0);
            assert(after[j].0 == links[j].0);
        }
    } else {
        assert forall|i: int, j: int|
            #![trigger after[i], after[j]]
            0 <= i < j < after.len() implies after[i].0 != after[j].0 by {
            if j == links.len() {
                assert(links[i].0 != name);
            }
        }
    }
}

/// Every link of a directory after a binding is the new link or one that the
/// directory held before.
pub proof fn lemma_bound_links(links: Seq<(Seq<u8>, u64)>, name: Seq<u8>, ino: u64, k: int)
    requires
        0 <= k < bound(links, name, ino).len(),
    ensures
        bound(links, name, ino)[k] == (name, ino) || exists|j: int|
            0 <= j < links.len() && links[j] == bound(links, name, ino)[k],
{
    let after = bound(links, name, ino);
    if binds(links, name) {
        lemma_slot_exists(links, name);
        if k != slot_of(links, name) {
            assert(links[k] == after[k]);
        }
    } else {
        if k < links.len() {
            assert(links[k] == after[k]);
        }
    }
}

/// A directory maps a name, after it has been bound to `ino`, to `ino`, and
/// every other name to what it was mapped to before: the links stand for the
/// mapping with the one binding inserted.
pub proof fn lemma_bound_mapping(links: Seq<(Seq<u8>, u64)>, name: Seq<u8>, ino: u64)
    ensures
        mapping(bound(links, name, ino)) == mapping(links).insert(name, ino),
{
    let after = bound(links, name, ino);
    assert forall|other: Seq<u8>| binds(after, other) == (other == name || binds(links, other)) by {
        lemma_bound_binds(links, name, ino, other);
    }
    assert forall|other: Seq<u8>| #[trigger]
        binds(after, other) implies after[slot_of(after, other)].1 == (if other == name {
        ino
    } else {
        links[slot_of(links, other)].1
    }) by {
        lemma_bound_binds(links, name, ino, other);
        lemma_bound_target(links, name, ino, other);
    }
    assert(mapping(after) =~= mapping(links).insert(name, ino));
}

/// The names that a directory binds after a binding are the bound name and
/// those that it bound before.
pub proof fn lemma_bound_binds(
    links: Seq<(Seq<u8>, u64)>,
    name: Seq<u8>,
    ino: u64,
    other: Seq<u8>,
)
    ensures
        binds(bound(links, name, ino), other) == (other == name || binds(links, other)),
{
    let after = bound(links, name, ino);
    if binds(links, name) {
        lemma_slot_exists(links, name);
        let s = slot_of(links, name);
        assert(after[s].0 == name);
        if binds(links, other) {
            let i = choose|i: int| #![trigger links[i]] 0 <= i < links.len() && links[i].0 == other;
            assert(after[i].0 == other);
        }
        if binds(after, other) {
            let i = choose|i: int| #![trigger after[i]] 0 <= i < after.len() && after[i].0 == other;
            assert(links[i].0 == after[i].0);
        }
    } else {
        assert(after[links.len() as int].0 == name);
        if binds(links, other) {
            let i = choose|i: int| #![trigger links[i]] 0 <= i < links.len() && links[i].0 == other;
            assert(after[i].0 == other);
        }
        if binds(after, other) && other != name {
            let i = choose|i: int| #![trigger after[i]] 0 <= i < after.len() && after[i].0 == other;
            assert(links[i].0 == other);
        }
    }
}

/// What the first link that carries a name leads to after a binding: the new
/// identifier for the bound name, the old one for every other name.
pub proof fn lemma_bound_target(
    links: Seq<(Seq<u8>, u64)>,
    name: Seq<u8>,
    ino: u64,
    other: Seq<u8>,
)
    requires
        binds(bound(links, name, ino), other),
    ensures
        bound(links, name, ino)[slot_of(bound(links, name, ino), other)].1 == (if other == name {
            ino
        } else {
            links[slot_of(links, other)].1
        }),
{
    let after = bound(links, name, ino);
    lemma_bound_binds(links, name, ino, other);
    if binds(links, name) {
        lemma_slot_exists(links, name);
        let s = slot_of(links, name);
        if other == name {
            assert(is_slot_of(after, name, s)) by {
                assert forall|j: int| #![trigger after[j]] 0 <= j < s implies after[j].0 != name by {
                    assert(links[j].0 != name);
                }
            }
            lemma_slot_unique(after, name, s);
        } else {
            lemma_slot_exists(links, other);
            let i = slot_of(links, other);
            assert(is_slot_of(after, other, i)) by {
                assert forall|j: int| #![trigger after[j]] 0 <= j < i implies after[j].0
                    != other by {
                    assert(links[j].0 != other);
                }
            }
            lemma_slot_unique(after, other, i);
        }
    } else {
        if other == name {
            let n = links.len() as int;
            assert(is_slot_of(after, name, n)) by {
                assert forall|j: int| #![trigger after[j]] 0 <= j < n implies after[j].0 != name by {
                    assert(links[j].0 != name);
                }
            }
            lemma_slot_unique(after, name, n);
        } else {
            lemma_slot_exists(links, other);
            let i = slot_of(links, other);
            assert(is_slot_of(after, other, i)) by {
                assert forall|j: int| #![trigger after[j]] 0 <= j < i implies after[j].0
                    != other by {
                    assert(links[j].0 != other);
                }
            }
            lemma_slot_unique(after, other, i);
        }
    }
}

/// Where no name stands twice, every link is the first that carries its
/// name: the mapping takes the name of each link to the identifier of that
/// link.
pub proof fn lemma_distinct_mapping(links: Seq<(Seq<u8>, u64)>, i: int)
    requires
        distinct_names(links),
        0 <= i < links.len(),
    ensures
        mapping(links).contains_key(links[i].0),
        mapping(links)[links[i].0] == links[i].1,
{
    assert(is_slot_of(links, links[i].0, i)) by {
        assert forall|j: int| #![trigger links[j]] 0 <= j < i implies links[j].0 != links[i].0 by {
            assert(links[j].0 != links[i].0);
        }
    }
    lemma_slot_unique(links, links[i].0, i);
}

/// Whether two byte strings hold the same bytes.
pub fn same_bytes(a: &[u8], b: &[u8]) -> (same: bool)
    ensures
        same == (a@ == b@),
{
    if a.len() != b.len() {
        return false;
    }
    let mut i: usize = 0;
    while i < a.len()
        invariant
            i <= a@.len(),
            a@.len() == b@.len(),
            forall|j: int| 0 <= j < i ==> a@[j] == b@[j],
        decreases a@.len() - i,
    {
        if a[i] != b[i] {
            return false;
        }
        i += 1;
    }
    assert(a@ =~= b@);
    true
}

/// One link of a directory: a name and the identifier it is bound to.
pub struct Link {
    name: Vec<u8>,
    ino: u64,
}

impl View for Link {
    type V = (Seq<u8>, u64);

    closed spec fn view(&self) -> (Seq<u8>, u64) {
        (self.name@, self.ino)
    }
}

/// A directory: its links, in the order of a listing.
pub struct Directory {
    links: Vec<Link>,
}

impl View for Directory {
    type V = Seq<(Seq<u8>, u64)>;

    closed spec fn view(&self) -> Seq<(Seq<u8>, u64)> {
        Seq::new(self.links@.len(), |i: int| self.links@[i]@)
    }
}

impl Directory {
    /// A directory without links.
    pub fn new() -> (dir: Directory)
        ensures
            dir@ == Seq::<(Seq<u8>, u64)>::empty(),
    {
        Directory { links: Vec::new() }
    }

    /// The number of links.
    pub fn len(&self) -> (n: usize)
        ensures
            n == self@.len(),
    {
        self.links.len()
    }

    /// The link at position `index` of the listing, if there is one.
    pub fn get(&self, index: usize) -> (r: Option<(&[u8], u64)>)
        ensures
            match r {
                Some((name, ino)) => index < self@.len() && self@[index as int] == (name@, ino),
                None => index >= self@.len(),
            },
    {
        if index < self.links.len() {
            let link = &self.links[index];
            Some((link.name.as_slice(), link.ino))
        } else {
            None
        }
    }

    /// The first position whose link carries `name`, if there is one.
    fn position(&self, name: &[u8]) -> (r: Option<usize>)
        ensures
            match r {
                Some(i) => is_slot_of(self@, name@, i as int),
                None => !binds(self@, name@),
            },
    {
        let mut i: usize = 0;
        while i < self.links.len()
            invariant
                i <= self@.len(),
                self@.len() == self.links@.len(),
                forall|j: int| #![trigger self@[j]] 0 <= j < i ==> self@[j].0 != name@,
            decreases self@.len() - i,
        {
            if same_bytes(self.links[i].name.as_slice(), name) {
                return Some(i);
            }
            i += 1;
        }
        None
    }

    /// The identifier that `name` is bound to, if it is bound.
    pub fn find(&self, name: &[u8]) -> (r: Option<u64>)
        ensures
            r == (if mapping(self@).contains_key(name@) {
                Some(mapping(self@)[name@])
            } else {
                None
            }),
    {
        match self.position(name) {
            Some(i) => {
                proof {
                    lemma_slot_unique(self@, name@, i as int);
                }
                Some(self.links[i].ino)
            },
            None => None,
        }
    }

    /// Binds `name` to `ino`, whether or not it was bound before. A
    /// directory that held no name twice holds none twice afterwards.
    pub fn bind(&mut self, name: &[u8], ino: u64)
        ensures
            final(self)@ == bound(old(self)@, name@, ino),
            mapping(final(self)@) == mapping(old(self)@).insert(name@, ino),
            distinct_names(old(self)@) ==> distinct_names(final(self)@),
    {
        let link = Link { name: vstd::slice::slice_to_vec(name), ino };
        match self.position(name) {
            Some(i) => {
                proof {
                    lemma_slot_unique(self@, name@, i as int);
                }
                self.links[i] = link;
            },
            None => {
                self.links.push(link);
            },
        }
        assert(self@ =~= bound(old(self)@, name@, ino));
        proof {
            lemma_bound_mapping(old(self)@, name@, ino);
            if distinct_names(old(self)@) {
                lemma_bound_keeps_distinct(old(self)@, name@, ino);
            }
        }
    }
}

} // verus!
