//! The content-addressable object store, consumed as a lookup-by-id
//! capability: an in-memory table of objects together with the scratch
//! cache that object lookups are given.
//!
//! Peeling needs to know of an object only its kind and, for tags, the
//! id named on its first line (`object <hex-id>`); everything else about
//! the store's layout is out of this library's scope.

use vstd::prelude::*;

use crate::bytes::bytes_eq;
use crate::hash::{all_hex, hex_decoded, ObjectId, ID_HEX_LEN};

verus! {

/// The kinds an object can have.
#[derive(Debug, Copy, Clone, Eq, PartialEq, Structural)]
pub enum ObjectKind {
    /// An annotated tag, naming another object.
    Tag,
    /// A commit.
    Commit,
    /// A tree.
    Tree,
    /// A blob.
    Blob,
}

/// The scratch cache handed to object lookups. It records how many
/// lookups were made, so a caller can observe that memoization made a
/// repeated peel free.
pub struct PackCache {
    /// How many object lookups have been answered through this cache.
    pub lookups: u64,
}

impl PackCache {
    /// A fresh cache that has answered nothing.
    pub fn new() -> (c: PackCache)
        ensures
            c.lookups == 0,
    {
        PackCache { lookups: 0 }
    }
}

/// One stored object.
pub struct OdbEntry {
    /// The object's id.
    pub id: ObjectId,
    /// The object's kind.
    pub kind: ObjectKind,
    /// The object's raw bytes.
    pub data: Vec<u8>,
}

/// An in-memory object database.
pub struct Odb {
    entries: Vec<OdbEntry>,
}

/// The objects of `o`, as id/kind/data triples.
pub closed spec fn odb_view(o: Odb) -> Seq<(Seq<u8>, ObjectKind, Seq<u8>)> {
    o.entries@.map_values(|e: OdbEntry| (e.id@, e.kind, e.data@))
}

/// The first stored object with id `id`, if any.
pub open spec fn odb_find_spec(rows: Seq<(Seq<u8>, ObjectKind, Seq<u8>)>, id: Seq<u8>) -> Option<
    (ObjectKind, Seq<u8>),
>
    decreases rows.len(),
{
    if rows.len() == 0 {
        None
    } else if rows[0].0 == id {
        Some((rows[0].1, rows[0].2))
    } else {
        odb_find_spec(rows.drop_first(), id)
    }
}

/// Skipping rows with other ids leaves the first match unchanged.
pub proof fn lemma_odb_find_skip(rows: Seq<(Seq<u8>, ObjectKind, Seq<u8>)>, id: Seq<u8>, k: int)
    requires
        0 <= k <= rows.len(),
        forall|i: int| 0 <= i < k ==> rows[i].0 != id,
    ensures
        odb_find_spec(rows, id) == odb_find_spec(rows.skip(k), id),
    decreases k,
{
    if k > 0 {
        assert(rows.drop_first().skip(k - 1) =~= rows.skip(k));
        assert(forall|i: int| 0 <= i < k - 1 ==> rows.drop_first()[i].0 != id);
        lemma_odb_find_skip(rows.drop_first(), id, k - 1);
    } else {
        assert(rows.skip(0) =~= rows);
    }
}

impl Odb {
    /// An empty database.
    pub fn new() -> (o: Odb)
        ensures
            odb_view(o) == Seq::<(Seq<u8>, ObjectKind, Seq<u8>)>::empty(),
    {
        let o = Odb { entries: Vec::new() };
        proof {
            assert(odb_view(o) =~= Seq::<(Seq<u8>, ObjectKind, Seq<u8>)>::empty());
        }
        o
    }

    /// Stores an object.
    pub fn insert(&mut self, id: ObjectId, kind: ObjectKind, data: Vec<u8>)
        ensures
            odb_view(*final(self)) == odb_view(*old(self)).push((id@, kind, data@)),
    {
        let ghost row = (id@, kind, data@);
        self.entries.push(OdbEntry { id, kind, data });
        proof {
            assert(odb_view(*self) =~= odb_view(*old(self)).push(row));
        }
    }

    /// Looks an object up by id, filling `buf` with its bytes on a hit
    /// and leaving `buf` alone on a miss. Every call is counted in
    /// `pack`.
    pub fn find(&self, id: &ObjectId, buf: &mut Vec<u8>, pack: &mut PackCache) -> (r: Option<
        ObjectKind,
    >)
        ensures
            final(pack).lookups == if old(pack).lookups < u64::MAX {
                old(pack).lookups + 1
            } else {
                old(pack).lookups as int
            },
            match odb_find_spec(odb_view(*self), id@) {
                Some(found) => r == Some(found.0) && final(buf)@ == found.1,
                None => r is None && final(buf)@ == old(buf)@,
            },
    {
        if pack.lookups < u64::MAX {
            pack.lookups = pack.lookups + 1;
        }
        let mut i: usize = 0;
        while i < self.entries.len()
            invariant
                i <= self.entries@.len(),
                forall|j: int| 0 <= j < i ==> odb_view(*self)[j].0 != id@,
                *buf == *old(buf),
                pack.lookups == if old(pack).lookups < u64::MAX {
                    old(pack).lookups + 1
                } else {
                    old(pack).lookups as int
                },
            decreases self.entries@.len() - i,
        {
            proof {
                lemma_odb_find_skip(odb_view(*self), id@, i as int);
            }
            if bytes_eq(self.entries[i].id.as_bytes(), id.as_bytes()) {
                assert(odb_view(*self).skip(i as int)[0] == odb_view(*self)[i as int]);
                buf.clear();
                let mut k: usize = 0;
                let n = self.entries[i].data.len();
                while k < n
                    invariant
                        k <= n,
                        i < self.entries@.len(),
                        n == self.entries@[i as int].data.len(),
                        buf@ =~= self.entries@[i as int].data@.subrange(0, k as int),
                        pack.lookups == if old(pack).lookups < u64::MAX {
                            old(pack).lookups + 1
                        } else {
                            old(pack).lookups as int
                        },
                    decreases n - k,
                {
                    buf.push(self.entries[i].data[k]);
                    k = k + 1;
                }
                assert(buf@ =~= self.entries@[i as int].data@);
                assert(odb_view(*self)[i as int].2 == self.entries@[i as int].data@);
                return Some(self.entries[i].kind);
            }
            i = i + 1;
        }
        proof {
            lemma_odb_find_skip(odb_view(*self), id@, self.entries@.len() as int);
            assert(odb_view(*self).skip(odb_view(*self).len() as int) =~= Seq::<
                (Seq<u8>, ObjectKind, Seq<u8>),
            >::empty());
        }
        None
    }
}

/// The bytes `object `, opening the first line of a tag object.
pub open spec fn object_marker() -> Seq<u8> {
    seq![111u8, 98u8, 106u8, 101u8, 99u8, 116u8, 32u8]
}

/// The id a tag object names: its data must begin
/// `object <forty hex digits>` followed by a newline.
pub open spec fn spec_tag_target(data: Seq<u8>) -> Option<Seq<u8>> {
    if data.len() >= 48 && data.take(7) == object_marker() && all_hex(data.subrange(7, 47))
        && data[47] == 10 {
        Some(hex_decoded(data.subrange(7, 47)))
    } else {
        None
    }
}

/// Reads the id a tag object names, per `spec_tag_target`.
pub fn tag_target(data: &Vec<u8>) -> (r: Option<ObjectId>)
    ensures
        match r {
            Some(id) => spec_tag_target(data@) == Some(id@) && id.wf(),
            None => spec_tag_target(data@) is None,
        },
{
    if data.len() < 48 {
        return None;
    }
    if !(data[0] == 111 && data[1] == 98 && data[2] == 106 && data[3] == 101 && data[4] == 99
        && data[5] == 116 && data[6] == 32) {
        assert(data@.take(7) != object_marker()) by {
            if data@.take(7) == object_marker() {
                assert(data@[0] == 111 && data@[1] == 98 && data@[2] == 106 && data@[3] == 101
                    && data@[4] == 99 && data@[5] == 116 && data@[6] == 32);
            }
        }
        return None;
    }
    assert(data@.take(7) =~= object_marker());
    if data[47] != 10 {
        return None;
    }
    let hex = crate::bytes::copy_range(data, 7, 47);
    assert(hex@ =~= data@.subrange(7, 47));
    match ObjectId::from_hex(&hex) {
        Some(id) => {
            assert(hex@.len() == ID_HEX_LEN);
            Some(id)
        },
        None => None,
    }
}

} // verus!
