//! The mapping from candidate identifiers to their owning folders.
//!
//! Every positive identifier extracted from a chart file maps to exactly one
//! folder. When the same identifier is declared under two chart files — an
//! authoring anomaly, not a supported layout — the folder processed last
//! wins, and a diagnostic counter records that a collision happened; the
//! anomaly is tolerated, not resolved.

use vstd::prelude::*;

verus! {

/// One candidate entry: a positive catalog identifier and the bytes of its
/// owning folder's path.
pub struct Candidate {
    pub id: u64,
    pub folder: Vec<u8>,
}

/// Whether some entry carries the identifier.
pub open spec fn has_key(s: Seq<(u64, Seq<u8>)>, id: u64) -> bool {
    exists|k: int| 0 <= k < s.len() && s[k].0 == id
}

/// The index of the entry carrying the identifier (unique in a well-formed
/// map).
pub open spec fn key_index(s: Seq<(u64, Seq<u8>)>, id: u64) -> int {
    choose|k: int| 0 <= k < s.len() && s[k].0 == id
}

/// The folder owned by the identifier.
pub open spec fn folder_of(s: Seq<(u64, Seq<u8>)>, id: u64) -> Seq<u8> {
    s[key_index(s, id)].1
}

/// A counter one below its ceiling steps up; at the ceiling it stays.
pub open spec fn spec_saturating_inc(c: u64) -> u64 {
    if c == u64::MAX {
        c
    } else {
        (c + 1) as u64
    }
}

/// Maps each candidate identifier to the one folder that owns it.
pub struct CandidateMap {
    entries: Vec<Candidate>,
    collisions: u64,
}

impl View for CandidateMap {
    type V = Seq<(u64, Seq<u8>)>;

    /// The entries in insertion order, as identifier and folder pairs.
    closed spec fn view(&self) -> Seq<(u64, Seq<u8>)> {
        self.entries@.map(|i: int, c: Candidate| (c.id, c.folder@))
    }
}

impl CandidateMap {
    /// Identifiers are positive and no identifier occurs twice.
    pub open spec fn wf(&self) -> bool {
        &&& forall|k: int| 0 <= k < self@.len() ==> (#[trigger] self@[k]).0 > 0
        &&& forall|k: int, l: int|
            0 <= k < l < self@.len() ==> (#[trigger] self@[k]).0 != (#[trigger] self@[l]).0
    }

    /// How many identifier collisions the map has absorbed.
    pub closed spec fn spec_collisions(&self) -> u64 {
        self.collisions
    }

    pub fn new() -> (r: CandidateMap)
        ensures
            r.wf(),
            r@ == Seq::<(u64, Seq<u8>)>::empty(),
            r.spec_collisions() == 0,
    {
        let r = CandidateMap { entries: Vec::new(), collisions: 0 };
        proof {
            assert(r@ =~= Seq::<(u64, Seq<u8>)>::empty());
        }
        r
    }

    pub fn len(&self) -> (n: usize)
        ensures
            n == self@.len(),
    {
        self.entries.len()
    }

    pub fn id_at(&self, k: usize) -> (id: u64)
        requires
            k < self@.len(),
        ensures
            id == self@[k as int].0,
    {
        self.entries[k].id
    }

    pub fn folder_at(&self, k: usize) -> (f: &Vec<u8>)
        requires
            k < self@.len(),
        ensures
            f@ == self@[k as int].1,
    {
        &self.entries[k].folder
    }

    /// How many insertions overwrote an entry already carrying the same
    /// identifier.
    pub fn collision_count(&self) -> (c: u64)
        ensures
            c == self.spec_collisions(),
    {
        self.collisions
    }

    fn find(&self, id: u64) -> (r: Option<usize>)
        ensures
            match r {
                None => !has_key(self@, id),
                Some(k) => k < self@.len() && self@[k as int].0 == id,
            },
    {
        let n = self.entries.len();
        let mut i: usize = 0;
        while i < n
            invariant
                i <= n == self@.len(),
                forall|k: int| 0 <= k < i ==> (#[trigger] self@[k]).0 != id,
            decreases n - i,
        {
            if self.entries[i].id == id {
                return Some(i);
            }
            i = i + 1;
        }
        None
    }

    /// Inserts a candidate. A fresh identifier appends an entry; an
    /// identifier already present has its folder overwritten — the folder
    /// processed last wins — and the collision counter stepped.
    pub fn insert(&mut self, id: u64, folder: Vec<u8>)
        requires
            id > 0,
            old(self).wf(),
        ensures
            final(self).wf(),
            !has_key(old(self)@, id) ==> {
                &&& final(self)@ == old(self)@.push((id, folder@))
                &&& final(self).spec_collisions() == old(self).spec_collisions()
            },
            has_key(old(self)@, id) ==> {
                &&& final(self)@ == old(self)@.update(key_index(old(self)@, id), (id, folder@))
                &&& final(self).spec_collisions() == spec_saturating_inc(
                    old(self).spec_collisions(),
                )
            },
    {
        let found = self.find(id);
        match found {
            Some(k) => {
                let ghost pre = self@;
                self.entries.set(k, Candidate { id, folder });
                if self.collisions < u64::MAX {
                    self.collisions = self.collisions + 1;
                }
                proof {
                    assert(self@ =~= pre.update(k as int, (id, folder@)));
                    let k2 = key_index(pre, id);
                    assert(0 <= k2 < pre.len() && pre[k2].0 == id);
                    if k2 != k {
                        assert(pre[k2].0 != pre[k as int].0);
                        assert(false);
                    }
                }
            },
            None => {
                let ghost pre = self@;
                self.entries.push(Candidate { id, folder });
                proof {
                    assert(self@ =~= pre.push((id, folder@)));
                }
            },
        }
    }
}

} // verus!
