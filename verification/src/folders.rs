//! The deduplicated set of folders found unsubmitted.
//!
//! A folder is identified by its path, held as plain bytes. The set is
//! seeded with the folders of sentinel-marked chart files and extended with
//! the folders of every identifier whose verdict is "unsubmitted"; inserting
//! a path already present changes nothing, so each folder yields exactly one
//! archive entry however many identifiers point at it.

use crate::bytes::bytes_eq;
use vstd::prelude::*;

verus! {

/// A set of folder paths, deduplicated by path.
pub struct FolderSet {
    folders: Vec<Vec<u8>>,
}

impl View for FolderSet {
    type V = Seq<Seq<u8>>;

    /// The folders in insertion order.
    closed spec fn view(&self) -> Seq<Seq<u8>> {
        self.folders@.map(|i: int, f: Vec<u8>| f@)
    }
}

impl FolderSet {
    /// The folders with their order forgotten.
    pub open spec fn to_set(&self) -> Set<Seq<u8>> {
        Set::new(|f: Seq<u8>| exists|i: int| 0 <= i < self@.len() && self@[i] == f)
    }

    /// No folder path occurs twice: however a folder was inserted, it holds
    /// exactly one slot, and so yields exactly one archive entry.
    pub open spec fn wf(&self) -> bool {
        forall|i: int, j: int| 0 <= i < j < self@.len() ==> self@[i] != self@[j]
    }

    pub fn new() -> (r: FolderSet)
        ensures
            r.wf(),
            r@ == Seq::<Seq<u8>>::empty(),
    {
        let r = FolderSet { folders: Vec::new() };
        proof {
            assert(r@ =~= Seq::<Seq<u8>>::empty());
        }
        r
    }

    pub fn len(&self) -> (n: usize)
        ensures
            n == self@.len(),
    {
        self.folders.len()
    }

    /// The folder at one slot, for walking the finished set.
    pub fn get(&self, i: usize) -> (f: &Vec<u8>)
        requires
            i < self@.len(),
        ensures
            f@ == self@[i as int],
    {
        &self.folders[i]
    }

    pub fn contains(&self, f: &Vec<u8>) -> (b: bool)
        ensures
            b == self.to_set().contains(f@),
    {
        let n = self.folders.len();
        let mut i: usize = 0;
        while i < n
            invariant
                i <= n == self@.len(),
                forall|k: int| 0 <= k < i ==> self@[k] != f@,
            decreases n - i,
        {
            if bytes_eq(&self.folders[i], f) {
                assert(self@[i as int] == f@);
                return true;
            }
            i = i + 1;
        }
        false
    }

    /// Inserts a folder. A path already present is left as it is, so the
    /// same folder reached through two identifiers, or through an identifier
    /// and a sentinel, still holds one slot.
    pub fn insert(&mut self, f: Vec<u8>)
        requires
            old(self).wf(),
        ensures
            final(self).wf(),
            final(self).to_set() == old(self).to_set().insert(f@),
            old(self).to_set().contains(f@) ==> final(self)@ == old(self)@,
            !old(self).to_set().contains(f@) ==> final(self)@ == old(self)@.push(f@),
    {
        let present = self.contains(&f);
        if !present {
            let ghost pre = self@;
            self.folders.push(f);
            proof {
                assert(self@ =~= pre.push(f@));
                assert forall|g: Seq<u8>|
                    self.to_set().contains(g) == old(self).to_set().insert(f@).contains(g) by {
                    if self.to_set().contains(g) {
                        let i = choose|i: int| 0 <= i < self@.len() && self@[i] == g;
                        if i < pre.len() {
                            assert(old(self)@[i] == g);
                        } else {
                            assert(g == f@);
                        }
                    }
                    if old(self).to_set().contains(g) {
                        let i = choose|i: int| 0 <= i < old(self)@.len() && old(self)@[i] == g;
                        assert(self@[i] == g);
                    }
                    if g == f@ {
                        assert(self@[pre.len() as int] == g);
                    }
                }
                assert(self.to_set() =~= old(self).to_set().insert(f@));
            }
        } else {
            proof {
                assert(self.to_set() =~= old(self).to_set().insert(f@));
            }
        }
    }
}

} // verus!
