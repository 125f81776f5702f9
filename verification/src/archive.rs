//! Naming the archive entries for the unsubmitted folders.
//!
//! Each unsubmitted folder goes into the output archive whole, as one
//! top-level entry named by the folder's base name. The set is
//! deduplicated, so a folder yields exactly one entry; walking the names
//! and the set side by side, entry `i` archives folder `i`.

use crate::folders::FolderSet;
use crate::paths::{base_name, base_name_of};
use vstd::prelude::*;

verus! {

/// The top-level archive entry names, one per unsubmitted folder, in the
/// set's order: each folder's base name.
pub fn entry_names(set: &FolderSet) -> (names: Vec<Vec<u8>>)
    ensures
        names@.len() == set@.len(),
        forall|i: int| 0 <= i < set@.len() ==> (#[trigger] names@[i])@ == base_name(set@[i]),
{
    let n = set.len();
    let mut names: Vec<Vec<u8>> = Vec::new();
    let mut i: usize = 0;
    while i < n
        invariant
            i <= n == set@.len(),
            names@.len() == i,
            forall|j: int| 0 <= j < i ==> (#[trigger] names@[j])@ == base_name(set@[j]),
        decreases n - i,
    {
        names.push(base_name_of(set.get(i)));
        i = i + 1;
    }
    names
}

} // verus!
