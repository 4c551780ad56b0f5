use vstd::prelude::*;

verus! {

/// One row of the spawn table as the data files give it.
#[derive(Debug)]
pub struct SpawnTableEntry {
    pub name: String,
    pub weight: i32,
}

} // verus!
