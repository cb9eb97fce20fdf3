use vstd::prelude::*;

verus! {

/// A handle into an [`crate::Arena`]: a slot position and the generation stamp
/// that the slot carried when the handle was issued.
///
/// Handles are ordered by generation, then by slot.
#[derive(Debug, Clone, Copy, PartialEq, Eq, Structural, PartialOrd, Ord, Hash)]
pub struct Index {
    pub generation: usize,
    pub slot: usize,
}

impl Index {
    /// Builds a handle from a slot position and a generation stamp.
    pub fn from_parts(pos: usize, gen: usize) -> (r: Index)
        requires
            gen >= 1,
        ensures
            r.slot == pos,
            r.generation == gen,
    {
        Index { generation: gen, slot: pos }
    }
}

} // verus!
