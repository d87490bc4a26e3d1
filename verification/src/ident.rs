//! Process-wide unique identifiers for open resources.

use vstd::prelude::*;

verus! {

/// A unique id for file descriptions. Addresses of heap cells would also be
/// unique, but they are reused and would leak interpreter-internal state into
/// observable behaviour when used for sorting; so every file description gets
/// an id of its own, shared by all of its `dup`licates and never reused.
#[derive(Debug, Copy, Clone, Eq, PartialEq, Structural, PartialOrd, Ord)]
pub struct FdId(pub usize);

impl View for FdId {
    type V = int;

    open spec fn view(&self) -> int {
        self.0 as int
    }
}

impl Default for FdId {
    /// The first identifier a fresh allocator would mint.
    fn default() -> (r: Self)
        ensures
            r@ == 0,
    {
        FdId(0)
    }
}

} // verus!
