use vstd::prelude::*;

verus! {

/// The group that pairs a set of locks with what they can open.
#[derive(Clone, Copy, Debug, PartialEq, Eq, Structural)]
pub enum GateSide {
    East,
    West,
}

impl GateSide {
    /// Whether two sides are the same group.
    pub fn matches(self, other: GateSide) -> (same: bool)
        ensures
            same == (self == other),
    {
        self == other
    }
}

impl Default for GateSide {
    /// East.
    fn default() -> (side: GateSide)
        ensures
            side == GateSide::East,
    {
        GateSide::East
    }
}

} // verus!
