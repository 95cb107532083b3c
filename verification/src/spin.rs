use vstd::prelude::*;

verus! {

/// The magnetic moment at one lattice site: either `Up` or `Down`.
#[derive(Debug, Clone, Copy, PartialEq, Eq, Hash, Structural)]
pub enum Spin {
    Up,
    Down,
}

impl Spin {
    /// The opposite orientation, as a spec-level map.
    pub open spec fn flipped(self) -> Spin {
        match self {
            Spin::Up => Spin::Down,
            Spin::Down => Spin::Up,
        }
    }

    /// The numeric projection of a spin: `Up` counts as `+1`, `Down` as `-1`.
    pub open spec fn sign(self) -> int {
        match self {
            Spin::Up => 1,
            Spin::Down => -1,
        }
    }

    /// Returns the opposite orientation.
    pub fn flip(&self) -> (r: Spin)
        ensures
            r == self.flipped(),
            r.flipped() == *self,
    {
        match self {
            Spin::Up => Spin::Down,
            Spin::Down => Spin::Up,
        }
    }

    /// The numeric projection of a spin, `Up` to `+1` and `Down` to `-1`.
    pub fn as_int(&self) -> (r: i64)
        ensures
            r == self.sign(),
    {
        match self {
            Spin::Up => 1,
            Spin::Down => -1,
        }
    }
}

/// Flipping a spin twice gives the spin back, for both orientations.
pub proof fn lemma_flip_involution(s: Spin)
    ensures
        s.flipped().flipped() == s,
{
}

} // verus!
