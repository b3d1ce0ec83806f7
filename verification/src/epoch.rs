use vstd::prelude::*;

verus! {

/// The generation counter kept beside each slot.
///
/// A slot's epoch moves on each time an element is written into it (and each time an
/// element is taken out of it by its epoch), so a [`crate::LarivIndex`] that remembers
/// the epoch it was handed out with can tell whether the slot still holds the same
/// element. `NoEpoch` keeps nothing and accepts every index; `LarivEpoch` counts.
pub trait Epoch: Copy + Sized {
    /// The epoch that `new(e)` builds.
    spec fn spec_new(e: u64) -> Self;

    /// Whether an index that remembers `e` is accepted by this epoch.
    spec fn spec_check(&self, e: u64) -> bool;

    /// The epoch after one call of `update`.
    spec fn spec_update(&self) -> Self;

    fn new(e: u64) -> (r: Self)
        ensures
            r == Self::spec_new(e),
    ;

    fn check(&self, e: u64) -> (r: bool)
        ensures
            r == self.spec_check(e),
    ;

    fn update(&mut self)
        ensures
            *final(self) == old(self).spec_update(),
    ;
}

/// The epoch of a Lariv without epochs: it holds nothing, so it costs nothing.
#[derive(Copy, Clone, Debug)]
pub struct NoEpoch;

/// A counting epoch. It wraps around to 0 after `u64::MAX`.
#[derive(Copy, Clone, Debug)]
pub struct LarivEpoch(pub u64);

impl LarivEpoch {
    /// The counter after one step, wrapping around at `u64::MAX`.
    pub open spec fn next_count(c: u64) -> u64 {
        if c == u64::MAX {
            0
        } else {
            (c + 1) as u64
        }
    }
}

impl Epoch for LarivEpoch {
    open spec fn spec_new(e: u64) -> Self {
        LarivEpoch(e)
    }

    open spec fn spec_check(&self, e: u64) -> bool {
        self.0 == e
    }

    open spec fn spec_update(&self) -> Self {
        LarivEpoch(LarivEpoch::next_count(self.0))
    }

    fn new(e: u64) -> (r: Self) {
        LarivEpoch(e)
    }

    fn check(&self, e: u64) -> (r: bool) {
        self.0 == e
    }

    fn update(&mut self) {
        self.0 = self.0.wrapping_add(1);
    }
}

impl Epoch for NoEpoch {
    open spec fn spec_new(e: u64) -> Self {
        NoEpoch
    }

    open spec fn spec_check(&self, e: u64) -> bool {
        true
    }

    open spec fn spec_update(&self) -> Self {
        NoEpoch
    }

    fn new(_e: u64) -> (r: Self) {
        NoEpoch
    }

    fn check(&self, _e: u64) -> (r: bool) {
        true
    }

    fn update(&mut self) {
    }
}

} // verus!
