use vstd::prelude::*;

use crate::epoch::{Epoch, LarivEpoch};

verus! {

/// The state kept beside one element slot: whether the slot holds an element (the tag)
/// and the slot's epoch. The element itself lives in a separate `Option<T>`, which every
/// method takes as an argument; the two agree when the tag is set exactly when the
/// element is there (see [`AtomicOptionTag::pairs_with`]).
pub struct AtomicOptionTag<E: Epoch> {
    tag: bool,
    epoch: E,
}

/// A claim on an empty slot, handed out by [`AtomicOptionTag::try_set`]. It borrows the
/// slot's tag for as long as it lives, so no other claim (and no other access to the tag)
/// can be taken meanwhile. [`SetGuard::write`] puts an element into the slot, sets the
/// tag and moves the slot's epoch on; the claim ends when it is dropped or handed to
/// [`SetGuard::release`], and a claim that wrote nothing leaves the slot empty.
///
/// The field is public because the contract of `try_set` relates the tag's state after
/// the claim to the borrow the claim holds, which only a visible field lets Verus state.
/// Change the tag only through the claim's methods.
pub struct SetGuard<'a, E: Epoch> {
    pub slot: &'a mut AtomicOptionTag<E>,
}

/// Shared access to an element, together with the epoch of its slot.
pub struct Guard<'a, T, G> {
    value: &'a T,
    guard: G,
}

impl<'a, T, G> Guard<'a, T, G> {
    pub closed spec fn spec_value(&self) -> T {
        *self.value
    }

    pub closed spec fn spec_guard(&self) -> G {
        self.guard
    }

    /// The element.
    pub fn value(&self) -> (r: &'a T)
        ensures
            *r == self.spec_value(),
    {
        self.value
    }

    /// The epoch of the element's slot when it was read.
    pub fn guard(&self) -> (r: &G)
        ensures
            *r == self.spec_guard(),
    {
        &self.guard
    }
}

impl<'a, T, G> core::ops::Deref for Guard<'a, T, G> {
    type Target = T;

    /// The element.
    fn deref(&self) -> (r: &T)
        ensures
            *r == self.spec_value(),
    {
        self.value
    }
}

impl<'a, E: Epoch> SetGuard<'a, E> {
    /// The epoch of the claimed slot.
    pub fn epoch(&self) -> (r: E)
        ensures
            r == old(self.slot).spec_epoch(),
    {
        self.slot.epoch
    }

    /// Writes `value` into the claimed slot, sets the tag and moves the slot's epoch on.
    pub fn write<T>(&mut self, slot: &mut Option<T>, value: T)
        ensures
            *final(slot) == Some(value),
            final(self).slot.spec_epoch() == old(self).slot.spec_epoch().spec_update(),
            final(self).slot.spec_tag(),
            *final(final(self).slot) == *final(old(self).slot),
    {
        *slot = Some(value);
        self.slot.epoch.update();
        self.slot.tag = true;
    }

    /// Ends the claim, leaving the tag and the epoch as the claim left them: set with the
    /// moved-on epoch after a write, empty as before otherwise. Dropping the claim does
    /// the same.
    pub fn release(self)
        ensures
            final(self.slot).spec_tag() == old(self.slot).spec_tag(),
            final(self.slot).spec_epoch() == old(self.slot).spec_epoch(),
    {
    }
}

impl<E: Epoch> AtomicOptionTag<E> {
    pub closed spec fn spec_tag(&self) -> bool {
        self.tag
    }

    pub closed spec fn spec_epoch(&self) -> E {
        self.epoch
    }

    /// The tag agrees with the element slot: it is set exactly when the slot holds an
    /// element.
    pub open spec fn pairs_with<T>(&self, value: Option<T>) -> bool {
        self.spec_tag() == value is Some
    }

    /// A tag for a slot that holds an element, with the first epoch.
    pub fn some() -> (r: Self)
        ensures
            r.spec_tag(),
            r.spec_epoch() == E::spec_new(0),
    {
        AtomicOptionTag { tag: true, epoch: E::new(0) }
    }

    /// A tag for an empty slot, with the first epoch.
    pub fn none() -> (r: Self)
        ensures
            !r.spec_tag(),
            r.spec_epoch() == E::spec_new(0),
    {
        AtomicOptionTag { tag: false, epoch: E::new(0) }
    }

    /// Whether the slot holds an element.
    pub fn is_set(&self) -> (r: bool)
        ensures
            r == self.spec_tag(),
    {
        self.tag
    }

    /// Whether the slot's epoch accepts an index that remembers `e`.
    pub fn epoch_is(&self, e: u64) -> (r: bool)
        ensures
            r == self.spec_epoch().spec_check(e),
    {
        self.epoch.check(e)
    }

    /// Claims the slot for writing, which succeeds exactly when it is empty. The claim
    /// borrows the tag until it is released or dropped; the tag changes only through it.
    pub fn try_set(&mut self) -> (r: Option<SetGuard<'_, E>>)
        ensures
            r is Some <==> !old(self).spec_tag(),
            r is None ==> *final(self) == *old(self),
            r matches Some(g) ==> *g.slot == *old(self) && *final(self) == *final(g.slot),
    {
        if !self.tag {
            Some(SetGuard { slot: self })
        } else {
            None
        }
    }

    /// Shared access to the element, when there is one.
    pub fn get<'a, T>(&'a self, value: &'a Option<T>) -> (r: Option<Guard<'a, T, E>>)
        requires
            self.pairs_with(*value),
        ensures
            r is Some <==> self.spec_tag(),
            r matches Some(g) ==> g.spec_value() == value->0 && g.spec_guard() == self.spec_epoch(),
    {
        if self.tag {
            match value {
                Some(v) => Some(Guard { value: v, guard: self.epoch }),
                None => None,
            }
        } else {
            None
        }
    }

    /// Exclusive access to the element, when there is one.
    pub fn get_mut<'a, T>(&'a self, value: &'a mut Option<T>) -> (r: Option<&'a mut T>)
        requires
            self.pairs_with(*old(value)),
        ensures
            r is Some <==> self.spec_tag(),
            r is None ==> *final(value) == *old(value),
            r matches Some(e) ==> *e == old(value)->0 && *final(value) == Some(*final(e)),
    {
        if self.tag {
            value.as_mut()
        } else {
            None
        }
    }

    /// Takes the element out of the slot, leaving it empty. The epoch stays.
    pub fn take<T>(&mut self, value: &mut Option<T>) -> (r: Option<T>)
        requires
            old(self).pairs_with(*old(value)),
        ensures
            r == *old(value),
            *final(value) is None,
            !final(self).spec_tag(),
            final(self).spec_epoch() == old(self).spec_epoch(),
    {
        if self.tag {
            self.tag = false;
            value.take()
        } else {
            None
        }
    }

    /// Drops the element of the slot, if any, leaving it empty. The epoch stays.
    pub fn empty<T>(&mut self, value: &mut Option<T>)
        requires
            old(self).pairs_with(*old(value)),
        ensures
            *final(value) is None,
            !final(self).spec_tag(),
            final(self).spec_epoch() == old(self).spec_epoch(),
    {
        if self.tag {
            self.tag = false;
            *value = None;
        }
    }
}

impl AtomicOptionTag<LarivEpoch> {
    /// Shared access to the element, when there is one and the slot is at `epoch`.
    pub fn get_with_epoch<'a, T>(&'a self, value: &'a Option<T>, epoch: u64) -> (r: Option<
        Guard<'a, T, LarivEpoch>,
    >)
        requires
            self.pairs_with(*value),
        ensures
            r is Some <==> self.spec_tag() && self.spec_epoch().0 == epoch,
            r matches Some(g) ==> g.spec_value() == value->0 && g.spec_guard() == self.spec_epoch(),
    {
        if self.tag && self.epoch.check(epoch) {
            self.get(value)
        } else {
            None
        }
    }

    /// Exclusive access to the element, when there is one and the slot is at `epoch`.
    pub fn get_mut_with_epoch<'a, T>(&'a self, value: &'a mut Option<T>, epoch: u64) -> (r:
        Option<&'a mut T>)
        requires
            self.pairs_with(*old(value)),
        ensures
            r is Some <==> self.spec_tag() && self.spec_epoch().0 == epoch,
            r is None ==> *final(value) == *old(value),
            r matches Some(e) ==> *e == old(value)->0 && *final(value) == Some(*final(e)),
    {
        if self.tag && self.epoch.check(epoch) {
            value.as_mut()
        } else {
            None
        }
    }

    /// Takes the element out of the slot when the slot is at `epoch`, and then moves the
    /// epoch on; otherwise leaves everything as it is.
    pub fn take_with_epoch<T>(&mut self, value: &mut Option<T>, epoch: u64) -> (r: Option<T>)
        requires
            old(self).pairs_with(*old(value)),
        ensures
            ({
                let hit = old(self).spec_tag() && old(self).spec_epoch().0 == epoch;
                &&& r == (if hit { *old(value) } else { None })
                &&& *final(value) == (if hit { None } else { *old(value) })
                &&& final(self).spec_tag() == (old(self).spec_tag() && !hit)
                &&& final(self).spec_epoch() == (if hit { old(self).spec_epoch().spec_update() } else { old(self).spec_epoch() })
            }),
    {
        if self.tag && self.epoch.check(epoch) {
            self.tag = false;
            self.epoch.update();
            value.take()
        } else {
            None
        }
    }

    /// Drops the element of the slot when the slot is at `epoch`. The epoch stays.
    pub fn empty_with_epoch<T>(&mut self, value: &mut Option<T>, epoch: u64)
        requires
            old(self).pairs_with(*old(value)),
        ensures
            ({
                let hit = old(self).spec_epoch().0 == epoch;
                &&& *final(value) == (if hit { None } else { *old(value) })
                &&& final(self).spec_tag() == (old(self).spec_tag() && !hit)
                &&& final(self).spec_epoch() == old(self).spec_epoch()
            }),
    {
        if self.epoch.check(epoch) {
            if self.tag {
                self.tag = false;
                *value = None;
            }
        }
    }
}

impl<E: Epoch> Default for AtomicOptionTag<E> {
    fn default() -> (r: Self)
        ensures
            !r.spec_tag(),
            r.spec_epoch() == E::spec_new(0),
    {
        Self::none()
    }
}

} // verus!
