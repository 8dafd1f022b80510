//! A 64-bit offset into the guest's physical address space.
use vstd::prelude::*;

verus! {

/// An offset into the guest's physical address space.
#[derive(Clone, Copy, Debug, PartialEq, Eq, Structural, PartialOrd, Ord, Hash)]
pub struct GuestAddress(pub u64);

impl GuestAddress {
    /// Returns the address as a plain integer.
    pub fn offset(&self) -> (r: u64)
        ensures
            r == self.0,
    {
        self.0
    }

    /// Returns `self + other`, or `None` when the sum does not fit in 64 bits.
    pub fn checked_add(&self, other: u64) -> (r: Option<GuestAddress>)
        ensures
            r == (if self.0 + other <= u64::MAX {
                Some(GuestAddress((self.0 + other) as u64))
            } else {
                None::<GuestAddress>
            }),
    {
        match self.0.checked_add(other) {
            Some(a) => Some(GuestAddress(a)),
            None => None,
        }
    }

    /// Returns `self + other`; the caller knows that the sum fits in 64 bits.
    pub fn unchecked_add(&self, other: u64) -> (r: GuestAddress)
        requires
            self.0 + other <= u64::MAX,
        ensures
            r.0 == self.0 + other,
    {
        GuestAddress(self.0 + other)
    }

    /// Returns the distance from `base` up to `self`; `base` must not lie above `self`.
    pub fn offset_from(&self, base: GuestAddress) -> (r: u64)
        requires
            base.0 <= self.0,
        ensures
            r == self.0 - base.0,
    {
        self.0 - base.0
    }
}

} // verus!
