//! Values that report whether an assignment changed them.
use vstd::prelude::*;
use vstd::std_specs::cmp::PartialEqSpec;

verus! {

/// A value that reports, on each assignment, whether the assignment changed it.
#[derive(Clone)]
pub struct ChangeTrackedValue<T> {
    pub value: T,
}

impl<T: std::cmp::PartialEq> ChangeTrackedValue<T> {
    /// Starts tracking at `value`.
    pub fn new(value: T) -> (r: Self)
        ensures
            r.value == value,
    {
        Self { value }
    }

    /// Stores `value` if it differs from the stored one, and says whether it did.
    ///
    /// A value equal to the stored one leaves the stored one in place, so of two values that
    /// compare equal without being the same the older one is kept.
    pub fn set(&mut self, value: T) -> (changed: bool)
        ensures
            call_ensures(T::eq, (&old(self).value, &value), !changed),
            T::obeys_eq_spec() ==> changed == !old(self).value.eq_spec(&value),
            final(self).value == (if changed { value } else { old(self).value }),
    {
        if !(self.value == value) {
            self.value = value;
            true
        } else {
            false
        }
    }
}

} // verus!
