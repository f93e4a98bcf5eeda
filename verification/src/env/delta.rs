//! A value that remembers how far its last update moved it.

use core::ops::Sub;
use vstd::prelude::*;
use vstd::std_specs::ops::SubSpec;

verus! {

/// What a tracked value is: the value itself, and the step that the last
/// update took.
pub struct DeltaState<T> {
    pub value: T,
    pub delta: T,
}

/// A value together with the step that its last update took.
#[verifier::reject_recursive_types(T)]
pub struct Delta<T: Copy + Sub<Output = T>> {
    value: T,
    delta: T,
}

impl<T: Copy + Sub<Output = T>> View for Delta<T> {
    type V = DeltaState<T>;

    closed spec fn view(&self) -> DeltaState<T> {
        DeltaState { value: self.value, delta: self.delta }
    }
}

impl<T: Copy + Sub<Output = T>> Delta<T> {
    /// A tracked value that starts at `value`, with `value` itself as its
    /// first step.
    pub fn new(value: T) -> (tracked_value: Delta<T>)
        ensures
            tracked_value@ == (DeltaState { value, delta: value }),
    {
        Delta { value, delta: value }
    }

    pub fn value(&self) -> (value: T)
        ensures
            value == self@.value,
    {
        self.value
    }

    pub fn delta(&self) -> (delta: T)
        ensures
            delta == self@.delta,
    {
        self.delta
    }

    /// Moves to `value` and records the step from the value before.
    pub fn update(&mut self, value: T)
        requires
            value.sub_req(old(self)@.value),
        ensures
            final(self)@.value == value,
            T::obeys_sub_spec() ==> final(self)@.delta == value.sub_spec(old(self)@.value),
    {
        let current = self.value;
        self.delta = value - current;
        self.value = value;
    }
}

} // verus!
