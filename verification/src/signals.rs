//! Reactive values.  For now a signal only remembers the value it was
//! created with: reading gives that value back, writing has no effect.

use vstd::prelude::*;
use std::marker::PhantomData;

verus! {

/// The reading end of a signal.
#[derive(Clone, Copy)]
pub struct ReadSignal<T: Copy> {
    value: T,
}

/// The writing end of a signal.
pub struct WriteSignal<T: Copy> {
    _phantom: PhantomData<T>,
}

impl<T: Copy> ReadSignal<T> {
    /// The value that reading gives.
    pub closed spec fn value(&self) -> T {
        self.value
    }

    /// The value of the signal.
    pub fn get(&self) -> (v: T)
        ensures
            v == self.value(),
    {
        self.value
    }
}

impl<T: Copy> WriteSignal<T> {
    /// Asks for a new value.  The request is dropped: no reader sees it.
    pub fn set(&self, new_value: T) {
    }
}

/// A signal with the given value, as its reading and its writing end.
pub fn create_signal<T: Copy>(initial_value: T) -> (ends: (ReadSignal<T>, WriteSignal<T>))
    ensures
        ends.0.value() == initial_value,
{
    (ReadSignal { value: initial_value }, WriteSignal { _phantom: PhantomData })
}

} // verus!
