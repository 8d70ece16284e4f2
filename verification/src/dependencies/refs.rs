//! Helper reference-or-owned return type.
//!
//! A dependency can be had either as a borrowed value (when one is in scope) or as
//! an owned fallback value (when none is). This enum lets callers treat both cases
//! alike.

use vstd::prelude::*;

verus! {

/// Used to return a reference to a dependency or a separate owned value.
pub enum Ref<'a, T: 'a> {
    /// a reference of type T
    Borrowed(&'a T),
    /// a value of type T
    Owned(T),
}

impl<'a, T> Ref<'a, T> {
    /// The value, wherever it is held.
    pub open spec fn value(&self) -> T {
        match self {
            Ref::Borrowed(reference) => **reference,
            Ref::Owned(value) => *value,
        }
    }

    /// A reference to the value, wherever it is held.
    pub fn get(&self) -> (value: &T)
        ensures
            *value == self.value(),
    {
        match self {
            Ref::Borrowed(reference) => reference,
            Ref::Owned(value) => value,
        }
    }
}

impl<'a, T> std::ops::Deref for Ref<'a, T> {
    type Target = T;

    fn deref(&self) -> (value: &T)
        ensures
            *value == self.value(),
    {
        self.get()
    }
}

} // verus!
