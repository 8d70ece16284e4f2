//! Storage for dynamically scoped dependencies.
//!
//! Each type of dependency has a stack of values. Entering a scope pushes a value,
//! and leaving the scope pops it, so an inner scope shadows an outer scope for the
//! same dependency type.
//!
//! Guards are used in a strictly stack-like manner: a guard is made when a scope is
//! entered and given up when it is left.

use std::marker::PhantomData;
use vstd::prelude::*;

verus! {

/// The values that are in scope for one type of dependency, outermost first.
pub struct Scope<T> {
    values: Vec<T>,
}

impl<T> View for Scope<T> {
    type V = Seq<T>;

    closed spec fn view(&self) -> Seq<T> {
        self.values@
    }
}

impl<T> Scope<T> {
    /// No value is in scope.
    pub fn new() -> (scope: Scope<T>)
        ensures
            scope@ == Seq::<T>::empty(),
    {
        Scope { values: Vec::new() }
    }

    /// The number of values in scope, one for each scope that was entered and not
    /// left.
    pub fn depth(&self) -> (depth: usize)
        ensures
            depth == self@.len(),
    {
        self.values.len()
    }
}

/// Stands for one value on a scope's stack, from the time it was pushed until it
/// is popped.
pub struct Guard<T> {
    marker: PhantomData<T>,
}

impl<T> Guard<T> {
    /// Pushes `value` onto the stack for `T`. When the guard is given up, the
    /// value is popped.
    pub fn new(scope: &mut Scope<T>, value: T) -> (guard: Guard<T>)
        ensures
            final(scope)@ == old(scope)@.push(value),
    {
        scope.values.push(value);
        Guard { marker: PhantomData }
    }

    /// Returns the current (top-most) scoped value for `T`, if any.
    pub fn get(scope: &Scope<T>) -> (value: Option<&T>)
        ensures
            value == (if scope@.len() == 0 {
                None::<&T>
            } else {
                Some(&scope@.last())
            }),
    {
        let depth = scope.values.len();
        if depth == 0 {
            None
        } else {
            Some(&scope.values[depth - 1])
        }
    }

    /// Leaves the scope: pops the top-most value, where there is one.
    pub fn drop(self, scope: &mut Scope<T>) -> (value: Option<T>)
        ensures
            value == (if old(scope)@.len() == 0 {
                None::<T>
            } else {
                Some(old(scope)@.last())
            }),
            final(scope)@ == (if old(scope)@.len() == 0 {
                old(scope)@
            } else {
                old(scope)@.drop_last()
            }),
    {
        scope.values.pop()
    }
}

/// A hasher for keys that are hashes already: it hands back the one number that
/// was written to it.
#[derive(Default)]
pub struct Unhasher {
    value: u64,
}

impl Unhasher {
    /// The number that the hasher holds.
    pub closed spec fn value(&self) -> u64 {
        self.value
    }

    /// A hasher that holds zero.
    pub fn new() -> (hasher: Unhasher)
        ensures
            hasher.value() == 0,
    {
        Unhasher { value: 0 }
    }

    /// The hash: the number that was written.
    pub fn finish(&self) -> (hash: u64)
        ensures
            hash == self.value(),
    {
        self.value
    }

    /// Writes the number that is to be the hash. To be called once, on a fresh
    /// hasher.
    pub fn write_u64(&mut self, value: u64)
        requires
            old(self).value() == 0,
        ensures
            final(self).value() == value,
    {
        self.value = value;
    }
}

} // verus!
