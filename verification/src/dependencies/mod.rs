//! Dependency scoping and access.
//!
//! Values are supplied for the duration of a closure with [`with_dependency`], and
//! read where they are used with [`Dependency`]. Scopes nest: an inner scope
//! shadows an outer scope for the same dependency type.

use vstd::prelude::*;

pub mod guard;
pub mod refs;

pub use guard::{Guard, Scope};
pub use refs::Ref;

verus! {

/// Supplies a single dependency value for the duration of `f`.
///
/// `f` sees the scope with `with` on top. When `f` has returned the scope is as it
/// was before.
pub fn with_dependency<T, F: FnOnce(&Scope<T>) -> R, R>(scope: &mut Scope<T>, with: T, f: F) -> (result:
    R)
    requires
        forall|inner: Scope<T>| inner@ == old(scope)@.push(with) ==> f.requires((&inner,)),
    ensures
        final(scope)@ == old(scope)@,
        exists|inner: Scope<T>|
            inner@ == old(scope)@.push(with) && #[trigger] f.ensures((&inner,), result),
{
    let guard = Guard::new(scope, with);
    let result = f(&*scope);
    let ghost inner = *scope;
    guard.drop(scope);
    assert(scope@ =~= old(scope)@);
    assert(inner@ == old(scope)@.push(with) && f.ensures((&inner,), result));
    result
}

/// A tuple of values to supply together, each to the scope of its type.
pub trait Tuple: Sized {
    /// The scopes, one for each value of the tuple.
    type Scopes;

    /// The guards, one for each value of the tuple.
    type Output;

    /// Whether `inside` is `before` with each value of the tuple on top of its
    /// scope.
    open spec fn entered(self, before: Self::Scopes, inside: Self::Scopes) -> bool {
        false
    }

    /// Whether `after` is `inside` with the top-most value of each scope gone.
    open spec fn left(inside: Self::Scopes, after: Self::Scopes) -> bool {
        false
    }

    /// Whether the scopes of `a` hold the same values as those of `b`.
    open spec fn alike(a: Self::Scopes, b: Self::Scopes) -> bool {
        false
    }

    /// Pushes each value onto the scope of its type. Whoever leaves these scopes
    /// again finds them as they were.
    fn guards(self, scopes: &mut Self::Scopes) -> (guards: Self::Output)
        ensures
            self.entered(*old(scopes), *final(scopes)),
            forall|after: Self::Scopes| #[trigger]
                Self::left(*final(scopes), after) ==> Self::alike(*old(scopes), after),
    ;

    /// Leaves the scopes: pops the top-most value of each.
    fn release(guards: Self::Output, scopes: &mut Self::Scopes)
        ensures
            Self::left(*old(scopes), *final(scopes)),
    ;
}

impl<A> Tuple for (A,) {
    type Scopes = (Scope<A>,);

    type Output = (Guard<A>,);

    open spec fn entered(self, before: Self::Scopes, inside: Self::Scopes) -> bool {
        inside.0@ == before.0@.push(self.0)
    }

    open spec fn left(inside: Self::Scopes, after: Self::Scopes) -> bool {
        after.0@ == popped(inside.0@)
    }

    open spec fn alike(a: Self::Scopes, b: Self::Scopes) -> bool {
        a.0@ == b.0@
    }

    fn guards(self, scopes: &mut Self::Scopes) -> (guards: Self::Output) {
        let guard = Guard::new(&mut scopes.0, self.0);
        assert(popped(scopes.0@) =~= old(scopes).0@);
        (guard,)
    }

    fn release(guards: Self::Output, scopes: &mut Self::Scopes) {
        let _ = guards.0.drop(&mut scopes.0);
    }
}

impl<A, B> Tuple for (A, B) {
    type Scopes = (Scope<A>, Scope<B>);

    type Output = (Guard<A>, Guard<B>);

    open spec fn entered(self, before: Self::Scopes, inside: Self::Scopes) -> bool {
        inside.0@ == before.0@.push(self.0) && inside.1@ == before.1@.push(self.1)
    }

    open spec fn left(inside: Self::Scopes, after: Self::Scopes) -> bool {
        after.0@ == popped(inside.0@) && after.1@ == popped(inside.1@)
    }

    open spec fn alike(a: Self::Scopes, b: Self::Scopes) -> bool {
        a.0@ == b.0@ && a.1@ == b.1@
    }

    fn guards(self, scopes: &mut Self::Scopes) -> (guards: Self::Output) {
        let first = Guard::new(&mut scopes.0, self.0);
        let second = Guard::new(&mut scopes.1, self.1);
        assert(popped(scopes.0@) =~= old(scopes).0@);
        assert(popped(scopes.1@) =~= old(scopes).1@);
        (first, second)
    }

    fn release(guards: Self::Output, scopes: &mut Self::Scopes) {
        let _ = guards.1.drop(&mut scopes.1);
        let _ = guards.0.drop(&mut scopes.0);
    }
}

impl<A, B, C> Tuple for (A, B, C) {
    type Scopes = (Scope<A>, Scope<B>, Scope<C>);

    type Output = (Guard<A>, Guard<B>, Guard<C>);

    open spec fn entered(self, before: Self::Scopes, inside: Self::Scopes) -> bool {
        &&& inside.0@ == before.0@.push(self.0)
        &&& inside.1@ == before.1@.push(self.1)
        &&& inside.2@ == before.2@.push(self.2)
    }

    open spec fn left(inside: Self::Scopes, after: Self::Scopes) -> bool {
        &&& after.0@ == popped(inside.0@)
        &&& after.1@ == popped(inside.1@)
        &&& after.2@ == popped(inside.2@)
    }

    open spec fn alike(a: Self::Scopes, b: Self::Scopes) -> bool {
        a.0@ == b.0@ && a.1@ == b.1@ && a.2@ == b.2@
    }

    fn guards(self, scopes: &mut Self::Scopes) -> (guards: Self::Output) {
        let first = Guard::new(&mut scopes.0, self.0);
        let second = Guard::new(&mut scopes.1, self.1);
        let third = Guard::new(&mut scopes.2, self.2);
        assert(popped(scopes.0@) =~= old(scopes).0@);
        assert(popped(scopes.1@) =~= old(scopes).1@);
        assert(popped(scopes.2@) =~= old(scopes).2@);
        (first, second, third)
    }

    fn release(guards: Self::Output, scopes: &mut Self::Scopes) {
        let _ = guards.2.drop(&mut scopes.2);
        let _ = guards.1.drop(&mut scopes.1);
        let _ = guards.0.drop(&mut scopes.0);
    }
}

/// The values of a scope without the top-most, where there is one.
pub open spec fn popped<T>(values: Seq<T>) -> Seq<T> {
    if values.len() == 0 {
        values
    } else {
        values.drop_last()
    }
}

/// Supplies a tuple of dependencies for the duration of `f`.
///
/// The tuple can contain values of different types; each value is pushed onto the
/// scope of its type. `f` sees the scopes with the values on top. When `f` has
/// returned the scopes are as they were before.
///
/// For a single dependency value, prefer [`with_dependency`].
pub fn with_dependencies<T: Tuple, F: FnOnce(&T::Scopes) -> R, R>(
    scopes: &mut T::Scopes,
    with: T,
    f: F,
) -> (result: R)
    requires
        forall|inside: T::Scopes| #[trigger]
            with.entered(*old(scopes), inside) ==> f.requires((&inside,)),
    ensures
        T::alike(*old(scopes), *final(scopes)),
        exists|inside: T::Scopes|
            with.entered(*old(scopes), inside) && #[trigger] f.ensures((&inside,), result),
{
    let guards = with.guards(scopes);
    let ghost inside = *scopes;
    let result = f(&*scopes);
    T::release(guards, scopes);
    assert(with.entered(*old(scopes), inside) && f.ensures((&inside,), result));
    result
}

/// The dependency of type `T` that is in scope, if one is.
pub struct Dependency<'a, T> {
    inner: Option<&'a T>,
}

impl<'a, T> Dependency<'a, T> {
    /// The value in scope, if one is.
    pub closed spec fn value(&self) -> Option<T> {
        match self.inner {
            Some(reference) => Some(*reference),
            None => None,
        }
    }

    /// Looks the dependency up: it is the value of the innermost scope.
    pub fn new(scope: &'a Scope<T>) -> (dependency: Dependency<'a, T>)
        ensures
            dependency.value() == (if scope@.len() == 0 {
                None::<T>
            } else {
                Some(scope@.last())
            }),
    {
        Dependency { inner: Guard::get(scope) }
    }

    /// Whether a value is in scope.
    pub fn is_some(&self) -> (some: bool)
        ensures
            some == self.value().is_some(),
    {
        self.inner.is_some()
    }

    /// Whether no value is in scope.
    pub fn is_none(&self) -> (none: bool)
        ensures
            none == self.value().is_none(),
    {
        self.inner.is_none()
    }

    /// The value in scope, if one is.
    pub fn get(&self) -> (value: Option<&'a T>)
        ensures
            value.is_some() == self.value().is_some(),
            value matches Some(reference) ==> *reference == self.value().unwrap(),
    {
        self.inner
    }

    /// The value in scope, or else `default`.
    pub fn unwrap_or(self, default: T) -> (value: Ref<'a, T>)
        ensures
            value.value() == (match self.value() {
                Some(scoped) => scoped,
                None => default,
            }),
            value is Borrowed <==> self.value().is_some(),
    {
        match self.inner {
            Some(reference) => Ref::Borrowed(reference),
            None => Ref::Owned(default),
        }
    }
}

impl<'a, T: Default> Dependency<'a, T> {
    /// The value in scope, or else a default value made for the occasion.
    pub fn unwrap_or_default(self) -> (value: Ref<'a, T>)
        ensures
            value is Borrowed <==> self.value().is_some(),
            self.value() matches Some(scoped) ==> value.value() == scoped,
    {
        match self.inner {
            Some(reference) => Ref::Borrowed(reference),
            None => Ref::Owned(T::default()),
        }
    }
}

} // verus!
