//! Keyed child reducers.
//!
//! Many applications contain dynamic collections of child features: a set of open
//! tabs, a list of downloads, a map of jobs in flight. A parent reducer then has to
//! route a child action to one child among them.
//!
//! - [`Keyed<K, A>`] wraps a child action `A` with a key `K` that says which child
//!   should handle it.
//! - [`KeyedState<K, V>`] wraps a map-like collection (by default a `HashMap`) that
//!   stores child state by key.

use std::collections::hash_map::RandomState;
use std::collections::{BTreeMap, HashMap};
use std::hash::Hash;
use std::marker::PhantomData;
use vstd::prelude::*;
use vstd::std_specs::hash::{builds_valid_hashers, obeys_key_model};

verus! {

/// A keyed wrapper around an action `A` for a particular child identified by `K`.
///
/// Prefer a newtype for `K`, so that keys of different collections cannot be mixed
/// and several keyed collections under one parent stay apart by their types.
#[derive(Clone, Debug, PartialEq)]
pub struct Keyed<K, A> {
    pub key: K,
    pub action: A,
}

impl<K, A> Keyed<K, A> {
    /// Create a new keyed action payload.
    pub fn new(key: K, action: A) -> (keyed: Keyed<K, A>)
        ensures
            keyed.key == key,
            keyed.action == action,
    {
        Keyed { key, action }
    }
}

/// A small abstraction over map-like keyed storage used by [`KeyedState`]: all that
/// routing needs is to find the child that a key stands for.
pub trait KeyedMap<K, V> {
    /// The children by key.
    open spec fn entries(&self) -> Map<K, V> {
        vstd::pervasive::arbitrary()
    }

    /// Whether this kind of map, with this kind of key, behaves as a map. Where it
    /// does not, nothing is known of what `get_mut` finds.
    open spec fn obeys_map_model() -> bool {
        false
    }

    /// The child stored under `key`, if there is one. What the caller does to the
    /// child is what happens to the map; every other entry stays as it is.
    fn get_mut<'a>(this: &'a mut Self, key: &K) -> (child: Option<&'a mut V>)
        ensures
            Self::obeys_map_model() ==> (child is Some <==> old(this).entries().contains_key(
                *key,
            )),
            Self::obeys_map_model() && child is Some ==> *child.unwrap() == old(
                this,
            ).entries()[*key] && final(this).entries() == old(this).entries().insert(
                *key,
                *final(child.unwrap()),
            ),
            child is None ==> final(this).entries() == old(this).entries(),
    ;
}

/// `HashMap::get_mut`: a mutable reference to the value that the map holds for
/// `key`, or `None` where it holds none. Nothing else in the map changes, and
/// the map changes only by what is written through the reference.
#[verifier::external_body]
fn hash_map_get_mut<'a, K: Eq + Hash, V>(map: &'a mut HashMap<K, V>, key: &K) -> (child: Option<
    &'a mut V,
>)
    ensures
        obeys_key_model::<K>() && builds_valid_hashers::<RandomState>() ==> (child is Some
            <==> old(map)@.contains_key(*key)),
        obeys_key_model::<K>() && builds_valid_hashers::<RandomState>() && child is Some
            ==> *child.unwrap() == old(map)@[*key] && final(map)@ == old(map)@.insert(
            *key,
            *final(child.unwrap()),
        ),
        child is None ==> final(map)@ == old(map)@,
{
    map.get_mut(key)
}

impl<K, V> KeyedMap<K, V> for HashMap<K, V> where K: Eq + Hash {
    open spec fn entries(&self) -> Map<K, V> {
        self@
    }

    open spec fn obeys_map_model() -> bool {
        obeys_key_model::<K>() && builds_valid_hashers::<RandomState>()
    }

    fn get_mut<'a>(this: &'a mut Self, key: &K) -> (child: Option<&'a mut V>) {
        hash_map_get_mut(this, key)
    }
}

/// `BTreeMap::get_mut`: a mutable reference to the value that the map holds for
/// `key`, or `None` where it holds none. Nothing else in the map changes, and
/// the map changes only by what is written through the reference.
#[verifier::external_body]
fn btree_map_get_mut<'a, K: Ord, V>(map: &'a mut BTreeMap<K, V>, key: &K) -> (child: Option<
    &'a mut V,
>)
    ensures
        vstd::laws_cmp::obeys_cmp::<K>() ==> (child is Some <==> old(map)@.contains_key(*key)),
        vstd::laws_cmp::obeys_cmp::<K>() && child is Some ==> *child.unwrap() == old(map)@[*key]
            && final(map)@ == old(map)@.insert(*key, *final(child.unwrap())),
        child is None ==> final(map)@ == old(map)@,
{
    map.get_mut(key)
}

impl<K, V> KeyedMap<K, V> for BTreeMap<K, V> where K: Ord {
    open spec fn entries(&self) -> Map<K, V> {
        self@
    }

    open spec fn obeys_map_model() -> bool {
        vstd::laws_cmp::obeys_cmp::<K>()
    }

    fn get_mut<'a>(this: &'a mut Self, key: &K) -> (child: Option<&'a mut V>) {
        btree_map_get_mut(this, key)
    }
}

/// A keyed collection of child states.
///
/// Use it where a parent reducer owns a dynamic collection of child reducers, and
/// pair it with [`Keyed`] actions.
///
/// The default map type is a `HashMap<K, V>`; any type that is a [`KeyedMap`] will
/// do. Where several keyed collections of one child action type stand under one
/// parent, give them distinct key types.
#[derive(Debug, PartialEq)]
pub struct KeyedState<K, V, M = HashMap<K, V>>(
    /// The underlying map storage.
    pub M,
    /// Keeps `K` and `V` in the type where `M` is a map of another kind.
    pub PhantomData<(K, V)>,
);

impl<K, V, M> KeyedState<K, V, M> {
    /// Wrap an existing map as a keyed state collection.
    pub fn new(map: M) -> (state: KeyedState<K, V, M>)
        ensures
            state.0 == map,
    {
        KeyedState(map, PhantomData)
    }

    /// The map inside.
    pub fn into_inner(self) -> (map: M)
        ensures
            map == self.0,
    {
        self.0
    }
}

impl<K, V, M: Clone> Clone for KeyedState<K, V, M> {
    fn clone(&self) -> (state: KeyedState<K, V, M>) {
        KeyedState(self.0.clone(), PhantomData)
    }
}

impl<K, V, M: Default> Default for KeyedState<K, V, M> {
    fn default() -> (state: KeyedState<K, V, M>) {
        KeyedState(M::default(), PhantomData)
    }
}

impl<K, V, M> From<M> for KeyedState<K, V, M> {
    fn from(map: M) -> (state: KeyedState<K, V, M>) {
        KeyedState(map, PhantomData)
    }
}

impl<K, V, M> vstd::std_specs::convert::FromSpecImpl<M> for KeyedState<K, V, M> {
    open spec fn obeys_from_spec() -> bool {
        true
    }

    open spec fn from_spec(map: M) -> Self {
        KeyedState(map, PhantomData)
    }
}

impl<K, V, M> std::ops::Deref for KeyedState<K, V, M> {
    type Target = M;

    fn deref(&self) -> (map: &M)
        ensures
            *map == self.0,
    {
        &self.0
    }
}

impl<K, V, M> std::ops::DerefMut for KeyedState<K, V, M> {
    fn deref_mut(&mut self) -> (map: &mut M)
        ensures
            *map == old(self).0,
            final(self).0 == *final(map),
    {
        &mut self.0
    }
}

impl<K, V, M> KeyedState<K, V, M> where M: KeyedMap<K, V> {
    /// The children by key.
    pub open spec fn entries(&self) -> Map<K, V> {
        self.0.entries()
    }

    /// The child stored under `key`, if there is one, whatever the map's type.
    /// What the caller does to the child is what happens to the collection; every
    /// other child stays as it is.
    pub fn get_mut(&mut self, key: &K) -> (child: Option<&mut V>)
        ensures
            M::obeys_map_model() ==> (child is Some <==> old(self).entries().contains_key(*key)),
            M::obeys_map_model() && child is Some ==> *child.unwrap() == old(
                self,
            ).entries()[*key] && final(self).entries() == old(self).entries().insert(
                *key,
                *final(child.unwrap()),
            ),
            child is None ==> final(self).entries() == old(self).entries(),
    {
        M::get_mut(&mut self.0, key)
    }
}

} // verus!
