//! Reducers, and how a parent hands actions down to its children.
//!
//! A parent reduces an action itself first, on a clone of the action. Then it
//! offers the action to each of its fields that is not marked to be skipped, in
//! their order: [`reduce_recursive`] does the one, [`reduce_fields`] the other. A
//! child takes the action if the action converts into the child's own action
//! type, and whatever the child asks of its effects goes back through the
//! parent's, wrapped the other way. A child in a keyed collection is found by the
//! key that the action carries. Which fields are keyed collections is read off
//! their types, as [`crate::derive`] has it.

use vstd::prelude::*;

use crate::derive::{plan, planned, Field, Route};
use crate::effects::{clones_exactly, Effects, EffectsView, Wrap, WrapKeyed};
use crate::keyed::{Keyed, KeyedMap, KeyedState};

verus! {

/// Reducers are responsible for updating a store's state in response to its
/// actions.
pub trait Reducer: Sized {
    /// All of the possible actions that can be used to modify state.
    type Action;

    /// What a store gives back for its state when it is shut down.
    type Output;

    /// The reducer as a function: the state after `action`, and the effects handle
    /// with what the reducer asked for. A reducer that is to be reasoned about says
    /// here what it does; of one that does not, nothing is known.
    open spec fn reduced(self, action: Self::Action, send: EffectsView<Self::Action>) -> (
        Self,
        EffectsView<Self::Action>,
    ) {
        vstd::pervasive::arbitrary()
    }

    /// Updates the reducer's state in response to the action received. Further
    /// actions that have to follow are requested of `send`.
    fn reduce(&mut self, action: Self::Action, send: &mut Effects<Self::Action>)
        ensures
            (*final(self), final(send)@) == old(self).reduced(action, old(send)@),
            final(send)@.extends(old(send)@),
    ;
}

impl<T: Reducer> Reducer for Box<T> {
    type Action = T::Action;

    type Output = T::Output;

    open spec fn reduced(self, action: Self::Action, send: EffectsView<Self::Action>) -> (
        Self,
        EffectsView<Self::Action>,
    ) {
        let (state, effects) = (*self).reduced(action, send);
        (Box::new(state), effects)
    }

    fn reduce(&mut self, action: Self::Action, send: &mut Effects<Self::Action>) {
        let state: &mut T = &mut *self;
        state.reduce(action, send)
    }
}

impl<T: Reducer> Reducer for Option<T> {
    type Action = T::Action;

    type Output = Option<T::Output>;

    open spec fn reduced(self, action: Self::Action, send: EffectsView<Self::Action>) -> (
        Self,
        EffectsView<Self::Action>,
    ) {
        match self {
            Some(state) => {
                let (state, effects) = state.reduced(action, send);
                (Some(state), effects)
            },
            None => (None, send),
        }
    }

    fn reduce(&mut self, action: Self::Action, send: &mut Effects<Self::Action>) {
        match self {
            Some(state) => state.reduce(action, send),
            None => {
                assert(send@.log.take(send@.log.len() as int) =~= send@.log);
            },
        }
    }
}

/// Whether the conversion of a parent's action `A` into a child's `C` is known by
/// what it does.
pub open spec fn converts<A, C: TryFrom<A>>() -> bool {
    <C as vstd::std_specs::convert::TryFromSpec<A>>::obeys_try_from_spec()
}

/// The child's action that the parent's action stands for, if it stands for one.
pub open spec fn converted<A, C: TryFrom<A>>(action: A) -> Option<C> {
    match <C as vstd::std_specs::convert::TryFromSpec<A>>::try_from_spec(action) {
        Ok(child) => Some(child),
        Err(_) => None,
    }
}

/// Whether wrapping a child's action `C` into a parent's `A` is known by what it
/// does.
pub open spec fn wraps<A: From<C>, C>() -> bool {
    <A as vstd::std_specs::convert::FromSpec<C>>::obeys_from_spec()
}

/// A child and the parent's effects after the parent's `action` was offered to the
/// child. Where the action is one of the child's, the child reduces it with a
/// scoped handle, and the parent's handle takes in what the child asked for.
/// Where it is not, nothing changes.
pub open spec fn child_reduced<C: Reducer, A: From<C::Action>>(
    child: C,
    action: A,
    send: EffectsView<A>,
) -> (C, EffectsView<A>) where C::Action: TryFrom<A> {
    match converted::<A, C::Action>(action) {
        Some(child_action) => {
            let (state, scoped) = child.reduced(child_action, send.scope());
            (state, send.absorb(Wrap, scoped))
        },
        None => (child, send),
    }
}

/// The children of a keyed collection and the parent's effects after the parent's
/// `action` was offered to the collection. Where the action is a keyed action of
/// these children and a child is stored under its key, that child reduces the
/// action with a handle scoped to the key. Otherwise nothing changes.
pub open spec fn keyed_reduced<K, C: Reducer, A: From<Keyed<K, C::Action>>>(
    children: Map<K, C>,
    action: A,
    send: EffectsView<A>,
) -> (Map<K, C>, EffectsView<A>) where Keyed<K, C::Action>: TryFrom<A>, K: Clone {
    match converted::<A, Keyed<K, C::Action>>(action) {
        Some(keyed) => if children.contains_key(keyed.key) {
            let (state, scoped) = children[keyed.key].reduced(keyed.action, send.scope());
            (children.insert(keyed.key, state), send.absorb(WrapKeyed(keyed.key), scoped))
        } else {
            (children, send)
        },
        None => (children, send),
    }
}

/// Offers the parent's `action` to a child. The child reduces it if it converts
/// into one of the child's actions; what the child asks of its effects reaches
/// `send` wrapped into the parent's action type.
pub fn reduce_child<C: Reducer, A: From<C::Action>>(child: &mut C, action: A, send: &mut Effects<A>)
    where C::Action: TryFrom<A>
    ensures
        converts::<A, C::Action>() && wraps::<A, C::Action>() ==> (*final(child), final(send)@)
            == child_reduced(*old(child), action, old(send)@),
        final(send)@.extends(old(send)@),
{
    match C::Action::try_from(action) {
        Ok(child_action) => {
            let mut scoped = send.scope();
            child.reduce(child_action, &mut scoped.0);
            scoped.lift(send);
        },
        Err(_) => {
            assert(send@.log.take(send@.log.len() as int) =~= send@.log);
        },
    }
}

/// Offers the parent's `action` to a keyed collection of children. Where the
/// action converts into a keyed action of these children, and a child is stored
/// under its key, that child reduces it; what the child asks of its effects
/// reaches `send` wrapped with a clone of the key. No other child is touched.
pub fn reduce_keyed<K: Clone, C: Reducer, M: KeyedMap<K, C>, A: From<Keyed<K, C::Action>>>(
    children: &mut KeyedState<K, C, M>,
    action: A,
    send: &mut Effects<A>,
) where Keyed<K, C::Action>: TryFrom<A>
    ensures
        converts::<A, Keyed<K, C::Action>>() && wraps::<A, Keyed<K, C::Action>>()
            && clones_exactly::<K>() && M::obeys_map_model() ==> (
            final(children).entries(),
            final(send)@,
        ) == keyed_reduced(
            old(children).entries(),
            action,
            old(send)@,
        ),
        final(send)@.extends(old(send)@),
{
    match Keyed::<K, C::Action>::try_from(action) {
        Ok(keyed) => {
            let Keyed { key, action: child_action } = keyed;
            match children.get_mut(&key) {
                Some(child) => {
                    let mut scoped = send.scope_keyed(key);
                    child.reduce(child_action, &mut scoped.0);
                    scoped.lift(send);
                },
                None => {
                    assert(send@.log.take(send@.log.len() as int) =~= send@.log);
                },
            }
        },
        Err(_) => {
            assert(send@.log.take(send@.log.len() as int) =~= send@.log);
        },
    }
}

/// A keyed action reaches the child stored under its key and no other: every
/// other child of the collection is after it what it was before, and no child
/// comes or goes.
pub proof fn lemma_keyed_routing<K: Clone, C: Reducer, A: From<Keyed<K, C::Action>>>(
    children: Map<K, C>,
    action: A,
    send: EffectsView<A>,
    other: K,
) where Keyed<K, C::Action>: TryFrom<A>
    requires
        converted::<A, Keyed<K, C::Action>>(action) matches Some(keyed) ==> keyed.key != other,
    ensures
        keyed_reduced(children, action, send).0.dom() == children.dom(),
        children.contains_key(other) ==> keyed_reduced(children, action, send).0[other]
            == children[other],
{
    let after = keyed_reduced(children, action, send).0;
    assert(after.dom() =~= children.dom());
}

/// An action that is no keyed action of a collection's children leaves the
/// collection alone, and asks nothing of the effects on its behalf. So an action
/// for one keyed collection never reaches another, whose keys are of another type.
pub proof fn lemma_keyed_miss<K: Clone, C: Reducer, A: From<Keyed<K, C::Action>>>(
    children: Map<K, C>,
    action: A,
    send: EffectsView<A>,
) where Keyed<K, C::Action>: TryFrom<A>
    requires
        converted::<A, Keyed<K, C::Action>>(action) is None || !children.contains_key(
            converted::<A, Keyed<K, C::Action>>(action)->Some_0.key,
        ),
    ensures
        keyed_reduced(children, action, send) == (children, send),
{
}

/// An action that is none of a child's leaves that child alone. So actions never
/// cross between sibling children.
pub proof fn lemma_child_miss<C: Reducer, A: From<C::Action>>(
    child: C,
    action: A,
    send: EffectsView<A>,
) where C::Action: TryFrom<A>
    requires
        converted::<A, C::Action>(action) is None,
    ensures
        child_reduced(child, action, send) == (child, send),
{
}

/// A state that is one of two children at a time.
pub enum Either<L, R> {
    Left(L),
    Right(R),
}

/// The state and the parent's effects after the parent's `action` was offered to
/// a state that is one of two children: only the child that is there is offered
/// the action.
pub open spec fn either_reduced<L: Reducer, R: Reducer, A: From<L::Action> + From<R::Action>>(
    state: Either<L, R>,
    action: A,
    send: EffectsView<A>,
) -> (Either<L, R>, EffectsView<A>) where L::Action: TryFrom<A>, R::Action: TryFrom<A> {
    match state {
        Either::Left(child) => {
            let (child, effects) = child_reduced(child, action, send);
            (Either::Left(child), effects)
        },
        Either::Right(child) => {
            let (child, effects) = child_reduced(child, action, send);
            (Either::Right(child), effects)
        },
    }
}

/// Offers the parent's `action` to the child that `state` holds at present. The
/// other child's actions find nobody to reduce them.
pub fn reduce_either<L: Reducer, R: Reducer, A: From<L::Action> + From<R::Action>>(
    state: &mut Either<L, R>,
    action: A,
    send: &mut Effects<A>,
) where L::Action: TryFrom<A>, R::Action: TryFrom<A>
    ensures
        converts::<A, L::Action>() && wraps::<A, L::Action>() && converts::<A, R::Action>()
            && wraps::<A, R::Action>() ==> (*final(state), final(send)@) == either_reduced(
            *old(state),
            action,
            old(send)@,
        ),
        final(send)@.extends(old(send)@),
{
    match state {
        Either::Left(child) => reduce_child(child, action, send),
        Either::Right(child) => reduce_child(child, action, send),
    }
}

/// A handle that extends one that extends another extends that other.
pub proof fn lemma_extends<A>(last: EffectsView<A>, middle: EffectsView<A>, first: EffectsView<A>)
    requires
        last.extends(middle),
        middle.extends(first),
    ensures
        last.extends(first),
{
    assert(last.log.take(first.log.len() as int) =~= last.log.take(middle.log.len() as int).take(
        first.log.len() as int,
    ));
}

/// A reducer that has children. It says what the parent does with an action
/// itself, and how the action is offered to its children; [`reduce_recursive`]
/// puts the two together.
pub trait RecursiveReducer: Sized {
    /// All of the possible actions that can be used to modify state.
    type Action;

    /// The parent's own reduction as a function. Of a parent that does not say
    /// here what it does, nothing is known.
    open spec fn own_reduced(self, action: Self::Action, send: EffectsView<Self::Action>) -> (
        Self,
        EffectsView<Self::Action>,
    ) {
        vstd::pervasive::arbitrary()
    }

    /// Updates the parent's own state in response to the action. The children are
    /// not its business.
    fn reduce_own(&mut self, action: Self::Action, send: &mut Effects<Self::Action>)
        ensures
            (*final(self), final(send)@) == old(self).own_reduced(action, old(send)@),
            final(send)@.extends(old(send)@),
    ;

    /// The reduction by the children as a function.
    open spec fn children_reduced(
        self,
        action: Self::Action,
        send: EffectsView<Self::Action>,
    ) -> (Self, EffectsView<Self::Action>) {
        vstd::pervasive::arbitrary()
    }

    /// Offers the action to each child that is not skipped, in the order of the
    /// fields: with [`reduce_fields`], or with [`reduce_child`], [`reduce_keyed`]
    /// and [`reduce_either`] child by child.
    fn reduce_children(&mut self, action: Self::Action, send: &mut Effects<Self::Action>)
        ensures
            (*final(self), final(send)@) == old(self).children_reduced(action, old(send)@),
            final(send)@.extends(old(send)@),
    ;
}

/// A parent and its effects after an action: first the parent has reduced `own`,
/// its own clone of the action, then the children were offered `action`, with the
/// state and the effects as the parent left them.
pub open spec fn composed<P: RecursiveReducer>(
    parent: P,
    own: P::Action,
    action: P::Action,
    send: EffectsView<P::Action>,
) -> (P, EffectsView<P::Action>) {
    let (reduced, effects) = parent.own_reduced(own, send);
    reduced.children_reduced(action, effects)
}

/// Reduces `action` in a parent with children. The parent's own reduction runs
/// first, once, on a clone of the action. Then the action is offered to the
/// children.
pub fn reduce_recursive<P: RecursiveReducer>(
    parent: &mut P,
    action: P::Action,
    send: &mut Effects<P::Action>,
) where P::Action: Clone
    ensures
        exists|own: P::Action| #[trigger]
            vstd::pervasive::cloned(action, own) && (*final(parent), final(send)@) == composed(
                *old(parent),
                own,
                action,
                old(send)@,
            ),
        clones_exactly::<P::Action>() ==> (*final(parent), final(send)@) == composed(
            *old(parent),
            action,
            action,
            old(send)@,
        ),
        final(send)@.extends(old(send)@),
{
    let own = action.clone();
    assert(vstd::pervasive::cloned(action, own));
    parent.reduce_own(own, send);
    let ghost middle = send@;
    parent.reduce_children(action, send);
    proof {
        lemma_extends(send@, middle, old(send)@);
    }
}

/// A parent whose children are told apart by their position among its fields, or
/// among its variants if it is an enum.
pub trait Composite: Sized {
    /// All of the possible actions that can be used to modify state.
    type Action;

    /// The positions and routes of the fields that are offered an action: what
    /// [`planned`] makes of the fields.
    open spec fn routes() -> Seq<(usize, Route)> {
        vstd::pervasive::arbitrary()
    }

    /// The parent's fields in their order, each with its mark and the shape of
    /// its type.
    fn fields() -> (fields: Vec<Field>)
        ensures
            planned(fields@) == Self::routes(),
    ;

    /// The parent and its effects after `action` was offered, by `route`, to the
    /// field at position `at`.
    open spec fn field_reduced(
        self,
        at: usize,
        route: Route,
        action: Self::Action,
        send: EffectsView<Self::Action>,
    ) -> (Self, EffectsView<Self::Action>) {
        vstd::pervasive::arbitrary()
    }

    /// Offers `action` to the field at position `at`: with [`reduce_child`] where
    /// the route is to a child, with [`reduce_keyed`] where it is to a keyed
    /// collection. A parent that is an enum offers it to the variant at that
    /// position if that is the variant that it is, and to none otherwise.
    fn reduce_field(
        &mut self,
        at: usize,
        route: Route,
        action: &Self::Action,
        send: &mut Effects<Self::Action>,
    )
        ensures
            (*final(self), final(send)@) == old(self).field_reduced(
                at,
                route,
                *action,
                old(send)@,
            ),
            final(send)@.extends(old(send)@),
    ;
}

/// A parent and its effects after `action` was offered to the fields of `routes`,
/// one after the other.
pub open spec fn fields_reduced<P: Composite>(
    parent: P,
    routes: Seq<(usize, Route)>,
    action: P::Action,
    send: EffectsView<P::Action>,
) -> (P, EffectsView<P::Action>)
    decreases routes.len(),
{
    if routes.len() == 0 {
        (parent, send)
    } else {
        let (reduced, effects) = parent.field_reduced(routes[0].0, routes[0].1, action, send);
        fields_reduced(reduced, routes.drop_first(), action, effects)
    }
}

/// Offers `action` to each field of the parent that is not marked to be skipped,
/// in the order of the fields: by key to a field whose type is a keyed
/// collection, as to one child to every other.
pub fn reduce_fields<P: Composite>(parent: &mut P, action: &P::Action, send: &mut Effects<P::Action>)
    ensures
        (*final(parent), final(send)@) == fields_reduced(
            *old(parent),
            P::routes(),
            *action,
            old(send)@,
        ),
        final(send)@.extends(old(send)@),
{
    let fields = P::fields();
    let routes = plan(&fields);
    let ghost wanted = fields_reduced(*old(parent), P::routes(), *action, old(send)@);
    let mut i: usize = 0;
    assert(routes@.skip(0) =~= routes@);
    assert(send@.log.take(send@.log.len() as int) =~= send@.log);
    while i < routes.len()
        invariant
            i <= routes@.len(),
            fields_reduced(*parent, routes@.skip(i as int), *action, send@) == wanted,
            send@.extends(old(send)@),
        decreases routes.len() - i,
    {
        let (at, route) = routes[i];
        let ghost before = send@;
        assert(routes@.skip(i as int)[0] == routes@[i as int]);
        assert(routes@.skip(i as int).drop_first() =~= routes@.skip(i + 1));
        parent.reduce_field(at, route, action, send);
        proof {
            lemma_extends(send@, before, old(send)@);
        }
        i = i + 1;
    }
}

/// Only the active variant's child is reduced. The state stays the variant that it
/// is, and an action that is none of the active child's changes nothing, whatever
/// the other variant's child would have made of it.
pub proof fn lemma_either_routing<L: Reducer, R: Reducer, A: From<L::Action> + From<R::Action>>(
    state: Either<L, R>,
    action: A,
    send: EffectsView<A>,
) where L::Action: TryFrom<A>, R::Action: TryFrom<A>
    ensures
        either_reduced(state, action, send).0 is Left <==> state is Left,
        state is Left && converted::<A, L::Action>(action) is None ==> either_reduced(
            state,
            action,
            send,
        ) == (state, send),
        state is Right && converted::<A, R::Action>(action) is None ==> either_reduced(
            state,
            action,
            send,
        ) == (state, send),
        state matches Either::Left(child) ==> either_reduced(state, action, send) == (
            Either::<L, R>::Left(child_reduced(child, action, send).0),
            child_reduced(child, action, send).1,
        ),
        state matches Either::Right(child) ==> either_reduced(state, action, send) == (
            Either::<L, R>::Right(child_reduced(child, action, send).0),
            child_reduced(child, action, send).1,
        ),
{
}

} // verus!
