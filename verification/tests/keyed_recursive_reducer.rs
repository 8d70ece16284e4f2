use std::collections::HashMap;
use std::fmt::Debug;

use composable::derive::{Field, Route, Type};
use composable::reducer::{reduce_fields, reduce_keyed, reduce_recursive, Composite, RecursiveReducer};
use composable::store::TestStore;
use composable::{Effects, Keyed, KeyedState, Reducer};

// Keyed reducers route `Keyed<K, ChildAction>` into one child state selected by `K`.
// Effects emitted by the child are scoped back through the parent action type while
// preserving the same key.

fn path(name: &str, argument: Option<Type>) -> Type {
    Type::Path {
        name: Some(name.to_string()),
        argument: argument.map(Box::new),
    }
}

fn field(skip: bool, ty: Type) -> Field {
    Field { skip, ty }
}

/// Sends `action` and holds the state against what `change` makes of the state
/// before.
fn send<R>(store: &mut TestStore<R>, action: R::Action, change: impl FnOnce(&mut R))
where
    R: Reducer + Clone + PartialEq + Debug,
    R::Action: Clone,
{
    let mut expected = store.state().clone();
    change(&mut expected);

    store.send(action);
    assert_eq!(store.state(), &expected);
}

/// Receives the next action, which is to be `action`, and holds the state against
/// what `change` makes of the state before.
fn recv<R>(store: &mut TestStore<R>, action: R::Action, change: impl FnOnce(&mut R))
where
    R: Reducer + Clone + PartialEq + Debug,
    R::Action: Clone + PartialEq + Debug,
{
    let mut expected = store.state().clone();
    change(&mut expected);

    assert_eq!(store.recv(), Some(action));
    assert_eq!(store.state(), &expected);
}

// The keys are cloned, not copied.
#[derive(Clone, Debug, PartialEq, Eq, Hash)]
struct Id(u32);

#[derive(Clone, Debug, PartialEq, Eq, Hash)]
struct Name(&'static str);

#[derive(Clone, Debug, Default, PartialEq)]
struct ChildState {
    log: Vec<&'static str>,
}

#[derive(Clone, Debug, PartialEq)]
enum ChildAction {
    EmitPing,
    Ping,
}

impl Reducer for ChildState {
    type Action = ChildAction;
    type Output = Self;

    fn reduce(&mut self, action: ChildAction, send: &mut Effects<ChildAction>) {
        match action {
            ChildAction::EmitPing => {
                // No state change here: the effect is only queued.
                send.action(ChildAction::Ping);
            }
            ChildAction::Ping => {
                self.log.push("ping");
            }
        }
    }
}

#[derive(Clone, Debug, Default, PartialEq)]
struct OneState {
    children: KeyedState<Id, ChildState>,

    // marked to be skipped, though its type is a map
    mirror: HashMap<Id, Vec<&'static str>>,
}

#[derive(Clone, Debug, PartialEq)]
enum OneAction {
    Child(Keyed<Id, ChildAction>),
}

impl From<Keyed<Id, ChildAction>> for OneAction {
    fn from(value: Keyed<Id, ChildAction>) -> Self {
        OneAction::Child(value)
    }
}

impl TryFrom<OneAction> for Keyed<Id, ChildAction> {
    type Error = OneAction;

    fn try_from(value: OneAction) -> Result<Self, Self::Error> {
        match value {
            OneAction::Child(keyed) => Ok(keyed),
        }
    }
}

impl RecursiveReducer for OneState {
    type Action = OneAction;

    fn reduce_own(&mut self, _action: OneAction, _send: &mut Effects<OneAction>) {}

    fn reduce_children(&mut self, action: OneAction, send: &mut Effects<OneAction>) {
        reduce_fields(self, &action, send)
    }
}

impl Composite for OneState {
    type Action = OneAction;

    fn fields() -> Vec<Field> {
        vec![
            field(false, path("KeyedState", Some(path("Id", None)))),
            field(true, path("HashMap", Some(path("Id", None)))),
        ]
    }

    fn reduce_field(
        &mut self,
        at: usize,
        route: Route,
        action: &OneAction,
        send: &mut Effects<OneAction>,
    ) {
        match (at, route) {
            (0, Route::Keyed) => reduce_keyed(&mut self.children, action.clone(), send),
            _ => unreachable!("no such field"),
        }
    }
}

impl Reducer for OneState {
    type Action = OneAction;
    type Output = Self;

    fn reduce(&mut self, action: OneAction, send: &mut Effects<OneAction>) {
        reduce_recursive(self, action, send)
    }
}

#[test]
/// A keyed collection:
/// - routes actions by key
/// - routes effect-driven follow-up actions back to the same key
fn keyed_struct_routes_actions_and_effects_back_to_same_child() {
    let mut state = OneState::default();
    state.children.insert(Id(1), ChildState::default());
    state.children.insert(Id(2), ChildState::default());

    let mut store = TestStore::with_initial(state);

    // 1) Send an action to child 1 that emits a follow-up effect.
    // The follow-up is not reduced yet, so no "ping" yet.
    send(
        &mut store,
        OneAction::Child(Keyed::new(Id(1), ChildAction::EmitPing)),
        |_| {},
    );

    // 2) The follow-up action should be queued as a *keyed parent action* for the same key.
    recv(
        &mut store,
        OneAction::Child(Keyed::new(Id(1), ChildAction::Ping)),
        |state| {
            state.children.get_mut(&Id(1)).unwrap().log = vec!["ping"];
        },
    );

    // 3) Child 2 should remain untouched.
    assert_eq!(
        store.into_inner().unwrap().children.get(&Id(2)).unwrap().log,
        Vec::<&'static str>::new(),
    );
}

#[derive(Clone, Debug, Default, PartialEq)]
struct TwoState {
    by_id: KeyedState<Id, ChildState>,
    by_name: KeyedState<Name, ChildState>,
}

#[derive(Clone, Debug, PartialEq)]
enum TwoAction {
    ById(Keyed<Id, ChildAction>),
    ByName(Keyed<Name, ChildAction>),
}

impl From<Keyed<Id, ChildAction>> for TwoAction {
    fn from(value: Keyed<Id, ChildAction>) -> Self {
        TwoAction::ById(value)
    }
}

impl From<Keyed<Name, ChildAction>> for TwoAction {
    fn from(value: Keyed<Name, ChildAction>) -> Self {
        TwoAction::ByName(value)
    }
}

impl TryFrom<TwoAction> for Keyed<Id, ChildAction> {
    type Error = TwoAction;

    fn try_from(value: TwoAction) -> Result<Self, Self::Error> {
        match value {
            TwoAction::ById(keyed) => Ok(keyed),
            other => Err(other),
        }
    }
}

impl TryFrom<TwoAction> for Keyed<Name, ChildAction> {
    type Error = TwoAction;

    fn try_from(value: TwoAction) -> Result<Self, Self::Error> {
        match value {
            TwoAction::ByName(keyed) => Ok(keyed),
            other => Err(other),
        }
    }
}

impl RecursiveReducer for TwoState {
    type Action = TwoAction;

    fn reduce_own(&mut self, _action: TwoAction, _send: &mut Effects<TwoAction>) {}

    fn reduce_children(&mut self, action: TwoAction, send: &mut Effects<TwoAction>) {
        reduce_fields(self, &action, send)
    }
}

impl Composite for TwoState {
    type Action = TwoAction;

    fn fields() -> Vec<Field> {
        vec![
            field(false, path("KeyedState", Some(path("Id", None)))),
            field(false, path("KeyedState", Some(path("Name", None)))),
        ]
    }

    fn reduce_field(
        &mut self,
        at: usize,
        route: Route,
        action: &TwoAction,
        send: &mut Effects<TwoAction>,
    ) {
        match (at, route) {
            (0, Route::Keyed) => reduce_keyed(&mut self.by_id, action.clone(), send),
            (1, Route::Keyed) => reduce_keyed(&mut self.by_name, action.clone(), send),
            _ => unreachable!("no such field"),
        }
    }
}

impl Reducer for TwoState {
    type Action = TwoAction;
    type Output = Self;

    fn reduce(&mut self, action: TwoAction, send: &mut Effects<TwoAction>) {
        reduce_recursive(self, action, send)
    }
}

#[test]
/// Multiple keyed collections can coexist as long as their keyed payload types differ.
/// Using distinct key newtypes makes `Keyed<K, ChildAction>` distinct and avoids conversion ambiguity.
fn multiple_keyed_fields_work_when_keys_are_distinct_types() {
    let mut state = TwoState::default();
    state.by_id.insert(Id(1), ChildState::default());
    state.by_name.insert(Name("A"), ChildState::default());

    let mut store = TestStore::with_initial(state);

    // Route via the `Id`-keyed field.
    send(
        &mut store,
        TwoAction::ById(Keyed::new(Id(1), ChildAction::EmitPing)),
        |_| {},
    );
    recv(
        &mut store,
        TwoAction::ById(Keyed::new(Id(1), ChildAction::Ping)),
        |state| {
            state.by_id.get_mut(&Id(1)).unwrap().log = vec!["ping"];
        },
    );

    // Route via the `Name`-keyed field.
    send(
        &mut store,
        TwoAction::ByName(Keyed::new(Name("A"), ChildAction::EmitPing)),
        |_| {},
    );
    recv(
        &mut store,
        TwoAction::ByName(Keyed::new(Name("A"), ChildAction::Ping)),
        |state| {
            state.by_name.get_mut(&Name("A")).unwrap().log = vec!["ping"];
        },
    );

    let state = store.into_inner().unwrap();
    assert_eq!(state.by_id.get(&Id(1)).unwrap().log, vec!["ping"]);
    assert_eq!(state.by_name.get(&Name("A")).unwrap().log, vec!["ping"]);
}

#[test]
fn keyed_action_for_a_missing_key_is_skipped() {
    let mut state = OneState::default();
    state.children.insert(Id(1), ChildState::default());

    let mut store = TestStore::with_initial(state);
    send(
        &mut store,
        OneAction::Child(Keyed::new(Id(9), ChildAction::Ping)),
        |_| {},
    );
    assert_eq!(store.recv(), None);

    let state = store.into_inner().unwrap();
    assert_eq!(state.children.len(), 1);
    assert_eq!(state.children[&Id(1)], ChildState::default());
}
