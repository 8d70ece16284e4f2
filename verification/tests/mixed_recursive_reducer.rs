// Mixed recursive reducers: a parent that has both standard child state and keyed child state.
// Contract: routing and effects must not "cross" between standard and keyed children.

use std::fmt::Debug;
use std::hash::Hash;

use composable::derive::{Field, Route, Type};
use composable::reducer::{
    reduce_child, reduce_fields, reduce_keyed, reduce_recursive, Composite, RecursiveReducer,
};
use composable::store::TestStore;
use composable::{Effects, Keyed, KeyedState, Reducer};

fn path(name: &str, argument: Option<Type>) -> Type {
    Type::Path {
        name: Some(name.to_string()),
        argument: argument.map(Box::new),
    }
}

/// Sends `action` and holds the state against what `change` makes of the state
/// before.
fn send<R>(store: &mut TestStore<R>, action: R::Action, change: impl FnOnce(&mut R))
where
    R: Reducer + Clone + PartialEq + Debug,
    R::Action: Clone,
{
    let mut expected = store.state().clone();
    change(&mut expected);

    store.send(action);
    assert_eq!(store.state(), &expected);
}

/// Receives the next action, which is to be `action`, and holds the state against
/// what `change` makes of the state before.
fn recv<R>(store: &mut TestStore<R>, action: R::Action, change: impl FnOnce(&mut R))
where
    R: Reducer + Clone + PartialEq + Debug,
    R::Action: Clone + PartialEq + Debug,
{
    let mut expected = store.state().clone();
    change(&mut expected);

    assert_eq!(store.recv(), Some(action));
    assert_eq!(store.state(), &expected);
}

#[derive(Clone, Debug, PartialEq, Eq, Hash)]
struct Id(u32);

#[derive(Clone, Debug, Default, PartialEq)]
struct StandardChildState {
    log: Vec<&'static str>,
}

#[derive(Clone, Debug, PartialEq)]
enum StandardChildAction {
    Ping,
    Pong,
}

impl Reducer for StandardChildState {
    type Action = StandardChildAction;
    type Output = Self;

    fn reduce(&mut self, action: StandardChildAction, send: &mut Effects<StandardChildAction>) {
        match action {
            StandardChildAction::Ping => {
                self.log.push("ping");
                send.action(StandardChildAction::Pong);
            }
            StandardChildAction::Pong => {
                self.log.push("pong");
            }
        }
    }
}

#[derive(Clone, Debug, Default, PartialEq)]
struct KeyedChildState {
    log: Vec<&'static str>,
}

#[derive(Clone, Debug, PartialEq)]
enum KeyedChildAction {
    Ping,
    Pong,
}

impl Reducer for KeyedChildState {
    type Action = KeyedChildAction;
    type Output = Self;

    fn reduce(&mut self, action: KeyedChildAction, send: &mut Effects<KeyedChildAction>) {
        match action {
            KeyedChildAction::Ping => {
                self.log.push("ping");
                send.action(KeyedChildAction::Pong);
            }
            KeyedChildAction::Pong => {
                self.log.push("pong");
            }
        }
    }
}

#[derive(Clone, Debug, Default, PartialEq)]
struct State {
    standard: StandardChildState,
    keyed: KeyedState<Id, KeyedChildState>,

    // marked to be skipped
    parent_log: Vec<&'static str>,
}

#[derive(Clone, Debug, PartialEq)]
enum Action {
    Standard(StandardChildAction),
    Keyed(Keyed<Id, KeyedChildAction>),
}

impl From<StandardChildAction> for Action {
    fn from(value: StandardChildAction) -> Self {
        Action::Standard(value)
    }
}

impl From<Keyed<Id, KeyedChildAction>> for Action {
    fn from(value: Keyed<Id, KeyedChildAction>) -> Self {
        Action::Keyed(value)
    }
}

impl TryFrom<Action> for StandardChildAction {
    type Error = Action;

    fn try_from(value: Action) -> Result<Self, Self::Error> {
        match value {
            Action::Standard(action) => Ok(action),
            other => Err(other),
        }
    }
}

impl TryFrom<Action> for Keyed<Id, KeyedChildAction> {
    type Error = Action;

    fn try_from(value: Action) -> Result<Self, Self::Error> {
        match value {
            Action::Keyed(keyed) => Ok(keyed),
            other => Err(other),
        }
    }
}

impl RecursiveReducer for State {
    type Action = Action;

    fn reduce_own(&mut self, action: Action, _send: &mut Effects<Action>) {
        match action {
            Action::Standard(StandardChildAction::Pong) => {
                self.parent_log.push("parent:standard:pong");
            }
            Action::Keyed(Keyed {
                action: KeyedChildAction::Pong,
                ..
            }) => {
                self.parent_log.push("parent:keyed:pong");
            }
            _ => {}
        }
    }

    fn reduce_children(&mut self, action: Action, send: &mut Effects<Action>) {
        reduce_fields(self, &action, send)
    }
}

impl Composite for State {
    type Action = Action;

    fn fields() -> Vec<Field> {
        vec![
            Field {
                skip: false,
                ty: path("StandardChildState", None),
            },
            Field {
                skip: false,
                ty: path("KeyedState", Some(path("Id", None))),
            },
            Field {
                skip: true,
                ty: path("Vec", None),
            },
        ]
    }

    fn reduce_field(&mut self, at: usize, route: Route, action: &Action, send: &mut Effects<Action>) {
        match (at, route) {
            (0, Route::Child) => reduce_child(&mut self.standard, action.clone(), send),
            (1, Route::Keyed) => reduce_keyed(&mut self.keyed, action.clone(), send),
            _ => unreachable!("no such field"),
        }
    }
}

impl Reducer for State {
    type Action = Action;
    type Output = Self;

    fn reduce(&mut self, action: Action, send: &mut Effects<Action>) {
        reduce_recursive(self, action, send)
    }
}

#[test]
fn mixed_struct_routes_standard_actions_and_effects_without_touching_keyed_children() {
    let mut state = State::default();
    state.keyed.insert(Id(1), KeyedChildState::default());

    let mut store = TestStore::with_initial(state);

    send(&mut store, Action::Standard(StandardChildAction::Ping), |state| {
        state.standard.log = vec!["ping"];
    });

    recv(&mut store, Action::Standard(StandardChildAction::Pong), |state| {
        state.standard.log = vec!["ping", "pong"];
        state.parent_log = vec!["parent:standard:pong"];
    });

    let state = store.into_inner().unwrap();
    assert_eq!(
        state.keyed.get(&Id(1)).unwrap().log,
        Vec::<&'static str>::new()
    );
}

#[test]
fn mixed_struct_routes_keyed_actions_and_effects_back_to_same_child_without_touching_standard_child(
) {
    let mut state = State::default();
    state.keyed.insert(Id(1), KeyedChildState::default());

    let mut store = TestStore::with_initial(state);

    send(
        &mut store,
        Action::Keyed(Keyed::new(Id(1), KeyedChildAction::Ping)),
        |state| {
            state.keyed.get_mut(&Id(1)).unwrap().log = vec!["ping"];
        },
    );

    recv(
        &mut store,
        Action::Keyed(Keyed::new(Id(1), KeyedChildAction::Pong)),
        |state| {
            state.keyed.get_mut(&Id(1)).unwrap().log = vec!["ping", "pong"];
            state.parent_log = vec!["parent:keyed:pong"];
        },
    );

    let state = store.into_inner().unwrap();
    assert_eq!(state.standard.log, Vec::<&'static str>::new());
}
