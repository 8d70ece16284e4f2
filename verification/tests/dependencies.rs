use std::collections::{BTreeMap, HashMap};

use composable::dependencies::guard::Unhasher;
use composable::dependencies::{
    with_dependencies, with_dependency, Dependency, Guard, Ref, Scope,
};
use composable::views::colors::{
    current, primary_background, primary_content, primary_shapes, quaternary_background,
    quaternary_content, quaternary_shapes, secondary_background, secondary_content,
    secondary_shapes, tertiary_background, tertiary_content, tertiary_shapes, Current, Theme,
};
use composable::{Keyed, KeyedState};

#[test]
fn guards_push_and_pop() {
    let mut scope = Scope::new();
    assert_eq!(Guard::get(&scope), None);

    let outer = Guard::new(&mut scope, 1);
    assert_eq!(Guard::get(&scope), Some(&1));
    let inner = Guard::new(&mut scope, 2);
    assert_eq!(Guard::get(&scope), Some(&2));
    assert_eq!(scope.depth(), 2);

    assert_eq!(inner.drop(&mut scope), Some(2));
    assert_eq!(Guard::get(&scope), Some(&1));
    assert_eq!(outer.drop(&mut scope), Some(1));
    assert_eq!(Guard::get(&scope), None);
    assert_eq!(scope.depth(), 0);
}

#[test]
fn with_dependency_supplies_the_value_for_the_closure_only() {
    let mut scope = Scope::new();

    let seen = with_dependency(&mut scope, "outer", |scope| {
        Dependency::new(scope).get().copied()
    });
    assert_eq!(seen, Some("outer"));
    assert!(Dependency::new(&scope).is_none());
    assert_eq!(scope.depth(), 0);
}

#[test]
fn inner_scope_shadows_outer_scope() {
    let mut scope = Scope::new();
    let outer = Guard::new(&mut scope, 10);

    let seen = with_dependency(&mut scope, 20, |scope| *Dependency::new(scope).get().unwrap());
    assert_eq!(seen, 20);
    assert_eq!(Dependency::new(&scope).get(), Some(&10));

    outer.drop(&mut scope);
    assert!(Dependency::new(&scope).is_none());
}

#[test]
fn dependency_unwrap_or() {
    let mut scope = Scope::new();

    let value: Ref<'_, u32> = Dependency::new(&scope).unwrap_or(42);
    assert!(matches!(value, Ref::Owned(42)));
    assert_eq!(*value.get(), 42);

    let guard = Guard::new(&mut scope, 7);
    let dependency = Dependency::new(&scope);
    assert!(dependency.is_some());
    assert!(!dependency.is_none());
    let value = dependency.unwrap_or(42);
    assert!(matches!(value, Ref::Borrowed(&7)));
    assert_eq!(*value.get(), 7);
    guard.drop(&mut scope);
}

#[test]
fn unhasher_hands_back_what_was_written() {
    let mut hasher = Unhasher::new();
    assert_eq!(hasher.finish(), 0);
    hasher.write_u64(0xfeed_beef);
    assert_eq!(hasher.finish(), 0xfeed_beef);
    assert_eq!(Unhasher::default().finish(), 0);
}

struct Plain;

impl Theme for Plain {
    fn primary_content(&self) -> [u8; 4] {
        [1, 0, 0, 255]
    }

    fn secondary_content(&self) -> [u8; 4] {
        [2, 0, 0, 255]
    }

    fn tertiary_content(&self) -> [u8; 4] {
        [3, 0, 0, 255]
    }

    fn quaternary_content(&self) -> [u8; 4] {
        [4, 0, 0, 255]
    }

    fn primary_shapes(&self) -> [u8; 4] {
        [0, 1, 0, 255]
    }

    fn secondary_shapes(&self) -> [u8; 4] {
        [0, 2, 0, 255]
    }

    fn tertiary_shapes(&self) -> [u8; 4] {
        [0, 3, 0, 255]
    }

    fn quaternary_shapes(&self) -> [u8; 4] {
        [0, 4, 0, 255]
    }

    fn primary_background(&self) -> [u8; 4] {
        [0, 0, 1, 255]
    }

    fn secondary_background(&self) -> [u8; 4] {
        [0, 0, 2, 255]
    }

    fn tertiary_background(&self) -> [u8; 4] {
        [0, 0, 3, 255]
    }

    fn quaternary_background(&self) -> [u8; 4] {
        [0, 0, 4, 255]
    }
}

#[test]
fn colors_come_from_the_theme_in_scope() {
    let mut themes = Scope::new();
    assert!(current(&themes).is_none());
    assert_eq!(primary_content(&themes), None);
    assert_eq!(quaternary_background(&themes), None);

    let guard = Guard::new(&mut themes, Current(Box::new(Plain)));
    assert!(current(&themes).is_some());
    assert_eq!(primary_content(&themes), Some([1, 0, 0, 255]));
    assert_eq!(secondary_content(&themes), Some([2, 0, 0, 255]));
    assert_eq!(tertiary_content(&themes), Some([3, 0, 0, 255]));
    assert_eq!(quaternary_content(&themes), Some([4, 0, 0, 255]));
    assert_eq!(primary_shapes(&themes), Some([0, 1, 0, 255]));
    assert_eq!(secondary_shapes(&themes), Some([0, 2, 0, 255]));
    assert_eq!(tertiary_shapes(&themes), Some([0, 3, 0, 255]));
    assert_eq!(quaternary_shapes(&themes), Some([0, 4, 0, 255]));
    assert_eq!(primary_background(&themes), Some([0, 0, 1, 255]));
    assert_eq!(secondary_background(&themes), Some([0, 0, 2, 255]));
    assert_eq!(tertiary_background(&themes), Some([0, 0, 3, 255]));
    assert_eq!(quaternary_background(&themes), Some([0, 0, 4, 255]));

    assert!(guard.drop(&mut themes).is_some());
    assert_eq!(primary_shapes(&themes), None);
}

#[test]
fn keyed_new() {
    let keyed = Keyed::new(3u8, "go");
    assert_eq!(keyed.key, 3);
    assert_eq!(keyed.action, "go");
    assert_eq!(keyed.clone(), Keyed { key: 3, action: "go" });
}

#[test]
fn keyed_state_get_mut_on_a_hash_map() {
    let mut map = HashMap::new();
    map.insert(1u32, String::from("one"));
    map.insert(2u32, String::from("two"));
    let mut state: KeyedState<u32, String> = KeyedState::new(map);

    state.get_mut(&1).unwrap().push('!');
    assert!(state.get_mut(&3).is_none());

    let map = state.into_inner();
    assert_eq!(map.len(), 2);
    assert_eq!(map[&1], "one!");
    assert_eq!(map[&2], "two");
}

#[test]
fn keyed_state_get_mut_on_a_btree_map() {
    let mut map = BTreeMap::new();
    map.insert("a", 1);
    map.insert("b", 2);
    let mut state: KeyedState<&'static str, i32, BTreeMap<&'static str, i32>> = KeyedState::new(map);

    *state.get_mut(&"b").unwrap() += 40;
    assert!(state.get_mut(&"c").is_none());

    let copy = state.clone();
    assert_eq!(copy, state);
    let map = state.into_inner();
    assert_eq!(map.len(), 2);
    assert_eq!(map["a"], 1);
    assert_eq!(map["b"], 42);
}

#[test]
fn keyed_state_default_is_empty() {
    let state: KeyedState<u32, u32> = KeyedState::default();
    assert!(state.into_inner().is_empty());
}

#[test]
fn refs_deref_to_their_value() {
    let borrowed = 5u32;
    assert_eq!(*Ref::Borrowed(&borrowed), 5);
    assert_eq!(*Ref::<u32>::Owned(6), 6);

    let scope: Scope<String> = Scope::new();
    let value = Dependency::new(&scope).unwrap_or_default();
    assert!(matches!(value, Ref::Owned(_)));
    assert_eq!(value.len(), 0);
}

#[test]
fn keyed_state_from_a_map() {
    let mut map = HashMap::new();
    map.insert(1u8, 'a');
    let mut state: KeyedState<u8, char> = KeyedState::from(map);
    assert_eq!(state.len(), 1);
    state.insert(2, 'b');
    assert_eq!(state.get_mut(&2), Some(&mut 'b'));
    assert_eq!(state.get(&1), Some(&'a'));
}

#[test]
fn with_dependencies_supplies_each_value_to_the_scope_of_its_type() {
    let mut scopes = (Scope::new(), Scope::new());
    let outer = Guard::new(&mut scopes.0, 1u32);

    let seen = with_dependencies(&mut scopes, (2u32, "two"), |scopes| {
        (
            *Dependency::new(&scopes.0).get().unwrap(),
            *Dependency::new(&scopes.1).get().unwrap(),
        )
    });
    assert_eq!(seen, (2, "two"));

    // the scopes are as they were
    assert_eq!(Guard::get(&scopes.0), Some(&1));
    assert_eq!(Guard::get(&scopes.1), None);
    assert_eq!(outer.drop(&mut scopes.0), Some(1));
}

#[test]
fn with_dependencies_takes_one_value_or_three() {
    let mut one = (Scope::new(),);
    assert_eq!(
        with_dependencies(&mut one, ('a',), |scopes| Guard::get(&scopes.0).copied()),
        Some('a')
    );
    assert_eq!(one.0.depth(), 0);

    let mut three = (Scope::new(), Scope::new(), Scope::new());
    let depths = with_dependencies(&mut three, (1u8, 2u16, 3u32), |scopes| {
        (scopes.0.depth(), scopes.1.depth(), scopes.2.depth())
    });
    assert_eq!(depths, (1, 1, 1));
    assert_eq!((three.0.depth(), three.1.depth(), three.2.depth()), (0, 0, 0));
}
