use composable::derive::{is_keyed_state, plan, Field, Route, Type};

fn path(name: &str) -> Type {
    Type::Path {
        name: Some(name.to_string()),
        argument: None,
    }
}

fn path_of(name: &str, argument: Type) -> Type {
    Type::Path {
        name: Some(name.to_string()),
        argument: Some(Box::new(argument)),
    }
}

#[test]
fn keyed_state_is_keyed_state() {
    assert!(is_keyed_state(&path("KeyedState")));
    assert!(is_keyed_state(&path_of("KeyedState", path("Id"))));
}

#[test]
fn bare_maps_are_not_keyed_state() {
    assert!(!is_keyed_state(&path("HashMap")));
    assert!(!is_keyed_state(&path("BTreeMap")));
    assert!(!is_keyed_state(&path_of("HashMap", path("Id"))));
    assert!(!is_keyed_state(&path_of("Box", path("HashMap"))));
    assert!(!is_keyed_state(&path_of("Option", path("BTreeMap"))));
}

#[test]
fn other_paths_are_not_keyed_state() {
    assert!(!is_keyed_state(&path("Vec")));
    assert!(!is_keyed_state(&path("keyedstate")));
    assert!(!is_keyed_state(&path("")));
    assert!(!is_keyed_state(&path_of("Vec", path("KeyedState"))));
    assert!(!is_keyed_state(&Type::Path {
        name: None,
        argument: None
    }));
    assert!(!is_keyed_state(&Type::Other));
}

#[test]
fn boxes_and_options_are_looked_into() {
    assert!(is_keyed_state(&path_of("Box", path("KeyedState"))));
    assert!(is_keyed_state(&path_of("Option", path("KeyedState"))));
    assert!(is_keyed_state(&path_of(
        "Option",
        path_of("Box", path("KeyedState"))
    )));
    assert!(!is_keyed_state(&path_of("Box", path("Vec"))));
    assert!(!is_keyed_state(&path_of("Option", Type::Other)));
    // without a type argument
    assert!(!is_keyed_state(&path("Box")));
    assert!(!is_keyed_state(&path("Option")));
}

#[test]
fn trait_objects_are_keyed_state_by_their_bounds() {
    let bounds = |names: &[&str]| Type::TraitObject {
        bounds: names.iter().map(|name| name.to_string()).collect(),
    };
    assert!(is_keyed_state(&bounds(&["KeyedState"])));
    assert!(is_keyed_state(&bounds(&["Send", "KeyedState", "Sync"])));
    assert!(!is_keyed_state(&bounds(&["Send", "Sync"])));
    assert!(!is_keyed_state(&bounds(&["HashMap"])));
    assert!(!is_keyed_state(&bounds(&[])));
}

#[test]
fn references_groups_and_parentheses_are_looked_through() {
    let keyed = || Box::new(path("KeyedState"));
    let plain = || Box::new(path("Vec"));
    assert!(is_keyed_state(&Type::Reference(keyed())));
    assert!(is_keyed_state(&Type::Group(keyed())));
    assert!(is_keyed_state(&Type::Paren(keyed())));
    assert!(is_keyed_state(&Type::Reference(Box::new(Type::Paren(
        Box::new(path_of("Option", path("KeyedState")))
    )))));
    assert!(!is_keyed_state(&Type::Reference(plain())));
    assert!(!is_keyed_state(&Type::Group(plain())));
    assert!(!is_keyed_state(&Type::Paren(plain())));
}

#[test]
fn plan_leaves_out_skipped_fields_and_tells_keyed_from_plain() {
    let fields = vec![
        Field { skip: false, ty: path("ChildState") },
        Field { skip: true, ty: path("KeyedState") },
        Field { skip: false, ty: path_of("KeyedState", path("Id")) },
        Field { skip: false, ty: path_of("HashMap", path("Id")) },
        Field { skip: true, ty: path("Vec") },
        Field { skip: false, ty: path_of("Option", path("KeyedState")) },
    ];
    assert_eq!(
        plan(&fields),
        vec![
            (0, Route::Child),
            (2, Route::Keyed),
            (3, Route::Child),
            (5, Route::Keyed),
        ]
    );
    assert_eq!(plan(&vec![]), vec![]);
    assert_eq!(plan(&vec![Field { skip: true, ty: path("KeyedState") }]), vec![]);
}
