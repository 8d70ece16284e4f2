//! What has to be known of a parent's fields to compose its reducer.
//!
//! A parent offers its action to each of its fields that is not marked to be
//! skipped, in their order. A field that is a keyed collection is offered the
//! action by key; every other field is offered it as one child. Which of the two a
//! field is, is read off the shape of its type. For a parent that is an enum the
//! variants stand in place of the fields, each with the type that it holds.

use vstd::prelude::*;

verus! {

/// The shape of a type, as far as it matters here.
pub enum Type {
    /// A path to a type. `name` is the last segment of the path, if it has one,
    /// and `argument` the first type among that segment's generic arguments.
    Path { name: Option<String>, argument: Option<Box<Type>> },
    /// A trait object, with the last segment of each trait that it is bound by.
    TraitObject { bounds: Vec<String> },
    /// A reference to a type.
    Reference(Box<Type>),
    /// A type in a group without delimiters.
    Group(Box<Type>),
    /// A type in parentheses.
    Paren(Box<Type>),
    /// Any other type.
    Other,
}

/// Whether one of `bounds` is named `KeyedState`.
pub open spec fn bound_by_keyed_state(bounds: Seq<String>) -> bool {
    exists|i: int| 0 <= i < bounds.len() && (#[trigger] bounds[i])@ == "KeyedState"@
}

/// Whether a type of this shape is a keyed collection of children.
///
/// `KeyedState` is the mark of one: a type is a keyed collection if it is named
/// `KeyedState`; if it is a `Box` or an `Option` of one; if it is a trait object
/// bound by `KeyedState`; or if it is a reference to one, or one in a group or in
/// parentheses. A map that is not wrapped in `KeyedState` is none.
pub open spec fn keyed(ty: Type) -> bool
    decreases ty,
{
    match ty {
        Type::Path { name: Some(name), argument } => {
            ||| name@ == "KeyedState"@
            ||| ((name@ == "Box"@ || name@ == "Option"@) && match argument {
                Some(inner) => keyed(*inner),
                None => false,
            })
        },
        Type::Path { name: None, .. } => false,
        Type::TraitObject { bounds } => bound_by_keyed_state(bounds@),
        Type::Reference(inner) => keyed(*inner),
        Type::Group(inner) => keyed(*inner),
        Type::Paren(inner) => keyed(*inner),
        Type::Other => false,
    }
}

/// Whether `name` is `literal`.
fn is_named(name: &String, literal: &str) -> (same: bool)
    ensures
        same == (name@ == literal@),
{
    let literal = literal.to_owned();
    *name == literal
}

/// Whether a type of this shape is a keyed collection of children.
pub fn is_keyed_state(ty: &Type) -> (is: bool)
    ensures
        is == keyed(*ty),
    decreases ty,
{
    match ty {
        Type::Path { name, argument } => {
            match name {
                None => false,
                Some(name) => {
                    if is_named(name, "KeyedState") {
                        true
                    } else if is_named(name, "Box") || is_named(name, "Option") {
                        match argument {
                            Some(inner) => is_keyed_state(inner),
                            None => false,
                        }
                    } else {
                        false
                    }
                },
            }
        },
        Type::TraitObject { bounds } => {
            let mut i: usize = 0;
            while i < bounds.len()
                invariant
                    i <= bounds@.len(),
                    *ty == (Type::TraitObject { bounds: *bounds }),
                    forall|j: int| 0 <= j < i ==> (#[trigger] bounds@[j])@ != "KeyedState"@,
                decreases bounds.len() - i,
            {
                if is_named(&bounds[i], "KeyedState") {
                    assert(bounds@[i as int]@ == "KeyedState"@);
                    return true;
                }
                i = i + 1;
            }
            false
        },
        Type::Reference(inner) => is_keyed_state(inner),
        Type::Group(inner) => is_keyed_state(inner),
        Type::Paren(inner) => is_keyed_state(inner),
        Type::Other => false,
    }
}

/// A field of a parent, or a variant of one that is an enum: whether it is marked
/// to be skipped, and the shape of its type.
pub struct Field {
    pub skip: bool,
    pub ty: Type,
}

/// How a parent's action reaches a child.
#[derive(Clone, Copy, Debug, PartialEq, Eq, Structural)]
pub enum Route {
    /// The action is offered to the one child that the field holds.
    Child,
    /// The action is offered to the child that its key selects among those that
    /// the field holds.
    Keyed,
}

/// The route to a field of this type.
pub open spec fn route_to(ty: Type) -> Route {
    if keyed(ty) {
        Route::Keyed
    } else {
        Route::Child
    }
}

/// The fields that are offered a parent's action, each by its position among
/// `fields` and with its route, in the order of the fields. A field that is marked
/// to be skipped is left out, whatever its type.
pub open spec fn planned(fields: Seq<Field>) -> Seq<(usize, Route)>
    decreases fields.len(),
{
    if fields.len() == 0 {
        Seq::empty()
    } else {
        let before = planned(fields.drop_last());
        let last = fields.last();
        if last.skip {
            before
        } else {
            before.push(((fields.len() - 1) as usize, route_to(last.ty)))
        }
    }
}

/// The fields that are offered a parent's action, each by its position among
/// `fields` and with its route, in the order of the fields.
pub fn plan(fields: &Vec<Field>) -> (routes: Vec<(usize, Route)>)
    ensures
        routes@ == planned(fields@),
{
    let mut routes: Vec<(usize, Route)> = Vec::new();
    let mut i: usize = 0;
    assert(fields@.take(0) =~= Seq::<Field>::empty());
    while i < fields.len()
        invariant
            i <= fields@.len(),
            routes@ == planned(fields@.take(i as int)),
        decreases fields.len() - i,
    {
        let field = &fields[i];
        proof {
            let upto = fields@.take(i + 1);
            assert(upto.drop_last() =~= fields@.take(i as int));
            assert(upto.last() == fields@[i as int]);
        }
        if !field.skip {
            let route = if is_keyed_state(&field.ty) {
                Route::Keyed
            } else {
                Route::Child
            };
            routes.push((i, route));
        }
        i = i + 1;
    }
    assert(fields@.take(fields@.len() as int) =~= fields@);
    routes
}

/// A field that is marked to be skipped is never offered an action. Every entry of
/// the plan stands for a field that is not skipped, fields come in their order,
/// and a field is reached by key exactly if its type is a keyed collection.
pub proof fn lemma_planned(fields: Seq<Field>)
    requires
        fields.len() <= usize::MAX,
    ensures
        planned(fields).len() <= fields.len(),
        forall|i: int|
            0 <= i < planned(fields).len() ==> {
                let (at, route) = #[trigger] planned(fields)[i];
                &&& at < fields.len()
                &&& !fields[at as int].skip
                &&& route == route_to(fields[at as int].ty)
            },
        forall|i: int, j: int|
            0 <= i < j < planned(fields).len() ==> (#[trigger] planned(fields)[i]).0 < (
            #[trigger] planned(fields)[j]).0,
        forall|at: int|
            0 <= at < fields.len() && !(#[trigger] fields[at]).skip ==> planned(fields).contains(
                (at as usize, route_to(fields[at].ty)),
            ),
    decreases fields.len(),
{
    if fields.len() > 0 {
        let front = fields.drop_last();
        let before = planned(front);
        let routes = planned(fields);
        lemma_planned(front);
        let last = fields.last();
        assert forall|i: int| 0 <= i < routes.len() implies {
            let (at, route) = #[trigger] routes[i];
            &&& at < fields.len()
            &&& !fields[at as int].skip
            &&& route == route_to(fields[at as int].ty)
        } by {
            if i < before.len() {
                assert(routes[i] == before[i]);
                assert(before[i].0 < front.len());
                assert(front[before[i].0 as int] == fields[before[i].0 as int]);
            } else {
                assert(!last.skip);
                assert(routes[i] == ((fields.len() - 1) as usize, route_to(last.ty)));
            }
        }
        assert forall|i: int, j: int| 0 <= i < j < routes.len() implies (#[trigger] routes[i]).0 < (
        #[trigger] routes[j]).0 by {
            assert(routes[i] == before[i]);
            assert(before[i].0 < front.len());
            if j < before.len() {
                assert(routes[j] == before[j]);
            } else {
                assert(routes[j] == ((fields.len() - 1) as usize, route_to(last.ty)));
            }
        }
        assert forall|at: int| 0 <= at < fields.len() && !(#[trigger] fields[at]).skip implies routes.contains(
            (at as usize, route_to(fields[at].ty)),
        ) by {
            if at < front.len() {
                assert(front[at] == fields[at]);
                let entry = (at as usize, route_to(fields[at].ty));
                assert(before.contains(entry));
                let i = choose|i: int| 0 <= i < before.len() && before[i] == entry;
                assert(routes[i] == entry);
            } else {
                assert(routes[routes.len() - 1] == (at as usize, route_to(fields[at].ty)));
            }
        }
    }
}

} // verus!
