//! The colors of the user interface, by what they are used for.
//!
//! A [`Theme`] names a color for each use. The functions of this module ask the
//! current theme for one of them.

use vstd::prelude::*;

use crate::dependencies::{Dependency, Scope};

verus! {

/// The colors of a theme, each as red, green, blue and alpha.
pub struct Palette {
    pub primary_content: [u8; 4],
    pub secondary_content: [u8; 4],
    pub tertiary_content: [u8; 4],
    pub quaternary_content: [u8; 4],
    pub primary_shapes: [u8; 4],
    pub secondary_shapes: [u8; 4],
    pub tertiary_shapes: [u8; 4],
    pub quaternary_shapes: [u8; 4],
    pub primary_background: [u8; 4],
    pub secondary_background: [u8; 4],
    pub tertiary_background: [u8; 4],
    pub quaternary_background: [u8; 4],
}

/// A set of colors for content, shapes and backgrounds, in four ranks each.
pub trait Theme {
    /// The theme's colors.
    open spec fn palette(&self) -> Palette {
        vstd::pervasive::arbitrary()
    }

    fn primary_content(&self) -> (rgba: [u8; 4])
        ensures
            rgba == self.palette().primary_content,
    ;

    fn secondary_content(&self) -> (rgba: [u8; 4])
        ensures
            rgba == self.palette().secondary_content,
    ;

    fn tertiary_content(&self) -> (rgba: [u8; 4])
        ensures
            rgba == self.palette().tertiary_content,
    ;

    fn quaternary_content(&self) -> (rgba: [u8; 4])
        ensures
            rgba == self.palette().quaternary_content,
    ;

    fn primary_shapes(&self) -> (rgba: [u8; 4])
        ensures
            rgba == self.palette().primary_shapes,
    ;

    fn secondary_shapes(&self) -> (rgba: [u8; 4])
        ensures
            rgba == self.palette().secondary_shapes,
    ;

    fn tertiary_shapes(&self) -> (rgba: [u8; 4])
        ensures
            rgba == self.palette().tertiary_shapes,
    ;

    fn quaternary_shapes(&self) -> (rgba: [u8; 4])
        ensures
            rgba == self.palette().quaternary_shapes,
    ;

    fn primary_background(&self) -> (rgba: [u8; 4])
        ensures
            rgba == self.palette().primary_background,
    ;

    fn secondary_background(&self) -> (rgba: [u8; 4])
        ensures
            rgba == self.palette().secondary_background,
    ;

    fn tertiary_background(&self) -> (rgba: [u8; 4])
        ensures
            rgba == self.palette().tertiary_background,
    ;

    fn quaternary_background(&self) -> (rgba: [u8; 4])
        ensures
            rgba == self.palette().quaternary_background,
    ;
}

/// The theme that is in use.
pub struct Current(pub Box<dyn Theme>);

impl Theme for Current {
    open spec fn palette(&self) -> Palette {
        self.0.palette()
    }

    fn primary_content(&self) -> (rgba: [u8; 4]) {
        self.0.primary_content()
    }

    fn secondary_content(&self) -> (rgba: [u8; 4]) {
        self.0.secondary_content()
    }

    fn tertiary_content(&self) -> (rgba: [u8; 4]) {
        self.0.tertiary_content()
    }

    fn quaternary_content(&self) -> (rgba: [u8; 4]) {
        self.0.quaternary_content()
    }

    fn primary_shapes(&self) -> (rgba: [u8; 4]) {
        self.0.primary_shapes()
    }

    fn secondary_shapes(&self) -> (rgba: [u8; 4]) {
        self.0.secondary_shapes()
    }

    fn tertiary_shapes(&self) -> (rgba: [u8; 4]) {
        self.0.tertiary_shapes()
    }

    fn quaternary_shapes(&self) -> (rgba: [u8; 4]) {
        self.0.quaternary_shapes()
    }

    fn primary_background(&self) -> (rgba: [u8; 4]) {
        self.0.primary_background()
    }

    fn secondary_background(&self) -> (rgba: [u8; 4]) {
        self.0.secondary_background()
    }

    fn tertiary_background(&self) -> (rgba: [u8; 4]) {
        self.0.tertiary_background()
    }

    fn quaternary_background(&self) -> (rgba: [u8; 4]) {
        self.0.quaternary_background()
    }
}

/// The palette of the theme that is in scope, if one is.
pub open spec fn palette_in(themes: &Scope<Current>) -> Option<Palette> {
    if themes@.len() == 0 {
        None
    } else {
        Some(themes@.last().palette())
    }
}

/// The theme that is in scope, if one is.
pub fn current(themes: &Scope<Current>) -> (theme: Dependency<'_, Current>)
    ensures
        theme.value().is_some() == (themes@.len() > 0),
        theme.value() matches Some(current) ==> current == themes@.last(),
{
    Dependency::new(themes)
}

/// The primary color for content, of the theme that is in scope.
pub fn primary_content(themes: &Scope<Current>) -> (rgba: Option<[u8; 4]>)
    ensures
        rgba == (match palette_in(themes) {
            Some(palette) => Some(palette.primary_content),
            None => None,
        }),
{
    match current(themes).get() {
        Some(theme) => Some(theme.primary_content()),
        None => None,
    }
}

/// The secondary color for content, of the theme that is in scope.
pub fn secondary_content(themes: &Scope<Current>) -> (rgba: Option<[u8; 4]>)
    ensures
        rgba == (match palette_in(themes) {
            Some(palette) => Some(palette.secondary_content),
            None => None,
        }),
{
    match current(themes).get() {
        Some(theme) => Some(theme.secondary_content()),
        None => None,
    }
}

/// The tertiary color for content, of the theme that is in scope.
pub fn tertiary_content(themes: &Scope<Current>) -> (rgba: Option<[u8; 4]>)
    ensures
        rgba == (match palette_in(themes) {
            Some(palette) => Some(palette.tertiary_content),
            None => None,
        }),
{
    match current(themes).get() {
        Some(theme) => Some(theme.tertiary_content()),
        None => None,
    }
}

/// The quaternary color for content, of the theme that is in scope.
pub fn quaternary_content(themes: &Scope<Current>) -> (rgba: Option<[u8; 4]>)
    ensures
        rgba == (match palette_in(themes) {
            Some(palette) => Some(palette.quaternary_content),
            None => None,
        }),
{
    match current(themes).get() {
        Some(theme) => Some(theme.quaternary_content()),
        None => None,
    }
}

/// The primary color for shapes, of the theme that is in scope.
pub fn primary_shapes(themes: &Scope<Current>) -> (rgba: Option<[u8; 4]>)
    ensures
        rgba == (match palette_in(themes) {
            Some(palette) => Some(palette.primary_shapes),
            None => None,
        }),
{
    match current(themes).get() {
        Some(theme) => Some(theme.primary_shapes()),
        None => None,
    }
}

/// The secondary color for shapes, of the theme that is in scope.
pub fn secondary_shapes(themes: &Scope<Current>) -> (rgba: Option<[u8; 4]>)
    ensures
        rgba == (match palette_in(themes) {
            Some(palette) => Some(palette.secondary_shapes),
            None => None,
        }),
{
    match current(themes).get() {
        Some(theme) => Some(theme.secondary_shapes()),
        None => None,
    }
}

/// The tertiary color for shapes, of the theme that is in scope.
pub fn tertiary_shapes(themes: &Scope<Current>) -> (rgba: Option<[u8; 4]>)
    ensures
        rgba == (match palette_in(themes) {
            Some(palette) => Some(palette.tertiary_shapes),
            None => None,
        }),
{
    match current(themes).get() {
        Some(theme) => Some(theme.tertiary_shapes()),
        None => None,
    }
}

/// The quaternary color for shapes, of the theme that is in scope.
pub fn quaternary_shapes(themes: &Scope<Current>) -> (rgba: Option<[u8; 4]>)
    ensures
        rgba == (match palette_in(themes) {
            Some(palette) => Some(palette.quaternary_shapes),
            None => None,
        }),
{
    match current(themes).get() {
        Some(theme) => Some(theme.quaternary_shapes()),
        None => None,
    }
}

/// The primary color for backgrounds, of the theme that is in scope.
pub fn primary_background(themes: &Scope<Current>) -> (rgba: Option<[u8; 4]>)
    ensures
        rgba == (match palette_in(themes) {
            Some(palette) => Some(palette.primary_background),
            None => None,
        }),
{
    match current(themes).get() {
        Some(theme) => Some(theme.primary_background()),
        None => None,
    }
}

/// The secondary color for backgrounds, of the theme that is in scope.
pub fn secondary_background(themes: &Scope<Current>) -> (rgba: Option<[u8; 4]>)
    ensures
        rgba == (match palette_in(themes) {
            Some(palette) => Some(palette.secondary_background),
            None => None,
        }),
{
    match current(themes).get() {
        Some(theme) => Some(theme.secondary_background()),
        None => None,
    }
}

/// The tertiary color for backgrounds, of the theme that is in scope.
pub fn tertiary_background(themes: &Scope<Current>) -> (rgba: Option<[u8; 4]>)
    ensures
        rgba == (match palette_in(themes) {
            Some(palette) => Some(palette.tertiary_background),
            None => None,
        }),
{
    match current(themes).get() {
        Some(theme) => Some(theme.tertiary_background()),
        None => None,
    }
}

/// The quaternary color for backgrounds, of the theme that is in scope.
pub fn quaternary_background(themes: &Scope<Current>) -> (rgba: Option<[u8; 4]>)
    ensures
        rgba == (match palette_in(themes) {
            Some(palette) => Some(palette.quaternary_background),
            None => None,
        }),
{
    match current(themes).get() {
        Some(theme) => Some(theme.quaternary_background()),
        None => None,
    }
}

} // verus!
