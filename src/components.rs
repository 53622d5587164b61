use crate::map::Point;
use vstd::prelude::*;

verus! {

/// An RGB color.
#[derive(Clone, Copy, Debug, PartialEq, Eq, Structural)]
pub struct Rgb {
    pub r: u8,
    pub g: u8,
    pub b: u8,
}

/// Foreground and background color of a glyph.
#[derive(Clone, Copy, Debug, PartialEq, Eq, Structural)]
pub struct ColorPair {
    pub fg: Rgb,
    pub bg: Rgb,
}

impl ColorPair {
    /// White on black.
    pub fn white_on_black() -> (r: ColorPair)
        ensures
            r.fg == (Rgb { r: 255, g: 255, b: 255 }),
            r.bg == (Rgb { r: 0, g: 0, b: 0 }),
    {
        ColorPair { fg: Rgb { r: 255, g: 255, b: 255 }, bg: Rgb { r: 0, g: 0, b: 0 } }
    }
}

/// How an entity is drawn: a code page 437 glyph in a color pair.
#[derive(Clone, Copy, Debug, PartialEq, Eq, Structural)]
pub struct Render {
    pub color: ColorPair,
    pub glyph: u16,
}

/// Marks the player and the dungeon level it is on.
#[derive(Clone, Copy, Debug, PartialEq, Eq, Structural)]
pub struct Player {
    pub map_level: u32,
}

/// Hit points.
#[derive(Clone, Copy, Debug, PartialEq, Eq, Structural)]
pub struct Health {
    pub current: i32,
    pub max: i32,
}

/// Damage dealt per hit.
#[derive(Clone, Copy, Debug, PartialEq, Eq, Structural)]
pub struct Damage(pub i32);

/// Marks an entity that can be picked up.
#[derive(Clone, Copy, Debug, PartialEq, Eq, Structural)]
pub struct Item {}

/// Marks the amulet that wins the game.
#[derive(Clone, Copy, Debug, PartialEq, Eq, Structural)]
pub struct AmuletOfYala {}

/// Display name of an entity.
#[derive(Clone, Debug)]
pub struct Name(pub String);

/// What an entity can see, and whether that must be recomputed.
#[derive(Clone, Debug)]
pub struct FieldOfView {
    pub visible_tiles: Vec<Point>,
    pub radius: i32,
    pub is_dirty: bool,
}

impl FieldOfView {
    /// A view of the given radius that has not been computed yet.
    pub fn new(radius: i32) -> (r: FieldOfView)
        ensures
            r.visible_tiles@.len() == 0,
            r.radius == radius,
            r.is_dirty,
    {
        FieldOfView { visible_tiles: Vec::new(), radius, is_dirty: true }
    }
}

} // verus!
