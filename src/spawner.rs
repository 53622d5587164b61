use crate::components::{
    AmuletOfYala, ColorPair, Damage, FieldOfView, Health, Item, Name, Player, Render, Rgb,
};
use crate::map::Point;
use vstd::prelude::*;

verus! {

/// Code page 437 glyph of the player (`'@'`).
pub const PLAYER_GLYPH: u16 = 64;

/// Code page 437 glyph of the amulet (`'|'`).
pub const AMULET_GLYPH: u16 = 124;

/// The components of a new player standing at `pos`: level 0, white `@` on
/// black, 10 of 10 hit points, a view of radius 8 still to compute, and 1
/// damage per hit.
pub fn spawn_player(pos: Point) -> (r: (Player, Point, Render, Health, FieldOfView, Damage))
    ensures
        r.0 == (Player { map_level: 0 }),
        r.1 == pos,
        r.2.glyph == PLAYER_GLYPH,
        r.2.color.fg == (Rgb { r: 255, g: 255, b: 255 }),
        r.2.color.bg == (Rgb { r: 0, g: 0, b: 0 }),
        r.3 == (Health { current: 10, max: 10 }),
        r.4.visible_tiles@.len() == 0,
        r.4.radius == 8,
        r.4.is_dirty,
        r.5 == Damage(1),
{
    (
        Player { map_level: 0 },
        pos,
        Render { color: ColorPair::white_on_black(), glyph: PLAYER_GLYPH },
        Health { current: 10, max: 10 },
        FieldOfView::new(8),
        Damage(1),
    )
}

/// The components of the amulet lying at `pos`: an item, drawn as a white
/// `|` on black, named "Amulet of Yala".
pub fn spawn_amulet_of_yala(pos: Point) -> (r: (Item, AmuletOfYala, Point, Render, Name))
    ensures
        r.2 == pos,
        r.3.glyph == AMULET_GLYPH,
        r.3.color.fg == (Rgb { r: 255, g: 255, b: 255 }),
        r.3.color.bg == (Rgb { r: 0, g: 0, b: 0 }),
        r.4.0@ == "Amulet of Yala"@,
{
    (
        Item {  },
        AmuletOfYala {  },
        pos,
        Render { color: ColorPair::white_on_black(), glyph: AMULET_GLYPH },
        Name("Amulet of Yala".to_owned()),
    )
}

} // verus!
