use crate::components::FieldOfView;
use crate::map::Point;
use vstd::prelude::*;

verus! {

/// Brings a view up to date: a dirty view gets the tiles that
/// `visible_from(pos, radius)` gives and is marked clean; a clean view is
/// left alone.
pub fn fov<F: Fn(Point, i32) -> Vec<Point>>(pos: Point, view: &mut FieldOfView, visible_from: &F)
    requires
        forall|p: Point, r: i32| #[trigger] visible_from.requires((p, r)),
    ensures
        !final(view).is_dirty,
        final(view).radius == old(view).radius,
        old(view).is_dirty ==> visible_from.ensures(
            (pos, old(view).radius),
            final(view).visible_tiles,
        ),
        !old(view).is_dirty ==> final(view).visible_tiles == old(view).visible_tiles,
{
    if view.is_dirty {
        view.visible_tiles = visible_from(pos, view.radius);
        view.is_dirty = false;
    }
}

} // verus!
