use bracket_pathfinding::prelude::{field_of_view_set, Algorithm2D, BaseMap, Point as GridPoint};
use dungeon_gen::components::FieldOfView;
use dungeon_gen::fov::fov;
use dungeon_gen::map::{GridMap, Point, TileType, SCREEN_HEIGHT, SCREEN_WIDTH};
use std::collections::HashSet;

struct Sight<'a>(&'a GridMap);

impl BaseMap for Sight<'_> {
    fn is_opaque(&self, idx: usize) -> bool {
        self.0.tiles[idx] == TileType::Wall
    }
}

impl Algorithm2D for Sight<'_> {
    fn dimensions(&self) -> GridPoint {
        GridPoint::new(SCREEN_WIDTH, SCREEN_HEIGHT)
    }
}

fn visible_on(map: &GridMap) -> impl Fn(Point, i32) -> Vec<Point> + '_ {
    move |p: Point, radius: i32| {
        field_of_view_set(GridPoint::new(p.x, p.y), radius, &Sight(map))
            .into_iter()
            .map(|q| Point::new(q.x, q.y))
            .collect()
    }
}

#[test]
fn clean_fov_is_not_updated() {
    let map = GridMap::new();
    let mut view = FieldOfView {
        visible_tiles: Vec::new(),
        radius: 1,
        is_dirty: false,
    };

    fov(Point::new(10, 10), &mut view, &visible_on(&map));
    assert_eq!(view.is_dirty, false);
    assert_eq!(view.visible_tiles.is_empty(), true);
}

#[test]
fn dirty_fov_is_updated() {
    let map = GridMap::new();
    let center = Point::new(10, 10);
    let mut expected_fov = HashSet::new();
    for dx in -1..=1 {
        for dy in -1..=1 {
            let p = Point::new(center.x + dx, center.y + dy);
            expected_fov.insert(p);
        }
    }

    let mut view = FieldOfView {
        visible_tiles: Vec::new(),
        radius: 1,
        is_dirty: true,
    };
    fov(center, &mut view, &visible_on(&map));
    assert_eq!(view.is_dirty, false);
    let got: HashSet<Point> = view.visible_tiles.iter().cloned().collect();
    assert_eq!(got, expected_fov);
}
