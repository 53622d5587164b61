use dungeon_gen::map::{map_idx, GridMap, Point, TileType};
use dungeon_gen::movement::{movement, MoveRequest};

fn step(from: (i32, i32), to: (i32, i32)) -> MoveRequest {
    MoveRequest {
        from: Point::new(from.0, from.1),
        destination: Point::new(to.0, to.1),
    }
}

#[test]
fn moves_into_free_floor() {
    let map = GridMap::new();
    let occupied = vec![Point::new(10, 10)];
    let r = movement(&occupied, &vec![step((10, 10), (11, 10))], &map);
    assert_eq!(r, vec![true]);
}

#[test]
fn walls_and_the_edge_block_moves() {
    let mut map = GridMap::new();
    map.tiles[map_idx(11, 10)] = TileType::Wall;
    let occupied = vec![Point::new(10, 10), Point::new(0, 0)];
    let moves = vec![step((10, 10), (11, 10)), step((0, 0), (-1, 0))];
    assert_eq!(movement(&occupied, &moves, &map), vec![false, false]);
}

#[test]
fn earlier_moves_decide_later_ones() {
    let map = GridMap::new();
    let occupied = vec![Point::new(5, 5), Point::new(7, 5)];
    let moves = vec![
        // Takes (6, 5), so the second mover is refused.
        step((5, 5), (6, 5)),
        step((7, 5), (6, 5)),
        // (5, 5) was freed by the first move.
        step((7, 5), (5, 5)),
        // (7, 5) is free again now.
        step((6, 5), (7, 5)),
    ];
    assert_eq!(movement(&occupied, &moves, &map), vec![true, false, true, true]);
}

#[test]
fn no_requests_no_answers() {
    let map = GridMap::new();
    assert!(movement(&vec![], &vec![], &map).is_empty());
}
