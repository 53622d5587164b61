use bracket_pathfinding::prelude::{
    Algorithm2D, BaseMap, DijkstraMap, Point as GridPoint, SmallVec,
};
use bracket_random::prelude::RandomNumberGenerator;
use dungeon_gen::automata::CellularAutomataArchitect;
use dungeon_gen::builder::{GenError, MapBuilder};
use dungeon_gen::distance::{farthest_index, pick_spawns, spawnable_tiles};
use dungeon_gen::drunkard::{DrunkardWalkArchitect, DESIRED_FLOOR};
use dungeon_gen::map::{
    map_idx, GridMap, Point, TileType, NUM_TILES, SCREEN_HEIGHT, SCREEN_WIDTH,
};
use dungeon_gen::rect::Rect;
use dungeon_gen::rooms::{RoomsArchitect, NUM_ROOMS};

struct Walkable<'a>(&'a GridMap);

impl BaseMap for Walkable<'_> {
    fn is_opaque(&self, idx: usize) -> bool {
        self.0.tiles[idx] != TileType::Floor
    }

    fn get_available_exits(&self, idx: usize) -> SmallVec<[(usize, f32); 10]> {
        let mut exits = SmallVec::new();
        let p = self.0.index_to_point2d(idx);
        for dy in -1..=1 {
            for dx in -1..=1 {
                let q = Point::new(p.x + dx, p.y + dy);
                if (dx != 0 || dy != 0) && self.0.can_enter_tile(q) {
                    exits.push((self.0.point2d_to_index(q), 1.0));
                }
            }
        }
        exits
    }
}

impl Algorithm2D for Walkable<'_> {
    fn dimensions(&self) -> GridPoint {
        GridPoint::new(SCREEN_WIDTH, SCREEN_HEIGHT)
    }
}

fn dijkstra(map: &GridMap, source: usize) -> DijkstraMap {
    DijkstraMap::new(SCREEN_WIDTH, SCREEN_HEIGHT, &[source], &Walkable(map), 1024.0)
}

fn distances(map: &GridMap, source: usize) -> Vec<Option<u32>> {
    dijkstra(map, source)
        .map
        .iter()
        .map(|d| if *d == f32::MAX { None } else { Some(*d as u32) })
        .collect()
}

fn check_map_properties(mb: &MapBuilder) {
    // Check that both player start and amulet/exit points are floors.
    let player_start_idx = mb.map.point2d_to_index(mb.player_start);
    assert_eq!(mb.map.tiles[player_start_idx], TileType::Floor);
    let exit_idx = mb.map.point2d_to_index(mb.amulet_start);
    assert_eq!(mb.map.tiles[exit_idx], TileType::Floor);

    // Check that there is a path from player to exit.
    let dmap = dijkstra(&mb.map, player_start_idx);
    assert_ne!(dmap.map[exit_idx], f32::MAX);
}

fn floor_count(map: &GridMap) -> usize {
    map.tiles.iter().filter(|t| **t == TileType::Floor).count()
}

fn check_spawns(mb: &MapBuilder) {
    let dmap = dijkstra(&mb.map, mb.map.point2d_to_index(mb.player_start));
    assert!(mb.monster_spawns.len() <= 50);
    for s in mb.monster_spawns.iter() {
        let idx = mb.map.point2d_to_index(*s);
        assert_eq!(mb.map.tiles[idx], TileType::Floor);
        assert!(dmap.map[idx] >= 10.0);
        assert!(dmap.map[idx] < f32::MAX);
    }
}

#[test]
fn automata_map_properties() {
    let mut rng = RandomNumberGenerator::new();

    let mut architect = CellularAutomataArchitect {};
    let mb = architect.new(&mut rng, &distances).unwrap();
    check_map_properties(&mb);
}

#[test]
fn drunkard_map_properties() {
    let mut rng = RandomNumberGenerator::new();

    let mut architect = DrunkardWalkArchitect {};
    let mb = architect.new(&mut rng, &distances).unwrap();
    check_map_properties(&mb);
}

#[test]
fn rooms_map_properties() {
    let mut rng = RandomNumberGenerator::seeded(7);
    let mut architect = RoomsArchitect {};
    let mb = architect.new(&mut rng, &distances).unwrap();
    check_map_properties(&mb);
}

#[test]
fn generated_spawns_are_reachable_and_distant() {
    for seed in 0..4u64 {
        let mut rng = RandomNumberGenerator::seeded(seed);
        let mb = CellularAutomataArchitect {}.new(&mut rng, &distances).unwrap();
        check_spawns(&mb);
        let mb = DrunkardWalkArchitect {}.new(&mut rng, &distances).unwrap();
        check_spawns(&mb);
    }
}

#[test]
fn automata_borders_are_walls() {
    let mut rng = RandomNumberGenerator::seeded(11);
    let mut architect = CellularAutomataArchitect {};
    let mut map = GridMap::new();
    architect.random_noise_map(&mut rng, &mut map);
    for pass in 0..=10 {
        if pass > 0 {
            architect.iteration(&mut map);
        }
        for x in 0..SCREEN_WIDTH {
            assert_eq!(map.tiles[map.point2d_to_index(Point::new(x, 0))], TileType::Wall);
            let bottom = Point::new(x, SCREEN_HEIGHT - 1);
            assert_eq!(map.tiles[map.point2d_to_index(bottom)], TileType::Wall);
        }
        for y in 0..SCREEN_HEIGHT {
            assert_eq!(map.tiles[map.point2d_to_index(Point::new(0, y))], TileType::Wall);
            let right = Point::new(SCREEN_WIDTH - 1, y);
            assert_eq!(map.tiles[map.point2d_to_index(right)], TileType::Wall);
        }
    }
}

#[test]
fn smoothing_counts_wall_neighbours() {
    let architect = CellularAutomataArchitect {};
    let mut map = GridMap::new();
    assert_eq!(architect.count_neighbors(5, 5, &map), 0);
    map.tiles[map_idx(4, 4)] = TileType::Wall;
    map.tiles[map_idx(6, 5)] = TileType::Wall;
    map.tiles[map_idx(5, 5)] = TileType::Wall;
    assert_eq!(architect.count_neighbors(5, 5, &map), 2);
    map.fill(TileType::Wall);
    assert_eq!(architect.count_neighbors(5, 5, &map), 8);
}

#[test]
fn smoothing_rule_on_a_single_wall() {
    let mut architect = CellularAutomataArchitect {};
    let mut map = GridMap::new();
    map.tiles[map_idx(10, 10)] = TileType::Wall;
    architect.iteration(&mut map);
    // An isolated cell (no wall neighbours) becomes wall; cells next to the
    // single wall become floor; the wall itself has none around it.
    assert_eq!(map.tiles[map.point2d_to_index(Point::new(30, 30))], TileType::Wall);
    assert_eq!(map.tiles[map.point2d_to_index(Point::new(11, 10))], TileType::Floor);
    assert_eq!(map.tiles[map.point2d_to_index(Point::new(10, 10))], TileType::Wall);
    // Border cells keep their value.
    assert_eq!(map.tiles[map.point2d_to_index(Point::new(0, 0))], TileType::Floor);
}

#[test]
fn start_is_the_floor_closest_to_center() {
    let architect = CellularAutomataArchitect {};
    let mut map = GridMap::new();
    map.fill(TileType::Wall);
    assert_eq!(architect.find_start(&map), None);
    map.tiles[map_idx(10, 10)] = TileType::Floor;
    map.tiles[map_idx(42, 25)] = TileType::Floor;
    map.tiles[map_idx(38, 25)] = TileType::Floor;
    assert_eq!(architect.find_start(&map), Some(Point::new(38, 25)));
}

#[test]
fn drunkard_floor_fraction() {
    let mut rng = RandomNumberGenerator::seeded(3);
    let mb = DrunkardWalkArchitect {}.new(&mut rng, &distances).unwrap();
    let floors = floor_count(&mb.map);
    assert!(floors >= NUM_TILES / 3 && floors >= DESIRED_FLOOR);
    assert!(floors <= NUM_TILES);
    let center = Point::new(SCREEN_WIDTH / 2, SCREEN_HEIGHT / 2);
    assert_eq!(mb.player_start, center);
    let dmap = dijkstra(&mb.map, mb.map.point2d_to_index(center));
    assert_ne!(dmap.map[mb.map.point2d_to_index(mb.amulet_start)], f32::MAX);
}

#[test]
fn single_walk_marks_at_most_401_tiles() {
    for seed in 0..5u64 {
        let mut rng = RandomNumberGenerator::seeded(seed);
        let mut map = GridMap::new();
        map.fill(TileType::Wall);
        let mut architect = DrunkardWalkArchitect {};
        architect.drunkard(&Point::new(40, 25), &mut rng, &mut map);
        let floors = floor_count(&map);
        assert!(floors >= 1 && floors <= 401);
        assert_eq!(map.tiles[map.point2d_to_index(Point::new(40, 25))], TileType::Floor);
    }
}

#[test]
fn walk_from_the_border_marks_nothing() {
    let mut rng = RandomNumberGenerator::seeded(1);
    let mut map = GridMap::new();
    map.fill(TileType::Wall);
    DrunkardWalkArchitect {}.drunkard(&Point::new(0, 10), &mut rng, &mut map);
    DrunkardWalkArchitect {}.drunkard(&Point::new(-5, 10), &mut rng, &mut map);
    assert_eq!(floor_count(&map), 0);
}

fn sorted_by_center(rooms: &[Rect]) -> Vec<Rect> {
    let mut sorted = rooms.to_vec();
    sorted.sort_by(|a, b| a.center().x.cmp(&b.center().x));
    sorted
}

#[test]
fn rooms_scenario() {
    let mut rng = RandomNumberGenerator::seeded(2024);
    let mb = RoomsArchitect {}.new(&mut rng, &distances).unwrap();
    assert_eq!(mb.rooms.len(), 20);
    assert_eq!(mb.rooms.len(), NUM_ROOMS);
    for (i, a) in mb.rooms.iter().enumerate() {
        for (j, b) in mb.rooms.iter().enumerate() {
            if i != j {
                assert!(!a.intersect(b));
            }
        }
    }
    let sorted = sorted_by_center(&mb.rooms);
    assert_eq!(mb.player_start, sorted[0].center());
    let centers: Vec<Point> = sorted.iter().skip(1).map(|r| r.center()).collect();
    assert_eq!(mb.monster_spawns, centers);
}

#[test]
fn rooms_are_joined_by_corridors() {
    let mut rng = RandomNumberGenerator::seeded(99);
    let mb = RoomsArchitect {}.new(&mut rng, &distances).unwrap();
    let start = mb.map.point2d_to_index(mb.player_start);
    let dmap = dijkstra(&mb.map, start);
    for room in mb.rooms.iter() {
        let c = mb.map.point2d_to_index(room.center());
        assert_eq!(mb.map.tiles[c], TileType::Floor);
        assert!(dmap.map[c] < f32::MAX);
    }
}

#[test]
fn rect_geometry() {
    let r = Rect::with_size(1, 2, 4, 3);
    assert_eq!((r.x1, r.y1, r.x2, r.y2), (1, 2, 5, 5));
    assert_eq!(r.center(), Point::new(3, 3));
    assert!(r.intersect(&Rect::with_size(5, 5, 2, 2)));
    assert!(!r.intersect(&Rect::with_size(6, 2, 2, 2)));
}

#[test]
fn generation_is_deterministic() {
    let mut a = RandomNumberGenerator::seeded(42);
    let mut b = RandomNumberGenerator::seeded(42);
    for _ in 0..3 {
        let x = MapBuilder::new(&mut a, &distances).unwrap();
        let y = MapBuilder::new(&mut b, &distances).unwrap();
        assert_eq!(x.map.tiles, y.map.tiles);
        assert_eq!(x.player_start, y.player_start);
        assert_eq!(x.amulet_start, y.amulet_start);
        assert_eq!(x.monster_spawns, y.monster_spawns);
        assert_eq!(x.rooms, y.rooms);
        assert_eq!(x.theme, y.theme);
    }
}

#[test]
fn most_distant_is_idempotent() {
    let mut rng = RandomNumberGenerator::seeded(5);
    let mb = MapBuilder::new(&mut rng, &distances).unwrap();
    let first = mb.find_most_distance(&distances);
    assert_eq!(first, Some(mb.amulet_start));
    assert_eq!(mb.find_most_distance(&distances), first);
}

#[test]
fn builder_levels_hold_their_invariants() {
    for seed in 0..6u64 {
        let mut rng = RandomNumberGenerator::seeded(seed);
        let mb = MapBuilder::new(&mut rng, &distances).unwrap();
        check_map_properties(&mb);
        if mb.rooms.is_empty() {
            check_spawns(&mb);
        } else {
            assert_eq!(mb.rooms.len(), NUM_ROOMS);
        }
    }
}

#[test]
fn unreachable_field_is_reported() {
    let mut rng = RandomNumberGenerator::seeded(8);
    let nothing = |_: &GridMap, _: usize| vec![None; NUM_TILES];
    let r = CellularAutomataArchitect {}.new(&mut rng, &nothing);
    assert_eq!(r.err(), Some(GenError::Unreachable));
    let short = |_: &GridMap, _: usize| Vec::new();
    let r = RoomsArchitect {}.new(&mut rng, &short);
    assert_eq!(r.err(), Some(GenError::Unreachable));
    let r = MapBuilder::new(&mut rng, &nothing);
    assert!(r.is_err());
}

#[test]
fn noise_mixes_floor_and_wall() {
    let mut rng = RandomNumberGenerator::seeded(21);
    let mut map = GridMap::new();
    CellularAutomataArchitect {}.random_noise_map(&mut rng, &mut map);
    let floors = floor_count(&map);
    assert!(floors > 0);
    assert!(floors < NUM_TILES - 2 * (80 + 48));
}

#[test]
fn spawn_draws_are_distinct_members_of_the_pool() {
    let mut rng = RandomNumberGenerator::seeded(13);
    let pool: Vec<Point> = (0..60).map(|i| Point::new(i % 80, i / 80 + 1)).collect();
    let picked = pick_spawns(&mut rng, pool.clone());
    assert_eq!(picked.len(), 50);
    let distinct: std::collections::HashSet<Point> = picked.iter().cloned().collect();
    assert_eq!(distinct.len(), 50);
    assert!(picked.iter().all(|p| pool.contains(p)));
    assert_ne!(picked, pool[..50].to_vec());

    let small: Vec<Point> = (0..7).map(|i| Point::new(i, 3)).collect();
    let picked = pick_spawns(&mut rng, small.clone());
    let mut sorted = picked.clone();
    sorted.sort_by_key(|p| p.x);
    assert_eq!(sorted, small);
    assert!(pick_spawns(&mut rng, Vec::new()).is_empty());
}

#[test]
fn farthest_takes_the_last_of_equals() {
    assert_eq!(farthest_index(&vec![None, None]), None);
    assert_eq!(farthest_index(&vec![Some(0), Some(4), None, Some(4), Some(1)]), Some(3));
    assert_eq!(farthest_index(&vec![Some(9), Some(2)]), Some(0));
}

#[test]
fn spawnable_tiles_need_floor_and_distance() {
    let mut map = GridMap::new();
    map.tiles[map_idx(2, 0)] = TileType::Wall;
    let mut d = vec![None; NUM_TILES];
    d[map_idx(1, 0)] = Some(10);
    d[map_idx(2, 0)] = Some(12);
    d[map_idx(3, 0)] = Some(9);
    d[map_idx(5, 1)] = Some(1024);
    let tiles = spawnable_tiles(&map, &d);
    assert_eq!(tiles, vec![Point::new(1, 0), Point::new(5, 1)]);
}

#[test]
fn walks_give_up_when_everything_is_pruned() {
    let mut rng = RandomNumberGenerator::seeded(6);
    let nothing = |_: &GridMap, _: usize| vec![None; NUM_TILES];
    let r = DrunkardWalkArchitect {}.new(&mut rng, &nothing);
    assert_eq!(r.err(), Some(GenError::Exhausted));
}

#[test]
fn noise_tile_follows_the_roll() {
    let inside = Point::new(5, 5);
    assert_eq!(CellularAutomataArchitect::noise_tile(inside, 56), TileType::Floor);
    assert_eq!(CellularAutomataArchitect::noise_tile(inside, 55), TileType::Wall);
    assert_eq!(CellularAutomataArchitect::noise_tile(inside, 0), TileType::Wall);
    assert_eq!(CellularAutomataArchitect::noise_tile(Point::new(0, 5), 99), TileType::Wall);
    assert_eq!(CellularAutomataArchitect::noise_tile(Point::new(5, 49), 99), TileType::Wall);
}
