use crate::builder::{field_of, field_query, GenError, MapBuilder};
use crate::map::{
    count_floor, idx_spec, in_bounds_spec, lemma_idx_point, map_idx, on_border, point_spec,
    GridMap, Point,
    TileType, NUM_TILES, SCREEN_HEIGHT, SCREEN_WIDTH,
};
use crate::rng::range_i32;
use bracket_random::prelude::RandomNumberGenerator;
use vstd::prelude::*;

verus! {

/// Most steps a single walk takes.
pub const STAGGER_DISTANCE: usize = 400;

/// The walks stop once this many tiles are floor (a third of the grid).
pub const DESIRED_FLOOR: usize = NUM_TILES / 3;

/// After each walk, tiles farther than this from the center become walls.
pub const PRUNE_DISTANCE: u32 = 2000;

/// Most walks from random points before the generator gives up.
pub const MAX_WALKS: usize = 10000;

/// A field entry that pruning turns into wall: unreachable or too far.
pub open spec fn too_far(o: Option<u32>) -> bool {
    o is None || o.unwrap() > PRUNE_DISTANCE
}

/// The grid's center tile, where the player starts.
pub open spec fn center_spec() -> Point {
    Point { x: 40, y: 25 }
}

/// The point lies on the grid and off its border.
pub open spec fn interior(p: Point) -> bool {
    in_bounds_spec(p) && !on_border(p)
}

/// The points are orthogonal neighbours.
pub open spec fn neighbours(a: Point, b: Point) -> bool {
    (a.x == b.x && (a.y == b.y + 1 || b.y == a.y + 1)) || (a.y == b.y && (a.x == b.x + 1 || b.x
        == a.x + 1))
}

/// `marked` (tile indices in the order they were marked) is a possible
/// outcome of one walk from `start`: empty when the start is not interior;
/// else it begins at the start, each mark is an interior tile next to the
/// one before, and the walk stops only after `STAGGER_DISTANCE + 1` marks or
/// on stepping from its last mark to a tile that is not interior.
pub open spec fn walk_of(start: Point, marked: Seq<int>) -> bool {
    &&& !interior(start) ==> marked.len() == 0
    &&& interior(start) ==> marked.len() >= 1 && marked[0] == idx_spec(start)
    &&& marked.len() <= STAGGER_DISTANCE + 1
    &&& forall|k: int| 0 <= k < marked.len() ==> 0 <= #[trigger] marked[k] < NUM_TILES
    &&& forall|k: int| 0 <= k < marked.len() ==> interior(point_spec(#[trigger] marked[k]))
    &&& forall|k: int|
        0 <= k < marked.len() - 1 ==> neighbours(
            point_spec(#[trigger] marked[k]),
            point_spec(marked[k + 1]),
        )
    &&& marked.len() == 0 || marked.len() == STAGGER_DISTANCE + 1 || exists|next: Point|
        neighbours(point_spec(marked[marked.len() - 1]), next) && !interior(next)
}

/// `tiles` is `m` after pruning by `d`, a field that `f` returned for `m`
/// from the center: every floor tile of `tiles` lies within
/// `PRUNE_DISTANCE` steps of the center in that field.
pub open spec fn pruned_from<F: Fn(&GridMap, usize) -> Vec<Option<u32>>>(
    f: &F,
    tiles: Seq<TileType>,
    m: GridMap,
    d: Seq<Option<u32>>,
) -> bool {
    &&& field_of(f, &m, idx_spec(center_spec()), d)
    &&& d.len() == NUM_TILES
    &&& tiles.len() == NUM_TILES
    &&& forall|i: int|
        0 <= i < NUM_TILES ==> #[trigger] tiles[i] == if too_far(d[i]) {
            TileType::Wall
        } else {
            m.tiles@[i]
        }
}

/// Carves caves by random walks from the center.
pub struct DrunkardWalkArchitect {}

impl DrunkardWalkArchitect {
    /// One random walk from `start`: marks the current tile floor, steps to a
    /// random orthogonal neighbour, and stops on leaving the interior of the
    /// grid or after `STAGGER_DISTANCE` steps.
    #[verifier::rlimit(50)]
    pub fn drunkard(&mut self, start: &Point, rng: &mut RandomNumberGenerator, map: &mut GridMap)
        requires
            old(map).wf(),
        ensures
            final(map).wf(),
            exists|marked: Seq<int>|
                #[trigger] walk_of(*start, marked) && forall|i: int|
                    0 <= i < NUM_TILES ==> #[trigger] final(map).tiles@[i] == if marked.contains(
                        i,
                    ) {
                        TileType::Floor
                    } else {
                        old(map).tiles@[i]
                    },
            !interior(*start) ==> final(map).tiles@ == old(map).tiles@,
            forall|i: int|
                0 <= i < NUM_TILES && on_border(point_spec(i)) ==> #[trigger] final(map).tiles@[i]
                    == old(map).tiles@[i],
            interior(*start) ==> final(map).tile_at(*start) == TileType::Floor,
    {
        let mut pos = *start;
        let mut staggered: usize = 0;
        let ghost orig = map.tiles@;
        let ghost mut marked: Seq<int> = Seq::empty();
        while staggered <= STAGGER_DISTANCE && map.in_bounds(pos) && !(pos.x == 0 || pos.x
            == SCREEN_WIDTH - 1 || pos.y == 0 || pos.y == SCREEN_HEIGHT - 1)
            invariant
                map.wf(),
                staggered <= STAGGER_DISTANCE + 1,
                marked.len() == staggered,
                forall|i: int|
                    0 <= i < NUM_TILES ==> #[trigger] map.tiles@[i] == if marked.contains(i) {
                        TileType::Floor
                    } else {
                        orig[i]
                    },
                orig == old(map).tiles@,
                orig.len() == NUM_TILES,
                forall|k: int| 0 <= k < marked.len() ==> 0 <= #[trigger] marked[k] < NUM_TILES,
                forall|k: int| 0 <= k < marked.len() ==> interior(point_spec(#[trigger] marked[k])),
                forall|k: int|
                    0 <= k < marked.len() - 1 ==> neighbours(
                        point_spec(#[trigger] marked[k]),
                        point_spec(marked[k + 1]),
                    ),
                staggered == 0 ==> pos == *start,
                staggered > 0 ==> interior(*start),
                staggered > 0 ==> marked[0] == idx_spec(*start) && neighbours(
                    point_spec(marked[marked.len() - 1]),
                    pos,
                ),
            decreases STAGGER_DISTANCE + 1 - staggered,
        {
            let idx = map_idx(pos.x, pos.y);
            proof {
                lemma_idx_point(pos);
            }
            let ghost before = map.tiles@;
            map.tiles.set(idx, TileType::Floor);
            let ghost prev = marked;
            proof {
                marked = marked.push(idx as int);
                assert(marked[marked.len() - 1] == idx as int);
                assert forall|i: int| 0 <= i < NUM_TILES implies #[trigger] map.tiles@[i]
                    == if marked.contains(i) {
                    TileType::Floor
                } else {
                    orig[i]
                } by {
                    if i != idx {
                        assert(map.tiles@[i] == before[i]);
                        if marked.contains(i) {
                            let k = choose|k: int| 0 <= k < marked.len() && marked[k] == i;
                            assert(prev[k] == i);
                        }
                        if prev.contains(i) {
                            let k = choose|k: int| 0 <= k < prev.len() && prev[k] == i;
                            assert(marked[k] == i);
                        }
                    }
                }
                assert forall|k: int| 0 <= k < marked.len() - 1 implies neighbours(
                    point_spec(#[trigger] marked[k]),
                    point_spec(marked[k + 1]),
                ) by {
                    if k < prev.len() - 1 {
                        assert(prev[k] == marked[k] && prev[k + 1] == marked[k + 1]);
                    }
                }
                if prev.len() == 0 {
                    lemma_idx_point(*start);
                }
            }
            match range_i32(rng, 0, 4) {
                0 => pos.x = pos.x - 1,
                1 => pos.x = pos.x + 1,
                2 => pos.y = pos.y - 1,
                _ => pos.y = pos.y + 1,
            }
            staggered = staggered + 1;
        }
        proof {
            assert forall|i: int|
                0 <= i < NUM_TILES && on_border(point_spec(i)) implies #[trigger] map.tiles@[i]
                == old(map).tiles@[i] by {
                if marked.contains(i) {
                    let k = choose|k: int| 0 <= k < marked.len() && marked[k] == i;
                }
            }
            if interior(*start) {
                lemma_idx_point(*start);
                assert(marked[0] == idx_spec(*start));
            } else {
                assert(map.tiles@ =~= orig);
            }
            if 0 < marked.len() <= STAGGER_DISTANCE {
                assert(neighbours(point_spec(marked[marked.len() - 1]), pos) && !interior(pos));
            }
            assert(walk_of(*start, marked));
        }
    }

    /// Turns into wall every tile that the field marks unreachable or
    /// farther than `PRUNE_DISTANCE`.
    fn prune(&self, d: &Vec<Option<u32>>, map: &mut GridMap)
        requires
            old(map).wf(),
            d@.len() == NUM_TILES,
        ensures
            final(map).wf(),
            forall|i: int|
                0 <= i < NUM_TILES ==> #[trigger] final(map).tiles@[i] == if too_far(d@[i]) {
                    TileType::Wall
                } else {
                    old(map).tiles@[i]
                },
    {
        let mut i: usize = 0;
        while i < NUM_TILES
            invariant
                map.wf(),
                d@.len() == NUM_TILES,
                i <= NUM_TILES,
                forall|j: int|
                    0 <= j < NUM_TILES ==> #[trigger] map.tiles@[j] == if j < i && too_far(d@[j]) {
                        TileType::Wall
                    } else {
                        old(map).tiles@[j]
                    },
            decreases NUM_TILES - i,
        {
            let far = match d[i] {
                Some(v) => v > PRUNE_DISTANCE,
                None => true,
            };
            if far {
                map.tiles.set(i, TileType::Wall);
            }
            i = i + 1;
        }
    }

    /// Builds a cave level: walls everywhere, one walk from the center (the
    /// player start), then walks from random interior points, each followed
    /// by pruning what the center cannot reach, until a third of the grid is
    /// floor. The exit is the farthest reachable tile and monsters spawn on
    /// reachable tiles away from the player.
    pub fn new<F: Fn(&GridMap, usize) -> Vec<Option<u32>>>(
        &mut self,
        rng: &mut RandomNumberGenerator,
        distances: &F,
    ) -> (r: Result<MapBuilder, GenError>)
        requires
            field_query(distances),
        ensures
            r matches Ok(mb) ==> {
                &&& mb.placed()
                &&& mb.exit_is_farthest(distances)
                &&& mb.spawns_distant(distances)
                &&& mb.player_start == center_spec()
                &&& mb.rooms@.len() == 0
                &&& count_floor(mb.map.tiles@) >= DESIRED_FLOOR
                &&& exists|m: GridMap, d: Seq<Option<u32>>|
                    #[trigger] pruned_from(distances, mb.map.tiles@, m, d)
            },
    {
        let mut mb = MapBuilder::blank();
        mb.fill(TileType::Wall);
        let center = Point::new(SCREEN_WIDTH / 2, SCREEN_HEIGHT / 2);
        self.drunkard(&center, rng, &mut mb.map);
        let mut walks: usize = 0;
        // One walk marks at most `STAGGER_DISTANCE + 1` tiles, far fewer than
        // `DESIRED_FLOOR`, so at least one more walk is always needed.
        let ghost mut last_map: GridMap = mb.map;
        let ghost mut last_field: Seq<Option<u32>> = Seq::empty();
        let mut done = false;
        while !done
            invariant
                mb.map.wf(),
                mb.rooms@.len() == 0,
                walks <= MAX_WALKS,
                field_query(distances),
                center == center_spec(),
                done ==> count_floor(mb.map.tiles@) >= DESIRED_FLOOR,
                done ==> pruned_from(distances, mb.map.tiles@, last_map, last_field),
            decreases MAX_WALKS - walks,
        {
            if walks == MAX_WALKS {
                return Err(GenError::Exhausted);
            }
            walks = walks + 1;
            let x = range_i32(rng, 1, SCREEN_WIDTH - 1);
            let y = range_i32(rng, 1, SCREEN_HEIGHT - 1);
            self.drunkard(&Point::new(x, y), rng, &mut mb.map);
            let d = distances(&mb.map, map_idx(center.x, center.y));
            if d.len() != NUM_TILES {
                return Err(GenError::Unreachable);
            }
            let ghost walked = mb.map;
            self.prune(&d, &mut mb.map);
            proof {
                last_map = walked;
                last_field = d@;
                assert(field_of(distances, &last_map, idx_spec(center_spec()), last_field));
            }
            done = mb.map.floor_count() >= DESIRED_FLOOR;
        }
        mb.player_start = center;
        mb.place_exit(distances)?;
        mb.place_spawns(rng, distances);
        Ok(mb)
    }
}

} // verus!
