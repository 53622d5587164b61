use crate::builder::{field_query, GenError, MapBuilder};
use crate::map::{
    idx_of, idx_spec, in_bounds_spec, lemma_idx_point, lemma_point_idx, map_idx, on_border,
    point_spec, GridMap, Point, TileType, NUM_TILES, SCREEN_HEIGHT, SCREEN_WIDTH,
};
use crate::rng::range_i32;
use bracket_random::prelude::RandomNumberGenerator;
use vstd::prelude::*;

verus! {

/// A seeded interior cell becomes floor when its roll in `[0, 100)` is
/// above this.
pub const FLOOR_THRESHOLD: i32 = 55;

/// Smoothing passes run over the seeded grid.
pub const SMOOTHING_PASSES: usize = 10;

/// 1 when the tile at `(x, y)` is a wall, else 0.
pub open spec fn wall_count(t: Seq<TileType>, x: int, y: int) -> int {
    if t[idx_of(x, y)] == TileType::Wall {
        1
    } else {
        0
    }
}

/// Walls among the eight neighbours of `(x, y)`.
pub open spec fn wall_neighbors(t: Seq<TileType>, x: int, y: int) -> int {
    wall_count(t, x - 1, y - 1) + wall_count(t, x, y - 1) + wall_count(t, x + 1, y - 1)
        + wall_count(t, x - 1, y) + wall_count(t, x + 1, y) + wall_count(t, x - 1, y + 1)
        + wall_count(t, x, y + 1) + wall_count(t, x + 1, y + 1)
}

/// The smoothing rule: crowded or isolated cells become wall, the rest floor.
pub open spec fn smoothed(n: int) -> TileType {
    if n > 4 || n == 0 {
        TileType::Wall
    } else {
        TileType::Floor
    }
}

/// What a seeded tile at `p` becomes for `roll`.
pub open spec fn noise_spec(p: Point, roll: i32) -> TileType {
    if on_border(p) {
        TileType::Wall
    } else if roll > FLOOR_THRESHOLD {
        TileType::Floor
    } else {
        TileType::Wall
    }
}

/// Every border tile is a wall.
pub open spec fn borders_walled(t: Seq<TileType>) -> bool {
    forall|i: int| 0 <= i < NUM_TILES && on_border(point_spec(i)) ==> #[trigger] t[i] == TileType::Wall
}

/// Squared distance from a point to the grid's center.
pub open spec fn center_dist2(p: Point) -> int {
    (p.x - 40) * (p.x - 40) + (p.y - 25) * (p.y - 25)
}

/// Tile `i` is the floor tile closest to the center, the first in scan
/// order among equals.
pub open spec fn is_closest_floor(t: Seq<TileType>, i: int) -> bool {
    &&& 0 <= i < NUM_TILES
    &&& t[i] == TileType::Floor
    &&& forall|j: int|
        0 <= j < NUM_TILES && t[j] == TileType::Floor ==> center_dist2(point_spec(i))
            <= center_dist2(#[trigger] point_spec(j))
    &&& forall|j: int|
        0 <= j < i && t[j] == TileType::Floor ==> center_dist2(point_spec(i)) < center_dist2(
            #[trigger] point_spec(j),
        )
}

/// Smoothing never opens the border: after a pass over a grid whose border
/// is all wall, the border is still all wall.
pub proof fn lemma_smoothing_keeps_border_walls(before: Seq<TileType>, after: Seq<TileType>)
    requires
        borders_walled(before),
        forall|i: int|
            0 <= i < NUM_TILES ==> #[trigger] after[i] == if on_border(point_spec(i)) {
                before[i]
            } else {
                smoothed(wall_neighbors(before, point_spec(i).x as int, point_spec(i).y as int))
            },
    ensures
        borders_walled(after),
{
}

/// Grows caves by smoothing random noise.
pub struct CellularAutomataArchitect {}

impl CellularAutomataArchitect {
    /// The seeded value of the tile at `p` for the roll drawn for it: wall on
    /// the border, else floor exactly when the roll is above
    /// `FLOOR_THRESHOLD`.
    pub fn noise_tile(p: Point, roll: i32) -> (t: TileType)
        ensures
            t == noise_spec(p, roll),
    {
        if p.x == 0 || p.x == SCREEN_WIDTH - 1 || p.y == 0 || p.y == SCREEN_HEIGHT - 1 {
            TileType::Wall
        } else if roll > FLOOR_THRESHOLD {
            TileType::Floor
        } else {
            TileType::Wall
        }
    }

    /// Seeds the grid: border tiles become walls, and every interior tile,
    /// in scan order, draws a roll in `[0, 100)` and becomes `noise_tile` of
    /// it. Nothing of the old grid remains.
    pub fn random_noise_map(&mut self, rng: &mut RandomNumberGenerator, map: &mut GridMap)
        requires
            old(map).wf(),
        ensures
            final(map).wf(),
            borders_walled(final(map).tiles@),
            exists|rolls: Seq<i32>|
                #[trigger] rolls.len() == NUM_TILES && forall|i: int|
                    0 <= i < NUM_TILES ==> 0 <= #[trigger] rolls[i] < 100 && final(map).tiles@[i]
                        == noise_spec(point_spec(i), rolls[i]),
    {
        let ghost mut rolls: Seq<i32> = Seq::new(NUM_TILES as nat, |_i: int| 0i32);
        let mut i: usize = 0;
        while i < NUM_TILES
            invariant
                map.wf(),
                i <= NUM_TILES,
                rolls.len() == NUM_TILES,
                forall|j: int|
                    0 <= j < NUM_TILES ==> 0 <= #[trigger] rolls[j] < 100,
                forall|j: int|
                    0 <= j < i ==> #[trigger] map.tiles@[j] == noise_spec(point_spec(j), rolls[j]),
            decreases NUM_TILES - i,
        {
            let pt = map.index_to_point2d(i);
            if pt.x == 0 || pt.x == SCREEN_WIDTH - 1 || pt.y == 0 || pt.y == SCREEN_HEIGHT - 1 {
                map.tiles.set(i, Self::noise_tile(pt, 0));
            } else {
                let roll = range_i32(rng, 0, 100);
                proof {
                    rolls = rolls.update(i as int, roll);
                }
                map.tiles.set(i, Self::noise_tile(pt, roll));
            }
            i = i + 1;
        }
        assert(rolls.len() == NUM_TILES);
    }

    /// 1 when the tile at `(x, y)` is a wall, else 0.
    fn wall_at(&self, x: i32, y: i32, map: &GridMap) -> (r: usize)
        requires
            map.wf(),
            0 <= x < SCREEN_WIDTH,
            0 <= y < SCREEN_HEIGHT,
        ensures
            r == wall_count(map.tiles@, x as int, y as int),
    {
        if map.tiles[map_idx(x, y)] == TileType::Wall {
            1
        } else {
            0
        }
    }

    /// Number of walls among the eight neighbours (diagonals included) of
    /// an interior cell.
    pub fn count_neighbors(&self, x: i32, y: i32, map: &GridMap) -> (r: usize)
        requires
            map.wf(),
            1 <= x < SCREEN_WIDTH - 1,
            1 <= y < SCREEN_HEIGHT - 1,
        ensures
            r == wall_neighbors(map.tiles@, x as int, y as int),
            r <= 8,
    {
        self.wall_at(x - 1, y - 1, map) + self.wall_at(x, y - 1, map) + self.wall_at(
            x + 1,
            y - 1,
            map,
        ) + self.wall_at(x - 1, y, map) + self.wall_at(x + 1, y, map) + self.wall_at(
            x - 1,
            y + 1,
            map,
        ) + self.wall_at(x, y + 1, map) + self.wall_at(x + 1, y + 1, map)
    }

    /// One smoothing pass. Every interior cell takes the smoothing rule's
    /// value for its neighbours in the grid as it was before the pass;
    /// border cells keep their value.
    #[verifier::rlimit(50)]
    pub fn iteration(&mut self, map: &mut GridMap)
        requires
            old(map).wf(),
        ensures
            final(map).wf(),
            forall|i: int|
                0 <= i < NUM_TILES ==> #[trigger] final(map).tiles@[i] == if on_border(
                    point_spec(i),
                ) {
                    old(map).tiles@[i]
                } else {
                    smoothed(
                        wall_neighbors(
                            old(map).tiles@,
                            point_spec(i).x as int,
                            point_spec(i).y as int,
                        ),
                    )
                },
    {
        let mut new_tiles: Vec<TileType> = Vec::new();
        let mut i: usize = 0;
        while i < NUM_TILES
            invariant
                map.wf(),
                i <= NUM_TILES,
                new_tiles@ == map.tiles@.subrange(0, i as int),
            decreases NUM_TILES - i,
        {
            new_tiles.push(map.tiles[i]);
            i = i + 1;
        }
        let ghost orig = map.tiles@;
        let mut y: i32 = 1;
        while y < SCREEN_HEIGHT - 1
            invariant
                map.wf(),
                map.tiles@ == orig,
                1 <= y <= SCREEN_HEIGHT - 1,
                new_tiles@.len() == NUM_TILES,
                forall|j: int|
                    0 <= j < NUM_TILES ==> #[trigger] new_tiles@[j] == if !on_border(
                        point_spec(j),
                    ) && point_spec(j).y < y {
                        smoothed(
                            wall_neighbors(orig, point_spec(j).x as int, point_spec(j).y as int),
                        )
                    } else {
                        orig[j]
                    },
            decreases SCREEN_HEIGHT - y,
        {
            let mut x: i32 = 1;
            while x < SCREEN_WIDTH - 1
                invariant
                    map.wf(),
                    map.tiles@ == orig,
                    1 <= y < SCREEN_HEIGHT - 1,
                    1 <= x <= SCREEN_WIDTH - 1,
                    new_tiles@.len() == NUM_TILES,
                    forall|j: int|
                        0 <= j < NUM_TILES ==> #[trigger] new_tiles@[j] == if !on_border(
                            point_spec(j),
                        ) && (point_spec(j).y < y || (point_spec(j).y == y && point_spec(j).x
                            < x)) {
                            smoothed(
                                wall_neighbors(
                                    orig,
                                    point_spec(j).x as int,
                                    point_spec(j).y as int,
                                ),
                            )
                        } else {
                            orig[j]
                        },
                decreases SCREEN_WIDTH - x,
            {
                let neighbors = self.count_neighbors(x, y, map);
                let idx = map_idx(x, y);
                let t = if neighbors > 4 || neighbors == 0 {
                    TileType::Wall
                } else {
                    TileType::Floor
                };
                new_tiles.set(idx, t);
                proof {
                    lemma_idx_point(Point { x, y });
                    assert forall|j: int| 0 <= j < NUM_TILES implies #[trigger] new_tiles@[j]
                        == if !on_border(point_spec(j)) && (point_spec(j).y < y || (
                    point_spec(j).y == y && point_spec(j).x < x + 1)) {
                        smoothed(
                            wall_neighbors(orig, point_spec(j).x as int, point_spec(j).y as int),
                        )
                    } else {
                        orig[j]
                    } by {
                        lemma_point_idx(j);
                        if point_spec(j) == (Point { x, y }) {
                            assert(j == idx_of(x as int, y as int));
                        }
                    }
                }
                x = x + 1;
            }
            y = y + 1;
        }
        map.tiles = new_tiles;
    }

    /// The floor tile closest to the grid's center (the first in scan order
    /// among equals), or `None` when the grid has no floor.
    pub fn find_start(&self, map: &GridMap) -> (r: Option<Point>)
        requires
            map.wf(),
        ensures
            r is None <==> forall|i: int| 0 <= i < NUM_TILES ==> #[trigger] map.tiles@[i]
                != TileType::Floor,
            r matches Some(p) ==> in_bounds_spec(p) && is_closest_floor(map.tiles@, idx_spec(p)),
    {
        let mut best: Option<usize> = None;
        let mut best_d: i32 = 0;
        let mut i: usize = 0;
        while i < NUM_TILES
            invariant
                map.wf(),
                i <= NUM_TILES,
                best is None <==> forall|j: int| 0 <= j < i ==> #[trigger] map.tiles@[j]
                    != TileType::Floor,
                best matches Some(b) ==> {
                    &&& b < i
                    &&& map.tiles@[b as int] == TileType::Floor
                    &&& best_d == center_dist2(point_spec(b as int))
                    &&& forall|j: int|
                        0 <= j < i && map.tiles@[j] == TileType::Floor ==> best_d <= center_dist2(
                            #[trigger] point_spec(j),
                        )
                    &&& forall|j: int|
                        0 <= j < b && map.tiles@[j] == TileType::Floor ==> best_d < center_dist2(
                            #[trigger] point_spec(j),
                        )
                },
            decreases NUM_TILES - i,
        {
            if map.tiles[i] == TileType::Floor {
                let p = map.index_to_point2d(i);
                let dx = p.x - 40;
                let dy = p.y - 25;
                assert(0 <= dx * dx <= 1600 && 0 <= dy * dy <= 625) by (nonlinear_arith)
                    requires
                        -40 <= dx < 40,
                        -25 <= dy < 25,
                ;
                let d = dx * dx + dy * dy;
                match best {
                    Some(_) => {
                        if d < best_d {
                            best = Some(i);
                            best_d = d;
                        }
                    },
                    None => {
                        best = Some(i);
                        best_d = d;
                    },
                }
            }
            i = i + 1;
        }
        match best {
            Some(b) => {
                let p = map.index_to_point2d(b);
                Some(p)
            },
            None => None,
        }
    }

    /// Builds a cave level: random noise, `SMOOTHING_PASSES` smoothing
    /// passes, the player on the floor tile closest to the center, the exit
    /// on the farthest reachable tile, and monsters on reachable tiles away
    /// from the player.
    pub fn new<F: Fn(&GridMap, usize) -> Vec<Option<u32>>>(
        &mut self,
        rng: &mut RandomNumberGenerator,
        distances: &F,
    ) -> (r: Result<MapBuilder, GenError>)
        requires
            field_query(distances),
        ensures
            r matches Ok(mb) ==> {
                &&& mb.placed()
                &&& mb.exit_is_farthest(distances)
                &&& mb.spawns_distant(distances)
                &&& mb.rooms@.len() == 0
                &&& borders_walled(mb.map.tiles@)
                &&& is_closest_floor(mb.map.tiles@, idx_spec(mb.player_start))
            },
    {
        let mut mb = MapBuilder::blank();
        self.random_noise_map(rng, &mut mb.map);
        let mut pass: usize = 0;
        while pass < SMOOTHING_PASSES
            invariant
                mb.map.wf(),
                mb.rooms@.len() == 0,
                borders_walled(mb.map.tiles@),
            decreases SMOOTHING_PASSES - pass,
        {
            let ghost before = mb.map.tiles@;
            self.iteration(&mut mb.map);
            proof {
                lemma_smoothing_keeps_border_walls(before, mb.map.tiles@);
            }
            pass = pass + 1;
        }
        let start = match self.find_start(&mb.map) {
            Some(p) => p,
            None => {
                return Err(GenError::NoFloor);
            },
        };
        mb.player_start = start;
        mb.place_exit(distances)?;
        mb.place_spawns(rng, distances);
        Ok(mb)
    }
}

} // verus!
