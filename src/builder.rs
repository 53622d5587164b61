use crate::distance::{
    all_unreachable, farthest_index, is_farthest, lemma_farthest_unique, pick_spawns, spawnable, spawnable_tiles,
    NUM_MONSTERS,
};
use crate::map::{idx_spec, in_bounds_spec, lemma_idx_point, GridMap, Point, TileType, NUM_TILES};
use crate::automata::CellularAutomataArchitect;
use crate::drunkard::DrunkardWalkArchitect;
use crate::rect::Rect;
use crate::rng::range_i32;
use crate::rooms::{disjoint_rooms, RoomsArchitect, NUM_ROOMS};
use bracket_random::prelude::RandomNumberGenerator;
use vstd::prelude::*;

verus! {

/// Which of the two visual themes a level is drawn with.
#[derive(Clone, Copy, Debug, PartialEq, Eq, Structural)]
pub enum Theme {
    Dungeon,
    Forest,
}

/// Why a level could not be generated.
#[derive(Clone, Copy, Debug, PartialEq, Eq, Structural)]
pub enum GenError {
    /// The grid ended up without a usable floor tile for the player.
    NoFloor,
    /// The distance field gave no reachable floor tile for the exit.
    Unreachable,
    /// A generator used up its attempt budget.
    Exhausted,
}

/// Generation runs before the builder gives up.
pub const MAX_ATTEMPTS: usize = 10;

/// `f` is a distance-field query that may be called on any grid and source.
/// It is meant to give, for every tile of the grid, the number of
/// 8-directional steps over enterable tiles from the tile with index
/// `source`, or `None` where the tile cannot be reached; nothing is assumed
/// of what it returns, and the generators check its results before use.
pub open spec fn field_query<F: Fn(&GridMap, usize) -> Vec<Option<u32>>>(f: &F) -> bool {
    forall|m: &GridMap, s: usize| #[trigger] f.requires((m, s))
}

/// `d` is a field that `f` returned for `map` from `source`.
pub open spec fn field_of<F: Fn(&GridMap, usize) -> Vec<Option<u32>>>(
    f: &F,
    map: &GridMap,
    source: int,
    d: Seq<Option<u32>>,
) -> bool {
    exists|v: Vec<Option<u32>>| #[trigger] f.ensures((map, source as usize), v) && v@ == d
}

/// `f` gives the same field whenever it is asked twice about equal grids and
/// sources.
pub open spec fn deterministic_query<F: Fn(&GridMap, usize) -> Vec<Option<u32>>>(f: &F) -> bool {
    forall|m: &GridMap, s: usize, v1: Vec<Option<u32>>, v2: Vec<Option<u32>>|
        #[trigger] f.ensures((m, s), v1) && #[trigger] f.ensures((m, s), v2) ==> v1@ == v2@
}

/// Asking twice for the farthest tile of an unchanged level gives the same
/// tile, provided the distance query is deterministic: two points that
/// `find_most_distance` may return for the same level are equal.
pub proof fn lemma_find_most_distance_idempotent<F: Fn(&GridMap, usize) -> Vec<Option<u32>>>(
    mb: &MapBuilder,
    f: &F,
    p1: Point,
    p2: Point,
)
    requires
        deterministic_query(f),
        in_bounds_spec(p1),
        in_bounds_spec(p2),
        exists|d: Seq<Option<u32>>|
            #[trigger] field_of(f, &mb.map, idx_spec(mb.player_start), d) && d.len() == NUM_TILES
                && is_farthest(d, idx_spec(p1)),
        exists|d: Seq<Option<u32>>|
            #[trigger] field_of(f, &mb.map, idx_spec(mb.player_start), d) && d.len() == NUM_TILES
                && is_farthest(d, idx_spec(p2)),
    ensures
        p1 == p2,
{
    let src = idx_spec(mb.player_start);
    let d1 = choose|d: Seq<Option<u32>>|
        #[trigger] field_of(f, &mb.map, src, d) && d.len() == NUM_TILES && is_farthest(
            d,
            idx_spec(p1),
        );
    let d2 = choose|d: Seq<Option<u32>>|
        #[trigger] field_of(f, &mb.map, src, d) && d.len() == NUM_TILES && is_farthest(
            d,
            idx_spec(p2),
        );
    let v1 = choose|v: Vec<Option<u32>>| #[trigger] f.ensures((&mb.map, src as usize), v) && v@ == d1;
    let v2 = choose|v: Vec<Option<u32>>| #[trigger] f.ensures((&mb.map, src as usize), v) && v@ == d2;
    assert(d1 == d2);
    lemma_farthest_unique(d1, idx_spec(p1), idx_spec(p2));
    lemma_idx_point(p1);
    lemma_idx_point(p2);
}

/// A generated level and everything the game needs to populate it.
pub struct MapBuilder {
    pub map: GridMap,
    pub rooms: Vec<Rect>,
    pub monster_spawns: Vec<Point>,
    pub player_start: Point,
    pub amulet_start: Point,
    pub theme: Theme,
}

impl MapBuilder {
    /// Player start and exit are floor tiles of a full grid, and every spawn
    /// point is a floor tile.
    pub open spec fn placed(&self) -> bool {
        &&& self.map.wf()
        &&& in_bounds_spec(self.player_start)
        &&& in_bounds_spec(self.amulet_start)
        &&& self.map.tile_at(self.player_start) == TileType::Floor
        &&& self.map.tile_at(self.amulet_start) == TileType::Floor
        &&& self.monster_spawns@.len() <= NUM_MONSTERS
        &&& forall|k: int|
            0 <= k < self.monster_spawns@.len() ==> in_bounds_spec(
                #[trigger] self.monster_spawns@[k],
            ) && self.map.tile_at(self.monster_spawns@[k]) == TileType::Floor
    }

    /// The exit is the farthest reachable tile of a field that `f` gives
    /// from the player start.
    pub open spec fn exit_is_farthest<F: Fn(&GridMap, usize) -> Vec<Option<u32>>>(
        &self,
        f: &F,
    ) -> bool {
        exists|d: Seq<Option<u32>>|
            #[trigger] field_of(f, &self.map, idx_spec(self.player_start), d) && d.len()
                == NUM_TILES && is_farthest(d, idx_spec(self.amulet_start))
    }

    /// Every spawn point is reachable and far enough from the player start in
    /// a field that `f` gives from there.
    pub open spec fn spawns_distant<F: Fn(&GridMap, usize) -> Vec<Option<u32>>>(
        &self,
        f: &F,
    ) -> bool {
        exists|d: Seq<Option<u32>>|
            #[trigger] field_of(f, &self.map, idx_spec(self.player_start), d) && forall|k: int|
                0 <= k < self.monster_spawns@.len() ==> spawnable(
                    self.map.tiles@,
                    d,
                    #[trigger] self.monster_spawns@[k],
                )
    }

    /// Generates a level: draws one of the three architects at random, runs
    /// it, and draws the theme. A run that fails is retried with fresh
    /// draws, up to `MAX_ATTEMPTS` runs; the last failure is returned.
    /// `distances` computes distance fields (with a depth cutoff of
    /// `MAX_DEPTH`); whatever it returns is checked before it is used.
    pub fn new<F: Fn(&GridMap, usize) -> Vec<Option<u32>>>(
        rng: &mut RandomNumberGenerator,
        distances: &F,
    ) -> (r: Result<MapBuilder, GenError>)
        requires
            field_query(distances),
        ensures
            r matches Ok(mb) ==> {
                &&& mb.placed()
                &&& mb.exit_is_farthest(distances)
                &&& mb.rooms@.len() == 0 ==> mb.spawns_distant(distances)
                &&& mb.rooms@.len() != 0 ==> mb.rooms@.len() == NUM_ROOMS && disjoint_rooms(
                    mb.rooms@,
                )
            },
    {
        let mut last = GenError::Exhausted;
        let mut attempt: usize = 0;
        while attempt < MAX_ATTEMPTS
            invariant
                field_query(distances),
            decreases MAX_ATTEMPTS - attempt,
        {
            let built = match range_i32(rng, 0, 3) {
                0 => {
                    let mut architect = DrunkardWalkArchitect {  };
                    architect.new(rng, distances)
                },
                1 => {
                    let mut architect = RoomsArchitect {  };
                    architect.new(rng, distances)
                },
                _ => {
                    let mut architect = CellularAutomataArchitect {  };
                    architect.new(rng, distances)
                },
            };
            match built {
                Ok(mut mb) => {
                    mb.theme = match range_i32(rng, 0, 2) {
                        0 => Theme::Dungeon,
                        _ => Theme::Forest,
                    };
                    return Ok(mb);
                },
                Err(e) => {
                    last = e;
                },
            }
            attempt = attempt + 1;
        }
        Err(last)
    }

    /// A builder holding a grid of `Floor` tiles and nothing else.
    pub(crate) fn blank() -> (r: MapBuilder)
        ensures
            r.map.wf(),
            r.rooms@.len() == 0,
            r.monster_spawns@.len() == 0,
    {
        MapBuilder {
            map: GridMap::new(),
            rooms: Vec::new(),
            monster_spawns: Vec::new(),
            player_start: Point::zero(),
            amulet_start: Point::zero(),
            theme: Theme::Dungeon,
        }
    }

    /// Sets every tile of the grid to `tile`.
    pub fn fill(&mut self, tile: TileType)
        requires
            old(self).map.wf(),
        ensures
            final(self).map.wf(),
            forall|i: int| 0 <= i < NUM_TILES ==> final(self).map.tiles@[i] == tile,
            final(self).rooms == old(self).rooms,
            final(self).monster_spawns == old(self).monster_spawns,
            final(self).player_start == old(self).player_start,
            final(self).amulet_start == old(self).amulet_start,
            final(self).theme == old(self).theme,
    {
        self.map.fill(tile);
    }

    /// The distance field from the player start.
    pub fn build_player_distance_map<F: Fn(&GridMap, usize) -> Vec<Option<u32>>>(
        &self,
        distances: &F,
    ) -> (r: Vec<Option<u32>>)
        requires
            field_query(distances),
            in_bounds_spec(self.player_start),
        ensures
            distances.ensures((&self.map, idx_spec(self.player_start) as usize), r),
    {
        let source = self.map.point2d_to_index(self.player_start);
        distances(&self.map, source)
    }

    /// The reachable tile farthest from the player start (the last in scan
    /// order among equals), or `None` when the field reaches nothing.
    pub fn find_most_distance<F: Fn(&GridMap, usize) -> Vec<Option<u32>>>(
        &self,
        distances: &F,
    ) -> (r: Option<Point>)
        requires
            field_query(distances),
            in_bounds_spec(self.player_start),
        ensures
            r matches Some(p) ==> in_bounds_spec(p) && exists|d: Seq<Option<u32>>|
                #[trigger] field_of(distances, &self.map, idx_spec(self.player_start), d)
                    && d.len() == NUM_TILES && is_farthest(d, idx_spec(p)),
            r is None ==> exists|d: Seq<Option<u32>>|
                #[trigger] field_of(distances, &self.map, idx_spec(self.player_start), d) && (
                d.len() != NUM_TILES || all_unreachable(d)),
    {
        let d = self.build_player_distance_map(distances);
        assert(field_of(distances, &self.map, idx_spec(self.player_start), d@));
        if d.len() != NUM_TILES {
            return None;
        }
        match farthest_index(&d) {
            Some(i) => {
                let p = self.map.index_to_point2d(i);
                Some(p)
            },
            None => None,
        }
    }

    /// Up to `NUM_MONSTERS` distinct spawn points, drawn from the reachable
    /// floor tiles at least `MIN_SPAWN_DISTANCE` steps from the player start;
    /// fewer only when that pool runs out.
    pub fn spawn_monster<F: Fn(&GridMap, usize) -> Vec<Option<u32>>>(
        &self,
        rng: &mut RandomNumberGenerator,
        distances: &F,
    ) -> (r: Vec<Point>)
        requires
            field_query(distances),
            self.map.wf(),
            in_bounds_spec(self.player_start),
        ensures
            r@.len() <= NUM_MONSTERS,
            r@.no_duplicates(),
            exists|d: Seq<Option<u32>>|
                #[trigger] field_of(distances, &self.map, idx_spec(self.player_start), d) && (
                d.len() != NUM_TILES ==> r@.len() == 0) && (d.len() == NUM_TILES ==> (forall|
                    k: int,
                | 0 <= k < r@.len() ==> spawnable(self.map.tiles@, d, #[trigger] r@[k])) && (
                r@.len() < NUM_MONSTERS ==> forall|p: Point|
                    spawnable(self.map.tiles@, d, p) ==> r@.contains(p))),
    {
        let d = self.build_player_distance_map(distances);
        assert(field_of(distances, &self.map, idx_spec(self.player_start), d@));
        if d.len() != NUM_TILES {
            return Vec::new();
        }
        let pool = spawnable_tiles(&self.map, &d);
        proof {
            assert forall|a: int, b: int|
                0 <= a < pool@.len() && 0 <= b < pool@.len() && a != b implies pool@[a]
                != pool@[b] by {
                if a < b {
                    assert(idx_spec(pool@[a]) < idx_spec(pool@[b]));
                } else {
                    assert(idx_spec(pool@[b]) < idx_spec(pool@[a]));
                }
            }
        }
        let ghost pv = pool@;
        let r = pick_spawns(rng, pool);
        proof {
            assert forall|k: int| 0 <= k < r@.len() implies spawnable(
                self.map.tiles@,
                d@,
                #[trigger] r@[k],
            ) by {
                assert(pv.contains(r@[k]));
            }
            assert forall|p: Point| r@.len() < NUM_MONSTERS && spawnable(
                self.map.tiles@,
                d@,
                p,
            ) implies r@.contains(p) by {
                assert(pv.contains(p));
                let k = choose|k: int| 0 <= k < pv.len() && pv[k] == p;
                assert(r@.contains(pv[k]));
            }
        }
        r
    }

    /// Places the exit on the farthest reachable tile from the player start,
    /// and fails unless start and exit are floor tiles.
    pub(crate) fn place_exit<F: Fn(&GridMap, usize) -> Vec<Option<u32>>>(
        &mut self,
        distances: &F,
    ) -> (r: Result<(), GenError>)
        requires
            field_query(distances),
            old(self).map.wf(),
            in_bounds_spec(old(self).player_start),
        ensures
            final(self).map == old(self).map,
            final(self).rooms == old(self).rooms,
            final(self).monster_spawns == old(self).monster_spawns,
            final(self).player_start == old(self).player_start,
            final(self).theme == old(self).theme,
            r is Ok ==> {
                &&& in_bounds_spec(final(self).amulet_start)
                &&& final(self).map.tile_at(final(self).player_start) == TileType::Floor
                &&& final(self).map.tile_at(final(self).amulet_start) == TileType::Floor
                &&& final(self).exit_is_farthest(distances)
            },
    {
        match self.find_most_distance(distances) {
            Some(p) => {
                let s = self.map.point2d_to_index(self.player_start);
                let e = self.map.point2d_to_index(p);
                if self.map.tiles[s] != TileType::Floor || self.map.tiles[e] != TileType::Floor {
                    return Err(GenError::Unreachable);
                }
                self.amulet_start = p;
                Ok(())
            },
            None => Err(GenError::Unreachable),
        }
    }

    /// Fills the spawn list from the distance field of the player start.
    pub(crate) fn place_spawns<F: Fn(&GridMap, usize) -> Vec<Option<u32>>>(
        &mut self,
        rng: &mut RandomNumberGenerator,
        distances: &F,
    )
        requires
            field_query(distances),
            old(self).map.wf(),
            in_bounds_spec(old(self).player_start),
        ensures
            final(self).map == old(self).map,
            final(self).rooms == old(self).rooms,
            final(self).player_start == old(self).player_start,
            final(self).amulet_start == old(self).amulet_start,
            final(self).theme == old(self).theme,
            final(self).monster_spawns@.len() <= NUM_MONSTERS,
            forall|k: int|
                0 <= k < final(self).monster_spawns@.len() ==> in_bounds_spec(
                    #[trigger] final(self).monster_spawns@[k],
                ) && final(self).map.tile_at(final(self).monster_spawns@[k]) == TileType::Floor,
            final(self).spawns_distant(distances),
    {
        let spawns = self.spawn_monster(rng, distances);
        let ghost d = choose|d: Seq<Option<u32>>|
            #[trigger] field_of(distances, &self.map, idx_spec(self.player_start), d) && (d.len()
                != NUM_TILES ==> spawns@.len() == 0) && (d.len() == NUM_TILES ==> (forall|k: int|
                0 <= k < spawns@.len() ==> spawnable(self.map.tiles@, d, #[trigger] spawns@[k]))
                && (spawns@.len() < NUM_MONSTERS ==> forall|p: Point|
                spawnable(self.map.tiles@, d, p) ==> spawns@.contains(p)));
        self.monster_spawns = spawns;
        proof {
            if d.len() != NUM_TILES {
                assert(self.monster_spawns@.len() == 0);
            }
            assert(field_of(distances, &self.map, idx_spec(self.player_start), d));
        }
    }
}

} // verus!
