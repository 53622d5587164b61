use crate::builder::{field_query, GenError, MapBuilder};
use crate::map::{
    idx_of, idx_spec, in_bounds_spec, lemma_idx_point, lemma_point_idx, map_idx, point_spec,
    GridMap, Point, TileType, NUM_TILES, SCREEN_HEIGHT, SCREEN_WIDTH,
};
use crate::rect::{center_spec, covers, intersects, Rect};
use crate::rng::range_i32;
use bracket_random::prelude::RandomNumberGenerator;
use vstd::prelude::*;

verus! {

/// Rooms placed on every level of this kind.
pub const NUM_ROOMS: usize = 20;

/// Most candidate rooms drawn before the generator gives up.
pub const MAX_ROOM_ATTEMPTS: usize = 100000;

/// The point lies on the vertical run at column `x` between rows `y1` and
/// `y2`, both included.
pub open spec fn on_vertical(p: Point, y1: i32, y2: i32, x: i32) -> bool {
    p.x == x && (if y1 <= y2 {
        y1 <= p.y <= y2
    } else {
        y2 <= p.y <= y1
    })
}

/// The point lies on the horizontal run at row `y` between columns `x1` and
/// `x2`, both included.
pub open spec fn on_horizontal(p: Point, x1: i32, x2: i32, y: i32) -> bool {
    p.y == y && (if x1 <= x2 {
        x1 <= p.x <= x2
    } else {
        x2 <= p.x <= x1
    })
}

/// Every in-bounds tile of the vertical run is floor.
pub open spec fn vertical_open(tiles: Seq<TileType>, y1: i32, y2: i32, x: i32) -> bool {
    forall|p: Point|
        in_bounds_spec(p) && #[trigger] on_vertical(p, y1, y2, x) ==> tiles[idx_spec(p)]
            == TileType::Floor
}

/// Every in-bounds tile of the horizontal run is floor.
pub open spec fn horizontal_open(tiles: Seq<TileType>, x1: i32, x2: i32, y: i32) -> bool {
    forall|p: Point|
        in_bounds_spec(p) && #[trigger] on_horizontal(p, x1, x2, y) ==> tiles[idx_spec(p)]
            == TileType::Floor
}

/// An L-shaped corridor of floor joins the two points: horizontal then
/// vertical, or vertical then horizontal.
pub open spec fn joined(tiles: Seq<TileType>, a: Point, b: Point) -> bool {
    (horizontal_open(tiles, a.x, b.x, a.y) && vertical_open(tiles, a.y, b.y, b.x)) || (
    vertical_open(tiles, a.y, b.y, a.x) && horizontal_open(tiles, a.x, b.x, b.y))
}

/// No floor tile of `a` is anything but floor in `b`.
pub open spec fn keeps_floor(a: Seq<TileType>, b: Seq<TileType>) -> bool {
    forall|i: int| 0 <= i < NUM_TILES && a[i] == TileType::Floor ==> #[trigger] b[i] == TileType::Floor
}

/// A room as the generator draws it: its top-left corner in
/// `[1, SCREEN_WIDTH - 10) x [1, SCREEN_HEIGHT - 10)`, between two and nine
/// tiles on a side (so it lies inside the grid's one-tile margin).
pub open spec fn room_shape(r: Rect) -> bool {
    &&& 1 <= r.x1 < SCREEN_WIDTH - 10
    &&& r.x1 + 2 <= r.x2 < r.x1 + 10
    &&& 1 <= r.y1 < SCREEN_HEIGHT - 10
    &&& r.y1 + 2 <= r.y2 < r.y1 + 10
}

/// Some room of the list covers the point.
pub open spec fn in_some_room(rooms: Seq<Rect>, p: Point) -> bool {
    exists|k: int| 0 <= k < rooms.len() && #[trigger] covers(rooms[k], p)
}

/// No two rooms of the list touch or overlap.
pub open spec fn disjoint_rooms(rooms: Seq<Rect>) -> bool {
    forall|a: int, b: int|
        0 <= a < rooms.len() && 0 <= b < rooms.len() && a != b ==> !intersects(
            #[trigger] rooms[a],
            #[trigger] rooms[b],
        )
}

/// Every tile of every room is floor.
pub open spec fn rooms_open(tiles: Seq<TileType>, rooms: Seq<Rect>) -> bool {
    forall|k: int, p: Point|
        0 <= k < rooms.len() && #[trigger] covers(rooms[k], p) ==> tiles[idx_spec(p)]
            == TileType::Floor
}

/// Rooms appear in order of their centers' columns.
pub open spec fn sorted_by_center(rooms: Seq<Rect>) -> bool {
    forall|a: int, b: int|
        0 <= a < b < rooms.len() ==> center_spec(#[trigger] rooms[a]).x <= center_spec(
            #[trigger] rooms[b],
        ).x
}

/// `r` is `rooms` sorted by center column, with `perm` giving each entry's
/// place in `rooms`; entries with equal columns keep their order.
pub open spec fn stably_sorted_from(r: Seq<Rect>, rooms: Seq<Rect>, perm: Seq<int>) -> bool {
    &&& sorted_by_center(r)
    &&& r.len() == rooms.len()
    &&& perm.len() == r.len()
    &&& forall|k: int| 0 <= k < r.len() ==> 0 <= #[trigger] perm[k] < r.len() && r[k] == rooms[perm[k]]
    &&& forall|a: int, b: int| 0 <= a < b < r.len() ==> #[trigger] perm[a] != #[trigger] perm[b]
    &&& forall|a: int, b: int|
        0 <= a < b < r.len() && center_spec(r[a]).x == center_spec(r[b]).x ==> #[trigger] perm[a]
            < #[trigger] perm[b]
}

/// Lays out rectangular rooms joined by L-shaped corridors.
pub struct RoomsArchitect {}

impl RoomsArchitect {
    /// Carves floor along column `x` from row `y1` to row `y2`, skipping tiles
    /// off the grid.
    pub fn apply_vertical_tunnel(&mut self, y1: i32, y2: i32, x: i32, mb: &mut MapBuilder)
        requires
            old(mb).map.wf(),
        ensures
            final(mb).map.wf(),
            forall|i: int|
                0 <= i < NUM_TILES ==> #[trigger] final(mb).map.tiles@[i] == if on_vertical(
                    point_spec(i),
                    y1,
                    y2,
                    x,
                ) {
                    TileType::Floor
                } else {
                    old(mb).map.tiles@[i]
                },
            final(mb).rooms == old(mb).rooms,
            final(mb).monster_spawns == old(mb).monster_spawns,
            final(mb).player_start == old(mb).player_start,
            final(mb).amulet_start == old(mb).amulet_start,
            final(mb).theme == old(mb).theme,
    {
        let lo: i64 = if y1 <= y2 {
            y1 as i64
        } else {
            y2 as i64
        };
        let hi: i64 = if y1 <= y2 {
            y2 as i64
        } else {
            y1 as i64
        };
        let ghost orig = mb.map.tiles@;
        let mut y: i64 = lo;
        while y <= hi
            invariant
                mb.map.wf(),
                orig.len() == NUM_TILES,
                lo <= y <= hi + 1,
                lo == (if y1 <= y2 { y1 } else { y2 }),
                hi == (if y1 <= y2 { y2 } else { y1 }),
                forall|i: int|
                    0 <= i < NUM_TILES ==> #[trigger] mb.map.tiles@[i] == if on_vertical(
                        point_spec(i),
                        y1,
                        y2,
                        x,
                    ) && point_spec(i).y < y {
                        TileType::Floor
                    } else {
                        orig[i]
                    },
                mb.rooms == old(mb).rooms,
                mb.monster_spawns == old(mb).monster_spawns,
                mb.player_start == old(mb).player_start,
                mb.amulet_start == old(mb).amulet_start,
                mb.theme == old(mb).theme,
            decreases hi + 1 - y,
        {
            let p = Point::new(x, y as i32);
            let ghost before = mb.map.tiles@;
            if let Some(idx) = mb.map.try_idx(p) {
                mb.map.tiles.set(idx, TileType::Floor);
                proof {
                    lemma_idx_point(p);
                }
            }
            proof {
                assert forall|i: int| 0 <= i < NUM_TILES implies #[trigger] mb.map.tiles@[i]
                    == if on_vertical(point_spec(i), y1, y2, x) && point_spec(i).y < y + 1 {
                    TileType::Floor
                } else {
                    orig[i]
                } by {
                    lemma_point_idx(i);
                    if point_spec(i) == p {
                        assert(i == idx_spec(p));
                    }
                }
            }
            y = y + 1;
        }
    }

    /// Carves floor along row `y` from column `x1` to column `x2`, skipping
    /// tiles off the grid.
    pub fn apply_horizontal_tunnel(&mut self, x1: i32, x2: i32, y: i32, mb: &mut MapBuilder)
        requires
            old(mb).map.wf(),
        ensures
            final(mb).map.wf(),
            forall|i: int|
                0 <= i < NUM_TILES ==> #[trigger] final(mb).map.tiles@[i] == if on_horizontal(
                    point_spec(i),
                    x1,
                    x2,
                    y,
                ) {
                    TileType::Floor
                } else {
                    old(mb).map.tiles@[i]
                },
            final(mb).rooms == old(mb).rooms,
            final(mb).monster_spawns == old(mb).monster_spawns,
            final(mb).player_start == old(mb).player_start,
            final(mb).amulet_start == old(mb).amulet_start,
            final(mb).theme == old(mb).theme,
    {
        let lo: i64 = if x1 <= x2 {
            x1 as i64
        } else {
            x2 as i64
        };
        let hi: i64 = if x1 <= x2 {
            x2 as i64
        } else {
            x1 as i64
        };
        let ghost orig = mb.map.tiles@;
        let mut x: i64 = lo;
        while x <= hi
            invariant
                mb.map.wf(),
                orig.len() == NUM_TILES,
                lo <= x <= hi + 1,
                lo == (if x1 <= x2 { x1 } else { x2 }),
                hi == (if x1 <= x2 { x2 } else { x1 }),
                forall|i: int|
                    0 <= i < NUM_TILES ==> #[trigger] mb.map.tiles@[i] == if on_horizontal(
                        point_spec(i),
                        x1,
                        x2,
                        y,
                    ) && point_spec(i).x < x {
                        TileType::Floor
                    } else {
                        orig[i]
                    },
                mb.rooms == old(mb).rooms,
                mb.monster_spawns == old(mb).monster_spawns,
                mb.player_start == old(mb).player_start,
                mb.amulet_start == old(mb).amulet_start,
                mb.theme == old(mb).theme,
            decreases hi + 1 - x,
        {
            let p = Point::new(x as i32, y);
            if let Some(idx) = mb.map.try_idx(p) {
                mb.map.tiles.set(idx, TileType::Floor);
                proof {
                    lemma_idx_point(p);
                }
            }
            proof {
                assert forall|i: int| 0 <= i < NUM_TILES implies #[trigger] mb.map.tiles@[i]
                    == if on_horizontal(point_spec(i), x1, x2, y) && point_spec(i).x < x + 1 {
                    TileType::Floor
                } else {
                    orig[i]
                } by {
                    lemma_point_idx(i);
                    if point_spec(i) == p {
                        assert(i == idx_spec(p));
                    }
                }
            }
            x = x + 1;
        }
    }

    /// Turns every tile of `room` into floor.
    #[verifier::rlimit(50)]
    fn apply_room(&self, room: &Rect, mb: &mut MapBuilder)
        requires
            old(mb).map.wf(),
            room_shape(*room),
        ensures
            final(mb).map.wf(),
            forall|i: int|
                0 <= i < NUM_TILES ==> #[trigger] final(mb).map.tiles@[i] == if covers(
                    *room,
                    point_spec(i),
                ) {
                    TileType::Floor
                } else {
                    old(mb).map.tiles@[i]
                },
            final(mb).rooms == old(mb).rooms,
            final(mb).monster_spawns == old(mb).monster_spawns,
            final(mb).player_start == old(mb).player_start,
            final(mb).amulet_start == old(mb).amulet_start,
            final(mb).theme == old(mb).theme,
    {
        let ghost orig = mb.map.tiles@;
        let mut y: i32 = room.y1;
        while y < room.y2
            invariant
                mb.map.wf(),
                orig.len() == NUM_TILES,
                room_shape(*room),
                room.y1 <= y <= room.y2,
                forall|i: int|
                    0 <= i < NUM_TILES ==> #[trigger] mb.map.tiles@[i] == if covers(
                        *room,
                        point_spec(i),
                    ) && point_spec(i).y < y {
                        TileType::Floor
                    } else {
                        orig[i]
                    },
                mb.rooms == old(mb).rooms,
                mb.monster_spawns == old(mb).monster_spawns,
                mb.player_start == old(mb).player_start,
                mb.amulet_start == old(mb).amulet_start,
                mb.theme == old(mb).theme,
            decreases room.y2 - y,
        {
            let mut x: i32 = room.x1;
            while x < room.x2
                invariant
                    mb.map.wf(),
                    orig.len() == NUM_TILES,
                    room_shape(*room),
                    room.y1 <= y < room.y2,
                    room.x1 <= x <= room.x2,
                    forall|i: int|
                        0 <= i < NUM_TILES ==> #[trigger] mb.map.tiles@[i] == if covers(
                            *room,
                            point_spec(i),
                        ) && (point_spec(i).y < y || (point_spec(i).y == y && point_spec(i).x
                            < x)) {
                            TileType::Floor
                        } else {
                            orig[i]
                        },
                    mb.rooms == old(mb).rooms,
                    mb.monster_spawns == old(mb).monster_spawns,
                    mb.player_start == old(mb).player_start,
                    mb.amulet_start == old(mb).amulet_start,
                    mb.theme == old(mb).theme,
                decreases room.x2 - x,
            {
                if x > 0 && x < SCREEN_WIDTH && y > 0 && y < SCREEN_HEIGHT {
                    let idx = map_idx(x, y);
                    mb.map.tiles.set(idx, TileType::Floor);
                    proof {
                        lemma_idx_point(Point { x, y });
                    }
                }
                proof {
                    assert forall|i: int| 0 <= i < NUM_TILES implies #[trigger] mb.map.tiles@[i]
                        == if covers(*room, point_spec(i)) && (point_spec(i).y < y || (
                    point_spec(i).y == y && point_spec(i).x < x + 1)) {
                        TileType::Floor
                    } else {
                        orig[i]
                    } by {
                        lemma_point_idx(i);
                        if point_spec(i) == (Point { x, y }) {
                            assert(i == idx_of(x as int, y as int));
                        }
                    }
                }
                x = x + 1;
            }
            y = y + 1;
        }
    }

    /// Keeps `room` exactly when it touches no placed room: it is then
    /// appended to the rooms and carved into floor. Otherwise nothing
    /// changes.
    fn try_place_room(&self, room: Rect, mb: &mut MapBuilder) -> (placed: bool)
        requires
            old(mb).map.wf(),
            room_shape(room),
        ensures
            placed == forall|k: int|
                0 <= k < old(mb).rooms@.len() ==> !intersects(#[trigger] old(mb).rooms@[k], room),
            placed ==> {
                &&& final(mb).map.wf()
                &&& final(mb).rooms@ == old(mb).rooms@.push(room)
                &&& forall|i: int|
                    0 <= i < NUM_TILES ==> #[trigger] final(mb).map.tiles@[i] == if covers(
                        room,
                        point_spec(i),
                    ) {
                        TileType::Floor
                    } else {
                        old(mb).map.tiles@[i]
                    }
                &&& final(mb).monster_spawns == old(mb).monster_spawns
                &&& final(mb).player_start == old(mb).player_start
                &&& final(mb).amulet_start == old(mb).amulet_start
                &&& final(mb).theme == old(mb).theme
            },
            !placed ==> *final(mb) == *old(mb),
    {
        let mut overlap = false;
        let mut i: usize = 0;
        while i < mb.rooms.len() && !overlap
            invariant
                i <= mb.rooms@.len(),
                !overlap ==> forall|j: int| 0 <= j < i ==> !intersects(#[trigger] mb.rooms@[j], room),
                overlap ==> exists|j: int| 0 <= j < mb.rooms@.len() && #[trigger] intersects(mb.rooms@[j], room),
            decreases mb.rooms@.len() - i,
        {
            if mb.rooms[i].intersect(&room) {
                overlap = true;
            }
            i = i + 1;
        }
        if overlap {
            return false;
        }
        self.apply_room(&room, mb);
        mb.rooms.push(room);
        true
    }

    /// Draws candidate rooms until `NUM_ROOMS` of them are placed, rejecting
    /// any candidate that touches a placed room; each placed room is carved
    /// into floor at once. Gives up after `MAX_ROOM_ATTEMPTS` candidates.
    #[verifier::rlimit(50)]
    fn build_random_rooms(&mut self, rng: &mut RandomNumberGenerator, mb: &mut MapBuilder) -> (r:
        Result<(), GenError>)
        requires
            old(mb).map.wf(),
            old(mb).rooms@.len() == 0,
        ensures
            final(mb).map.wf(),
            forall|i: int|
                0 <= i < NUM_TILES ==> #[trigger] final(mb).map.tiles@[i] == if in_some_room(
                    final(mb).rooms@,
                    point_spec(i),
                ) {
                    TileType::Floor
                } else {
                    old(mb).map.tiles@[i]
                },
            keeps_floor(old(mb).map.tiles@, final(mb).map.tiles@),
            final(mb).rooms@.len() <= NUM_ROOMS,
            r is Ok ==> final(mb).rooms@.len() == NUM_ROOMS,
            disjoint_rooms(final(mb).rooms@),
            forall|k: int| 0 <= k < final(mb).rooms@.len() ==> room_shape(#[trigger] final(mb).rooms@[k]),
            rooms_open(final(mb).map.tiles@, final(mb).rooms@),
            final(mb).player_start == old(mb).player_start,
            final(mb).monster_spawns == old(mb).monster_spawns,
    {
        let ghost orig = mb.map.tiles@;
        let mut attempts: usize = 0;
        while mb.rooms.len() < NUM_ROOMS
            invariant
                mb.map.wf(),
                orig == old(mb).map.tiles@,
                orig.len() == NUM_TILES,
                forall|i: int|
                    0 <= i < NUM_TILES ==> #[trigger] mb.map.tiles@[i] == if in_some_room(
                        mb.rooms@,
                        point_spec(i),
                    ) {
                        TileType::Floor
                    } else {
                        orig[i]
                    },
                keeps_floor(orig, mb.map.tiles@),
                mb.rooms@.len() <= NUM_ROOMS,
                disjoint_rooms(mb.rooms@),
                forall|k: int| 0 <= k < mb.rooms@.len() ==> room_shape(#[trigger] mb.rooms@[k]),
                rooms_open(mb.map.tiles@, mb.rooms@),
                attempts <= MAX_ROOM_ATTEMPTS,
                mb.player_start == old(mb).player_start,
                mb.monster_spawns == old(mb).monster_spawns,
            decreases MAX_ROOM_ATTEMPTS - attempts,
        {
            if attempts == MAX_ROOM_ATTEMPTS {
                return Err(GenError::Exhausted);
            }
            attempts = attempts + 1;
            let x = range_i32(rng, 1, SCREEN_WIDTH - 10);
            let y = range_i32(rng, 1, SCREEN_HEIGHT - 10);
            let w = range_i32(rng, 2, 10);
            let h = range_i32(rng, 2, 10);
            let room = Rect::with_size(x, y, w, h);
            let ghost before = mb.map.tiles@;
            let ghost old_rooms = mb.rooms@;
            if self.try_place_room(room, mb) {
                proof {
                    let rs = mb.rooms@;
                    assert(rs[rs.len() - 1] == room);
                    assert forall|i: int| 0 <= i < NUM_TILES implies #[trigger] mb.map.tiles@[i]
                        == if in_some_room(rs, point_spec(i)) {
                        TileType::Floor
                    } else {
                        orig[i]
                    } by {
                        let p = point_spec(i);
                        if in_some_room(old_rooms, p) {
                            let k = choose|k: int| 0 <= k < old_rooms.len() && covers(old_rooms[k], p);
                            assert(rs[k] == old_rooms[k]);
                            assert(covers(rs[k], p));
                        }
                        if covers(room, p) {
                            assert(covers(rs[rs.len() - 1], p));
                        }
                        if in_some_room(rs, p) && !covers(room, p) {
                            let k = choose|k: int| 0 <= k < rs.len() && covers(rs[k], p);
                            assert(k < old_rooms.len());
                            assert(covers(old_rooms[k], p));
                        }
                    }
                    assert forall|k: int, p: Point|
                        0 <= k < rs.len() && #[trigger] covers(rs[k], p) implies mb.map.tiles@[idx_spec(p)]
                        == TileType::Floor by {
                        lemma_idx_point(p);
                        if k < rs.len() - 1 {
                            assert(before[idx_spec(p)] == TileType::Floor);
                        }
                    }
                    assert forall|a: int, b: int|
                        0 <= a < rs.len() && 0 <= b < rs.len() && a != b implies !intersects(
                        #[trigger] rs[a],
                        #[trigger] rs[b],
                    ) by {
                        if a == rs.len() - 1 {
                            assert(!intersects(old_rooms[b], room));
                        } else if b == rs.len() - 1 {
                            assert(!intersects(old_rooms[a], room));
                        }
                    }
                }
            }
        }
        Ok(())
    }

    /// The rooms in order of their centers' columns; rooms with equal
    /// columns keep their order.
    #[verifier::rlimit(50)]
    fn sort_by_center(&self, rooms: &Vec<Rect>) -> (r: Vec<Rect>)
        requires
            forall|k: int| 0 <= k < rooms@.len() ==> room_shape(#[trigger] rooms@[k]),
        ensures
            r@.len() == rooms@.len(),
            r@.to_multiset() == rooms@.to_multiset(),
            sorted_by_center(r@),
            forall|k: int| 0 <= k < r@.len() ==> rooms@.contains(#[trigger] r@[k]),
            forall|k: int| 0 <= k < r@.len() ==> room_shape(#[trigger] r@[k]),
            exists|perm: Seq<int>| #[trigger] stably_sorted_from(r@, rooms@, perm),
    {
        let mut v: Vec<Rect> = Vec::new();
        let mut i: usize = 0;
        while i < rooms.len()
            invariant
                i <= rooms@.len(),
                v@ == rooms@.subrange(0, i as int),
            decreases rooms@.len() - i,
        {
            v.push(rooms[i]);
            i = i + 1;
        }
        assert(v@ =~= rooms@);
        let n = v.len();
        let ghost mut perm: Seq<int> = Seq::new(n as nat, |k: int| k);
        let mut i: usize = 1;
        while i < n
            invariant
                v@.len() == n,
                n == rooms@.len(),
                v@.to_multiset() == rooms@.to_multiset(),
                forall|k: int| 0 <= k < n ==> rooms@.contains(#[trigger] v@[k]),
                forall|k: int| 0 <= k < n ==> room_shape(#[trigger] v@[k]),
                forall|a: int, b: int|
                    0 <= a < b < i && b < n ==> center_spec(#[trigger] v@[a]).x <= center_spec(
                        #[trigger] v@[b],
                    ).x,
                1 <= i || n == 0,
                perm.len() == n,
                forall|k: int| 0 <= k < n ==> 0 <= #[trigger] perm[k] < n && v@[k] == rooms@[perm[k]],
                forall|a: int, b: int| 0 <= a < b < n ==> #[trigger] perm[a] != #[trigger] perm[b],
                forall|k: int| i <= k < n ==> #[trigger] perm[k] == k,
                forall|k: int| 0 <= k < i && k < n ==> #[trigger] perm[k] < i,
                forall|a: int, b: int|
                    0 <= a < b < i && b < n && center_spec(v@[a]).x == center_spec(v@[b]).x
                        ==> #[trigger] perm[a] < #[trigger] perm[b],
            decreases n - i,
        {
            let mut j: usize = i;
            while j > 0 && v[j - 1].center().x > v[j].center().x
                invariant
                    0 <= j <= i < n,
                    v@.len() == n,
                    n == rooms@.len(),
                    v@.to_multiset() == rooms@.to_multiset(),
                    forall|k: int| 0 <= k < n ==> rooms@.contains(#[trigger] v@[k]),
                    forall|k: int| 0 <= k < n ==> room_shape(#[trigger] v@[k]),
                    forall|a: int, b: int|
                        0 <= a < b <= i && a != j && b != j ==> center_spec(#[trigger] v@[a]).x
                            <= center_spec(#[trigger] v@[b]).x,
                    forall|b: int|
                        j < b <= i ==> center_spec(v@[j as int]).x < center_spec(
                            #[trigger] v@[b],
                        ).x,
                    perm.len() == n,
                    forall|k: int| 0 <= k < n ==> 0 <= #[trigger] perm[k] < n && v@[k] == rooms@[perm[k]],
                    forall|a: int, b: int| 0 <= a < b < n ==> #[trigger] perm[a] != #[trigger] perm[b],
                    forall|k: int| i < k < n ==> #[trigger] perm[k] == k,
                    perm[j as int] == i,
                    forall|k: int| 0 <= k <= i && k != j ==> #[trigger] perm[k] < i,
                    forall|a: int, b: int|
                        0 <= a < b <= i && a != j && b != j && center_spec(v@[a]).x == center_spec(
                            v@[b],
                        ).x ==> #[trigger] perm[a] < #[trigger] perm[b],
                decreases j,
            {
                let ghost before = v@;
                let ghost pb = perm;
                let q = v[j - 1];
                let e = v[j];
                v.set(j - 1, e);
                v.set(j, q);
                proof {
                    perm = pb.update(j - 1, pb[j as int]).update(j as int, pb[j - 1]);
                    assert forall|a: int, b: int|
                        0 <= a < b <= i && a != j - 1 && b != j - 1 && center_spec(v@[a]).x
                            == center_spec(v@[b]).x implies #[trigger] perm[a] < #[trigger] perm[b] by {
                        if a == j {
                            assert(v@[a] == before[j - 1]);
                            assert(center_spec(before[j - 1]).x == center_spec(before[b]).x);
                        } else if b == j {
                            assert(v@[b] == before[j - 1]);
                            assert(center_spec(before[a]).x == center_spec(before[j - 1]).x);
                        } else {
                            assert(v@[a] == before[a] && v@[b] == before[b]);
                        }
                    }
                    assert forall|a: int, b: int| 0 <= a < b < n implies #[trigger] perm[a] != #[trigger] perm[b] by {
                        let ja = if a == j - 1 { j as int } else if a == j { j - 1 } else { a };
                        let jb = if b == j - 1 { j as int } else if b == j { j - 1 } else { b };
                        assert(perm[a] == pb[ja] && perm[b] == pb[jb]);
                        if ja < jb {
                            assert(pb[ja] != pb[jb]);
                        } else {
                            assert(pb[jb] != pb[ja]);
                        }
                    }
                    broadcast use vstd::seq_lib::group_to_multiset_ensures;
                    broadcast use vstd::multiset::group_multiset_properties;

                    let mid = before.update(j - 1, e);
                    assert(v@ == mid.update(j as int, q));
                    assert(mid.to_multiset() == before.to_multiset().insert(e).remove(q));
                    assert(v@.to_multiset() == mid.to_multiset().insert(q).remove(e));
                    assert(v@.to_multiset() =~= before.to_multiset());
                    assert forall|k: int| 0 <= k < n implies rooms@.contains(#[trigger] v@[k]) by {
                        if k == j - 1 {
                            assert(before[j as int] == v@[k]);
                        } else if k == j {
                            assert(before[j - 1] == v@[k]);
                        } else {
                            assert(before[k] == v@[k]);
                        }
                    }
                    assert forall|k: int| 0 <= k < n implies room_shape(#[trigger] v@[k]) by {
                        if k == j - 1 {
                            assert(room_shape(before[j as int]));
                        } else if k == j {
                            assert(room_shape(before[j - 1]));
                        } else {
                            assert(room_shape(before[k]));
                        }
                    }
                    assert forall|a: int, b: int|
                        0 <= a < b <= i && a != j - 1 && b != j - 1 implies center_spec(
                        #[trigger] v@[a],
                    ).x <= center_spec(#[trigger] v@[b]).x by {
                        if a == j {
                            assert(center_spec(before[j - 1]).x <= center_spec(before[b]).x);
                        } else if b == j {
                            assert(center_spec(before[a]).x <= center_spec(before[j - 1]).x);
                        } else {
                            assert(center_spec(before[a]).x <= center_spec(before[b]).x);
                        }
                    }
                    assert forall|b: int| j - 1 < b <= i implies center_spec(v@[j - 1]).x
                        < center_spec(#[trigger] v@[b]).x by {
                        if b > j {
                            assert(center_spec(before[j as int]).x < center_spec(before[b]).x);
                        }
                    }
                }
                j = j - 1;
            }
            proof {
                assert forall|a: int, b: int|
                    0 <= a < b < i + 1 && b < n && center_spec(v@[a]).x == center_spec(v@[b]).x
                        implies #[trigger] perm[a] < #[trigger] perm[b] by {
                    if b == j {
                    } else if a == j {
                        assert(center_spec(v@[j as int]).x < center_spec(v@[b]).x);
                    }
                }
                assert forall|a: int, b: int|
                    0 <= a < b < i + 1 && b < n implies center_spec(#[trigger] v@[a]).x
                    <= center_spec(#[trigger] v@[b]).x by {
                    if b == j {
                        if a < j - 1 {
                            assert(center_spec(v@[a]).x <= center_spec(v@[j - 1]).x);
                        }
                    } else if a == j {
                        assert(center_spec(v@[j as int]).x < center_spec(v@[b]).x);
                    }
                }
            }
            i = i + 1;
        }
        assert(stably_sorted_from(v@, rooms@, perm));
        v
    }

    /// Joins the centers of consecutive rooms, in order of their centers'
    /// columns, with L-shaped corridors whose bend is drawn at random. Gives
    /// back the rooms in that order.
    #[verifier::rlimit(50)]
    fn build_corridors(&mut self, rng: &mut RandomNumberGenerator, mb: &mut MapBuilder) -> (r: Vec<
        Rect,
    >)
        requires
            old(mb).map.wf(),
            forall|k: int| 0 <= k < old(mb).rooms@.len() ==> room_shape(#[trigger] old(mb).rooms@[k]),
        ensures
            final(mb).map.wf(),
            keeps_floor(old(mb).map.tiles@, final(mb).map.tiles@),
            final(mb).rooms == old(mb).rooms,
            final(mb).player_start == old(mb).player_start,
            final(mb).monster_spawns == old(mb).monster_spawns,
            final(mb).amulet_start == old(mb).amulet_start,
            final(mb).theme == old(mb).theme,
            forall|i: int|
                0 <= i < NUM_TILES ==> #[trigger] final(mb).map.tiles@[i] == old(mb).map.tiles@[i]
                    || final(mb).map.tiles@[i] == TileType::Floor,
            exists|perm: Seq<int>| #[trigger] stably_sorted_from(r@, old(mb).rooms@, perm),
            r@.len() == old(mb).rooms@.len(),
            r@.to_multiset() == old(mb).rooms@.to_multiset(),
            sorted_by_center(r@),
            forall|k: int| 0 <= k < r@.len() ==> old(mb).rooms@.contains(#[trigger] r@[k]),
            forall|k: int| 0 <= k < r@.len() ==> room_shape(#[trigger] r@[k]),
            forall|k: int|
                1 <= k < r@.len() ==> joined(
                    final(mb).map.tiles@,
                    center_spec(#[trigger] r@[k - 1]),
                    center_spec(r@[k]),
                ),
    {
        let rooms = self.sort_by_center(&mb.rooms);
        let ghost orig = mb.map.tiles@;
        let mut i: usize = 1;
        while i < rooms.len()
            invariant
                1 <= i,
                mb.map.wf(),
                orig.len() == NUM_TILES,
                keeps_floor(orig, mb.map.tiles@),
                forall|k: int| 0 <= k < rooms@.len() ==> room_shape(#[trigger] rooms@[k]),
                forall|k: int|
                    1 <= k < i && k < rooms@.len() ==> joined(
                        mb.map.tiles@,
                        center_spec(#[trigger] rooms@[k - 1]),
                        center_spec(rooms@[k]),
                    ),
                mb.rooms == old(mb).rooms,
                mb.player_start == old(mb).player_start,
                mb.monster_spawns == old(mb).monster_spawns,
                mb.amulet_start == old(mb).amulet_start,
                mb.theme == old(mb).theme,
                forall|j: int|
                    0 <= j < NUM_TILES ==> #[trigger] mb.map.tiles@[j] == orig[j] || mb.map.tiles@[j]
                        == TileType::Floor,
                orig == old(mb).map.tiles@,
            decreases rooms@.len() - i,
        {
            let prev = rooms[i - 1].center();
            let new = rooms[i].center();
            let ghost t0 = mb.map.tiles@;
            if range_i32(rng, 0, 2) == 1 {
                self.apply_horizontal_tunnel(prev.x, new.x, prev.y, mb);
                let ghost t1 = mb.map.tiles@;
                self.apply_vertical_tunnel(prev.y, new.y, new.x, mb);
                proof {
                    lemma_tunnel_keeps_floor(t0, t1);
                    lemma_tunnel_keeps_floor(t1, mb.map.tiles@);
                    lemma_horizontal_opened(t1, prev.x, new.x, prev.y);
                    lemma_keeps_horizontal(t1, mb.map.tiles@, prev.x, new.x, prev.y);
                    lemma_vertical_opened(mb.map.tiles@, prev.y, new.y, new.x);
                }
            } else {
                self.apply_vertical_tunnel(prev.y, new.y, prev.x, mb);
                let ghost t1 = mb.map.tiles@;
                self.apply_horizontal_tunnel(prev.x, new.x, new.y, mb);
                proof {
                    lemma_tunnel_keeps_floor(t0, t1);
                    lemma_tunnel_keeps_floor(t1, mb.map.tiles@);
                    lemma_vertical_opened(t1, prev.y, new.y, prev.x);
                    lemma_keeps_vertical(t1, mb.map.tiles@, prev.y, new.y, prev.x);
                    lemma_horizontal_opened(mb.map.tiles@, prev.x, new.x, new.y);
                }
            }
            proof {
                assert forall|k: int|
                    1 <= k < i + 1 && k < rooms@.len() implies joined(
                    mb.map.tiles@,
                    center_spec(#[trigger] rooms@[k - 1]),
                    center_spec(rooms@[k]),
                ) by {
                    if k < i {
                        lemma_keeps_joined(t0, mb.map.tiles@, center_spec(rooms@[k - 1]), center_spec(rooms@[k]));
                    }
                }
            }
            i = i + 1;
        }
        rooms
    }

    /// Builds a level of `NUM_ROOMS` rooms joined by corridors. The player
    /// starts at the center of the room whose center lies farthest left,
    /// the exit is the farthest reachable tile, and monsters spawn at the
    /// centers of the other rooms.
    #[verifier::rlimit(50)]
    pub fn new<F: Fn(&GridMap, usize) -> Vec<Option<u32>>>(
        &mut self,
        rng: &mut RandomNumberGenerator,
        distances: &F,
    ) -> (r: Result<MapBuilder, GenError>)
        requires
            field_query(distances),
        ensures
            r matches Ok(mb) ==> {
                &&& mb.placed()
                &&& mb.exit_is_farthest(distances)
                &&& mb.rooms@.len() == NUM_ROOMS
                &&& disjoint_rooms(mb.rooms@)
                &&& forall|k: int| 0 <= k < NUM_ROOMS ==> room_shape(#[trigger] mb.rooms@[k])
                &&& rooms_open(mb.map.tiles@, mb.rooms@)
                &&& exists|s: Seq<Rect>, perm: Seq<int>|
                    {
                        &&& #[trigger] stably_sorted_from(s, mb.rooms@, perm)
                        &&& s.len() == NUM_ROOMS
                        &&& mb.player_start == center_spec(s[0])
                        &&& forall|k: int|
                            1 <= k < NUM_ROOMS ==> joined(
                                mb.map.tiles@,
                                center_spec(#[trigger] s[k - 1]),
                                center_spec(s[k]),
                            )
                        &&& mb.monster_spawns@ == s.skip(1).map_values(|q: Rect| center_spec(q))
                    }
            },
    {
        let mut mb = MapBuilder::blank();
        mb.fill(TileType::Wall);
        self.build_random_rooms(rng, &mut mb)?;
        let ghost before = mb.map.tiles@;
        let sorted = self.build_corridors(rng, &mut mb);
        proof {
            assert forall|k: int, p: Point|
                0 <= k < mb.rooms@.len() && #[trigger] covers(mb.rooms@[k], p) implies mb.map.tiles@[idx_spec(p)]
                == TileType::Floor by {
                lemma_idx_point(p);
                assert(before[idx_spec(p)] == TileType::Floor);
            }
        }
        mb.player_start = sorted[0].center();
        proof {
            assert(mb.rooms@.contains(sorted@[0]));
            let k = choose|k: int| 0 <= k < mb.rooms@.len() && mb.rooms@[k] == sorted@[0];
            assert(covers(mb.rooms@[k], mb.player_start));
            lemma_idx_point(mb.player_start);
        }
        mb.place_exit(distances)?;
        let ghost placed_map = mb.map;
        let ghost placed_rooms = mb.rooms;
        let ghost start = mb.player_start;
        let ghost exit = mb.amulet_start;
        let mut i: usize = 1;
        while i < sorted.len()
            invariant
                1 <= i <= NUM_ROOMS,
                sorted@.len() == NUM_ROOMS,
                mb.map == placed_map,
                mb.rooms == placed_rooms,
                mb.player_start == start,
                mb.amulet_start == exit,
                mb.map.wf(),
                rooms_open(mb.map.tiles@, mb.rooms@),
                forall|k: int| 0 <= k < NUM_ROOMS ==> mb.rooms@.contains(#[trigger] sorted@[k]),
                forall|k: int| 0 <= k < NUM_ROOMS ==> room_shape(#[trigger] sorted@[k]),
                mb.monster_spawns@ == sorted@.subrange(1, i as int).map_values(
                    |q: Rect| center_spec(q),
                ),
                forall|k: int|
                    0 <= k < mb.monster_spawns@.len() ==> in_bounds_spec(
                        #[trigger] mb.monster_spawns@[k],
                    ) && mb.map.tile_at(mb.monster_spawns@[k]) == TileType::Floor,
            decreases NUM_ROOMS - i,
        {
            let c = sorted[i].center();
            proof {
                assert(mb.rooms@.contains(sorted@[i as int]));
                let k = choose|k: int| 0 <= k < mb.rooms@.len() && mb.rooms@[k] == sorted@[i as int];
                assert(covers(mb.rooms@[k], c));
                lemma_idx_point(c);
            }
            mb.monster_spawns.push(c);
            assert(mb.monster_spawns@ =~= sorted@.subrange(1, i as int + 1).map_values(
                |q: Rect| center_spec(q),
            ));
            i = i + 1;
        }
        assert(sorted@.skip(1) =~= sorted@.subrange(1, NUM_ROOMS as int));
        let ghost perm = choose|perm: Seq<int>| stably_sorted_from(sorted@, mb.rooms@, perm);
        assert(stably_sorted_from(sorted@, mb.rooms@, perm));
        Ok(mb)
    }
}

/// A tunnel only ever adds floor.
proof fn lemma_tunnel_keeps_floor(a: Seq<TileType>, b: Seq<TileType>)
    requires
        forall|i: int| 0 <= i < NUM_TILES ==> #[trigger] b[i] == TileType::Floor || b[i] == a[i],
    ensures
        keeps_floor(a, b),
{
}

proof fn lemma_horizontal_opened(t: Seq<TileType>, x1: i32, x2: i32, y: i32)
    requires
        forall|i: int| 0 <= i < NUM_TILES && on_horizontal(point_spec(i), x1, x2, y) ==> #[trigger] t[i] == TileType::Floor,
    ensures
        horizontal_open(t, x1, x2, y),
{
    assert forall|p: Point| in_bounds_spec(p) && #[trigger] on_horizontal(p, x1, x2, y) implies t[idx_spec(p)] == TileType::Floor by {
        lemma_idx_point(p);
    }
}

proof fn lemma_vertical_opened(t: Seq<TileType>, y1: i32, y2: i32, x: i32)
    requires
        forall|i: int| 0 <= i < NUM_TILES && on_vertical(point_spec(i), y1, y2, x) ==> #[trigger] t[i] == TileType::Floor,
    ensures
        vertical_open(t, y1, y2, x),
{
    assert forall|p: Point| in_bounds_spec(p) && #[trigger] on_vertical(p, y1, y2, x) implies t[idx_spec(p)] == TileType::Floor by {
        lemma_idx_point(p);
    }
}

proof fn lemma_keeps_horizontal(a: Seq<TileType>, b: Seq<TileType>, x1: i32, x2: i32, y: i32)
    requires
        keeps_floor(a, b),
        horizontal_open(a, x1, x2, y),
    ensures
        horizontal_open(b, x1, x2, y),
{
    assert forall|p: Point| in_bounds_spec(p) && #[trigger] on_horizontal(p, x1, x2, y) implies b[idx_spec(p)] == TileType::Floor by {
        lemma_idx_point(p);
    }
}

proof fn lemma_keeps_vertical(a: Seq<TileType>, b: Seq<TileType>, y1: i32, y2: i32, x: i32)
    requires
        keeps_floor(a, b),
        vertical_open(a, y1, y2, x),
    ensures
        vertical_open(b, y1, y2, x),
{
    assert forall|p: Point| in_bounds_spec(p) && #[trigger] on_vertical(p, y1, y2, x) implies b[idx_spec(p)] == TileType::Floor by {
        lemma_idx_point(p);
    }
}

proof fn lemma_keeps_joined(a: Seq<TileType>, b: Seq<TileType>, p: Point, q: Point)
    requires
        keeps_floor(a, b),
        joined(a, p, q),
    ensures
        joined(b, p, q),
{
    if horizontal_open(a, p.x, q.x, p.y) && vertical_open(a, p.y, q.y, q.x) {
        lemma_keeps_horizontal(a, b, p.x, q.x, p.y);
        lemma_keeps_vertical(a, b, p.y, q.y, q.x);
    } else {
        lemma_keeps_vertical(a, b, p.y, q.y, p.x);
        lemma_keeps_horizontal(a, b, p.x, q.x, q.y);
    }
}

} // verus!
