use vstd::prelude::*;

verus! {

/// Width of the dungeon grid, in tiles.
pub const SCREEN_WIDTH: i32 = 80;

/// Height of the dungeon grid, in tiles.
pub const SCREEN_HEIGHT: i32 = 50;

/// Number of tiles in the grid (`SCREEN_WIDTH * SCREEN_HEIGHT`).
pub const NUM_TILES: usize = 4000;

/// What a single grid cell holds.
#[derive(Clone, Copy, Debug, PartialEq, Eq, Structural)]
pub enum TileType {
    Wall,
    Floor,
    Exit,
}

/// An integer grid coordinate.
#[derive(Clone, Copy, Debug, PartialEq, Eq, Hash, Structural)]
pub struct Point {
    pub x: i32,
    pub y: i32,
}

impl Point {
    pub fn new(x: i32, y: i32) -> (r: Point)
        ensures
            r.x == x,
            r.y == y,
    {
        Point { x, y }
    }

    pub fn zero() -> (r: Point)
        ensures
            r.x == 0,
            r.y == 0,
    {
        Point { x: 0, y: 0 }
    }
}

/// The point lies on the grid.
pub open spec fn in_bounds_spec(p: Point) -> bool {
    0 <= p.x < SCREEN_WIDTH && 0 <= p.y < SCREEN_HEIGHT
}

/// The point lies on the outermost ring of the grid.
pub open spec fn on_border(p: Point) -> bool {
    p.x == 0 || p.x == SCREEN_WIDTH - 1 || p.y == 0 || p.y == SCREEN_HEIGHT - 1
}

/// Row-major index of a coordinate.
pub open spec fn idx_of(x: int, y: int) -> int {
    x + y * SCREEN_WIDTH
}

/// Row-major index of a point.
pub open spec fn idx_spec(p: Point) -> int {
    idx_of(p.x as int, p.y as int)
}

/// The point that a row-major index denotes.
pub open spec fn point_spec(i: int) -> Point {
    Point { x: (i % SCREEN_WIDTH as int) as i32, y: (i / SCREEN_WIDTH as int) as i32 }
}

/// Index and point conversions are inverse on the grid.
pub proof fn lemma_idx_point(p: Point)
    requires
        in_bounds_spec(p),
    ensures
        0 <= idx_spec(p) < NUM_TILES,
        point_spec(idx_spec(p)) == p,
{
    let x = p.x as int;
    let y = p.y as int;
    assert((x + y * 80) % 80 == x && (x + y * 80) / 80 == y && 0 <= x + y * 80 < 4000)
        by (nonlinear_arith)
        requires
            0 <= x < 80,
            0 <= y < 50,
    ;
}

/// Every index of the grid denotes an in-bounds point with that index.
pub proof fn lemma_point_idx(i: int)
    requires
        0 <= i < NUM_TILES,
    ensures
        in_bounds_spec(point_spec(i)),
        idx_spec(point_spec(i)) == i,
{
    assert(0 <= i % 80 < 80 && 0 <= i / 80 < 50 && (i % 80) + (i / 80) * 80 == i)
        by (nonlinear_arith)
        requires
            0 <= i < 4000,
    ;
}

/// Number of `Floor` tiles in a sequence of tiles.
pub open spec fn count_floor(s: Seq<TileType>) -> nat
    decreases s.len(),
{
    if s.len() == 0 {
        0
    } else {
        count_floor(s.drop_last()) + (if s.last() == TileType::Floor {
            1nat
        } else {
            0nat
        })
    }
}

/// Row-major index of an in-bounds coordinate.
pub fn map_idx(x: i32, y: i32) -> (r: usize)
    requires
        0 <= x < SCREEN_WIDTH,
        0 <= y < SCREEN_HEIGHT,
    ensures
        r == idx_of(x as int, y as int),
        r < NUM_TILES,
{
    proof {
        lemma_idx_point(Point { x, y });
    }
    (x + y * SCREEN_WIDTH) as usize
}

/// The tile grid of one level.
pub struct GridMap {
    pub tiles: Vec<TileType>,
}

impl GridMap {
    /// The tile array covers the whole grid.
    pub open spec fn wf(&self) -> bool {
        self.tiles@.len() == NUM_TILES
    }

    /// The tile at an in-bounds point.
    pub open spec fn tile_at(&self, p: Point) -> TileType {
        self.tiles@[idx_spec(p)]
    }

    /// A grid of `Floor` tiles.
    pub fn new() -> (r: GridMap)
        ensures
            r.wf(),
            forall|i: int| 0 <= i < NUM_TILES ==> r.tiles@[i] == TileType::Floor,
    {
        GridMap { tiles: vec![TileType::Floor; NUM_TILES] }
    }

    pub fn in_bounds(&self, p: Point) -> (r: bool)
        ensures
            r == in_bounds_spec(p),
    {
        0 <= p.x && p.x < SCREEN_WIDTH && 0 <= p.y && p.y < SCREEN_HEIGHT
    }

    /// Bounds-checked index of a point.
    pub fn try_idx(&self, p: Point) -> (r: Option<usize>)
        ensures
            r == (if in_bounds_spec(p) {
                Some(idx_spec(p) as usize)
            } else {
                None
            }),
            r matches Some(i) ==> i < NUM_TILES,
    {
        if self.in_bounds(p) {
            Some(map_idx(p.x, p.y))
        } else {
            None
        }
    }

    /// Index of a point already known to be in bounds.
    pub fn point2d_to_index(&self, p: Point) -> (r: usize)
        requires
            in_bounds_spec(p),
        ensures
            r == idx_spec(p),
            r < NUM_TILES,
    {
        map_idx(p.x, p.y)
    }

    /// Point denoted by an index of the grid.
    pub fn index_to_point2d(&self, i: usize) -> (r: Point)
        requires
            i < NUM_TILES,
        ensures
            r == point_spec(i as int),
            in_bounds_spec(r),
            idx_spec(r) == i,
    {
        proof {
            lemma_point_idx(i as int);
        }
        Point { x: (i % 80) as i32, y: (i / 80) as i32 }
    }

    /// The point is on the grid and not a wall.
    pub fn can_enter_tile(&self, p: Point) -> (r: bool)
        requires
            self.wf(),
        ensures
            r == (in_bounds_spec(p) && self.tile_at(p) != TileType::Wall),
    {
        match self.try_idx(p) {
            Some(i) => self.tiles[i] != TileType::Wall,
            None => false,
        }
    }

    /// Sets every tile to `tile`.
    pub fn fill(&mut self, tile: TileType)
        requires
            old(self).wf(),
        ensures
            final(self).wf(),
            forall|i: int| 0 <= i < NUM_TILES ==> final(self).tiles@[i] == tile,
    {
        let mut i: usize = 0;
        while i < self.tiles.len()
            invariant
                self.wf(),
                i <= NUM_TILES,
                forall|j: int| 0 <= j < i ==> self.tiles@[j] == tile,
            decreases NUM_TILES - i,
        {
            self.tiles.set(i, tile);
            i = i + 1;
        }
    }

    /// Number of `Floor` tiles on the grid.
    pub fn floor_count(&self) -> (r: usize)
        requires
            self.wf(),
        ensures
            r == count_floor(self.tiles@),
    {
        let mut n: usize = 0;
        let mut i: usize = 0;
        while i < self.tiles.len()
            invariant
                self.wf(),
                i <= NUM_TILES,
                n == count_floor(self.tiles@.subrange(0, i as int)),
                n <= i,
            decreases NUM_TILES - i,
        {
            proof {
                let s = self.tiles@.subrange(0, i as int + 1);
                assert(s.drop_last() =~= self.tiles@.subrange(0, i as int));
            }
            if self.tiles[i] == TileType::Floor {
                n = n + 1;
            }
            i = i + 1;
        }
        assert(self.tiles@.subrange(0, NUM_TILES as int) =~= self.tiles@);
        n
    }
}

} // verus!
