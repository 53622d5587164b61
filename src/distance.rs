use crate::map::{
    idx_spec, in_bounds_spec, lemma_idx_point, GridMap, Point, TileType, NUM_TILES,
};
use crate::rng::random_slice_index;
use bracket_random::prelude::RandomNumberGenerator;
use vstd::prelude::*;

verus! {

/// Depth past which the distance field gives up and reports a tile unreachable.
pub const MAX_DEPTH: u32 = 1024;

/// Spawn points lie at least this many steps from the player.
pub const MIN_SPAWN_DISTANCE: u32 = 10;

/// Most monsters placed on one level.
pub const NUM_MONSTERS: usize = 50;

/// Index `i` holds the greatest finite distance of `d`, and no later index
/// holds as much (ties go to the last tile in scan order).
pub open spec fn is_farthest(d: Seq<Option<u32>>, i: int) -> bool {
    &&& 0 <= i < d.len()
    &&& d[i] is Some
    &&& forall|j: int| 0 <= j < d.len() && d[j] is Some ==> d[j].unwrap() <= d[i].unwrap()
    &&& forall|j: int| i < j < d.len() && d[j] is Some ==> d[j].unwrap() < d[i].unwrap()
}

/// No tile of the field is reachable.
pub open spec fn all_unreachable(d: Seq<Option<u32>>) -> bool {
    forall|j: int| 0 <= j < d.len() ==> d[j] is None
}

/// A point where a monster may appear: a reachable floor tile at least
/// `MIN_SPAWN_DISTANCE` steps from the source of the field.
pub open spec fn spawnable(tiles: Seq<TileType>, d: Seq<Option<u32>>, p: Point) -> bool {
    &&& in_bounds_spec(p)
    &&& tiles[idx_spec(p)] == TileType::Floor
    &&& d[idx_spec(p)] is Some
    &&& d[idx_spec(p)].unwrap() >= MIN_SPAWN_DISTANCE
}

/// The points appear in strictly increasing scan order.
pub open spec fn scan_ordered(s: Seq<Point>) -> bool {
    forall|a: int, b: int| 0 <= a < b < s.len() ==> idx_spec(s[a]) < idx_spec(s[b])
}

/// The farthest reachable tile of a field is unique: asking again on the same
/// field gives the same tile.
pub proof fn lemma_farthest_unique(d: Seq<Option<u32>>, i: int, j: int)
    requires
        is_farthest(d, i),
        is_farthest(d, j),
    ensures
        i == j,
{
    if i < j {
        assert(d[j].unwrap() < d[i].unwrap());
    } else if j < i {
        assert(d[i].unwrap() < d[j].unwrap());
    }
}

/// Index of the farthest reachable tile, or `None` when nothing is reachable.
pub fn farthest_index(d: &Vec<Option<u32>>) -> (r: Option<usize>)
    ensures
        r is None <==> all_unreachable(d@),
        r matches Some(i) ==> is_farthest(d@, i as int),
{
    let mut best: Option<usize> = None;
    let mut i: usize = 0;
    while i < d.len()
        invariant
            i <= d@.len(),
            best is None <==> all_unreachable(d@.subrange(0, i as int)),
            best matches Some(b) ==> is_farthest(d@.subrange(0, i as int), b as int),
        decreases d@.len() - i,
    {
        proof {
            assert forall|j: int| 0 <= j < i implies d@.subrange(0, i as int + 1)[j]
                == d@.subrange(0, i as int)[j] by {}
        }
        match d[i] {
            Some(v) => {
                match best {
                    Some(b) => {
                        if v >= d[b].unwrap() {
                            best = Some(i);
                        }
                    },
                    None => {
                        best = Some(i);
                    },
                }
            },
            None => {},
        }
        i = i + 1;
    }
    assert(d@.subrange(0, d@.len() as int) =~= d@);
    best
}

/// Every reachable floor tile at least `MIN_SPAWN_DISTANCE` steps away, in
/// scan order.
#[verifier::rlimit(50)]
pub fn spawnable_tiles(map: &GridMap, d: &Vec<Option<u32>>) -> (r: Vec<Point>)
    requires
        map.wf(),
        d@.len() == NUM_TILES,
    ensures
        forall|p: Point| r@.contains(p) <==> spawnable(map.tiles@, d@, p),
        scan_ordered(r@),
        r@.len() <= NUM_TILES,
{
    let mut out: Vec<Point> = Vec::new();
    let mut i: usize = 0;
    while i < NUM_TILES
        invariant
            map.wf(),
            d@.len() == NUM_TILES,
            i <= NUM_TILES,
            out@.len() <= i,
            forall|p: Point|
                out@.contains(p) <==> (spawnable(map.tiles@, d@, p) && idx_spec(p) < i),
            forall|k: int| 0 <= k < out@.len() ==> idx_spec(#[trigger] out@[k]) < i,
            scan_ordered(out@),
        decreases NUM_TILES - i,
    {
        let p = map.index_to_point2d(i);
        let keep = map.tiles[i] == TileType::Floor && match d[i] {
            Some(v) => v >= MIN_SPAWN_DISTANCE,
            None => false,
        };
        let ghost prev = out@;
        if keep {
            out.push(p);
        }
        proof {
            assert forall|q: Point|
                out@.contains(q) <==> (spawnable(map.tiles@, d@, q) && idx_spec(q) < i + 1) by {
                if spawnable(map.tiles@, d@, q) && idx_spec(q) == i {
                    lemma_idx_point(q);
                    assert(q == p);
                    assert(out@[out@.len() - 1] == q);
                }
                if out@.contains(q) && !prev.contains(q) {
                    let k = choose|k: int| 0 <= k < out@.len() && out@[k] == q;
                    assert(k == prev.len());
                }
                if prev.contains(q) {
                    let k = choose|k: int| 0 <= k < prev.len() && prev[k] == q;
                    assert(out@[k] == q);
                }
            }
        }
        i = i + 1;
    }
    out
}

/// Draws up to `NUM_MONSTERS` points from `pool` without replacement.
#[verifier::rlimit(50)]
pub fn pick_spawns(rng: &mut RandomNumberGenerator, pool: Vec<Point>) -> (r: Vec<Point>)
    requires
        pool@.len() <= NUM_TILES,
        pool@.no_duplicates(),
    ensures
        r@.len() == if pool@.len() < NUM_MONSTERS {
            pool@.len()
        } else {
            NUM_MONSTERS as nat
        },
        r@.no_duplicates(),
        forall|k: int| 0 <= k < r@.len() ==> pool@.contains(#[trigger] r@[k]),
        r@.len() < NUM_MONSTERS ==> forall|k: int| 0 <= k < pool@.len() ==> r@.contains(
            #[trigger] pool@[k],
        ),
{
    let ghost orig = pool@;
    let mut pool = pool;
    let mut spawns: Vec<Point> = Vec::new();
    let mut n: usize = 0;
    while n < NUM_MONSTERS
        invariant
            n <= NUM_MONSTERS,
            orig.len() <= NUM_TILES,
            spawns@.len() + pool@.len() == orig.len(),
            spawns@.len() == n || (pool@.len() == 0 && spawns@.len() == orig.len()),
            spawns@.len() <= n,
            pool@.no_duplicates(),
            spawns@.no_duplicates(),
            forall|k: int| 0 <= k < pool@.len() ==> orig.contains(#[trigger] pool@[k]),
            forall|k: int| 0 <= k < spawns@.len() ==> orig.contains(#[trigger] spawns@[k]),
            forall|k: int| 0 <= k < spawns@.len() ==> !pool@.contains(#[trigger] spawns@[k]),
            forall|k: int|
                0 <= k < orig.len() ==> pool@.contains(#[trigger] orig[k]) || spawns@.contains(
                    orig[k],
                ),
        decreases NUM_MONSTERS - n,
    {
        match random_slice_index(rng, &pool) {
            Some(t) => {
                let ghost before = pool@;
                let ghost sb = spawns@;
                let chosen = pool[t];
                spawns.push(chosen);
                pool.remove(t);
                proof {
                    assert(pool@ =~= before.subrange(0, t as int) + before.subrange(
                        t as int + 1,
                        before.len() as int,
                    ));
                    assert forall|k: int| 0 <= k < pool@.len() implies #[trigger] pool@[k]
                        == before[if k < t {
                        k
                    } else {
                        k + 1
                    }] by {}
                    assert forall|k: int| 0 <= k < pool@.len() implies orig.contains(
                        #[trigger] pool@[k],
                    ) by {
                        let j = if k < t {
                            k
                        } else {
                            k + 1
                        };
                        assert(pool@[k] == before[j]);
                    }
                    assert forall|a: int, b: int|
                        0 <= a < pool@.len() && 0 <= b < pool@.len() && a != b implies pool@[a]
                        != pool@[b] by {
                        let ja = if a < t {
                            a
                        } else {
                            a + 1
                        };
                        let jb = if b < t {
                            b
                        } else {
                            b + 1
                        };
                        assert(pool@[a] == before[ja]);
                        assert(pool@[b] == before[jb]);
                    }
                    assert forall|k: int| 0 <= k < spawns@.len() implies !pool@.contains(
                        #[trigger] spawns@[k],
                    ) by {
                        if pool@.contains(spawns@[k]) {
                            let m = choose|m: int| 0 <= m < pool@.len() && pool@[m] == spawns@[k];
                            let jm = if m < t {
                                m
                            } else {
                                m + 1
                            };
                            assert(pool@[m] == before[jm]);
                            if k == spawns@.len() - 1 {
                                assert(before[t as int] == before[jm]);
                            } else {
                                assert(before.contains(spawns@[k]));
                            }
                        }
                    }
                    assert forall|a: int, b: int|
                        0 <= a < spawns@.len() && 0 <= b < spawns@.len() && a != b implies spawns@[a]
                        != spawns@[b] by {
                        if a == spawns@.len() - 1 {
                            assert(before.contains(spawns@[a]));
                        } else if b == spawns@.len() - 1 {
                            assert(before.contains(spawns@[b]));
                        }
                    }
                    assert forall|k: int| 0 <= k < orig.len() implies pool@.contains(
                        #[trigger] orig[k],
                    ) || spawns@.contains(orig[k]) by {
                        if before.contains(orig[k]) {
                            let m = choose|m: int| 0 <= m < before.len() && before[m] == orig[k];
                            if m == t {
                                assert(spawns@[spawns@.len() - 1] == orig[k]);
                            } else if m < t {
                                assert(pool@[m] == orig[k]);
                            } else {
                                assert(pool@[m - 1] == orig[k]);
                            }
                        } else {
                            assert(sb.contains(orig[k]));
                            let m = choose|m: int| 0 <= m < sb.len() && sb[m] == orig[k];
                            assert(spawns@[m] == orig[k]);
                        }
                    }
                    assert forall|k: int| 0 <= k < spawns@.len() implies orig.contains(
                        #[trigger] spawns@[k],
                    ) by {
                        if k == spawns@.len() - 1 {
                            assert(before[t as int] == spawns@[k]);
                        }
                    }
                }
            },
            None => {},
        }
        n = n + 1;
    }
    spawns
}

} // verus!
