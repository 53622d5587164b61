use crate::map::{idx_spec, in_bounds_spec, GridMap, Point, TileType};
use vstd::prelude::*;

verus! {

/// A request to move from one tile to another.
#[derive(Clone, Copy, Debug, PartialEq, Eq, Structural)]
pub struct MoveRequest {
    pub from: Point,
    pub destination: Point,
}

/// A move may go ahead: the destination is an enterable tile that nobody
/// holds.
pub open spec fn move_allowed(held: Set<Point>, dest: Point, tiles: Seq<TileType>) -> bool {
    in_bounds_spec(dest) && tiles[idx_spec(dest)] != TileType::Wall && !held.contains(dest)
}

/// The tiles held once the first `n` requests have been handled in order:
/// each move that goes ahead frees its origin and takes its destination.
pub open spec fn held_after(
    held: Set<Point>,
    moves: Seq<MoveRequest>,
    tiles: Seq<TileType>,
    n: int,
) -> Set<Point>
    decreases n,
{
    if n <= 0 {
        held
    } else {
        let prev = held_after(held, moves, tiles, n - 1);
        let m = moves[n - 1];
        if move_allowed(prev, m.destination, tiles) {
            prev.remove(m.from).insert(m.destination)
        } else {
            prev
        }
    }
}

/// `v` holds `p`.
fn holds(v: &Vec<Point>, p: Point) -> (r: bool)
    ensures
        r == v@.contains(p),
{
    let mut i: usize = 0;
    while i < v.len()
        invariant
            i <= v@.len(),
            forall|k: int| 0 <= k < i ==> v@[k] != p,
        decreases v@.len() - i,
    {
        if v[i] == p {
            return true;
        }
        i = i + 1;
    }
    false
}

/// `v` without any copy of `p`.
fn without(v: &Vec<Point>, p: Point) -> (r: Vec<Point>)
    ensures
        forall|q: Point| r@.contains(q) <==> (v@.contains(q) && q != p),
{
    let mut out: Vec<Point> = Vec::new();
    let mut i: usize = 0;
    while i < v.len()
        invariant
            i <= v@.len(),
            forall|q: Point| out@.contains(q) <==> (v@.subrange(0, i as int).contains(q) && q != p),
        decreases v@.len() - i,
    {
        let ghost before = out@;
        let q = v[i];
        if q != p {
            out.push(q);
        }
        proof {
            let pre = v@.subrange(0, i as int);
            let post = v@.subrange(0, i as int + 1);
            assert(post =~= pre.push(q));
            assert forall|x: Point| out@.contains(x) <==> (post.contains(x) && x != p) by {
                if out@.contains(x) && !before.contains(x) {
                    let k = choose|k: int| 0 <= k < out@.len() && out@[k] == x;
                    assert(k == before.len());
                }
                if before.contains(x) {
                    let k = choose|k: int| 0 <= k < before.len() && before[k] == x;
                    assert(out@[k] == x);
                }
                if post.contains(x) && x != q {
                    let k = choose|k: int| 0 <= k < post.len() && post[k] == x;
                    assert(pre[k] == x);
                }
                if pre.contains(x) {
                    let k = choose|k: int| 0 <= k < pre.len() && pre[k] == x;
                    assert(post[k] == x);
                }
                if x == q && q != p {
                    assert(out@[out@.len() - 1] == x);
                    assert(post[i as int] == x);
                }
            }
        }
        i = i + 1;
    }
    assert(v@.subrange(0, v@.len() as int) =~= v@);
    out
}

/// Handles move requests in order, given the tiles that monsters and the
/// player stand on. A move goes ahead when its destination can be entered
/// and nobody holds it; it then frees its origin and holds its destination.
/// Gives, for each request, whether it went ahead.
#[verifier::rlimit(50)]
pub fn movement(occupied: &Vec<Point>, moves: &Vec<MoveRequest>, map: &GridMap) -> (r: Vec<bool>)
    requires
        map.wf(),
    ensures
        r@.len() == moves@.len(),
        forall|k: int|
            0 <= k < moves@.len() ==> #[trigger] r@[k] == move_allowed(
                held_after(Set::new(|q: Point| occupied@.contains(q)), moves@, map.tiles@, k),
                moves@[k].destination,
                map.tiles@,
            ),
{
    let ghost start = Set::new(|q: Point| occupied@.contains(q));
    let mut held: Vec<Point> = Vec::new();
    let mut j: usize = 0;
    while j < occupied.len()
        invariant
            j <= occupied@.len(),
            held@ == occupied@.subrange(0, j as int),
        decreases occupied@.len() - j,
    {
        held.push(occupied[j]);
        j = j + 1;
    }
    assert(held@ =~= occupied@);
    let mut accepted: Vec<bool> = Vec::new();
    let mut i: usize = 0;
    while i < moves.len()
        invariant
            map.wf(),
            i <= moves@.len(),
            accepted@.len() == i,
            forall|q: Point| held@.contains(q) <==> held_after(start, moves@, map.tiles@, i as int).contains(q),
            forall|k: int|
                0 <= k < i ==> #[trigger] accepted@[k] == move_allowed(
                    held_after(start, moves@, map.tiles@, k),
                    moves@[k].destination,
                    map.tiles@,
                ),
        decreases moves@.len() - i,
    {
        let m = moves[i];
        let ghost prev = held_after(start, moves@, map.tiles@, i as int);
        let ok = map.can_enter_tile(m.destination) && !holds(&held, m.destination);
        assert(ok == move_allowed(prev, m.destination, map.tiles@));
        if ok {
            let mut next = without(&held, m.from);
            let ghost w = next@;
            next.push(m.destination);
            proof {
                assert(next@.drop_last() =~= w);
                assert forall|q: Point| next@.contains(q) <==> prev.remove(m.from).insert(
                    m.destination,
                ).contains(q) by {
                    if q == m.destination {
                        assert(next@[next@.len() - 1] == q);
                    } else {
                        if next@.contains(q) {
                            let k = choose|k: int| 0 <= k < next@.len() && next@[k] == q;
                            assert(w[k] == q);
                        }
                        if w.contains(q) {
                            let k = choose|k: int| 0 <= k < w.len() && w[k] == q;
                            assert(next@[k] == q);
                        }
                        assert(next@.contains(q) <==> w.contains(q));
                        assert(w.contains(q) <==> (held@.contains(q) && q != m.from));
                    }
                }
            }
            held = next;
        }
        accepted.push(ok);
        i = i + 1;
    }
    accepted
}

} // verus!
