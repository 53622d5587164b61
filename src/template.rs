use crate::map::Point;
use crate::rng::random_slice_index;
use bracket_random::prelude::RandomNumberGenerator;
use std::collections::HashSet;
use vstd::prelude::*;

verus! {

/// Whether a template describes a monster or an item.
#[derive(Clone, Copy, Debug, PartialEq, Eq, Structural)]
pub enum EntityType {
    Enemy,
    Item,
}

/// One kind of monster or item, as the data file lists it.
#[derive(Debug)]
pub struct Template {
    pub entity_type: EntityType,
    pub levels: HashSet<usize>,
    pub frequency: i32,
    pub name: String,
    pub glyph: char,
    pub provides: Option<Vec<(String, i32)>>,
    pub hp: Option<i32>,
    pub base_damage: Option<i32>,
}

/// Every template the game knows.
#[derive(Debug)]
pub struct Templates {
    pub entities: Vec<Template>,
}

/// `k` copies of `i`.
pub open spec fn copies(i: usize, k: int) -> Seq<usize> {
    Seq::new(if k > 0 { k as nat } else { 0 }, |_j: int| i)
}

/// The weighted pool of the first `n` templates for `level`: the index of
/// each template that may appear there, `frequency` times over.
pub open spec fn pool_of(t: Seq<Template>, level: usize, n: int) -> Seq<usize>
    decreases n,
{
    if n <= 0 {
        Seq::empty()
    } else {
        pool_of(t, level, n - 1) + if t[n - 1].levels@.contains(level) {
            copies((n - 1) as usize, t[n - 1].frequency as int)
        } else {
            Seq::empty()
        }
    }
}

impl Templates {
    /// The weighted pool of templates for `level`, as indices into
    /// `entities`.
    pub fn available_entities(&self, level: usize) -> (r: Vec<usize>)
        ensures
            r@ == pool_of(self.entities@, level, self.entities@.len() as int),
    {
        let mut pool: Vec<usize> = Vec::new();
        let mut i: usize = 0;
        while i < self.entities.len()
            invariant
                i <= self.entities@.len(),
                pool@ == pool_of(self.entities@, level, i as int),
            decreases self.entities@.len() - i,
        {
            let t = &self.entities[i];
            if t.levels.contains(&level) {
                let ghost start = pool@;
                let mut k: i32 = 0;
                while k < t.frequency
                    invariant
                        0 <= k,
                        t.frequency <= 0 ==> k == 0,
                        t.frequency > 0 ==> k <= t.frequency,
                        pool@ == start + copies(i, k as int),
                    decreases t.frequency - k,
                {
                    pool.push(i);
                    k = k + 1;
                    assert(pool@ =~= start + copies(i, k as int));
                }
                assert(pool@ =~= pool_of(self.entities@, level, i as int + 1));
            } else {
                assert(pool@ =~= pool_of(self.entities@, level, i as int + 1));
            }
            i = i + 1;
        }
        pool
    }

    /// For each spawn point in turn, draws a template for `level` from the
    /// weighted pool. Nothing is drawn when no template belongs to `level`,
    /// or when the pool holds `i32::MAX` entries or more.
    pub fn spawn_entities(
        &self,
        rng: &mut RandomNumberGenerator,
        level: usize,
        spawn_points: &Vec<Point>,
    ) -> (r: Vec<(Point, usize)>)
        ensures
            ({
                let pool = pool_of(self.entities@, level, self.entities@.len() as int);
                &&& r@.len() == if pool.len() == 0 || pool.len() >= i32::MAX {
                    0
                } else {
                    spawn_points@.len()
                }
                &&& forall|k: int|
                    0 <= k < r@.len() ==> (#[trigger] r@[k]).0 == spawn_points@[k]
                        && pool.contains(r@[k].1)
            }),
    {
        let available = self.available_entities(level);
        let mut chosen: Vec<(Point, usize)> = Vec::new();
        if available.len() >= i32::MAX as usize {
            return chosen;
        }
        let mut i: usize = 0;
        while i < spawn_points.len()
            invariant
                available@ == pool_of(self.entities@, level, self.entities@.len() as int),
                available@.len() < i32::MAX,
                i <= spawn_points@.len(),
                chosen@.len() == if available@.len() == 0 {
                    0
                } else {
                    i as nat
                },
                forall|k: int|
                    0 <= k < chosen@.len() ==> (#[trigger] chosen@[k]).0 == spawn_points@[k]
                        && available@.contains(chosen@[k].1),
            decreases spawn_points@.len() - i,
        {
            if let Some(e) = random_slice_index(rng, &available) {
                chosen.push((spawn_points[i], available[e]));
            }
            i = i + 1;
        }
        chosen
    }
}

} // verus!
