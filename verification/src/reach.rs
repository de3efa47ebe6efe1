//! Multi-hop movement: the cheapest MP cost of every location a unit can
//! reach, avoiding enemy-occupied locations.

use vstd::prelude::*;

use crate::game::{side_occupies, GameState};
use crate::map::{
    law_edge_symmetric, lemma_adj_agrees, lemma_loc_at_bounds, lemma_loc_idx_bounds, loc_at, loc_idx, spec_adj,
    Location,
};
use crate::movement::{enemy_of, spec_move_cost};
use crate::units::Side;

verus! {

/// Does an enemy of unit `i` stand at `v`?
pub open spec fn spec_blocked(g: GameState, i: int, v: Location) -> bool {
    side_occupies(g.units@, enemy_of(g.units@[i].side), v)
}

pub open spec fn opt_min(a: Option<int>, b: Option<int>) -> Option<int> {
    match (a, b) {
        (None, _) => b,
        (_, None) => a,
        (Some(x), Some(y)) => Some(if y < x { y } else { x }),
    }
}

pub open spec fn opt_view(o: Option<i32>) -> Option<int> {
    match o {
        Some(x) => Some(x as int),
        None => None,
    }
}

/// Cheapest way into `v` through its first `n` neighbours, given the costs
/// `prev` of reaching each location.
pub open spec fn relax_min(g: GameState, i: int, prev: Seq<Option<int>>, v: Location, n: nat) -> Option<int>
    decreases n,
{
    if n == 0 {
        None
    } else {
        let u = spec_adj(v)[n - 1].0;
        let cand = match (prev[loc_idx(u)], spec_move_cost(g, i, u, v)) {
            (Some(a), Some(c)) => Some(a + c),
            _ => None,
        };
        opt_min(relax_min(g, i, prev, v, (n - 1) as nat), cand)
    }
}

/// One more move: the start costs nothing, an enemy-held location cannot be
/// entered, any other location keeps its cost or is entered from a
/// neighbour.
pub open spec fn dist_step(g: GameState, i: int, from: Location, prev: Seq<Option<int>>, v: Location) -> Option<int> {
    if v == from {
        Some(0)
    } else if spec_blocked(g, i, v) {
        None
    } else {
        opt_min(prev[loc_idx(v)], relax_min(g, i, prev, v, spec_adj(v).len()))
    }
}

/// Cheapest MP cost of reaching each location (by declaration index) from
/// `from` in at most `k` moves.
pub open spec fn dist_row(g: GameState, i: int, from: Location, k: nat) -> Seq<Option<int>>
    decreases k,
{
    if k == 0 {
        Seq::new(13, |j: int| if loc_at(j) == from { Some(0int) } else { None })
    } else {
        let prev = dist_row(g, i, from, (k - 1) as nat);
        Seq::new(13, |j: int| dist_step(g, i, from, prev, loc_at(j)))
    }
}

/// Cheapest MP cost of reaching `v` from `from` for unit `i`; a path never
/// needs more than twelve moves on a thirteen-location map.
pub open spec fn spec_reach_cost(g: GameState, i: int, from: Location, v: Location) -> Option<int> {
    dist_row(g, i, from, 12)[loc_idx(v)]
}

pub proof fn lemma_move_cost_bounds(g: GameState, i: int, u: Location, v: Location)
    ensures
        spec_move_cost(g, i, u, v) matches Some(c) ==> 1 <= c <= 3,
{
}

proof fn lemma_relax_bounds(g: GameState, i: int, prev: Seq<Option<int>>, v: Location, n: nat, b: int)
    requires
        prev.len() == 13,
        forall|j: int| 0 <= j < 13 ==> (#[trigger] prev[j] matches Some(a) ==> 0 <= a <= b),
        n <= spec_adj(v).len(),
    ensures
        relax_min(g, i, prev, v, n) matches Some(a) ==> 0 <= a <= b + 3,
    decreases n,
{
    if n > 0 {
        lemma_relax_bounds(g, i, prev, v, (n - 1) as nat, b);
        let u = spec_adj(v)[n - 1].0;
        lemma_loc_idx_bounds(u);
        lemma_move_cost_bounds(g, i, u, v);
    }
}

/// Every cost after `k` moves lies between 0 and 3k.
pub proof fn lemma_dist_row_bounds(g: GameState, i: int, from: Location, k: nat)
    ensures
        dist_row(g, i, from, k).len() == 13,
        forall|j: int| 0 <= j < 13 ==> (#[trigger] dist_row(g, i, from, k)[j] matches Some(a) ==> 0 <= a <= 3 * k),
    decreases k,
{
    if k > 0 {
        lemma_dist_row_bounds(g, i, from, (k - 1) as nat);
        let prev = dist_row(g, i, from, (k - 1) as nat);
        assert forall|j: int| 0 <= j < 13 implies (#[trigger] dist_row(g, i, from, k)[j] matches Some(a) ==> 0 <= a <= 3 * k) by {
            let v = loc_at(j);
            lemma_relax_bounds(g, i, prev, v, spec_adj(v).len(), 3 * (k - 1));
            lemma_loc_idx_bounds(v);
        }
    }
}

impl GameState {
    /// Does an enemy of unit `idx` stand at `loc`?
    pub fn enemy_at(&self, idx: usize, loc: Location) -> (r: bool)
        requires
            self.wf(),
            idx < 12,
        ensures
            r == spec_blocked(*self, idx as int, loc),
    {
        let enemy_side = if self.units[idx].is_wagner() {
            Side::Russia
        } else {
            Side::Wagner
        };
        let mut i: usize = 0;
        while i < self.units.len()
            invariant
                self.wf(),
                idx < 12,
                enemy_side == enemy_of(self.units@[idx as int].side),
                i <= 12,
                forall|j: int| 0 <= j < i ==> !(self.units@[j].side == enemy_side && self.units@[j].location == Some(loc)),
            decreases 12 - i,
        {
            if self.units[i].side == enemy_side && self.units[i].location == Some(loc) {
                return true;
            }
            i = i + 1;
        }
        false
    }

    fn dist_next_row(&self, idx: usize, from: Location, cur: &Vec<Option<i32>>, Ghost(k): Ghost<nat>) -> (r: Vec<Option<i32>>)
        requires
            self.wf(),
            idx < 12,
            k < 12,
            cur@.len() == 13,
            forall|j: int| 0 <= j < 13 ==> opt_view(#[trigger] cur@[j]) == dist_row(*self, idx as int, from, k)[j],
        ensures
            r@.len() == 13,
            forall|j: int| 0 <= j < 13 ==> opt_view(#[trigger] r@[j]) == dist_row(*self, idx as int, from, k + 1)[j],
    {
        let ghost prev = dist_row(*self, idx as int, from, k);
        proof {
            lemma_dist_row_bounds(*self, idx as int, from, k);
        }
        let mut next: Vec<Option<i32>> = Vec::new();
        let mut j: usize = 0;
        while j < 13
            invariant
                self.wf(),
                idx < 12,
                k < 12,
                j <= 13,
                cur@.len() == 13,
                prev == dist_row(*self, idx as int, from, k),
                prev.len() == 13,
                forall|q: int| 0 <= q < 13 ==> (#[trigger] prev[q] matches Some(a) ==> 0 <= a <= 3 * k),
                forall|q: int| 0 <= q < 13 ==> opt_view(#[trigger] cur@[q]) == prev[q],
                next@.len() == j,
                forall|q: int| 0 <= q < j ==> opt_view(#[trigger] next@[q]) == dist_step(*self, idx as int, from, prev, loc_at(q)),
            decreases 13 - j,
        {
            let v = Location::from_index(j);
            let val: Option<i32> = if v == from {
                Some(0)
            } else if self.enemy_at(idx, v) {
                None
            } else {
                let mut best: Option<i32> = cur[j];
                let ns = self.map.neighbors(v);
                let mut n: usize = 0;
                while n < ns.len()
                    invariant
                        self.wf(),
                        idx < 12,
                        k < 12,
                        j < 13,
                        loc_idx(v) == j,
                        cur@.len() == 13,
                        prev.len() == 13,
                        forall|q: int| 0 <= q < 13 ==> (#[trigger] prev[q] matches Some(a) ==> 0 <= a <= 3 * k),
                        forall|q: int| 0 <= q < 13 ==> opt_view(#[trigger] cur@[q]) == prev[q],
                        ns@ == spec_adj(v),
                        n <= ns@.len(),
                        opt_view(best) == opt_min(prev[j as int], relax_min(*self, idx as int, prev, v, n as nat)),
                        best matches Some(a) ==> 0 <= a <= 3 * k + 3,
                    decreases ns@.len() - n,
                {
                    let u = ns[n].0;
                    let ui = u.index();
                    proof {
                        lemma_loc_idx_bounds(u);
                        lemma_relax_bounds(*self, idx as int, prev, v, n as nat, (3 * k) as int);
                        lemma_move_cost_bounds(*self, idx as int, u, v);
                    }
                    match cur[ui] {
                        Some(a) => {
                            match self.move_cost(idx, u, v) {
                                Some(c) => {
                                    let cand = a + c;
                                    best = match best {
                                        Some(b) => if cand < b {
                                            Some(cand)
                                        } else {
                                            Some(b)
                                        },
                                        None => Some(cand),
                                    };
                                },
                                None => {},
                            }
                        },
                        None => {},
                    }
                    n = n + 1;
                }
                best
            };
            next.push(val);
            j = j + 1;
        }
        proof {
            assert forall|q: int| 0 <= q < 13 implies opt_view(#[trigger] next@[q]) == dist_row(*self, idx as int, from, k + 1)[q] by {
                lemma_loc_at_bounds(q);
            }
        }
        next
    }

    /// All locations unit `idx` can reach within its remaining MP, with the
    /// cheapest total MP cost, excluding its current location; sorted by
    /// cost, then by location.  Rivers, roadblocks and enemy-occupied
    /// locations (which block movement) are accounted for.
    pub fn reachable_locations(&self, idx: usize) -> (r: Vec<(Location, i32)>)
        requires
            self.wf(),
            idx < 12,
        ensures
            self.units@[idx as int].location is None ==> r@.len() == 0,
            self.units@[idx as int].location matches Some(from) ==> {
                &&& forall|k: int| 0 <= k < r@.len() ==> {
                    let (v, c) = #[trigger] r@[k];
                    &&& v != from
                    &&& spec_reach_cost(*self, idx as int, from, v) == Some(c as int)
                    &&& c <= self.spec_mp_remaining(idx as int)
                }
                &&& forall|v: Location| #![trigger spec_reach_cost(*self, idx as int, from, v)]
                    v != from && spec_reach_cost(*self, idx as int, from, v) is Some
                    && spec_reach_cost(*self, idx as int, from, v).unwrap() <= self.spec_mp_remaining(idx as int) ==> exists|k: int| 0 <= k < r@.len() && r@[k].0 == v
                &&& forall|k: int, l: int| 0 <= k < l < r@.len() ==> (r@[k].1 < r@[l].1 || (r@[k].1 == r@[l].1
                    && loc_idx(r@[k].0) < loc_idx(r@[l].0)))
            },
    {
        let from = match self.units[idx].location {
            Some(loc) => loc,
            None => {
                return Vec::new();
            },
        };
        let mp = self.mp_remaining(idx);
        let mut cur: Vec<Option<i32>> = Vec::new();
        let mut j: usize = 0;
        while j < 13
            invariant
                j <= 13,
                cur@.len() == j,
                forall|q: int| 0 <= q < j ==> opt_view(#[trigger] cur@[q]) == dist_row(*self, idx as int, from, 0)[q],
            decreases 13 - j,
        {
            if Location::from_index(j) == from {
                cur.push(Some(0));
            } else {
                cur.push(None);
            }
            j = j + 1;
        }
        let mut k: usize = 0;
        while k < 12
            invariant
                self.wf(),
                idx < 12,
                k <= 12,
                cur@.len() == 13,
                forall|q: int| 0 <= q < 13 ==> opt_view(#[trigger] cur@[q]) == dist_row(*self, idx as int, from, k as nat)[q],
            decreases 12 - k,
        {
            cur = self.dist_next_row(idx, from, &cur, Ghost(k as nat));
            k = k + 1;
        }
        proof {
            lemma_dist_row_bounds(*self, idx as int, from, 12);
        }
        let limit: i32 = if mp < 36 {
            mp
        } else {
            36
        };
        let mut result: Vec<(Location, i32)> = Vec::new();
        let mut c: i32 = 0;
        while c <= limit
            invariant
                self.wf(),
                idx < 12,
                cur@.len() == 13,
                forall|q: int| 0 <= q < 13 ==> opt_view(#[trigger] cur@[q]) == dist_row(*self, idx as int, from, 12)[q],
                forall|q: int| 0 <= q < 13 ==> (#[trigger] dist_row(*self, idx as int, from, 12)[q] matches Some(a) ==> 0 <= a <= 36),
                mp == self.spec_mp_remaining(idx as int),
                limit <= mp,
                limit <= 36,
                0 <= c <= limit + 1 || (c == 0 && limit < 0),
                forall|q: int| 0 <= q < result@.len() ==> {
                    let (v, cc) = #[trigger] result@[q];
                    &&& v != from
                    &&& spec_reach_cost(*self, idx as int, from, v) == Some(cc as int)
                    &&& 0 <= cc < c
                    &&& cc <= mp
                },
                forall|v: Location| #![trigger spec_reach_cost(*self, idx as int, from, v)]
                    v != from && spec_reach_cost(*self, idx as int, from, v) is Some
                    && spec_reach_cost(*self, idx as int, from, v).unwrap() < c ==> exists|q: int| 0 <= q < result@.len() && result@[q].0 == v,
                forall|q: int, l: int| 0 <= q < l < result@.len() ==> (result@[q].1 < result@[l].1 || (result@[q].1
                    == result@[l].1 && loc_idx(result@[q].0) < loc_idx(result@[l].0))),
            decreases limit + 1 - c,
        {
            let ghost start = result@.len();
            let mut j: usize = 0;
            while j < 13
                invariant
                    self.wf(),
                    idx < 12,
                    cur@.len() == 13,
                    forall|q: int| 0 <= q < 13 ==> opt_view(#[trigger] cur@[q]) == dist_row(*self, idx as int, from, 12)[q],
                    mp == self.spec_mp_remaining(idx as int),
                    0 <= c <= limit,
                    limit <= mp,
                    j <= 13,
                    start <= result@.len(),
                    forall|q: int| 0 <= q < result@.len() ==> {
                        let (v, cc) = #[trigger] result@[q];
                        &&& v != from
                        &&& spec_reach_cost(*self, idx as int, from, v) == Some(cc as int)
                        &&& 0 <= cc <= c
                        &&& cc <= mp
                    },
                    forall|q: int| start <= q < result@.len() ==> (#[trigger] result@[q]).1 == c && loc_idx(result@[q].0) < j,
                    forall|q: int| 0 <= q < start ==> (#[trigger] result@[q]).1 < c,
                    forall|v: Location| #![trigger spec_reach_cost(*self, idx as int, from, v)]
                        v != from && spec_reach_cost(*self, idx as int, from, v) is Some
                        && (spec_reach_cost(*self, idx as int, from, v).unwrap() < c || (spec_reach_cost(*self, idx as int, from, v).unwrap() == c && loc_idx(v) < j)) ==> exists|q: int| 0 <= q < result@.len() && result@[q].0 == v,
                    forall|q: int, l: int| 0 <= q < l < result@.len() ==> (result@[q].1 < result@[l].1 || (result@[q].1
                        == result@[l].1 && loc_idx(result@[q].0) < loc_idx(result@[l].0))),
                decreases 13 - j,
            {
                let v = Location::from_index(j);
                let ghost before = result@;
                if v != from && cur[j] == Some(c) {
                    result.push((v, c));
                }
                proof {
                    assert forall|w: Location| #![trigger spec_reach_cost(*self, idx as int, from, w)]
                        w != from && spec_reach_cost(*self, idx as int, from, w) is Some
                        && (spec_reach_cost(*self, idx as int, from, w).unwrap() < c || (spec_reach_cost(*self, idx as int, from, w).unwrap() == c && loc_idx(w) < j + 1)) implies exists|q: int| 0 <= q < result@.len() && result@[q].0 == w by {
                        lemma_loc_idx_bounds(w);
                        if loc_idx(w) == j && spec_reach_cost(*self, idx as int, from, w) == Some(c as int) {
                            assert(result@[result@.len() - 1].0 == w);
                        } else {
                            let q = choose|q: int| 0 <= q < before.len() && before[q].0 == w;
                            assert(result@[q] == before[q]);
                        }
                    }
                }
                j = j + 1;
            }
            c = c + 1;
        }
        proof {
            assert forall|v: Location| #![trigger spec_reach_cost(*self, idx as int, from, v)]
                v != from && spec_reach_cost(*self, idx as int, from, v) is Some
                && spec_reach_cost(*self, idx as int, from, v).unwrap() <= self.spec_mp_remaining(idx as int) implies exists|k: int| 0 <= k < result@.len() && result@[k].0 == v by {
                lemma_loc_idx_bounds(v);
            }
        }
        result
    }
}

/// Every step of `p` follows a connection into a location without enemy
/// counters of unit `i`.
pub open spec fn steps_ok(g: GameState, i: int, p: Seq<Location>) -> bool {
    forall|k: int| 1 <= k < p.len() ==> step_ok(g, i, p[k - 1], #[trigger] p[k])
}

/// Unit `i` may step from `u` into `v`: they are connected and no enemy
/// stands at `v`.
#[verifier::opaque]
pub open spec fn step_ok(g: GameState, i: int, u: Location, v: Location) -> bool {
    !spec_blocked(g, i, v) && spec_move_cost(g, i, u, v) is Some
}

/// `p` is a walk of unit `i` starting at `from`.
pub open spec fn reach_walk(g: GameState, i: int, from: Location, p: Seq<Location>) -> bool {
    &&& p.len() >= 1
    &&& p[0] == from
    &&& steps_ok(g, i, p)
}

/// The MP cost of one step of unit `i` from `u` into `v`.
#[verifier::opaque]
pub open spec fn step_cost(g: GameState, i: int, u: Location, v: Location) -> int {
    spec_move_cost(g, i, u, v).unwrap()
}

/// The MP cost of walking `p`.
pub open spec fn walk_cost(g: GameState, i: int, p: Seq<Location>) -> int
    decreases p.len(),
{
    if p.len() <= 1 {
        0
    } else {
        walk_cost(g, i, p.drop_last()) + step_cost(g, i, p[p.len() - 2], p.last())
    }
}

proof fn lemma_walk_cost_nonneg(g: GameState, i: int, p: Seq<Location>)
    requires
        steps_ok(g, i, p),
    ensures
        walk_cost(g, i, p) >= 0,
    decreases p.len(),
{
    if p.len() > 1 {
        let q = p.drop_last();
        assert(steps_ok(g, i, q)) by {
            assert forall|k: int| 1 <= k < q.len() implies step_ok(g, i, q[k - 1], #[trigger] q[k]) by {
                assert(q[k] == p[k] && q[k - 1] == p[k - 1]);
            }
        }
        lemma_walk_cost_nonneg(g, i, q);
        assert(step_ok(g, i, p[p.len() - 2], p[p.len() - 1]));
        reveal(step_ok);
        lemma_move_cost_bounds(g, i, p[p.len() - 2], p.last());
        reveal(step_cost);
    }
}

/// Joining two walks that meet adds their costs.
proof fn lemma_walk_join(g: GameState, i: int, a: Seq<Location>, b: Seq<Location>)
    requires
        a.len() >= 1,
        b.len() >= 1,
        a.last() == b[0],
    ensures
        walk_cost(g, i, a + b.drop_first()) == walk_cost(g, i, a) + walk_cost(g, i, b),
    decreases b.len(),
{
    let w = a + b.drop_first();
    if b.len() == 1 {
        assert(w =~= a);
    } else {
        let b1 = b.drop_last();
        lemma_walk_join(g, i, a, b1);
        let w1 = a + b1.drop_first();
        assert(w.drop_last() =~= w1);
        assert(w[w.len() - 2] == b[b.len() - 2]) by {
            if b.len() == 2 {
                assert(w[w.len() - 2] == a.last());
            } else {
                assert(w[w.len() - 2] == b.drop_first()[b.len() - 3]);
            }
        }
        assert(w.last() == b.last());
    }
}

/// Joining two walks that meet gives a walk.
proof fn lemma_steps_join(g: GameState, i: int, a: Seq<Location>, b: Seq<Location>)
    requires
        a.len() >= 1,
        b.len() >= 1,
        a.last() == b[0],
        steps_ok(g, i, a),
        steps_ok(g, i, b),
    ensures
        steps_ok(g, i, a + b.drop_first()),
{
    let w = a + b.drop_first();
    assert forall|k: int| 1 <= k < w.len() implies step_ok(g, i, w[k - 1], #[trigger] w[k]) by {
        if k < a.len() {
            assert(w[k] == a[k] && w[k - 1] == a[k - 1]);
        } else {
            let j = k - a.len() + 1;
            assert(w[k] == b[j]);
            assert(w[k - 1] == b[j - 1]);
        }
    }
}

/// Steps of a slice of a walk are steps of the walk.
proof fn lemma_steps_sub(g: GameState, i: int, p: Seq<Location>, lo: int, hi: int)
    requires
        steps_ok(g, i, p),
        0 <= lo <= hi <= p.len(),
    ensures
        steps_ok(g, i, p.subrange(lo, hi)),
{
    let q = p.subrange(lo, hi);
    assert forall|k: int| 1 <= k < q.len() implies step_ok(g, i, q[k - 1], #[trigger] q[k]) by {
        assert(q[k] == p[lo + k] && q[k - 1] == p[lo + k - 1]);
    }
}

/// A walk longer than the map has locations visits some location twice.
proof fn lemma_walk_repeats(p: Seq<Location>)
    requires
        p.len() > 13,
    ensures
        exists|a: int, b: int| 0 <= a < b < p.len() && p[a] == p[b],
{
    let t = p.take(14).map_values(|l: Location| loc_idx(l));
    if t.no_duplicates() {
        t.unique_seq_to_set();
        vstd::set_lib::lemma_int_range(0, 13);
        assert forall|x: int| t.to_set().contains(x) implies vstd::set_lib::set_int_range(0, 13).contains(x) by {
            let k = choose|k: int| 0 <= k < t.len() && t[k] == x;
            lemma_loc_idx_bounds(p[k]);
        }
        vstd::set_lib::lemma_len_subset(t.to_set(), vstd::set_lib::set_int_range(0, 13));
        assert(false);
    } else {
        let (a, b) = choose|a: int, b: int| 0 <= a < t.len() && 0 <= b < t.len() && a != b && t[a] == t[b];
        lemma_loc_idx_bounds(p[a]);
        lemma_loc_idx_bounds(p[b]);
        if a < b {
            assert(p[a] == p[b]);
        } else {
            assert(p[b] == p[a]);
        }
    }
}

/// Cutting out the loop between two visits of one location gives a
/// shorter walk to the same end, costing no more.
proof fn lemma_cut_loop(g: GameState, i: int, from: Location, p: Seq<Location>, a: int, b: int) -> (r: Seq<
    Location,
>)
    requires
        reach_walk(g, i, from, p),
        0 <= a < b < p.len(),
        p[a] == p[b],
    ensures
        reach_walk(g, i, from, r),
        r.len() < p.len(),
        r.last() == p.last(),
        walk_cost(g, i, r) <= walk_cost(g, i, p),
{
    let x = p.subrange(0, a + 1);
    let y = p.subrange(a, p.len() as int);
    let c = p.subrange(a, b + 1);
    let d = p.subrange(b, p.len() as int);
    lemma_steps_sub(g, i, p, 0, a + 1);
    lemma_steps_sub(g, i, p, b, p.len() as int);
    lemma_steps_sub(g, i, p, a, b + 1);
    assert(walk_cost(g, i, p) == walk_cost(g, i, x) + walk_cost(g, i, y)) by {
        lemma_walk_join(g, i, x, y);
        assert(x + y.drop_first() =~= p);
    }
    assert(walk_cost(g, i, y) == walk_cost(g, i, c) + walk_cost(g, i, d)) by {
        lemma_walk_join(g, i, c, d);
        assert(c + d.drop_first() =~= y);
    }
    lemma_walk_cost_nonneg(g, i, c);
    let r = x + d.drop_first();
    lemma_walk_join(g, i, x, d);
    lemma_steps_join(g, i, x, d);
    assert(r[0] == from);
    assert(r.last() == p.last());
    r
}

/// Any walk can be shortened to one of at most twelve moves, ending at the
/// same location, costing no more.
proof fn lemma_walk_shorten(g: GameState, i: int, from: Location, p: Seq<Location>)
    requires
        reach_walk(g, i, from, p),
    ensures
        exists|q: Seq<Location>|
            reach_walk(g, i, from, q) && q.len() <= 13 && q.last() == p.last() && walk_cost(g, i, q) <= walk_cost(
                g,
                i,
                p,
            ),
    decreases p.len(),
{
    if p.len() <= 13 {
        assert(reach_walk(g, i, from, p) && p.len() <= 13 && p.last() == p.last());
    } else {
        lemma_walk_repeats(p);
        let (a, b) = choose|a: int, b: int| 0 <= a < b < p.len() && p[a] == p[b];
        let r = lemma_cut_loop(g, i, from, p, a, b);
        lemma_walk_shorten(g, i, from, r);
        let q = choose|q: Seq<Location>|
            reach_walk(g, i, from, q) && q.len() <= 13 && q.last() == r.last() && walk_cost(g, i, q) <= walk_cost(
                g,
                i,
                r,
            );
        assert(reach_walk(g, i, from, q) && q.len() <= 13 && q.last() == p.last() && walk_cost(g, i, q)
            <= walk_cost(g, i, p));
    }
}

proof fn lemma_relax_le(g: GameState, i: int, prev: Seq<Option<int>>, v: Location, n: nat, m: int, a: int, c: int)
    requires
        0 <= m < n <= spec_adj(v).len(),
        prev[loc_idx(spec_adj(v)[m].0)] == Some(a),
        spec_move_cost(g, i, spec_adj(v)[m].0, v) == Some(c),
    ensures
        relax_min(g, i, prev, v, n) matches Some(x) && x <= a + c,
    decreases n,
{
    if m < n - 1 {
        lemma_relax_le(g, i, prev, v, (n - 1) as nat, m, a, c);
    }
}

/// Entering `v` from `u` costs `x` in total.
pub open spec fn relax_via(g: GameState, i: int, prev: Seq<Option<int>>, v: Location, u: Location, x: int) -> bool {
    &&& prev[loc_idx(u)] is Some
    &&& spec_move_cost(g, i, u, v) is Some
    &&& x == prev[loc_idx(u)]->0 + spec_move_cost(g, i, u, v)->0
}

proof fn lemma_relax_witness(g: GameState, i: int, prev: Seq<Option<int>>, v: Location, n: nat)
    requires
        n <= spec_adj(v).len(),
    ensures
        relax_min(g, i, prev, v, n) matches Some(x) ==> exists|m: int|
            0 <= m < n && relax_via(g, i, prev, v, #[trigger] spec_adj(v)[m].0, x),
    decreases n,
{
    if n > 0 {
        lemma_relax_witness(g, i, prev, v, (n - 1) as nat);
        let u = spec_adj(v)[n - 1].0;
        let r1 = relax_min(g, i, prev, v, (n - 1) as nat);
        if let (Some(a), Some(c)) = (prev[loc_idx(u)], spec_move_cost(g, i, u, v)) {
            if relax_min(g, i, prev, v, n) == Some(a + c) {
                assert(relax_via(g, i, prev, v, spec_adj(v)[n - 1].0, a + c));
            }
        }
    }
}

proof fn lemma_dist_row_at(g: GameState, i: int, from: Location, k: nat, v: Location)
    ensures
        dist_row(g, i, from, k).len() == 13,
        k == 0 ==> dist_row(g, i, from, k)[loc_idx(v)] == if v == from { Some(0int) } else { None },
        k > 0 ==> dist_row(g, i, from, k)[loc_idx(v)] == dist_step(
            g,
            i,
            from,
            dist_row(g, i, from, (k - 1) as nat),
            v,
        ),
{
    lemma_loc_idx_bounds(v);
}

/// No walk of at most `k` moves is cheaper than the cost found in `k`
/// rounds.
proof fn lemma_dist_le_walk(g: GameState, i: int, from: Location, p: Seq<Location>, k: nat)
    requires
        reach_walk(g, i, from, p),
        p.len() <= k + 1,
    ensures
        dist_row(g, i, from, k)[loc_idx(p.last())] matches Some(c) && c <= walk_cost(g, i, p),
    decreases k,
{
    let v = p.last();
    lemma_dist_row_at(g, i, from, k, v);
    if p.len() == 1 {
        if k > 0 {
            assert(v == from);
        }
    } else {
        let q = p.drop_last();
        lemma_steps_sub(g, i, p, 0, p.len() - 1);
        assert(q =~= p.subrange(0, p.len() - 1));
        lemma_dist_le_walk(g, i, from, q, (k - 1) as nat);
        lemma_walk_cost_nonneg(g, i, p);
        let u = q.last();
        let prev = dist_row(g, i, from, (k - 1) as nat);
        let a = prev[loc_idx(u)]->0;
        if v != from {
            assert(step_ok(g, i, p[p.len() - 2], p[p.len() - 1]));
            reveal(step_ok);
            assert(spec_move_cost(g, i, p[p.len() - 2], p[p.len() - 1]) is Some);
            let c = spec_move_cost(g, i, u, v)->0;
            law_edge_symmetric(u, v);
            lemma_adj_agrees(v);
            let m = choose|m: int| 0 <= m < spec_adj(v).len() && spec_adj(v)[m].0 == u;
            lemma_relax_le(g, i, prev, v, spec_adj(v).len(), m, a, c);
            reveal(step_cost);
        }
    }
}

/// A cost found in `k` rounds is the cost of a walk of at most `k` moves.
proof fn lemma_dist_walk(g: GameState, i: int, from: Location, k: nat, v: Location)
    requires
        dist_row(g, i, from, k)[loc_idx(v)] is Some,
    ensures
        exists|p: Seq<Location>|
            reach_walk(g, i, from, p) && p.last() == v && Some(walk_cost(g, i, p)) == dist_row(g, i, from, k)[loc_idx(
                v,
            )],
    decreases k,
{
    lemma_dist_row_at(g, i, from, k, v);
    let c = dist_row(g, i, from, k)[loc_idx(v)]->0;
    if v == from {
        let p = seq![from];
        assert(reach_walk(g, i, from, p) && p.last() == v && walk_cost(g, i, p) == 0);
    } else {
        let prev = dist_row(g, i, from, (k - 1) as nat);
        let rm = relax_min(g, i, prev, v, spec_adj(v).len());
        if prev[loc_idx(v)] == Some(c) {
            lemma_dist_walk(g, i, from, (k - 1) as nat, v);
        } else {
            assert(rm == Some(c));
            lemma_relax_witness(g, i, prev, v, spec_adj(v).len());
            let m = choose|m: int| 0 <= m < spec_adj(v).len() && relax_via(g, i, prev, v, #[trigger] spec_adj(v)[m].0, c);
            let u = spec_adj(v)[m].0;
            lemma_dist_row_at(g, i, from, (k - 1) as nat, u);
            lemma_dist_walk(g, i, from, (k - 1) as nat, u);
            let q = choose|q: Seq<Location>|
                reach_walk(g, i, from, q) && q.last() == u && Some(walk_cost(g, i, q)) == prev[loc_idx(u)];
            let p = q.push(v);
            assert(p.drop_last() =~= q);
            assert(steps_ok(g, i, p)) by {
                reveal(step_ok);
                assert forall|j: int| 1 <= j < p.len() implies step_ok(g, i, p[j - 1], #[trigger] p[j]) by {
                    if j < p.len() - 1 {
                        assert(p[j] == q[j] && p[j - 1] == q[j - 1]);
                    }
                }
            }
            reveal(step_cost);
            assert(reach_walk(g, i, from, p) && p.last() == v && walk_cost(g, i, p) == c);
        }
    }
}

/// The cost of reaching a location is the least MP cost over all walks of
/// the unit from its location into it, each step along a connection into
/// a location without enemy counters: some walk costs exactly that, none
/// costs less, and without such a cost no walk reaches it.
pub proof fn law_reach_cost_is_least(g: GameState, i: int, from: Location, v: Location, p: Seq<Location>)
    ensures
        spec_reach_cost(g, i, from, v) matches Some(c) ==> exists|w: Seq<Location>|
            reach_walk(g, i, from, w) && w.last() == v && walk_cost(g, i, w) == c,
        reach_walk(g, i, from, p) && p.last() == v ==> (spec_reach_cost(g, i, from, v) matches Some(c) && c
            <= walk_cost(g, i, p)),
{
    if spec_reach_cost(g, i, from, v) is Some {
        lemma_dist_walk(g, i, from, 12, v);
    }
    if reach_walk(g, i, from, p) && p.last() == v {
        lemma_walk_shorten(g, i, from, p);
        let q = choose|q: Seq<Location>|
            reach_walk(g, i, from, q) && q.len() <= 13 && q.last() == p.last() && walk_cost(g, i, q) <= walk_cost(
                g,
                i,
                p,
            );
        lemma_dist_le_walk(g, i, from, q, 12);
    }
}

} // verus!
