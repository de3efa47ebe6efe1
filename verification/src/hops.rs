//! Hop distances and routes on the map, used by the Russian AI.

use vstd::prelude::*;

use crate::map::{lemma_loc_at_bounds, lemma_loc_idx_bounds, loc_at, loc_idx, spec_adj, EdgeProps, GameMap, Location};
use crate::reach::{opt_min, opt_view};

verus! {

/// Fewest hops into `v` through its first `n` neighbours, given the hop
/// counts `prev`.
pub open spec fn hop_relax(prev: Seq<Option<int>>, v: Location, n: nat) -> Option<int>
    decreases n,
{
    if n == 0 {
        None
    } else {
        let u = spec_adj(v)[n - 1].0;
        let cand = match prev[loc_idx(u)] {
            Some(a) => Some(a + 1),
            None => None,
        };
        opt_min(hop_relax(prev, v, (n - 1) as nat), cand)
    }
}

/// Fewest hops from `src` to each location (by declaration index) using at
/// most `k` connections.
pub open spec fn hop_row(src: Location, k: nat) -> Seq<Option<int>>
    decreases k,
{
    if k == 0 {
        Seq::new(13, |j: int| if loc_at(j) == src { Some(0int) } else { None })
    } else {
        let prev = hop_row(src, (k - 1) as nat);
        Seq::new(13, |j: int| opt_min(prev[j], hop_relax(prev, loc_at(j), spec_adj(loc_at(j)).len())))
    }
}

/// Fewest hops between two locations; a route never needs more than twelve
/// connections on a thirteen-location map.
pub open spec fn spec_hops(a: Location, b: Location) -> Option<int> {
    hop_row(a, 12)[loc_idx(b)]
}

/// The first location of `s` whose hop count in `d` is below `dc`.
pub open spec fn first_closer(d: Seq<Option<int>>, s: Seq<(Location, EdgeProps)>, dc: int) -> Option<Location>
    decreases s.len(),
{
    if s.len() == 0 {
        None
    } else {
        let n = s[0].0;
        if d[loc_idx(n)] matches Some(x) && x < dc {
            Some(n)
        } else {
            first_closer(d, s.drop_first(), dc)
        }
    }
}

/// Route from `cur` toward the location whose hop counts are `d`: at each
/// step the first neighbour strictly closer to the destination.
pub open spec fn walk(d: Seq<Option<int>>, to: Location, cur: Location, fuel: nat) -> Seq<Location>
    decreases fuel,
{
    if cur == to || fuel == 0 {
        seq![cur]
    } else {
        match d[loc_idx(cur)] {
            Some(dc) => match first_closer(d, spec_adj(cur), dc) {
                Some(n) => seq![cur] + walk(d, to, n, (fuel - 1) as nat),
                None => seq![cur],
            },
            None => seq![cur],
        }
    }
}

/// Breadth-first route from `from` to `to`: of all shortest routes, the
/// one that always takes the earliest neighbour in the neighbour lists.
pub open spec fn spec_route(from: Location, to: Location) -> Seq<Location> {
    if from == to {
        seq![from]
    } else if hop_row(to, 12)[loc_idx(from)] is None {
        Seq::empty()
    } else {
        walk(hop_row(to, 12), to, from, 13)
    }
}

proof fn lemma_hop_relax_bounds(prev: Seq<Option<int>>, v: Location, n: nat, b: int)
    requires
        prev.len() == 13,
        forall|j: int| 0 <= j < 13 ==> (#[trigger] prev[j] matches Some(a) ==> 0 <= a <= b),
        n <= spec_adj(v).len(),
    ensures
        hop_relax(prev, v, n) matches Some(a) ==> 1 <= a <= b + 1,
    decreases n,
{
    if n > 0 {
        lemma_hop_relax_bounds(prev, v, (n - 1) as nat, b);
        lemma_loc_idx_bounds(spec_adj(v)[n - 1].0);
    }
}

pub proof fn lemma_hop_row_bounds(src: Location, k: nat)
    ensures
        hop_row(src, k).len() == 13,
        forall|j: int| 0 <= j < 13 ==> (#[trigger] hop_row(src, k)[j] matches Some(a) ==> 0 <= a <= k),
    decreases k,
{
    if k > 0 {
        lemma_hop_row_bounds(src, (k - 1) as nat);
        let prev = hop_row(src, (k - 1) as nat);
        assert forall|j: int| 0 <= j < 13 implies (#[trigger] hop_row(src, k)[j] matches Some(a) ==> 0 <= a <= k) by {
            lemma_hop_relax_bounds(prev, loc_at(j), spec_adj(loc_at(j)).len(), k - 1);
        }
    }
}

impl GameMap {
    /// Hop counts from `src` to every location.
    fn hop_table(&self, src: Location) -> (r: Vec<Option<i32>>)
        requires
            self.wf(),
        ensures
            r@.len() == 13,
            forall|j: int| 0 <= j < 13 ==> opt_view(#[trigger] r@[j]) == hop_row(src, 12)[j],
    {
        let mut cur: Vec<Option<i32>> = Vec::new();
        let mut j: usize = 0;
        while j < 13
            invariant
                j <= 13,
                cur@.len() == j,
                forall|q: int| 0 <= q < j ==> opt_view(#[trigger] cur@[q]) == hop_row(src, 0)[q],
            decreases 13 - j,
        {
            if Location::from_index(j) == src {
                cur.push(Some(0));
            } else {
                cur.push(None);
            }
            j = j + 1;
        }
        let mut k: usize = 0;
        while k < 12
            invariant
                self.wf(),
                k <= 12,
                cur@.len() == 13,
                forall|q: int| 0 <= q < 13 ==> opt_view(#[trigger] cur@[q]) == hop_row(src, k as nat)[q],
            decreases 12 - k,
        {
            cur = self.hop_next_row(src, &cur, Ghost(k as nat));
            k = k + 1;
        }
        cur
    }

    fn hop_next_row(&self, src: Location, cur: &Vec<Option<i32>>, Ghost(k): Ghost<nat>) -> (r: Vec<Option<i32>>)
        requires
            self.wf(),
            k < 12,
            cur@.len() == 13,
            forall|j: int| 0 <= j < 13 ==> opt_view(#[trigger] cur@[j]) == hop_row(src, k)[j],
        ensures
            r@.len() == 13,
            forall|j: int| 0 <= j < 13 ==> opt_view(#[trigger] r@[j]) == hop_row(src, k + 1)[j],
    {
        let ghost prev = hop_row(src, k);
        proof {
            lemma_hop_row_bounds(src, k);
        }
        let mut next: Vec<Option<i32>> = Vec::new();
        let mut j: usize = 0;
        while j < 13
            invariant
                self.wf(),
                k < 12,
                j <= 13,
                cur@.len() == 13,
                prev == hop_row(src, k),
                prev.len() == 13,
                forall|q: int| 0 <= q < 13 ==> (#[trigger] prev[q] matches Some(a) ==> 0 <= a <= k),
                forall|q: int| 0 <= q < 13 ==> opt_view(#[trigger] cur@[q]) == prev[q],
                next@.len() == j,
                forall|q: int| 0 <= q < j ==> opt_view(#[trigger] next@[q]) == opt_min(
                    prev[q],
                    hop_relax(prev, loc_at(q), spec_adj(loc_at(q)).len()),
                ),
            decreases 13 - j,
        {
            let v = Location::from_index(j);
            let mut best: Option<i32> = cur[j];
            let ns = self.neighbors(v);
            let mut n: usize = 0;
            while n < ns.len()
                invariant
                    self.wf(),
                    k < 12,
                    j < 13,
                    loc_idx(v) == j,
                    v == loc_at(j as int),
                    cur@.len() == 13,
                    prev.len() == 13,
                    forall|q: int| 0 <= q < 13 ==> (#[trigger] prev[q] matches Some(a) ==> 0 <= a <= k),
                    forall|q: int| 0 <= q < 13 ==> opt_view(#[trigger] cur@[q]) == prev[q],
                    ns@ == spec_adj(v),
                    n <= ns@.len(),
                    opt_view(best) == opt_min(prev[j as int], hop_relax(prev, v, n as nat)),
                    best matches Some(a) ==> 0 <= a <= k + 1,
                decreases ns@.len() - n,
            {
                let u = ns[n].0;
                proof {
                    lemma_loc_idx_bounds(u);
                    lemma_hop_relax_bounds(prev, v, n as nat, k as int);
                }
                match cur[u.index()] {
                    Some(a) => {
                        let cand = a + 1;
                        best = match best {
                            Some(b) => if cand < b {
                                Some(cand)
                            } else {
                                Some(b)
                            },
                            None => Some(cand),
                        };
                    },
                    None => {},
                }
                n = n + 1;
            }
            next.push(best);
            j = j + 1;
        }
        proof {
            assert forall|q: int| 0 <= q < 13 implies opt_view(#[trigger] next@[q]) == hop_row(src, k + 1)[q] by {
                lemma_loc_at_bounds(q);
            }
        }
        next
    }

    /// Fewest connections between two locations; `usize::MAX` when there
    /// is no route.
    pub fn hop_distance(&self, from: Location, to: Location) -> (r: usize)
        requires
            self.wf(),
        ensures
            r == match spec_hops(from, to) {
                Some(d) => d as usize,
                None => usize::MAX,
            },
    {
        let table = self.hop_table(from);
        proof {
            lemma_hop_row_bounds(from, 12);
            lemma_loc_idx_bounds(to);
        }
        match table[to.index()] {
            Some(d) => d as usize,
            None => usize::MAX,
        }
    }

    /// The breadth-first route from `from` to `to`, both ends included;
    /// empty when there is no route.
    pub fn route(&self, from: Location, to: Location) -> (r: Vec<Location>)
        requires
            self.wf(),
        ensures
            r@ == spec_route(from, to),
    {
        if from == to {
            let mut v: Vec<Location> = Vec::new();
            v.push(from);
            return v;
        }
        let d = self.hop_table(to);
        proof {
            lemma_hop_row_bounds(to, 12);
            lemma_loc_idx_bounds(from);
        }
        if d[from.index()].is_none() {
            return Vec::new();
        }
        let ghost dv = hop_row(to, 12);
        proof {
            assert(d@.map_values(|o: Option<i32>| opt_view(o)) =~= dv);
        }
        let mut path: Vec<Location> = Vec::new();
        let mut cur = from;
        let mut fuel: usize = 13;
        let mut done = false;
        while !done && cur != to && fuel > 0
            invariant
                self.wf(),
                d@.len() == 13,
                dv == hop_row(to, 12),
                dv.len() == 13,
                d@.map_values(|o: Option<i32>| opt_view(o)) == dv,
                forall|q: int| 0 <= q < 13 ==> opt_view(#[trigger] d@[q]) == dv[q],
                fuel <= 13,
                path@ + walk(dv, to, cur, fuel as nat) == walk(dv, to, from, 13),
                done ==> walk(dv, to, cur, fuel as nat) == seq![cur],
            decreases fuel + (if done { 0int } else { 1int }),
        {
            proof {
                lemma_loc_idx_bounds(cur);
            }
            match d[cur.index()] {
                Some(dc) => {
                    match self.first_closer(&d, cur, dc) {
                        Some(n) => {
                            proof {
                                assert(walk(dv, to, cur, fuel as nat) == seq![cur] + walk(dv, to, n, (fuel - 1) as nat));
                            }
                            path.push(cur);
                            proof {
                                assert(path@ + walk(dv, to, n, (fuel - 1) as nat) =~= walk(dv, to, from, 13));
                            }
                            cur = n;
                            fuel = fuel - 1;
                        },
                        None => {
                            done = true;
                        },
                    }
                },
                None => {
                    done = true;
                },
            }
        }
        proof {
            assert(walk(dv, to, cur, fuel as nat) == seq![cur]);
        }
        path.push(cur);
        proof {
            assert(path@ =~= walk(dv, to, from, 13));
        }
        path
    }

    /// The first neighbour of `cur` whose hop count in `d` is below `dc`.
    fn first_closer(&self, d: &Vec<Option<i32>>, cur: Location, dc: i32) -> (r: Option<Location>)
        requires
            self.wf(),
            d@.len() == 13,
        ensures
            r == first_closer(d@.map_values(|o: Option<i32>| opt_view(o)), spec_adj(cur), dc as int),
    {
        let ghost dv = d@.map_values(|o: Option<i32>| opt_view(o));
        let ns = self.neighbors(cur);
        let mut n: usize = 0;
        proof {
            assert(ns@.subrange(0, ns@.len() as int) =~= ns@);
        }
        while n < ns.len()
            invariant
                self.wf(),
                d@.len() == 13,
                dv == d@.map_values(|o: Option<i32>| opt_view(o)),
                ns@ == spec_adj(cur),
                n <= ns@.len(),
                first_closer(dv, ns@.subrange(n as int, ns@.len() as int), dc as int) == first_closer(dv, spec_adj(cur), dc as int),
            decreases ns@.len() - n,
        {
            let u = ns[n].0;
            proof {
                lemma_loc_idx_bounds(u);
                assert(ns@.subrange(n as int, ns@.len() as int).drop_first() =~= ns@.subrange(n + 1, ns@.len() as int));
            }
            match d[u.index()] {
                Some(x) => {
                    if x < dc {
                        return Some(u);
                    }
                },
                None => {},
            }
            n = n + 1;
        }
        None
    }
}

} // verus!
