//! The Russian AI Priority Table and Russian attacks (rulebook 7.4, 7.5):
//! the best attack the AI can find, or a march toward Moscow.

use vstd::prelude::*;
use vstd::string::*;

use crate::dice::roll_d6;
use crate::combat::{
    resolve_contact_with_roll, spec_crt_code, spec_drm_total, spec_force_ratio_shift, spec_lookup_crt, CrtResult,
};
use crate::contact::{
    all_helicopters, all_valid, lemma_sum_sp_bounds, river_between, spec_apply, spec_apply_msgs, spec_joined_names,
    spec_sum_sp,
};
use crate::game::{
    eff_sp, flags_of, indices_where, lemma_indices_where_members, lemma_log_extends_refl, lemma_log_extends_trans,
    lemma_logged_none, lemma_logged_trans, locations_where, log_extends, logged, occupied_pred, only_units_flags_log,
    side_at_pred, side_occupies, GameState, TurnFlags,
};
use crate::map::{loc_idx, spec_adj, spec_location_name, EdgeProps, Location};
use crate::text::spec_int_str;
use crate::mct::MctMarker;
use crate::russian::hop_count;
use crate::stacking::{all_of_side, idxs_below, lemma_apply_keeps, one_side_per_location};
use crate::units::{spec_unit_name, unit_idx, Side, Unit, UnitId};

verus! {

/// A Russian counter on the map that can attack (not police).
pub open spec fn ai_attacker_pred(units: Seq<Unit>) -> spec_fn(int) -> bool {
    |j: int| units[j].side == Side::Russia && units[j].location is Some && !units[j].police
}

/// A Russian counter at `l` that can attack.
pub open spec fn ai_attacker_at_pred(units: Seq<Unit>, l: Location) -> spec_fn(int) -> bool {
    |j: int| units[j].side == Side::Russia && units[j].location == Some(l) && !units[j].police
}

/// The Wagner counters at `l`, in counter order.
pub open spec fn wagner_at(units: Seq<Unit>, l: Location) -> Seq<usize> {
    indices_where(12, side_at_pred(units, l, Side::Wagner))
}

/// Adjusted combat differential of an attack: the raw differential plus
/// the force ratio shift.
pub open spec fn cd_adjusted(a: int, d: int) -> int {
    a - d + spec_force_ratio_shift(a, d)
}

/// The attack from `nb` on the Wagner location `w`, if Russian attackers
/// stand at `nb` and the adjusted differential is at least +3, with its
/// score: the differential, plus inverted momentum, less one across a river.
pub open spec fn attack_candidate(
    units: Seq<Unit>,
    mct: Seq<MctMarker>,
    momentum: int,
    w: Location,
    nb: Location,
    river: bool,
) -> Option<(Seq<usize>, Location, Location, int)> {
    let r = indices_where(12, ai_attacker_at_pred(units, nb));
    let cd = cd_adjusted(spec_sum_sp(units, mct, r), spec_sum_sp(units, mct, wagner_at(units, w)));
    if r.len() > 0 && cd >= 3 {
        Some((r, nb, w, cd - momentum - if river { 1int } else { 0int }))
    } else {
        None
    }
}

/// Keep `best` unless `c` scores strictly higher.
pub open spec fn better(
    best: Option<(Seq<usize>, Location, Location, int)>,
    c: Option<(Seq<usize>, Location, Location, int)>,
) -> Option<(Seq<usize>, Location, Location, int)> {
    match c {
        Some(x) => if best is None || x.3 > best.unwrap().3 {
            c
        } else {
            best
        },
        None => best,
    }
}

/// The best attack on `w` from the neighbours `s`, in order, starting from
/// `best`.
pub open spec fn best_over_neighbors(
    units: Seq<Unit>,
    mct: Seq<MctMarker>,
    momentum: int,
    w: Location,
    s: Seq<(Location, EdgeProps)>,
    best: Option<(Seq<usize>, Location, Location, int)>,
) -> Option<(Seq<usize>, Location, Location, int)>
    decreases s.len(),
{
    if s.len() == 0 {
        best
    } else {
        best_over_neighbors(
            units,
            mct,
            momentum,
            w,
            s.drop_first(),
            better(best, attack_candidate(units, mct, momentum, w, s[0].0, s[0].1.river)),
        )
    }
}

/// The best attack on the Wagner locations `ls`, in order, starting from
/// `best`.
pub open spec fn best_over_locs(
    units: Seq<Unit>,
    mct: Seq<MctMarker>,
    momentum: int,
    ls: Seq<Location>,
    best: Option<(Seq<usize>, Location, Location, int)>,
) -> Option<(Seq<usize>, Location, Location, int)>
    decreases ls.len(),
{
    if ls.len() == 0 {
        best
    } else {
        best_over_locs(
            units,
            mct,
            momentum,
            ls.drop_first(),
            best_over_neighbors(units, mct, momentum, ls[0], spec_adj(ls[0]), best),
        )
    }
}

/// RAPT step 1: the attack the AI makes, if any: attackers, their
/// location, the target and the score. The first attack found with the
/// highest score wins, searching the Wagner locations in declaration order
/// and each one's neighbours in map order.
pub open spec fn spec_best_attack(units: Seq<Unit>, mct: Seq<MctMarker>, momentum: int) -> Option<
    (Seq<usize>, Location, Location, int),
> {
    best_over_locs(units, mct, momentum, locations_where(13, occupied_pred(units, Side::Wagner)), None)
}

/// The view of an attack held by the executable search.
pub open spec fn attack_view(b: Option<(Vec<usize>, Location, Location, i32)>) -> Option<
    (Seq<usize>, Location, Location, int),
> {
    match b {
        Some(x) => Some((x.0@, x.1, x.2, x.3 as int)),
        None => None,
    }
}

/// One step of the march toward Moscow: the first neighbour free of Wagner
/// strictly closer to Moscow than the best so far.
pub open spec fn step_toward(
    occ: spec_fn(Location) -> bool,
    s: Seq<(Location, EdgeProps)>,
    acc: (Option<Location>, int),
) -> (Option<Location>, int)
    decreases s.len(),
{
    if s.len() == 0 {
        acc
    } else {
        let nb = s[0].0;
        let d = hop_count(nb, Location::Moscow);
        let next = if !occ(nb) && d < acc.1 {
            (Some(nb), d)
        } else {
            acc
        };
        step_toward(occ, s.drop_first(), next)
    }
}

/// Where counter `i` marches when the AI finds no attack: nowhere from
/// Moscow or the Oka River or without MP, else the closest neighbour to
/// Moscow free of Wagner, if it is closer than where the counter stands.
pub open spec fn spec_move_dest(units: Seq<Unit>, i: int) -> Option<Location> {
    let u = units[i];
    match u.location {
        Some(loc) => if loc == Location::Moscow || loc == Location::OkaRiver || u.base_mp <= 0 {
            None
        } else {
            step_toward(
                occupied_pred(units, Side::Wagner),
                spec_adj(loc),
                (None, hop_count(loc, Location::Moscow)),
            ).0
        },
        None => None,
    }
}

/// The counters after each of `idxs` marches toward Moscow.
pub open spec fn spec_hold_moves(units: Seq<Unit>, idxs: Seq<usize>) -> Seq<Unit>
    decreases idxs.len(),
{
    if idxs.len() == 0 {
        units
    } else {
        let prev = spec_hold_moves(units, idxs.drop_last());
        let i = idxs.last() as int;
        match spec_move_dest(units, i) {
            Some(d) => prev.update(i, Unit { location: Some(d), ..prev[i] }),
            None => prev,
        }
    }
}

/// The result of the AI's attack for a die roll.
pub open spec fn ai_attack_result(g: GameState, r: Seq<usize>, from: Location, target: Location, roll: int) -> CrtResult {
    let a = spec_sum_sp(g.units@, g.mct@, r);
    let d = spec_sum_sp(g.units@, g.mct@, wagner_at(g.units@, target));
    let total = spec_drm_total(-g.momentum, river_between(from, target), false, 0, all_helicopters(g.units@, r));
    spec_lookup_crt(roll + total, cd_adjusted(a, d))
}

/// The log line of counter `i`'s march toward Moscow, if it marches.
pub open spec fn spec_march_msgs(units: Seq<Unit>, i: int) -> Seq<Seq<char>> {
    match spec_move_dest(units, i) {
        Some(d) => {
            let from = match units[i].location {
                Some(l) => l,
                None => d,
            };
            seq![
                spec_unit_name(units[i].id) + " moved "@ + spec_location_name(from) + " \u{2192} "@
                    + spec_location_name(d) + " (toward Moscow)."@,
            ]
        },
        None => Seq::empty(),
    }
}

/// The log lines of the marches of the counters `idxs`.
pub open spec fn spec_hold_msgs(units: Seq<Unit>, idxs: Seq<usize>) -> Seq<Seq<char>>
    decreases idxs.len(),
{
    if idxs.len() == 0 {
        Seq::empty()
    } else {
        spec_hold_msgs(units, idxs.drop_last()) + spec_march_msgs(units, idxs.last() as int)
    }
}

/// The log line of the AI's attack `x` for a die roll.
pub open spec fn spec_ai_attack_msg(g: GameState, x: (Seq<usize>, Location, Location, int), roll: int) -> Seq<char> {
    "Russian Attack: "@ + spec_joined_names(g.units@, x.0) + " @ "@ + spec_location_name(x.1) + " \u{2192} "@
        + spec_location_name(x.2) + " | ATK:"@ + spec_int_str(spec_sum_sp(g.units@, g.mct@, x.0)) + " DEF:"@
        + spec_int_str(spec_sum_sp(g.units@, g.mct@, wagner_at(g.units@, x.2))) + " | Roll:"@ + spec_int_str(roll)
        + " | "@ + spec_crt_code(ai_attack_result(g, x.0, x.1, x.2, roll))
}

/// The log lines of 7.4 and 7.5 for a die roll.
pub open spec fn spec_ai_msgs(a: GameState, roll: int) -> Seq<Seq<char>> {
    let attackers = indices_where(12, ai_attacker_pred(a.units@));
    if attackers.len() == 0 {
        seq!["No Russian units available for attack."@]
    } else {
        match spec_best_attack(a.units@, a.mct@, a.momentum as int) {
            Some(x) => seq![spec_ai_attack_msg(a, x, roll)] + spec_apply_msgs(
                a.units@,
                a.mct@,
                flags_of(a),
                ai_attack_result(a, x.0, x.1, x.2, roll),
                x.0,
                x.1,
                wagner_at(a.units@, x.2),
                x.2,
            ),
            None => seq!["No favorable attacks. Russian units hold position."@] + spec_hold_msgs(
                a.units@,
                attackers,
            ),
        }
    }
}

/// 7.4 and 7.5 for a die roll: the best attack is made, with inverted
/// momentum as the modifier, no flanking and never on Moscow; without one,
/// the attack-capable counters march toward Moscow.
pub open spec fn ai_attacks_step(a: GameState, b: GameState, roll: int) -> bool {
    &&& log_extends(a, b)
    &&& logged(a, b, spec_ai_msgs(a, roll))
    &&& match spec_best_attack(a.units@, a.mct@, a.momentum as int) {
        Some(x) => {
            &&& only_units_flags_log(a, b)
            &&& (b.units@, flags_of(b)) == spec_apply(
                a.units@,
                a.mct@,
                flags_of(a),
                ai_attack_result(a, x.0, x.1, x.2, roll),
                x.0,
                x.1,
                wagner_at(a.units@, x.2),
                x.2,
            )
        },
        None => {
            &&& b.units@ == spec_hold_moves(a.units@, indices_where(12, ai_attacker_pred(a.units@)))
            &&& b == (GameState { log: b.log, units: b.units, ..a })
        },
    }
}

impl GameState {
    /// The attack-capable Russian counters on the map.
    fn ai_attackers(&self) -> (r: Vec<usize>)
        requires
            self.wf(),
        ensures
            r@ == indices_where(12, ai_attacker_pred(self.units@)),
    {
        let mut r: Vec<usize> = Vec::new();
        let mut i: usize = 0;
        while i < 12
            invariant
                self.wf(),
                i <= 12,
                r@ == indices_where(i as nat, ai_attacker_pred(self.units@)),
            decreases 12 - i,
        {
            let u = self.units[i];
            if u.side == Side::Russia && u.is_on_map() && !u.police {
                r.push(i);
            }
            i = i + 1;
        }
        r
    }

    /// The attack-capable Russian counters at `l`.
    fn ai_attackers_at(&self, l: Location) -> (r: Vec<usize>)
        requires
            self.wf(),
        ensures
            r@ == indices_where(12, ai_attacker_at_pred(self.units@, l)),
    {
        let mut r: Vec<usize> = Vec::new();
        let mut i: usize = 0;
        while i < 12
            invariant
                self.wf(),
                i <= 12,
                r@ == indices_where(i as nat, ai_attacker_at_pred(self.units@, l)),
            decreases 12 - i,
        {
            let u = self.units[i];
            if u.side == Side::Russia && u.location == Some(l) && !u.police {
                r.push(i);
            }
            i = i + 1;
        }
        r
    }
    /// RAPT step 1: search for the best attack.
    fn best_russian_attack(&self) -> (r: Option<(Vec<usize>, Location, Location, i32)>)
        requires
            self.wf(),
        ensures
            attack_view(r) == spec_best_attack(self.units@, self.mct@, self.momentum as int),
            r matches Some(x) ==> x.0@ == indices_where(12, ai_attacker_at_pred(self.units@, x.1)),
    {
        let wl = self.wagner_locations();
        let mut best: Option<(Vec<usize>, Location, Location, i32)> = None;
        let mut i: usize = 0;
        proof {
            assert(wl@.subrange(0, wl@.len() as int) =~= wl@);
        }
        while i < wl.len()
            invariant
                self.wf(),
                i <= wl@.len(),
                wl@ == locations_where(13, occupied_pred(self.units@, Side::Wagner)),
                best_over_locs(
                    self.units@,
                    self.mct@,
                    self.momentum as int,
                    wl@.subrange(i as int, wl@.len() as int),
                    attack_view(best),
                ) == spec_best_attack(self.units@, self.mct@, self.momentum as int),
                best matches Some(x) ==> x.0@ == indices_where(12, ai_attacker_at_pred(self.units@, x.1)),
            decreases wl@.len() - i,
        {
            let w = wl[i];
            proof {
                assert(wl@.subrange(i as int, wl@.len() as int).drop_first() =~= wl@.subrange(
                    i + 1,
                    wl@.len() as int,
                ));
                assert(wl@.subrange(i as int, wl@.len() as int)[0] == w);
            }
            let defenders = self.wagner_units_at(w);
            proof {
                lemma_indices_where_members(12, side_at_pred(self.units@, w, Side::Wagner));
                lemma_sum_sp_bounds(*self, defenders@);
            }
            let wagner_sp = self.sum_sp(defenders.as_slice());
            let nbs = self.map.neighbors(w);
            let ghost start = attack_view(best);
            let mut k: usize = 0;
            proof {
                assert(nbs@.subrange(0, nbs@.len() as int) =~= nbs@);
            }
            while k < nbs.len()
                invariant
                    self.wf(),
                    k <= nbs@.len(),
                    nbs@ == spec_adj(w),
                    defenders@ == wagner_at(self.units@, w),
                    wagner_sp == spec_sum_sp(self.units@, self.mct@, defenders@),
                    0 <= wagner_sp <= 72,
                    best_over_neighbors(
                        self.units@,
                        self.mct@,
                        self.momentum as int,
                        w,
                        nbs@.subrange(k as int, nbs@.len() as int),
                        attack_view(best),
                    ) == best_over_neighbors(self.units@, self.mct@, self.momentum as int, w, spec_adj(w), start),
                    best matches Some(x) ==> x.0@ == indices_where(12, ai_attacker_at_pred(self.units@, x.1)),
                decreases nbs@.len() - k,
            {
                let (nb, e) = nbs[k];
                proof {
                    assert(nbs@.subrange(k as int, nbs@.len() as int).drop_first() =~= nbs@.subrange(
                        k + 1,
                        nbs@.len() as int,
                    ));
                    assert(nbs@.subrange(k as int, nbs@.len() as int)[0] == (nb, e));
                }
                let r_here = self.ai_attackers_at(nb);
                proof {
                    lemma_indices_where_members(12, ai_attacker_at_pred(self.units@, nb));
                    lemma_sum_sp_bounds(*self, r_here@);
                }
                let ghost cand = attack_candidate(self.units@, self.mct@, self.momentum as int, w, nb, e.river);
                if r_here.len() > 0 {
                    let attack_sp = self.sum_sp(r_here.as_slice());
                    let cd = attack_sp - wagner_sp + crate::combat::force_ratio_shift(attack_sp, wagner_sp);
                    if cd >= 3 {
                        let river_pen: i32 = if e.river {
                            1
                        } else {
                            0
                        };
                        let score = cd + (-self.momentum) - river_pen;
                        let replace = match &best {
                            Some(b) => score > b.3,
                            None => true,
                        };
                        if replace {
                            best = Some((r_here, nb, w, score));
                        }
                    }
                }
                k = k + 1;
            }
            i = i + 1;
        }
        best
    }
    /// Where counter `idx` marches toward Moscow, if anywhere.
    fn move_dest(&self, idx: usize) -> (r: Option<Location>)
        requires
            self.wf(),
            idx < 12,
        ensures
            r == spec_move_dest(self.units@, idx as int),
    {
        let u = self.units[idx];
        let loc = match u.location {
            Some(l) => l,
            None => {
                return None;
            },
        };
        if loc == Location::Moscow || loc == Location::OkaRiver {
            return None;
        }
        if u.base_mp <= 0 {
            return None;
        }
        let nbs = self.map.neighbors(loc);
        let mut best_dest: Option<Location> = None;
        let mut best_dist: usize = self.bfs_distance(loc, Location::Moscow);
        let ghost occ = occupied_pred(self.units@, Side::Wagner);
        let mut k: usize = 0;
        proof {
            assert(nbs@.subrange(0, nbs@.len() as int) =~= nbs@);
        }
        while k < nbs.len()
            invariant
                self.wf(),
                k <= nbs@.len(),
                nbs@ == spec_adj(loc),
                occ == occupied_pred(self.units@, Side::Wagner),
                step_toward(occ, nbs@.subrange(k as int, nbs@.len() as int), (best_dest, best_dist as int))
                    == step_toward(occ, spec_adj(loc), (None, hop_count(loc, Location::Moscow))),
            decreases nbs@.len() - k,
        {
            let (nb, _) = nbs[k];
            proof {
                assert(nbs@.subrange(k as int, nbs@.len() as int).drop_first() =~= nbs@.subrange(
                    k + 1,
                    nbs@.len() as int,
                ));
                assert(nbs@.subrange(k as int, nbs@.len() as int)[0].0 == nb);
            }
            if !self.any_wagner_at(nb) {
                let d = self.bfs_distance(nb, Location::Moscow);
                if d < best_dist {
                    best_dist = d;
                    best_dest = Some(nb);
                }
            }
            k = k + 1;
        }
        best_dest
    }

    /// Counter `idx` marches one location toward Moscow, if it can.
    fn march(&mut self, idx: usize)
        requires
            old(self).wf(),
            idx < 12,
        ensures
            final(self).wf(),
            log_extends(*old(self), *final(self)),
            final(self).units@ == match spec_move_dest(old(self).units@, idx as int) {
                Some(d) => old(self).units@.update(idx as int, Unit { location: Some(d), ..old(self).units@[idx as int] }),
                None => old(self).units@,
            },
            *final(self) == (GameState { log: final(self).log, units: final(self).units, ..*old(self) }),
            logged(*old(self), *final(self), spec_march_msgs(old(self).units@, idx as int)),
    {
        let dest = self.move_dest(idx);
        match dest {
            Some(d) => {
                let mut u = self.units[idx];
                let from = match u.location {
                    Some(l) => l,
                    None => d,
                };
                u.location = Some(d);
                let mut m = String::from_str(u.id.name());
                m.append(" moved ");
                m.append(from.name());
                m.append(" \u{2192} ");
                m.append(d.name());
                m.append(" (toward Moscow).");
                self.set_unit(idx, u);
                let ghost before = *self;
                self.record(m);
                proof {
                    lemma_log_extends_refl(before);
                    lemma_log_extends_trans(*old(self), before, *self);
                }
            },
            None => {
                proof {
                    lemma_log_extends_refl(*self);
                    lemma_logged_none(*self);
                }
            },
        }
    }

    /// RAPT step 1a: without a favorable attack, each attack-capable
    /// counter marches one location toward Moscow.
    fn hold_moves(&mut self, attackers: &Vec<usize>)
        requires
            old(self).wf(),
            attackers@ == indices_where(12, ai_attacker_pred(old(self).units@)),
        ensures
            final(self).wf(),
            log_extends(*old(self), *final(self)),
            final(self).units@ == spec_hold_moves(old(self).units@, attackers@),
            *final(self) == (GameState { log: final(self).log, units: final(self).units, ..*old(self) }),
            logged(*old(self), *final(self), spec_hold_msgs(old(self).units@, attackers@)),
    {
        let ghost orig = old(self).units@;
        proof {
            lemma_indices_where_members(12, ai_attacker_pred(orig));
            lemma_log_extends_refl(*self);
            lemma_logged_none(*self);
            assert(attackers@.take(0) =~= Seq::<usize>::empty());
        }
        let mut k: usize = 0;
        while k < attackers.len()
            invariant
                self.wf(),
                k <= attackers@.len(),
                orig == old(self).units@,
                orig.len() == 12,
                attackers@ == indices_where(12, ai_attacker_pred(orig)),
                forall|q: int| 0 <= q < attackers@.len() ==> {
                    let i = #[trigger] attackers@[q];
                    0 <= i < 12 && ai_attacker_pred(orig)(i as int)
                },
                forall|p: int, q: int| 0 <= p < q < attackers@.len() ==> attackers@[p] < attackers@[q],
                self.units@ == spec_hold_moves(orig, attackers@.take(k as int)),
                log_extends(*old(self), *self),
                logged(*old(self), *self, spec_hold_msgs(orig, attackers@.take(k as int))),
                *self == (GameState { log: self.log, units: self.units, ..*old(self) }),
            decreases attackers@.len() - k,
        {
            let idx = attackers[k];
            proof {
                lemma_hold_step(orig, attackers@, k as int);
                assert(attackers@.take(k + 1).drop_last() =~= attackers@.take(k as int));
            }
            let ghost before = *self;
            self.march(idx);
            proof {
                lemma_log_extends_trans(*old(self), before, *self);
                lemma_logged_trans(
                    *old(self),
                    before,
                    *self,
                    spec_hold_msgs(orig, attackers@.take(k as int)),
                    spec_march_msgs(orig, idx as int),
                );
            }
            k = k + 1;
        }
        proof {
            assert(attackers@.take(attackers@.len() as int) =~= attackers@);
        }
    }
}

/// One march of the fold: counter `attackers[k]` has not moved yet, sees
/// the same Wagner occupancy, and its march extends the fold by one.
proof fn lemma_hold_step(orig: Seq<Unit>, attackers: Seq<usize>, k: int)
    requires
        orig.len() == 12,
        0 <= k < attackers.len(),
        forall|q: int| 0 <= q < attackers.len() ==> {
            let i = #[trigger] attackers[q];
            0 <= i < 12 && ai_attacker_pred(orig)(i as int)
        },
        forall|p: int, q: int| 0 <= p < q < attackers.len() ==> attackers[p] < attackers[q],
    ensures
        ({
            let cur = spec_hold_moves(orig, attackers.take(k));
            let idx = attackers[k] as int;
            &&& cur.len() == 12
            &&& cur[idx] == orig[idx]
            &&& spec_move_dest(cur, idx) == spec_move_dest(orig, idx)
            &&& spec_hold_moves(orig, attackers.take(k + 1)) == match spec_move_dest(orig, idx) {
                Some(d) => cur.update(idx, Unit { location: Some(d), ..cur[idx] }),
                None => cur,
            }
        }),
{
    let t = attackers.take(k);
    let idx = attackers[k];
    assert forall|q: int| 0 <= q < t.len() implies #[trigger] t[q] < orig.len() by {
        assert(t[q] == attackers[q]);
        assert(0 <= attackers[q] < 12);
    }
    lemma_hold_moves_frame(orig, t);
    let cur = spec_hold_moves(orig, t);
    assert forall|q: int| 0 <= q < t.len() implies #[trigger] t[q] != idx by {
        assert(attackers[q] < attackers[k]);
    }
    assert(cur[idx as int] == orig[idx as int]);
    assert forall|j: int| 0 <= j < orig.len() && orig[j].side == Side::Wagner implies #[trigger] cur[j] == orig[j] by {
        assert forall|q: int| 0 <= q < t.len() implies #[trigger] t[q] != j by {
            assert(ai_attacker_pred(orig)(attackers[q] as int));
        }
    }
    assert forall|j: int| 0 <= j < orig.len() implies (#[trigger] cur[j]).side == orig[j].side by {
        assert(cur[j] == Unit { location: cur[j].location, ..orig[j] });
    }
    lemma_same_wagner_occupancy(orig, cur);
    assert(attackers.take(k + 1).drop_last() =~= t);
}

/// Marching changes only locations, and only of the counters that march.
proof fn lemma_hold_moves_frame(units: Seq<Unit>, idxs: Seq<usize>)
    requires
        forall|q: int| 0 <= q < idxs.len() ==> #[trigger] idxs[q] < units.len(),
    ensures
        spec_hold_moves(units, idxs).len() == units.len(),
        forall|j: int| 0 <= j < units.len() ==> #[trigger] spec_hold_moves(units, idxs)[j] == (Unit {
            location: spec_hold_moves(units, idxs)[j].location,
            ..units[j]
        }),
        forall|j: int|
            0 <= j < units.len() && (forall|q: int| 0 <= q < idxs.len() ==> #[trigger] idxs[q] != j)
                ==> #[trigger] spec_hold_moves(units, idxs)[j] == units[j],
    decreases idxs.len(),
{
    if idxs.len() > 0 {
        assert forall|q: int| 0 <= q < idxs.drop_last().len() implies #[trigger] idxs.drop_last()[q] < units.len() by {
            assert(idxs[q] < units.len());
        }
        lemma_hold_moves_frame(units, idxs.drop_last());
        assert(idxs[idxs.len() - 1] < units.len());
        assert forall|j: int|
            0 <= j < units.len() && (forall|q: int| 0 <= q < idxs.len() ==> #[trigger] idxs[q] != j) implies
            #[trigger] spec_hold_moves(units, idxs)[j] == units[j] by {
            assert forall|q: int| 0 <= q < idxs.drop_last().len() implies #[trigger] idxs.drop_last()[q] != j by {
                assert(idxs[q] != j);
            }
            assert(idxs[idxs.len() - 1] != j);
        }
    }
}

/// Counters that differ only in the locations of Russian counters leave
/// Wagner's occupancy unchanged.
proof fn lemma_same_wagner_occupancy(a: Seq<Unit>, b: Seq<Unit>)
    requires
        a.len() == b.len(),
        forall|j: int| 0 <= j < a.len() ==> (#[trigger] b[j]).side == a[j].side,
        forall|j: int| 0 <= j < a.len() && a[j].side == Side::Wagner ==> #[trigger] b[j] == a[j],
    ensures
        occupied_pred(a, Side::Wagner) == occupied_pred(b, Side::Wagner),
{
    assert forall|l: Location| side_occupies(a, Side::Wagner, l) == side_occupies(b, Side::Wagner, l) by {
        if side_occupies(a, Side::Wagner, l) {
            let j = choose|j: int| 0 <= j < a.len() && a[j].side == Side::Wagner && a[j].location == Some(l);
            assert(b[j] == a[j]);
        }
        if side_occupies(b, Side::Wagner, l) {
            let j = choose|j: int| 0 <= j < b.len() && b[j].side == Side::Wagner && b[j].location == Some(l);
            assert(b[j].side == a[j].side);
            assert(b[j] == a[j]);
        }
    }
    assert(occupied_pred(a, Side::Wagner) =~= occupied_pred(b, Side::Wagner));
}

impl GameState {
    /// 7.4 and 7.5 for a given die roll: the Russian AI attacks, or marches
    /// toward Moscow.
    #[verifier::rlimit(50)]
    pub fn run_russian_ai_attacks_with_roll(&mut self, die_roll: i32)
        requires
            old(self).wf(),
            1 <= die_roll <= 6,
        ensures
            final(self).wf(),
            ai_attacks_step(*old(self), *final(self), die_roll as int),
    {
        let attackers = self.ai_attackers();
        if attackers.len() == 0 {
            proof {
                lemma_no_attackers_no_attack(self.units@, self.mct@, self.momentum as int);
            }
            self.record(String::from_str("No Russian units available for attack."));
            return;
        }
        let best = self.best_russian_attack();
        match best {
            Some(b) => {
                let (atk, from, target, _score) = b;
                proof {
                    lemma_indices_where_members(12, ai_attacker_at_pred(self.units@, from));
                    lemma_sum_sp_bounds(*self, atk@);
                }
                let attack_sp = self.sum_sp(atk.as_slice());
                let defenders = self.wagner_units_at(target);
                proof {
                    lemma_indices_where_members(12, side_at_pred(self.units@, target, Side::Wagner));
                    lemma_sum_sp_bounds(*self, defenders@);
                }
                let defend_sp = self.sum_sp(defenders.as_slice());
                let river = match self.map.edge(from, target) {
                    Some(e) => e.river,
                    None => false,
                };
                let all_heli = self.all_helicopters(atk.as_slice());
                let inverted_momentum = -self.momentum;
                let outcome = resolve_contact_with_roll(
                    attack_sp,
                    defend_sp,
                    inverted_momentum,
                    river,
                    false,
                    0,
                    all_heli,
                    die_roll,
                );
                let mut m = String::from_str("Russian Attack: ");
                let mut k: usize = 0;
                while k < atk.len()
                    invariant
                        all_valid(atk@),
                        self.units@.len() == 12,
                        k <= atk@.len(),
                        m@ == "Russian Attack: "@ + spec_joined_names(self.units@, atk@.take(k as int)),
                    decreases atk@.len() - k,
                {
                    proof {
                        assert(atk@.take(k + 1).drop_last() == atk@.take(k as int));
                    }
                    if k > 0 {
                        m.append(", ");
                    }
                    m.append(self.units[atk[k]].id.name());
                    k = k + 1;
                }
                proof {
                    assert(atk@.take(k as int) == atk@);
                }
                m.append(" @ ");
                m.append(from.name());
                m.append(" \u{2192} ");
                m.append(target.name());
                m.append(" | ATK:");
                m.append(crate::text::i64_to_string(attack_sp as i64).as_str());
                m.append(" DEF:");
                m.append(crate::text::i64_to_string(defend_sp as i64).as_str());
                m.append(" | Roll:");
                m.append(crate::text::i64_to_string(outcome.die_roll as i64).as_str());
                m.append(" | ");
                m.append(outcome.result.code());
                let ghost g0 = *self;
                self.record(m);
                let ghost g1 = *self;
                self.apply_contact_result(&outcome, atk.as_slice(), from, defenders.as_slice(), target);
                proof {
                    lemma_log_extends_trans(g0, g1, *self);
                    lemma_logged_trans(
                        g0,
                        g1,
                        *self,
                        seq![m@],
                        spec_apply_msgs(
                            g1.units@,
                            g1.mct@,
                            flags_of(g1),
                            outcome.result,
                            atk@,
                            from,
                            defenders@,
                            target,
                        ),
                    );
                }
            },
            None => {
                self.record(String::from_str("No favorable attacks. Russian units hold position."));
                let ghost g1 = *self;
                self.hold_moves(&attackers);
                proof {
                    lemma_log_extends_trans(*old(self), g1, *self);
                    lemma_logged_trans(
                        *old(self),
                        g1,
                        *self,
                        seq!["No favorable attacks. Russian units hold position."@],
                        spec_hold_msgs(g1.units@, attackers@),
                    );
                }
            },
        }
    }

    /// 7.4 and 7.5: as `run_russian_ai_attacks_with_roll`, rolling the die.
    pub fn run_russian_ai_attacks(&mut self)
        requires
            old(self).wf(),
        ensures
            final(self).wf(),
            exists|roll: int| 1 <= roll <= 6 && ai_attacks_step(*old(self), *final(self), roll),
    {
        let roll = roll_d6();
        self.run_russian_ai_attacks_with_roll(roll);
    }
}

/// Without attack-capable Russian counters there is no attack.
proof fn lemma_no_attackers_no_attack(units: Seq<Unit>, mct: Seq<MctMarker>, momentum: int)
    requires
        units.len() == 12,
        indices_where(12, ai_attacker_pred(units)).len() == 0,
    ensures
        spec_best_attack(units, mct, momentum) is None,
{
    lemma_indices_where_members(12, ai_attacker_pred(units));
    assert forall|nb: Location| #[trigger] indices_where(12, ai_attacker_at_pred(units, nb)).len() == 0 by {
        lemma_indices_where_members(12, ai_attacker_at_pred(units, nb));
        if indices_where(12, ai_attacker_at_pred(units, nb)).len() > 0 {
            let i = indices_where(12, ai_attacker_at_pred(units, nb))[0];
            assert(ai_attacker_pred(units)(i as int));
        }
    }
    lemma_locs_none(units, mct, momentum, locations_where(13, occupied_pred(units, Side::Wagner)));
}

proof fn lemma_locs_none(units: Seq<Unit>, mct: Seq<MctMarker>, momentum: int, ls: Seq<Location>)
    requires
        forall|nb: Location| #[trigger] indices_where(12, ai_attacker_at_pred(units, nb)).len() == 0,
    ensures
        best_over_locs(units, mct, momentum, ls, None) is None,
    decreases ls.len(),
{
    if ls.len() > 0 {
        lemma_neighbors_none(units, mct, momentum, ls[0], spec_adj(ls[0]));
        lemma_locs_none(units, mct, momentum, ls.drop_first());
    }
}

proof fn lemma_neighbors_none(units: Seq<Unit>, mct: Seq<MctMarker>, momentum: int, w: Location, s: Seq<(Location, EdgeProps)>)
    requires
        forall|nb: Location| #[trigger] indices_where(12, ai_attacker_at_pred(units, nb)).len() == 0,
    ensures
        best_over_neighbors(units, mct, momentum, w, s, None) is None,
    decreases s.len(),
{
    if s.len() > 0 {
        assert(indices_where(12, ai_attacker_at_pred(units, s[0].0)).len() == 0);
        lemma_neighbors_none(units, mct, momentum, w, s.drop_first());
    }
}

/// The counters after Akhmat leaves Grozny for Rostov-On-Don.
pub open spec fn akhmat_moved(units: Seq<Unit>) -> Seq<Unit> {
    let i = unit_idx(UnitId::Akhmat);
    units.update(i, Unit { location: Some(Location::RostovOnDon), ..units[i] })
}

/// The result of Akhmat's attack on Rostov from Grozny for a die roll: a
/// river crossing, inverted momentum, no flanking.
pub open spec fn akhmat_attack_result(g: GameState, roll: int) -> CrtResult {
    let a = eff_sp(g.units@, g.mct@, unit_idx(UnitId::Akhmat));
    let d = spec_sum_sp(g.units@, g.mct@, wagner_at(g.units@, Location::RostovOnDon));
    spec_lookup_crt(roll + spec_drm_total(-g.momentum, true, false, 0, false), cd_adjusted(a, d))
}

/// The counters and turn flags after Akhmat's attack on Rostov.
pub open spec fn akhmat_after_attack(g: GameState, roll: int) -> (Seq<Unit>, TurnFlags) {
    spec_apply(
        g.units@,
        g.mct@,
        flags_of(g),
        akhmat_attack_result(g, roll),
        seq![unit_idx(UnitId::Akhmat) as usize],
        Location::GroznyAkhmatBase,
        wagner_at(g.units@, Location::RostovOnDon),
        Location::RostovOnDon,
    )
}

/// Akhmat, still in Grozny, finds Rostov free of Wagner counters and
/// moves in.
pub open spec fn akhmat_advances(units: Seq<Unit>) -> bool {
    &&& units[unit_idx(UnitId::Akhmat)].location == Some(Location::GroznyAkhmatBase)
    &&& !side_occupies(units, Side::Wagner, Location::RostovOnDon)
}

/// The log line of Akhmat's move into Rostov.
pub open spec fn spec_akhmat_move_msg() -> Seq<char> {
    "Akhmat moved Grozny \u{2192} Rostov-On-Don."@
}

/// The log lines of the Akhmat Tik Tok rule for two die rolls.
pub open spec fn spec_akhmat_msgs(a: GameState, tiktok: int, roll: int) -> Seq<Seq<char>> {
    let i = unit_idx(UnitId::Akhmat);
    if a.units@[i].location == Some(Location::GroznyAkhmatBase) {
        if tiktok == 6 {
            seq!["Akhmat Tik Tok roll: "@ + spec_int_str(tiktok) + " \u{2014} Akhmat moves toward Rostov!"@]
                + if side_occupies(a.units@, Side::Wagner, Location::RostovOnDon) {
                let res = akhmat_attack_result(a, roll);
                seq!["Akhmat attacks Rostov! Roll:"@ + spec_int_str(roll) + " \u{2192} "@ + spec_crt_code(res)]
                    + spec_apply_msgs(
                    a.units@,
                    a.mct@,
                    flags_of(a),
                    res,
                    seq![i as usize],
                    Location::GroznyAkhmatBase,
                    wagner_at(a.units@, Location::RostovOnDon),
                    Location::RostovOnDon,
                ) + if akhmat_advances(akhmat_after_attack(a, roll).0) {
                    seq![spec_akhmat_move_msg()]
                } else {
                    Seq::empty()
                }
            } else {
                seq![spec_akhmat_move_msg()]
            }
        } else {
            seq!["Akhmat Tik Tok roll: "@ + spec_int_str(tiktok) + " \u{2014} too busy making Tik Toks."@]
        }
    } else {
        Seq::empty()
    }
}

/// 7.4.3 for two die rolls: while Akhmat stands in Grozny, a Tik Tok roll
/// of 6 sends it toward Rostov-On-Don.  It attacks any Wagner counters
/// there from Grozny with the second roll, and moves in once Rostov holds
/// no Wagner counter, so that no location holds both sides.
pub open spec fn akhmat_step(a: GameState, b: GameState, tiktok: int, roll: int) -> bool {
    let i = unit_idx(UnitId::Akhmat);
    &&& log_extends(a, b)
    &&& logged(a, b, spec_akhmat_msgs(a, tiktok, roll))
    &&& if a.units@[i].location == Some(Location::GroznyAkhmatBase) && tiktok == 6 {
        if side_occupies(a.units@, Side::Wagner, Location::RostovOnDon) {
            let (u1, f1) = akhmat_after_attack(a, roll);
            &&& only_units_flags_log(a, b)
            &&& flags_of(b) == f1
            &&& b.units@ == if akhmat_advances(u1) {
                akhmat_moved(u1)
            } else {
                u1
            }
        } else {
            &&& b.units@ == akhmat_moved(a.units@)
            &&& b == (GameState { log: b.log, units: b.units, ..a })
        }
    } else {
        b == (GameState { log: b.log, ..a })
    }
}

impl GameState {
    /// Akhmat moves from Grozny into Rostov-On-Don.
    fn akhmat_enter_rostov(&mut self, akhmat_idx: usize)
        requires
            old(self).wf(),
            akhmat_idx == unit_idx(UnitId::Akhmat),
        ensures
            final(self).wf(),
            final(self).units@ == akhmat_moved(old(self).units@),
            *final(self) == (GameState { log: final(self).log, units: final(self).units, ..*old(self) }),
            log_extends(*old(self), *final(self)),
            logged(*old(self), *final(self), seq![spec_akhmat_move_msg()]),
    {
        let mut u = self.units[akhmat_idx];
        u.location = Some(Location::RostovOnDon);
        self.set_unit(akhmat_idx, u);
        let ghost before = *self;
        self.record(String::from_str("Akhmat moved Grozny \u{2192} Rostov-On-Don."));
        proof {
            lemma_log_extends_refl(before);
            lemma_log_extends_trans(*old(self), before, *self);
        }
    }

    /// Akhmat attacks the Wagner counters in Rostov-On-Don from Grozny.
    #[verifier::rlimit(40)]
    fn akhmat_attack(&mut self, akhmat_idx: usize, attack_roll: i32)
        requires
            old(self).wf(),
            akhmat_idx == unit_idx(UnitId::Akhmat),
            1 <= attack_roll <= 6,
        ensures
            final(self).wf(),
            only_units_flags_log(*old(self), *final(self)),
            (final(self).units@, flags_of(*final(self))) == akhmat_after_attack(*old(self), attack_roll as int),
            log_extends(*old(self), *final(self)),
            logged(
                *old(self),
                *final(self),
                seq![
                    "Akhmat attacks Rostov! Roll:"@ + spec_int_str(attack_roll as int) + " \u{2192} "@ + spec_crt_code(
                        akhmat_attack_result(*old(self), attack_roll as int),
                    ),
                ] + spec_apply_msgs(
                    old(self).units@,
                    old(self).mct@,
                    flags_of(*old(self)),
                    akhmat_attack_result(*old(self), attack_roll as int),
                    seq![akhmat_idx],
                    Location::GroznyAkhmatBase,
                    wagner_at(old(self).units@, Location::RostovOnDon),
                    Location::RostovOnDon,
                ),
            ),
    {
        let atk_sp = self.effective_sp(akhmat_idx);
        let defenders = self.wagner_units_at(Location::RostovOnDon);
        proof {
            lemma_indices_where_members(12, side_at_pred(self.units@, Location::RostovOnDon, Side::Wagner));
            lemma_sum_sp_bounds(*self, defenders@);
        }
        let def_sp = self.sum_sp(defenders.as_slice());
        let outcome = resolve_contact_with_roll(atk_sp, def_sp, -self.momentum, true, false, 0, false, attack_roll);
        let mut m2 = String::from_str("Akhmat attacks Rostov! Roll:");
        m2.append(crate::text::i64_to_string(outcome.die_roll as i64).as_str());
        m2.append(" \u{2192} ");
        m2.append(outcome.result.code());
        let ghost g0 = *self;
        self.record(m2);
        let ghost g1 = *self;
        let mut atk: Vec<usize> = Vec::new();
        atk.push(akhmat_idx);
        proof {
            assert(atk@ =~= seq![unit_idx(UnitId::Akhmat) as usize]);
        }
        self.apply_contact_result(
            &outcome,
            atk.as_slice(),
            Location::GroznyAkhmatBase,
            defenders.as_slice(),
            Location::RostovOnDon,
        );
        proof {
            lemma_log_extends_trans(g0, g1, *self);
            lemma_logged_trans(
                g0,
                g1,
                *self,
                seq![m2@],
                spec_apply_msgs(
                    g1.units@,
                    g1.mct@,
                    flags_of(g1),
                    outcome.result,
                    atk@,
                    Location::GroznyAkhmatBase,
                    defenders@,
                    Location::RostovOnDon,
                ),
            );
        }
    }

    /// Akhmat Tik Tok (7.4.3) for given rolls: the Tik Tok roll, and the
    /// die for the attack on Rostov if it comes to one.
    #[verifier::rlimit(40)]
    pub fn run_akhmat_tiktok_with_rolls(&mut self, tiktok_roll: i32, attack_roll: i32)
        requires
            old(self).wf(),
            1 <= tiktok_roll <= 6,
            1 <= attack_roll <= 6,
        ensures
            final(self).wf(),
            akhmat_step(*old(self), *final(self), tiktok_roll as int, attack_roll as int),
    {
        let akhmat_idx = match self.unit_index(UnitId::Akhmat) {
            Some(i) => i,
            None => {
                proof {
                    lemma_log_extends_refl(*self);
                    lemma_logged_none(*self);
                }
                return;
            },
        };
        if self.units[akhmat_idx].location != Some(Location::GroznyAkhmatBase) {
            proof {
                lemma_log_extends_refl(*self);
                lemma_logged_none(*self);
            }
            return;
        }
        if tiktok_roll == 6 {
            let mut m = String::from_str("Akhmat Tik Tok roll: ");
            m.append(crate::text::i64_to_string(tiktok_roll as i64).as_str());
            m.append(" \u{2014} Akhmat moves toward Rostov!");
            self.record(m);
            let ghost g1 = *self;
            let ghost m1 = seq![m@];
            if self.any_wagner_at(Location::RostovOnDon) {
                self.akhmat_attack(akhmat_idx, attack_roll);
                let ghost g2 = *self;
                let ghost m2 = seq![
                    "Akhmat attacks Rostov! Roll:"@ + spec_int_str(attack_roll as int) + " \u{2192} "@ + spec_crt_code(
                        akhmat_attack_result(g1, attack_roll as int),
                    ),
                ] + spec_apply_msgs(
                    g1.units@,
                    g1.mct@,
                    flags_of(g1),
                    akhmat_attack_result(g1, attack_roll as int),
                    seq![akhmat_idx],
                    Location::GroznyAkhmatBase,
                    wagner_at(g1.units@, Location::RostovOnDon),
                    Location::RostovOnDon,
                );
                proof {
                    lemma_log_extends_trans(*old(self), g1, g2);
                    lemma_logged_trans(*old(self), g1, g2, m1, m2);
                }
                if self.units[akhmat_idx].location == Some(Location::GroznyAkhmatBase) && !self.any_wagner_at(
                    Location::RostovOnDon,
                ) {
                    self.akhmat_enter_rostov(akhmat_idx);
                    proof {
                        lemma_log_extends_trans(*old(self), g2, *self);
                        lemma_logged_trans(*old(self), g2, *self, m1 + m2, seq![spec_akhmat_move_msg()]);
                        assert(m1 + m2 + seq![spec_akhmat_move_msg()] == m1 + (m2 + seq![spec_akhmat_move_msg()]));
                    }
                } else {
                    proof {
                        assert(m1 + (m2 + Seq::<Seq<char>>::empty()) =~= m1 + m2);
                    }
                }
            } else {
                self.akhmat_enter_rostov(akhmat_idx);
                proof {
                    lemma_log_extends_trans(*old(self), g1, *self);
                    lemma_logged_trans(*old(self), g1, *self, m1, seq![spec_akhmat_move_msg()]);
                }
            }
        } else {
            let mut m = String::from_str("Akhmat Tik Tok roll: ");
            m.append(crate::text::i64_to_string(tiktok_roll as i64).as_str());
            m.append(" \u{2014} too busy making Tik Toks.");
            self.record(m);
        }
    }

    /// Akhmat Tik Tok (7.4.3), rolling the dice.
    pub fn run_akhmat_tiktok(&mut self)
        requires
            old(self).wf(),
        ensures
            final(self).wf(),
            exists|t: int, r: int| 1 <= t <= 6 && 1 <= r <= 6 && akhmat_step(*old(self), *final(self), t, r),
    {
        let t = roll_d6();
        let r = roll_d6();
        self.run_akhmat_tiktok_with_rolls(t, r);
    }
}

/// Stacking (one side per location) holds after the Akhmat Tik Tok rule
/// when it held before and Akhmat stands on Russia's side.
pub proof fn law_akhmat_keeps_one_side(a: GameState, b: GameState, tiktok: int, roll: int)
    requires
        a.wf(),
        one_side_per_location(a.units@),
        a.units@[unit_idx(UnitId::Akhmat)].side == Side::Russia,
        akhmat_step(a, b, tiktok, roll),
    ensures
        one_side_per_location(b.units@),
{
    let i = unit_idx(UnitId::Akhmat);
    if a.units@[i].location == Some(Location::GroznyAkhmatBase) && tiktok == 6 {
        let w = wagner_at(a.units@, Location::RostovOnDon);
        lemma_indices_where_members(12, side_at_pred(a.units@, Location::RostovOnDon, Side::Wagner));
        assert(all_of_side(a.units@, w, Side::Wagner)) by {
            assert forall|k: int| 0 <= k < w.len() implies #[trigger] a.units@[w[k] as int].side == Side::Wagner by {
                assert(side_at_pred(a.units@, Location::RostovOnDon, Side::Wagner)(w[k] as int));
            }
        }
        if side_occupies(a.units@, Side::Wagner, Location::RostovOnDon) {
            let atk = seq![i as usize];
            assert(idxs_below(atk, 12));
            lemma_apply_keeps(
                a.units@,
                a.mct@,
                flags_of(a),
                akhmat_attack_result(a, roll),
                atk,
                Location::GroznyAkhmatBase,
                w,
                Location::RostovOnDon,
            );
            let u1 = akhmat_after_attack(a, roll).0;
            if akhmat_advances(u1) {
                assert(u1[i].side == Side::Russia);
                lemma_move_in_keeps(u1, i, Location::RostovOnDon);
            }
        } else {
            assert(a.units@[i].side == Side::Russia);
            lemma_move_in_keeps(a.units@, i, Location::RostovOnDon);
        }
    }
}

/// A Russian counter moving into a location without Wagner counters keeps
/// stacking.
proof fn lemma_move_in_keeps(units: Seq<Unit>, i: int, l: Location)
    requires
        one_side_per_location(units),
        0 <= i < units.len(),
        units[i].side == Side::Russia,
        !side_occupies(units, Side::Wagner, l),
    ensures
        one_side_per_location(units.update(i, Unit { location: Some(l), ..units[i] })),
{
    let v = Unit { location: Some(l), ..units[i] };
    let n = units.update(i, v);
    assert forall|p: int, q: int|
        #![trigger n[p], n[q]]
        0 <= p < n.len() && 0 <= q < n.len() && n[p].location is Some && n[p].location == n[q].location
            implies n[p].side == n[q].side by {
        if p == i && q != i {
            assert(units[q].location == Some(l) && units[q].side == Side::Wagner ==> side_occupies(units, Side::Wagner, l));
        } else if q == i && p != i {
            assert(units[p].location == Some(l) && units[p].side == Side::Wagner ==> side_occupies(units, Side::Wagner, l));
        } else if p != i && q != i {
            assert(units[p] == n[p] && units[q] == n[q]);
        }
    }
}

/// An attack the Russian AI may make: attack-capable Russian counters, all
/// of those at `x.1`, there are some, `x.1` is connected to the target
/// `x.2`, and the adjusted contact differential (raw differential plus the
/// force ratio shift) against the Wagner counters there is at least +3.
pub open spec fn ai_attack_ok(units: Seq<Unit>, mct: Seq<MctMarker>, x: (Seq<usize>, Location, Location, int)) -> bool {
    let a = spec_sum_sp(units, mct, x.0);
    let d = spec_sum_sp(units, mct, wagner_at(units, x.2));
    &&& x.0.len() > 0
    &&& x.0 == indices_where(12, ai_attacker_at_pred(units, x.1))
    &&& crate::map::spec_edge(x.2, x.1) is Some
    &&& a - d + spec_force_ratio_shift(a, d) >= 3
}

/// The score of the attack from `nb` on `w`: its adjusted contact
/// differential, less momentum, less one across a river.
pub open spec fn pairing_score(units: Seq<Unit>, mct: Seq<MctMarker>, momentum: int, w: Location, nb: Location) -> int {
    let a = spec_sum_sp(units, mct, indices_where(12, ai_attacker_at_pred(units, nb)));
    let d = spec_sum_sp(units, mct, wagner_at(units, w));
    a - d + spec_force_ratio_shift(a, d) - momentum - if crate::map::spec_edge(w, nb)->0.river {
        1int
    } else {
        0int
    }
}

/// An attack the AI may make, carrying its score.
pub open spec fn ai_attack_scored(
    units: Seq<Unit>,
    mct: Seq<MctMarker>,
    momentum: int,
    x: (Seq<usize>, Location, Location, int),
) -> bool {
    &&& ai_attack_ok(units, mct, x)
    &&& x.3 == pairing_score(units, mct, momentum, x.2, x.1)
}

/// The pairing of the attackers at `nb` with the target `w` reaches +3.
pub open spec fn pairing_ok(units: Seq<Unit>, mct: Seq<MctMarker>, w: Location, nb: Location) -> bool {
    ai_attack_ok(units, mct, (indices_where(12, ai_attacker_at_pred(units, nb)), nb, w, 0))
}

proof fn lemma_neighbors_ok(
    units: Seq<Unit>,
    mct: Seq<MctMarker>,
    momentum: int,
    w: Location,
    s: Seq<(Location, EdgeProps)>,
    best: Option<(Seq<usize>, Location, Location, int)>,
)
    requires
        best matches Some(x) ==> ai_attack_scored(units, mct, momentum, x),
        forall|k: int| 0 <= k < s.len() ==> crate::map::spec_edge(w, (#[trigger] s[k]).0) == Some(s[k].1),
    ensures
        best_over_neighbors(units, mct, momentum, w, s, best) matches Some(x) ==> ai_attack_scored(
            units,
            mct,
            momentum,
            x,
        ),
        best matches Some(b) ==> (best_over_neighbors(units, mct, momentum, w, s, best) matches Some(r) && r.3
            >= b.3),
        forall|k: int|
            0 <= k < s.len() && pairing_ok(units, mct, w, (#[trigger] s[k]).0) ==> (best_over_neighbors(
                units,
                mct,
                momentum,
                w,
                s,
                best,
            ) matches Some(r) && r.3 >= pairing_score(units, mct, momentum, w, s[k].0)),
    decreases s.len(),
{
    if s.len() > 0 {
        let c = attack_candidate(units, mct, momentum, w, s[0].0, s[0].1.river);
        assert(crate::map::spec_edge(w, s[0].0) == Some(s[0].1));
        let t = s.drop_first();
        assert forall|k: int| 0 <= k < t.len() implies crate::map::spec_edge(w, (#[trigger] t[k]).0) == Some(t[k].1) by {
            assert(t[k] == s[k + 1]);
        }
        lemma_neighbors_ok(units, mct, momentum, w, t, better(best, c));
        assert forall|k: int|
            0 <= k < s.len() && pairing_ok(units, mct, w, (#[trigger] s[k]).0) implies (best_over_neighbors(
            units,
            mct,
            momentum,
            w,
            s,
            best,
        ) matches Some(r) && r.3 >= pairing_score(units, mct, momentum, w, s[k].0)) by {
            if k > 0 {
                assert(t[k - 1] == s[k]);
            }
        }
    }
}

proof fn lemma_locs_ok(
    units: Seq<Unit>,
    mct: Seq<MctMarker>,
    momentum: int,
    ls: Seq<Location>,
    best: Option<(Seq<usize>, Location, Location, int)>,
)
    requires
        best matches Some(x) ==> ai_attack_scored(units, mct, momentum, x),
    ensures
        best_over_locs(units, mct, momentum, ls, best) matches Some(x) ==> ai_attack_scored(units, mct, momentum, x),
        best matches Some(b) ==> (best_over_locs(units, mct, momentum, ls, best) matches Some(r) && r.3 >= b.3),
        forall|j: int, nb: Location|
            0 <= j < ls.len() && #[trigger] crate::map::spec_edge(ls[j], nb) is Some && pairing_ok(units, mct, ls[j], nb)
                ==> (best_over_locs(units, mct, momentum, ls, best) matches Some(r) && r.3 >= pairing_score(
                units,
                mct,
                momentum,
                ls[j],
                nb,
            )),
    decreases ls.len(),
{
    if ls.len() > 0 {
        let w = ls[0];
        let adj = spec_adj(w);
        crate::map::lemma_adj_agrees(w);
        lemma_neighbors_ok(units, mct, momentum, w, adj, best);
        let mid = best_over_neighbors(units, mct, momentum, w, adj, best);
        lemma_locs_ok(units, mct, momentum, ls.drop_first(), mid);
        assert forall|j: int, nb: Location|
            0 <= j < ls.len() && #[trigger] crate::map::spec_edge(ls[j], nb) is Some && pairing_ok(units, mct, ls[j], nb)
                implies (best_over_locs(units, mct, momentum, ls, best) matches Some(r) && r.3 >= pairing_score(
            units,
            mct,
            momentum,
            ls[j],
            nb,
        )) by {
            if j == 0 {
                let k = choose|k: int| 0 <= k < adj.len() && adj[k].0 == nb;
                assert(pairing_ok(units, mct, w, adj[k].0));
            } else {
                assert(ls.drop_first()[j - 1] == ls[j]);
            }
        }
    }
}

/// `nb` sits at position `k` of `w`'s neighbour list.
pub open spec fn adj_at(w: Location, nb: Location, k: int) -> bool {
    0 <= k < spec_adj(w).len() && spec_adj(w)[k].0 == nb
}

proof fn lemma_neighbors_first(
    units: Seq<Unit>,
    mct: Seq<MctMarker>,
    momentum: int,
    w: Location,
    s: Seq<(Location, EdgeProps)>,
    best: Option<(Seq<usize>, Location, Location, int)>,
)
    requires
        best matches Some(x) ==> ai_attack_scored(units, mct, momentum, x),
        forall|k: int| 0 <= k < s.len() ==> crate::map::spec_edge(w, (#[trigger] s[k]).0) == Some(s[k].1),
    ensures
        ({
            let r = best_over_neighbors(units, mct, momentum, w, s, best);
            &&& r != best ==> r is Some && (r->0).2 == w && (best is Some ==> (r->0).3 > (best->0).3) && exists|
                k: int,
            | 0 <= k < s.len() && (r->0).1 == (#[trigger] s[k]).0
            &&& forall|k: int|
                0 <= k < s.len() && pairing_ok(units, mct, w, (#[trigger] s[k]).0) && r is Some && (r->0).3
                    == pairing_score(units, mct, momentum, w, s[k].0) ==> r == best || exists|k2: int|
                    0 <= k2 <= k && (r->0).1 == s[k2].0 && (r->0).2 == w
        }),
    decreases s.len(),
{
    if s.len() > 0 {
        let c = attack_candidate(units, mct, momentum, w, s[0].0, s[0].1.river);
        let next = better(best, c);
        assert(crate::map::spec_edge(w, s[0].0) == Some(s[0].1));
        let t = s.drop_first();
        assert forall|k: int| 0 <= k < t.len() implies crate::map::spec_edge(w, (#[trigger] t[k]).0) == Some(t[k].1) by {
            assert(t[k] == s[k + 1]);
        }
        lemma_neighbors_ok(units, mct, momentum, w, t, next);
        lemma_neighbors_first(units, mct, momentum, w, t, next);
        let r = best_over_neighbors(units, mct, momentum, w, s, best);
        if r != best {
            if r == next {
                assert(s[0].0 == s[0].0);
            } else {
                let k = choose|k: int| 0 <= k < t.len() && (r->0).1 == (#[trigger] t[k]).0;
                assert(s[k + 1] == t[k]);
            }
        }
        assert forall|k: int|
            0 <= k < s.len() && pairing_ok(units, mct, w, (#[trigger] s[k]).0) && r is Some && (r->0).3
                == pairing_score(units, mct, momentum, w, s[k].0) implies r == best || exists|k2: int|
            0 <= k2 <= k && (r->0).1 == s[k2].0 && (r->0).2 == w by {
            let x = r->0;
            if k == 0 {
                if r != next {
                    // r beat next strictly, but next scores at least s[0]'s score
                    assert(next matches Some(n) && n.3 >= pairing_score(units, mct, momentum, w, s[0].0));
                    assert(false);
                } else if next != best {
                    assert(x.1 == s[0].0 && x.2 == w);
                }
            } else {
                assert(t[k - 1] == s[k]);
                if r == next {
                    if next != best {
                        assert(x.1 == s[0].0 && x.2 == w);
                    }
                } else {
                    let k2 = choose|k2: int| 0 <= k2 <= k - 1 && x.1 == t[k2].0 && x.2 == w;
                    assert(t[k2] == s[k2 + 1]);
                }
            }
        }
    }
}

proof fn lemma_locs_moved(
    units: Seq<Unit>,
    mct: Seq<MctMarker>,
    momentum: int,
    ls: Seq<Location>,
    best: Option<(Seq<usize>, Location, Location, int)>,
)
    requires
        best matches Some(x) ==> ai_attack_scored(units, mct, momentum, x),
    ensures
        ({
            let r = best_over_locs(units, mct, momentum, ls, best);
            r != best ==> r is Some && (best is Some ==> (r->0).3 > (best->0).3) && exists|j: int, k: int|
                0 <= j < ls.len() && (r->0).2 == ls[j] && #[trigger] adj_at(ls[j], (r->0).1, k)
        }),
    decreases ls.len(),
{
    if ls.len() > 0 {
        let w = ls[0];
        let adj = spec_adj(w);
        crate::map::lemma_adj_agrees(w);
        lemma_neighbors_ok(units, mct, momentum, w, adj, best);
        lemma_neighbors_first(units, mct, momentum, w, adj, best);
        let mid = best_over_neighbors(units, mct, momentum, w, adj, best);
        let tl = ls.drop_first();
        lemma_locs_moved(units, mct, momentum, tl, mid);
        let r = best_over_locs(units, mct, momentum, ls, best);
        if r != best {
            if r == mid {
                let k = choose|k: int| 0 <= k < adj.len() && (r->0).1 == (#[trigger] adj[k]).0;
                assert(adj_at(ls[0], (r->0).1, k));
            } else {
                let (j, k) = choose|j: int, k: int|
                    0 <= j < tl.len() && (r->0).2 == tl[j] && #[trigger] adj_at(tl[j], (r->0).1, k);
                assert(tl[j] == ls[j + 1]);
                assert(adj_at(ls[j + 1], (r->0).1, k));
            }
        }
    }
}

proof fn lemma_locs_first_at(
    units: Seq<Unit>,
    mct: Seq<MctMarker>,
    momentum: int,
    ls: Seq<Location>,
    best: Option<(Seq<usize>, Location, Location, int)>,
    j: int,
    nb: Location,
    kn: int,
)
    requires
        best matches Some(x) ==> ai_attack_scored(units, mct, momentum, x),
        0 <= j < ls.len(),
        adj_at(ls[j], nb, kn),
        pairing_ok(units, mct, ls[j], nb),
        best_over_locs(units, mct, momentum, ls, best) is Some,
        (best_over_locs(units, mct, momentum, ls, best)->0).3 == pairing_score(units, mct, momentum, ls[j], nb),
    ensures
        ({
            let r = best_over_locs(units, mct, momentum, ls, best);
            r == best || exists|j2: int, k2: int|
                0 <= j2 <= j && (j2 < j || k2 <= kn) && (r->0).2 == ls[j2] && #[trigger] adj_at(ls[j2], (r->0).1, k2)
        }),
    decreases ls.len(),
{
    let w = ls[0];
    let adj = spec_adj(w);
    crate::map::lemma_adj_agrees(w);
    lemma_neighbors_ok(units, mct, momentum, w, adj, best);
    lemma_neighbors_first(units, mct, momentum, w, adj, best);
    let mid = best_over_neighbors(units, mct, momentum, w, adj, best);
    let tl = ls.drop_first();
    lemma_locs_ok(units, mct, momentum, tl, mid);
    lemma_locs_moved(units, mct, momentum, tl, mid);
    let r = best_over_locs(units, mct, momentum, ls, best);
    if j == 0 {
        assert(pairing_ok(units, mct, w, adj[kn].0));
        if mid != best {
            let k2 = choose|k2: int| 0 <= k2 <= kn && (mid->0).1 == adj[k2].0 && (mid->0).2 == w;
            assert(adj_at(ls[0], (r->0).1, k2));
        }
    } else {
        assert(tl[j - 1] == ls[j]);
        if r == mid {
            if mid != best {
                let k = choose|k: int| 0 <= k < adj.len() && (r->0).1 == (#[trigger] adj[k]).0;
                assert(adj_at(ls[0], (r->0).1, k));
            }
        } else {
            lemma_locs_first_at(units, mct, momentum, tl, mid, j - 1, nb, kn);
            let (j2, k2) = choose|j2: int, k2: int|
                0 <= j2 <= j - 1 && (j2 < j - 1 || k2 <= kn) && (r->0).2 == tl[j2] && #[trigger] adj_at(
                    tl[j2],
                    (r->0).1,
                    k2,
                );
            assert(tl[j2] == ls[j2 + 1]);
            assert(adj_at(ls[j2 + 1], (r->0).1, k2));
        }
    }
}

proof fn lemma_locations_where_has(n: nat, p: spec_fn(Location) -> bool, l: Location)
    requires
        loc_idx(l) < n,
        p(l),
    ensures
        locations_where(n, p).contains(l),
    decreases n,
{
    crate::map::lemma_loc_idx_bounds(l);
    if loc_idx(l) == n - 1 {
        let s = locations_where(n, p);
        assert(s[s.len() - 1] == l);
    } else {
        lemma_locations_where_has((n - 1) as nat, p, l);
        let s0 = locations_where((n - 1) as nat, p);
        let k = choose|k: int| 0 <= k < s0.len() && s0[k] == l;
        assert(locations_where(n, p)[k] == l);
    }
}

proof fn lemma_locations_where_sorted(n: nat, p: spec_fn(Location) -> bool)
    requires
        n <= 13,
    ensures
        forall|a: int, b: int|
            0 <= a < b < locations_where(n, p).len() ==> loc_idx(#[trigger] locations_where(n, p)[a]) < loc_idx(
                #[trigger] locations_where(n, p)[b],
            ),
        forall|a: int| 0 <= a < locations_where(n, p).len() ==> loc_idx(#[trigger] locations_where(n, p)[a]) < n,
    decreases n,
{
    if n > 0 {
        lemma_locations_where_sorted((n - 1) as nat, p);
        crate::map::lemma_loc_at_bounds(n - 1);
        let s0 = locations_where((n - 1) as nat, p);
        let s = locations_where(n, p);
        assert forall|a: int| 0 <= a < s.len() implies loc_idx(#[trigger] s[a]) < n by {
            if a < s0.len() {
                assert(s[a] == s0[a]);
            }
        }
        assert forall|a: int, b: int| 0 <= a < b < s.len() implies loc_idx(#[trigger] s[a]) < loc_idx(#[trigger] s[b]) by {
            assert(s[a] == s0[a]);
            if b < s0.len() {
                assert(s[b] == s0[b]);
            }
        }
    }
}

/// Among attacks of equal best score the Russian AI makes the first it
/// meets: searching the Wagner-held locations in declaration order, and
/// each one's neighbours in map order.
pub proof fn law_ai_first_among_best(units: Seq<Unit>, mct: Seq<MctMarker>, momentum: int, w: Location, nb: Location, kn: int)
    requires
        side_occupies(units, Side::Wagner, w),
        adj_at(w, nb, kn),
        pairing_ok(units, mct, w, nb),
        spec_best_attack(units, mct, momentum) matches Some(x) && x.3 == pairing_score(units, mct, momentum, w, nb),
    ensures
        ({
            let x = spec_best_attack(units, mct, momentum)->0;
            loc_idx(x.2) < loc_idx(w) || (x.2 == w && exists|k2: int| adj_at(w, x.1, k2) && k2 <= kn)
        }),
{
    let ls = locations_where(13, occupied_pred(units, Side::Wagner));
    lemma_locations_where_sorted(13, occupied_pred(units, Side::Wagner));
    crate::map::lemma_loc_idx_bounds(w);
    lemma_locations_where_has(13, occupied_pred(units, Side::Wagner), w);
    let j = choose|j: int| 0 <= j < ls.len() && ls[j] == w;
    assert(adj_at(ls[j], nb, kn));
    lemma_locs_first_at(units, mct, momentum, ls, None, j, nb, kn);
    let x = spec_best_attack(units, mct, momentum)->0;
    let (j2, k2) = choose|j2: int, k2: int|
        0 <= j2 <= j && (j2 < j || k2 <= kn) && x.2 == ls[j2] && adj_at(ls[j2], x.1, k2);
    if j2 < j {
        assert(loc_idx(ls[j2]) < loc_idx(ls[j]));
    }
}

/// Every attack the Russian AI makes reaches an adjusted contact
/// differential of at least +3, with all the attack-capable Russian
/// counters of a location connected to the target; it scores its
/// differential less momentum, less one across a river; and no pairing of
/// a Wagner-held location with a connected location whose attackers reach
/// +3 scores more.  So the AI attacks exactly when such a pairing exists.
pub proof fn law_ai_attacks_only_at_cd3(units: Seq<Unit>, mct: Seq<MctMarker>, momentum: int)
    ensures
        spec_best_attack(units, mct, momentum) matches Some(x) ==> ai_attack_scored(units, mct, momentum, x),
        forall|w: Location, nb: Location|
            side_occupies(units, Side::Wagner, w) && #[trigger] crate::map::spec_edge(w, nb) is Some && pairing_ok(
                units,
                mct,
                w,
                nb,
            ) ==> (spec_best_attack(units, mct, momentum) matches Some(x) && x.3 >= pairing_score(
                units,
                mct,
                momentum,
                w,
                nb,
            )),
{
    let ls = locations_where(13, occupied_pred(units, Side::Wagner));
    lemma_locs_ok(units, mct, momentum, ls, None);
    assert forall|w: Location, nb: Location|
        side_occupies(units, Side::Wagner, w) && #[trigger] crate::map::spec_edge(w, nb) is Some && pairing_ok(
            units,
            mct,
            w,
            nb,
        ) implies (spec_best_attack(units, mct, momentum) matches Some(x) && x.3 >= pairing_score(
        units,
        mct,
        momentum,
        w,
        nb,
    )) by {
        crate::map::lemma_loc_idx_bounds(w);
        lemma_locations_where_has(13, occupied_pred(units, Side::Wagner), w);
        let j = choose|j: int| 0 <= j < ls.len() && ls[j] == w;
        assert(crate::map::spec_edge(ls[j], nb) is Some);
    }
}

proof fn lemma_neighbors_below(
    units: Seq<Unit>,
    mct: Seq<MctMarker>,
    momentum: int,
    w: Location,
    s: Seq<(Location, EdgeProps)>,
)
    requires
        forall|k: int| 0 <= k < s.len() ==> crate::map::spec_edge(w, (#[trigger] s[k]).0) is Some,
        forall|nb: Location|
            #[trigger] crate::map::spec_edge(w, nb) is Some ==> !ai_attack_ok(
                units,
                mct,
                (indices_where(12, ai_attacker_at_pred(units, nb)), nb, w, 0),
            ),
    ensures
        best_over_neighbors(units, mct, momentum, w, s, None) is None,
    decreases s.len(),
{
    if s.len() > 0 {
        assert(crate::map::spec_edge(w, s[0].0) is Some);
        assert(!ai_attack_ok(units, mct, (indices_where(12, ai_attacker_at_pred(units, s[0].0)), s[0].0, w, 0)));
        let t = s.drop_first();
        assert forall|k: int| 0 <= k < t.len() implies crate::map::spec_edge(w, (#[trigger] t[k]).0) is Some by {
            assert(t[k] == s[k + 1]);
        }
        lemma_neighbors_below(units, mct, momentum, w, t);
    }
}

proof fn lemma_locs_below(units: Seq<Unit>, mct: Seq<MctMarker>, momentum: int, ls: Seq<Location>)
    requires
        forall|w: Location, nb: Location|
            #[trigger] crate::map::spec_edge(w, nb) is Some ==> !ai_attack_ok(
                units,
                mct,
                (indices_where(12, ai_attacker_at_pred(units, nb)), nb, w, 0),
            ),
    ensures
        best_over_locs(units, mct, momentum, ls, None) is None,
    decreases ls.len(),
{
    if ls.len() > 0 {
        crate::map::lemma_adj_agrees(ls[0]);
        lemma_neighbors_below(units, mct, momentum, ls[0], spec_adj(ls[0]));
        lemma_locs_below(units, mct, momentum, ls.drop_first());
    }
}

/// When no pairing of a location's attack-capable Russian counters with a
/// connected target reaches an adjusted contact differential of +3, the
/// Russian AI makes no attack.
pub proof fn law_ai_no_attack_below_cd3(units: Seq<Unit>, mct: Seq<MctMarker>, momentum: int)
    requires
        forall|w: Location, nb: Location|
            #[trigger] crate::map::spec_edge(w, nb) is Some ==> !ai_attack_ok(
                units,
                mct,
                (indices_where(12, ai_attacker_at_pred(units, nb)), nb, w, 0),
            ),
    ensures
        spec_best_attack(units, mct, momentum) is None,
{
    lemma_locs_below(units, mct, momentum, locations_where(13, occupied_pred(units, Side::Wagner)));
}

proof fn lemma_step_toward(occ: spec_fn(Location) -> bool, s: Seq<(Location, EdgeProps)>, acc: (Option<Location>, int))
    ensures
        step_toward(occ, s, acc).1 <= acc.1,
        step_toward(occ, s, acc) == acc || (step_toward(occ, s, acc).1 < acc.1 && exists|k: int|
            0 <= k < s.len() && step_toward(occ, s, acc).0 == Some((#[trigger] s[k]).0) && !occ(s[k].0)
                && step_toward(occ, s, acc).1 == hop_count(s[k].0, Location::Moscow)),
        forall|k: int|
            0 <= k < s.len() && !occ((#[trigger] s[k]).0) ==> step_toward(occ, s, acc).1 <= hop_count(
                s[k].0,
                Location::Moscow,
            ),
    decreases s.len(),
{
    if s.len() > 0 {
        let nb = s[0].0;
        let d = hop_count(nb, Location::Moscow);
        let next = if !occ(nb) && d < acc.1 {
            (Some(nb), d)
        } else {
            acc
        };
        let t = s.drop_first();
        lemma_step_toward(occ, t, next);
        let r = step_toward(occ, s, acc);
        if r != acc && r != next {
            let k = choose|k: int|
                0 <= k < t.len() && r.0 == Some((#[trigger] t[k]).0) && !occ(t[k].0) && r.1 == hop_count(
                    t[k].0,
                    Location::Moscow,
                );
            assert(s[k + 1] == t[k]);
        }
        if r != acc && r == next {
            assert(s[0].0 == nb);
        }
        assert forall|k: int| 0 <= k < s.len() && !occ((#[trigger] s[k]).0) implies r.1 <= hop_count(
            s[k].0,
            Location::Moscow,
        ) by {
            if k > 0 {
                assert(t[k - 1] == s[k]);
            }
        }
    }
}

/// Without an attack, a Russian counter marches one step to a connected
/// location free of Wagner counters, strictly closer to Moscow (in moves)
/// than where it stands and no farther from Moscow than any other such
/// location; it stays only when no such location is closer, or when it
/// stands in Moscow or at the Oka River, or has no MP.
pub proof fn law_march_toward_moscow(units: Seq<Unit>, i: int)
    ensures
        spec_move_dest(units, i) matches Some(d) ==> {
            &&& units[i].location matches Some(loc) && loc != Location::Moscow && loc != Location::OkaRiver
                && units[i].base_mp > 0 && crate::map::spec_edge(loc, d) is Some && hop_count(d, Location::Moscow)
                < hop_count(loc, Location::Moscow)
            &&& !side_occupies(units, Side::Wagner, d)
            &&& forall|nb: Location|
                #[trigger] crate::map::spec_edge(units[i].location->0, nb) is Some && !side_occupies(
                    units,
                    Side::Wagner,
                    nb,
                ) ==> hop_count(d, Location::Moscow) <= hop_count(nb, Location::Moscow)
        },
        (spec_move_dest(units, i) is None && units[i].location is Some && units[i].location != Some(
            Location::Moscow,
        ) && units[i].location != Some(Location::OkaRiver) && units[i].base_mp > 0) ==> forall|nb: Location|
            #[trigger] crate::map::spec_edge(units[i].location->0, nb) is Some && !side_occupies(
                units,
                Side::Wagner,
                nb,
            ) ==> hop_count(nb, Location::Moscow) >= hop_count(units[i].location->0, Location::Moscow),
{
    if let Some(loc) = units[i].location {
        if !(loc == Location::Moscow || loc == Location::OkaRiver || units[i].base_mp <= 0) {
            let occ = occupied_pred(units, Side::Wagner);
            let adj = spec_adj(loc);
            let acc = (None::<Location>, hop_count(loc, Location::Moscow));
            lemma_step_toward(occ, adj, acc);
            crate::map::lemma_adj_agrees(loc);
            let r = step_toward(occ, adj, acc);
            assert forall|nb: Location|
                #[trigger] crate::map::spec_edge(loc, nb) is Some && !side_occupies(units, Side::Wagner, nb) implies r.1
                <= hop_count(nb, Location::Moscow) by {
                let k = choose|k: int| 0 <= k < adj.len() && adj[k].0 == nb;
                assert(!occ(adj[k].0));
            }
            if r != acc {
                let k = choose|k: int|
                    0 <= k < adj.len() && r.0 == Some((#[trigger] adj[k]).0) && !occ(adj[k].0) && r.1 == hop_count(
                        adj[k].0,
                        Location::Moscow,
                    );
                assert(crate::map::spec_edge(loc, adj[k].0) == Some(adj[k].1));
            }
        }
    }
}

} // verus!
