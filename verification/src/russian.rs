//! The Russian AI Phase (rulebook 7.0): mobilization, momentum expenditure,
//! roadblock deployment, the AI priority table and attacks, and Akhmat.

use vstd::prelude::*;
use vstd::string::*;

use crate::game::{
    indices_where, locations_where, occupied_pred, lemma_indices_where_members, lemma_log_extends_refl, lemma_log_extends_trans,
    log_entries, log_extends, log_view, logged, lemma_logged_none, lemma_logged_trans, side_occupies, CupItem, GameState, Phase, Screen,
};
use crate::ai::{ai_attacks_step, akhmat_step};
use crate::dice::roll_d6;
use crate::hops::{lemma_hop_row_bounds, spec_hops, spec_route};
use crate::map::{lemma_loc_idx_bounds, spec_adj, spec_location_name, EdgeProps, Location};
use crate::text::{spec_int_str, spec_signed_str};
use crate::units::{lemma_unit_idx_bounds, spec_unit_name, unit_idx, Side, Unit, UnitId};

verus! {

/// Where a counter drawn from the cup deploys: Akhmat in Grozny, the
/// mechanized and armored regiments in Kaluga, the rest in Moscow.
pub open spec fn spec_deploy_target(id: UnitId) -> Location {
    if id == UnitId::Akhmat {
        Location::GroznyAkhmatBase
    } else if id == UnitId::MechanizedRegiment || id == UnitId::ArmoredRegiment {
        Location::Kaluga
    } else {
        Location::Moscow
    }
}

/// The first location of `s` holding no Wagner counter.
pub open spec fn first_free_of_wagner(units: Seq<Unit>, s: Seq<(Location, EdgeProps)>) -> Option<Location>
    decreases s.len(),
{
    if s.len() == 0 {
        None
    } else if !side_occupies(units, Side::Wagner, s[0].0) {
        Some(s[0].0)
    } else {
        first_free_of_wagner(units, s.drop_first())
    }
}

/// Deployment location of a drawn counter: its target unless Wagner holds
/// it, then the first adjacent location free of Wagner, else Moscow.
pub open spec fn spec_deploy_loc(units: Seq<Unit>, id: UnitId) -> Location {
    let t = spec_deploy_target(id);
    if side_occupies(units, Side::Wagner, t) {
        match first_free_of_wagner(units, spec_adj(t)) {
            Some(n) => n,
            None => Location::Moscow,
        }
    } else {
        t
    }
}

pub open spec fn silent_pred(units: Seq<Unit>) -> spec_fn(int) -> bool {
    |j: int| units[j].side == Side::Russia && units[j].location is Some && !units[j].is_reduced
        && units[j].has_reduced_side
}

/// The counters of `idxs` flipped to their reduced side.
pub open spec fn spec_flip_reduced(units: Seq<Unit>, idxs: Seq<usize>) -> Seq<Unit>
    decreases idxs.len(),
{
    if idxs.len() == 0 {
        units
    } else {
        let us = spec_flip_reduced(units, idxs.drop_last());
        let i = idxs.last() as int;
        us.update(i, Unit { is_reduced: true, ..us[i] })
    }
}

/// 'The People Are Silent': with positive momentum, that many full-strength
/// Russian counters with a reduced side (in counter order) flip.
pub open spec fn spec_silent_targets(units: Seq<Unit>, momentum: int) -> Seq<usize> {
    let r = indices_where(12, silent_pred(units));
    let count = if momentum < r.len() {
        momentum
    } else {
        r.len() as int
    };
    r.take(count)
}

/// The first index below `n` that satisfies `p`.
pub open spec fn first_index(n: nat, p: spec_fn(int) -> bool) -> Option<int>
    decreases n,
{
    if n == 0 {
        None
    } else {
        match first_index((n - 1) as nat, p) {
            Some(i) => Some(i),
            None => if p(n - 1) {
                Some(n - 1)
            } else {
                None
            },
        }
    }
}

/// Once found, the first index stays the same as the range grows, and it
/// lies in the range.
pub proof fn lemma_first_index_stable(m: nat, n: nat, p: spec_fn(int) -> bool)
    requires
        m <= n,
        first_index(m, p) is Some,
    ensures
        first_index(n, p) == first_index(m, p),
        0 <= first_index(m, p).unwrap() < m,
    decreases n,
{
    if n > m {
        lemma_first_index_stable(m, (n - 1) as nat, p);
    } else {
        lemma_first_index_bounds(m, p);
    }
}

proof fn lemma_first_index_bounds(n: nat, p: spec_fn(int) -> bool)
    ensures
        first_index(n, p) matches Some(i) ==> 0 <= i < n && p(i),
    decreases n,
{
    if n > 0 {
        lemma_first_index_bounds((n - 1) as nat, p);
    }
}

/// A reduced Russian counter on the map.
pub open spec fn reduced_russian_pred(units: Seq<Unit>) -> spec_fn(int) -> bool {
    |j: int| units[j].side == Side::Russia && units[j].location is Some && units[j].is_reduced
}

/// A reduced Russian counter on the map other than `except`.
pub open spec fn reduced_russian_except_pred(units: Seq<Unit>, except: int) -> spec_fn(int) -> bool {
    |j: int| j != except && units[j].side == Side::Russia && units[j].location is Some && units[j].is_reduced
}

/// An eliminated (off-map, not dispersed) Russian counter that can be
/// rebuilt: to full strength any, to its reduced side one that has one.
pub open spec fn rebuildable_pred(units: Seq<Unit>, full: bool) -> spec_fn(int) -> bool {
    |j: int| units[j].side == Side::Russia && units[j].location is None && !units[j].dispersed
        && (full || units[j].has_reduced_side)
}

/// Counter `i` restored to full strength.
pub open spec fn spec_restore(units: Seq<Unit>, i: int) -> Seq<Unit> {
    units.update(i, Unit { is_reduced: false, ..units[i] })
}

/// The first reduced Russian counter on the map restored, if there is one.
pub open spec fn spec_restore_first(units: Seq<Unit>) -> Seq<Unit> {
    match first_index(12, reduced_russian_pred(units)) {
        Some(i) => spec_restore(units, i),
        None => units,
    }
}

/// The first rebuildable Russian counter placed in Moscow, reduced unless
/// `full`, if there is one.
pub open spec fn spec_rebuild(units: Seq<Unit>, full: bool) -> Seq<Unit> {
    match first_index(12, rebuildable_pred(units, full)) {
        Some(i) => units.update(i, Unit { location: Some(Location::Moscow), is_reduced: !full, ..units[i] }),
        None => units,
    }
}

/// 7.2: the counters after the AI spends `spend` points of negative momentum.
/// One point restores a reduced counter; two restore two, or restore what
/// there is and rebuild an eliminated counter reduced in Moscow; three
/// rebuild one at full strength and then restore up to three.
pub open spec fn spec_spend_momentum(units: Seq<Unit>, spend: int) -> Seq<Unit> {
    if spend == 1 {
        spec_restore_first(units)
    } else if spend == 2 {
        match first_index(12, reduced_russian_pred(units)) {
            Some(i) => match first_index(12, reduced_russian_except_pred(units, i)) {
                Some(j) => spec_restore(spec_restore(units, i), j),
                None => spec_rebuild(spec_restore(units, i), false),
            },
            None => spec_rebuild(units, false),
        }
    } else if spend == 3 {
        spec_restore_first(spec_restore_first(spec_restore_first(spec_rebuild(units, true))))
    } else {
        units
    }
}

/// Hop count from `a` to `b`, `usize::MAX` where no route exists.
pub open spec fn hop_count(a: Location, b: Location) -> int {
    match spec_hops(a, b) {
        Some(d) => d,
        None => usize::MAX as int,
    }
}

/// The first location of `s` with the strictly smallest hop count to `to`
/// (none counts as closer than `usize::MAX`), with that count.
pub open spec fn closest_in(s: Seq<Location>, to: Location) -> (Option<Location>, int)
    decreases s.len(),
{
    if s.len() == 0 {
        (None, usize::MAX as int)
    } else {
        let prev = closest_in(s.drop_last(), to);
        let d = hop_count(s.last(), to);
        if d < prev.1 {
            (Some(s.last()), d)
        } else {
            prev
        }
    }
}

/// The Wagner-held location closest to Moscow, the earliest in declaration
/// order on a tie.
pub open spec fn spec_closest_wagner(units: Seq<Unit>) -> Option<Location> {
    closest_in(locations_where(13, occupied_pred(units, Side::Wagner)), Location::Moscow).0
}

/// A location where a roadblock may go on the way from `w`: not `w`
/// itself, not Rostov or Grozny, and not already a roadblock.
pub open spec fn roadblock_ok(rb: Seq<Option<Location>>, w: Location, loc: Location) -> bool {
    &&& loc != w
    &&& loc != Location::RostovOnDon
    &&& loc != Location::GroznyAkhmatBase
    &&& rb[0] != Some(loc)
    &&& rb[1] != Some(loc)
}

/// The first location of `s` where a roadblock may go.
pub open spec fn first_roadblock_site(s: Seq<Location>, rb: Seq<Option<Location>>, w: Location) -> Option<Location>
    decreases s.len(),
{
    if s.len() == 0 {
        None
    } else if roadblock_ok(rb, w, s[0]) {
        Some(s[0])
    } else {
        first_roadblock_site(s.drop_first(), rb, w)
    }
}

/// 7.3: the roadblocks after deployment. On the route from the Wagner
/// location closest to Moscow, the first permitted location takes the
/// first empty slot, or the second roadblock moves there.
pub open spec fn spec_roadblocks_after(units: Seq<Unit>, rb: Seq<Option<Location>>) -> Seq<Option<Location>> {
    match spec_closest_wagner(units) {
        Some(w) => match first_roadblock_site(spec_route(w, Location::Moscow), rb, w) {
            Some(loc) => if rb[0] is None {
                rb.update(0, Some(loc))
            } else {
                rb.update(1, Some(loc))
            },
            None => rb,
        },
        None => rb,
    }
}

/// The log messages of 'The People Are Silent' flipping the counters `t`.
pub open spec fn spec_silent_msgs(units: Seq<Unit>, t: Seq<usize>, momentum: int) -> Seq<Seq<char>> {
    t.map_values(
        |i: usize|
            spec_unit_name(units[i as int].id) + " flipped to REDUCED (People Are Silent, momentum "@ + spec_signed_str(
                momentum,
            ) + ")"@,
    )
}

/// The log messages of a Moscow Mobilization draw.
pub open spec fn spec_mobilization_msgs(a: GameState) -> Seq<Seq<char>> {
    if a.cup@.len() == 0 {
        seq!["Moscow Mobilization Cup is empty."@]
    } else {
        match a.cup@[0] {
            CupItem::PeopleAreSilent => seq!["'The People Are Silent' drawn from cup!"@] + if a.momentum > 0 {
                spec_silent_msgs(a.units@, spec_silent_targets(a.units@, a.momentum as int), a.momentum as int)
            } else {
                seq!["No reduction effect (Momentum 0 or less)."@]
            },
            CupItem::Roadblock2 => seq!["Second Roadblock marker drawn. Placed at Oka River."@],
            CupItem::Unit(id) => seq![
                spec_unit_name(id) + " deployed to "@ + spec_location_name(spec_deploy_loc(a.units@, id))
                    + " from Moscow Mobilization Cup."@,
            ],
        }
    }
}

/// The log message of a roadblock deployment, if one is placed.
pub open spec fn spec_roadblock_msgs(units: Seq<Unit>, rb: Seq<Option<Location>>) -> Seq<Seq<char>> {
    match spec_closest_wagner(units) {
        Some(w) => match first_roadblock_site(spec_route(w, Location::Moscow), rb, w) {
            Some(loc) => if rb[0] is None {
                seq!["Roadblock 1 deployed at "@ + spec_location_name(loc) + "."@]
            } else if rb[1] is None {
                seq!["Roadblock 2 deployed at "@ + spec_location_name(loc) + "."@]
            } else {
                seq!["Roadblock 2 repositioned "@ + spec_location_name(rb[1].unwrap()) + " → "@ + spec_location_name(loc)
                    + "."@]
            },
            None => Seq::empty(),
        },
        None => Seq::empty(),
    }
}

/// The log message of restoring counter `i`.
pub open spec fn spec_restore_msg(units: Seq<Unit>, i: int) -> Seq<char> {
    spec_unit_name(units[i].id) + " restored to full strength."@
}

/// The log message of restoring the first reduced counter, if any.
pub open spec fn spec_restore_first_msgs(units: Seq<Unit>) -> Seq<Seq<char>> {
    match first_index(12, reduced_russian_pred(units)) {
        Some(i) => seq![spec_restore_msg(units, i)],
        None => Seq::empty(),
    }
}

/// The log message of rebuilding the first rebuildable counter, if any.
pub open spec fn spec_rebuild_msgs(units: Seq<Unit>, full: bool) -> Seq<Seq<char>> {
    match first_index(12, rebuildable_pred(units, full)) {
        Some(i) => seq![
            spec_unit_name(units[i].id) + if full {
                " rebuilt to FULL strength and placed in Moscow."@
            } else {
                " rebuilt to REDUCED and placed in Moscow."@
            },
        ],
        None => Seq::empty(),
    }
}

/// The log messages of the counters restored and rebuilt by spending
/// `spend` points, in the order of `spec_spend_momentum`.
pub open spec fn spec_spend_msgs(units: Seq<Unit>, spend: int) -> Seq<Seq<char>> {
    if spend == 1 {
        spec_restore_first_msgs(units)
    } else if spend == 2 {
        match first_index(12, reduced_russian_pred(units)) {
            Some(i) => match first_index(12, reduced_russian_except_pred(units, i)) {
                Some(j) => seq![spec_restore_msg(units, i), spec_restore_msg(spec_restore(units, i), j)],
                None => seq![spec_restore_msg(units, i)] + spec_rebuild_msgs(spec_restore(units, i), false),
            },
            None => spec_rebuild_msgs(units, false),
        }
    } else if spend == 3 {
        let u1 = spec_rebuild(units, true);
        let u2 = spec_restore_first(u1);
        let u3 = spec_restore_first(u2);
        spec_rebuild_msgs(units, true) + spec_restore_first_msgs(u1) + spec_restore_first_msgs(u2)
            + spec_restore_first_msgs(u3)
    } else {
        Seq::empty()
    }
}

/// The log messages of spending negative momentum `m`.
pub open spec fn spec_expenditure_msgs(units: Seq<Unit>, m: int) -> Seq<Seq<char>> {
    seq!["Russian AI spending "@ + spec_int_str(-m) + " negative momentum."@] + spec_spend_msgs(units, -m) + seq![
        "Momentum spent: "@ + spec_signed_str(m) + " \u{2192} 0"@,
    ]
}

/// 7.1 Moscow Mobilization: the first item of the cup is drawn. 'The
/// People Are Silent' flips Russian counters with positive momentum; the
/// second roadblock goes to the Oka River; a counter deploys.
pub open spec fn mobilization_step(a: GameState, b: GameState) -> bool {
    &&& log_extends(a, b)
    &&& logged(a, b, spec_mobilization_msgs(a))
    &&& a.cup@.len() == 0 ==> b == (GameState { log: b.log, ..a })
    &&& a.cup@.len() > 0 ==> b.cup@ == a.cup@.drop_first()
    &&& a.cup@.len() > 0 ==> match a.cup@[0] {
        CupItem::PeopleAreSilent => {
            let t = if a.momentum > 0 {
                spec_silent_targets(a.units@, a.momentum as int)
            } else {
                Seq::empty()
            };
            &&& b.units@ == spec_flip_reduced(a.units@, t)
            &&& b == (GameState {
                log: b.log,
                cup: b.cup,
                units: b.units,
                people_are_silent_pulled: true,
                russian_reduced_this_turn: a.russian_reduced_this_turn || t.len() > 0,
                ..a
            })
        },
        CupItem::Roadblock2 => {
            &&& b.roadblocks@ == a.roadblocks@.update(1, Some(Location::OkaRiver))
            &&& b == (GameState { log: b.log, cup: b.cup, roadblocks: b.roadblocks, ..a })
        },
        CupItem::Unit(id) => {
            &&& b.units@ == a.units@.update(
                unit_idx(id),
                Unit { location: Some(spec_deploy_loc(a.units@, id)), ..a.units@[unit_idx(id)] },
            )
            &&& b == (GameState { log: b.log, cup: b.cup, units: b.units, ..a })
        },
    }
}

/// 7.2 Russian Momentum Expenditure: negative momentum is spent on the
/// counters and returns to 0; otherwise nothing changes.
pub open spec fn expenditure_step(a: GameState, b: GameState) -> bool {
    &&& log_extends(a, b)
    &&& a.momentum < 0 ==> logged(a, b, spec_expenditure_msgs(a.units@, a.momentum as int))
    &&& a.momentum >= 0 ==> b == a
    &&& a.momentum < 0 ==> b.units@ == spec_spend_momentum(a.units@, -a.momentum)
    &&& a.momentum < 0 ==> b == (GameState { log: b.log, units: b.units, momentum: 0, ..a })
}

/// 7.3 Deploy Roadblock: only the roadblocks change.
pub open spec fn roadblock_step(a: GameState, b: GameState) -> bool {
    &&& log_extends(a, b)
    &&& logged(a, b, spec_roadblock_msgs(a.units@, a.roadblocks@))
    &&& b.roadblocks@ == spec_roadblocks_after(a.units@, a.roadblocks@)
    &&& b == (GameState { log: b.log, roadblocks: b.roadblocks, ..a })
}

/// Every Russian counter's spent MP back to 0.
pub open spec fn spec_reset_russian_mp(units: Seq<Unit>) -> Seq<Unit> {
    Seq::new(
        units.len(),
        |i: int| if units[i].side == Side::Russia {
            Unit { mp_spent: 0, ..units[i] }
        } else {
            units[i]
        },
    )
}

/// The Russian AI Phase (7.0) from `a` to `b` through the states `s0` to
/// `s5`: the phase opens, then mobilization, momentum expenditure,
/// roadblock deployment, Russian MP reset, the attacks with
/// `attack_roll`, and Akhmat with `tiktok_roll` and `akhmat_roll`.
pub open spec fn russian_phase_chain(
    a: GameState,
    s0: GameState,
    s1: GameState,
    s2: GameState,
    s3: GameState,
    s4: GameState,
    s5: GameState,
    b: GameState,
    attack_roll: int,
    tiktok_roll: int,
    akhmat_roll: int,
) -> bool {
    &&& s0 == (GameState { phase: Phase::RussianAI, screen: s0.screen, cursor: 0, log: s0.log, ..a })
    &&& s0.screen is RussianPhaseDisplay
    &&& log_extends(a, s0)
    &&& logged(a, s0, seq!["\u{2500}\u{2500} Russian AI Phase \u{2500}\u{2500}"@])
    &&& mobilization_step(s0, s1)
    &&& expenditure_step(s1, s2)
    &&& roadblock_step(s2, s3)
    &&& s4.units@ == spec_reset_russian_mp(s3.units@)
    &&& s4 == (GameState { units: s4.units, ..s3 })
    &&& ai_attacks_step(s4, s5, attack_roll)
    &&& akhmat_step(s5, b, tiktok_roll, akhmat_roll)
}

/// The Russian AI Phase for some three dice.
pub open spec fn russian_phase_step(a: GameState, b: GameState) -> bool {
    exists|s0: GameState, s1: GameState, s2: GameState, s3: GameState, s4: GameState, s5: GameState, r1: int, r2: int, r3: int|
        1 <= r1 <= 6 && 1 <= r2 <= 6 && 1 <= r3 <= 6 && #[trigger] russian_phase_chain(
            a,
            s0,
            s1,
            s2,
            s3,
            s4,
            s5,
            b,
            r1,
            r2,
            r3,
        )
}

impl GameState {
    /// 7.1 Moscow Mobilization: draw the first item of the cup.
    pub fn run_russian_mobilization(&mut self)
        requires
            old(self).wf(),
        ensures
            final(self).wf(),
            mobilization_step(*old(self), *final(self)),
    {
        if self.cup.len() == 0 {
            self.record(String::from_str("Moscow Mobilization Cup is empty."));
            return;
        }
        let item = self.cup.remove(0);
        proof {
            assert(self.cup@ =~= old(self).cup@.drop_first());
        }
        let ghost g1 = *self;
        match item {
            CupItem::PeopleAreSilent => {
                self.people_are_silent_pulled = true;
                self.record(String::from_str("'The People Are Silent' drawn from cup!"));
                let ghost g2 = *self;
                if self.momentum > 0 {
                    self.silent_reduce();
                    proof {
                        lemma_logged_trans(
                            *old(self),
                            g2,
                            *self,
                            seq!["'The People Are Silent' drawn from cup!"@],
                            spec_silent_msgs(
                                old(self).units@,
                                spec_silent_targets(old(self).units@, old(self).momentum as int),
                                old(self).momentum as int,
                            ),
                        );
                    }
                } else {
                    self.record(String::from_str("No reduction effect (Momentum 0 or less)."));
                    proof {
                        assert(spec_flip_reduced(old(self).units@, Seq::empty()) == old(self).units@);
                        lemma_logged_trans(
                            *old(self),
                            g2,
                            *self,
                            seq!["'The People Are Silent' drawn from cup!"@],
                            seq!["No reduction effect (Momentum 0 or less)."@],
                        );
                    }
                }
                proof {
                    lemma_log_extends_trans(*old(self), g2, *self);
                }
            },
            CupItem::Roadblock2 => {
                self.roadblocks[1] = Some(Location::OkaRiver);
                self.record(String::from_str("Second Roadblock marker drawn. Placed at Oka River."));
            },
            CupItem::Unit(unit_id) => {
                let final_loc = self.deploy_location(unit_id);
                match self.find_unit_mut(unit_id) {
                    Some(unit) => {
                        unit.location = Some(final_loc);
                    },
                    None => {},
                }
                proof {
                    lemma_unit_idx_bounds(unit_id);
                    assert forall|k: int| 0 <= k < 12 implies crate::units::unit_static_ok(#[trigger] self.units@[k], k) by {
                        assert(crate::units::unit_static_ok(old(self).units@[k], k));
                    }
                }
                let mut m = String::from_str(unit_id.name());
                m.append(" deployed to ");
                m.append(final_loc.name());
                m.append(" from Moscow Mobilization Cup.");
                self.record(m);
            },
        }
    }

    /// Deployment location of a counter drawn from the cup.
    fn deploy_location(&self, unit_id: UnitId) -> (r: Location)
        requires
            self.wf(),
        ensures
            r == spec_deploy_loc(self.units@, unit_id),
    {
        let deploy_loc = match unit_id {
            UnitId::Akhmat => Location::GroznyAkhmatBase,
            UnitId::MechanizedRegiment | UnitId::ArmoredRegiment => Location::Kaluga,
            _ => Location::Moscow,
        };
        assert(deploy_loc == spec_deploy_target(unit_id));
        if self.any_wagner_at(deploy_loc) {
            let neighbors = self.map.neighbors(deploy_loc);
            let mut n: usize = 0;
            proof {
                assert(neighbors@.subrange(0, neighbors@.len() as int) =~= neighbors@);
            }
            while n < neighbors.len()
                invariant
                    neighbors@ == spec_adj(deploy_loc),
                    deploy_loc == spec_deploy_target(unit_id),
                    side_occupies(self.units@, Side::Wagner, deploy_loc),
                    n <= neighbors@.len(),
                    first_free_of_wagner(self.units@, neighbors@.subrange(n as int, neighbors@.len() as int))
                        == first_free_of_wagner(self.units@, spec_adj(deploy_loc)),
                decreases neighbors@.len() - n,
            {
                proof {
                    assert(neighbors@.subrange(n as int, neighbors@.len() as int).drop_first() =~= neighbors@.subrange(
                        n + 1,
                        neighbors@.len() as int,
                    ));
                }
                let (cand, _) = neighbors[n];
                proof {
                    assert(neighbors@.subrange(n as int, neighbors@.len() as int)[0] == neighbors@[n as int]);
                }
                if !self.any_wagner_at(cand) {
                    assert(first_free_of_wagner(self.units@, neighbors@.subrange(n as int, neighbors@.len() as int))
                        == Some(cand));
                    return cand;
                }
                n = n + 1;
            }
            Location::Moscow
        } else {
            deploy_loc
        }
    }

    /// Does a Wagner counter stand at `loc`?
    pub(crate) fn any_wagner_at(&self, loc: Location) -> (r: bool)
        ensures
            r == side_occupies(self.units@, Side::Wagner, loc),
    {
        let mut i: usize = 0;
        while i < self.units.len()
            invariant
                i <= self.units@.len(),
                forall|j: int| 0 <= j < i ==> !(self.units@[j].side == Side::Wagner && self.units@[j].location == Some(loc)),
            decreases self.units@.len() - i,
        {
            if self.units[i].side == Side::Wagner && self.units[i].location == Some(loc) {
                return true;
            }
            i = i + 1;
        }
        false
    }

    /// 'The People Are Silent' with positive momentum.
    fn silent_reduce(&mut self)
        requires
            old(self).wf(),
            old(self).momentum > 0,
        ensures
            final(self).wf(),
            log_extends(*old(self), *final(self)),
            final(self).units@ == spec_flip_reduced(
                old(self).units@,
                spec_silent_targets(old(self).units@, old(self).momentum as int),
            ),
            *final(self) == (GameState {
                log: final(self).log,
                units: final(self).units,
                russian_reduced_this_turn: old(self).russian_reduced_this_turn
                    || spec_silent_targets(old(self).units@, old(self).momentum as int).len() > 0,
                ..*old(self)
            }),
            logged(
                *old(self),
                *final(self),
                spec_silent_msgs(
                    old(self).units@,
                    spec_silent_targets(old(self).units@, old(self).momentum as int),
                    old(self).momentum as int,
                ),
            ),
    {
        let mut reducible: Vec<usize> = Vec::new();
        let mut i: usize = 0;
        while i < self.units.len()
            invariant
                self.wf(),
                i <= 12,
                reducible@ == indices_where(i as nat, silent_pred(self.units@)),
            decreases 12 - i,
        {
            let u = self.units[i];
            if u.side == Side::Russia && u.is_on_map() && !u.is_reduced && u.has_reduced_side {
                reducible.push(i);
            }
            i = i + 1;
        }
        proof {
            lemma_indices_where_members(12, silent_pred(self.units@));
        }
        let m = self.momentum as usize;
        let count = if m < reducible.len() {
            m
        } else {
            reducible.len()
        };
        let ghost targets = reducible@.take(count as int);
        assert(targets == spec_silent_targets(old(self).units@, old(self).momentum as int));
        let mut k: usize = 0;
        proof {
            lemma_log_extends_refl(*self);
            lemma_logged_none(*self);
            assert(spec_silent_msgs(old(self).units@, targets.take(0), old(self).momentum as int) =~= Seq::empty());
        }
        while k < count
            invariant
                self.wf(),
                k <= count,
                count <= reducible@.len(),
                targets == reducible@.take(count as int),
                old(self).wf(),
                logged(*old(self), *self, spec_silent_msgs(old(self).units@, targets.take(k as int), old(self).momentum as int)),
                forall|q: int| 0 <= q < reducible@.len() ==> #[trigger] reducible@[q] < 12,
                self.units@ == spec_flip_reduced(old(self).units@, targets.take(k as int)),
                log_extends(*old(self), *self),
                *self == (GameState {
                    log: self.log,
                    units: self.units,
                    russian_reduced_this_turn: old(self).russian_reduced_this_turn || k > 0,
                    ..*old(self)
                }),
            decreases count - k,
        {
            proof {
                assert(targets.take(k + 1).drop_last() == targets.take(k as int));
            }
            let idx = reducible[k];
            proof {
                assert(targets[k as int] == idx);
            }
            let ghost before = *self;
            self.flip_one(idx);
            proof {
                lemma_log_extends_trans(*old(self), before, *self);
                assert(crate::units::unit_static_ok(before.units@[idx as int], idx as int));
                assert(crate::units::unit_static_ok(old(self).units@[idx as int], idx as int));
                let msg = spec_unit_name(before.units@[idx as int].id)
                    + " flipped to REDUCED (People Are Silent, momentum "@ + spec_signed_str(old(self).momentum as int)
                    + ")"@;
                lemma_logged_trans(
                    *old(self),
                    before,
                    *self,
                    spec_silent_msgs(old(self).units@, targets.take(k as int), old(self).momentum as int),
                    seq![msg],
                );
                assert(spec_silent_msgs(old(self).units@, targets.take(k + 1), old(self).momentum as int) =~= spec_silent_msgs(
                    old(self).units@,
                    targets.take(k as int),
                    old(self).momentum as int,
                ) + seq![msg]);
            }
            k = k + 1;
        }
        proof {
            assert(targets.take(count as int) == targets);
        }
    }
    /// Flip counter `idx` to its reduced side for 'The People Are Silent'.
    fn flip_one(&mut self, idx: usize)
        requires
            old(self).wf(),
            idx < 12,
        ensures
            final(self).wf(),
            final(self).units@ == old(self).units@.update(
                idx as int,
                Unit { is_reduced: true, ..old(self).units@[idx as int] },
            ),
            *final(self) == (GameState {
                log: final(self).log,
                units: final(self).units,
                russian_reduced_this_turn: true,
                ..*old(self)
            }),
            log_extends(*old(self), *final(self)),
            logged(
                *old(self),
                *final(self),
                seq![
                    spec_unit_name(old(self).units@[idx as int].id) + " flipped to REDUCED (People Are Silent, momentum "@
                        + spec_signed_str(old(self).momentum as int) + ")"@,
                ],
            ),
    {
        let mut u = self.units[idx];
        let name = u.id.name();
        u.is_reduced = true;
        self.set_unit(idx, u);
        let mut msg = String::from_str(name);
        msg.append(" flipped to REDUCED (People Are Silent, momentum ");
        msg.append(crate::text::i64_to_signed_string(self.momentum as i64).as_str());
        msg.append(")");
        self.record(msg);
        self.russian_reduced_this_turn = true;
    }

    /// 7.2 Russian Momentum Expenditure: the AI spends negative momentum
    /// and momentum returns to 0.
    pub fn run_russian_momentum_expenditure(&mut self)
        requires
            old(self).wf(),
        ensures
            final(self).wf(),
            expenditure_step(*old(self), *final(self)),
    {
        if self.momentum >= 0 {
            proof {
                lemma_log_extends_refl(*self);
            }
            return;
        }
        let spend: i32 = -self.momentum;
        let mut m = String::from_str("Russian AI spending ");
        m.append(crate::text::i64_to_string(spend as i64).as_str());
        m.append(" negative momentum.");
        self.record(m);
        let ghost g1 = *self;
        self.spend_momentum(spend);
        let ghost g5 = *self;
        let old_m = self.momentum;
        self.momentum = 0;
        let mut m2 = String::from_str("Momentum spent: ");
        m2.append(crate::text::i64_to_signed_string(old_m as i64).as_str());
        m2.append(" \u{2192} 0");
        let ghost g6 = *self;
        self.record(m2);
        proof {
            lemma_log_extends_trans(*old(self), g1, g5);
            lemma_log_extends_trans(*old(self), g5, *self);
            let first = seq!["Russian AI spending "@ + spec_int_str(spend as int) + " negative momentum."@];
            let mid = spec_spend_msgs(old(self).units@, spend as int);
            let last = seq!["Momentum spent: "@ + spec_signed_str(old_m as int) + " \u{2192} 0"@];
            assert(logged(*old(self), g1, first));
            assert(logged(g1, g5, mid));
            lemma_logged_trans(*old(self), g1, g5, first, mid);
            assert(log_view(*self) =~= log_view(g5) + log_entries(g5.turn, last));
            assert(log_entries(old(self).turn, first + mid + last) =~= log_entries(old(self).turn, first + mid)
                + log_entries(old(self).turn, last));
            assert(first + mid + last =~= spec_expenditure_msgs(old(self).units@, old_m as int));
            assert(g5.turn == old(self).turn);
            assert(log_view(*self) =~= log_view(*old(self)) + log_entries(old(self).turn, first + mid + last));
            assert(logged(*old(self), *self, spec_expenditure_msgs(old(self).units@, old(self).momentum as int)));
            assert(self.units@ == spec_spend_momentum(old(self).units@, -old(self).momentum));
        }
    }

    /// Spend `spend` points of negative momentum on the counters.
    #[verifier::rlimit(40)]
    fn spend_momentum(&mut self, spend: i32)
        requires
            old(self).wf(),
            1 <= spend <= 3,
        ensures
            final(self).wf(),
            final(self).units@ == spec_spend_momentum(old(self).units@, spend as int),
            *final(self) == (GameState { log: final(self).log, units: final(self).units, ..*old(self) }),
            log_extends(*old(self), *final(self)),
            logged(*old(self), *final(self), spec_spend_msgs(old(self).units@, spend as int)),
    {
        let ghost g1 = *self;
        let ghost u0 = old(self).units@;
        if spend == 1 {
            self.restore_first_reduced();
        } else if spend == 2 {
            let r1 = self.find_reduced_russian();
            match r1 {
                Some(i) => {
                    let r2 = self.find_reduced_russian_except(i);
                    match r2 {
                        Some(j) => {
                            self.restore_reduced(i);
                            let ghost g2 = *self;
                            self.restore_reduced(j);
                            proof {
                                lemma_log_extends_trans(g1, g2, *self);
                                lemma_logged_trans(
                                    g1,
                                    g2,
                                    *self,
                                    seq![spec_restore_msg(u0, i as int)],
                                    seq![spec_restore_msg(spec_restore(u0, i as int), j as int)],
                                );
                                assert(seq![spec_restore_msg(u0, i as int)] + seq![
                                    spec_restore_msg(spec_restore(u0, i as int), j as int),
                                ] =~= spec_spend_msgs(u0, 2));
                            }
                        },
                        None => {
                            self.restore_reduced(i);
                            let ghost g2 = *self;
                            self.rebuild_eliminated_russian();
                            proof {
                                lemma_log_extends_trans(g1, g2, *self);
                                lemma_logged_trans(
                                    g1,
                                    g2,
                                    *self,
                                    seq![spec_restore_msg(u0, i as int)],
                                    spec_rebuild_msgs(spec_restore(u0, i as int), false),
                                );
                            }
                        },
                    }
                },
                None => {
                    self.rebuild_eliminated_russian();
                },
            }
        } else {
            self.rebuild_eliminated_russian_full();
            let ghost g2 = *self;
            self.restore_first_reduced();
            let ghost g3 = *self;
            self.restore_first_reduced();
            let ghost g4 = *self;
            self.restore_first_reduced();
            proof {
                lemma_log_extends_trans(g1, g2, g3);
                lemma_log_extends_trans(g1, g3, g4);
                lemma_log_extends_trans(g1, g4, *self);
                let u1 = spec_rebuild(u0, true);
                let u2 = spec_restore_first(u1);
                let u3 = spec_restore_first(u2);
                lemma_logged_trans(g1, g2, g3, spec_rebuild_msgs(u0, true), spec_restore_first_msgs(u1));
                lemma_logged_trans(
                    g1,
                    g3,
                    g4,
                    spec_rebuild_msgs(u0, true) + spec_restore_first_msgs(u1),
                    spec_restore_first_msgs(u2),
                );
                lemma_logged_trans(
                    g1,
                    g4,
                    *self,
                    spec_rebuild_msgs(u0, true) + spec_restore_first_msgs(u1) + spec_restore_first_msgs(u2),
                    spec_restore_first_msgs(u3),
                );
            }
        }
    }

    /// Index of the first reduced Russian counter on the map.
    fn find_reduced_russian(&self) -> (r: Option<usize>)
        requires
            self.wf(),
        ensures
            match r {
                Some(i) => i < 12 && first_index(12, reduced_russian_pred(self.units@)) == Some(i as int),
                None => first_index(12, reduced_russian_pred(self.units@)) is None,
            },
    {
        let mut i: usize = 0;
        while i < 12
            invariant
                self.wf(),
                i <= 12,
                first_index(i as nat, reduced_russian_pred(self.units@)) is None,
            decreases 12 - i,
        {
            let u = self.units[i];
            if u.side == Side::Russia && u.is_on_map() && u.is_reduced {
                proof {
                    assert(first_index((i + 1) as nat, reduced_russian_pred(self.units@)) == Some(i as int));
                    lemma_first_index_stable((i + 1) as nat, 12, reduced_russian_pred(self.units@));
                }
                return Some(i);
            }
            i = i + 1;
        }
        None
    }

    /// Index of the first reduced Russian counter on the map other than
    /// `except`.
    fn find_reduced_russian_except(&self, except: usize) -> (r: Option<usize>)
        requires
            self.wf(),
        ensures
            match r {
                Some(i) => i < 12 && first_index(12, reduced_russian_except_pred(self.units@, except as int)) == Some(
                    i as int,
                ),
                None => first_index(12, reduced_russian_except_pred(self.units@, except as int)) is None,
            },
    {
        let mut i: usize = 0;
        while i < 12
            invariant
                self.wf(),
                i <= 12,
                first_index(i as nat, reduced_russian_except_pred(self.units@, except as int)) is None,
            decreases 12 - i,
        {
            let u = self.units[i];
            if i != except && u.side == Side::Russia && u.is_on_map() && u.is_reduced {
                proof {
                    assert(first_index((i + 1) as nat, reduced_russian_except_pred(self.units@, except as int)) == Some(i as int));
                    lemma_first_index_stable((i + 1) as nat, 12, reduced_russian_except_pred(self.units@, except as int));
                }
                return Some(i);
            }
            i = i + 1;
        }
        None
    }

    /// Restore counter `idx` to full strength and log it.
    fn restore_reduced(&mut self, idx: usize)
        requires
            old(self).wf(),
            idx < 12,
        ensures
            final(self).wf(),
            log_extends(*old(self), *final(self)),
            final(self).units@ == spec_restore(old(self).units@, idx as int),
            *final(self) == (GameState { log: final(self).log, units: final(self).units, ..*old(self) }),
            logged(*old(self), *final(self), seq![spec_restore_msg(old(self).units@, idx as int)]),
    {
        let mut u = self.units[idx];
        let name = u.id.name();
        u.is_reduced = false;
        self.set_unit(idx, u);
        let mut m = String::from_str(name);
        m.append(" restored to full strength.");
        self.record(m);
    }

    /// Restore the first reduced Russian counter on the map, if any.
    fn restore_first_reduced(&mut self)
        requires
            old(self).wf(),
        ensures
            final(self).wf(),
            log_extends(*old(self), *final(self)),
            final(self).units@ == spec_restore_first(old(self).units@),
            *final(self) == (GameState { log: final(self).log, units: final(self).units, ..*old(self) }),
            logged(*old(self), *final(self), spec_restore_first_msgs(old(self).units@)),
    {
        match self.find_reduced_russian() {
            Some(idx) => {
                self.restore_reduced(idx);
            },
            None => {
                proof {
                    lemma_log_extends_refl(*self);
                    lemma_logged_none(*self);
                }
            },
        }
    }

    /// Index of the first eliminated Russian counter that can be rebuilt.
    fn find_rebuildable(&self, full: bool) -> (r: Option<usize>)
        requires
            self.wf(),
        ensures
            match r {
                Some(i) => i < 12 && first_index(12, rebuildable_pred(self.units@, full)) == Some(i as int),
                None => first_index(12, rebuildable_pred(self.units@, full)) is None,
            },
    {
        let mut i: usize = 0;
        while i < 12
            invariant
                self.wf(),
                i <= 12,
                first_index(i as nat, rebuildable_pred(self.units@, full)) is None,
            decreases 12 - i,
        {
            let u = self.units[i];
            if u.side == Side::Russia && !u.is_on_map() && !u.dispersed && (full || u.has_reduced_side) {
                proof {
                    assert(first_index((i + 1) as nat, rebuildable_pred(self.units@, full)) == Some(i as int));
                    lemma_first_index_stable((i + 1) as nat, 12, rebuildable_pred(self.units@, full));
                }
                return Some(i);
            }
            i = i + 1;
        }
        None
    }

    /// Rebuild the first eliminated Russian counter with a reduced side,
    /// reduced, in Moscow.
    fn rebuild_eliminated_russian(&mut self)
        requires
            old(self).wf(),
        ensures
            final(self).wf(),
            log_extends(*old(self), *final(self)),
            final(self).units@ == spec_rebuild(old(self).units@, false),
            *final(self) == (GameState { log: final(self).log, units: final(self).units, ..*old(self) }),
            logged(*old(self), *final(self), spec_rebuild_msgs(old(self).units@, false)),
    {
        match self.find_rebuildable(false) {
            Some(idx) => {
                let mut u = self.units[idx];
                let name = u.id.name();
                u.location = Some(Location::Moscow);
                u.is_reduced = true;
                self.set_unit(idx, u);
                let mut m = String::from_str(name);
                m.append(" rebuilt to REDUCED and placed in Moscow.");
                self.record(m);
            },
            None => {
                proof {
                    lemma_log_extends_refl(*self);
                    lemma_logged_none(*self);
                }
            },
        }
    }

    /// Rebuild the first eliminated Russian counter at full strength in
    /// Moscow.
    fn rebuild_eliminated_russian_full(&mut self)
        requires
            old(self).wf(),
        ensures
            final(self).wf(),
            log_extends(*old(self), *final(self)),
            final(self).units@ == spec_rebuild(old(self).units@, true),
            *final(self) == (GameState { log: final(self).log, units: final(self).units, ..*old(self) }),
            logged(*old(self), *final(self), spec_rebuild_msgs(old(self).units@, true)),
    {
        match self.find_rebuildable(true) {
            Some(idx) => {
                let mut u = self.units[idx];
                let name = u.id.name();
                u.location = Some(Location::Moscow);
                u.is_reduced = false;
                self.set_unit(idx, u);
                let mut m = String::from_str(name);
                m.append(" rebuilt to FULL strength and placed in Moscow.");
                self.record(m);
            },
            None => {
                proof {
                    lemma_log_extends_refl(*self);
                }
            },
        }
    }
    /// Hop count between two locations (`usize::MAX` without a route).
    pub(crate) fn bfs_distance(&self, from: Location, to: Location) -> (r: usize)
        requires
            self.wf(),
        ensures
            r == hop_count(from, to),
    {
        proof {
            lemma_hop_row_bounds(from, 12);
            lemma_loc_idx_bounds(to);
        }
        self.map.hop_distance(from, to)
    }

    /// Breadth-first route between two locations, both ends included.
    pub(crate) fn bfs_path(&self, from: Location, to: Location) -> (r: Vec<Location>)
        requires
            self.wf(),
        ensures
            r@ == spec_route(from, to),
    {
        self.map.route(from, to)
    }

    /// 7.3 Deploy Roadblock: between the Wagner location closest to Moscow
    /// and Moscow.
    pub fn run_russian_roadblock_deploy(&mut self)
        requires
            old(self).wf(),
        ensures
            final(self).wf(),
            roadblock_step(*old(self), *final(self)),
    {
        let wl = self.wagner_locations();
        let mut closest: Option<Location> = None;
        let mut closest_dist: usize = usize::MAX;
        let mut i: usize = 0;
        proof {
            assert(wl@.take(0) =~= Seq::<Location>::empty());
        }
        while i < wl.len()
            invariant
                self.wf(),
                i <= wl@.len(),
                wl@ == locations_where(13, occupied_pred(self.units@, Side::Wagner)),
                (closest, closest_dist as int) == closest_in(wl@.take(i as int), Location::Moscow),
            decreases wl@.len() - i,
        {
            proof {
                assert(wl@.take(i + 1).drop_last() =~= wl@.take(i as int));
            }
            let w = wl[i];
            let d = self.bfs_distance(w, Location::Moscow);
            if d < closest_dist {
                closest_dist = d;
                closest = Some(w);
            }
            i = i + 1;
        }
        proof {
            assert(wl@.take(wl@.len() as int) =~= wl@);
            lemma_log_extends_refl(*self);
            lemma_logged_none(*self);
        }
        match closest {
            Some(w) => {
                let path = self.bfs_path(w, Location::Moscow);
                let mut k: usize = 0;
                proof {
                    assert(path@.subrange(0, path@.len() as int) =~= path@);
                }
                while k < path.len()
                    invariant
                        self == old(self),
                        self.wf(),
                        k <= path@.len(),
                        path@ == spec_route(w, Location::Moscow),
                        spec_closest_wagner(old(self).units@) == Some(w),
                        first_roadblock_site(path@.subrange(k as int, path@.len() as int), self.roadblocks@, w)
                            == first_roadblock_site(path@, self.roadblocks@, w),
                    decreases path@.len() - k,
                {
                    proof {
                        assert(path@.subrange(k as int, path@.len() as int).drop_first() =~= path@.subrange(
                            k + 1,
                            path@.len() as int,
                        ));
                        assert(path@.subrange(k as int, path@.len() as int)[0] == path@[k as int]);
                    }
                    let loc = path[k];
                    let skip = loc == w || loc == Location::RostovOnDon || loc == Location::GroznyAkhmatBase
                        || self.roadblocks[0] == Some(loc) || self.roadblocks[1] == Some(loc);
                    if !skip {
                        assert(first_roadblock_site(path@, old(self).roadblocks@, w) == Some(loc));
                        if self.roadblocks[0].is_none() {
                            self.roadblocks[0] = Some(loc);
                            let mut m = String::from_str("Roadblock 1 deployed at ");
                            m.append(loc.name());
                            m.append(".");
                            self.record(m);
                        } else if self.roadblocks[1].is_none() {
                            self.roadblocks[1] = Some(loc);
                            let mut m = String::from_str("Roadblock 2 deployed at ");
                            m.append(loc.name());
                            m.append(".");
                            self.record(m);
                        } else {
                            let old_loc = self.roadblocks[1].unwrap();
                            self.roadblocks[1] = Some(loc);
                            let mut m = String::from_str("Roadblock 2 repositioned ");
                            m.append(old_loc.name());
                            m.append(" \u{2192} ");
                            m.append(loc.name());
                            m.append(".");
                            self.record(m);
                        }
                        proof {
                            assert(self.roadblocks@ =~= spec_roadblocks_after(old(self).units@, old(self).roadblocks@));
                        }
                        return;
                    }
                    k = k + 1;
                }
            },
            None => {},
        }
    }
}

impl GameState {
    /// The Russian AI Phase (7.0) with given dice: the attack roll, the
    /// Akhmat Tik Tok roll and the roll for Akhmat's attack.
    pub fn start_russian_phase_with_rolls(&mut self, attack_roll: i32, tiktok_roll: i32, akhmat_roll: i32)
        requires
            old(self).wf(),
            1 <= attack_roll <= 6,
            1 <= tiktok_roll <= 6,
            1 <= akhmat_roll <= 6,
        ensures
            final(self).wf(),
            log_extends(*old(self), *final(self)),
            exists|s0: GameState, s1: GameState, s2: GameState, s3: GameState, s4: GameState, s5: GameState|
                #[trigger] russian_phase_chain(
                    *old(self),
                    s0,
                    s1,
                    s2,
                    s3,
                    s4,
                    s5,
                    *final(self),
                    attack_roll as int,
                    tiktok_roll as int,
                    akhmat_roll as int,
                ),
    {
        self.phase = Phase::RussianAI;
        self.screen = Screen::RussianPhaseDisplay;
        self.cursor = 0;
        self.record(String::from_str("\u{2500}\u{2500} Russian AI Phase \u{2500}\u{2500}"));
        let ghost s0 = *self;
        self.run_russian_mobilization();
        let ghost s1 = *self;
        self.run_russian_momentum_expenditure();
        let ghost s2 = *self;
        self.run_russian_roadblock_deploy();
        let ghost s3 = *self;
        self.reset_russian_mp();
        let ghost s4 = *self;
        self.run_russian_ai_attacks_with_roll(attack_roll);
        let ghost s5 = *self;
        self.run_akhmat_tiktok_with_rolls(tiktok_roll, akhmat_roll);
        proof {
            assert(russian_phase_chain(
                *old(self),
                s0,
                s1,
                s2,
                s3,
                s4,
                s5,
                *self,
                attack_roll as int,
                tiktok_roll as int,
                akhmat_roll as int,
            ));
            lemma_log_extends_trans(*old(self), s0, s1);
            lemma_log_extends_trans(*old(self), s1, s2);
            lemma_log_extends_trans(*old(self), s2, s3);
            lemma_log_extends_refl(s3);
            assert(log_extends(s3, s4));
            lemma_log_extends_trans(*old(self), s3, s4);
            lemma_log_extends_trans(*old(self), s4, s5);
            lemma_log_extends_trans(*old(self), s5, *self);
        }
    }

    /// The Russian AI Phase (7.0), rolling the dice.
    pub fn start_russian_phase(&mut self)
        requires
            old(self).wf(),
        ensures
            final(self).wf(),
            log_extends(*old(self), *final(self)),
            russian_phase_step(*old(self), *final(self)),
    {
        let r1 = roll_d6();
        let r2 = roll_d6();
        let r3 = roll_d6();
        self.start_russian_phase_with_rolls(r1, r2, r3);
    }

    /// Spent MP of every Russian counter back to 0.
    #[verifier::rlimit(40)]
    fn reset_russian_mp(&mut self)
        requires
            old(self).wf(),
        ensures
            final(self).wf(),
            final(self).units@ == spec_reset_russian_mp(old(self).units@),
            *final(self) == (GameState { units: final(self).units, ..*old(self) }),
    {
        let mut i: usize = 0;
        while i < 12
            invariant
                self.wf(),
                i <= 12,
                *self == (GameState { units: self.units, ..*old(self) }),
                old(self).units@.len() == 12,
                forall|k: int| 0 <= k < i ==> #[trigger] self.units@[k] == spec_reset_russian_mp(old(self).units@)[k],
                forall|k: int| i <= k < 12 ==> #[trigger] self.units@[k] == old(self).units@[k],
            decreases 12 - i,
        {
            if self.units[i].side == Side::Russia {
                let mut u = self.units[i];
                u.reset_mp();
                self.set_unit(i, u);
            }
            i = i + 1;
        }
        proof {
            assert(self.units@ =~= spec_reset_russian_mp(old(self).units@));
        }
    }
}

} // verus!
