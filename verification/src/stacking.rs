//! Stacking: no location holds counters of both sides, and what the
//! contact results do to the counters keeps it so.

use vstd::prelude::*;

use crate::combat::CrtResult;
use crate::contact::{
    contact_step, spec_advance, keep_on_map, keep_unswitched, safe_for, safe_neighbors, spec_apply, spec_apply_ar, spec_apply_ex,
    spec_apply_r, spec_apply_s, spec_eliminate_at, spec_highest, spec_loss_all, spec_loss_highest, spec_retreat,
    spec_retreat_all, spec_retreat_on_map, spec_retreated, spec_step_loss, spec_switch,
};
use crate::game::{lemma_indices_where_members, side_at_pred, GameState, TurnFlags};
use crate::map::{spec_adj, EdgeProps, Location};
use crate::mct::MctMarker;
use crate::units::{Side, Unit};

verus! {

/// No location holds counters of both sides.
pub open spec fn one_side_per_location(units: Seq<Unit>) -> bool {
    forall|i: int, j: int|
        #![trigger units[i], units[j]]
        0 <= i < units.len() && 0 <= j < units.len() && units[i].location is Some && units[i].location
            == units[j].location ==> units[i].side == units[j].side
}

/// `b` has the counters of `a`, each on the side it was.
pub open spec fn same_sides(a: Seq<Unit>, b: Seq<Unit>) -> bool {
    &&& b.len() == a.len()
    &&& forall|j: int| 0 <= j < a.len() ==> (#[trigger] b[j]).side == a[j].side
}

/// Every member of `idxs` indexes one of `n` counters.
pub open spec fn idxs_below(idxs: Seq<usize>, n: int) -> bool {
    forall|k: int| 0 <= k < idxs.len() ==> #[trigger] idxs[k] < n
}

/// Every counter of `idxs` stands on `side`.
pub open spec fn all_of_side(units: Seq<Unit>, idxs: Seq<usize>, side: Side) -> bool {
    forall|k: int| 0 <= k < idxs.len() ==> #[trigger] units[idxs[k] as int].side == side
}

proof fn lemma_safe_neighbors_safe(units: Seq<Unit>, side: Side, s: Seq<(Location, EdgeProps)>, l: Location)
    requires
        safe_neighbors(units, side, s).contains(l),
    ensures
        safe_for(units, side, l),
    decreases s.len(),
{
    if s.len() > 0 {
        let prev = safe_neighbors(units, side, s.drop_last());
        if prev.contains(l) {
            lemma_safe_neighbors_safe(units, side, s.drop_last(), l);
        } else {
            let k = choose|k: int| 0 <= k < safe_neighbors(units, side, s).len() && safe_neighbors(units, side, s)[k] == l;
            assert(k >= prev.len()) by {
                if k < prev.len() {
                    assert(prev[k] == l);
                }
            }
        }
    }
}

/// Replacing counter `i` by `v` of the same side keeps stacking when `v`
/// leaves the map, stays where it was, or goes where no enemy stands.
proof fn lemma_update_keeps(units: Seq<Unit>, i: int, v: Unit)
    requires
        one_side_per_location(units),
        0 <= i < units.len(),
        v.side == units[i].side,
        v.location is None || v.location == units[i].location || (v.location matches Some(l) && safe_for(
            units,
            v.side,
            l,
        )),
    ensures
        one_side_per_location(units.update(i, v)),
{
    let n = units.update(i, v);
    assert forall|p: int, q: int|
        #![trigger n[p], n[q]]
        0 <= p < n.len() && 0 <= q < n.len() && n[p].location is Some && n[p].location == n[q].location
            implies n[p].side == n[q].side by {
        if p == i && q != i {
            if v.location != units[i].location {
                assert(units[q].location == v.location && units[q].side != v.side ==> !safe_for(units, v.side, v.location->0));
            } else {
                assert(units[i].location == units[q].location);
            }
        } else if q == i && p != i {
            if v.location != units[i].location {
                assert(units[p].location == v.location && units[p].side != v.side ==> !safe_for(units, v.side, v.location->0));
            } else {
                assert(units[p].location == units[i].location);
            }
        } else if p != i && q != i {
            assert(units[p] == n[p] && units[q] == n[q]);
        }
    }
}

proof fn lemma_retreat_keeps(units: Seq<Unit>, i: int, from: Location)
    requires
        one_side_per_location(units),
        0 <= i < units.len(),
    ensures
        one_side_per_location(spec_retreat(units, i, from)),
        same_sides(units, spec_retreat(units, i, from)),
        spec_retreat(units, i, from).len() == units.len(),
{
    let u = units[i];
    let c = safe_neighbors(units, u.side, spec_adj(from));
    let v = spec_retreated(units, i, from);
    if c.contains(crate::contact::home_of(u.side)) {
        lemma_safe_neighbors_safe(units, u.side, spec_adj(from), crate::contact::home_of(u.side));
    } else if c.len() > 0 {
        assert(c.contains(c[0]));
        lemma_safe_neighbors_safe(units, u.side, spec_adj(from), c[0]);
    }
    lemma_update_keeps(units, i, v);
}

proof fn lemma_retreat_all_keeps(units: Seq<Unit>, idxs: Seq<usize>, from: Location)
    requires
        one_side_per_location(units),
        idxs_below(idxs, units.len() as int),
    ensures
        one_side_per_location(spec_retreat_all(units, idxs, from)),
        same_sides(units, spec_retreat_all(units, idxs, from)),
        spec_retreat_all(units, idxs, from).len() == units.len(),
    decreases idxs.len(),
{
    if idxs.len() > 0 {
        lemma_retreat_all_keeps(units, idxs.drop_last(), from);
        assert(idxs[idxs.len() - 1] < units.len());
        lemma_retreat_keeps(spec_retreat_all(units, idxs.drop_last(), from), idxs.last() as int, from);
    }
}

proof fn lemma_retreat_on_map_keeps(units: Seq<Unit>, idxs: Seq<usize>, from: Location)
    requires
        one_side_per_location(units),
        idxs_below(idxs, units.len() as int),
    ensures
        one_side_per_location(spec_retreat_on_map(units, idxs, from)),
        same_sides(units, spec_retreat_on_map(units, idxs, from)),
        spec_retreat_on_map(units, idxs, from).len() == units.len(),
    decreases idxs.len(),
{
    if idxs.len() > 0 {
        lemma_retreat_on_map_keeps(units, idxs.drop_last(), from);
        assert(idxs[idxs.len() - 1] < units.len());
        let us = spec_retreat_on_map(units, idxs.drop_last(), from);
        if us[idxs.last() as int].location is Some {
            lemma_retreat_keeps(us, idxs.last() as int, from);
        }
    }
}

proof fn lemma_step_loss_keeps(units: Seq<Unit>, f: TurnFlags, i: int)
    requires
        one_side_per_location(units),
        0 <= i < units.len(),
    ensures
        one_side_per_location(spec_step_loss(units, f, i).0),
        same_sides(units, spec_step_loss(units, f, i).0),
        spec_step_loss(units, f, i).0.len() == units.len(),
{
    lemma_update_keeps(units, i, crate::units::spec_step_reduced(units[i]));
}

proof fn lemma_eliminate_keeps(units: Seq<Unit>, i: int)
    requires
        one_side_per_location(units),
        0 <= i < units.len(),
    ensures
        one_side_per_location(spec_eliminate_at(units, i)),
        same_sides(units, spec_eliminate_at(units, i)),
        spec_eliminate_at(units, i).len() == units.len(),
{
    lemma_update_keeps(units, i, crate::units::spec_eliminated(units[i]));
}

proof fn lemma_loss_all_keeps(units: Seq<Unit>, f: TurnFlags, idxs: Seq<usize>)
    requires
        one_side_per_location(units),
        idxs_below(idxs, units.len() as int),
    ensures
        one_side_per_location(spec_loss_all(units, f, idxs).0),
        same_sides(units, spec_loss_all(units, f, idxs).0),
        spec_loss_all(units, f, idxs).0.len() == units.len(),
    decreases idxs.len(),
{
    if idxs.len() > 0 {
        lemma_loss_all_keeps(units, f, idxs.drop_last());
        assert(idxs[idxs.len() - 1] < units.len());
        let (us, f1) = spec_loss_all(units, f, idxs.drop_last());
        lemma_step_loss_keeps(us, f1, idxs.last() as int);
    }
}

proof fn lemma_highest_below(units: Seq<Unit>, mct: Seq<MctMarker>, idxs: Seq<usize>, n: int)
    requires
        idxs_below(idxs, n),
    ensures
        spec_highest(units, mct, idxs) matches Some(i) ==> i < n,
    decreases idxs.len(),
{
    if idxs.len() > 0 {
        lemma_highest_below(units, mct, idxs.drop_last(), n);
        assert(idxs[idxs.len() - 1] < n);
    }
}

proof fn lemma_loss_highest_keeps(units: Seq<Unit>, mct: Seq<MctMarker>, f: TurnFlags, idxs: Seq<usize>)
    requires
        one_side_per_location(units),
        idxs_below(idxs, units.len() as int),
    ensures
        one_side_per_location(spec_loss_highest(units, mct, f, idxs).0),
        same_sides(units, spec_loss_highest(units, mct, f, idxs).0),
        spec_loss_highest(units, mct, f, idxs).0.len() == units.len(),
{
    lemma_highest_below(units, mct, idxs, units.len() as int);
    if let Some(i) = spec_highest(units, mct, idxs) {
        lemma_step_loss_keeps(units, f, i as int);
    }
}

proof fn lemma_keep_on_map_below(units: Seq<Unit>, idxs: Seq<usize>, n: int)
    requires
        idxs_below(idxs, n),
    ensures
        idxs_below(keep_on_map(units, idxs), n),
    decreases idxs.len(),
{
    if idxs.len() > 0 {
        lemma_keep_on_map_below(units, idxs.drop_last(), n);
        assert(idxs[idxs.len() - 1] < n);
        let p = keep_on_map(units, idxs.drop_last());
        assert forall|k: int| 0 <= k < keep_on_map(units, idxs).len() implies #[trigger] keep_on_map(units, idxs)[k] < n by {
            if k < p.len() {
                assert(keep_on_map(units, idxs)[k] == p[k]);
            }
        }
    }
}

proof fn lemma_keep_unswitched_below(units: Seq<Unit>, idxs: Seq<usize>, sw: Seq<crate::units::UnitId>, n: int)
    requires
        idxs_below(idxs, n),
    ensures
        idxs_below(keep_unswitched(units, idxs, sw), n),
    decreases idxs.len(),
{
    if idxs.len() > 0 {
        lemma_keep_unswitched_below(units, idxs.drop_last(), sw, n);
        assert(idxs[idxs.len() - 1] < n);
        let p = keep_unswitched(units, idxs.drop_last(), sw);
        assert forall|k: int| 0 <= k < keep_unswitched(units, idxs, sw).len() implies #[trigger] keep_unswitched(
            units,
            idxs,
            sw,
        )[k] < n by {
            if k < p.len() {
                assert(keep_unswitched(units, idxs, sw)[k] == p[k]);
            }
        }
    }
}

/// Switching keeps stacking when no defender stands on Russia's side (no
/// one switches), or when no Russian counter stands where the switched
/// counters go.
proof fn lemma_switch_keeps(units: Seq<Unit>, defs: Seq<usize>, wloc: Location)
    requires
        one_side_per_location(units),
        idxs_below(defs, units.len() as int),
        all_of_side(units, defs, Side::Wagner) || safe_for(units, Side::Wagner, wloc),
    ensures
        one_side_per_location(spec_switch(units, defs, wloc).0),
        spec_switch(units, defs, wloc).0.len() == units.len(),
        all_of_side(units, defs, Side::Wagner) ==> spec_switch(units, defs, wloc).0 == units,
        safe_for(units, Side::Wagner, wloc) ==> safe_for(spec_switch(units, defs, wloc).0, Side::Wagner, wloc),
    decreases defs.len(),
{
    if defs.len() > 0 {
        let d = defs.drop_last();
        assert(all_of_side(units, defs, Side::Wagner) ==> all_of_side(units, d, Side::Wagner)) by {
            if all_of_side(units, defs, Side::Wagner) {
                assert forall|k: int| 0 <= k < d.len() implies #[trigger] units[d[k] as int].side == Side::Wagner by {
                    assert(d[k] == defs[k]);
                }
            }
        }
        lemma_switch_keeps(units, d, wloc);
        let (us, ids) = spec_switch(units, d, wloc);
        let i = defs.last() as int;
        assert(defs[defs.len() - 1] < units.len());
        let u = us[i];
        if u.switchable && u.side == Side::Russia {
            if all_of_side(units, defs, Side::Wagner) {
                assert(units[defs[defs.len() - 1] as int].side == Side::Wagner);
            }
            let v = Unit { side: Side::Wagner, location: Some(wloc), ..u };
            let n = us.update(i, v);
            assert forall|p: int, q: int|
                #![trigger n[p], n[q]]
                0 <= p < n.len() && 0 <= q < n.len() && n[p].location is Some && n[p].location == n[q].location
                    implies n[p].side == n[q].side by {
                if p == i && q != i {
                    assert(us[q].location == Some(wloc) && us[q].side != Side::Wagner ==> !safe_for(us, Side::Wagner, wloc));
                } else if q == i && p != i {
                    assert(us[p].location == Some(wloc) && us[p].side != Side::Wagner ==> !safe_for(us, Side::Wagner, wloc));
                } else if p != i && q != i {
                    assert(us[p] == n[p] && us[q] == n[q]);
                }
            }
            assert forall|j: int| 0 <= j < n.len() && n[j].location == Some(wloc) implies n[j].side == Side::Wagner by {
                if j != i {
                    assert(us[j] == n[j]);
                }
            }
        }
    }
}

/// What a contact result does to the counters keeps stacking, when the
/// defenders stand at `def_loc`, every defender that can switch would go
/// to a location without Russian counters, and the result is not applied
/// in Moscow.
pub proof fn lemma_apply_keeps(
    units: Seq<Unit>,
    mct: Seq<MctMarker>,
    f: TurnFlags,
    result: CrtResult,
    attackers: Seq<usize>,
    atk_loc: Location,
    defenders: Seq<usize>,
    def_loc: Location,
)
    requires
        one_side_per_location(units),
        idxs_below(attackers, units.len() as int),
        idxs_below(defenders, units.len() as int),
        all_of_side(units, defenders, Side::Wagner) || safe_for(units, Side::Wagner, atk_loc),
    ensures
        one_side_per_location(spec_apply(units, mct, f, result, attackers, atk_loc, defenders, def_loc).0),
        spec_apply(units, mct, f, result, attackers, atk_loc, defenders, def_loc).0.len() == units.len(),
        all_of_side(units, defenders, Side::Wagner) ==> same_sides(
            units,
            spec_apply(units, mct, f, result, attackers, atk_loc, defenders, def_loc).0,
        ),
{
    let n = units.len() as int;
    match result {
        CrtResult::AR => {
            lemma_highest_below(units, mct, attackers, n);
            let u1 = match spec_highest(units, mct, attackers) {
                Some(i) => {
                    lemma_eliminate_keeps(units, i as int);
                    spec_eliminate_at(units, i as int)
                },
                None => units,
            };
            lemma_retreat_on_map_keeps(u1, attackers, atk_loc);
            assert(spec_apply_ar(units, mct, f, attackers, atk_loc).0 == spec_retreat_on_map(u1, attackers, atk_loc));
        },
        CrtResult::Ar => {
            lemma_retreat_all_keeps(units, attackers, atk_loc);
        },
        CrtResult::EX => {
            lemma_switch_keeps(units, defenders, atk_loc);
            let (u1, sw) = spec_switch(units, defenders, atk_loc);
            let rem = keep_unswitched(u1, defenders, sw);
            lemma_keep_unswitched_below(u1, defenders, sw, n);
            lemma_loss_highest_keeps(u1, mct, f, rem);
            let (u2, f2) = spec_loss_highest(u1, mct, f, rem);
            lemma_loss_highest_keeps(u2, mct, f2, attackers);
            assert(spec_apply_ex(units, mct, f, attackers, atk_loc, defenders) == spec_loss_highest(u2, mct, f2, attackers));
        },
        CrtResult::NE => {},
        CrtResult::Rp => {
            if def_loc == Location::Moscow {
                lemma_loss_highest_keeps(units, mct, f, defenders);
            } else {
                lemma_retreat_all_keeps(units, defenders, def_loc);
            }
        },
        CrtResult::R => {
            lemma_highest_below(units, mct, defenders, n);
            let (u1, f1) = match spec_highest(units, mct, defenders) {
                Some(i) => {
                    lemma_eliminate_keeps(units, i as int);
                    (spec_eliminate_at(units, i as int), TurnFlags { russian_eliminated: true, ..f })
                },
                None => (units, f),
            };
            let rem = keep_on_map(u1, defenders);
            lemma_keep_on_map_below(u1, defenders, n);
            if def_loc == Location::Moscow {
                lemma_loss_all_keeps(u1, f1, rem);
            } else {
                lemma_retreat_all_keeps(u1, rem, def_loc);
            }
            assert(spec_apply_r(units, mct, f, defenders, def_loc) == if def_loc == Location::Moscow {
                spec_loss_all(u1, f1, rem)
            } else {
                (spec_retreat_all(u1, rem, def_loc), f1)
            });
        },
        CrtResult::S => {
            lemma_switch_keeps(units, defenders, atk_loc);
            let (u1, sw) = spec_switch(units, defenders, atk_loc);
            let rem = keep_unswitched(u1, defenders, sw);
            lemma_keep_unswitched_below(u1, defenders, sw, n);
            lemma_highest_below(u1, mct, rem, n);
            let (u2, f2) = match spec_highest(u1, mct, rem) {
                Some(i) => {
                    lemma_eliminate_keeps(u1, i as int);
                    (spec_eliminate_at(u1, i as int), TurnFlags { russian_eliminated: true, ..f })
                },
                None => (u1, f),
            };
            let rest = keep_on_map(u2, rem);
            lemma_keep_on_map_below(u2, rem, n);
            if def_loc == Location::Moscow {
                lemma_loss_all_keeps(u2, f2, rest);
            } else {
                lemma_retreat_all_keeps(u2, rest, def_loc);
            }
            assert(spec_apply_s(units, mct, f, atk_loc, defenders, def_loc) == if def_loc == Location::Moscow {
                spec_loss_all(u2, f2, rest)
            } else {
                (spec_retreat_all(u2, rest, def_loc), f2)
            });
        },
    }
}

/// A Wagner contact keeps stacking: when attackers on Wagner's side at
/// `from_loc` attack `target_loc`, no location holds both sides afterwards
/// if none did before.
pub proof fn law_contact_keeps_one_side(
    a: GameState,
    attackers: Seq<usize>,
    from_loc: Location,
    target_loc: Location,
    b: GameState,
    r: crate::combat::ContactOutcome,
)
    requires
        a.wf(),
        one_side_per_location(a.units@),
        attackers.len() > 0,
        idxs_below(attackers, 12),
        forall|k: int| 0 <= k < attackers.len() ==> #[trigger] a.units@[attackers[k] as int].location == Some(from_loc)
            && a.units@[attackers[k] as int].side == Side::Wagner,
        contact_step(a, attackers, from_loc, target_loc, b, r),
    ensures
        one_side_per_location(b.units@),
{
    let units = a.units@;
    let d = a.spec_defenders(target_loc);
    lemma_indices_where_members(12, side_at_pred(units, target_loc, Side::Russia));
    let w = attackers[0] as int;
    assert(units[w].location == Some(from_loc) && units[w].side == Side::Wagner);
    assert(safe_for(units, Side::Wagner, from_loc)) by {
        assert forall|j: int| 0 <= j < units.len() && units[j].location == Some(from_loc) implies units[j].side
            == Side::Wagner by {
            assert(units[w].location == units[j].location);
        }
    }
    lemma_apply_keeps(units, a.mct@, crate::game::flags_of(a), r.result, attackers, from_loc, d, target_loc);
}

/// Advancing after contact keeps stacking: counters of one side move into
/// a location without counters of the other side.
pub proof fn law_advance_keeps_one_side(units: Seq<Unit>, idxs: Seq<usize>, to: Location, side: Side)
    requires
        one_side_per_location(units),
        idxs_below(idxs, units.len() as int),
        all_of_side(units, idxs, side),
        safe_for(units, side, to),
    ensures
        one_side_per_location(spec_advance(units, idxs, to)),
        same_sides(units, spec_advance(units, idxs, to)),
        safe_for(spec_advance(units, idxs, to), side, to),
    decreases idxs.len(),
{
    if idxs.len() > 0 {
        let d = idxs.drop_last();
        assert(all_of_side(units, d, side)) by {
            assert forall|k: int| 0 <= k < d.len() implies #[trigger] units[d[k] as int].side == side by {
                assert(d[k] == idxs[k]);
            }
        }
        law_advance_keeps_one_side(units, d, to, side);
        let us = spec_advance(units, d, to);
        let i = idxs.last() as int;
        assert(idxs[idxs.len() - 1] < units.len());
        assert(units[idxs[idxs.len() - 1] as int].side == side);
        if us[i].location is Some {
            lemma_update_keeps(us, i, Unit { location: Some(to), ..us[i] });
            let n = us.update(i, Unit { location: Some(to), ..us[i] });
            assert forall|j: int| 0 <= j < n.len() && n[j].location == Some(to) implies n[j].side == side by {
                if j != i {
                    assert(n[j] == us[j]);
                }
            }
        }
    }
}

} // verus!
