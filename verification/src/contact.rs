//! Contact: flanking, contact opportunities, and applying CRT results to
//! the counters (retreat, step loss, elimination, side switching).

use vstd::prelude::*;
use vstd::string::*;

use crate::combat::{
    outcome_matches, resolve_contact_with_roll, spec_force_ratio_shift, ContactOutcome,
    CrtResult, spec_crt_code,
};
use crate::dice::roll_d6;
use crate::text::{spec_int_str, spec_signed_str};
use crate::game::{eff_sp, indices_where, lemma_indices_where_members, locations_where, occupied_pred, side_at_pred, flags_of, lemma_log_extends_refl, lemma_log_extends_trans, log_extends, only_units_flags_log, GameState, TurnFlags, logged, lemma_logged_none, lemma_logged_trans};
use crate::map::{spec_adj, spec_edge, spec_location_name, EdgeProps, Location};
use crate::mct::MctMarker;
use crate::units::{
    lemma_unit_at_bounds, spec_current_sp, spec_eliminated, spec_step_reduced, spec_unit_name, Side, Unit, UnitId,
};

verus! {

/// Where a side's counters retreat to when they can: Rostov-On-Don for
/// Wagner, Moscow for Russia.
pub open spec fn home_of(side: Side) -> Location {
    if side == Side::Wagner {
        Location::RostovOnDon
    } else {
        Location::Moscow
    }
}

/// No counter of the other side stands at `l`.
pub open spec fn safe_for(units: Seq<Unit>, side: Side, l: Location) -> bool {
    !exists|j: int| 0 <= j < units.len() && units[j].location == Some(l) && units[j].side != side
}

/// The locations of `s`, in order, that are safe for `side`.
pub open spec fn safe_neighbors(units: Seq<Unit>, side: Side, s: Seq<(Location, EdgeProps)>) -> Seq<Location>
    decreases s.len(),
{
    if s.len() == 0 {
        Seq::empty()
    } else {
        safe_neighbors(units, side, s.drop_last()) + if safe_for(units, side, s.last().0) {
            seq![s.last().0]
        } else {
            Seq::empty()
        }
    }
}

/// Retreat of counter `i` from `from`: to its home location if that is an
/// adjacent safe location, else to the first adjacent safe location, else
/// it is dispersed off the map.
pub open spec fn spec_retreat(units: Seq<Unit>, i: int, from: Location) -> Seq<Unit> {
    units.update(i, spec_retreated(units, i, from))
}

/// Counter `i` after retreating from `from`.
pub open spec fn spec_retreated(units: Seq<Unit>, i: int, from: Location) -> Unit {
    let u = units[i];
    let c = safe_neighbors(units, u.side, spec_adj(from));
    if c.contains(home_of(u.side)) {
        Unit { location: Some(home_of(u.side)), ..u }
    } else if c.len() > 0 {
        Unit { location: Some(c[0]), ..u }
    } else {
        Unit { location: None, dispersed: true, ..u }
    }
}

/// One step loss on counter `i`, and the turn flag it raises.
pub open spec fn spec_step_loss(units: Seq<Unit>, f: TurnFlags, i: int) -> (Seq<Unit>, TurnFlags) {
    let u = units[i];
    let reduced = u.has_reduced_side && !u.is_reduced;
    let wagner = u.side == Side::Wagner;
    let f2 = if reduced {
        if wagner {
            TurnFlags { wagner_reduced: true, ..f }
        } else {
            TurnFlags { russian_reduced: true, ..f }
        }
    } else {
        if wagner {
            TurnFlags { wagner_eliminated: true, ..f }
        } else {
            TurnFlags { russian_eliminated: true, ..f }
        }
    };
    (units.update(i, spec_step_reduced(u)), f2)
}

/// The last on-map counter of `idxs` with the highest effective SP.
pub open spec fn spec_highest(units: Seq<Unit>, mct: Seq<MctMarker>, idxs: Seq<usize>) -> Option<usize>
    decreases idxs.len(),
{
    if idxs.len() == 0 {
        None
    } else {
        let b = spec_highest(units, mct, idxs.drop_last());
        let i = idxs.last();
        if units[i as int].location is Some {
            match b {
                None => Some(i),
                Some(x) => if eff_sp(units, mct, i as int) >= eff_sp(units, mct, x as int) {
                    Some(i)
                } else {
                    b
                },
            }
        } else {
            b
        }
    }
}

/// Switchable Russian counters among `defs` go over to Wagner at `wloc`;
/// also yields the identities that switched, in order.
pub open spec fn spec_switch(units: Seq<Unit>, defs: Seq<usize>, wloc: Location) -> (Seq<Unit>, Seq<UnitId>)
    decreases defs.len(),
{
    if defs.len() == 0 {
        (units, Seq::empty())
    } else {
        let (us, ids) = spec_switch(units, defs.drop_last(), wloc);
        let i = defs.last() as int;
        let u = us[i];
        if u.switchable && u.side == Side::Russia {
            (us.update(i, Unit { side: Side::Wagner, location: Some(wloc), ..u }), ids.push(u.id))
        } else {
            (us, ids)
        }
    }
}

/// Every counter of `idxs`, in order, retreats from `from`.
pub open spec fn spec_retreat_all(units: Seq<Unit>, idxs: Seq<usize>, from: Location) -> Seq<Unit>
    decreases idxs.len(),
{
    if idxs.len() == 0 {
        units
    } else {
        spec_retreat(spec_retreat_all(units, idxs.drop_last(), from), idxs.last() as int, from)
    }
}

/// Every counter of `idxs` that is still on the map when its turn comes
/// retreats from `from`.
pub open spec fn spec_retreat_on_map(units: Seq<Unit>, idxs: Seq<usize>, from: Location) -> Seq<Unit>
    decreases idxs.len(),
{
    if idxs.len() == 0 {
        units
    } else {
        let us = spec_retreat_on_map(units, idxs.drop_last(), from);
        if us[idxs.last() as int].location is Some {
            spec_retreat(us, idxs.last() as int, from)
        } else {
            us
        }
    }
}

/// Every counter of `idxs`, in order, takes one step loss.
pub open spec fn spec_loss_all(units: Seq<Unit>, f: TurnFlags, idxs: Seq<usize>) -> (Seq<Unit>, TurnFlags)
    decreases idxs.len(),
{
    if idxs.len() == 0 {
        (units, f)
    } else {
        let (us, f1) = spec_loss_all(units, f, idxs.drop_last());
        spec_step_loss(us, f1, idxs.last() as int)
    }
}

/// The members of `idxs` that are on the map.
pub open spec fn keep_on_map(units: Seq<Unit>, idxs: Seq<usize>) -> Seq<usize>
    decreases idxs.len(),
{
    if idxs.len() == 0 {
        Seq::empty()
    } else {
        keep_on_map(units, idxs.drop_last()) + if units[idxs.last() as int].location is Some {
            seq![idxs.last()]
        } else {
            Seq::empty()
        }
    }
}

/// The members of `idxs` that are on the map and did not switch sides.
pub open spec fn keep_unswitched(units: Seq<Unit>, idxs: Seq<usize>, sw: Seq<UnitId>) -> Seq<usize>
    decreases idxs.len(),
{
    if idxs.len() == 0 {
        Seq::empty()
    } else {
        keep_unswitched(units, idxs.drop_last(), sw) + if !sw.contains(units[idxs.last() as int].id)
            && units[idxs.last() as int].location is Some {
            seq![idxs.last()]
        } else {
            Seq::empty()
        }
    }
}

/// The log message of a step loss on counter `i`, in `context`.
pub open spec fn spec_loss_msg(units: Seq<Unit>, i: int, context: Seq<char>) -> Seq<char> {
    let u = units[i];
    if u.has_reduced_side && !u.is_reduced {
        spec_unit_name(u.id) + " step-reduced to SP:"@ + spec_int_str(spec_current_sp(spec_step_reduced(u))) + " ["@
            + context + "]"@
    } else {
        spec_unit_name(u.id) + " ELIMINATED ["@ + context + "]"@
    }
}

/// The log message of counter `i` retreating from `from`.
pub open spec fn spec_retreat_msg(units: Seq<Unit>, i: int, from: Location) -> Seq<char> {
    let u = units[i];
    let c = safe_neighbors(units, u.side, spec_adj(from));
    if c.contains(home_of(u.side)) {
        spec_unit_name(u.id) + " retreated to "@ + spec_location_name(home_of(u.side)) + " (HL)"@
    } else if c.len() > 0 {
        spec_unit_name(u.id) + " retreated to "@ + spec_location_name(c[0])
    } else {
        spec_unit_name(u.id) + " DISPERSED (no retreat path)"@
    }
}

/// The log messages of the counters of `defs` switching sides to `wloc`.
pub open spec fn spec_switch_msgs(units: Seq<Unit>, defs: Seq<usize>, wloc: Location) -> Seq<Seq<char>>
    decreases defs.len(),
{
    if defs.len() == 0 {
        Seq::empty()
    } else {
        let us = spec_switch(units, defs.drop_last(), wloc).0;
        let u = us[defs.last() as int];
        spec_switch_msgs(units, defs.drop_last(), wloc) + if u.switchable && u.side == Side::Russia {
            seq![spec_unit_name(u.id) + " SWITCHED SIDES to Wagner → "@ + spec_location_name(wloc)]
        } else {
            Seq::empty()
        }
    }
}

/// The log messages of every counter of `idxs` retreating from `from`.
pub open spec fn spec_retreat_all_msgs(units: Seq<Unit>, idxs: Seq<usize>, from: Location) -> Seq<Seq<char>>
    decreases idxs.len(),
{
    if idxs.len() == 0 {
        Seq::empty()
    } else {
        let us = spec_retreat_all(units, idxs.drop_last(), from);
        spec_retreat_all_msgs(units, idxs.drop_last(), from) + seq![spec_retreat_msg(us, idxs.last() as int, from)]
    }
}

/// The log messages of the counters of `idxs` still on the map retreating
/// from `from`.
pub open spec fn spec_retreat_on_map_msgs(units: Seq<Unit>, idxs: Seq<usize>, from: Location) -> Seq<Seq<char>>
    decreases idxs.len(),
{
    if idxs.len() == 0 {
        Seq::empty()
    } else {
        let us = spec_retreat_on_map(units, idxs.drop_last(), from);
        spec_retreat_on_map_msgs(units, idxs.drop_last(), from) + if us[idxs.last() as int].location is Some {
            seq![spec_retreat_msg(us, idxs.last() as int, from)]
        } else {
            Seq::empty()
        }
    }
}

/// The log messages of every counter of `idxs` taking a step loss.
pub open spec fn spec_loss_all_msgs(units: Seq<Unit>, f: TurnFlags, idxs: Seq<usize>, context: Seq<char>) -> Seq<
    Seq<char>,
>
    decreases idxs.len(),
{
    if idxs.len() == 0 {
        Seq::empty()
    } else {
        let us = spec_loss_all(units, f, idxs.drop_last()).0;
        spec_loss_all_msgs(units, f, idxs.drop_last(), context) + seq![spec_loss_msg(us, idxs.last() as int, context)]
    }
}

/// All members of `idxs` index a counter.
pub open spec fn all_valid(idxs: Seq<usize>) -> bool {
    forall|k: int| 0 <= k < idxs.len() ==> #[trigger] idxs[k] < 12
}

impl GameState {
    fn step_reduce_unit(&mut self, idx: usize, context: &str)
        requires
            old(self).wf(),
            idx < 12,
        ensures
            final(self).wf(),
            only_units_flags_log(*old(self), *final(self)),
            log_extends(*old(self), *final(self)),
            (final(self).units@, flags_of(*final(self))) == spec_step_loss(
                old(self).units@,
                flags_of(*old(self)),
                idx as int,
            ),
            logged(*old(self), *final(self), seq![spec_loss_msg(old(self).units@, idx as int, context@)]),
    {
        let name = self.units[idx].id.name();
        let is_wagner = self.units[idx].is_wagner();
        let mut u = self.units[idx];
        let reduced = u.step_reduce();
        self.set_unit(idx, u);
        if reduced {
            let mut m = String::from_str(name);
            m.append(" step-reduced to SP:");
            proof {
                lemma_unit_at_bounds(idx as int);
            }
            let sp = crate::text::i64_to_string(self.units[idx].current_sp() as i64);
            m.append(sp.as_str());
            m.append(" [");
            m.append(context);
            m.append("]");
            self.record(m);
            if is_wagner {
                self.wagner_reduced_this_turn = true;
            } else {
                self.russian_reduced_this_turn = true;
            }
        } else {
            let mut m = String::from_str(name);
            m.append(" ELIMINATED [");
            m.append(context);
            m.append("]");
            self.record(m);
            if is_wagner {
                self.wagner_eliminated_this_turn = true;
            } else {
                self.russian_eliminated_this_turn = true;
            }
        }
    }

    /// No counter of the other side than `side` stands at `l`.
    fn safe_location(&self, side: Side, l: Location) -> (r: bool)
        ensures
            r == safe_for(self.units@, side, l),
    {
        let mut i: usize = 0;
        while i < self.units.len()
            invariant
                i <= self.units@.len(),
                forall|j: int| 0 <= j < i ==> !(self.units@[j].location == Some(l) && self.units@[j].side != side),
            decreases self.units@.len() - i,
        {
            if self.units[i].location == Some(l) && self.units[i].side != side {
                return false;
            }
            i = i + 1;
        }
        true
    }

    /// Adjacent locations of `from`, in neighbour order, that hold no
    /// counter of the side opposing `side`.
    fn retreat_candidates(&self, side: Side, from: Location) -> (r: Vec<Location>)
        requires
            self.wf(),
        ensures
            r@ == safe_neighbors(self.units@, side, spec_adj(from)),
    {
        let neighbors = self.map.neighbors(from);
        let mut candidates: Vec<Location> = Vec::new();
        let mut n: usize = 0;
        while n < neighbors.len()
            invariant
                neighbors@ == spec_adj(from),
                n <= neighbors@.len(),
                candidates@ == safe_neighbors(self.units@, side, neighbors@.take(n as int)),
            decreases neighbors@.len() - n,
        {
            let (neighbor, _) = neighbors[n];
            if self.safe_location(side, neighbor) {
                candidates.push(neighbor);
            }
            proof {
                assert(neighbors@.take(n + 1).drop_last() == neighbors@.take(n as int));
            }
            n = n + 1;
        }
        proof {
            assert(neighbors@.take(neighbors@.len() as int) == neighbors@);
        }
        candidates
    }

    /// Counter `idx` after retreating from `from`, and the log text.
    fn retreat_result(&self, idx: usize, from: Location) -> (r: (Unit, String))
        requires
            self.wf(),
            idx < 12,
        ensures
            r.0 == spec_retreated(self.units@, idx as int, from),
            r.1@ == spec_retreat_msg(self.units@, idx as int, from),
    {
        let unit = self.units[idx];
        let home = if unit.is_wagner() {
            Location::RostovOnDon
        } else {
            Location::Moscow
        };
        let candidates = self.retreat_candidates(unit.side, from);
        let mut u = unit;
        let mut m = String::from_str(unit.id.name());
        if crate::map::slice_contains(candidates.as_slice(), home) {
            u.location = Some(home);
            m.append(" retreated to ");
            m.append(home.name());
            m.append(" (HL)");
        } else if candidates.len() > 0 {
            let dest = candidates[0];
            u.location = Some(dest);
            m.append(" retreated to ");
            m.append(dest.name());
        } else {
            u.location = None;
            u.dispersed = true;
            m.append(" DISPERSED (no retreat path)");
        }
        (u, m)
    }

    fn retreat_unit(&mut self, idx: usize, from: Location)
        requires
            old(self).wf(),
            idx < 12,
        ensures
            final(self).wf(),
            only_units_flags_log(*old(self), *final(self)),
            flags_of(*final(self)) == flags_of(*old(self)),
            log_extends(*old(self), *final(self)),
            final(self).units@ == spec_retreat(old(self).units@, idx as int, from),
            logged(*old(self), *final(self), seq![spec_retreat_msg(old(self).units@, idx as int, from)]),
    {
        let (u, m) = self.retreat_result(idx, from);
        self.set_unit(idx, u);
        self.record(m);
    }

    /// Counter `idx` goes over to Wagner at `wagner_loc` if it is a
    /// switchable Russian counter; yields its identity when it did.
    fn switch_one(&mut self, idx: usize, wagner_loc: Location) -> (r: Option<UnitId>)
        requires
            old(self).wf(),
            idx < 12,
        ensures
            final(self).wf(),
            only_units_flags_log(*old(self), *final(self)),
            flags_of(*final(self)) == flags_of(*old(self)),
            log_extends(*old(self), *final(self)),
            ({
                let u = old(self).units@[idx as int];
                if u.switchable && u.side == Side::Russia {
                    &&& final(self).units@ == old(self).units@.update(
                        idx as int,
                        Unit { side: Side::Wagner, location: Some(wagner_loc), ..u },
                    )
                    &&& r == Some(u.id)
                } else {
                    &&& final(self).units@ == old(self).units@
                    &&& r is None
                }
            }),
            logged(
                *old(self),
                *final(self),
                if old(self).units@[idx as int].switchable && old(self).units@[idx as int].side == Side::Russia {
                    seq![
                        spec_unit_name(old(self).units@[idx as int].id) + " SWITCHED SIDES to Wagner → "@
                            + spec_location_name(wagner_loc),
                    ]
                } else {
                    Seq::empty()
                },
            ),
    {
        if self.units[idx].switchable && self.units[idx].side == Side::Russia {
            let name = self.units[idx].id.name();
            let id = self.units[idx].id;
            let mut u = self.units[idx];
            u.side = Side::Wagner;
            u.location = Some(wagner_loc);
            self.set_unit(idx, u);
            let mut m = String::from_str(name);
            m.append(" SWITCHED SIDES to Wagner → ");
            m.append(wagner_loc.name());
            self.record(m);
            Some(id)
        } else {
            proof {
                lemma_log_extends_refl(*self);
                lemma_logged_none(*self);
            }
            None
        }
    }

    fn handle_switchable(&mut self, defenders: &[usize], wagner_loc: Location) -> (r: Vec<UnitId>)
        requires
            old(self).wf(),
            all_valid(defenders@),
        ensures
            final(self).wf(),
            only_units_flags_log(*old(self), *final(self)),
            flags_of(*final(self)) == flags_of(*old(self)),
            log_extends(*old(self), *final(self)),
            (final(self).units@, r@) == spec_switch(old(self).units@, defenders@, wagner_loc),
            logged(*old(self), *final(self), spec_switch_msgs(old(self).units@, defenders@, wagner_loc)),
    {
        let mut switched: Vec<UnitId> = Vec::new();
        let mut k: usize = 0;
        proof {
            lemma_log_extends_refl(*self);
            lemma_logged_none(*self);
        }
        while k < defenders.len()
            invariant
                self.wf(),
                all_valid(defenders@),
                k <= defenders@.len(),
                only_units_flags_log(*old(self), *self),
                flags_of(*self) == flags_of(*old(self)),
                log_extends(*old(self), *self),
                (self.units@, switched@) == spec_switch(old(self).units@, defenders@.take(k as int), wagner_loc),
                logged(*old(self), *self, spec_switch_msgs(old(self).units@, defenders@.take(k as int), wagner_loc)),
            decreases defenders@.len() - k,
        {
            let idx = defenders[k];
            proof {
                assert(defenders@.take(k + 1).drop_last() == defenders@.take(k as int));
            }
            let ghost before = *self;
            let ghost sw_before = switched@;
            let r = self.switch_one(idx, wagner_loc);
            match r {
                Some(id) => {
                    switched.push(id);
                },
                None => {},
            }
            proof {
                lemma_log_extends_trans(*old(self), before, *self);
                let u = before.units@[idx as int];
                lemma_logged_trans(
                    *old(self),
                    before,
                    *self,
                    spec_switch_msgs(old(self).units@, defenders@.take(k as int), wagner_loc),
                    if u.switchable && u.side == Side::Russia {
                        seq![spec_unit_name(u.id) + " SWITCHED SIDES to Wagner → "@ + spec_location_name(wagner_loc)]
                    } else {
                        Seq::empty()
                    },
                );
            }
            k = k + 1;
        }
        proof {
            assert(defenders@.take(defenders@.len() as int) == defenders@);
        }
        switched
    }

    /// The last on-map unit of `indices` with the highest effective SP.
    fn highest_sp_unit(&self, indices: &[usize]) -> (r: Option<usize>)
        requires
            self.wf(),
            all_valid(indices@),
        ensures
            r == spec_highest(self.units@, self.mct@, indices@),
            r matches Some(i) ==> i < 12,
    {
        let mut best: Option<usize> = None;
        let mut best_sp: i32 = 0;
        let mut k: usize = 0;
        while k < indices.len()
            invariant
                self.wf(),
                all_valid(indices@),
                k <= indices@.len(),
                best == spec_highest(self.units@, self.mct@, indices@.take(k as int)),
                best matches Some(b) ==> b < 12 && best_sp == eff_sp(self.units@, self.mct@, b as int),
            decreases indices@.len() - k,
        {
            let i = indices[k];
            proof {
                assert(indices@.take(k + 1).drop_last() == indices@.take(k as int));
            }
            if self.units[i].is_on_map() {
                let sp = self.effective_sp(i);
                match best {
                    None => {
                        best = Some(i);
                        best_sp = sp;
                    },
                    Some(_) => {
                        if sp >= best_sp {
                            best = Some(i);
                            best_sp = sp;
                        }
                    },
                }
            }
            k = k + 1;
        }
        proof {
            assert(indices@.take(indices@.len() as int) == indices@);
        }
        best
    }

    fn retreat_all(&mut self, idxs: &[usize], from: Location)
        requires
            old(self).wf(),
            all_valid(idxs@),
        ensures
            final(self).wf(),
            only_units_flags_log(*old(self), *final(self)),
            flags_of(*final(self)) == flags_of(*old(self)),
            log_extends(*old(self), *final(self)),
            final(self).units@ == spec_retreat_all(old(self).units@, idxs@, from),
            logged(*old(self), *final(self), spec_retreat_all_msgs(old(self).units@, idxs@, from)),
    {
        let mut k: usize = 0;
        proof {
            lemma_log_extends_refl(*self);
            lemma_logged_none(*self);
        }
        while k < idxs.len()
            invariant
                self.wf(),
                all_valid(idxs@),
                k <= idxs@.len(),
                only_units_flags_log(*old(self), *self),
                flags_of(*self) == flags_of(*old(self)),
                log_extends(*old(self), *self),
                self.units@ == spec_retreat_all(old(self).units@, idxs@.take(k as int), from),
                logged(*old(self), *self, spec_retreat_all_msgs(old(self).units@, idxs@.take(k as int), from)),
            decreases idxs@.len() - k,
        {
            proof {
                assert(idxs@.take(k + 1).drop_last() == idxs@.take(k as int));
            }
            let ghost before = *self;
            self.retreat_unit(idxs[k], from);
            proof {
                lemma_log_extends_trans(*old(self), before, *self);
                lemma_logged_trans(
                    *old(self),
                    before,
                    *self,
                    spec_retreat_all_msgs(old(self).units@, idxs@.take(k as int), from),
                    seq![spec_retreat_msg(before.units@, idxs@[k as int] as int, from)],
                );
            }
            k = k + 1;
        }
        proof {
            assert(idxs@.take(idxs@.len() as int) == idxs@);
        }
    }

    fn retreat_on_map(&mut self, idxs: &[usize], from: Location)
        requires
            old(self).wf(),
            all_valid(idxs@),
        ensures
            final(self).wf(),
            only_units_flags_log(*old(self), *final(self)),
            flags_of(*final(self)) == flags_of(*old(self)),
            log_extends(*old(self), *final(self)),
            final(self).units@ == spec_retreat_on_map(old(self).units@, idxs@, from),
            logged(*old(self), *final(self), spec_retreat_on_map_msgs(old(self).units@, idxs@, from)),
    {
        let mut k: usize = 0;
        proof {
            lemma_log_extends_refl(*self);
            lemma_logged_none(*self);
        }
        while k < idxs.len()
            invariant
                self.wf(),
                all_valid(idxs@),
                k <= idxs@.len(),
                only_units_flags_log(*old(self), *self),
                flags_of(*self) == flags_of(*old(self)),
                log_extends(*old(self), *self),
                self.units@ == spec_retreat_on_map(old(self).units@, idxs@.take(k as int), from),
                logged(*old(self), *self, spec_retreat_on_map_msgs(old(self).units@, idxs@.take(k as int), from)),
            decreases idxs@.len() - k,
        {
            proof {
                assert(idxs@.take(k + 1).drop_last() == idxs@.take(k as int));
            }
            let idx = idxs[k];
            if self.units[idx].is_on_map() {
                let ghost before = *self;
                self.retreat_unit(idx, from);
                proof {
                    lemma_log_extends_trans(*old(self), before, *self);
                    lemma_logged_trans(
                        *old(self),
                        before,
                        *self,
                        spec_retreat_on_map_msgs(old(self).units@, idxs@.take(k as int), from),
                        seq![spec_retreat_msg(before.units@, idx as int, from)],
                    );
                }
            } else {
                proof {
                    assert(spec_retreat_on_map_msgs(old(self).units@, idxs@.take(k + 1), from) =~= spec_retreat_on_map_msgs(
                        old(self).units@,
                        idxs@.take(k as int),
                        from,
                    ));
                }
            }
            k = k + 1;
        }
        proof {
            assert(idxs@.take(idxs@.len() as int) == idxs@);
        }
    }

    fn loss_all(&mut self, idxs: &[usize], context: &str)
        requires
            old(self).wf(),
            all_valid(idxs@),
        ensures
            final(self).wf(),
            only_units_flags_log(*old(self), *final(self)),
            log_extends(*old(self), *final(self)),
            (final(self).units@, flags_of(*final(self))) == spec_loss_all(
                old(self).units@,
                flags_of(*old(self)),
                idxs@,
            ),
            logged(*old(self), *final(self), spec_loss_all_msgs(old(self).units@, flags_of(*old(self)), idxs@, context@)),
    {
        let mut k: usize = 0;
        proof {
            lemma_log_extends_refl(*self);
            lemma_logged_none(*self);
        }
        while k < idxs.len()
            invariant
                self.wf(),
                all_valid(idxs@),
                k <= idxs@.len(),
                only_units_flags_log(*old(self), *self),
                log_extends(*old(self), *self),
                (self.units@, flags_of(*self)) == spec_loss_all(old(self).units@, flags_of(*old(self)), idxs@.take(k as int)),
                logged(
                    *old(self),
                    *self,
                    spec_loss_all_msgs(old(self).units@, flags_of(*old(self)), idxs@.take(k as int), context@),
                ),
            decreases idxs@.len() - k,
        {
            proof {
                assert(idxs@.take(k + 1).drop_last() == idxs@.take(k as int));
            }
            let ghost before = *self;
            self.step_reduce_unit(idxs[k], context);
            proof {
                lemma_log_extends_trans(*old(self), before, *self);
                lemma_logged_trans(
                    *old(self),
                    before,
                    *self,
                    spec_loss_all_msgs(old(self).units@, flags_of(*old(self)), idxs@.take(k as int), context@),
                    seq![spec_loss_msg(before.units@, idxs@[k as int] as int, context@)],
                );
            }
            k = k + 1;
        }
        proof {
            assert(idxs@.take(idxs@.len() as int) == idxs@);
        }
    }

    fn keep_on_map(&self, idxs: &[usize]) -> (r: Vec<usize>)
        requires
            self.wf(),
            all_valid(idxs@),
        ensures
            r@ == keep_on_map(self.units@, idxs@),
            all_valid(r@),
    {
        let mut r: Vec<usize> = Vec::new();
        let mut k: usize = 0;
        while k < idxs.len()
            invariant
                self.wf(),
                all_valid(idxs@),
                k <= idxs@.len(),
                r@ == keep_on_map(self.units@, idxs@.take(k as int)),
                all_valid(r@),
            decreases idxs@.len() - k,
        {
            proof {
                assert(idxs@.take(k + 1).drop_last() == idxs@.take(k as int));
            }
            let i = idxs[k];
            if self.units[i].is_on_map() {
                r.push(i);
            }
            k = k + 1;
        }
        proof {
            assert(idxs@.take(idxs@.len() as int) == idxs@);
        }
        r
    }

    fn keep_unswitched(&self, idxs: &[usize], switched: &[UnitId]) -> (r: Vec<usize>)
        requires
            self.wf(),
            all_valid(idxs@),
        ensures
            r@ == keep_unswitched(self.units@, idxs@, switched@),
            all_valid(r@),
    {
        let mut r: Vec<usize> = Vec::new();
        let mut k: usize = 0;
        while k < idxs.len()
            invariant
                self.wf(),
                all_valid(idxs@),
                k <= idxs@.len(),
                r@ == keep_unswitched(self.units@, idxs@.take(k as int), switched@),
                all_valid(r@),
            decreases idxs@.len() - k,
        {
            proof {
                assert(idxs@.take(k + 1).drop_last() == idxs@.take(k as int));
            }
            let i = idxs[k];
            if !id_slice_contains(switched, self.units[i].id) && self.units[i].is_on_map() {
                r.push(i);
            }
            k = k + 1;
        }
        proof {
            assert(idxs@.take(idxs@.len() as int) == idxs@);
        }
        r
    }
}

/// Does the slice hold the counter identity?
fn id_slice_contains(s: &[UnitId], id: UnitId) -> (r: bool)
    ensures
        r == s@.contains(id),
{
    let mut i: usize = 0;
    while i < s.len()
        invariant
            i <= s@.len(),
            forall|j: int| 0 <= j < i ==> s@[j] != id,
        decreases s@.len() - i,
    {
        if s[i] == id {
            return true;
        }
        i = i + 1;
    }
    false
}

/// Counter `i` eliminated outright, without a turn flag.
pub open spec fn spec_eliminate_at(units: Seq<Unit>, i: int) -> Seq<Unit> {
    units.update(i, spec_eliminated(units[i]))
}

/// The step loss of the highest-SP counter of `idxs`, if any.
pub open spec fn spec_loss_highest(units: Seq<Unit>, mct: Seq<MctMarker>, f: TurnFlags, idxs: Seq<usize>) -> (Seq<Unit>, TurnFlags) {
    match spec_highest(units, mct, idxs) {
        Some(i) => spec_step_loss(units, f, i as int),
        None => (units, f),
    }
}

/// What a CRT result does to the counters and the turn flags (rulebook
/// 6.2.2): `attackers` attacked from `atk_loc` the counters `defenders` at
/// `def_loc`.
pub open spec fn spec_apply(
    units: Seq<Unit>,
    mct: Seq<MctMarker>,
    f: TurnFlags,
    result: CrtResult,
    attackers: Seq<usize>,
    atk_loc: Location,
    defenders: Seq<usize>,
    def_loc: Location,
) -> (Seq<Unit>, TurnFlags) {
    match result {
        CrtResult::AR => spec_apply_ar(units, mct, f, attackers, atk_loc),
        CrtResult::Ar => {
            // All attackers retreat
            (spec_retreat_all(units, attackers, atk_loc), TurnFlags { wagner_repulsed: true, ..f })
        },
        CrtResult::EX => spec_apply_ex(units, mct, f, attackers, atk_loc, defenders),
        CrtResult::NE => (units, f),
        CrtResult::Rp => {
            if def_loc == Location::Moscow {
                spec_loss_highest(units, mct, f, defenders)
            } else {
                (spec_retreat_all(units, defenders, def_loc), f)
            }
        },
        CrtResult::R => spec_apply_r(units, mct, f, defenders, def_loc),
        CrtResult::S => spec_apply_s(units, mct, f, atk_loc, defenders, def_loc),
    }
}

/// AR: the highest SP attacker is eliminated, the rest retreat.
pub open spec fn spec_apply_ar(
    units: Seq<Unit>,
    mct: Seq<MctMarker>,
    f: TurnFlags,
    attackers: Seq<usize>,
    atk_loc: Location,
) -> (Seq<Unit>, TurnFlags) {
    let (u1, f1) = match spec_highest(units, mct, attackers) {
        Some(i) => (spec_eliminate_at(units, i as int), TurnFlags { wagner_eliminated: true, ..f }),
        None => (units, f),
    };
    (spec_retreat_on_map(u1, attackers, atk_loc), TurnFlags { wagner_repulsed: true, ..f1 })
}

/// EX: switchable defenders switch sides; the highest SP defender that did
/// not switch takes a step loss; the highest SP attacker takes a step loss.
pub open spec fn spec_apply_ex(
    units: Seq<Unit>,
    mct: Seq<MctMarker>,
    f: TurnFlags,
    attackers: Seq<usize>,
    atk_loc: Location,
    defenders: Seq<usize>,
) -> (Seq<Unit>, TurnFlags) {
    let (u1, sw) = spec_switch(units, defenders, atk_loc);
    let (u2, f2) = spec_loss_highest(u1, mct, f, keep_unswitched(u1, defenders, sw));
    spec_loss_highest(u2, mct, f2, attackers)
}

/// R: the highest SP defender is eliminated; the rest retreat, or take a
/// step loss in Moscow.
pub open spec fn spec_apply_r(
    units: Seq<Unit>,
    mct: Seq<MctMarker>,
    f: TurnFlags,
    defenders: Seq<usize>,
    def_loc: Location,
) -> (Seq<Unit>, TurnFlags) {
    let (u1, f1) = match spec_highest(units, mct, defenders) {
        Some(i) => (spec_eliminate_at(units, i as int), TurnFlags { russian_eliminated: true, ..f }),
        None => (units, f),
    };
    let rem = keep_on_map(u1, defenders);
    if def_loc == Location::Moscow {
        spec_loss_all(u1, f1, rem)
    } else {
        (spec_retreat_all(u1, rem, def_loc), f1)
    }
}

/// S: switchable defenders switch sides; the highest SP of the others is
/// removed; the rest retreat, or take a step loss in Moscow.
pub open spec fn spec_apply_s(
    units: Seq<Unit>,
    mct: Seq<MctMarker>,
    f: TurnFlags,
    atk_loc: Location,
    defenders: Seq<usize>,
    def_loc: Location,
) -> (Seq<Unit>, TurnFlags) {
    let (u1, sw) = spec_switch(units, defenders, atk_loc);
    let rem = keep_unswitched(u1, defenders, sw);
    let (u2, f2) = match spec_highest(u1, mct, rem) {
        Some(i) => (spec_eliminate_at(u1, i as int), TurnFlags { russian_eliminated: true, ..f }),
        None => (u1, f),
    };
    let rest = keep_on_map(u2, rem);
    if def_loc == Location::Moscow {
        spec_loss_all(u2, f2, rest)
    } else {
        (spec_retreat_all(u2, rest, def_loc), f2)
    }
}

/// The log message of the step loss of the highest-SP counter of `idxs`.
pub open spec fn spec_loss_highest_msgs(units: Seq<Unit>, mct: Seq<MctMarker>, idxs: Seq<usize>, context: Seq<char>) -> Seq<
    Seq<char>,
> {
    match spec_highest(units, mct, idxs) {
        Some(i) => seq![spec_loss_msg(units, i as int, context)],
        None => Seq::empty(),
    }
}

/// The log messages of AR: the elimination, then the retreats.
pub open spec fn spec_ar_msgs(units: Seq<Unit>, mct: Seq<MctMarker>, attackers: Seq<usize>, atk_loc: Location) -> Seq<
    Seq<char>,
> {
    match spec_highest(units, mct, attackers) {
        Some(i) => seq![spec_unit_name(units[i as int].id) + " ELIMINATED [AR]"@] + spec_retreat_on_map_msgs(
            spec_eliminate_at(units, i as int),
            attackers,
            atk_loc,
        ),
        None => spec_retreat_on_map_msgs(units, attackers, atk_loc),
    }
}

/// The log messages of EX: the switches, the loss of the defender that
/// did not switch, the attacker's loss.
pub open spec fn spec_ex_msgs(
    units: Seq<Unit>,
    mct: Seq<MctMarker>,
    f: TurnFlags,
    attackers: Seq<usize>,
    atk_loc: Location,
    defenders: Seq<usize>,
) -> Seq<Seq<char>> {
    let (u1, sw) = spec_switch(units, defenders, atk_loc);
    let rem = keep_unswitched(u1, defenders, sw);
    spec_switch_msgs(units, defenders, atk_loc) + spec_loss_highest_msgs(u1, mct, rem, "EX"@)
        + spec_loss_highest_msgs(spec_loss_highest(u1, mct, f, rem).0, mct, attackers, "EX"@)
}

/// The log messages of R: the elimination, then the retreats or the
/// losses in Moscow.
pub open spec fn spec_r_msgs(
    units: Seq<Unit>,
    mct: Seq<MctMarker>,
    f: TurnFlags,
    defenders: Seq<usize>,
    def_loc: Location,
) -> Seq<Seq<char>> {
    let (u1, f1, m1) = match spec_highest(units, mct, defenders) {
        Some(i) => (
            spec_eliminate_at(units, i as int),
            TurnFlags { russian_eliminated: true, ..f },
            seq![spec_unit_name(units[i as int].id) + " ELIMINATED [R]"@],
        ),
        None => (units, f, Seq::empty()),
    };
    let rem = keep_on_map(u1, defenders);
    m1 + if def_loc == Location::Moscow {
        spec_loss_all_msgs(u1, f1, rem, "R-Moscow"@)
    } else {
        spec_retreat_all_msgs(u1, rem, def_loc)
    }
}

/// The log messages of S: the switches, the surrender, then the retreats
/// or the losses in Moscow.
pub open spec fn spec_s_msgs(
    units: Seq<Unit>,
    mct: Seq<MctMarker>,
    f: TurnFlags,
    atk_loc: Location,
    defenders: Seq<usize>,
    def_loc: Location,
) -> Seq<Seq<char>> {
    let (u1, sw) = spec_switch(units, defenders, atk_loc);
    let m1 = spec_switch_msgs(units, defenders, atk_loc);
    let rem = keep_unswitched(u1, defenders, sw);
    let (u2, f2, m2) = match spec_highest(u1, mct, rem) {
        Some(i) => (
            spec_eliminate_at(u1, i as int),
            TurnFlags { russian_eliminated: true, ..f },
            seq![spec_unit_name(u1[i as int].id) + " SURRENDERED — permanently removed [S]"@],
        ),
        None => (u1, f, Seq::empty()),
    };
    let rest = keep_on_map(u2, rem);
    m1 + m2 + if def_loc == Location::Moscow {
        spec_loss_all_msgs(u2, f2, rest, "S-Moscow"@)
    } else {
        spec_retreat_all_msgs(u2, rest, def_loc)
    }
}

/// The log messages of a CRT result, in the order of `spec_apply`.
pub open spec fn spec_apply_msgs(
    units: Seq<Unit>,
    mct: Seq<MctMarker>,
    f: TurnFlags,
    result: CrtResult,
    attackers: Seq<usize>,
    atk_loc: Location,
    defenders: Seq<usize>,
    def_loc: Location,
) -> Seq<Seq<char>> {
    match result {
        CrtResult::AR => spec_ar_msgs(units, mct, attackers, atk_loc),
        CrtResult::Ar => spec_retreat_all_msgs(units, attackers, atk_loc),
        CrtResult::EX => spec_ex_msgs(units, mct, f, attackers, atk_loc, defenders),
        CrtResult::NE => Seq::empty(),
        CrtResult::Rp => if def_loc == Location::Moscow {
            spec_loss_highest_msgs(units, mct, defenders, "Rp-Moscow"@)
        } else {
            spec_retreat_all_msgs(units, defenders, def_loc)
        },
        CrtResult::R => spec_r_msgs(units, mct, f, defenders, def_loc),
        CrtResult::S => spec_s_msgs(units, mct, f, atk_loc, defenders, def_loc),
    }
}

impl GameState {
    /// Eliminate counter `idx` and log it with `tail`.
    fn eliminate_unit(&mut self, idx: usize, tail: &str)
        requires
            old(self).wf(),
            idx < 12,
        ensures
            final(self).wf(),
            *final(self) == (GameState { units: final(self).units, log: final(self).log, ..*old(self) }),
            log_extends(*old(self), *final(self)),
            final(self).units@ == spec_eliminate_at(old(self).units@, idx as int),
            logged(*old(self), *final(self), seq![spec_unit_name(old(self).units@[idx as int].id) + tail@]),
    {
        let mut u = self.units[idx];
        let name = u.id.name();
        u.eliminate();
        self.set_unit(idx, u);
        let mut m = String::from_str(name);
        m.append(tail);
        self.record(m);
    }

    fn loss_highest(&mut self, idxs: &[usize], context: &str)
        requires
            old(self).wf(),
            all_valid(idxs@),
        ensures
            final(self).wf(),
            only_units_flags_log(*old(self), *final(self)),
            log_extends(*old(self), *final(self)),
            (final(self).units@, flags_of(*final(self))) == spec_loss_highest(
                old(self).units@,
                old(self).mct@,
                flags_of(*old(self)),
                idxs@,
            ),
            logged(*old(self), *final(self), spec_loss_highest_msgs(old(self).units@, old(self).mct@, idxs@, context@)),
    {
        match self.highest_sp_unit(idxs) {
            Some(idx) => {
                self.step_reduce_unit(idx, context);
            },
            None => {
                proof {
                    lemma_log_extends_refl(*self);
                    lemma_logged_none(*self);
                }
            },
        }
    }

    fn apply_ar(&mut self, attackers: &[usize], atk_loc: Location)
        requires
            old(self).wf(),
            all_valid(attackers@),
        ensures
            final(self).wf(),
            only_units_flags_log(*old(self), *final(self)),
            log_extends(*old(self), *final(self)),
            (final(self).units@, flags_of(*final(self))) == spec_apply_ar(
                old(self).units@,
                old(self).mct@,
                flags_of(*old(self)),
                attackers@,
                atk_loc,
            ),
            logged(*old(self), *final(self), spec_ar_msgs(old(self).units@, old(self).mct@, attackers@, atk_loc)),
    {
        let ghost g0 = *self;
        let ghost m1: Seq<Seq<char>> = Seq::empty();
        match self.highest_sp_unit(attackers) {
            Some(idx) => {
                proof {
                    m1 = seq![spec_unit_name(self.units@[idx as int].id) + " ELIMINATED [AR]"@];
                }
                self.eliminate_unit(idx, " ELIMINATED [AR]");
                self.wagner_eliminated_this_turn = true;
            },
            None => {
                proof {
                    lemma_log_extends_refl(*self);
                    lemma_logged_none(*self);
                }
            },
        }
        let ghost g1 = *self;
        self.retreat_on_map(attackers, atk_loc);
        self.wagner_repulsed_this_turn = true;
        proof {
            lemma_log_extends_trans(g0, g1, *self);
            lemma_logged_trans(g0, g1, *self, m1, spec_retreat_on_map_msgs(g1.units@, attackers@, atk_loc));
        }
    }

    fn apply_ex(&mut self, attackers: &[usize], atk_loc: Location, defenders: &[usize])
        requires
            old(self).wf(),
            all_valid(attackers@),
            all_valid(defenders@),
        ensures
            final(self).wf(),
            only_units_flags_log(*old(self), *final(self)),
            log_extends(*old(self), *final(self)),
            (final(self).units@, flags_of(*final(self))) == spec_apply_ex(
                old(self).units@,
                old(self).mct@,
                flags_of(*old(self)),
                attackers@,
                atk_loc,
                defenders@,
            ),
            logged(
                *old(self),
                *final(self),
                spec_ex_msgs(old(self).units@, old(self).mct@, flags_of(*old(self)), attackers@, atk_loc, defenders@),
            ),
    {
        let ghost g0 = *self;
        let switched = self.handle_switchable(defenders, atk_loc);
        let ghost g1 = *self;
        let remaining = self.keep_unswitched(defenders, switched.as_slice());
        self.loss_highest(remaining.as_slice(), "EX");
        let ghost g2 = *self;
        self.loss_highest(attackers, "EX");
        proof {
            lemma_log_extends_trans(g0, g1, g2);
            lemma_log_extends_trans(g0, g2, *self);
            let m1 = spec_switch_msgs(g0.units@, defenders@, atk_loc);
            let m2 = spec_loss_highest_msgs(g1.units@, g1.mct@, remaining@, "EX"@);
            let m3 = spec_loss_highest_msgs(g2.units@, g2.mct@, attackers@, "EX"@);
            lemma_logged_trans(g0, g1, g2, m1, m2);
            lemma_logged_trans(g0, g2, *self, m1 + m2, m3);
        }
    }

    fn apply_r(&mut self, defenders: &[usize], def_loc: Location)
        requires
            old(self).wf(),
            all_valid(defenders@),
        ensures
            final(self).wf(),
            only_units_flags_log(*old(self), *final(self)),
            log_extends(*old(self), *final(self)),
            (final(self).units@, flags_of(*final(self))) == spec_apply_r(
                old(self).units@,
                old(self).mct@,
                flags_of(*old(self)),
                defenders@,
                def_loc,
            ),
            logged(
                *old(self),
                *final(self),
                spec_r_msgs(old(self).units@, old(self).mct@, flags_of(*old(self)), defenders@, def_loc),
            ),
    {
        let ghost g0 = *self;
        let ghost m1: Seq<Seq<char>> = Seq::empty();
        match self.highest_sp_unit(defenders) {
            Some(idx) => {
                proof {
                    m1 = seq![spec_unit_name(self.units@[idx as int].id) + " ELIMINATED [R]"@];
                }
                self.eliminate_unit(idx, " ELIMINATED [R]");
                self.russian_eliminated_this_turn = true;
            },
            None => {
                proof {
                    lemma_log_extends_refl(*self);
                    lemma_logged_none(*self);
                }
            },
        }
        let ghost g1 = *self;
        let remaining = self.keep_on_map(defenders);
        let ghost m2: Seq<Seq<char>>;
        if def_loc == Location::Moscow {
            proof {
                m2 = spec_loss_all_msgs(g1.units@, flags_of(g1), remaining@, "R-Moscow"@);
            }
            self.loss_all(remaining.as_slice(), "R-Moscow");
        } else {
            proof {
                m2 = spec_retreat_all_msgs(g1.units@, remaining@, def_loc);
            }
            self.retreat_all(remaining.as_slice(), def_loc);
        }
        proof {
            lemma_log_extends_trans(g0, g1, *self);
            lemma_logged_trans(g0, g1, *self, m1, m2);
        }
    }

    fn apply_s(&mut self, atk_loc: Location, defenders: &[usize], def_loc: Location)
        requires
            old(self).wf(),
            all_valid(defenders@),
        ensures
            final(self).wf(),
            only_units_flags_log(*old(self), *final(self)),
            log_extends(*old(self), *final(self)),
            (final(self).units@, flags_of(*final(self))) == spec_apply_s(
                old(self).units@,
                old(self).mct@,
                flags_of(*old(self)),
                atk_loc,
                defenders@,
                def_loc,
            ),
            logged(
                *old(self),
                *final(self),
                spec_s_msgs(old(self).units@, old(self).mct@, flags_of(*old(self)), atk_loc, defenders@, def_loc),
            ),
    {
        let ghost g0 = *self;
        let switched = self.handle_switchable(defenders, atk_loc);
        let ghost g1 = *self;
        let remaining = self.keep_unswitched(defenders, switched.as_slice());
        let ghost m2: Seq<Seq<char>> = Seq::empty();
        match self.highest_sp_unit(remaining.as_slice()) {
            Some(idx) => {
                proof {
                    m2 = seq![spec_unit_name(self.units@[idx as int].id) + " SURRENDERED — permanently removed [S]"@];
                }
                self.eliminate_unit(idx, " SURRENDERED — permanently removed [S]");
                self.russian_eliminated_this_turn = true;
            },
            None => {
                proof {
                    lemma_log_extends_refl(*self);
                    lemma_logged_none(*self);
                }
            },
        }
        let ghost g2 = *self;
        let rest = self.keep_on_map(remaining.as_slice());
        let ghost m3: Seq<Seq<char>>;
        if def_loc == Location::Moscow {
            proof {
                m3 = spec_loss_all_msgs(g2.units@, flags_of(g2), rest@, "S-Moscow"@);
            }
            self.loss_all(rest.as_slice(), "S-Moscow");
        } else {
            proof {
                m3 = spec_retreat_all_msgs(g2.units@, rest@, def_loc);
            }
            self.retreat_all(rest.as_slice(), def_loc);
        }
        proof {
            lemma_log_extends_trans(g0, g1, g2);
            lemma_log_extends_trans(g0, g2, *self);
            let m1 = spec_switch_msgs(g0.units@, defenders@, atk_loc);
            lemma_logged_trans(g0, g1, g2, m1, m2);
            lemma_logged_trans(g0, g2, *self, m1 + m2, m3);
        }
    }

    /// Apply a contact outcome to the counters and the turn flags.
    pub(crate) fn apply_contact_result(
        &mut self,
        outcome: &ContactOutcome,
        attackers: &[usize],
        atk_loc: Location,
        defenders: &[usize],
        def_loc: Location,
    )
        requires
            old(self).wf(),
            all_valid(attackers@),
            all_valid(defenders@),
        ensures
            final(self).wf(),
            only_units_flags_log(*old(self), *final(self)),
            log_extends(*old(self), *final(self)),
            (final(self).units@, flags_of(*final(self))) == spec_apply(
                old(self).units@,
                old(self).mct@,
                flags_of(*old(self)),
                outcome.result,
                attackers@,
                atk_loc,
                defenders@,
                def_loc,
            ),
            logged(
                *old(self),
                *final(self),
                spec_apply_msgs(
                    old(self).units@,
                    old(self).mct@,
                    flags_of(*old(self)),
                    outcome.result,
                    attackers@,
                    atk_loc,
                    defenders@,
                    def_loc,
                ),
            ),
    {
        match outcome.result {
            CrtResult::AR => {
                self.apply_ar(attackers, atk_loc);
            },
            CrtResult::Ar => {
                self.retreat_all(attackers, atk_loc);
                self.wagner_repulsed_this_turn = true;
            },
            CrtResult::EX => {
                self.apply_ex(attackers, atk_loc, defenders);
            },
            CrtResult::NE => {
                proof {
                    lemma_log_extends_refl(*self);
                    lemma_logged_none(*self);
                }
            },
            CrtResult::Rp => {
                if def_loc == Location::Moscow {
                    self.loss_highest(defenders, "Rp-Moscow");
                } else {
                    self.retreat_all(defenders, def_loc);
                }
            },
            CrtResult::R => {
                self.apply_r(defenders, def_loc);
            },
            CrtResult::S => {
                self.apply_s(atk_loc, defenders, def_loc);
            },
        }
    }
}

/// The names of the counters `idxs`, joined by ", ".
pub open spec fn spec_joined_names(units: Seq<Unit>, idxs: Seq<usize>) -> Seq<char>
    decreases idxs.len(),
{
    if idxs.len() == 0 {
        Seq::empty()
    } else {
        spec_joined_names(units, idxs.drop_last()) + (if idxs.len() > 1 {
            ", "@
        } else {
            Seq::empty()
        }) + spec_unit_name(units[idxs.last() as int].id)
    }
}

/// The log line of a Wagner contact: who attacked from where, the SPs, the
/// column, the roll and its modifiers, and the CRT code.
pub open spec fn spec_contact_msg(
    units: Seq<Unit>,
    attackers: Seq<usize>,
    from_loc: Location,
    target_loc: Location,
    o: ContactOutcome,
) -> Seq<char> {
    "Contact: "@ + spec_joined_names(units, attackers) + " @ "@ + spec_location_name(from_loc) + " → "@
        + spec_location_name(target_loc) + " | ATK:"@ + spec_int_str(o.attack_sp as int) + " DEF:"@
        + spec_int_str(o.defend_sp as int) + " | CD:"@ + spec_signed_str(o.cd_adjusted as int)
        + " | Roll:"@ + spec_int_str(o.die_roll as int) + " DRM:"@ + spec_signed_str(o.drm_total as int)
        + " Final:"@ + spec_int_str(o.final_die as int) + " | "@ + spec_crt_code(o.result)
}

/// The log lines of a Wagner contact: the contact line, then those of
/// the result.
pub open spec fn spec_contact_log(
    a: GameState,
    attackers: Seq<usize>,
    from_loc: Location,
    target_loc: Location,
    r: ContactOutcome,
) -> Seq<Seq<char>> {
    seq![spec_contact_msg(a.units@, attackers, from_loc, target_loc, r)] + spec_apply_msgs(
        a.units@,
        a.mct@,
        flags_of(a),
        r.result,
        attackers,
        from_loc,
        a.spec_defenders(target_loc),
        target_loc,
    )
}

/// A Wagner contact from `from_loc` on `target_loc` with a die roll of
/// `r.die_roll`: the outcome it yields and the result applied.
pub open spec fn contact_step(
    a: GameState,
    attackers: Seq<usize>,
    from_loc: Location,
    target_loc: Location,
    b: GameState,
    r: ContactOutcome,
) -> bool {
    &&& 1 <= r.die_roll <= 6
    &&& only_units_flags_log(a, b)
    &&& log_extends(a, b)
    &&& logged(a, b, spec_contact_log(a, attackers, from_loc, target_loc, r))
    &&& outcome_matches(
        r,
        spec_sum_sp(a.units@, a.mct@, attackers),
        spec_sum_sp(a.units@, a.mct@, a.spec_defenders(target_loc)),
        a.momentum as int,
        river_between(from_loc, target_loc),
        target_loc == Location::Moscow,
        spec_count_flanking(a.units@, from_loc, target_loc),
        all_helicopters(a.units@, attackers),
        r.die_roll as int,
    )
    &&& (b.units@, flags_of(b)) == spec_apply(
        a.units@,
        a.mct@,
        flags_of(a),
        r.result,
        attackers,
        from_loc,
        a.spec_defenders(target_loc),
        target_loc,
    )
}

/// Advance after contact: the counters move into `to`.
pub open spec fn advance_step(a: GameState, idxs: Seq<usize>, to: Location, b: GameState) -> bool {
    &&& b == (GameState { units: b.units, log: b.log, ..a })
    &&& log_extends(a, b)
    &&& logged(a, b, spec_advance_msgs(a.units@, idxs, to))
    &&& b.units@ == spec_advance(a.units@, idxs, to)
}

/// Total effective SP of the counters `idxs`.
pub open spec fn spec_sum_sp(units: Seq<Unit>, mct: Seq<MctMarker>, idxs: Seq<usize>) -> int
    decreases idxs.len(),
{
    if idxs.len() == 0 {
        0
    } else {
        spec_sum_sp(units, mct, idxs.drop_last()) + eff_sp(units, mct, idxs.last() as int)
    }
}

/// Does a Wagner counter able to attack (not police) stand at `l`?
pub open spec fn has_wagner_attacker(units: Seq<Unit>, l: Location) -> bool {
    exists|j: int| 0 <= j < units.len() && units[j].location == Some(l) && units[j].side == Side::Wagner
        && !units[j].police
}

/// Locations of `s`, other than `primary`, holding a Wagner counter able to
/// attack.
pub open spec fn flank_count(units: Seq<Unit>, primary: Location, s: Seq<(Location, EdgeProps)>) -> int
    decreases s.len(),
{
    if s.len() == 0 {
        0
    } else {
        flank_count(units, primary, s.drop_last()) + if s.last().0 != primary && has_wagner_attacker(
            units,
            s.last().0,
        ) {
            1int
        } else {
            0int
        }
    }
}

/// Flanking: other Wagner-occupied locations adjacent to the target that
/// hold a counter able to attack, at most two.
pub open spec fn spec_count_flanking(units: Seq<Unit>, primary: Location, target: Location) -> int {
    let c = flank_count(units, primary, spec_adj(target));
    if c < 2 {
        c
    } else {
        2
    }
}

/// Neighbours (from `s`, in order) that hold a Russian counter.
pub open spec fn russian_neighbors(units: Seq<Unit>, s: Seq<(Location, EdgeProps)>) -> Seq<Location>
    decreases s.len(),
{
    if s.len() == 0 {
        Seq::empty()
    } else {
        russian_neighbors(units, s.drop_last()) + if crate::game::side_occupies(units, Side::Russia, s.last().0) {
            seq![s.last().0]
        } else {
            Seq::empty()
        }
    }
}

/// For each location of `ls` holding a Wagner counter able to attack, the
/// adjacent locations holding Russian counters, when there are any.
pub open spec fn spec_opportunities(units: Seq<Unit>, ls: Seq<Location>) -> Seq<(Location, Seq<Location>)>
    decreases ls.len(),
{
    if ls.len() == 0 {
        Seq::empty()
    } else {
        let l = ls.last();
        let t = russian_neighbors(units, spec_adj(l));
        spec_opportunities(units, ls.drop_last()) + if has_wagner_attacker(units, l) && t.len() > 0 {
            seq![(l, t)]
        } else {
            Seq::empty()
        }
    }
}

/// Every on-map counter of `idxs` moves into `to`.
pub open spec fn spec_advance(units: Seq<Unit>, idxs: Seq<usize>, to: Location) -> Seq<Unit>
    decreases idxs.len(),
{
    if idxs.len() == 0 {
        units
    } else {
        let us = spec_advance(units, idxs.drop_last(), to);
        let i = idxs.last() as int;
        if us[i].location is Some {
            us.update(i, Unit { location: Some(to), ..us[i] })
        } else {
            us
        }
    }
}

/// The log messages of an advance: one per counter still on the map.
pub open spec fn spec_advance_msgs(units: Seq<Unit>, idxs: Seq<usize>, to: Location) -> Seq<Seq<char>>
    decreases idxs.len(),
{
    if idxs.len() == 0 {
        Seq::empty()
    } else {
        let us = spec_advance(units, idxs.drop_last(), to);
        let i = idxs.last() as int;
        spec_advance_msgs(units, idxs.drop_last(), to) + if us[i].location is Some {
            seq![spec_unit_name(us[i].id) + " advanced into "@ + spec_location_name(to)]
        } else {
            Seq::empty()
        }
    }
}

/// Do all counters of `idxs` carry helicopters?
pub open spec fn all_helicopters(units: Seq<Unit>, idxs: Seq<usize>) -> bool {
    forall|k: int| 0 <= k < idxs.len() ==> #[trigger] units[idxs[k] as int].id == UnitId::Helicopters
}

/// Is the connection from `a` to `b` a river crossing?
pub open spec fn river_between(a: Location, b: Location) -> bool {
    spec_edge(a, b) matches Some(e) && e.river
}

impl GameState {
    /// Defenders at `target` in a Wagner contact: the Russian counters there.
    pub open spec fn spec_defenders(&self, target: Location) -> Seq<usize> {
        indices_where(self.units@.len(), side_at_pred(self.units@, target, Side::Russia))
    }

    /// A Wagner contact from `from` on `target` keeps its arithmetic within
    /// `i32`.
    pub open spec fn contact_fits(&self, attackers: Seq<usize>, from: Location, target: Location) -> bool {
        let a = spec_sum_sp(self.units@, self.mct@, attackers);
        let d = spec_sum_sp(self.units@, self.mct@, self.spec_defenders(target));
        &&& a <= i32::MAX
        &&& a - d + spec_force_ratio_shift(a, d) <= i32::MAX
    }

    /// Total effective SP of the counters `idxs`.
    pub fn sum_sp(&self, idxs: &[usize]) -> (r: i32)
        requires
            self.wf(),
            all_valid(idxs@),
            spec_sum_sp(self.units@, self.mct@, idxs@) <= i32::MAX,
        ensures
            r == spec_sum_sp(self.units@, self.mct@, idxs@),
            r >= 0,
    {
        let mut total: i32 = 0;
        let mut k: usize = 0;
        while k < idxs.len()
            invariant
                self.wf(),
                all_valid(idxs@),
                k <= idxs@.len(),
                spec_sum_sp(self.units@, self.mct@, idxs@) <= i32::MAX,
                total == spec_sum_sp(self.units@, self.mct@, idxs@.take(k as int)),
                total >= 0,
            decreases idxs@.len() - k,
        {
            proof {
                assert(idxs@.take(k + 1).drop_last() == idxs@.take(k as int));
                lemma_sum_sp_prefix(self.units@, self.mct@, idxs@, k + 1);
            }
            total = total + self.effective_sp(idxs[k]);
            k = k + 1;
        }
        proof {
            assert(idxs@.take(idxs@.len() as int) == idxs@);
        }
        total
    }

    /// Does a Wagner counter able to attack stand at `l`?
    fn wagner_attacker_at(&self, l: Location) -> (r: bool)
        ensures
            r == has_wagner_attacker(self.units@, l),
    {
        let mut i: usize = 0;
        while i < self.units.len()
            invariant
                i <= self.units@.len(),
                forall|j: int| 0 <= j < i ==> !(self.units@[j].location == Some(l) && self.units@[j].side == Side::Wagner
                    && !self.units@[j].police),
            decreases self.units@.len() - i,
        {
            if self.units[i].location == Some(l) && self.units[i].side == Side::Wagner && !self.units[i].police {
                return true;
            }
            i = i + 1;
        }
        false
    }

    /// Count flanking locations: other Wagner-occupied locations adjacent to
    /// the target (at most two).
    pub fn count_flanking(&self, primary_loc: Location, target_loc: Location) -> (r: i32)
        requires
            self.wf(),
        ensures
            r == spec_count_flanking(self.units@, primary_loc, target_loc),
            0 <= r <= 2,
    {
        let ns = self.map.neighbors(target_loc);
        let mut count: i32 = 0;
        let mut n: usize = 0;
        while n < ns.len()
            invariant
                ns@ == spec_adj(target_loc),
                ns@.len() <= 5,
                n <= ns@.len(),
                count == flank_count(self.units@, primary_loc, ns@.take(n as int)),
                0 <= count <= n,
            decreases ns@.len() - n,
        {
            proof {
                assert(ns@.take(n + 1).drop_last() == ns@.take(n as int));
            }
            let (neighbor, _) = ns[n];
            if neighbor != primary_loc {
                if self.wagner_attacker_at(neighbor) {
                    count = count + 1;
                }
            }
            n = n + 1;
        }
        proof {
            assert(ns@.take(ns@.len() as int) == ns@);
        }
        if count < 2 {
            count
        } else {
            2
        }
    }

    /// Adjacent locations of `l`, in neighbour order, holding Russian
    /// counters.
    fn russian_targets(&self, l: Location) -> (r: Vec<Location>)
        requires
            self.wf(),
        ensures
            r@ == russian_neighbors(self.units@, spec_adj(l)),
    {
        let ns = self.map.neighbors(l);
        let mut targets: Vec<Location> = Vec::new();
        let mut n: usize = 0;
        while n < ns.len()
            invariant
                self.wf(),
                ns@ == spec_adj(l),
                n <= ns@.len(),
                targets@ == russian_neighbors(self.units@, ns@.take(n as int)),
            decreases ns@.len() - n,
        {
            proof {
                assert(ns@.take(n + 1).drop_last() == ns@.take(n as int));
            }
            let (neighbor, _) = ns[n];
            if !self.target_empty_of_russians(neighbor) {
                targets.push(neighbor);
            }
            n = n + 1;
        }
        proof {
            assert(ns@.take(ns@.len() as int) == ns@);
        }
        targets
    }

    /// Wagner locations that can initiate contact (police cannot), each with
    /// the adjacent Russian-occupied locations.
    pub fn contact_opportunities(&self) -> (r: Vec<(Location, Vec<Location>)>)
        requires
            self.wf(),
        ensures
            r@.map_values(|p: (Location, Vec<Location>)| (p.0, p.1@)) == spec_opportunities(
                self.units@,
                locations_where(13, occupied_pred(self.units@, Side::Wagner)),
            ),
    {
        let wlocs = self.wagner_locations();
        let mut results: Vec<(Location, Vec<Location>)> = Vec::new();
        let mut k: usize = 0;
        while k < wlocs.len()
            invariant
                self.wf(),
                wlocs@ == locations_where(13, occupied_pred(self.units@, Side::Wagner)),
                k <= wlocs@.len(),
                results@.map_values(|p: (Location, Vec<Location>)| (p.0, p.1@)) == spec_opportunities(
                    self.units@,
                    wlocs@.take(k as int),
                ),
            decreases wlocs@.len() - k,
        {
            proof {
                assert(wlocs@.take(k + 1).drop_last() == wlocs@.take(k as int));
            }
            let wloc = wlocs[k];
            let ghost before = results@;
            if self.wagner_attacker_at(wloc) {
                let targets = self.russian_targets(wloc);
                if targets.len() > 0 {
                    results.push((wloc, targets));
                }
            }
            proof {
                assert(results@.map_values(|p: (Location, Vec<Location>)| (p.0, p.1@)) =~= spec_opportunities(
                    self.units@,
                    wlocs@.take(k + 1),
                ));
            }
            k = k + 1;
        }
        proof {
            assert(wlocs@.take(wlocs@.len() as int) == wlocs@);
        }
        results
    }

    fn advance_one(&mut self, idx: usize, to: Location)
        requires
            old(self).wf(),
            idx < 12,
        ensures
            final(self).wf(),
            *final(self) == (GameState { units: final(self).units, log: final(self).log, ..*old(self) }),
            log_extends(*old(self), *final(self)),
            old(self).units@[idx as int].location is Some ==> final(self).units@ == old(self).units@.update(
                idx as int,
                Unit { location: Some(to), ..old(self).units@[idx as int] },
            ),
            old(self).units@[idx as int].location is None ==> final(self).units@ == old(self).units@,
            logged(
                *old(self),
                *final(self),
                if old(self).units@[idx as int].location is Some {
                    seq![spec_unit_name(old(self).units@[idx as int].id) + " advanced into "@ + spec_location_name(to)]
                } else {
                    Seq::empty()
                },
            ),
    {
        if self.units[idx].is_on_map() {
            let mut u = self.units[idx];
            let name = u.id.name();
            u.location = Some(to);
            self.set_unit(idx, u);
            let mut m = String::from_str(name);
            m.append(" advanced into ");
            m.append(to.name());
            self.record(m);
        } else {
            proof {
                lemma_log_extends_refl(*self);
                lemma_logged_none(*self);
            }
        }
    }

    /// Advance after contact: the listed units still on the map move into
    /// `to`.
    pub fn advance_units(&mut self, unit_indices: &[usize], to: Location)
        requires
            old(self).wf(),
            all_valid(unit_indices@),
        ensures
            final(self).wf(),
            advance_step(*old(self), unit_indices@, to, *final(self)),
    {
        let mut k: usize = 0;
        proof {
            lemma_log_extends_refl(*self);
            lemma_logged_none(*self);
        }
        while k < unit_indices.len()
            invariant
                self.wf(),
                all_valid(unit_indices@),
                k <= unit_indices@.len(),
                *self == (GameState { units: self.units, log: self.log, ..*old(self) }),
                log_extends(*old(self), *self),
                self.units@ == spec_advance(old(self).units@, unit_indices@.take(k as int), to),
                logged(*old(self), *self, spec_advance_msgs(old(self).units@, unit_indices@.take(k as int), to)),
            decreases unit_indices@.len() - k,
        {
            proof {
                assert(unit_indices@.take(k + 1).drop_last() == unit_indices@.take(k as int));
            }
            let idx = unit_indices[k];
            let ghost before = *self;
            self.advance_one(idx, to);
            proof {
                lemma_log_extends_trans(*old(self), before, *self);
                lemma_logged_trans(
                    *old(self),
                    before,
                    *self,
                    spec_advance_msgs(old(self).units@, unit_indices@.take(k as int), to),
                    if before.units@[idx as int].location is Some {
                        seq![spec_unit_name(before.units@[idx as int].id) + " advanced into "@ + spec_location_name(to)]
                    } else {
                        Seq::empty()
                    },
                );
            }
            k = k + 1;
        }
        proof {
            assert(unit_indices@.take(unit_indices@.len() as int) == unit_indices@);
        }
    }
}

proof fn lemma_sum_sp_prefix(units: Seq<Unit>, mct: Seq<MctMarker>, idxs: Seq<usize>, k: int)
    requires
        0 <= k <= idxs.len(),
        forall|j: int| 0 <= j < idxs.len() ==> eff_sp(units, mct, #[trigger] idxs[j] as int) >= 0,
    ensures
        spec_sum_sp(units, mct, idxs.take(k)) <= spec_sum_sp(units, mct, idxs),
        spec_sum_sp(units, mct, idxs.take(k)) >= 0,
    decreases idxs.len(),
{
    if idxs.len() > 0 {
        if k == idxs.len() {
            assert(idxs.take(k) == idxs);
            lemma_sum_sp_prefix(units, mct, idxs.drop_last(), k - 1);
            assert(idxs.drop_last().take(k - 1) =~= idxs.drop_last());
        } else {
            lemma_sum_sp_prefix(units, mct, idxs.drop_last(), k);
            assert(idxs.drop_last().take(k) =~= idxs.take(k));
        }
    }
}

pub proof fn lemma_eff_sp_bounds(g: GameState, i: int)
    requires
        g.wf(),
        0 <= i < 12,
    ensures
        1 <= eff_sp(g.units@, g.mct@, i) <= 6,
{
    lemma_unit_at_bounds(i);
    let u = g.units@[i];
    if u.side == Side::Wagner && crate::game::spec_mct_index(u.id) is Some {
        let k = crate::game::spec_mct_index(u.id).unwrap();
        assert(g.mct@[k].step <= crate::mct::MCT_MAX);
    }
}

pub proof fn lemma_sum_sp_bounds(g: GameState, idxs: Seq<usize>)
    requires
        g.wf(),
        all_valid(idxs),
    ensures
        0 <= spec_sum_sp(g.units@, g.mct@, idxs) <= 6 * idxs.len(),
    decreases idxs.len(),
{
    if idxs.len() > 0 {
        lemma_sum_sp_bounds(g, idxs.drop_last());
        lemma_eff_sp_bounds(g, idxs.last() as int);
    }
}

impl GameState {
    pub(crate) fn all_helicopters(&self, idxs: &[usize]) -> (r: bool)
        requires
            self.wf(),
            all_valid(idxs@),
        ensures
            r == all_helicopters(self.units@, idxs@),
    {
        let mut k: usize = 0;
        while k < idxs.len()
            invariant
                self.wf(),
                all_valid(idxs@),
                k <= idxs@.len(),
                forall|q: int| 0 <= q < k ==> #[trigger] self.units@[idxs@[q] as int].id == UnitId::Helicopters,
            decreases idxs@.len() - k,
        {
            if !self.units[idxs[k]].is_helicopter() {
                return false;
            }
            k = k + 1;
        }
        true
    }

    /// Resolve a Wagner contact from `from_loc` on `target_loc` for a given
    /// die roll, and apply the result.
    pub fn resolve_contact_with_roll(
        &mut self,
        attacker_indices: &[usize],
        from_loc: Location,
        target_loc: Location,
        die_roll: i32,
    ) -> (r: ContactOutcome)
        requires
            old(self).wf(),
            all_valid(attacker_indices@),
            old(self).contact_fits(attacker_indices@, from_loc, target_loc),
            1 <= die_roll <= 6,
        ensures
            final(self).wf(),
            only_units_flags_log(*old(self), *final(self)),
            log_extends(*old(self), *final(self)),
            outcome_matches(
                r,
                spec_sum_sp(old(self).units@, old(self).mct@, attacker_indices@),
                spec_sum_sp(old(self).units@, old(self).mct@, old(self).spec_defenders(target_loc)),
                old(self).momentum as int,
                river_between(from_loc, target_loc),
                target_loc == Location::Moscow,
                spec_count_flanking(old(self).units@, from_loc, target_loc),
                all_helicopters(old(self).units@, attacker_indices@),
                die_roll as int,
            ),
            (final(self).units@, flags_of(*final(self))) == spec_apply(
                old(self).units@,
                old(self).mct@,
                flags_of(*old(self)),
                r.result,
                attacker_indices@,
                from_loc,
                old(self).spec_defenders(target_loc),
                target_loc,
            ),
            logged(*old(self), *final(self), spec_contact_log(*old(self), attacker_indices@, from_loc, target_loc, r)),
    {
        let attack_sp = self.sum_sp(attacker_indices);
        let defender_indices = self.russian_units_at(target_loc);
        proof {
            assert(self.units@.len() == self.units.len());
            lemma_indices_where_members(self.units@.len(), side_at_pred(self.units@, target_loc, Side::Russia));
            lemma_sum_sp_bounds(*self, defender_indices@);
        }
        let defend_sp = self.sum_sp(defender_indices.as_slice());
        let river = match self.map.edge(from_loc, target_loc) {
            Some(e) => e.river,
            None => false,
        };
        let all_heli = self.all_helicopters(attacker_indices);
        let attacking_moscow = target_loc == Location::Moscow;
        let flanking = self.count_flanking(from_loc, target_loc);
        let outcome = resolve_contact_with_roll(
            attack_sp,
            defend_sp,
            self.momentum,
            river,
            attacking_moscow,
            flanking,
            all_heli,
            die_roll,
        );
        let ghost g0 = *self;
        self.record_contact(attacker_indices, from_loc, target_loc, &outcome);
        let ghost g1 = *self;
        self.apply_contact_result(&outcome, attacker_indices, from_loc, defender_indices.as_slice(), target_loc);
        proof {
            lemma_log_extends_trans(g0, g1, *self);
            lemma_logged_trans(
                g0,
                g1,
                *self,
                seq![spec_contact_msg(g0.units@, attacker_indices@, from_loc, target_loc, outcome)],
                spec_apply_msgs(
                    g1.units@,
                    g1.mct@,
                    flags_of(g1),
                    outcome.result,
                    attacker_indices@,
                    from_loc,
                    defender_indices@,
                    target_loc,
                ),
            );
        }
        outcome
    }

    /// Resolve a Wagner contact, rolling one die, and apply the result.
    pub fn resolve_contact(&mut self, attacker_indices: &[usize], from_loc: Location, target_loc: Location) -> (r: ContactOutcome)
        requires
            old(self).wf(),
            all_valid(attacker_indices@),
            old(self).contact_fits(attacker_indices@, from_loc, target_loc),
        ensures
            final(self).wf(),
            contact_step(*old(self), attacker_indices@, from_loc, target_loc, *final(self), r),
    {
        let die_roll = roll_d6();
        self.resolve_contact_with_roll(attacker_indices, from_loc, target_loc, die_roll)
    }

    /// Log a Wagner contact.
    fn record_contact(&mut self, attackers: &[usize], from_loc: Location, target_loc: Location, outcome: &ContactOutcome)
        requires
            all_valid(attackers@),
            old(self).units@.len() == 12,
        ensures
            *final(self) == (GameState { log: final(self).log, ..*old(self) }),
            log_extends(*old(self), *final(self)),
            logged(
                *old(self),
                *final(self),
                seq![spec_contact_msg(old(self).units@, attackers@, from_loc, target_loc, *outcome)],
            ),
    {
        let mut m = String::from_str("Contact: ");
        let mut k: usize = 0;
        while k < attackers.len()
            invariant
                all_valid(attackers@),
                self.units@.len() == 12,
                k <= attackers@.len(),
                m@ == "Contact: "@ + spec_joined_names(self.units@, attackers@.take(k as int)),
            decreases attackers@.len() - k,
        {
            proof {
                assert(attackers@.take(k + 1).drop_last() == attackers@.take(k as int));
            }
            if k > 0 {
                m.append(", ");
            }
            m.append(self.units[attackers[k]].id.name());
            k = k + 1;
        }
        proof {
            assert(attackers@.take(k as int) == attackers@);
        }
        m.append(" @ ");
        m.append(from_loc.name());
        m.append(" → ");
        m.append(target_loc.name());
        m.append(" | ATK:");
        m.append(crate::text::i64_to_string(outcome.attack_sp as i64).as_str());
        m.append(" DEF:");
        m.append(crate::text::i64_to_string(outcome.defend_sp as i64).as_str());
        m.append(" | CD:");
        m.append(crate::text::i64_to_signed_string(outcome.cd_adjusted as i64).as_str());
        m.append(" | Roll:");
        m.append(crate::text::i64_to_string(outcome.die_roll as i64).as_str());
        m.append(" DRM:");
        m.append(crate::text::i64_to_signed_string(outcome.drm_total as i64).as_str());
        m.append(" Final:");
        m.append(crate::text::i64_to_string(outcome.final_die as i64).as_str());
        m.append(" | ");
        m.append(outcome.result.code());
        self.record(m);
    }
}

/// The counter that takes a loss among `idxs` is one of them, on the map,
/// with effective SP at least that of every other member on the map, and
/// the last such among equals; there is none only when no member is on
/// the map.
pub proof fn law_highest_is_strongest(units: Seq<Unit>, mct: Seq<MctMarker>, idxs: Seq<usize>)
    ensures
        match spec_highest(units, mct, idxs) {
            Some(i) => {
                &&& idxs.contains(i)
                &&& units[i as int].location is Some
                &&& forall|k: int|
                    0 <= k < idxs.len() && (#[trigger] units[idxs[k] as int]).location is Some ==> eff_sp(
                        units,
                        mct,
                        i as int,
                    ) >= eff_sp(units, mct, idxs[k] as int)
                &&& exists|p: int|
                    0 <= p < idxs.len() && idxs[p] == i && forall|k: int|
                        p < k < idxs.len() && (#[trigger] units[idxs[k] as int]).location is Some ==> eff_sp(
                            units,
                            mct,
                            idxs[k] as int,
                        ) < eff_sp(units, mct, i as int)
            },
            None => forall|k: int| 0 <= k < idxs.len() ==> (#[trigger] units[idxs[k] as int]).location is None,
        },
    decreases idxs.len(),
{
    if idxs.len() > 0 {
        let d = idxs.drop_last();
        law_highest_is_strongest(units, mct, d);
        assert forall|k: int| 0 <= k < d.len() implies #[trigger] d[k] == idxs[k] by {}
        match spec_highest(units, mct, idxs) {
            Some(i) => {
                if i == idxs.last() && units[i as int].location is Some && (spec_highest(units, mct, d) matches Some(
                    x,
                ) ==> eff_sp(units, mct, i as int) >= eff_sp(units, mct, x as int)) {
                    assert(idxs[idxs.len() - 1] == i);
                } else {
                    let j = choose|j: int| 0 <= j < d.len() && d[j] == i;
                    assert(idxs[j] == i);
                    let p = choose|p: int|
                        0 <= p < d.len() && d[p] == i && forall|k: int|
                            p < k < d.len() && (#[trigger] units[d[k] as int]).location is Some ==> eff_sp(
                                units,
                                mct,
                                d[k] as int,
                            ) < eff_sp(units, mct, i as int);
                    assert(idxs[p] == i);
                    assert forall|k: int|
                        p < k < idxs.len() && (#[trigger] units[idxs[k] as int]).location is Some implies eff_sp(
                        units,
                        mct,
                        idxs[k] as int,
                    ) < eff_sp(units, mct, i as int) by {
                        if k < idxs.len() - 1 {
                            assert(units[d[k] as int] == units[idxs[k] as int]);
                        }
                    }
                }
                assert forall|k: int|
                    0 <= k < idxs.len() && (#[trigger] units[idxs[k] as int]).location is Some implies eff_sp(
                    units,
                    mct,
                    i as int,
                ) >= eff_sp(units, mct, idxs[k] as int) by {
                    if k < idxs.len() - 1 {
                        assert(units[d[k] as int] == units[idxs[k] as int]);
                    }
                }
            },
            None => {
                assert forall|k: int| 0 <= k < idxs.len() implies (#[trigger] units[idxs[k] as int]).location is None by {
                    if k < idxs.len() - 1 {
                        assert(units[d[k] as int] == units[idxs[k] as int]);
                    }
                }
            },
        }
    }
}

} // verus!
