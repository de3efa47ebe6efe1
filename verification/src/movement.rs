//! Movement: costs, legality, single moves and multi-hop moves.

use vstd::prelude::*;
use vstd::string::*;

use crate::game::{indices_where, lemma_indices_where_members, side_occupies, GameState};
use crate::map::{spec_edge, spec_location_name, Location};
use crate::text::{i64_to_string, spec_int_str};
use crate::units::{lemma_unit_at_bounds, spec_unit_name, Side, UnitId};

verus! {

/// The side opposing `side`.
pub open spec fn enemy_of(side: Side) -> Side {
    if side == Side::Wagner {
        Side::Russia
    } else {
        Side::Wagner
    }
}

/// Is there a roadblock at `loc`?
pub open spec fn spec_roadblocked(g: GameState, loc: Location) -> bool {
    g.roadblocks@[0] == Some(loc) || g.roadblocks@[1] == Some(loc)
}

/// MP cost for unit `i` to move from `from` to `to`: 1, +1 across a river
/// (not for helicopters), +1 for Wagner entering a roadblocked location;
/// None when the two are not connected.
pub open spec fn spec_move_cost(g: GameState, i: int, from: Location, to: Location) -> Option<int> {
    match spec_edge(from, to) {
        None => None,
        Some(e) => Some(
            1 + (if e.river && g.units@[i].id != UnitId::Helicopters {
                1int
            } else {
                0int
            }) + (if g.units@[i].side == Side::Wagner && spec_roadblocked(g, to) {
                1int
            } else {
                0int
            }),
        ),
    }
}

/// The MP cost of a step: unconnected locations cannot be stepped between;
/// otherwise 1, plus 1 for a river crossed by anything but the
/// helicopters, plus 1 for a Wagner counter entering a location that
/// either roadblock slot holds.
pub proof fn law_move_cost(g: GameState, i: int, u: Location, v: Location)
    ensures
        spec_edge(u, v) is None ==> spec_move_cost(g, i, u, v) is None,
        spec_edge(u, v) matches Some(e) ==> spec_move_cost(g, i, u, v) == Some(
            1 + (if e.river && g.units@[i].id != UnitId::Helicopters {
                1int
            } else {
                0int
            }) + (if g.units@[i].side == Side::Wagner && (g.roadblocks@[0] == Some(v) || g.roadblocks@[1] == Some(
                v,
            )) {
                1int
            } else {
                0int
            }),
        ),
{
}

/// A roadblock in either slot costs a Wagner counter entering its location
/// one more MP than a Russian counter of the same kind pays, and a step
/// into a location without a roadblock costs both sides the same.
pub proof fn law_roadblock_costs_wagner_one(g: GameState, i: int, j: int, u: Location, v: Location)
    requires
        spec_edge(u, v) is Some,
        g.units@[i].side == Side::Wagner,
        g.units@[j].side == Side::Russia,
        (g.units@[i].id == UnitId::Helicopters) == (g.units@[j].id == UnitId::Helicopters),
    ensures
        (g.roadblocks@[0] == Some(v) || g.roadblocks@[1] == Some(v)) ==> spec_move_cost(g, i, u, v)->0
            == spec_move_cost(g, j, u, v)->0 + 1,
        !(g.roadblocks@[0] == Some(v) || g.roadblocks@[1] == Some(v)) ==> spec_move_cost(g, i, u, v)
            == spec_move_cost(g, j, u, v),
{
}

/// Text of the refusal when a unit needs more MP than it has.
pub open spec fn spec_need_mp_msg(cost: int, remaining: int) -> Seq<char> {
    "Need "@ + spec_int_str(cost) + " MP, have "@ + spec_int_str(remaining) + "."@
}

/// Whether unit `i` may move one step to `to`, and at what cost; the error
/// is the reason given to the player.
pub open spec fn spec_can_move(g: GameState, i: int, to: Location) -> Result<int, Seq<char>> {
    let u = g.units@[i];
    if u.location is None {
        Err("Unit is off the map."@)
    } else if u.location == Some(to) {
        Err("Already there."@)
    } else if side_occupies(g.units@, enemy_of(u.side), to) {
        Err("Enemy units occupy that location."@)
    } else if spec_move_cost(g, i, u.location.unwrap(), to) is None {
        Err("Locations not connected."@)
    } else if spec_move_cost(g, i, u.location.unwrap(), to).unwrap() > g.spec_mp_remaining(i) {
        Err(spec_need_mp_msg(spec_move_cost(g, i, u.location.unwrap(), to).unwrap(), g.spec_mp_remaining(i)))
    } else {
        Ok(spec_move_cost(g, i, u.location.unwrap(), to).unwrap())
    }
}

/// Log text of a completed single-step move.
pub open spec fn spec_moved_msg(
    id: UnitId,
    from: Location,
    to: Location,
    cost: int,
    river: bool,
    remaining: int,
) -> Seq<char> {
    spec_unit_name(id) + " moved "@ + spec_location_name(from) + " → "@ + spec_location_name(to)
        + " (cost "@ + spec_int_str(cost) + (if river {
        " [river +1]"@
    } else {
        ""@
    }) + "MP, "@ + spec_int_str(remaining) + " remaining)"@
}

/// Log text of a completed multi-hop move.
pub open spec fn spec_moved_to_msg(id: UnitId, from: Location, to: Location, cost: int, remaining: int) -> Seq<char> {
    spec_unit_name(id) + " moved "@ + spec_location_name(from) + " → "@ + spec_location_name(to)
        + " (cost "@ + spec_int_str(cost) + " MP, "@ + spec_int_str(remaining) + " remaining)"@
}

/// `new` is `old` with one more log line, `line`.
pub open spec fn logged_one(old: GameState, new: GameState, line: Seq<char>) -> bool {
    &&& new.log@.len() == old.log@.len() + 1
    &&& new.log@.take(old.log@.len() as int) == old.log@
    &&& new.log@.last()@ == line
}

/// One step of movement: a refused move logs its reason and changes
/// nothing else; a legal one moves the counter and spends its cost.
pub open spec fn move_step(a: GameState, idx: int, to: Location, b: GameState, r: bool) -> bool {
    match spec_can_move(a, idx, to) {
        Err(m) => {
            &&& !r
            &&& b == (GameState { log: b.log, ..a })
            &&& logged_one(a, b, a.spec_log_entry("Cannot move: "@ + m))
        },
        Ok(c) => {
            let u = a.units@[idx];
            let from = u.location.unwrap();
            &&& r
            &&& b.units@ == a.units@.update(
                idx,
                crate::units::Unit { location: Some(to), mp_spent: (u.mp_spent + c) as i32, ..u },
            )
            &&& b == (GameState { log: b.log, units: b.units, ..a })
            &&& logged_one(a, b, a.spec_log_entry(spec_moved_msg(
                u.id,
                from,
                to,
                c,
                spec_edge(from, to).unwrap().river && u.id != UnitId::Helicopters,
                b.spec_mp_remaining(idx),
            )))
        },
    }
}

impl GameState {
    pub fn move_cost(&self, idx: usize, from: Location, to: Location) -> (r: Option<i32>)
        requires
            self.wf(),
            idx < 12,
        ensures
            r matches Some(c) ==> spec_move_cost(*self, idx as int, from, to) == Some(c as int),
            r is None ==> spec_move_cost(*self, idx as int, from, to) is None,
    {
        let edge = match self.map.edge(from, to) {
            Some(e) => e,
            None => {
                return None;
            },
        };
        let mut cost: i32 = 1;
        if edge.river && !self.units[idx].is_helicopter() {
            cost = cost + 1;
        }
        if self.units[idx].is_wagner() {
            if self.roadblocks[0] == Some(to) || self.roadblocks[1] == Some(to) {
                cost = cost + 1;
            }
        }
        Some(cost)
    }

    /// Can unit `idx` move one step to `to`?  Ok holds the MP cost.
    pub fn can_move(&self, idx: usize, to: Location) -> (r: Result<i32, String>)
        requires
            self.wf(),
            idx < 12,
        ensures
            match (r, spec_can_move(*self, idx as int, to)) {
                (Ok(c), Ok(sc)) => c == sc,
                (Err(m), Err(sm)) => m@ == sm,
                _ => false,
            },
    {
        let from = match self.units[idx].location {
            Some(l) => l,
            None => {
                return Err(String::from_str("Unit is off the map."));
            },
        };
        if from == to {
            return Err(String::from_str("Already there."));
        }
        let enemy_side = if self.units[idx].is_wagner() {
            Side::Russia
        } else {
            Side::Wagner
        };
        let there = self.units_at(to);
        let mut enemy_there = false;
        let mut k: usize = 0;
        proof {
            assert(self.units@.len() == self.units.len());
            lemma_indices_where_members(self.units@.len(), crate::game::at_pred(self.units@, to));
        }
        while k < there.len()
            invariant
                self.wf(),
                there@ == indices_where(self.units@.len(), crate::game::at_pred(self.units@, to)),
                forall|q: int| 0 <= q < there@.len() ==> #[trigger] there@[q] < 12,
                k <= there@.len(),
                enemy_there == exists|q: int| 0 <= q < k && self.units@[there@[q] as int].side == enemy_side,
            decreases there@.len() - k,
        {
            if self.units[there[k]].side == enemy_side {
                enemy_there = true;
            }
            k = k + 1;
        }
        proof {
            if side_occupies(self.units@, enemy_side, to) {
                let j = choose|j: int| 0 <= j < self.units@.len() && self.units@[j].side == enemy_side
                    && self.units@[j].location == Some(to);
                assert(crate::game::at_pred(self.units@, to)(j));
                let q = choose|q: int| 0 <= q < there@.len() && there@[q] == j;
            }
            if enemy_there {
                let q = choose|q: int| 0 <= q < k && self.units@[there@[q] as int].side == enemy_side;
                assert(crate::game::at_pred(self.units@, to)(there@[q] as int));
            }
        }
        if enemy_there {
            return Err(String::from_str("Enemy units occupy that location."));
        }
        let cost = match self.move_cost(idx, from, to) {
            Some(c) => c,
            None => {
                return Err(String::from_str("Locations not connected."));
            },
        };
        let remaining = self.mp_remaining(idx);
        if cost > remaining {
            let a = i64_to_string(cost as i64);
            let b = i64_to_string(remaining as i64);
            let mut m = String::from_str("Need ");
            m.append(a.as_str());
            m.append(" MP, have ");
            m.append(b.as_str());
            m.append(".");
            return Err(m);
        }
        Ok(cost)
    }

    /// Move unit `idx` one step to `to` if the move is legal, logging the
    /// move or the reason it was refused.
    #[verifier::rlimit(40)]
    pub fn move_unit(&mut self, idx: usize, to: Location) -> (r: bool)
        requires
            old(self).wf(),
            idx < 12,
        ensures
            final(self).wf(),
            move_step(*old(self), idx as int, to, *final(self), r),
    {
        let cost = match self.can_move(idx, to) {
            Ok(c) => c,
            Err(msg) => {
                let mut m = String::from_str("Cannot move: ");
                m.append(msg.as_str());
                self.record(m);
                return false;
            },
        };
        let from = self.units[idx].location.unwrap();
        let mut u = self.units[idx];
        u.location = Some(to);
        u.mp_spent = u.mp_spent + cost;
        self.set_unit(idx, u);
        proof {
            lemma_unit_at_bounds(idx as int);
        }
        let remaining = self.mp_remaining(idx);
        let river_note = match self.map.edge(from, to) {
            Some(edge) => edge.river && !self.units[idx].is_helicopter(),
            None => false,
        };
        let m = moved_msg(self.units[idx].id, from, to, cost, river_note, remaining);
        self.record(m);
        true
    }

    /// Move a unit to a distant location, spending the given total MP cost
    /// (multi-hop movement to a destination picked from the reachable list).
    #[verifier::rlimit(40)]
    pub fn move_unit_to(&mut self, idx: usize, to: Location, total_cost: i32) -> (r: bool)
        requires
            old(self).wf(),
            idx < 12,
            old(self).units@[idx as int].location is Some && total_cost <= old(self).spec_mp_remaining(idx as int)
                ==> old(self).units@[idx as int].mp_spent + total_cost >= i32::MIN + 5,
        ensures
            final(self).wf(),
            old(self).units@[idx as int].location is None ==> !r && *final(self) == *old(self),
            old(self).units@[idx as int].location is Some && total_cost > old(self).spec_mp_remaining(idx as int) ==> {
                &&& !r
                &&& *final(self) == (GameState { log: final(self).log, ..*old(self) })
                &&& logged_one(*old(self), *final(self), old(self).spec_log_entry("Not enough MP."@))
            },
            old(self).units@[idx as int].location is Some && total_cost <= old(self).spec_mp_remaining(idx as int) ==> {
                let u = old(self).units@[idx as int];
                &&& r
                &&& final(self).units@ == old(self).units@.update(
                    idx as int,
                    crate::units::Unit { location: Some(to), mp_spent: (u.mp_spent + total_cost) as i32, ..u },
                )
                &&& *final(self) == (GameState { log: final(self).log, units: final(self).units, ..*old(self) })
                &&& logged_one(*old(self), *final(self), old(self).spec_log_entry(spec_moved_to_msg(
                    u.id,
                    u.location.unwrap(),
                    to,
                    total_cost as int,
                    final(self).spec_mp_remaining(idx as int),
                )))
            },
    {
        let from = match self.units[idx].location {
            Some(loc) => loc,
            None => {
                return false;
            },
        };
        proof {
            assert(self.units@[idx as int].mp_spent >= i32::MIN + 5);
        }
        let mp = self.mp_remaining(idx);
        if total_cost > mp {
            self.record(String::from_str("Not enough MP."));
            return false;
        }
        let mut u = self.units[idx];
        u.location = Some(to);
        u.mp_spent = u.mp_spent + total_cost;
        self.set_unit(idx, u);
        proof {
            lemma_unit_at_bounds(idx as int);
        }
        let remaining = self.mp_remaining(idx);
        let m = moved_to_msg(self.units[idx].id, from, to, total_cost, remaining);
        self.record(m);
        true
    }
}

fn moved_msg(id: UnitId, from: Location, to: Location, cost: i32, river: bool, remaining: i32) -> (r: String)
    ensures
        r@ == spec_moved_msg(id, from, to, cost as int, river, remaining as int),
{
    let cost_str = i64_to_string(cost as i64);
    let rem_str = i64_to_string(remaining as i64);
    let mut m = String::from_str(id.name());
    m.append(" moved ");
    m.append(from.name());
    m.append(" → ");
    m.append(to.name());
    m.append(" (cost ");
    m.append(cost_str.as_str());
    if river {
        m.append(" [river +1]");
    } else {
        m.append("");
    }
    m.append("MP, ");
    m.append(rem_str.as_str());
    m.append(" remaining)");
    m
}

fn moved_to_msg(id: UnitId, from: Location, to: Location, cost: i32, remaining: i32) -> (r: String)
    ensures
        r@ == spec_moved_to_msg(id, from, to, cost as int, remaining as int),
{
    let cost_str = i64_to_string(cost as i64);
    let rem_str = i64_to_string(remaining as i64);
    let mut m = String::from_str(id.name());
    m.append(" moved ");
    m.append(from.name());
    m.append(" → ");
    m.append(to.name());
    m.append(" (cost ");
    m.append(cost_str.as_str());
    m.append(" MP, ");
    m.append(rem_str.as_str());
    m.append(" remaining)");
    m
}

/// A single move is allowed exactly when the counter is on the map, the
/// destination is another location connected to its own, no counter of
/// the other side stands there, and the step's MP cost is within the MP the
/// counter has left; the move then costs that step's MP.
pub proof fn law_can_move(g: GameState, i: int, to: Location)
    ensures
        spec_can_move(g, i, to) is Ok <==> {
            &&& g.units@[i].location matches Some(from) && from != to && spec_edge(from, to) is Some
            &&& !exists|j: int|
                0 <= j < g.units@.len() && g.units@[j].location == Some(to) && g.units@[j].side != g.units@[i].side
            &&& spec_move_cost(g, i, g.units@[i].location->0, to)->0 <= g.spec_mp_remaining(i)
        },
        spec_can_move(g, i, to) matches Ok(c) ==> Some(c) == spec_move_cost(g, i, g.units@[i].location->0, to),
{
    let side = g.units@[i].side;
    assert(side_occupies(g.units@, enemy_of(side), to) <==> exists|j: int|
        0 <= j < g.units@.len() && g.units@[j].location == Some(to) && g.units@[j].side != side) by {
        if side_occupies(g.units@, enemy_of(side), to) {
            let j = choose|j: int|
                0 <= j < g.units@.len() && g.units@[j].side == enemy_of(side) && g.units@[j].location == Some(to);
            assert(g.units@[j].side != side);
        }
        if exists|j: int| 0 <= j < g.units@.len() && g.units@[j].location == Some(to) && g.units@[j].side != side {
            let j = choose|j: int|
                0 <= j < g.units@.len() && g.units@[j].location == Some(to) && g.units@[j].side != side;
            assert(g.units@[j].side == enemy_of(side));
        }
    }
}

} // verus!
