//! Game state: everything that changes during play, and the queries on it.

use vstd::prelude::*;
use vstd::string::*;

use crate::combat::ContactOutcome;
use crate::dice::shuffle_cup;
use crate::map::{loc_at, spec_can_trace_loc, GameMap, Location};
use crate::mct::{spec_mct_step, MctMarker, MCT_MAX, MCT_START};
use crate::text::{i64_to_string, spec_int_str};
use crate::units::{
    spec_id_is_wagner, create_all_units, lemma_unit_at_bounds, lemma_unit_idx_bounds, unit_idx, spec_current_sp, spec_initial_unit, unit_at, unit_static_ok, Side, Unit, UnitId,
};

verus! {

/// Which phase of the turn we're in.
#[derive(Debug, Clone, Copy, PartialEq, Eq, Structural)]
pub enum Phase {
    /// Set MCT for each Wagner unit
    Administration,
    /// Move and initiate Contact
    WagnerTurn,
    /// Mobilization, movement, attacks
    RussianAI,
    /// Momentum adjustments, advance turn
    EndTurn,
}

/// What the player is currently doing in the UI.
#[derive(Debug, Clone)]
pub enum Screen {
    /// Title screen shown at game start.
    Title,
    /// Main menu for the current phase.
    PhaseMenu,
    /// Selecting which Wagner unit's MCT to adjust.
    MctSelect,
    /// Choosing MCT direction for a specific unit (index into the Wagner units).
    MctAdjust(usize),
    /// Selecting a Wagner unit to move.
    MoveSelectUnit,
    /// Selecting destination for a unit (unit index).
    MoveSelectDest(usize),
    /// Selecting primary attack location.
    ContactSelectLocation,
    /// Selecting target to attack.
    ContactSelectTarget { from_loc: Location },
    /// Selecting which attackers participate in contact.
    ContactSelectAttackers {
        from_loc: Location,
        target_loc: Location,
        available: Vec<usize>,
        selected: Vec<bool>,
    },
    /// Confirming contact resolution.
    ContactConfirm { from_loc: Location, target_loc: Location, attacker_indices: Vec<usize> },
    /// Showing contact result.
    ContactResult { outcome: ContactOutcome, target_loc: Location, attacker_indices: Vec<usize> },
    /// Advance after contact prompt.
    AdvanceAfterContact { target_loc: Location, attacker_indices: Vec<usize> },
    /// Russian AI phase display (auto-resolves, player watches).
    RussianPhaseDisplay,
    /// End turn momentum questions.
    EndTurnConfirm,
    /// Showing the action log.
    ViewLog,
    /// Help / rules reference overlay.
    HelpScreen,
    /// Unit detail popup showing all unit info (unit index).
    UnitDetail(usize),
    /// Game over screen.
    GameOver { wagner_wins: bool },
}

/// Items that can be in the Moscow Mobilization Cup.
#[derive(Debug, Clone, Copy, PartialEq, Eq, Structural)]
pub enum CupItem {
    Unit(UnitId),
    PeopleAreSilent,
    /// Second roadblock marker
    Roadblock2,
}

/// The complete game state.
pub struct GameState {
    pub map: GameMap,
    pub units: Vec<Unit>,
    /// Rusich, Utkin, Serb
    pub mct: [MctMarker; 3],
    pub turn: i32,
    pub momentum: i32,
    pub phase: Phase,
    pub screen: Screen,
    pub cup: Vec<CupItem>,
    pub roadblocks: [Option<Location>; 2],
    pub people_are_silent_pulled: bool,
    pub log: Vec<String>,
    /// For menu navigation
    pub cursor: usize,
    pub log_scroll: usize,
    pub russian_reduced_this_turn: bool,
    pub russian_eliminated_this_turn: bool,
    pub wagner_repulsed_this_turn: bool,
    pub wagner_reduced_this_turn: bool,
    pub wagner_eliminated_this_turn: bool,
    /// Which Wagner units had their MCT adjusted this Administration Phase
    pub admin_units_adjusted: [bool; 3],
    /// Animation frame counter
    pub frame_count: u64,
    /// For returning from help/overlays
    pub prev_screen: Option<Box<Screen>>,
    /// Transient message (e.g. "Game saved!")
    pub status_message: Option<String>,
    /// Frames remaining to show the status message
    pub status_timer: u16,
}

/// The cup as it is filled at the start of a game, before the shuffle.
pub open spec fn spec_initial_cup() -> Seq<CupItem> {
    seq![
        CupItem::PeopleAreSilent,
        CupItem::Roadblock2,
        CupItem::Unit(UnitId::MechanizedRegiment),
        CupItem::Unit(UnitId::MotorizedInfantry),
        CupItem::Unit(UnitId::ArmoredRegiment),
        CupItem::Unit(UnitId::Akhmat),
        CupItem::Unit(UnitId::Helicopters),
        CupItem::Unit(UnitId::Mospol),
    ]
}

/// Indices below `n` that satisfy `p`, in increasing order.
pub open spec fn indices_where(n: nat, p: spec_fn(int) -> bool) -> Seq<usize>
    decreases n,
{
    if n == 0 {
        Seq::empty()
    } else {
        indices_where((n - 1) as nat, p) + if p(n - 1) {
            seq![(n - 1) as usize]
        } else {
            Seq::empty()
        }
    }
}

/// Locations among the first `n` in declaration order that satisfy `p`.
pub open spec fn locations_where(n: nat, p: spec_fn(Location) -> bool) -> Seq<Location>
    decreases n,
{
    if n == 0 {
        Seq::empty()
    } else {
        locations_where((n - 1) as nat, p) + if p(loc_at(n - 1)) {
            seq![loc_at(n - 1)]
        } else {
            Seq::empty()
        }
    }
}

pub open spec fn at_pred(units: Seq<Unit>, loc: Location) -> spec_fn(int) -> bool {
    |j: int| units[j].location == Some(loc)
}

pub open spec fn side_at_pred(units: Seq<Unit>, loc: Location, side: Side) -> spec_fn(int) -> bool {
    |j: int| units[j].location == Some(loc) && units[j].side == side
}

/// Does some unit of `side` stand at `loc`?
pub open spec fn side_occupies(units: Seq<Unit>, side: Side, loc: Location) -> bool {
    exists|j: int| 0 <= j < units.len() && units[j].side == side && units[j].location == Some(loc)
}

pub open spec fn occupied_pred(units: Seq<Unit>, side: Side) -> spec_fn(Location) -> bool {
    |l: Location| side_occupies(units, side, l)
}

/// Effective SP of unit `i` given the counters and the MCT markers.
pub open spec fn eff_sp(units: Seq<Unit>, mct: Seq<MctMarker>, i: int) -> int {
    let u = units[i];
    if u.side == Side::Wagner && spec_mct_index(u.id) is Some {
        spec_current_sp(u) + spec_mct_step(mct[spec_mct_index(u.id).unwrap()].step as int).sp_mod
    } else {
        spec_current_sp(u)
    }
}

/// The five things a turn remembers for the momentum questions.
#[derive(Debug, Clone, Copy, PartialEq, Eq, Structural)]
pub struct TurnFlags {
    pub russian_reduced: bool,
    pub russian_eliminated: bool,
    pub wagner_repulsed: bool,
    pub wagner_reduced: bool,
    pub wagner_eliminated: bool,
}

pub open spec fn flags_of(g: GameState) -> TurnFlags {
    TurnFlags {
        russian_reduced: g.russian_reduced_this_turn,
        russian_eliminated: g.russian_eliminated_this_turn,
        wagner_repulsed: g.wagner_repulsed_this_turn,
        wagner_reduced: g.wagner_reduced_this_turn,
        wagner_eliminated: g.wagner_eliminated_this_turn,
    }
}

/// The texts of the log's lines.
pub open spec fn log_view(g: GameState) -> Seq<Seq<char>> {
    g.log@.map_values(|s: String| s@)
}

/// The log lines that `record` makes of `msgs` on turn `turn`.
pub open spec fn log_entries(turn: i32, msgs: Seq<Seq<char>>) -> Seq<Seq<char>> {
    msgs.map_values(|m: Seq<char>| "[Turn "@ + spec_int_str(turn as int) + "] "@ + m)
}

/// `b`'s log is `a`'s with the messages `msgs` recorded on `a`'s turn.
pub open spec fn logged(a: GameState, b: GameState, msgs: Seq<Seq<char>>) -> bool {
    log_view(b) == log_view(a) + log_entries(a.turn, msgs)
}

pub proof fn lemma_logged_none(a: GameState)
    ensures
        logged(a, a, Seq::empty()),
{
    assert(log_view(a) + log_entries(a.turn, Seq::empty()) =~= log_view(a));
}

pub proof fn lemma_logged_trans(a: GameState, b: GameState, c: GameState, m1: Seq<Seq<char>>, m2: Seq<Seq<char>>)
    requires
        logged(a, b, m1),
        logged(b, c, m2),
        a.turn == b.turn,
    ensures
        logged(a, c, m1 + m2),
{
    assert(log_entries(a.turn, m1 + m2) =~= log_entries(a.turn, m1) + log_entries(a.turn, m2));
    assert(log_view(c) =~= log_view(a) + log_entries(a.turn, m1 + m2));
}

/// `new` keeps every line of `old`'s log and may add more.
pub open spec fn log_extends(old: GameState, new: GameState) -> bool {
    &&& new.log@.len() >= old.log@.len()
    &&& new.log@.take(old.log@.len() as int) == old.log@
}

/// `new` differs from `old` at most in its counters, turn flags and log.
pub open spec fn only_units_flags_log(old: GameState, new: GameState) -> bool {
    new == GameState {
        units: new.units,
        log: new.log,
        russian_reduced_this_turn: new.russian_reduced_this_turn,
        russian_eliminated_this_turn: new.russian_eliminated_this_turn,
        wagner_repulsed_this_turn: new.wagner_repulsed_this_turn,
        wagner_reduced_this_turn: new.wagner_reduced_this_turn,
        wagner_eliminated_this_turn: new.wagner_eliminated_this_turn,
        ..old
    }
}

/// Position of a Wagner counter on the MCT, if it has a marker.
pub open spec fn spec_mct_index(id: UnitId) -> Option<int> {
    if id == UnitId::Rusich {
        Some(0)
    } else if id == UnitId::Utkin {
        Some(1)
    } else if id == UnitId::Serb {
        Some(2)
    } else {
        None
    }
}

impl GameState {
    /// The state obeys the rules' invariants: the map is the rulebook map,
    /// the counters stand in manifest order with their printed values,
    /// every MCT marker is on the track and momentum is on its track.
    pub open spec fn wf(&self) -> bool {
        &&& self.map.wf()
        &&& self.units@.len() == 12
        &&& forall|k: int| 0 <= k < 12 ==> unit_static_ok(#[trigger] self.units@[k], k)
        &&& forall|k: int| 0 <= k < 3 ==> (#[trigger] self.mct@[k]).step <= MCT_MAX
        &&& -3 <= self.momentum <= 3
        &&& self.mp_in_range()
    }

    /// Effective SP of unit `i`: the counter's current SP, plus the MCT
    /// modifier for a Wagner counter that has a marker.
    pub open spec fn spec_effective_sp(&self, i: int) -> int {
        eff_sp(self.units@, self.mct@, i)
    }

    /// Effective MP of unit `i`: the MCT MP for a Wagner counter (0 without
    /// a marker), the printed MP for a Russian one.
    pub open spec fn spec_effective_mp(&self, i: int) -> int {
        let u = self.units@[i];
        if u.side == Side::Wagner {
            if spec_mct_index(u.id) is Some {
                spec_mct_step(self.mct@[spec_mct_index(u.id).unwrap()].step as int).mp as int
            } else {
                0
            }
        } else {
            u.base_mp as int
        }
    }

    pub open spec fn spec_mp_remaining(&self, i: int) -> int {
        self.spec_effective_mp(i) - self.units@[i].mp_spent
    }

    /// Every unit's remaining MP is representable.
    pub open spec fn mp_in_range(&self) -> bool {
        forall|k: int| 0 <= k < self.units@.len() ==> (#[trigger] self.units@[k]).mp_spent >= i32::MIN + 5
    }

    /// The log line that `record` appends for `msg`.
    pub open spec fn spec_log_entry(&self, msg: Seq<char>) -> Seq<char> {
        "[Turn "@ + spec_int_str(self.turn as int) + "] "@ + msg
    }

    /// The state at the start of a game: manifest counters, markers at the
    /// start step, turn 1, momentum +1, a shuffled full cup, one log line.
    pub open spec fn is_fresh_game(&self) -> bool {
        &&& self.wf()
        &&& self.mp_in_range()
        &&& forall|k: int| 0 <= k < 12 ==> #[trigger] self.units@[k] == spec_initial_unit(unit_at(k))
        &&& self.cup@.to_multiset() == spec_initial_cup().to_multiset()
        &&& forall|k: int| 0 <= k < 3 ==> (#[trigger] self.mct@[k]).step == MCT_START
        &&& self.turn == 1
        &&& self.momentum == 1
        &&& self.phase == Phase::Administration
        &&& self.screen is Title
        &&& self.roadblocks@ == seq![None::<Location>, None]
        &&& !self.people_are_silent_pulled
        &&& self.log@.len() == 1
        &&& self.log@[0]@ == "Game started. Wagner forces in Rostov-On-Don."@
        &&& self.cursor == 0
        &&& self.log_scroll == 0
        &&& !self.russian_reduced_this_turn
        &&& !self.russian_eliminated_this_turn
        &&& !self.wagner_repulsed_this_turn
        &&& !self.wagner_reduced_this_turn
        &&& !self.wagner_eliminated_this_turn
        &&& self.admin_units_adjusted@ == seq![false, false, false]
        &&& self.frame_count == 0
        &&& self.prev_screen is None
        &&& self.status_message is None
        &&& self.status_timer == 0
    }

    pub fn new() -> (r: GameState)
        ensures
            r.is_fresh_game(),
    {
        let units = create_all_units();
        let mut cup: Vec<CupItem> = Vec::new();
        cup.push(CupItem::PeopleAreSilent);
        cup.push(CupItem::Roadblock2);
        let mut i: usize = 0;
        while i < units.len()
            invariant
                units@.len() == 12,
                forall|k: int| 0 <= k < 12 ==> #[trigger] units@[k] == spec_initial_unit(unit_at(k)),
                i <= 12,
                cup@ == seq![CupItem::PeopleAreSilent, CupItem::Roadblock2] + cup_units(units@, i as nat),
            decreases 12 - i,
        {
            if units[i].in_cup {
                cup.push(CupItem::Unit(units[i].id));
            }
            i = i + 1;
        }
        proof {
            reveal_with_fuel(cup_units, 13);
            assert(cup@ =~= spec_initial_cup());
        }
        shuffle_cup(&mut cup);
        let mut log: Vec<String> = Vec::new();
        log.push(String::from_str("Game started. Wagner forces in Rostov-On-Don."));
        let r = GameState {
            map: GameMap::new(),
            units,
            mct: [MctMarker::new(), MctMarker::new(), MctMarker::new()],
            turn: 1,
            momentum: 1,
            phase: Phase::Administration,
            screen: Screen::Title,
            cup,
            roadblocks: [None, None],
            people_are_silent_pulled: false,
            log,
            cursor: 0,
            log_scroll: 0,
            russian_reduced_this_turn: false,
            russian_eliminated_this_turn: false,
            wagner_repulsed_this_turn: false,
            wagner_reduced_this_turn: false,
            wagner_eliminated_this_turn: false,
            admin_units_adjusted: [false, false, false],
            frame_count: 0,
            prev_screen: None,
            status_message: None,
            status_timer: 0,
        };
        r
    }
}

/// Cup entries for the counters among the first `n` that start in the cup.
pub open spec fn cup_units(units: Seq<Unit>, n: nat) -> Seq<CupItem>
    decreases n,
{
    if n == 0 {
        Seq::empty()
    } else {
        cup_units(units, (n - 1) as nat) + if units[n - 1].in_cup {
            seq![CupItem::Unit(units[n - 1].id)]
        } else {
            Seq::empty()
        }
    }
}

impl GameState {
    /// Reset the game to a fresh initial state.
    pub fn restart(&mut self)
        ensures
            final(self).is_fresh_game(),
    {
        *self = GameState::new();
    }

    /// Append a line to the log, prefixed with the turn number.
    pub fn record(&mut self, msg: String)
        ensures
            final(self).log@.len() == old(self).log@.len() + 1,
            final(self).log@.take(old(self).log@.len() as int) == old(self).log@,
            final(self).log@.last()@ == old(self).spec_log_entry(msg@),
            logged(*old(self), *final(self), seq![msg@]),
            *final(self) == (GameState { log: final(self).log, ..*old(self) }),
    {
        let t = i64_to_string(self.turn as i64);
        let mut entry = String::from_str("[Turn ");
        entry.append(t.as_str());
        entry.append("] ");
        entry.append(msg.as_str());
        self.log.push(entry);
        proof {
            assert(self.log@.take(old(self).log@.len() as int) =~= old(self).log@);
            assert(log_view(*self) =~= log_view(*old(self)) + log_entries(old(self).turn, seq![msg@]));
        }
    }

    pub fn find_unit(&self, id: UnitId) -> (r: Option<&Unit>)
        requires
            self.wf(),
        ensures
            r is Some,
            *r.unwrap() == self.units@[unit_idx(id)],
    {
        let k = id.index();
        proof {
            lemma_unit_idx_bounds(id);
        }
        Some(&self.units[k])
    }

    pub fn find_unit_mut(&mut self, id: UnitId) -> (r: Option<&mut Unit>)
        requires
            old(self).wf(),
        ensures
            r is Some,
            *r.unwrap() == old(self).units@[unit_idx(id)],
            final(self).units@ == old(self).units@.update(unit_idx(id), *final(r.unwrap())),
            *final(self) == (GameState { units: final(self).units, ..*old(self) }),
    {
        let k = id.index();
        proof {
            lemma_unit_idx_bounds(id);
        }
        Some(&mut self.units[k])
    }

    pub fn unit_index(&self, id: UnitId) -> (r: Option<usize>)
        requires
            self.wf(),
        ensures
            r == Some(unit_idx(id) as usize),
    {
        let mut i: usize = 0;
        while i < self.units.len()
            invariant
                self.wf(),
                i <= 12,
                i <= unit_idx(id),
            decreases 12 - i,
        {
            if self.units[i].id == id {
                proof {
                    lemma_unit_at_bounds(i as int);
                }
                return Some(i);
            }
            proof {
                lemma_unit_idx_bounds(id);
                lemma_unit_at_bounds(i as int);
            }
            i = i + 1;
        }
        proof {
            lemma_unit_idx_bounds(id);
        }
        None
    }

    /// Indices of all units at a location, in unit order.
    pub fn units_at(&self, loc: Location) -> (r: Vec<usize>)
        ensures
            r@ == indices_where(self.units@.len(), at_pred(self.units@, loc)),
    {
        let mut r: Vec<usize> = Vec::new();
        let mut i: usize = 0;
        while i < self.units.len()
            invariant
                i <= self.units@.len(),
                r@ == indices_where(i as nat, at_pred(self.units@, loc)),
            decreases self.units@.len() - i,
        {
            if self.units[i].location == Some(loc) {
                r.push(i);
            }
            i = i + 1;
        }
        r
    }

    /// Indices of the units of `side` at a location, in unit order.
    pub fn side_units_at(&self, loc: Location, side: Side) -> (r: Vec<usize>)
        ensures
            r@ == indices_where(self.units@.len(), side_at_pred(self.units@, loc, side)),
    {
        let mut r: Vec<usize> = Vec::new();
        let mut i: usize = 0;
        while i < self.units.len()
            invariant
                i <= self.units@.len(),
                r@ == indices_where(i as nat, side_at_pred(self.units@, loc, side)),
            decreases self.units@.len() - i,
        {
            if self.units[i].location == Some(loc) && self.units[i].side == side {
                r.push(i);
            }
            i = i + 1;
        }
        r
    }

    pub fn wagner_units_at(&self, loc: Location) -> (r: Vec<usize>)
        ensures
            r@ == indices_where(self.units@.len(), side_at_pred(self.units@, loc, Side::Wagner)),
    {
        self.side_units_at(loc, Side::Wagner)
    }

    pub fn russian_units_at(&self, loc: Location) -> (r: Vec<usize>)
        ensures
            r@ == indices_where(self.units@.len(), side_at_pred(self.units@, loc, Side::Russia)),
    {
        self.side_units_at(loc, Side::Russia)
    }

    /// Indices of all Wagner units that can be moved (on-map, Wagner side):
    /// the three original Wagner counters first, then switched counters.
    pub fn moveable_unit_indices(&self) -> (r: Vec<usize>)
        requires
            self.wf(),
        ensures
            r@ == indices_where(3, moveable_core_pred(self.units@)) + indices_where(
                12,
                moveable_switched_pred(self.units@),
            ),
    {
        let mut indices: Vec<usize> = Vec::new();
        let ids = UnitId::wagner_units();
        let mut w: usize = 0;
        while w < ids.len()
            invariant
                self.wf(),
                ids@ == seq![UnitId::Rusich, UnitId::Utkin, UnitId::Serb],
                w <= 3,
                indices@ == indices_where(w as nat, moveable_core_pred(self.units@)),
            decreases 3 - w,
        {
            match self.unit_index(ids[w]) {
                Some(idx) => {
                    if self.units[idx].is_on_map() && self.units[idx].is_wagner() {
                        indices.push(idx);
                    }
                },
                None => {},
            }
            w = w + 1;
        }
        let ghost core = indices@;
        let mut idx: usize = 0;
        while idx < self.units.len()
            invariant
                self.wf(),
                idx <= 12,
                core == indices_where(3, moveable_core_pred(self.units@)),
                indices@ == core + indices_where(idx as nat, moveable_switched_pred(self.units@)),
            decreases 12 - idx,
        {
            let unit = &self.units[idx];
            if unit.is_wagner() && unit.is_on_map() && !unit.id.is_wagner() {
                indices.push(idx);
            }
            proof {
                assert(indices@ =~= core + indices_where((idx + 1) as nat, moveable_switched_pred(self.units@)));
            }
            idx = idx + 1;
        }
        indices
    }

    /// All locations where units of `side` stand, in declaration order.
    pub fn side_locations(&self, side: Side) -> (r: Vec<Location>)
        ensures
            r@ == locations_where(13, occupied_pred(self.units@, side)),
    {
        let mut r: Vec<Location> = Vec::new();
        let mut li: usize = 0;
        while li < 13
            invariant
                li <= 13,
                r@ == locations_where(li as nat, occupied_pred(self.units@, side)),
            decreases 13 - li,
        {
            let loc = Location::from_index(li);
            let mut found = false;
            let mut i: usize = 0;
            while i < self.units.len()
                invariant
                    i <= self.units@.len(),
                    found == exists|j: int| 0 <= j < i && self.units@[j].side == side && self.units@[j].location == Some(loc),
                decreases self.units@.len() - i,
            {
                if self.units[i].side == side && self.units[i].location == Some(loc) {
                    found = true;
                }
                i = i + 1;
            }
            if found {
                r.push(loc);
            }
            li = li + 1;
        }
        r
    }

    /// All locations where Wagner has units, in declaration order.
    pub fn wagner_locations(&self) -> (r: Vec<Location>)
        ensures
            r@ == locations_where(13, occupied_pred(self.units@, Side::Wagner)),
    {
        self.side_locations(Side::Wagner)
    }

    /// All locations where Russia has units, in declaration order.
    pub fn russian_locations(&self) -> (r: Vec<Location>)
        ensures
            r@ == locations_where(13, occupied_pred(self.units@, Side::Russia)),
    {
        self.side_locations(Side::Russia)
    }
}

pub open spec fn moveable_core_pred(units: Seq<Unit>) -> spec_fn(int) -> bool {
    |j: int| units[j].location is Some && units[j].side == Side::Wagner
}

pub open spec fn moveable_switched_pred(units: Seq<Unit>) -> spec_fn(int) -> bool {
    |j: int| units[j].location is Some && units[j].side == Side::Wagner && !spec_id_is_wagner(units[j].id)
}

impl GameState {
    fn wagner_mct_index(id: UnitId) -> (r: Option<usize>)
        ensures
            r matches Some(k) ==> spec_mct_index(id) == Some(k as int),
            r is None ==> spec_mct_index(id) is None,
    {
        match id {
            UnitId::Rusich => Some(0),
            UnitId::Utkin => Some(1),
            UnitId::Serb => Some(2),
            _ => None,
        }
    }

    pub fn mct_for(&self, id: UnitId) -> (r: Option<&MctMarker>)
        ensures
            r is Some == spec_mct_index(id) is Some,
            r is Some ==> *r.unwrap() == self.mct@[spec_mct_index(id).unwrap()],
    {
        match Self::wagner_mct_index(id) {
            Some(i) => Some(&self.mct[i]),
            None => None,
        }
    }

    pub fn mct_for_mut(&mut self, id: UnitId) -> (r: Option<&mut MctMarker>)
        ensures
            r is Some == spec_mct_index(id) is Some,
            r is Some ==> *r.unwrap() == old(self).mct@[spec_mct_index(id).unwrap()],
            r is Some ==> final(self).mct@ == old(self).mct@.update(
                spec_mct_index(id).unwrap(),
                *final(r.unwrap()),
            ),
            r is None ==> *final(self) == *old(self),
            *final(self) == (GameState { mct: final(self).mct, ..*old(self) }),
    {
        match Self::wagner_mct_index(id) {
            Some(i) => Some(&mut self.mct[i]),
            None => None,
        }
    }

    /// Effective SP for a unit (base + MCT modifier for Wagner).
    pub fn effective_sp(&self, idx: usize) -> (r: i32)
        requires
            self.wf(),
            idx < 12,
        ensures
            r == self.spec_effective_sp(idx as int),
            1 <= r <= 6,
    {
        let unit = &self.units[idx];
        proof {
            lemma_unit_at_bounds(idx as int);
        }
        if unit.is_wagner() {
            let mct_sp = match self.mct_for(unit.id) {
                Some(m) => m.sp_mod(),
                None => 0,
            };
            unit.current_sp() + mct_sp
        } else {
            unit.current_sp()
        }
    }

    /// Effective MP for a unit (MCT MP for Wagner, base MP for Russia).
    pub fn effective_mp(&self, idx: usize) -> (r: i32)
        requires
            self.wf(),
            idx < 12,
        ensures
            r == self.spec_effective_mp(idx as int),
            0 <= r <= 4,
    {
        let unit = &self.units[idx];
        proof {
            lemma_unit_at_bounds(idx as int);
        }
        if unit.is_wagner() {
            match self.mct_for(unit.id) {
                Some(m) => m.mp(),
                None => 0,
            }
        } else {
            unit.base_mp
        }
    }

    pub fn mp_remaining(&self, idx: usize) -> (r: i32)
        requires
            self.wf(),
            idx < 12,
        ensures
            r == self.spec_mp_remaining(idx as int),
    {
        self.effective_mp(idx) - self.units[idx].mp_spent
    }

    pub fn target_empty_of_russians(&self, loc: Location) -> (r: bool)
        ensures
            r == !side_occupies(self.units@, Side::Russia, loc),
    {
        let v = self.russian_units_at(loc);
        proof {
            assert(self.units@.len() == self.units.len());
            lemma_indices_where_members(self.units@.len(), side_at_pred(self.units@, loc, Side::Russia));
            if side_occupies(self.units@, Side::Russia, loc) {
                let j = choose|j: int| 0 <= j < self.units@.len() && self.units@[j].side == Side::Russia
                    && self.units@[j].location == Some(loc);
                assert(side_at_pred(self.units@, loc, Side::Russia)(j));
            }
            if v@.len() > 0 {
                assert(side_at_pred(self.units@, loc, Side::Russia)(v@[0] as int));
            }
        }
        v.len() == 0
    }

    /// Check for Wagner automatic victory (LOC along the M4).
    pub fn check_wagner_victory(&self) -> (r: bool)
        requires
            self.wf(),
        ensures
            r == spec_can_trace_loc(
                locations_where(13, occupied_pred(self.units@, Side::Wagner)),
                locations_where(13, occupied_pred(self.units@, Side::Russia)),
            ),
    {
        let wlocs = self.wagner_locations();
        let rlocs = self.russian_locations();
        self.map.can_trace_loc(wlocs.as_slice(), rlocs.as_slice())
    }

    /// Show a transient status message for about two seconds.
    pub fn flash_message(&mut self, msg: String)
        ensures
            *final(self) == (GameState { status_message: Some(msg), status_timer: 20, ..*old(self) }),
    {
        self.status_message = Some(msg);
        self.status_timer = 20;
    }

    /// Tick down the status timer (called each frame).
    pub fn tick_status(&mut self)
        ensures
            *final(self) == spec_ticks(*old(self), 1),
            old(self).status_timer == 0 ==> *final(self) == *old(self),
            old(self).status_timer > 1 ==> *final(self) == (GameState {
                status_timer: (old(self).status_timer - 1) as u16,
                ..*old(self)
            }),
            old(self).status_timer == 1 ==> *final(self) == (GameState {
                status_timer: 0,
                status_message: None,
                ..*old(self)
            }),
    {
        proof {
            reveal_with_fuel(spec_ticks, 2);
        }
        if self.status_timer > 0 {
            self.status_timer = self.status_timer - 1;
            if self.status_timer == 0 {
                self.status_message = None;
            }
        }
    }
}

/// The state after `n` frames, each ticking the status timer.
pub open spec fn spec_ticks(g: GameState, n: nat) -> GameState
    decreases n,
{
    if n == 0 {
        g
    } else {
        let p = spec_ticks(g, (n - 1) as nat);
        if p.status_timer == 0 {
            p
        } else if p.status_timer == 1 {
            GameState { status_timer: 0, status_message: None, ..p }
        } else {
            GameState { status_timer: (p.status_timer - 1) as u16, ..p }
        }
    }
}

/// A flash lasts twenty frames: after `n` ticks of a fresh flash the
/// timer reads `20 - n` (never below zero), the message shows while
/// fewer than twenty ticks have passed, and is gone after twenty.
pub proof fn law_flash_lasts_twenty_ticks(g: GameState, n: nat)
    requires
        g.status_timer == 20,
        g.status_message is Some,
    ensures
        spec_ticks(g, n).status_timer == if n < 20 { 20 - n } else { 0 },
        n < 20 ==> spec_ticks(g, n).status_message == g.status_message,
        n >= 20 ==> spec_ticks(g, n).status_message is None,
        spec_ticks(g, n) == (GameState {
            status_timer: spec_ticks(g, n).status_timer,
            status_message: spec_ticks(g, n).status_message,
            ..g
        }),
    decreases n,
{
    if n > 0 {
        law_flash_lasts_twenty_ticks(g, (n - 1) as nat);
    }
}

/// The counters at a location are those of Wagner there and those of
/// Russia there, and no counter is both.
pub proof fn law_units_at_split(units: Seq<Unit>, loc: Location, j: int)
    requires
        units.len() <= usize::MAX,
    ensures
        indices_where(units.len(), at_pred(units, loc)).contains(j as usize) && 0 <= j <= usize::MAX
            <==> (indices_where(units.len(), side_at_pred(units, loc, Side::Wagner)).contains(j as usize)
            || indices_where(units.len(), side_at_pred(units, loc, Side::Russia)).contains(j as usize))
            && 0 <= j <= usize::MAX,
        !(indices_where(units.len(), side_at_pred(units, loc, Side::Wagner)).contains(j as usize)
            && indices_where(units.len(), side_at_pred(units, loc, Side::Russia)).contains(j as usize)),
{
    lemma_indices_where_members(units.len(), at_pred(units, loc));
    lemma_indices_where_members(units.len(), side_at_pred(units, loc, Side::Wagner));
    lemma_indices_where_members(units.len(), side_at_pred(units, loc, Side::Russia));
    if 0 <= j < units.len() {
        if at_pred(units, loc)(j) {
            if units[j].side == Side::Wagner {
                assert(side_at_pred(units, loc, Side::Wagner)(j));
            } else {
                assert(side_at_pred(units, loc, Side::Russia)(j));
            }
        }
    }
}

/// Members of `indices_where` are exactly the indices that satisfy the
/// predicate, and they are strictly increasing.
pub proof fn lemma_indices_where_members(n: nat, p: spec_fn(int) -> bool)
    requires
        n <= usize::MAX,
    ensures
        forall|k: int| 0 <= k < indices_where(n, p).len() ==> {
            let i = #[trigger] indices_where(n, p)[k];
            0 <= i < n && p(i as int)
        },
        forall|i: int| 0 <= i < n && #[trigger] p(i) ==> exists|k: int| 0 <= k < indices_where(n, p).len() && indices_where(n, p)[k] == i,
        forall|k: int, l: int| 0 <= k < l < indices_where(n, p).len() ==> indices_where(n, p)[k] < indices_where(n, p)[l],
        indices_where(n, p).len() <= n,
    decreases n,
{
    if n > 0 {
        lemma_indices_where_members((n - 1) as nat, p);
        let prev = indices_where((n - 1) as nat, p);
        let cur = indices_where(n, p);
        assert forall|i: int| 0 <= i < n && #[trigger] p(i) implies exists|k: int| 0 <= k < cur.len() && cur[k] == i by {
            if i == n - 1 {
                assert(cur =~= prev + seq![(n - 1) as usize]);
                assert(cur[cur.len() - 1] == i);
            } else {
                let k = choose|k: int| 0 <= k < prev.len() && prev[k] == i;
                assert(cur[k] == prev[k]);
            }
        }
    }
}

/// Two counters agree on their printed values.
pub open spec fn same_static(a: Unit, b: Unit) -> bool {
    &&& a.id == b.id
    &&& a.base_sp == b.base_sp
    &&& a.base_mp == b.base_mp
    &&& a.has_reduced_side == b.has_reduced_side
    &&& a.switchable == b.switchable
    &&& a.police == b.police
    &&& a.in_cup == b.in_cup
}

impl GameState {
    /// Replace unit `idx`, keeping its printed values.
    pub fn set_unit(&mut self, idx: usize, u: Unit)
        requires
            old(self).wf(),
            idx < 12,
            same_static(u, old(self).units@[idx as int]),
            u.mp_spent >= i32::MIN + 5,
        ensures
            final(self).wf(),
            final(self).units@ == old(self).units@.update(idx as int, u),
            *final(self) == (GameState { units: final(self).units, ..*old(self) }),
    {
        self.units.set(idx, u);
        proof {
            assert forall|k: int| 0 <= k < 12 implies unit_static_ok(#[trigger] self.units@[k], k) by {
                if k != idx {
                    assert(self.units@[k] == old(self).units@[k]);
                }
            }
            assert forall|k: int| 0 <= k < self.units@.len() implies (#[trigger] self.units@[k]).mp_spent >= i32::MIN
                + 5 by {
                if k != idx {
                    assert(self.units@[k] == old(self).units@[k]);
                }
            }
        }
    }
}

pub proof fn lemma_log_extends_refl(g: GameState)
    ensures
        log_extends(g, g),
{
    assert(g.log@.take(g.log@.len() as int) =~= g.log@);
}

pub proof fn lemma_log_extends_trans(a: GameState, b: GameState, c: GameState)
    requires
        log_extends(a, b),
        log_extends(b, c),
    ensures
        log_extends(a, c),
{
    assert(c.log@.take(a.log@.len() as int) =~= c.log@.take(b.log@.len() as int).take(a.log@.len() as int));
}

} // verus!
