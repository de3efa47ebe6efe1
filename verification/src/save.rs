//! Saved games: the part of the state a save holds, and restoring it.

use vstd::prelude::*;
use vstd::string::*;

use crate::game::{flags_of, log_extends, CupItem, GameState, Phase, Screen};
use crate::input::input_ok;
use crate::map::{GameMap, Location};
use crate::mct::{MctMarker, MCT_MAX};
use crate::units::{create_all_units, lemma_unit_at_bounds, unit_static_ok, Unit};

verus! {

/// What a saved game holds: the state without the map, the screen and the
/// display fields.
#[derive(Debug, Clone)]
pub struct SaveData {
    pub units: Vec<Unit>,
    pub mct: [MctMarker; 3],
    pub turn: i32,
    pub momentum: i32,
    pub phase: Phase,
    pub cup: Vec<CupItem>,
    pub roadblocks: [Option<Location>; 2],
    pub people_are_silent_pulled: bool,
    pub log: Vec<String>,
    pub russian_reduced_this_turn: bool,
    pub russian_eliminated_this_turn: bool,
    pub wagner_repulsed_this_turn: bool,
    pub wagner_reduced_this_turn: bool,
    pub wagner_eliminated_this_turn: bool,
    pub admin_units_adjusted: [bool; 3],
}

/// The log as a sequence of texts.
pub open spec fn log_text(log: Seq<String>) -> Seq<Seq<char>> {
    log.map_values(|s: String| s@)
}

/// `d` holds the saved part of `g`.
pub open spec fn saves(d: SaveData, g: GameState) -> bool {
    &&& d.units@ == g.units@
    &&& d.mct@ == g.mct@
    &&& d.turn == g.turn
    &&& d.momentum == g.momentum
    &&& d.phase == g.phase
    &&& d.cup@ == g.cup@
    &&& d.roadblocks@ == g.roadblocks@
    &&& d.people_are_silent_pulled == g.people_are_silent_pulled
    &&& log_text(d.log@) == log_text(g.log@)
    &&& d.russian_reduced_this_turn == g.russian_reduced_this_turn
    &&& d.russian_eliminated_this_turn == g.russian_eliminated_this_turn
    &&& d.wagner_repulsed_this_turn == g.wagner_repulsed_this_turn
    &&& d.wagner_reduced_this_turn == g.wagner_reduced_this_turn
    &&& d.wagner_eliminated_this_turn == g.wagner_eliminated_this_turn
    &&& d.admin_units_adjusted@ == g.admin_units_adjusted@
}

/// A save that restores to a playable state: the twelve counters of the
/// manifest in order with their printed values, markers on the track,
/// momentum on its track, spent MP whose remainder stays within `i32`, and a
/// turn that can still advance.
///
/// Every save that the game writes meets it.  Of the others:
/// - a marker past the bottom of the track is looked up on the five-row
///   track whenever its counter's SP or MP is read, past its end;
/// - a turn of `i32::MAX` overflows when the turn ends, and spent MP near
///   `i32::MIN` overflows when the remaining MP is computed;
/// - counters out of manifest order, missing or with other printed values,
///   and momentum off its track, are states the rules never reach: the
///   state of this library keeps each counter at its manifest position and
///   momentum within -3..3, and every rule is stated and proved over such
///   states only.
///
/// Such a save is refused with an error, and the game goes on unchanged.
pub open spec fn save_ok(d: SaveData) -> bool {
    &&& d.units@.len() == 12
    &&& forall|k: int| 0 <= k < 12 ==> unit_static_ok(#[trigger] d.units@[k], k)
    &&& forall|k: int| 0 <= k < 12 ==> (#[trigger] d.units@[k]).mp_spent >= i32::MIN + 5
    &&& forall|k: int| 0 <= k < 3 ==> (#[trigger] d.mct@[k]).step <= MCT_MAX
    &&& -3 <= d.momentum <= 3
    &&& d.turn < i32::MAX
}

/// The screen a loaded game opens on, by phase.
pub open spec fn phase_screen(p: Phase) -> Screen {
    match p {
        Phase::Administration => Screen::MctSelect,
        Phase::WagnerTurn => Screen::PhaseMenu,
        Phase::RussianAI => Screen::RussianPhaseDisplay,
        Phase::EndTurn => Screen::EndTurnConfirm,
    }
}

/// `b` is `a` after restoring the save `d`: the saved part replaced, the
/// map rebuilt, the menus reset, the screen of the phase, the load logged
/// and flashed.
pub open spec fn restored(d: SaveData, a: GameState, b: GameState) -> bool {
    &&& input_ok(b)
    &&& b.wf()
    &&& b.units@ == d.units@
    &&& b.mct@ == d.mct@
    &&& b.turn == d.turn
    &&& b.momentum == d.momentum
    &&& b.phase == d.phase
    &&& b.cup@ == d.cup@
    &&& b.roadblocks@ == d.roadblocks@
    &&& b.people_are_silent_pulled == d.people_are_silent_pulled
    &&& b.log@.len() == d.log@.len() + 1
    &&& log_text(b.log@.take(d.log@.len() as int)) == log_text(d.log@)
    &&& b.log@.last()@ == "[Turn "@ + crate::text::spec_int_str(d.turn as int) + "] "@
        + "Game loaded from save."@
    &&& b.russian_reduced_this_turn == d.russian_reduced_this_turn
    &&& b.russian_eliminated_this_turn == d.russian_eliminated_this_turn
    &&& b.wagner_repulsed_this_turn == d.wagner_repulsed_this_turn
    &&& b.wagner_reduced_this_turn == d.wagner_reduced_this_turn
    &&& b.wagner_eliminated_this_turn == d.wagner_eliminated_this_turn
    &&& b.admin_units_adjusted@ == d.admin_units_adjusted@
    &&& b.cursor == 0
    &&& b.log_scroll == 0
    &&& b.prev_screen is None
    &&& b.screen == phase_screen(d.phase)
    &&& b.frame_count == a.frame_count
    &&& b.status_message matches Some(m) && m@ == "Game loaded!"@
    &&& b.status_timer == 20
}

/// Saving and restoring gives the saved state back: a save of a
/// well-formed game whose turn can still advance is accepted, and the game
/// restored from it has the same counters, markers, turn, momentum, phase,
/// cup, roadblocks and turn flags, and its log with one line added.
pub proof fn law_save_restore_round_trip(g: GameState, d: SaveData, a: GameState, b: GameState)
    requires
        g.wf(),
        g.turn < i32::MAX,
        saves(d, g),
        restored(d, a, b),
    ensures
        save_ok(d),
        b.units@ == g.units@,
        b.mct@ == g.mct@,
        b.turn == g.turn,
        b.momentum == g.momentum,
        b.phase == g.phase,
        b.cup@ == g.cup@,
        b.roadblocks@ == g.roadblocks@,
        b.people_are_silent_pulled == g.people_are_silent_pulled,
        flags_of(b) == flags_of(g),
        b.admin_units_adjusted@ == g.admin_units_adjusted@,
        log_text(b.log@.take(g.log@.len() as int)) == log_text(g.log@),
        b.log@.len() == g.log@.len() + 1,
{
    assert(log_text(d.log@).len() == d.log@.len());
    assert(log_text(g.log@).len() == g.log@.len());
}

/// Does a save restore to a playable state?
pub fn check_save(d: &SaveData) -> (r: bool)
    ensures
        r == save_ok(*d),
{
    if d.units.len() != 12 {
        return false;
    }
    let manifest = create_all_units();
    let mut k: usize = 0;
    while k < 12
        invariant
            d.units@.len() == 12,
            manifest@.len() == 12,
            forall|j: int| 0 <= j < 12 ==> #[trigger] manifest@[j] == crate::units::spec_initial_unit(crate::units::unit_at(j)),
            k <= 12,
            forall|j: int| 0 <= j < k ==> unit_static_ok(#[trigger] d.units@[j], j),
            forall|j: int| 0 <= j < k ==> (#[trigger] d.units@[j]).mp_spent >= i32::MIN + 5,
        decreases 12 - k,
    {
        let u = d.units[k];
        let m = manifest[k];
        proof {
            lemma_unit_at_bounds(k as int);
        }
        if !(u.id == m.id && u.base_sp == m.base_sp && u.base_mp == m.base_mp && u.has_reduced_side
            == m.has_reduced_side && u.switchable == m.switchable && u.police == m.police && u.in_cup == m.in_cup) {
            return false;
        }
        if u.mp_spent < i32::MIN + 5 {
            return false;
        }
        k = k + 1;
    }
    let mut i: usize = 0;
    while i < 3
        invariant
            i <= 3,
            forall|j: int| 0 <= j < i ==> (#[trigger] d.mct@[j]).step <= MCT_MAX,
        decreases 3 - i,
    {
        if d.mct[i].step > MCT_MAX {
            return false;
        }
        i = i + 1;
    }
    -3 <= d.momentum && d.momentum <= 3 && d.turn < i32::MAX
}

/// A copy of the log.
fn copy_log(log: &Vec<String>) -> (r: Vec<String>)
    ensures
        log_text(r@) == log_text(log@),
{
    let mut r: Vec<String> = Vec::new();
    let mut k: usize = 0;
    while k < log.len()
        invariant
            k <= log@.len(),
            r@.len() == k,
            forall|j: int| 0 <= j < k ==> (#[trigger] r@[j])@ == log@[j]@,
        decreases log@.len() - k,
    {
        let s = log[k].clone();
        r.push(s);
        k = k + 1;
    }
    proof {
        assert(log_text(r@) =~= log_text(log@));
    }
    r
}

/// A copy of a list of counters.
fn copy_units(units: &Vec<Unit>) -> (r: Vec<Unit>)
    ensures
        r@ == units@,
{
    let mut r: Vec<Unit> = Vec::new();
    let mut k: usize = 0;
    while k < units.len()
        invariant
            k <= units@.len(),
            r@ == units@.take(k as int),
        decreases units@.len() - k,
    {
        r.push(units[k]);
        proof {
            assert(r@ =~= units@.take(k + 1));
        }
        k = k + 1;
    }
    proof {
        assert(units@.take(k as int) =~= units@);
    }
    r
}

/// A copy of the cup.
fn copy_cup(cup: &Vec<CupItem>) -> (r: Vec<CupItem>)
    ensures
        r@ == cup@,
{
    let mut r: Vec<CupItem> = Vec::new();
    let mut k: usize = 0;
    while k < cup.len()
        invariant
            k <= cup@.len(),
            r@ == cup@.take(k as int),
        decreases cup@.len() - k,
    {
        r.push(cup[k]);
        proof {
            assert(r@ =~= cup@.take(k + 1));
        }
        k = k + 1;
    }
    proof {
        assert(cup@.take(k as int) =~= cup@);
    }
    r
}

impl GameState {
    /// The part of the state a save holds.
    pub fn save_data(&self) -> (r: SaveData)
        ensures
            saves(r, *self),
    {
        SaveData {
            units: copy_units(&self.units),
            mct: self.mct,
            turn: self.turn,
            momentum: self.momentum,
            phase: self.phase,
            cup: copy_cup(&self.cup),
            roadblocks: self.roadblocks,
            people_are_silent_pulled: self.people_are_silent_pulled,
            log: copy_log(&self.log),
            russian_reduced_this_turn: self.russian_reduced_this_turn,
            russian_eliminated_this_turn: self.russian_eliminated_this_turn,
            wagner_repulsed_this_turn: self.wagner_repulsed_this_turn,
            wagner_reduced_this_turn: self.wagner_reduced_this_turn,
            wagner_eliminated_this_turn: self.wagner_eliminated_this_turn,
            admin_units_adjusted: self.admin_units_adjusted,
        }
    }

    /// After a save was written: log it and flash "Game saved!".
    pub fn note_saved(&mut self)
        ensures
            log_extends(*old(self), *final(self)),
            final(self).log@.len() == old(self).log@.len() + 1,
            final(self).log@.last()@ == old(self).spec_log_entry("Game saved."@),
            *final(self) == (GameState {
                log: final(self).log,
                status_message: final(self).status_message,
                status_timer: 20,
                ..*old(self)
            }),
            final(self).status_message matches Some(m) && m@ == "Game saved!"@,
    {
        self.record(String::from_str("Game saved."));
        self.flash_message(String::from_str("Game saved!"));
    }

    /// Restore a saved game. A save that would not give a playable state is
    /// refused and nothing changes; otherwise the saved part replaces the
    /// state, the map is rebuilt, the menus reset, the screen follows the
    /// phase, and the load is logged and flashed.
    pub fn restore(&mut self, data: SaveData) -> (r: Result<(), String>)
        ensures
            r is Ok <==> save_ok(data),
            r matches Err(e) ==> e@ == "Invalid save data"@ && *final(self) == *old(self),
            r is Ok ==> restored(data, *old(self), *final(self)),
    {
        if !check_save(&data) {
            return Err(String::from_str("Invalid save data"));
        }
        self.units = data.units;
        self.mct = data.mct;
        self.turn = data.turn;
        self.momentum = data.momentum;
        self.phase = data.phase;
        self.cup = data.cup;
        self.roadblocks = data.roadblocks;
        self.people_are_silent_pulled = data.people_are_silent_pulled;
        self.log = data.log;
        self.russian_reduced_this_turn = data.russian_reduced_this_turn;
        self.russian_eliminated_this_turn = data.russian_eliminated_this_turn;
        self.wagner_repulsed_this_turn = data.wagner_repulsed_this_turn;
        self.wagner_reduced_this_turn = data.wagner_reduced_this_turn;
        self.wagner_eliminated_this_turn = data.wagner_eliminated_this_turn;
        self.admin_units_adjusted = data.admin_units_adjusted;
        self.map = GameMap::new();
        self.cursor = 0;
        self.log_scroll = 0;
        self.prev_screen = None;
        self.screen = match self.phase {
            Phase::Administration => Screen::MctSelect,
            Phase::WagnerTurn => Screen::PhaseMenu,
            Phase::RussianAI => Screen::RussianPhaseDisplay,
            Phase::EndTurn => Screen::EndTurnConfirm,
        };
        let ghost before = *self;
        self.record(String::from_str("Game loaded from save."));
        self.flash_message(String::from_str("Game loaded!"));
        proof {
            assert(log_text(self.log@.take(before.log@.len() as int)) == log_text(before.log@));
        }
        Ok(())
    }
}

} // verus!
