//! Input handling: what each key does on each screen.

use vstd::prelude::*;
use vstd::string::*;

use crate::contact::{
    advance_step, all_valid, contact_step, lemma_sum_sp_bounds, russian_neighbors, spec_opportunities,
};
use crate::game::{
    indices_where, lemma_indices_where_members, lemma_log_extends_refl, lemma_logged_none, locations_where, log_extends,
    logged,
    moveable_core_pred, moveable_switched_pred, occupied_pred, side_at_pred, side_occupies, GameState, Phase,
    Screen,
};
use crate::map::{spec_adj, spec_can_trace_loc, EdgeProps, Location};
use crate::movement::{move_step, spec_can_move};
use crate::mct::{spec_mct_label, spec_shift_down, spec_shift_up, MctMarker, MCT_MAX, MCT_MIN};
use crate::movement::logged_one;
use crate::russian::{russian_phase_chain, russian_phase_step};
use crate::turn::{administration_step, end_turn_phase_step, end_turn_step, wagner_turn_step};
use crate::units::{spec_unit_name, unit_at, Side, Unit, UnitId};

verus! {

/// The Contact option of the Wagner turn menu, where the cursor comes back
/// after a contact.
pub const CONTACT_OPTION: usize = 1;

/// A key press, as the handlers read it.
#[derive(Debug, Clone, Copy, PartialEq, Eq, Structural)]
pub enum Key {
    Enter,
    Esc,
    Up,
    Down,
    Tab,
    BackTab,
    Char(char),
    F(u8),
    Other,
}

/// Menu navigation up: `Up` or `k`.
pub open spec fn is_up(key: Key) -> bool {
    key == Key::Up || key == Key::Char('k')
}

/// Menu navigation down: `Down` or `j`.
pub open spec fn is_down(key: Key) -> bool {
    key == Key::Down || key == Key::Char('j')
}

/// Cursor after moving up in a menu of `max` rows: one row up, from the
/// top to the last row.
pub open spec fn spec_cursor_up(c: usize, max: usize) -> usize {
    if c > 0 {
        (c - 1) as usize
    } else if max > 0 {
        (max - 1) as usize
    } else {
        0
    }
}

/// Cursor after moving down in a menu of `max` rows: one row down, from
/// the last row to the top.
pub open spec fn spec_cursor_down(c: usize, max: usize) -> usize {
    if c + 1 < max {
        (c + 1) as usize
    } else {
        0
    }
}

/// What a screen needs of the state for its keys to be handled: the
/// counter and marker indices it holds are valid, and the lists it holds
/// are at most one per counter.
pub open spec fn screen_ok(g: GameState) -> bool {
    screen_fits(g, g.screen)
}

/// What screen `s` needs of the state `g` for its keys to be handled.
pub open spec fn screen_fits(g: GameState, s: Screen) -> bool {
    match s {
        Screen::MctSelect => g.cursor < 4,
        Screen::MctAdjust(i) => i < 3,
        Screen::MoveSelectDest(i) => i < 12 && g.units@[i as int].location is Some,
        Screen::ContactSelectAttackers { available, selected, .. } => {
            &&& all_valid(available@)
            &&& available@.len() <= 12
            &&& selected@.len() == available@.len()
        },
        Screen::ContactConfirm { attacker_indices, .. } => all_valid(attacker_indices@) && attacker_indices@.len()
            <= 12,
        Screen::ContactResult { attacker_indices, .. } => all_valid(attacker_indices@),
        Screen::AdvanceAfterContact { attacker_indices, .. } => all_valid(attacker_indices@),
        Screen::UnitDetail(i) => i < 12,
        _ => true,
    }
}

/// A state whose keys can be handled: well formed, a cursor that can move
/// down, a turn that can advance unless the game is over, and a screen
/// whose contents are valid.
pub open spec fn input_ok(g: GameState) -> bool {
    &&& g.wf()
    &&& g.cursor < usize::MAX
    &&& (g.turn < i32::MAX || g.screen is GameOver || g.screen is HelpScreen)
    &&& screen_ok(g)
    &&& g.screen is HelpScreen ==> help_return_ok(g)
    &&& g.screen is UnitDetail ==> detail_return_ok(g)
}

/// The screen that a counter's detail returns to, if any, is a menu that
/// fits the state.
pub open spec fn detail_return_ok(g: GameState) -> bool {
    g.prev_screen matches Some(p) ==> !(*p is HelpScreen) && !(*p is UnitDetail) && !(*p is GameOver)
        && screen_fits(g, *p)
}

/// Opening the detail of counter `k` over the screen shown, to come back
/// to it.
pub open spec fn detail_opened(a: GameState, b: GameState, k: usize) -> bool {
    b == (GameState { screen: Screen::UnitDetail(k), prev_screen: Some(Box::new(a.screen)), ..a })
}

/// The screen that the help screen returns to is not the help screen,
/// fits the state, and is the game-over screen if the turn cannot
/// advance.
pub open spec fn help_return_ok(g: GameState) -> bool {
    match g.prev_screen {
        Some(p) => !(*p is HelpScreen) && screen_fits(g, *p) && (g.turn < i32::MAX || *p is GameOver),
        None => g.turn < i32::MAX,
    }
}

/// `b` is `a` with a new cursor.
pub open spec fn cursor_moved(a: GameState, b: GameState, c: usize) -> bool {
    b == (GameState { cursor: c, ..a })
}

/// Up and down keys in a menu of `max` rows; other keys are handled by the
/// caller.
pub open spec fn nav_step(a: GameState, key: Key, b: GameState, max: usize) -> bool {
    &&& is_up(key) ==> cursor_moved(a, b, spec_cursor_up(a.cursor, max))
    &&& !is_up(key) && is_down(key) ==> cursor_moved(a, b, spec_cursor_down(a.cursor, max))
}

/// Moving down and back up returns to the same row, and so does moving up
/// and back down.
pub proof fn law_cursor_round_trip(c: usize, max: usize)
    requires
        c < max,
    ensures
        spec_cursor_up(spec_cursor_down(c, max), max) == c,
        spec_cursor_down(spec_cursor_up(c, max), max) == c,
{
}

/// The cursor stays on a row of the menu.
pub proof fn law_cursor_stays_in_menu(c: usize, max: usize)
    requires
        c < max,
    ensures
        spec_cursor_up(c, max) < max,
        spec_cursor_down(c, max) < max,
{
}

fn cursor_up(game: &mut GameState, max: usize)
    ensures
        cursor_moved(*old(game), *final(game), spec_cursor_up(old(game).cursor, max)),
{
    if game.cursor > 0 {
        game.cursor = game.cursor - 1;
    } else {
        game.cursor = max.saturating_sub(1);
    }
}

fn cursor_down(game: &mut GameState, max: usize)
    requires
        old(game).cursor < usize::MAX,
    ensures
        cursor_moved(*old(game), *final(game), spec_cursor_down(old(game).cursor, max)),
{
    if game.cursor + 1 < max {
        game.cursor = game.cursor + 1;
    } else {
        game.cursor = 0;
    }
}

/// Keys on the MCT menu: the three Wagner counters and "Done".
pub open spec fn mct_select_step(a: GameState, key: Key, b: GameState) -> bool {
    &&& nav_step(a, key, b, 4)
    &&& key == Key::Enter ==> if a.cursor == 3 {
        wagner_turn_step(a, b)
    } else {
        b == (GameState { screen: Screen::MctAdjust(a.cursor), cursor: 0, ..a })
    }
    &&& !is_up(key) && !is_down(key) && key != Key::Enter ==> b == a
}

/// The marker step after choosing row `c` of the MCT adjust menu: up,
/// down, or no change.
pub open spec fn adjusted_step(step: usize, c: usize) -> usize {
    if c == 0 {
        spec_shift_up(step)
    } else if c == 1 {
        spec_shift_down(step)
    } else {
        step
    }
}

/// The log message of adjusting the marker of Wagner counter `i` by row
/// `a.cursor`, when the marker moves.
pub open spec fn spec_mct_adjust_msgs(a: GameState, i: usize) -> Seq<Seq<char>> {
    let st = a.mct@[i as int].step;
    if a.cursor == 0 && st > MCT_MIN {
        seq![
            spec_unit_name(unit_at(i as int)) + " MCT shifted "@ + "UP"@ + " \u{2192} "@ + spec_mct_label(st - 1),
        ]
    } else if a.cursor == 1 && st < MCT_MAX {
        seq![
            spec_unit_name(unit_at(i as int)) + " MCT shifted "@ + "DOWN"@ + " \u{2192} "@ + spec_mct_label(st + 1),
        ]
    } else {
        Seq::empty()
    }
}

/// Keys on the MCT adjust menu of Wagner counter `i`.
pub open spec fn mct_adjust_step(a: GameState, key: Key, b: GameState, i: usize) -> bool {
    &&& nav_step(a, key, b, 3)
    &&& key == Key::Enter ==> {
        &&& b.mct@ == a.mct@.update(i as int, MctMarker { step: adjusted_step(a.mct@[i as int].step, a.cursor) })
        &&& b.admin_units_adjusted@ == a.admin_units_adjusted@.update(i as int, true)
        &&& b.screen == Screen::MctSelect
        &&& b.cursor == i
        &&& log_extends(a, b)
        &&& logged(a, b, spec_mct_adjust_msgs(a, i))
        &&& b == (GameState {
            mct: b.mct,
            admin_units_adjusted: b.admin_units_adjusted,
            screen: b.screen,
            cursor: b.cursor,
            log: b.log,
            ..a
        })
    }
    &&& key == Key::Esc ==> b == (GameState { screen: Screen::MctSelect, cursor: i, ..a })
    &&& !is_up(key) && !is_down(key) && key != Key::Enter && key != Key::Esc ==> b == a
}

/// The first of the three Wagner counters on the map.
pub open spec fn first_core_on_map(units: Seq<Unit>) -> Option<usize> {
    if units[0].location is Some {
        Some(0usize)
    } else if units[1].location is Some {
        Some(1usize)
    } else if units[2].location is Some {
        Some(2usize)
    } else {
        None
    }
}

/// `n` less 20, not below 0.
pub open spec fn log_tail_start(n: nat) -> usize {
    if n >= 20 {
        (n - 20) as usize
    } else {
        0
    }
}

/// Keys on the Wagner turn menu: Move, Contact, End Turn, Log.
pub open spec fn phase_menu_step(a: GameState, key: Key, b: GameState) -> bool {
    let wl = locations_where(13, occupied_pred(a.units@, Side::Wagner));
    &&& nav_step(a, key, b, 4)
    &&& key == Key::Enter ==> {
        &&& a.cursor == 0 ==> b == (GameState { screen: Screen::MoveSelectUnit, cursor: 0, ..a })
        &&& a.cursor == 1 ==> if spec_opportunities(a.units@, wl).len() == 0 {
            &&& logged_one(a, b, a.spec_log_entry("No contact opportunities available."@))
            &&& b == (GameState { log: b.log, status_message: b.status_message, status_timer: 20, ..a })
            &&& b.status_message matches Some(m) && m@ == "No contact opportunities"@
        } else {
            contact_entered(a, b)
        }
        &&& a.cursor == 2 ==> if spec_can_trace_loc(wl, locations_where(13, occupied_pred(a.units@, Side::Russia))) {
            b == (GameState { screen: Screen::GameOver { wagner_wins: true }, ..a })
        } else {
            russian_phase_step(a, b)
        }
        &&& a.cursor == 3 ==> b == (GameState {
            screen: Screen::ViewLog,
            log_scroll: log_tail_start(a.log@.len()),
            ..a
        })
        &&& a.cursor > 3 ==> b == a
    }
    &&& key == Key::Tab ==> match first_core_on_map(a.units@) {
        Some(k) => detail_opened(a, b, k),
        None => no_units_flash(a, b),
    }
    &&& !is_up(key) && !is_down(key) && key != Key::Enter && key != Key::F(1) && key != Key::Char('?') && key
        != Key::Tab ==> b == a
}

/// Tab without a Wagner counter on the map: the state stays, with the
/// flash "No units on map".
pub open spec fn no_units_flash(a: GameState, b: GameState) -> bool {
    &&& b == (GameState { status_message: b.status_message, status_timer: 20, ..a })
    &&& b.status_message matches Some(m) && m@ == "No units on map"@
}

/// Keys on the help screen: Esc, F1 or ? go back to the screen the help
/// was opened from (the Wagner turn menu if none is known).
pub open spec fn help_step(a: GameState, key: Key, b: GameState) -> bool {
    if key == Key::Esc || is_help_key(key) {
        match a.prev_screen {
            Some(p) => b == (GameState { screen: *p, prev_screen: None, ..a }),
            None => b == (GameState { screen: Screen::PhaseMenu, cursor: 0, ..a }),
        }
    } else {
        b == a
    }
}

/// F1 and ? open the help screen from any screen.
pub open spec fn is_help_key(key: Key) -> bool {
    key == Key::F(1) || key == Key::Char('?')
}

/// Opening the help screen from the screen shown, to come back to it.
pub open spec fn help_opened(a: GameState, b: GameState) -> bool {
    b == (GameState { screen: Screen::HelpScreen, prev_screen: Some(Box::new(a.screen)), ..a })
}

/// Keys on the log viewer: scroll, or back to the menu on "View log".
pub open spec fn view_log_step(a: GameState, key: Key, b: GameState) -> bool {
    if is_up(key) {
        b == (GameState { log_scroll: if a.log_scroll > 0 { (a.log_scroll - 1) as usize } else { 0 }, ..a })
    } else if is_down(key) {
        b == (GameState {
            log_scroll: if a.log_scroll < usize::MAX { (a.log_scroll + 1) as usize } else { usize::MAX },
            ..a
        })
    } else if key == Key::Esc {
        b == (GameState { screen: Screen::PhaseMenu, cursor: 3, ..a })
    } else {
        b == a
    }
}

/// Keys on the end-of-turn screen: Enter ends the turn, Esc returns to the
/// Wagner turn.
pub open spec fn end_turn_key_step(a: GameState, key: Key, b: GameState) -> bool {
    if key == Key::Enter {
        end_turn_step(a, b)
    } else if key == Key::Esc {
        b == (GameState { phase: Phase::WagnerTurn, screen: Screen::PhaseMenu, cursor: 0, ..a })
    } else {
        b == a
    }
}

fn handle_mct_select(game: &mut GameState, key: Key)
    requires
        input_ok(*old(game)),
        old(game).screen is MctSelect,
    ensures
        input_ok(*final(game)),
        mct_select_step(*old(game), key, *final(game)),
{
    let count: usize = 4;
    if key == Key::Up || key == Key::Char('k') {
        cursor_up(game, count);
    } else if key == Key::Down || key == Key::Char('j') {
        cursor_down(game, count);
    } else if key == Key::Enter {
        if game.cursor == 3 {
            game.start_wagner_turn();
        } else {
            game.screen = Screen::MctAdjust(game.cursor);
            game.cursor = 0;
        }
    }
}

fn handle_mct_adjust(game: &mut GameState, key: Key, unit_idx: usize)
    requires
        input_ok(*old(game)),
        old(game).screen == Screen::MctAdjust(unit_idx),
    ensures
        input_ok(*final(game)),
        mct_adjust_step(*old(game), key, *final(game), unit_idx),
{
    let count: usize = 3;
    if key == Key::Up || key == Key::Char('k') {
        cursor_up(game, count);
    } else if key == Key::Down || key == Key::Char('j') {
        cursor_down(game, count);
    } else if key == Key::Enter {
        adjust_marker(game, unit_idx);
    } else if key == Key::Esc {
        game.screen = Screen::MctSelect;
        game.cursor = unit_idx;
    }
}

/// Enter on the MCT adjust menu: move the marker of Wagner counter
/// `unit_idx` as the cursor row says, log it, and return to the MCT menu.
#[verifier::rlimit(40)]
fn adjust_marker(game: &mut GameState, unit_idx: usize)
    requires
        input_ok(*old(game)),
        old(game).screen == Screen::MctAdjust(unit_idx),
    ensures
        input_ok(*final(game)),
        mct_adjust_step(*old(game), Key::Enter, *final(game), unit_idx),
{
    let ids = UnitId::wagner_units();
    let id = ids[unit_idx];
    let mut shifted = false;
    let mut label = String::from_str("");
    let mut direction = "";
    let ghost g0 = *game;
    let ghost st = g0.mct@[unit_idx as int].step;
    proof {
        assert(id == unit_at(unit_idx as int));
    }
    if game.cursor == 0 {
        match game.mct_for_mut(id) {
            Some(m) => {
                shifted = m.shift_up();
                label = m.label();
                direction = "UP";
            },
            None => {},
        }
        proof {
            assert(shifted == (st > MCT_MIN));
            assert(shifted ==> label@ == spec_mct_label(st - 1) && direction@ == "UP"@);
        }
    } else if game.cursor == 1 {
        match game.mct_for_mut(id) {
            Some(m) => {
                shifted = m.shift_down();
                label = m.label();
                direction = "DOWN";
            },
            None => {},
        }
        proof {
            assert(shifted == (st < MCT_MAX));
            assert(shifted ==> label@ == spec_mct_label(st + 1) && direction@ == "DOWN"@);
        }
    }
    proof {
        assert(game.mct@ =~= g0.mct@.update(
            unit_idx as int,
            MctMarker { step: adjusted_step(g0.mct@[unit_idx as int].step, g0.cursor) },
        ));
        lemma_log_extends_refl(*game);
        lemma_logged_none(*game);
    }
    let ghost g1 = *game;
    if shifted {
        let mut m = String::from_str(id.name());
        m.append(" MCT shifted ");
        m.append(direction);
        m.append(" \u{2192} ");
        m.append(label.as_str());
        game.record(m);
        proof {
            assert(seq![m@] =~= spec_mct_adjust_msgs(g0, unit_idx));
        }
    } else {
        proof {
            assert(spec_mct_adjust_msgs(g0, unit_idx) =~= Seq::<Seq<char>>::empty());
        }
    }
    game.admin_units_adjusted[unit_idx] = true;
    game.screen = Screen::MctSelect;
    game.cursor = unit_idx;
    proof {
        assert(log_extends(g1, *game));
    }
}

fn handle_phase_menu(game: &mut GameState, key: Key)
    requires
        input_ok(*old(game)),
        old(game).screen is PhaseMenu,
    ensures
        input_ok(*final(game)),
        phase_menu_step(*old(game), key, *final(game)),
{
    let count: usize = 4;
    if key == Key::Up || key == Key::Char('k') {
        cursor_up(game, count);
    } else if key == Key::Down || key == Key::Char('j') {
        cursor_down(game, count);
    } else if key == Key::Enter {
        phase_menu_enter(game);
    } else if key == Key::Tab {
        show_first_core(game);
    }
}

/// Enter on the Wagner turn menu.
fn phase_menu_enter(game: &mut GameState)
    requires
        input_ok(*old(game)),
        old(game).screen is PhaseMenu,
    ensures
        input_ok(*final(game)),
        phase_menu_step(*old(game), Key::Enter, *final(game)),
{
    if game.cursor == 0 {
        game.screen = Screen::MoveSelectUnit;
        game.cursor = 0;
    } else if game.cursor == 1 {
        let opps = game.contact_opportunities();
        if opps.len() == 0 {
            proof {
                assert(opps@.map_values(|p: (Location, Vec<Location>)| (p.0, p.1@)).len() == 0);
            }
            game.record(String::from_str("No contact opportunities available."));
            game.flash_message(String::from_str("No contact opportunities"));
        } else {
            enter_contact(game);
        }
    } else if game.cursor == 2 {
        end_wagner_turn(game);
    } else if game.cursor == 3 {
        game.screen = Screen::ViewLog;
        game.log_scroll = game.log.len().saturating_sub(20);
    }
}

/// End of the Wagner turn: automatic victory, or the Russian AI Phase.
fn end_wagner_turn(game: &mut GameState)
    requires
        input_ok(*old(game)),
        old(game).screen is PhaseMenu,
    ensures
        input_ok(*final(game)),
        ({
            let a = *old(game);
            let b = *final(game);
            if spec_can_trace_loc(
                locations_where(13, occupied_pred(a.units@, Side::Wagner)),
                locations_where(13, occupied_pred(a.units@, Side::Russia)),
            ) {
                b == (GameState { screen: Screen::GameOver { wagner_wins: true }, ..a })
            } else {
                russian_phase_step(a, b)
            }
        }),
{
    if game.check_wagner_victory() {
        game.screen = Screen::GameOver { wagner_wins: true };
    } else {
        game.start_russian_phase();
        proof {
            lemma_russian_phase_keeps(*old(game), *game);
        }
    }
}

/// The Russian AI Phase keeps the turn and ends on its own screen with the
/// cursor at the top.
proof fn lemma_russian_phase_keeps(a: GameState, b: GameState)
    requires
        russian_phase_step(a, b),
    ensures
        b.turn == a.turn,
        b.cursor == 0,
        b.screen is RussianPhaseDisplay,
{
    let (s0, s1, s2, s3, s4, s5, r1, r2, r3) = choose|
        s0: GameState,
        s1: GameState,
        s2: GameState,
        s3: GameState,
        s4: GameState,
        s5: GameState,
        r1: int,
        r2: int,
        r3: int,
    |
        1 <= r1 <= 6 && 1 <= r2 <= 6 && 1 <= r3 <= 6 && #[trigger] russian_phase_chain(
            a,
            s0,
            s1,
            s2,
            s3,
            s4,
            s5,
            b,
            r1,
            r2,
            r3,
        );
    assert(s1.turn == s0.turn && s1.cursor == s0.cursor && s1.screen == s0.screen);
    assert(s2.turn == s1.turn && s2.cursor == s1.cursor && s2.screen == s1.screen);
    assert(s5.turn == s4.turn && s5.cursor == s4.cursor && s5.screen == s4.screen);
    assert(b.turn == s5.turn && b.cursor == s5.cursor && b.screen == s5.screen);
}

/// Tab on the Wagner turn menu: detail of the first Wagner counter on the
/// map.
fn show_first_core(game: &mut GameState)
    requires
        input_ok(*old(game)),
        old(game).screen is PhaseMenu,
    ensures
        input_ok(*final(game)),
        match first_core_on_map(old(game).units@) {
            Some(k) => detail_opened(*old(game), *final(game), k),
            None => no_units_flash(*old(game), *final(game)),
        },
{
    let ids = UnitId::wagner_units();
    let mut w: usize = 0;
    while w < 3
        invariant
            *game == *old(game),
            input_ok(*game),
            game.screen is PhaseMenu,
            ids@ == seq![UnitId::Rusich, UnitId::Utkin, UnitId::Serb],
            w <= 3,
            forall|k: int| 0 <= k < w ==> game.units@[k].location is None,
        decreases 3 - w,
    {
        match game.unit_index(ids[w]) {
            Some(idx) => {
                if game.units[idx].is_on_map() {
                    open_detail(game, idx);
                    return;
                }
            },
            None => {},
        }
        w = w + 1;
    }
    game.flash_message(String::from_str("No units on map"));
}

fn handle_help_screen(game: &mut GameState, key: Key)
    requires
        input_ok(*old(game)),
        old(game).screen is HelpScreen,
    ensures
        input_ok(*final(game)),
        help_step(*old(game), key, *final(game)),
{
    if key == Key::Esc || key == Key::F(1) || key == Key::Char('?') {
        match game.prev_screen.take() {
            Some(p) => {
                game.screen = *p;
            },
            None => {
                game.screen = Screen::PhaseMenu;
                game.cursor = 0;
            },
        }
    }
}

/// Open the help screen over the screen shown.
fn open_help(game: &mut GameState)
    requires
        input_ok(*old(game)),
        !(old(game).screen is HelpScreen),
    ensures
        input_ok(*final(game)),
        help_opened(*old(game), *final(game)),
{
    let ghost g0 = *game;
    let mut s = Screen::HelpScreen;
    std::mem::swap(&mut s, &mut game.screen);
    game.prev_screen = Some(Box::new(s));
    proof {
        assert(s == g0.screen);
        assert(screen_fits(*game, s) == screen_fits(g0, s));
    }
}

fn handle_view_log(game: &mut GameState, key: Key)
    requires
        input_ok(*old(game)),
        old(game).screen is ViewLog,
    ensures
        input_ok(*final(game)),
        view_log_step(*old(game), key, *final(game)),
{
    if key == Key::Up || key == Key::Char('k') {
        game.log_scroll = game.log_scroll.saturating_sub(1);
    } else if key == Key::Down || key == Key::Char('j') {
        game.log_scroll = game.log_scroll.saturating_add(1);
    } else if key == Key::Esc {
        game.screen = Screen::PhaseMenu;
        game.cursor = 3;
    }
}

fn handle_russian_phase(game: &mut GameState, key: Key)
    requires
        input_ok(*old(game)),
        old(game).screen is RussianPhaseDisplay,
    ensures
        input_ok(*final(game)),
        key == Key::Enter ==> end_turn_phase_step(*old(game), *final(game)),
        key != Key::Enter ==> *final(game) == *old(game),
{
    if key == Key::Enter {
        game.start_end_turn_phase();
    }
}

fn handle_end_turn(game: &mut GameState, key: Key)
    requires
        input_ok(*old(game)),
        old(game).screen is EndTurnConfirm,
    ensures
        input_ok(*final(game)),
        end_turn_key_step(*old(game), key, *final(game)),
{
    if key == Key::Enter {
        game.end_turn();
    } else if key == Key::Esc {
        game.phase = Phase::WagnerTurn;
        game.screen = Screen::PhaseMenu;
        game.cursor = 0;
    }
}

/// The counters the Wagner player can move, in menu order: the three
/// Wagner counters first, then counters that switched sides.
pub open spec fn spec_moveable(units: Seq<Unit>) -> Seq<usize> {
    indices_where(3, moveable_core_pred(units)) + indices_where(12, moveable_switched_pred(units))
}

/// Keys on the menu of counters to move, with "Back" last.
pub open spec fn move_select_unit_step(a: GameState, key: Key, b: GameState) -> bool {
    let ids = spec_moveable(a.units@);
    &&& nav_step(a, key, b, (ids.len() + 1) as usize)
    &&& key == Key::Enter ==> if a.cursor >= ids.len() {
        b == (GameState { screen: Screen::PhaseMenu, cursor: 0, ..a })
    } else {
        b == (GameState { screen: Screen::MoveSelectDest(ids[a.cursor as int]), cursor: 0, ..a })
    }
    &&& key == Key::Esc ==> b == (GameState { screen: Screen::PhaseMenu, cursor: 0, ..a })
    &&& key == Key::Tab ==> if a.cursor < ids.len() {
        detail_opened(a, b, ids[a.cursor as int])
    } else {
        b == a
    }
    &&& !is_up(key) && !is_down(key) && key != Key::Enter && key != Key::Esc && key != Key::Tab ==> b == a
}

/// The locations adjacent to counter `u`'s location, in map order.
pub open spec fn dest_list(a: GameState, u: usize) -> Seq<Location> {
    spec_adj(a.units@[u as int].location.unwrap()).map_values(|p: (Location, EdgeProps)| p.0)
}

/// Keys on the menu of destinations of counter `u`, with "Back" last: a
/// legal move is made and the menu closes; an illegal one is ignored.
/// After a move the counter stays in movement while it has MP left;
/// otherwise play returns to the Wagner turn menu.
pub open spec fn after_move_screen(g: GameState, u: usize) -> Screen {
    if g.spec_mp_remaining(u as int) > 0 {
        Screen::MoveSelectDest(u)
    } else {
        Screen::PhaseMenu
    }
}

pub open spec fn move_select_dest_step(a: GameState, key: Key, b: GameState, u: usize) -> bool {
    let ns = dest_list(a, u);
    &&& nav_step(a, key, b, (ns.len() + 1) as usize)
    &&& key == Key::Enter ==> if a.cursor >= ns.len() {
        b == (GameState { screen: Screen::MoveSelectUnit, cursor: 0, ..a })
    } else if spec_can_move(a, u as int, ns[a.cursor as int]) is Ok {
        &&& b.screen == after_move_screen(b, u)
        &&& b.cursor == 0
        &&& move_step(a, u as int, ns[a.cursor as int], GameState { screen: a.screen, cursor: a.cursor, ..b }, true)
    } else {
        b == a
    }
    &&& key == Key::Esc ==> b == (GameState { screen: Screen::PhaseMenu, cursor: 0, ..a })
    &&& key == Key::Tab ==> detail_opened(a, b, u)
    &&& !is_up(key) && !is_down(key) && key != Key::Enter && key != Key::Esc && key != Key::Tab ==> b == a
}

/// The first counter on the map met going round the counters from `cur`,
/// forward or backward, starting `k` places away; `cur` itself is not
/// considered.
pub open spec fn cycle_find(units: Seq<Unit>, cur: int, forward: bool, k: nat) -> Option<usize>
    decreases 12 - k,
{
    if k >= 12 {
        None
    } else {
        let j = if forward {
            (cur + k) % 12
        } else {
            (cur - k) % 12
        };
        if units[j].location is Some {
            Some(j as usize)
        } else {
            cycle_find(units, cur, forward, k + 1)
        }
    }
}

/// Keys on the detail panel of counter `cur`: Tab and Shift-Tab go to the
/// next and previous counter on the map.
pub open spec fn unit_detail_step(a: GameState, key: Key, b: GameState, cur: usize) -> bool {
    if key == Key::Tab || key == Key::BackTab {
        match cycle_find(a.units@, cur as int, key == Key::Tab, 1) {
            Some(j) => b == (GameState { screen: Screen::UnitDetail(j), ..a }),
            None => b == a,
        }
    } else if key == Key::Esc || key == Key::Enter {
        match a.prev_screen {
            Some(p) => b == (GameState { screen: *p, prev_screen: None, ..a }),
            None => b == (GameState { screen: Screen::PhaseMenu, cursor: 0, ..a }),
        }
    } else {
        b == a
    }
}

fn handle_move_select_unit(game: &mut GameState, key: Key)
    requires
        input_ok(*old(game)),
        old(game).screen is MoveSelectUnit,
    ensures
        input_ok(*final(game)),
        move_select_unit_step(*old(game), key, *final(game)),
{
    let unit_indices = game.moveable_unit_indices();
    proof {
        lemma_indices_where_members(3, moveable_core_pred(game.units@));
        lemma_indices_where_members(12, moveable_switched_pred(game.units@));
    }
    let count = unit_indices.len() + 1;
    if key == Key::Up || key == Key::Char('k') {
        cursor_up(game, count);
    } else if key == Key::Down || key == Key::Char('j') {
        cursor_down(game, count);
    } else if key == Key::Enter {
        if game.cursor >= unit_indices.len() {
            game.screen = Screen::PhaseMenu;
            game.cursor = 0;
        } else {
            let idx = unit_indices[game.cursor];
            proof {
                let core = indices_where(3, moveable_core_pred(game.units@));
                if (game.cursor as int) < core.len() {
                    assert(unit_indices@[game.cursor as int] == core[game.cursor as int]);
                } else {
                    assert(unit_indices@[game.cursor as int] == indices_where(12, moveable_switched_pred(game.units@))[game.cursor
                        - core.len()]);
                }
            }
            game.screen = Screen::MoveSelectDest(idx);
            game.cursor = 0;
        }
    } else if key == Key::Esc {
        game.screen = Screen::PhaseMenu;
        game.cursor = 0;
    } else if key == Key::Tab {
        if game.cursor < unit_indices.len() {
            let idx = unit_indices[game.cursor];
            proof {
                let core = indices_where(3, moveable_core_pred(game.units@));
                if (game.cursor as int) < core.len() {
                    assert(unit_indices@[game.cursor as int] == core[game.cursor as int]);
                } else {
                    assert(unit_indices@[game.cursor as int] == indices_where(12, moveable_switched_pred(game.units@))[game.cursor
                        - core.len()]);
                }
            }
            open_detail(game, idx);
        }
    }
}

fn handle_move_select_dest(game: &mut GameState, key: Key, unit_idx: usize)
    requires
        input_ok(*old(game)),
        old(game).screen == Screen::MoveSelectDest(unit_idx),
    ensures
        input_ok(*final(game)),
        move_select_dest_step(*old(game), key, *final(game), unit_idx),
{
    let neighbors = dest_names(game, unit_idx);
    let count = neighbors.len() + 1;
    if key == Key::Up || key == Key::Char('k') {
        cursor_up(game, count);
    } else if key == Key::Down || key == Key::Char('j') {
        cursor_down(game, count);
    } else if key == Key::Enter {
        if game.cursor >= neighbors.len() {
            game.screen = Screen::MoveSelectUnit;
            game.cursor = 0;
        } else {
            let dest = neighbors[game.cursor];
            try_move(game, unit_idx, dest);
        }
    } else if key == Key::Esc {
        game.screen = Screen::PhaseMenu;
        game.cursor = 0;
    } else if key == Key::Tab {
        open_detail(game, unit_idx);
    }
}

/// The destinations offered to counter `unit_idx`: its neighbours.
fn dest_names(game: &GameState, unit_idx: usize) -> (r: Vec<Location>)
    requires
        game.wf(),
        unit_idx < 12,
        game.units@[unit_idx as int].location is Some,
    ensures
        r@ == dest_list(*game, unit_idx),
{
    let from = match game.units[unit_idx].location {
        Some(l) => l,
        None => {
            return Vec::new();
        },
    };
    let nbs = game.map.neighbors(from);
    let mut neighbors: Vec<Location> = Vec::new();
    let mut k: usize = 0;
    while k < nbs.len()
        invariant
            k <= nbs@.len(),
            neighbors@ == nbs@.take(k as int).map_values(|p: (Location, EdgeProps)| p.0),
        decreases nbs@.len() - k,
    {
        let (n, _) = nbs[k];
        neighbors.push(n);
        proof {
            assert(nbs@.take(k + 1).map_values(|p: (Location, EdgeProps)| p.0) =~= nbs@.take(k as int).map_values(
                |p: (Location, EdgeProps)| p.0,
            ).push(n));
        }
        k = k + 1;
    }
    proof {
        assert(nbs@.take(nbs@.len() as int) =~= nbs@);
    }
    neighbors
}

/// Make the move if it is legal, closing the menu; else change nothing.
fn try_move(game: &mut GameState, unit_idx: usize, dest: Location)
    requires
        input_ok(*old(game)),
        old(game).screen == Screen::MoveSelectDest(unit_idx),
    ensures
        input_ok(*final(game)),
        if spec_can_move(*old(game), unit_idx as int, dest) is Ok {
            &&& final(game).screen == after_move_screen(*final(game), unit_idx)
            &&& final(game).cursor == 0
            &&& move_step(
                *old(game),
                unit_idx as int,
                dest,
                GameState { screen: old(game).screen, cursor: old(game).cursor, ..*final(game) },
                true,
            )
        } else {
            *final(game) == *old(game)
        },
{
    if game.can_move(unit_idx, dest).is_ok() {
        let ghost g0 = *game;
        game.move_unit(unit_idx, dest);
        let ghost g1 = *game;
        if game.mp_remaining(unit_idx) > 0 {
            game.screen = Screen::MoveSelectDest(unit_idx);
        } else {
            game.screen = Screen::PhaseMenu;
        }
        game.cursor = 0;
        proof {
            assert(g1 == (GameState { screen: g0.screen, cursor: g0.cursor, ..*game }));
        }
    }
}

proof fn lemma_cycle_index(cur: int, k: int)
    requires
        0 <= cur < 12,
        1 <= k < 12,
    ensures
        (cur + k) % 12 == if cur + k >= 12 { cur + k - 12 } else { cur + k },
        (cur - k) % 12 == if cur >= k { cur - k } else { cur + 12 - k },
{
    if cur + k >= 12 {
        assert((cur + k) % 12 == cur + k - 12) by (nonlinear_arith)
            requires
                12 <= cur + k < 24,
        ;
    } else {
        assert((cur + k) % 12 == cur + k) by (nonlinear_arith)
            requires
                0 <= cur + k < 12,
        ;
    }
    if cur >= k {
        assert((cur - k) % 12 == cur - k) by (nonlinear_arith)
            requires
                0 <= cur - k < 12,
        ;
    } else {
        assert((cur - k) % 12 == cur - k + 12) by (nonlinear_arith)
            requires
                -12 <= cur - k < 0,
        ;
    }
}

fn handle_unit_detail(game: &mut GameState, key: Key, current_idx: usize)
    requires
        input_ok(*old(game)),
        old(game).screen == Screen::UnitDetail(current_idx),
    ensures
        input_ok(*final(game)),
        unit_detail_step(*old(game), key, *final(game), current_idx),
{
    if key == Key::Tab || key == Key::BackTab {
        let forward = key == Key::Tab;
        let mut k: usize = 1;
        while k < 12
            invariant
                *game == *old(game),
                input_ok(*game),
                game.screen == Screen::UnitDetail(current_idx),
                current_idx < 12,
                1 <= k <= 12,
                forward == (key == Key::Tab),
                key == Key::Tab || key == Key::BackTab,
                cycle_find(game.units@, current_idx as int, forward, k as nat) == cycle_find(
                    game.units@,
                    current_idx as int,
                    forward,
                    1,
                ),
            decreases 12 - k,
        {
            let j = if forward {
                if current_idx + k >= 12 {
                    current_idx + k - 12
                } else {
                    current_idx + k
                }
            } else if current_idx >= k {
                current_idx - k
            } else {
                current_idx + 12 - k
            };
            proof {
                lemma_cycle_index(current_idx as int, k as int);
                assert(j == (if forward {
                    (current_idx + k) % 12
                } else {
                    (current_idx - k) % 12
                }));
            }
            if game.units[j].is_on_map() {
                assert(cycle_find(game.units@, current_idx as int, forward, k as nat) == Some(j));
                game.screen = Screen::UnitDetail(j);
                return;
            }
            k = k + 1;
        }
    } else if key == Key::Esc || key == Key::Enter {
        match game.prev_screen.take() {
            Some(p) => {
                game.screen = *p;
            },
            None => {
                game.screen = Screen::PhaseMenu;
                game.cursor = 0;
            },
        }
    }
}

/// Open the detail of counter `idx` over a menu of the Wagner turn.
fn open_detail(game: &mut GameState, idx: usize)
    requires
        input_ok(*old(game)),
        idx < 12,
        old(game).screen is PhaseMenu || old(game).screen is MoveSelectUnit || old(game).screen is MoveSelectDest,
    ensures
        input_ok(*final(game)),
        detail_opened(*old(game), *final(game), idx),
{
    let ghost g0 = *game;
    let mut s = Screen::UnitDetail(idx);
    std::mem::swap(&mut s, &mut game.screen);
    game.prev_screen = Some(Box::new(s));
    proof {
        assert(s == g0.screen);
        assert(screen_fits(*game, s) == screen_fits(g0, s));
    }
}

/// The contact opportunities offered in the menu.
pub open spec fn spec_menu_opportunities(a: GameState) -> Seq<(Location, Seq<Location>)> {
    spec_opportunities(a.units@, locations_where(13, occupied_pred(a.units@, Side::Wagner)))
}

/// Keys on the menu of locations to attack from, with "Back" last.
/// Entering the choice of attackers from `from` on `target`, all of them
/// selected; with a single attacker the choice is skipped and the contact
/// awaits confirmation.
pub open spec fn attackers_entered(a: GameState, b: GameState, from: Location, target: Location) -> bool {
    let av = indices_where(12, available_pred(a.units@, from));
    &&& b == (GameState { screen: b.screen, cursor: 0, ..a })
    &&& if av.len() == 1 {
        b.screen matches Screen::ContactConfirm { from_loc, target_loc, attacker_indices } && from_loc == from
            && target_loc == target && attacker_indices@ == av
    } else {
        b.screen matches Screen::ContactSelectAttackers { from_loc, target_loc, available, selected } && from_loc
            == from && target_loc == target && available@ == av && selected@ == Seq::new(av.len(), |i: int| true)
    }
}

/// Entering the choice of targets from `from`; with a single target the
/// choice is skipped.
pub open spec fn targets_entered(a: GameState, b: GameState, from: Location) -> bool {
    let t = targets_for(spec_menu_opportunities(a), from);
    if t.len() == 1 {
        attackers_entered(a, b, from, t[0])
    } else {
        b == (GameState { screen: Screen::ContactSelectTarget { from_loc: from }, cursor: 0, ..a })
    }
}

/// Entering contact from the Wagner turn menu; with a single location to
/// attack from the choice of location is skipped.
pub open spec fn contact_entered(a: GameState, b: GameState) -> bool {
    let opps = spec_menu_opportunities(a);
    if opps.len() == 1 {
        targets_entered(a, b, opps[0].0)
    } else {
        b == (GameState { screen: Screen::ContactSelectLocation, cursor: 0, ..a })
    }
}

pub open spec fn contact_select_loc_step(a: GameState, key: Key, b: GameState) -> bool {
    let opps = spec_menu_opportunities(a);
    &&& nav_step(a, key, b, (opps.len() + 1) as usize)
    &&& key == Key::Enter ==> if a.cursor >= opps.len() {
        b == (GameState { screen: Screen::PhaseMenu, cursor: 1, ..a })
    } else {
        targets_entered(a, b, opps[a.cursor as int].0)
    }
    &&& key == Key::Esc ==> b == (GameState { screen: Screen::PhaseMenu, cursor: 1, ..a })
    &&& !is_up(key) && !is_down(key) && key != Key::Enter && key != Key::Esc ==> b == a
}

/// The targets listed for `from` among the opportunities `opps`: those of
/// its first entry, none if it has none.
pub open spec fn targets_for(opps: Seq<(Location, Seq<Location>)>, from: Location) -> Seq<Location>
    decreases opps.len(),
{
    if opps.len() == 0 {
        Seq::empty()
    } else if opps[0].0 == from {
        opps[0].1
    } else {
        targets_for(opps.drop_first(), from)
    }
}

/// A Wagner counter at `l` able to attack (not police).
pub open spec fn available_pred(units: Seq<Unit>, l: Location) -> spec_fn(int) -> bool {
    |j: int| units[j].location == Some(l) && units[j].side == Side::Wagner && !units[j].police
}

/// Keys on the menu of targets from `from`, with "Back" last; a target
/// opens the choice of attackers, all of them selected.
pub open spec fn contact_select_target_step(a: GameState, key: Key, b: GameState, from: Location) -> bool {
    let t = targets_for(spec_menu_opportunities(a), from);
    &&& nav_step(a, key, b, (t.len() + 1) as usize)
    &&& key == Key::Enter ==> if a.cursor >= t.len() {
        b == (GameState { screen: Screen::ContactSelectLocation, cursor: 0, ..a })
    } else {
        attackers_entered(a, b, from, t[a.cursor as int])
    }
    &&& key == Key::Esc ==> b == (GameState { screen: Screen::ContactSelectLocation, cursor: 0, ..a })
    &&& !is_up(key) && !is_down(key) && key != Key::Enter && key != Key::Esc ==> b == a
}

/// The counters of `av` whose flag in `sel` is set, in order.
pub open spec fn spec_selected(av: Seq<usize>, sel: Seq<bool>) -> Seq<usize>
    decreases av.len(),
{
    if av.len() == 0 || sel.len() == 0 {
        Seq::empty()
    } else {
        spec_selected(av.drop_last(), sel.drop_last()) + if sel.last() {
            seq![av.last()]
        } else {
            Seq::empty()
        }
    }
}

/// Confirming the choice of attackers: with at least one selected, the
/// contact awaits confirmation.
pub open spec fn confirm_attackers(
    a: GameState,
    b: GameState,
    from: Location,
    target: Location,
    av: Seq<usize>,
    sel: Seq<bool>,
) -> bool {
    let atk = spec_selected(av, sel);
    if atk.len() > 0 {
        &&& b.screen matches Screen::ContactConfirm { from_loc, target_loc, attacker_indices } && from_loc == from
            && target_loc == target && attacker_indices@ == atk
        &&& b == (GameState { screen: b.screen, cursor: 0, ..a })
    } else {
        b == a
    }
}

/// Keys on the choice of attackers, with "Confirm" last: Space or Enter
/// toggles a counter or confirms, `c` confirms.
pub open spec fn contact_select_attackers_step(
    a: GameState,
    key: Key,
    b: GameState,
    from: Location,
    target: Location,
    av: Seq<usize>,
    sel: Seq<bool>,
) -> bool {
    &&& nav_step(a, key, b, (av.len() + 1) as usize)
    &&& (key == Key::Char(' ') || key == Key::Enter) ==> if a.cursor < av.len() {
        &&& b.screen matches Screen::ContactSelectAttackers { from_loc, target_loc, available, selected }
            && from_loc == from && target_loc == target && available@ == av && selected@ == sel.update(
            a.cursor as int,
            !sel[a.cursor as int],
        )
        &&& b == (GameState { screen: b.screen, ..a })
    } else {
        confirm_attackers(a, b, from, target, av, sel)
    }
    &&& (key == Key::Char('c') || key == Key::Char('C')) ==> confirm_attackers(a, b, from, target, av, sel)
    &&& key == Key::Esc ==> b == (GameState { screen: Screen::ContactSelectTarget { from_loc: from }, cursor: 0, ..a })
    &&& !is_up(key) && !is_down(key) && key != Key::Char(' ') && key != Key::Enter && key != Key::Char('c') && key
        != Key::Char('C') && key != Key::Esc ==> b == a
}

/// Keys on the contact confirmation: Enter resolves the contact and shows
/// its result.
pub open spec fn contact_confirm_step(
    a: GameState,
    key: Key,
    b: GameState,
    from: Location,
    target: Location,
    atk: Seq<usize>,
) -> bool {
    if key == Key::Enter {
        &&& b.screen matches Screen::ContactResult { outcome, target_loc, attacker_indices } && target_loc == target
            && attacker_indices@ == atk && contact_step(a, atk, from, target, GameState { screen: a.screen, ..b }, outcome)
    } else if key == Key::Esc {
        b == (GameState { screen: Screen::PhaseMenu, cursor: 1, ..a })
    } else {
        b == a
    }
}

/// The counters of `idxs` still on the map.
pub open spec fn spec_alive(units: Seq<Unit>, idxs: Seq<usize>) -> Seq<usize>
    decreases idxs.len(),
{
    if idxs.len() == 0 {
        Seq::empty()
    } else {
        spec_alive(units, idxs.drop_last()) + if units[idxs.last() as int].location is Some {
            seq![idxs.last()]
        } else {
            Seq::empty()
        }
    }
}

/// Enter on a contact result: the offer to advance when the target is
/// clear of Russians and attackers remain, else back to the menu.
pub open spec fn contact_result_step(a: GameState, key: Key, b: GameState, target: Location, atk: Seq<usize>) -> bool {
    if key == Key::Enter {
        let alive = spec_alive(a.units@, atk);
        if !side_occupies(a.units@, Side::Russia, target) && alive.len() > 0 {
            &&& b.screen matches Screen::AdvanceAfterContact { target_loc, attacker_indices } && target_loc == target
                && attacker_indices@ == alive
            &&& b == (GameState { screen: b.screen, ..a })
        } else {
            b == (GameState { screen: Screen::PhaseMenu, cursor: CONTACT_OPTION, ..a })
        }
    } else {
        b == a
    }
}

/// The advance prompt: `y` advances, `n` declines; either way the menu
/// comes back on its Contact option.
pub open spec fn advance_key_step(a: GameState, key: Key, b: GameState, target: Location, atk: Seq<usize>) -> bool {
    if key == Key::Char('y') || key == Key::Char('Y') {
        &&& b.screen == Screen::PhaseMenu
        &&& b.cursor == CONTACT_OPTION
        &&& advance_step(a, atk, target, GameState { screen: a.screen, cursor: a.cursor, ..b })
    } else if key == Key::Char('n') || key == Key::Char('N') {
        b == (GameState { screen: Screen::PhaseMenu, cursor: CONTACT_OPTION, ..a })
    } else {
        b == a
    }
}

fn handle_contact_select_loc(game: &mut GameState, key: Key)
    requires
        input_ok(*old(game)),
        old(game).screen is ContactSelectLocation,
    ensures
        input_ok(*final(game)),
        contact_select_loc_step(*old(game), key, *final(game)),
{
    let opportunities = game.contact_opportunities();
    let ghost view = opportunities@.map_values(|p: (Location, Vec<Location>)| (p.0, p.1@));
    proof {
        let wl = locations_where(13, occupied_pred(game.units@, Side::Wagner));
        lemma_locations_where_len(13, occupied_pred(game.units@, Side::Wagner));
        lemma_opportunities_bounds(game.units@, wl);
        assert(view.len() == opportunities@.len());
    }
    let count = opportunities.len() + 1;
    if key == Key::Up || key == Key::Char('k') {
        cursor_up(game, count);
    } else if key == Key::Down || key == Key::Char('j') {
        cursor_down(game, count);
    } else if key == Key::Enter {
        if game.cursor >= opportunities.len() {
            game.screen = Screen::PhaseMenu;
            game.cursor = 1;
        } else {
            let from_loc = opportunities[game.cursor].0;
            assert(view[game.cursor as int].0 == from_loc);
            enter_targets(game, from_loc);
        }
    } else if key == Key::Esc {
        game.screen = Screen::PhaseMenu;
        game.cursor = 1;
    }
}

/// The targets listed for `from_loc`.
fn targets_of(opps: &Vec<(Location, Vec<Location>)>, from_loc: Location) -> (r: Vec<Location>)
    ensures
        r@ == targets_for(opps@.map_values(|p: (Location, Vec<Location>)| (p.0, p.1@)), from_loc),
{
    let ghost view = opps@.map_values(|p: (Location, Vec<Location>)| (p.0, p.1@));
    let mut k: usize = 0;
    proof {
        assert(view.subrange(0, view.len() as int) =~= view);
    }
    while k < opps.len()
        invariant
            k <= opps@.len(),
            view == opps@.map_values(|p: (Location, Vec<Location>)| (p.0, p.1@)),
            targets_for(view.subrange(k as int, view.len() as int), from_loc) == targets_for(view, from_loc),
        decreases opps@.len() - k,
    {
        proof {
            assert(view.subrange(k as int, view.len() as int).drop_first() =~= view.subrange(k + 1, view.len() as int));
            assert(view.subrange(k as int, view.len() as int)[0] == view[k as int]);
        }
        if opps[k].0 == from_loc {
            let t = opps[k].1.clone();
            proof {
                assert(t@ =~= view[k as int].1);
            }
            return t;
        }
        k = k + 1;
    }
    Vec::new()
}

/// The Wagner counters at `l` able to attack.
fn available_at(game: &GameState, l: Location) -> (r: Vec<usize>)
    requires
        game.wf(),
    ensures
        r@ == indices_where(12, available_pred(game.units@, l)),
{
    let mut r: Vec<usize> = Vec::new();
    let mut i: usize = 0;
    while i < 12
        invariant
            game.wf(),
            i <= 12,
            r@ == indices_where(i as nat, available_pred(game.units@, l)),
        decreases 12 - i,
    {
        let u = game.units[i];
        if u.location == Some(l) && u.side == Side::Wagner && !u.police {
            r.push(i);
        }
        i = i + 1;
    }
    r
}

fn handle_contact_select_target(game: &mut GameState, key: Key, from_loc: Location)
    requires
        input_ok(*old(game)),
        old(game).screen == (Screen::ContactSelectTarget { from_loc }),
    ensures
        input_ok(*final(game)),
        contact_select_target_step(*old(game), key, *final(game), from_loc),
{
    let opportunities = game.contact_opportunities();
    let targets = targets_of(&opportunities, from_loc);
    proof {
        let wl = locations_where(13, occupied_pred(game.units@, Side::Wagner));
        lemma_opportunities_bounds(game.units@, wl);
        lemma_targets_bound(spec_menu_opportunities(*game), from_loc);
    }
    let count = targets.len() + 1;
    if key == Key::Up || key == Key::Char('k') {
        cursor_up(game, count);
    } else if key == Key::Down || key == Key::Char('j') {
        cursor_down(game, count);
    } else if key == Key::Enter {
        if game.cursor >= targets.len() {
            game.screen = Screen::ContactSelectLocation;
            game.cursor = 0;
        } else {
            let target_loc = targets[game.cursor];
            enter_attackers(game, from_loc, target_loc);
        }
    } else if key == Key::Esc {
        game.screen = Screen::ContactSelectLocation;
        game.cursor = 0;
    }
}

/// Enter the choice of attackers, or the confirmation when a single
/// counter can attack.
fn enter_attackers(game: &mut GameState, from_loc: Location, target_loc: Location)
    requires
        input_ok(*old(game)),
        old(game).turn < i32::MAX,
    ensures
        input_ok(*final(game)),
        attackers_entered(*old(game), *final(game), from_loc, target_loc),
{
    let available = available_at(game, from_loc);
    proof {
        lemma_indices_where_members(12, available_pred(game.units@, from_loc));
    }
    if available.len() == 1 {
        game.screen = Screen::ContactConfirm { from_loc, target_loc, attacker_indices: available };
        game.cursor = 0;
        return;
    }
    let mut selected: Vec<bool> = Vec::new();
    let mut k: usize = 0;
    while k < available.len()
        invariant
            k <= available@.len(),
            selected@ == Seq::new(k as nat, |i: int| true),
        decreases available@.len() - k,
    {
        selected.push(true);
        proof {
            assert(selected@ =~= Seq::new((k + 1) as nat, |i: int| true));
        }
        k = k + 1;
    }
    game.screen = Screen::ContactSelectAttackers { from_loc, target_loc, available, selected };
    game.cursor = 0;
}

/// Enter the choice of targets from `from_loc`, skipped when there is a
/// single target.
fn enter_targets(game: &mut GameState, from_loc: Location)
    requires
        input_ok(*old(game)),
        old(game).turn < i32::MAX,
    ensures
        input_ok(*final(game)),
        targets_entered(*old(game), *final(game), from_loc),
{
    let opportunities = game.contact_opportunities();
    let targets = targets_of(&opportunities, from_loc);
    if targets.len() == 1 {
        enter_attackers(game, from_loc, targets[0]);
    } else {
        game.screen = Screen::ContactSelectTarget { from_loc };
        game.cursor = 0;
    }
}

/// Enter contact, skipping the choice of location when there is a single
/// one.
fn enter_contact(game: &mut GameState)
    requires
        input_ok(*old(game)),
        old(game).turn < i32::MAX,
    ensures
        input_ok(*final(game)),
        contact_entered(*old(game), *final(game)),
{
    let opportunities = game.contact_opportunities();
    let ghost view = opportunities@.map_values(|p: (Location, Vec<Location>)| (p.0, p.1@));
    proof {
        assert(view.len() == opportunities@.len());
    }
    if opportunities.len() == 1 {
        let from_loc = opportunities[0].0;
        assert(view[0].0 == from_loc);
        enter_targets(game, from_loc);
    } else {
        game.screen = Screen::ContactSelectLocation;
        game.cursor = 0;
    }
}

/// The selected attackers.
fn selected_attackers(available: &Vec<usize>, selected: &Vec<bool>) -> (r: Vec<usize>)
    requires
        selected@.len() == available@.len(),
    ensures
        r@ == spec_selected(available@, selected@),
{
    let mut r: Vec<usize> = Vec::new();
    let mut k: usize = 0;
    while k < available.len()
        invariant
            k <= available@.len(),
            selected@.len() == available@.len(),
            r@ == spec_selected(available@.take(k as int), selected@.take(k as int)),
        decreases available@.len() - k,
    {
        proof {
            assert(available@.take(k + 1).drop_last() =~= available@.take(k as int));
            assert(selected@.take(k + 1).drop_last() =~= selected@.take(k as int));
        }
        if selected[k] {
            r.push(available[k]);
        }
        k = k + 1;
    }
    proof {
        assert(available@.take(k as int) =~= available@);
        assert(selected@.take(k as int) =~= selected@);
    }
    r
}

proof fn lemma_selected_valid(av: Seq<usize>, sel: Seq<bool>)
    requires
        all_valid(av),
    ensures
        spec_selected(av, sel).len() <= av.len(),
        all_valid(spec_selected(av, sel)),
    decreases av.len(),
{
    if av.len() > 0 && sel.len() > 0 {
        assert forall|k: int| 0 <= k < av.drop_last().len() implies #[trigger] av.drop_last()[k] < 12 by {
            assert(av[k] < 12);
        }
        lemma_selected_valid(av.drop_last(), sel.drop_last());
        assert(av[av.len() - 1] < 12);
    }
}

/// The opportunities list at most one entry per location, each with at
/// most one target per neighbour.
proof fn lemma_opportunities_bounds(units: Seq<Unit>, ls: Seq<Location>)
    ensures
        spec_opportunities(units, ls).len() <= ls.len(),
        forall|k: int| 0 <= k < spec_opportunities(units, ls).len() ==> (#[trigger] spec_opportunities(units, ls)[k]).1.len() <= 12,
    decreases ls.len(),
{
    if ls.len() > 0 {
        lemma_opportunities_bounds(units, ls.drop_last());
        lemma_russian_neighbors_len(units, spec_adj(ls.last()));
        lemma_adj_len(ls.last());
    }
}

proof fn lemma_russian_neighbors_len(units: Seq<Unit>, s: Seq<(Location, EdgeProps)>)
    ensures
        russian_neighbors(units, s).len() <= s.len(),
    decreases s.len(),
{
    if s.len() > 0 {
        lemma_russian_neighbors_len(units, s.drop_last());
    }
}

proof fn lemma_adj_len(l: Location)
    ensures
        spec_adj(l).len() <= 12,
{
}

proof fn lemma_targets_bound(opps: Seq<(Location, Seq<Location>)>, from: Location)
    requires
        forall|k: int| 0 <= k < opps.len() ==> (#[trigger] opps[k]).1.len() <= 12,
    ensures
        targets_for(opps, from).len() <= 12,
    decreases opps.len(),
{
    if opps.len() > 0 && opps[0].0 != from {
        assert forall|k: int| 0 <= k < opps.drop_first().len() implies (#[trigger] opps.drop_first()[k]).1.len() <= 12 by {
            assert(opps.drop_first()[k] == opps[k + 1]);
        }
        lemma_targets_bound(opps.drop_first(), from);
    }
}

proof fn lemma_locations_where_len(n: nat, p: spec_fn(Location) -> bool)
    ensures
        locations_where(n, p).len() <= n,
    decreases n,
{
    if n > 0 {
        lemma_locations_where_len((n - 1) as nat, p);
    }
}

/// Confirm the choice of attackers if at least one is selected.
fn confirm_selection(game: &mut GameState, from_loc: Location, target_loc: Location, available: &Vec<usize>, selected: &Vec<bool>)
    requires
        input_ok(*old(game)),
        old(game).screen is ContactSelectAttackers,
        all_valid(available@),
        available@.len() <= 12,
        selected@.len() == available@.len(),
    ensures
        input_ok(*final(game)),
        confirm_attackers(*old(game), *final(game), from_loc, target_loc, available@, selected@),
{
    let attacker_indices = selected_attackers(available, selected);
    proof {
        lemma_selected_valid(available@, selected@);
    }
    if attacker_indices.len() > 0 {
        game.screen = Screen::ContactConfirm { from_loc, target_loc, attacker_indices };
        game.cursor = 0;
    }
}

fn handle_contact_select_attackers(
    game: &mut GameState,
    key: Key,
    from_loc: Location,
    target_loc: Location,
    available: Vec<usize>,
    selected: Vec<bool>,
)
    requires
        input_ok(*old(game)),
        old(game).screen matches Screen::ContactSelectAttackers { from_loc: f, target_loc: t, available: av, selected: sel }
            && f == from_loc && t == target_loc && av@ == available@ && sel@ == selected@,
    ensures
        input_ok(*final(game)),
        contact_select_attackers_step(*old(game), key, *final(game), from_loc, target_loc, available@, selected@),
{
    let mut selected = selected;
    let count = available.len() + 1;
    if key == Key::Up || key == Key::Char('k') {
        cursor_up(game, count);
    } else if key == Key::Down || key == Key::Char('j') {
        cursor_down(game, count);
    } else if key == Key::Char(' ') || key == Key::Enter {
        if game.cursor < available.len() {
            let c = game.cursor;
            let flag = !selected[c];
            selected.set(c, flag);
            game.screen = Screen::ContactSelectAttackers { from_loc, target_loc, available, selected };
        } else {
            confirm_selection(game, from_loc, target_loc, &available, &selected);
        }
    } else if key == Key::Char('c') || key == Key::Char('C') {
        confirm_selection(game, from_loc, target_loc, &available, &selected);
    } else if key == Key::Esc {
        game.screen = Screen::ContactSelectTarget { from_loc };
        game.cursor = 0;
    }
}

fn handle_contact_confirm(
    game: &mut GameState,
    key: Key,
    from_loc: Location,
    target_loc: Location,
    attacker_indices: Vec<usize>,
)
    requires
        input_ok(*old(game)),
        old(game).screen matches Screen::ContactConfirm { from_loc: f, target_loc: t, attacker_indices: a }
            && f == from_loc && t == target_loc && a@ == attacker_indices@,
    ensures
        input_ok(*final(game)),
        contact_confirm_step(*old(game), key, *final(game), from_loc, target_loc, attacker_indices@),
{
    if key == Key::Enter {
        proof {
            lemma_sum_sp_bounds(*game, attacker_indices@);
            lemma_indices_where_members(12, side_at_pred(game.units@, target_loc, Side::Russia));
            lemma_sum_sp_bounds(*game, game.spec_defenders(target_loc));
        }
        let ghost g0 = *game;
        let outcome = game.resolve_contact(attacker_indices.as_slice(), from_loc, target_loc);
        let ghost g1 = *game;
        game.screen = Screen::ContactResult { outcome, target_loc, attacker_indices };
        proof {
            assert(g1 == (GameState { screen: g0.screen, ..*game }));
        }
    } else if key == Key::Esc {
        game.screen = Screen::PhaseMenu;
        game.cursor = 1;
    }
}

/// The counters of `idxs` still on the map.
fn alive_of(game: &GameState, idxs: &Vec<usize>) -> (r: Vec<usize>)
    requires
        game.wf(),
        all_valid(idxs@),
    ensures
        r@ == spec_alive(game.units@, idxs@),
        all_valid(r@),
{
    let mut r: Vec<usize> = Vec::new();
    let mut k: usize = 0;
    while k < idxs.len()
        invariant
            game.wf(),
            all_valid(idxs@),
            k <= idxs@.len(),
            r@ == spec_alive(game.units@, idxs@.take(k as int)),
            all_valid(r@),
        decreases idxs@.len() - k,
    {
        proof {
            assert(idxs@.take(k + 1).drop_last() =~= idxs@.take(k as int));
        }
        let i = idxs[k];
        if game.units[i].is_on_map() {
            r.push(i);
        }
        k = k + 1;
    }
    proof {
        assert(idxs@.take(k as int) =~= idxs@);
    }
    r
}

fn handle_contact_result(game: &mut GameState, key: Key, target_loc: Location, attacker_indices: Vec<usize>)
    requires
        input_ok(*old(game)),
        old(game).screen matches Screen::ContactResult { target_loc: t, attacker_indices: a, .. } && t == target_loc
            && a@ == attacker_indices@,
    ensures
        input_ok(*final(game)),
        contact_result_step(*old(game), key, *final(game), target_loc, attacker_indices@),
{
    if key == Key::Enter {
        if game.target_empty_of_russians(target_loc) {
            let alive = alive_of(game, &attacker_indices);
            if alive.len() > 0 {
                game.screen = Screen::AdvanceAfterContact { target_loc, attacker_indices: alive };
                return;
            }
        }
        game.screen = Screen::PhaseMenu;
        game.cursor = CONTACT_OPTION;
    }
}

fn handle_advance(game: &mut GameState, key: Key, target_loc: Location, attacker_indices: Vec<usize>)
    requires
        input_ok(*old(game)),
        old(game).screen matches Screen::AdvanceAfterContact { target_loc: t, attacker_indices: a } && t == target_loc
            && a@ == attacker_indices@,
    ensures
        input_ok(*final(game)),
        advance_key_step(*old(game), key, *final(game), target_loc, attacker_indices@),
{
    if key == Key::Char('y') || key == Key::Char('Y') {
        let ghost g0 = *game;
        game.advance_units(attacker_indices.as_slice(), target_loc);
        let ghost g1 = *game;
        game.screen = Screen::PhaseMenu;
        game.cursor = CONTACT_OPTION;
        proof {
            assert(g1 == (GameState { screen: g0.screen, cursor: g0.cursor, ..*game }));
        }
    } else if key == Key::Char('n') || key == Key::Char('N') {
        game.screen = Screen::PhaseMenu;
        game.cursor = CONTACT_OPTION;
    }
}

/// What a key does: Q quits from any screen, F1 and ? open the help over
/// any screen; any other key does what the handler of the screen shown
/// does.
pub open spec fn key_step(a: GameState, key: Key, b: GameState, quit: bool) -> bool {
    if is_quit_key(key) {
        quit && b == a
    } else if is_help_key(key) && !(a.screen is HelpScreen) {
        !quit && help_opened(a, b)
    } else {
        !quit && screen_key_step(a, key, b)
    }
}

/// Q quits from any screen.
pub open spec fn is_quit_key(key: Key) -> bool {
    key == Key::Char('q') || key == Key::Char('Q')
}

/// What a key other than Q does on the current screen.
pub open spec fn screen_key_step(a: GameState, key: Key, b: GameState) -> bool {
    match a.screen {
        Screen::Title => if key == Key::Enter {
            administration_step(a, b)
        } else {
            b == a
        },
        Screen::MctSelect => mct_select_step(a, key, b),
        Screen::MctAdjust(i) => mct_adjust_step(a, key, b, i),
        Screen::PhaseMenu => phase_menu_step(a, key, b),
        Screen::MoveSelectUnit => move_select_unit_step(a, key, b),
        Screen::MoveSelectDest(u) => move_select_dest_step(a, key, b, u),
        Screen::ContactSelectLocation => contact_select_loc_step(a, key, b),
        Screen::ContactSelectTarget { from_loc } => contact_select_target_step(a, key, b, from_loc),
        Screen::ContactSelectAttackers { from_loc, target_loc, available, selected } => {
            contact_select_attackers_step(a, key, b, from_loc, target_loc, available@, selected@)
        },
        Screen::ContactConfirm { from_loc, target_loc, attacker_indices } => contact_confirm_step(
            a,
            key,
            b,
            from_loc,
            target_loc,
            attacker_indices@,
        ),
        Screen::ContactResult { target_loc, attacker_indices, .. } => contact_result_step(
            a,
            key,
            b,
            target_loc,
            attacker_indices@,
        ),
        Screen::AdvanceAfterContact { target_loc, attacker_indices } => advance_key_step(
            a,
            key,
            b,
            target_loc,
            attacker_indices@,
        ),
        Screen::RussianPhaseDisplay => if key == Key::Enter {
            end_turn_phase_step(a, b)
        } else {
            b == a
        },
        Screen::EndTurnConfirm => end_turn_key_step(a, key, b),
        Screen::ViewLog => view_log_step(a, key, b),
        Screen::HelpScreen => help_step(a, key, b),
        Screen::UnitDetail(i) => unit_detail_step(a, key, b, i),
        Screen::GameOver { .. } => if key == Key::Char('r') || key == Key::Char('R') {
            b.is_fresh_game()
        } else {
            b == a
        },
    }
}

/// A fresh game can take keys.
pub proof fn law_fresh_game_accepts_keys(g: GameState)
    requires
        g.is_fresh_game(),
    ensures
        input_ok(g),
{
}

/// Handle one key press. Returns true if the app should quit: Q quits
/// from any screen.
pub fn handle_key(game: &mut GameState, key: Key) -> (quit: bool)
    requires
        input_ok(*old(game)),
    ensures
        input_ok(*final(game)),
        key_step(*old(game), key, *final(game), quit),
{
    if key == Key::Char('q') || key == Key::Char('Q') {
        return true;
    }
    if (key == Key::F(1) || key == Key::Char('?')) && !matches!(game.screen, Screen::HelpScreen) {
        open_help(game);
        return false;
    }
    match &game.screen {
        Screen::Title => {
            if key == Key::Enter {
                game.start_administration();
            }
        },
        Screen::MctSelect => handle_mct_select(game, key),
        Screen::MctAdjust(idx) => {
            let i = *idx;
            handle_mct_adjust(game, key, i);
        },
        Screen::PhaseMenu => handle_phase_menu(game, key),
        Screen::MoveSelectUnit => handle_move_select_unit(game, key),
        Screen::MoveSelectDest(unit_idx) => {
            let u = *unit_idx;
            handle_move_select_dest(game, key, u);
        },
        Screen::ContactSelectLocation => handle_contact_select_loc(game, key),
        Screen::ContactSelectTarget { from_loc } => {
            let f = *from_loc;
            handle_contact_select_target(game, key, f);
        },
        Screen::ContactSelectAttackers { from_loc, target_loc, available, selected } => {
            let f = *from_loc;
            let t = *target_loc;
            let av = available.clone();
            let sel = selected.clone();
            proof {
                assert(av@ =~= available@);
                assert(sel@ =~= selected@);
            }
            handle_contact_select_attackers(game, key, f, t, av, sel);
        },
        Screen::ContactConfirm { from_loc, target_loc, attacker_indices } => {
            let f = *from_loc;
            let t = *target_loc;
            let atk = attacker_indices.clone();
            proof {
                assert(atk@ =~= attacker_indices@);
            }
            handle_contact_confirm(game, key, f, t, atk);
        },
        Screen::ContactResult { outcome: _, target_loc, attacker_indices } => {
            let t = *target_loc;
            let atk = attacker_indices.clone();
            proof {
                assert(atk@ =~= attacker_indices@);
            }
            handle_contact_result(game, key, t, atk);
        },
        Screen::AdvanceAfterContact { target_loc, attacker_indices } => {
            let t = *target_loc;
            let atk = attacker_indices.clone();
            proof {
                assert(atk@ =~= attacker_indices@);
            }
            handle_advance(game, key, t, atk);
        },
        Screen::RussianPhaseDisplay => handle_russian_phase(game, key),
        Screen::EndTurnConfirm => handle_end_turn(game, key),
        Screen::ViewLog => handle_view_log(game, key),
        Screen::HelpScreen => handle_help_screen(game, key),
        Screen::UnitDetail(idx) => {
            let i = *idx;
            handle_unit_detail(game, key, i);
        },
        Screen::GameOver { .. } => {
            if key == Key::Char('r') || key == Key::Char('R') {
                game.restart();
            }
        },
    }
    false
}

} // verus!
