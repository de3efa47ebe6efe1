use pmj::game::{GameState, Phase, Screen};
use pmj::input::{handle_key, Key};
use pmj::map::Location;
use pmj::units::UnitId;

fn press(g: &mut GameState, keys: &[Key]) {
    for &k in keys {
        assert!(!handle_key(g, k));
    }
}

#[test]
fn title_starts_the_game_or_quits() {
    let mut g = GameState::new();
    assert!(!handle_key(&mut g, Key::Char('x')));
    assert!(matches!(g.screen, Screen::Title));
    assert!(handle_key(&mut g, Key::Char('Q')));
    assert!(!handle_key(&mut g, Key::Enter));
    assert!(matches!(g.screen, Screen::MctSelect));
    assert_eq!(g.phase, Phase::Administration);
}

#[test]
fn menu_cursor_wraps_around() {
    let mut g = GameState::new();
    press(&mut g, &[Key::Enter]);
    assert_eq!(g.cursor, 0);
    press(&mut g, &[Key::Up]);
    assert_eq!(g.cursor, 3);
    press(&mut g, &[Key::Char('j')]);
    assert_eq!(g.cursor, 0);
    press(&mut g, &[Key::Down, Key::Down, Key::Char('k')]);
    assert_eq!(g.cursor, 1);
}

#[test]
fn cursor_down_then_up_returns() {
    for start in 0..4usize {
        let mut g = GameState::new();
        press(&mut g, &[Key::Enter]);
        g.cursor = start;
        press(&mut g, &[Key::Down, Key::Up]);
        assert_eq!(g.cursor, start);
        press(&mut g, &[Key::Up, Key::Down]);
        assert_eq!(g.cursor, start);
    }
}

#[test]
fn adjusting_a_marker() {
    let mut g = GameState::new();
    press(&mut g, &[Key::Enter, Key::Enter]);
    assert!(matches!(g.screen, Screen::MctAdjust(0)));
    press(&mut g, &[Key::Enter]);
    assert_eq!(g.mct[0].step, 1);
    assert!(g.admin_units_adjusted[0]);
    assert!(matches!(g.screen, Screen::MctSelect));
    assert_eq!(g.cursor, 0);
    assert_eq!(g.log.last().unwrap(), "[Turn 1] Rusich MCT shifted UP \u{2192} SP+2 / MP 1");

    press(&mut g, &[Key::Down, Key::Enter, Key::Down, Key::Enter]);
    assert_eq!(g.mct[1].step, 3);
    assert_eq!(g.cursor, 1);
    press(&mut g, &[Key::Down, Key::Enter, Key::Esc]);
    assert!(matches!(g.screen, Screen::MctSelect));
    assert_eq!(g.cursor, 2);
    assert!(!g.admin_units_adjusted[2]);
}

#[test]
fn done_starts_the_wagner_turn() {
    let mut g = GameState::new();
    press(&mut g, &[Key::Enter, Key::Up, Key::Enter]);
    assert_eq!(g.phase, Phase::WagnerTurn);
    assert!(matches!(g.screen, Screen::PhaseMenu));
    assert_eq!(g.log.last().unwrap(), "[Turn 1] Wagner Player Turn begins.");
}

#[test]
fn moving_through_the_menus() {
    let mut g = GameState::new();
    press(&mut g, &[Key::Enter, Key::Up, Key::Enter]);
    press(&mut g, &[Key::Enter]);
    assert!(matches!(g.screen, Screen::MoveSelectUnit));
    press(&mut g, &[Key::Enter]);
    assert!(matches!(g.screen, Screen::MoveSelectDest(0)));
    press(&mut g, &[Key::Down, Key::Enter]);
    assert_eq!(g.units[0].location, Some(Location::BugaevkaBorderPoint));
    if g.mp_remaining(0) > 0 {
        assert!(matches!(g.screen, Screen::MoveSelectDest(0)));
        press(&mut g, &[Key::Esc, Key::Esc]);
    }
    assert!(matches!(g.screen, Screen::PhaseMenu));
    assert_eq!(g.cursor, 0);
    press(&mut g, &[Key::Enter, Key::Enter, Key::Down, Key::Down, Key::Enter]);
    assert!(matches!(g.screen, Screen::MoveSelectUnit));
    press(&mut g, &[Key::Esc]);
    assert!(matches!(g.screen, Screen::PhaseMenu));
}

#[test]
fn illegal_moves_are_ignored() {
    let mut g = GameState::new();
    press(&mut g, &[Key::Enter, Key::Up, Key::Enter]);
    g.units[0].mp_spent = 2;
    press(&mut g, &[Key::Enter, Key::Enter, Key::Enter]);
    assert!(matches!(g.screen, Screen::MoveSelectDest(0)));
    assert_eq!(g.units[0].location, Some(Location::RostovOnDon));
}

#[test]
fn contact_through_the_menus() {
    let mut g = GameState::new();
    press(&mut g, &[Key::Enter, Key::Up, Key::Enter]);
    g.units[0].location = Some(Location::BugaevkaBorderPoint);
    g.units[1].location = Some(Location::BugaevkaBorderPoint);
    g.units[2].location = Some(Location::Lipetsk);
    g.units[8].location = Some(Location::Voronezh);
    g.cursor = 1;
    press(&mut g, &[Key::Enter]);
    assert!(matches!(g.screen, Screen::ContactSelectLocation));
    press(&mut g, &[Key::Enter]);
    match &g.screen {
        Screen::ContactSelectAttackers { from_loc, target_loc, available, selected } => {
            assert_eq!(*from_loc, Location::BugaevkaBorderPoint);
            assert_eq!(*target_loc, Location::Voronezh);
            assert_eq!(available, &vec![0, 1]);
            assert_eq!(selected, &vec![true, true]);
        }
        _ => panic!("expected the choice of attackers"),
    }
    press(&mut g, &[Key::Char(' ')]);
    match &g.screen {
        Screen::ContactSelectAttackers { selected, .. } => assert_eq!(selected, &vec![false, true]),
        _ => panic!("expected the choice of attackers"),
    }
    press(&mut g, &[Key::Char('c')]);
    match &g.screen {
        Screen::ContactConfirm { attacker_indices, target_loc, .. } => {
            assert_eq!(attacker_indices, &vec![1]);
            assert_eq!(*target_loc, Location::Voronezh);
        }
        _ => panic!("expected the confirmation"),
    }
    press(&mut g, &[Key::Enter]);
    assert!(matches!(g.screen, Screen::ContactResult { .. }));
    press(&mut g, &[Key::Enter]);
    if g.units[8].location == Some(Location::Voronezh) || g.units[1].location.is_none() {
        assert!(matches!(g.screen, Screen::PhaseMenu));
    } else {
        assert!(matches!(g.screen, Screen::AdvanceAfterContact { .. }));
        press(&mut g, &[Key::Char('y')]);
        assert_eq!(g.units[1].location, Some(Location::Voronezh));
        assert!(matches!(g.screen, Screen::PhaseMenu));
    }
    assert_eq!(g.cursor, 1);
}

#[test]
fn no_contact_opportunities_is_logged() {
    let mut g = GameState::new();
    press(&mut g, &[Key::Enter, Key::Up, Key::Enter]);
    g.cursor = 1;
    press(&mut g, &[Key::Enter]);
    assert!(matches!(g.screen, Screen::PhaseMenu));
    assert_eq!(g.log.last().unwrap(), "[Turn 1] No contact opportunities available.");
    assert_eq!(g.status_message.as_deref(), Some("No contact opportunities"));
    assert_eq!(g.status_timer, 20);
}

#[test]
fn log_viewer_and_help() {
    let mut g = GameState::new();
    press(&mut g, &[Key::Enter, Key::Up, Key::Enter]);
    g.cursor = 3;
    press(&mut g, &[Key::Enter]);
    assert!(matches!(g.screen, Screen::ViewLog));
    assert_eq!(g.log_scroll, 0);
    press(&mut g, &[Key::Up, Key::Down, Key::Down]);
    assert_eq!(g.log_scroll, 2);
    press(&mut g, &[Key::Esc]);
    assert!(matches!(g.screen, Screen::PhaseMenu));
    assert_eq!(g.cursor, 3);
    press(&mut g, &[Key::F(1)]);
    assert!(matches!(g.screen, Screen::HelpScreen));
    press(&mut g, &[Key::Char('?')]);
    assert!(matches!(g.screen, Screen::PhaseMenu));
    assert_eq!(g.cursor, 3);
}

#[test]
fn unit_detail_cycles_through_counters_on_the_map() {
    let mut g = GameState::new();
    press(&mut g, &[Key::Enter, Key::Up, Key::Enter]);
    press(&mut g, &[Key::Tab]);
    assert!(matches!(g.screen, Screen::UnitDetail(0)));
    press(&mut g, &[Key::Tab, Key::Tab]);
    assert!(matches!(g.screen, Screen::UnitDetail(2)));
    press(&mut g, &[Key::Tab]);
    assert!(matches!(g.screen, Screen::UnitDetail(6)));
    press(&mut g, &[Key::BackTab, Key::BackTab, Key::BackTab, Key::BackTab]);
    assert!(matches!(g.screen, Screen::UnitDetail(10)));
    press(&mut g, &[Key::Esc]);
    assert!(matches!(g.screen, Screen::PhaseMenu));
}

#[test]
fn ending_the_turn() {
    let mut g = GameState::new();
    press(&mut g, &[Key::Enter, Key::Up, Key::Enter]);
    g.cursor = 2;
    press(&mut g, &[Key::Enter]);
    assert!(matches!(g.screen, Screen::RussianPhaseDisplay));
    assert_eq!(g.phase, Phase::RussianAI);
    press(&mut g, &[Key::Enter]);
    assert!(matches!(g.screen, Screen::EndTurnConfirm));
    press(&mut g, &[Key::Esc]);
    assert!(matches!(g.screen, Screen::PhaseMenu));
    assert_eq!(g.phase, Phase::WagnerTurn);
    g.screen = Screen::EndTurnConfirm;
    press(&mut g, &[Key::Enter]);
    assert_eq!(g.turn, 2);
    assert!(matches!(g.screen, Screen::MctSelect));
}

#[test]
fn victory_and_restart() {
    let mut g = GameState::new();
    press(&mut g, &[Key::Enter, Key::Up, Key::Enter]);
    g.units[0].location = Some(Location::Moscow);
    g.units[6].location = None;
    g.units[8].location = None;
    g.units[10].location = None;
    g.cursor = 2;
    press(&mut g, &[Key::Enter]);
    assert!(matches!(g.screen, Screen::GameOver { wagner_wins: true }));
    press(&mut g, &[Key::Enter]);
    assert!(matches!(g.screen, Screen::GameOver { .. }));
    press(&mut g, &[Key::Char('r')]);
    assert!(matches!(g.screen, Screen::Title));
    assert_eq!(g.units[0].location, Some(Location::RostovOnDon));
    assert_eq!(g.unit_index(UnitId::Rusich), Some(0));
    g.screen = Screen::GameOver { wagner_wins: false };
    assert!(handle_key(&mut g, Key::Char('q')));
}

#[test]
fn q_quits_from_any_screen() {
    let mut g = GameState::new();
    press(&mut g, &[Key::Enter]);
    assert!(handle_key(&mut g, Key::Char('q')));
    press(&mut g, &[Key::Up, Key::Enter]);
    assert!(matches!(g.screen, Screen::PhaseMenu));
    assert!(handle_key(&mut g, Key::Char('q')));
    assert!(handle_key(&mut g, Key::Char('Q')));
    assert!(matches!(g.screen, Screen::PhaseMenu));
    press(&mut g, &[Key::Enter]);
    assert!(matches!(g.screen, Screen::MoveSelectUnit));
    assert!(handle_key(&mut g, Key::Char('Q')));
    g.screen = Screen::EndTurnConfirm;
    assert!(handle_key(&mut g, Key::Char('q')));
    g.screen = Screen::ViewLog;
    assert!(handle_key(&mut g, Key::Char('q')));
}

#[test]
fn tab_without_units_on_the_map_flashes() {
    let mut g = GameState::new();
    press(&mut g, &[Key::Enter, Key::Up, Key::Enter]);
    for i in 0..3 {
        g.units[i].location = None;
    }
    press(&mut g, &[Key::Tab]);
    assert!(matches!(g.screen, Screen::PhaseMenu));
    assert_eq!(g.status_message.as_deref(), Some("No units on map"));
    assert_eq!(g.status_timer, 20);
}

#[test]
fn movement_continues_while_mp_remains() {
    let mut g = GameState::new();
    press(&mut g, &[Key::Enter, Key::Up, Key::Enter]);
    g.units[0].location = Some(Location::Voronezh);
    g.units[8].location = None;
    g.units[10].location = None;
    let before = g.mp_remaining(0);
    assert!(before >= 2);
    g.screen = Screen::MoveSelectDest(0);
    g.cursor = 2;
    press(&mut g, &[Key::Enter]);
    assert_eq!(g.units[0].location, Some(Location::Lipetsk));
    assert_eq!(g.mp_remaining(0), before - 1);
    assert!(matches!(g.screen, Screen::MoveSelectDest(0)));
    assert_eq!(g.cursor, 0);
    while g.mp_remaining(0) > 0 {
        g.cursor = 0;
        press(&mut g, &[Key::Enter]);
    }
    assert!(matches!(g.screen, Screen::PhaseMenu));
}

#[test]
fn help_opens_from_any_screen_and_returns() {
    let mut g = GameState::new();
    press(&mut g, &[Key::Char('?')]);
    assert!(matches!(g.screen, Screen::HelpScreen));
    press(&mut g, &[Key::Esc]);
    assert!(matches!(g.screen, Screen::Title));
    press(&mut g, &[Key::Enter, Key::Up, Key::Enter, Key::Enter]);
    assert!(matches!(g.screen, Screen::MoveSelectUnit));
    press(&mut g, &[Key::Down, Key::F(1)]);
    assert!(matches!(g.screen, Screen::HelpScreen));
    press(&mut g, &[Key::Enter, Key::F(1)]);
    assert!(matches!(g.screen, Screen::MoveSelectUnit));
    assert_eq!(g.cursor, 1);
    assert!(g.prev_screen.is_none());
}

#[test]
fn unit_detail_returns_to_the_screen_it_was_opened_from() {
    let mut g = GameState::new();
    press(&mut g, &[Key::Enter, Key::Up, Key::Enter, Key::Enter]);
    assert!(matches!(g.screen, Screen::MoveSelectUnit));
    press(&mut g, &[Key::Down, Key::Tab]);
    assert!(matches!(g.screen, Screen::UnitDetail(1)));
    press(&mut g, &[Key::Esc]);
    assert!(matches!(g.screen, Screen::MoveSelectUnit));
    assert_eq!(g.cursor, 1);
    press(&mut g, &[Key::Enter, Key::Tab]);
    assert!(matches!(g.screen, Screen::UnitDetail(1)));
    press(&mut g, &[Key::Enter]);
    assert!(matches!(g.screen, Screen::MoveSelectDest(1)));
    press(&mut g, &[Key::Esc]);
    assert!(matches!(g.screen, Screen::PhaseMenu));
}

#[test]
fn single_choices_are_skipped_on_the_way_to_contact() {
    let mut g = GameState::new();
    press(&mut g, &[Key::Enter, Key::Up, Key::Enter]);
    for i in 0..12 {
        g.units[i].location = None;
    }
    g.units[1].location = Some(Location::BugaevkaBorderPoint);
    g.units[8].location = Some(Location::Voronezh);
    g.cursor = 1;
    press(&mut g, &[Key::Enter]);
    match &g.screen {
        Screen::ContactConfirm { from_loc, target_loc, attacker_indices } => {
            assert_eq!(*from_loc, Location::BugaevkaBorderPoint);
            assert_eq!(*target_loc, Location::Voronezh);
            assert_eq!(attacker_indices, &vec![1]);
        }
        _ => panic!("expected the confirmation"),
    }
}
