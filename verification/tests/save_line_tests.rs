use pmj::game::{GameState, Phase, Screen};
use pmj::line::bresenham_line;
use pmj::map::Location;
use pmj::save::check_save;

#[test]
fn save_holds_the_state() {
    let mut g = GameState::new();
    g.turn = 3;
    g.momentum = -2;
    g.units[0].location = Some(Location::Voronezh);
    g.record("something".to_string());
    let d = g.save_data();
    assert_eq!(d.turn, 3);
    assert_eq!(d.momentum, -2);
    assert_eq!(d.units[0].location, Some(Location::Voronezh));
    assert_eq!(d.log, g.log);
    assert_eq!(d.cup, g.cup);
    assert!(check_save(&d));
}

#[test]
fn saving_is_logged_and_flashed() {
    let mut g = GameState::new();
    g.note_saved();
    assert_eq!(g.log.last().unwrap(), "[Turn 1] Game saved.");
    assert_eq!(g.status_message, Some("Game saved!".to_string()));
    assert_eq!(g.status_timer, 20);
}

#[test]
fn restoring_a_save() {
    let mut g = GameState::new();
    g.turn = 4;
    g.phase = Phase::WagnerTurn;
    g.units[1].location = Some(Location::Tula);
    let d = g.save_data();
    let mut h = GameState::new();
    h.cursor = 2;
    assert!(h.restore(d).is_ok());
    assert_eq!(h.turn, 4);
    assert_eq!(h.phase, Phase::WagnerTurn);
    assert!(matches!(h.screen, Screen::PhaseMenu));
    assert_eq!(h.units[1].location, Some(Location::Tula));
    assert_eq!(h.cursor, 0);
    assert_eq!(h.log.len(), 2);
    assert_eq!(h.log[1], "[Turn 4] Game loaded from save.");
    assert_eq!(h.status_message, Some("Game loaded!".to_string()));
}

#[test]
fn restore_opens_the_screen_of_the_phase() {
    for (p, check) in [
        (Phase::Administration, 0),
        (Phase::WagnerTurn, 1),
        (Phase::RussianAI, 2),
        (Phase::EndTurn, 3),
    ] {
        let mut g = GameState::new();
        g.phase = p;
        let d = g.save_data();
        let mut h = GameState::new();
        assert!(h.restore(d).is_ok());
        let ok = match check {
            0 => matches!(h.screen, Screen::MctSelect),
            1 => matches!(h.screen, Screen::PhaseMenu),
            2 => matches!(h.screen, Screen::RussianPhaseDisplay),
            _ => matches!(h.screen, Screen::EndTurnConfirm),
        };
        assert!(ok);
    }
}

#[test]
fn invalid_saves_are_refused() {
    let g = GameState::new();
    let mut short = g.save_data();
    short.units.pop();
    assert!(!check_save(&short));
    let mut h = GameState::new();
    let before_log = h.log.clone();
    assert_eq!(h.restore(short), Err("Invalid save data".to_string()));
    assert_eq!(h.log, before_log);

    let mut swapped = g.save_data();
    swapped.units.swap(0, 1);
    assert!(!check_save(&swapped));

    let mut momentum = g.save_data();
    momentum.momentum = 5;
    assert!(!check_save(&momentum));

    let mut marker = g.save_data();
    marker.mct[2].step = 5;
    assert!(!check_save(&marker));

    let mut turn = g.save_data();
    turn.turn = i32::MAX;
    assert!(!check_save(&turn));
}

#[test]
fn line_shallow() {
    assert_eq!(bresenham_line(0, 0, 3, 1), vec![(0, 0), (1, 0), (2, 1), (3, 1)]);
}

#[test]
fn line_single_point_and_vertical() {
    assert_eq!(bresenham_line(5, 5, 5, 5), vec![(5, 5)]);
    assert_eq!(bresenham_line(0, 0, 0, -3), vec![(0, 0), (0, -1), (0, -2), (0, -3)]);
    assert_eq!(bresenham_line(2, 2, -1, -1), vec![(2, 2), (1, 1), (0, 0), (-1, -1)]);
}

#[test]
fn lines_between_map_positions_connect_their_ends() {
    for &a in Location::all() {
        for &b in Location::all() {
            let (ax, ay) = a.map_pos();
            let (bx, by) = b.map_pos();
            let pts = bresenham_line(ax as i32 + 5, ay as i32 + 1, bx as i32 + 5, by as i32 + 1);
            assert_eq!(pts[0], (ax as i32 + 5, ay as i32 + 1));
            assert_eq!(*pts.last().unwrap(), (bx as i32 + 5, by as i32 + 1));
            let dx = (bx as i32 - ax as i32).abs();
            let dy = (by as i32 - ay as i32).abs();
            assert_eq!(pts.len() as i32, dx.max(dy) + 1);
            for w in pts.windows(2) {
                assert!((w[1].0 - w[0].0).abs() <= 1 && (w[1].1 - w[0].1).abs() <= 1);
                assert!(w[0] != w[1]);
            }
        }
    }
}

#[test]
fn extreme_lines_do_not_overflow() {
    let pts = bresenham_line(i32::MIN, 0, i32::MIN + 3, 0);
    assert_eq!(pts.len(), 4);
    let far = bresenham_line(i32::MAX - 2, i32::MIN, i32::MAX, i32::MIN + 2);
    assert_eq!(far, vec![(i32::MAX - 2, i32::MIN), (i32::MAX - 1, i32::MIN + 1), (i32::MAX, i32::MIN + 2)]);
}

#[test]
fn saves_with_counters_on_either_side_are_accepted() {
    let g = GameState::new();
    let mut d = g.save_data();
    d.units[7].side = pmj::units::Side::Wagner;
    assert!(check_save(&d));
    let mut h = GameState::new();
    assert!(h.restore(d).is_ok());
    assert_eq!(h.units[7].side, pmj::units::Side::Wagner);
}
