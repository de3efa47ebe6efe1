use pmj::game::{CupItem, GameState, Phase, Screen};
use pmj::map::Location;
use pmj::units::{Side, UnitId};

const RUSICH: usize = 0;
const UTKIN: usize = 1;
const SERB: usize = 2;
const MECH: usize = 3;
const OMON: usize = 6;
const AKHMAT: usize = 7;
const FSB: usize = 8;
const HELI: usize = 9;
const SOBR: usize = 10;

fn logged(g: &GameState, line: &str) -> bool {
    g.log.iter().any(|l| l == line)
}

#[test]
fn administration_returns_dispersed_counters() {
    let mut g = GameState::new();
    g.units[FSB].location = None;
    g.units[FSB].dispersed = true;
    g.units[SERB].location = None;
    g.units[SERB].dispersed = true;
    g.admin_units_adjusted = [true, true, false];
    g.start_administration();
    assert_eq!(g.units[FSB].location, Some(Location::Moscow));
    assert!(!g.units[FSB].dispersed);
    assert_eq!(g.units[SERB].location, Some(Location::RostovOnDon));
    assert_eq!(g.phase, Phase::Administration);
    assert!(matches!(g.screen, Screen::MctSelect));
    assert_eq!(g.admin_units_adjusted, [false, false, false]);
    assert!(logged(&g, "[Turn 1] FSB returns from dispersal to Moscow"));
}

#[test]
fn wagner_turn_resets_movement() {
    let mut g = GameState::new();
    g.units[RUSICH].mp_spent = 2;
    g.units[FSB].mp_spent = 1;
    g.start_wagner_turn();
    assert!(g.units.iter().all(|u| u.mp_spent == 0));
    assert_eq!(g.phase, Phase::WagnerTurn);
    assert!(matches!(g.screen, Screen::PhaseMenu));
    assert_eq!(g.log.last().unwrap(), "[Turn 1] Wagner Player Turn begins.");
}

#[test]
fn end_turn_phase_opens() {
    let mut g = GameState::new();
    g.cursor = 2;
    g.start_end_turn_phase();
    assert_eq!(g.phase, Phase::EndTurn);
    assert!(matches!(g.screen, Screen::EndTurnConfirm));
    assert_eq!(g.cursor, 0);
}

#[test]
fn end_turn_momentum_questions() {
    let mut g = GameState::new();
    g.russian_eliminated_this_turn = true;
    g.end_turn();
    assert_eq!(g.momentum, 3);
    assert_eq!(g.turn, 2);
    assert!(!g.russian_eliminated_this_turn);
    assert!(matches!(g.screen, Screen::MctSelect));
    assert!(logged(&g, "[Turn 1] Momentum +2: Russian unit eliminated this turn."));
    assert!(logged(&g, "[Turn 1] Momentum: +1 \u{2192} +3 (delta +2)"));
    assert!(logged(&g, "[Turn 2] Turn advanced to 2."));
}

#[test]
fn end_turn_mixed_questions() {
    let mut g = GameState::new();
    g.units[RUSICH].location = Some(Location::Rublevo);
    g.units[FSB].location = Some(Location::RostovOnDon);
    g.wagner_reduced_this_turn = true;
    g.end_turn();
    assert_eq!(g.momentum, -1);
    assert!(!g.wagner_reduced_this_turn);
}

#[test]
fn end_turn_clamps_momentum() {
    let mut g = GameState::new();
    g.momentum = -3;
    g.wagner_eliminated_this_turn = true;
    g.wagner_repulsed_this_turn = true;
    g.end_turn();
    assert_eq!(g.momentum, -3);
    for m in [-3, -1, 0, 2, 3] {
        let mut h = GameState::new();
        h.momentum = m;
        h.russian_reduced_this_turn = true;
        h.russian_eliminated_this_turn = true;
        h.units[RUSICH].location = Some(Location::Moscow);
        h.end_turn();
        assert!(h.momentum >= -3 && h.momentum <= 3);
    }
}

#[test]
fn game_ends_after_the_sixth_turn() {
    let mut g = GameState::new();
    g.turn = 6;
    g.end_turn();
    assert_eq!(g.turn, 7);
    assert!(matches!(g.screen, Screen::GameOver { wagner_wins: false }));
}

#[test]
fn mobilization_deploys_akhmat_to_grozny() {
    let mut g = GameState::new();
    g.cup = vec![CupItem::Unit(UnitId::Akhmat), CupItem::Roadblock2];
    g.run_russian_mobilization();
    assert_eq!(g.units[AKHMAT].location, Some(Location::GroznyAkhmatBase));
    assert_eq!(g.cup, vec![CupItem::Roadblock2]);
    assert_eq!(g.log.last().unwrap(), "[Turn 1] Akhmat deployed to Grozny from Moscow Mobilization Cup.");
}

#[test]
fn mobilization_avoids_wagner() {
    let mut g = GameState::new();
    g.units[RUSICH].location = Some(Location::GroznyAkhmatBase);
    g.cup = vec![CupItem::Unit(UnitId::Akhmat)];
    g.run_russian_mobilization();
    assert_eq!(g.units[AKHMAT].location, Some(Location::Moscow));

    let mut h = GameState::new();
    h.units[RUSICH].location = Some(Location::GroznyAkhmatBase);
    h.units[UTKIN].location = Some(Location::BugaevkaBorderPoint);
    h.units[SERB].location = Some(Location::BugaevkaBorderPoint);
    h.cup = vec![CupItem::Unit(UnitId::Akhmat)];
    h.run_russian_mobilization();
    assert_eq!(h.units[AKHMAT].location, Some(Location::RostovOnDon));
}

#[test]
fn mobilization_other_counters() {
    let mut g = GameState::new();
    g.cup = vec![CupItem::Unit(UnitId::MechanizedRegiment), CupItem::Unit(UnitId::Helicopters)];
    g.run_russian_mobilization();
    assert_eq!(g.units[MECH].location, Some(Location::Kaluga));
    g.run_russian_mobilization();
    assert_eq!(g.units[HELI].location, Some(Location::Moscow));
    assert!(g.cup.is_empty());
    g.run_russian_mobilization();
    assert_eq!(g.log.last().unwrap(), "[Turn 1] Moscow Mobilization Cup is empty.");
}

#[test]
fn people_are_silent() {
    let mut g = GameState::new();
    g.momentum = 2;
    g.cup = vec![CupItem::PeopleAreSilent];
    g.run_russian_mobilization();
    assert!(g.people_are_silent_pulled);
    assert!(g.units[OMON].is_reduced);
    assert!(g.units[FSB].is_reduced);
    assert!(!g.units[SOBR].is_reduced);
    assert!(g.russian_reduced_this_turn);
    assert!(logged(&g, "[Turn 1] OMON flipped to REDUCED (People Are Silent, momentum +2)"));

    let mut h = GameState::new();
    h.momentum = 0;
    h.cup = vec![CupItem::PeopleAreSilent];
    h.run_russian_mobilization();
    assert!(h.people_are_silent_pulled);
    assert!(!h.units[OMON].is_reduced);
    assert!(!h.russian_reduced_this_turn);
    assert_eq!(h.log.last().unwrap(), "[Turn 1] No reduction effect (Momentum 0 or less).");
}

#[test]
fn second_roadblock_from_the_cup() {
    let mut g = GameState::new();
    g.cup = vec![CupItem::Roadblock2];
    g.run_russian_mobilization();
    assert_eq!(g.roadblocks, [None, Some(Location::OkaRiver)]);
}

#[test]
fn spending_one_point_restores_a_counter() {
    let mut g = GameState::new();
    g.momentum = -1;
    g.units[FSB].is_reduced = true;
    g.units[SOBR].is_reduced = true;
    g.run_russian_momentum_expenditure();
    assert!(!g.units[FSB].is_reduced);
    assert!(g.units[SOBR].is_reduced);
    assert_eq!(g.momentum, 0);
    assert_eq!(g.log.last().unwrap(), "[Turn 1] Momentum spent: -1 \u{2192} 0");
}

#[test]
fn spending_two_points() {
    let mut g = GameState::new();
    g.momentum = -2;
    g.units[FSB].is_reduced = true;
    g.units[SOBR].is_reduced = true;
    g.run_russian_momentum_expenditure();
    assert!(!g.units[FSB].is_reduced && !g.units[SOBR].is_reduced);
    assert_eq!(g.units[AKHMAT].location, None);

    let mut h = GameState::new();
    h.momentum = -2;
    h.units[FSB].is_reduced = true;
    h.run_russian_momentum_expenditure();
    assert!(!h.units[FSB].is_reduced);
    assert_eq!(h.units[AKHMAT].location, Some(Location::Moscow));
    assert!(h.units[AKHMAT].is_reduced);

    let mut k = GameState::new();
    k.momentum = -2;
    k.run_russian_momentum_expenditure();
    assert_eq!(k.units[AKHMAT].location, Some(Location::Moscow));
    assert!(k.units[AKHMAT].is_reduced);
    assert_eq!(k.momentum, 0);
}

#[test]
fn spending_three_points() {
    let mut g = GameState::new();
    g.momentum = -3;
    g.units[OMON].is_reduced = true;
    g.units[FSB].is_reduced = true;
    g.run_russian_momentum_expenditure();
    assert_eq!(g.units[MECH].location, Some(Location::Moscow));
    assert!(!g.units[MECH].is_reduced);
    assert!(!g.units[OMON].is_reduced && !g.units[FSB].is_reduced);
    assert_eq!(g.momentum, 0);
    assert!(logged(&g, "[Turn 1] Mech Regiment rebuilt to FULL strength and placed in Moscow."));
}

#[test]
fn positive_momentum_is_not_spent() {
    let mut g = GameState::new();
    g.units[FSB].is_reduced = true;
    let before = g.log.len();
    g.run_russian_momentum_expenditure();
    assert_eq!(g.momentum, 1);
    assert!(g.units[FSB].is_reduced);
    assert_eq!(g.log.len(), before);
}

#[test]
fn roadblocks_on_the_route_to_moscow() {
    let mut g = GameState::new();
    g.run_russian_roadblock_deploy();
    assert_eq!(g.roadblocks, [Some(Location::BugaevkaBorderPoint), None]);
    g.run_russian_roadblock_deploy();
    assert_eq!(g.roadblocks, [Some(Location::BugaevkaBorderPoint), Some(Location::Voronezh)]);
    g.run_russian_roadblock_deploy();
    assert_eq!(g.roadblocks, [Some(Location::BugaevkaBorderPoint), Some(Location::Orel)]);
    assert_eq!(g.log.last().unwrap(), "[Turn 1] Roadblock 2 repositioned Voronezh \u{2192} Orel.");
}

#[test]
fn roadblock_before_the_closest_wagner_counter() {
    let mut g = GameState::new();
    g.units[SERB].location = Some(Location::Tula);
    g.run_russian_roadblock_deploy();
    assert_eq!(g.roadblocks, [Some(Location::Kaluga), None]);
    assert_eq!(g.log.last().unwrap(), "[Turn 1] Roadblock 1 deployed at Kaluga.");
}

fn attack_setup() -> GameState {
    let mut g = GameState::new();
    g.units[RUSICH].location = Some(Location::BugaevkaBorderPoint);
    g.units[FSB].location = Some(Location::Voronezh);
    g.units[SOBR].location = Some(Location::Voronezh);
    g.units[HELI].location = Some(Location::Voronezh);
    g
}

#[test]
fn russian_attack_routs_wagner() {
    let mut g = attack_setup();
    g.run_russian_ai_attacks_with_roll(6);
    assert_eq!(g.units[RUSICH].location, None);
    assert!(g.russian_eliminated_this_turn);
    assert!(logged(
        &g,
        "[Turn 1] Russian Attack: FSB, Helicopters, SOBR @ Voronezh \u{2192} Bugaevka B.P. | ATK:7 DEF:2 | Roll:6 | R"
    ));
}

#[test]
fn russian_attack_without_effect() {
    let mut g = attack_setup();
    g.run_russian_ai_attacks_with_roll(1);
    assert_eq!(g.units[RUSICH].location, Some(Location::BugaevkaBorderPoint));
    assert!(logged(
        &g,
        "[Turn 1] Russian Attack: FSB, Helicopters, SOBR @ Voronezh \u{2192} Bugaevka B.P. | ATK:7 DEF:2 | Roll:1 | NE"
    ));
}

#[test]
fn without_an_attack_the_russians_march_on_moscow() {
    let mut g = GameState::new();
    g.units[FSB].location = Some(Location::Orel);
    g.run_russian_ai_attacks_with_roll(3);
    assert_eq!(g.units[FSB].location, Some(Location::Kaluga));
    assert_eq!(g.units[SOBR].location, Some(Location::Moscow));
    assert!(logged(&g, "[Turn 1] No favorable attacks. Russian units hold position."));
    assert!(logged(&g, "[Turn 1] FSB moved Orel \u{2192} Kaluga (toward Moscow)."));
}

#[test]
fn no_attackers_no_attack() {
    let mut g = GameState::new();
    g.units[FSB].location = None;
    g.units[SOBR].location = None;
    g.run_russian_ai_attacks_with_roll(3);
    assert_eq!(g.log.last().unwrap(), "[Turn 1] No Russian units available for attack.");
}

#[test]
fn akhmat_busy() {
    let mut g = GameState::new();
    g.units[AKHMAT].location = Some(Location::GroznyAkhmatBase);
    g.run_akhmat_tiktok_with_rolls(5, 3);
    assert_eq!(g.units[AKHMAT].location, Some(Location::GroznyAkhmatBase));
    assert_eq!(g.log.last().unwrap(), "[Turn 1] Akhmat Tik Tok roll: 5 \u{2014} too busy making Tik Toks.");
}

#[test]
fn akhmat_attacks_rostov() {
    let mut g = GameState::new();
    g.units[AKHMAT].location = Some(Location::GroznyAkhmatBase);
    g.run_akhmat_tiktok_with_rolls(6, 4);
    assert_eq!(g.units[AKHMAT].location, None);
    assert!(g.wagner_repulsed_this_turn);
    assert!(!logged(&g, "[Turn 1] Akhmat moved Grozny \u{2192} Rostov-On-Don."));
    assert!(logged(&g, "[Turn 1] Akhmat attacks Rostov! Roll:4 \u{2192} AR"));
}

#[test]
fn akhmat_stays_in_grozny_while_wagner_holds_rostov() {
    for roll in 1..=6 {
        let mut g = GameState::new();
        g.units[AKHMAT].location = Some(Location::GroznyAkhmatBase);
        g.run_akhmat_tiktok_with_rolls(6, roll);
        let wagner_in_rostov = g
            .units
            .iter()
            .any(|u| u.side == Side::Wagner && u.location == Some(Location::RostovOnDon));
        if wagner_in_rostov {
            assert_ne!(g.units[AKHMAT].location, Some(Location::RostovOnDon));
        }
    }
}

#[test]
fn akhmat_takes_an_empty_rostov() {
    let mut g = GameState::new();
    g.units[AKHMAT].location = Some(Location::GroznyAkhmatBase);
    for i in [RUSICH, UTKIN, SERB] {
        g.units[i].location = Some(Location::BugaevkaBorderPoint);
    }
    g.run_akhmat_tiktok_with_rolls(6, 1);
    assert_eq!(g.units[AKHMAT].location, Some(Location::RostovOnDon));
    assert_eq!(g.units[AKHMAT].side, Side::Russia);
}

#[test]
fn akhmat_away_from_grozny_does_nothing() {
    let mut g = GameState::new();
    let before = g.log.len();
    g.run_akhmat_tiktok_with_rolls(6, 6);
    assert_eq!(g.units[AKHMAT].location, None);
    assert_eq!(g.log.len(), before);
}

#[test]
fn russian_phase_with_rolls() {
    let mut g = GameState::new();
    g.cup = vec![CupItem::Roadblock2, CupItem::PeopleAreSilent];
    g.units[FSB].mp_spent = 1;
    g.start_russian_phase_with_rolls(3, 2, 2);
    assert_eq!(g.phase, Phase::RussianAI);
    assert!(matches!(g.screen, Screen::RussianPhaseDisplay));
    assert_eq!(g.cup, vec![CupItem::PeopleAreSilent]);
    assert_eq!(g.roadblocks, [Some(Location::BugaevkaBorderPoint), Some(Location::OkaRiver)]);
    assert_eq!(g.units[FSB].mp_spent, 0);
    assert_eq!(g.log[1], "[Turn 1] \u{2500}\u{2500} Russian AI Phase \u{2500}\u{2500}");
}

#[test]
fn random_russian_phase_keeps_the_game_playable() {
    for _ in 0..30 {
        let mut g = GameState::new();
        g.start_russian_phase();
        assert_eq!(g.phase, Phase::RussianAI);
        assert_eq!(g.cup.len(), 7);
        assert!(g.momentum >= -3 && g.momentum <= 3);
        assert_eq!(g.turn, 1);
    }
}
