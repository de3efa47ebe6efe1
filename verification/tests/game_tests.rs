use pmj::combat::CrtResult;
use pmj::game::{CupItem, GameState, Phase, Screen};
use pmj::map::Location;
use pmj::units::{Side, UnitId};

const RUSICH: usize = 0;
const UTKIN: usize = 1;
const SERB: usize = 2;
const MECH: usize = 3;
const OMON: usize = 6;
const AKHMAT: usize = 7;
const FSB: usize = 8;
const HELI: usize = 9;
const SOBR: usize = 10;

fn count(cup: &[CupItem], item: CupItem) -> usize {
    cup.iter().filter(|c| **c == item).count()
}

#[test]
fn new_game() {
    let g = GameState::new();
    assert_eq!(g.turn, 1);
    assert_eq!(g.momentum, 1);
    assert_eq!(g.phase, Phase::Administration);
    assert!(matches!(g.screen, Screen::Title));
    assert_eq!(g.units.len(), 12);
    assert_eq!(g.log, vec!["Game started. Wagner forces in Rostov-On-Don.".to_string()]);
    assert_eq!(g.roadblocks, [None, None]);
    assert_eq!(g.cursor, 0);
    for m in g.mct.iter() {
        assert_eq!(m.step, 2);
    }
}

#[test]
fn new_game_cup_holds_every_item_once() {
    for _ in 0..20 {
        let g = GameState::new();
        assert_eq!(g.cup.len(), 8);
        assert_eq!(count(&g.cup, CupItem::PeopleAreSilent), 1);
        assert_eq!(count(&g.cup, CupItem::Roadblock2), 1);
        for id in [
            UnitId::MechanizedRegiment,
            UnitId::MotorizedInfantry,
            UnitId::ArmoredRegiment,
            UnitId::Akhmat,
            UnitId::Helicopters,
            UnitId::Mospol,
        ] {
            assert_eq!(count(&g.cup, CupItem::Unit(id)), 1);
        }
    }
}

#[test]
fn restart_gives_a_fresh_game() {
    let mut g = GameState::new();
    g.turn = 4;
    g.momentum = -2;
    g.units[RUSICH].location = None;
    g.restart();
    assert_eq!(g.turn, 1);
    assert_eq!(g.momentum, 1);
    assert_eq!(g.units[RUSICH].location, Some(Location::RostovOnDon));
    assert_eq!(g.log.len(), 1);
}

#[test]
fn record_prefixes_the_turn() {
    let mut g = GameState::new();
    g.turn = 3;
    g.record("Hello".to_string());
    assert_eq!(g.log.len(), 2);
    assert_eq!(g.log[1], "[Turn 3] Hello");
}

#[test]
fn lookups() {
    let g = GameState::new();
    assert_eq!(g.unit_index(UnitId::Akhmat), Some(AKHMAT));
    assert_eq!(g.find_unit(UnitId::Fsb).unwrap().location, Some(Location::Moscow));
    assert_eq!(g.units_at(Location::RostovOnDon), vec![0, 1, 2]);
    assert_eq!(g.units_at(Location::Moscow), vec![OMON, FSB, SOBR]);
    assert_eq!(g.wagner_units_at(Location::RostovOnDon), vec![0, 1, 2]);
    assert_eq!(g.russian_units_at(Location::Moscow), vec![OMON, FSB, SOBR]);
    assert!(g.russian_units_at(Location::RostovOnDon).is_empty());
    assert_eq!(g.wagner_locations(), vec![Location::RostovOnDon]);
    assert_eq!(g.russian_locations(), vec![Location::Moscow]);
    assert_eq!(g.moveable_unit_indices(), vec![0, 1, 2]);
    assert!(g.target_empty_of_russians(Location::Tula));
    assert!(!g.target_empty_of_russians(Location::Moscow));
    assert_eq!(g.mct_for(UnitId::Utkin).unwrap().step, 2);
    assert!(g.mct_for(UnitId::Fsb).is_none());
}

#[test]
fn locations_are_sorted_and_distinct() {
    let mut g = GameState::new();
    g.units[SERB].location = Some(Location::Voronezh);
    g.units[UTKIN].location = Some(Location::BugaevkaBorderPoint);
    assert_eq!(
        g.wagner_locations(),
        vec![Location::RostovOnDon, Location::BugaevkaBorderPoint, Location::Voronezh]
    );
}

#[test]
fn switched_counters_are_moveable_after_the_wagner_counters() {
    let mut g = GameState::new();
    g.units[MECH].side = Side::Wagner;
    g.units[MECH].location = Some(Location::Kaluga);
    g.units[UTKIN].location = None;
    assert_eq!(g.moveable_unit_indices(), vec![0, 2, MECH]);
}

#[test]
fn effective_strength_and_movement() {
    let mut g = GameState::new();
    assert_eq!(g.effective_sp(RUSICH), 2);
    assert_eq!(g.effective_sp(UTKIN), 3);
    assert_eq!(g.effective_sp(FSB), 2);
    assert_eq!(g.effective_mp(RUSICH), 2);
    assert_eq!(g.effective_mp(HELI), 4);
    g.mct[0].step = 0;
    assert_eq!(g.effective_sp(RUSICH), 4);
    assert_eq!(g.effective_mp(RUSICH), 0);
    g.units[FSB].is_reduced = true;
    assert_eq!(g.effective_sp(FSB), 1);
    g.units[UTKIN].mp_spent = 1;
    assert_eq!(g.mp_remaining(UTKIN), 1);
}

#[test]
fn move_costs() {
    let mut g = GameState::new();
    assert_eq!(g.move_cost(RUSICH, Location::RostovOnDon, Location::BugaevkaBorderPoint), Some(2));
    assert_eq!(g.move_cost(RUSICH, Location::BugaevkaBorderPoint, Location::Voronezh), Some(1));
    assert_eq!(g.move_cost(RUSICH, Location::RostovOnDon, Location::Moscow), None);
    assert_eq!(g.move_cost(HELI, Location::RostovOnDon, Location::BugaevkaBorderPoint), Some(1));
    g.roadblocks[0] = Some(Location::BugaevkaBorderPoint);
    assert_eq!(g.move_cost(RUSICH, Location::RostovOnDon, Location::BugaevkaBorderPoint), Some(3));
    assert_eq!(g.move_cost(FSB, Location::RostovOnDon, Location::BugaevkaBorderPoint), Some(2));
}

#[test]
fn can_move_errors() {
    let mut g = GameState::new();
    assert_eq!(g.can_move(MECH, Location::Moscow), Err("Unit is off the map.".to_string()));
    assert_eq!(g.can_move(RUSICH, Location::RostovOnDon), Err("Already there.".to_string()));
    assert_eq!(g.can_move(RUSICH, Location::Voronezh), Err("Locations not connected.".to_string()));
    assert_eq!(g.can_move(RUSICH, Location::BugaevkaBorderPoint), Ok(2));
    g.units[RUSICH].mp_spent = 1;
    assert_eq!(g.can_move(RUSICH, Location::BugaevkaBorderPoint), Err("Need 2 MP, have 1.".to_string()));
    g.units[FSB].location = Some(Location::BugaevkaBorderPoint);
    assert_eq!(
        g.can_move(UTKIN, Location::BugaevkaBorderPoint),
        Err("Enemy units occupy that location.".to_string())
    );
}

#[test]
fn move_unit_moves_and_logs() {
    let mut g = GameState::new();
    assert!(g.move_unit(RUSICH, Location::BugaevkaBorderPoint));
    assert_eq!(g.units[RUSICH].location, Some(Location::BugaevkaBorderPoint));
    assert_eq!(g.units[RUSICH].mp_spent, 2);
    assert_eq!(
        g.log.last().unwrap(),
        "[Turn 1] Rusich moved Rostov-On-Don \u{2192} Bugaevka B.P. (cost 2 [river +1]MP, 0 remaining)"
    );
    assert!(!g.move_unit(RUSICH, Location::Voronezh));
    assert_eq!(g.units[RUSICH].location, Some(Location::BugaevkaBorderPoint));
    assert_eq!(g.log.last().unwrap(), "[Turn 1] Cannot move: Need 1 MP, have 0.");
}

#[test]
fn move_unit_to_spends_the_total() {
    let mut g = GameState::new();
    g.mct[1].step = 4;
    assert!(!g.move_unit_to(UTKIN, Location::Voronezh, 5));
    assert_eq!(g.log.last().unwrap(), "[Turn 1] Not enough MP.");
    assert!(g.move_unit_to(UTKIN, Location::Voronezh, 3));
    assert_eq!(g.units[UTKIN].location, Some(Location::Voronezh));
    assert_eq!(g.mp_remaining(UTKIN), 1);
    assert_eq!(
        g.log.last().unwrap(),
        "[Turn 1] Utkin moved Rostov-On-Don \u{2192} Voronezh (cost 3 MP, 1 remaining)"
    );
    assert!(!g.move_unit_to(MECH, Location::Moscow, 1));
}

#[test]
fn reachable_locations_by_cost() {
    let mut g = GameState::new();
    assert_eq!(
        g.reachable_locations(RUSICH),
        vec![(Location::GroznyAkhmatBase, 2), (Location::BugaevkaBorderPoint, 2)]
    );
    g.mct[0].step = 4;
    assert_eq!(
        g.reachable_locations(RUSICH),
        vec![
            (Location::GroznyAkhmatBase, 2),
            (Location::BugaevkaBorderPoint, 2),
            (Location::Voronezh, 3),
            (Location::Lipetsk, 4),
            (Location::Tambov, 4)
        ]
    );
    g.units[FSB].location = Some(Location::Voronezh);
    assert_eq!(
        g.reachable_locations(RUSICH),
        vec![(Location::GroznyAkhmatBase, 2), (Location::BugaevkaBorderPoint, 2)]
    );
    assert!(g.reachable_locations(MECH).is_empty());
}

#[test]
fn flanking_and_opportunities() {
    let mut g = GameState::new();
    assert!(g.contact_opportunities().is_empty());
    g.units[FSB].location = Some(Location::Voronezh);
    g.units[RUSICH].location = Some(Location::BugaevkaBorderPoint);
    g.units[UTKIN].location = Some(Location::Lipetsk);
    g.units[SERB].location = Some(Location::Orel);
    assert_eq!(g.count_flanking(Location::BugaevkaBorderPoint, Location::Voronezh), 2);
    assert_eq!(g.count_flanking(Location::Lipetsk, Location::Voronezh), 2);
    g.units[SERB].location = Some(Location::RostovOnDon);
    assert_eq!(g.count_flanking(Location::BugaevkaBorderPoint, Location::Voronezh), 1);
    let opps = g.contact_opportunities();
    assert_eq!(
        opps,
        vec![
            (Location::BugaevkaBorderPoint, vec![Location::Voronezh]),
            (Location::Lipetsk, vec![Location::Voronezh])
        ]
    );
}

fn contact_setup() -> GameState {
    let mut g = GameState::new();
    g.units[RUSICH].location = Some(Location::BugaevkaBorderPoint);
    g.units[UTKIN].location = Some(Location::BugaevkaBorderPoint);
    g.units[FSB].location = Some(Location::Voronezh);
    g
}

#[test]
fn contact_repulses_defender() {
    let mut g = contact_setup();
    let o = g.resolve_contact_with_roll(&[RUSICH, UTKIN], Location::BugaevkaBorderPoint, Location::Voronezh, 4);
    assert_eq!(o.attack_sp, 5);
    assert_eq!(o.defend_sp, 2);
    assert_eq!(o.cd_adjusted, 4);
    assert_eq!(o.final_die, 5);
    assert_eq!(o.result, CrtResult::Rp);
    assert_eq!(g.units[FSB].location, Some(Location::Orel));
    assert!(g.log.iter().any(|l| l.starts_with("[Turn 1] Contact: Rusich, Utkin @ Bugaevka B.P.")));
}

#[test]
fn contact_log_lines() {
    let mut g = contact_setup();
    g.resolve_contact_with_roll(&[RUSICH, UTKIN], Location::BugaevkaBorderPoint, Location::Voronezh, 4);
    assert_eq!(
        g.log,
        vec![
            "Game started. Wagner forces in Rostov-On-Don.".to_string(),
            "[Turn 1] Contact: Rusich, Utkin @ Bugaevka B.P. \u{2192} Voronezh | ATK:5 DEF:2 | CD:+4 | Roll:4 DRM:+1 Final:5 | Rp"
                .to_string(),
            "[Turn 1] FSB retreated to Orel".to_string(),
        ]
    );
}

#[test]
fn routed_contact_log_lines() {
    let mut g = contact_setup();
    g.resolve_contact_with_roll(&[RUSICH, UTKIN], Location::BugaevkaBorderPoint, Location::Voronezh, 6);
    assert_eq!(g.log.len(), 3);
    assert_eq!(g.log[2], "[Turn 1] FSB ELIMINATED [R]");
}

#[test]
fn contact_without_effect() {
    let mut g = contact_setup();
    let o = g.resolve_contact_with_roll(&[RUSICH, UTKIN], Location::BugaevkaBorderPoint, Location::Voronezh, 1);
    assert_eq!(o.result, CrtResult::NE);
    assert_eq!(g.units[FSB].location, Some(Location::Voronezh));
    assert!(!g.russian_eliminated_this_turn);
}

#[test]
fn contact_routs_defender() {
    let mut g = contact_setup();
    let o = g.resolve_contact_with_roll(&[RUSICH, UTKIN], Location::BugaevkaBorderPoint, Location::Voronezh, 6);
    assert_eq!(o.result, CrtResult::R);
    assert_eq!(g.units[FSB].location, None);
    assert!(g.russian_eliminated_this_turn);
    assert!(g.target_empty_of_russians(Location::Voronezh));
    g.advance_units(&[RUSICH, UTKIN], Location::Voronezh);
    assert_eq!(g.units[RUSICH].location, Some(Location::Voronezh));
    assert_eq!(g.units[UTKIN].location, Some(Location::Voronezh));
}

#[test]
fn exchange_switches_switchable_defenders() {
    let mut g = GameState::new();
    g.units[RUSICH].location = Some(Location::BugaevkaBorderPoint);
    g.units[MECH].location = Some(Location::Voronezh);
    let o = g.resolve_contact_with_roll(&[RUSICH], Location::BugaevkaBorderPoint, Location::Voronezh, 6);
    assert_eq!(o.cd_adjusted, -3);
    assert_eq!(o.result, CrtResult::EX);
    assert_eq!(g.units[MECH].side, Side::Wagner);
    assert_eq!(g.units[MECH].location, Some(Location::BugaevkaBorderPoint));
    assert_eq!(g.units[RUSICH].location, None);
    assert!(g.wagner_eliminated_this_turn);
}

#[test]
fn random_contact_is_one_of_the_rolls() {
    for _ in 0..50 {
        let mut g = contact_setup();
        let o = g.resolve_contact(&[RUSICH, UTKIN], Location::BugaevkaBorderPoint, Location::Voronezh);
        assert!(o.die_roll >= 1 && o.die_roll <= 6);
        let mut h = contact_setup();
        let p = h.resolve_contact_with_roll(&[RUSICH, UTKIN], Location::BugaevkaBorderPoint, Location::Voronezh, o.die_roll);
        assert_eq!(o.result, p.result);
        assert_eq!(g.units[FSB].location, h.units[FSB].location);
    }
}

#[test]
fn status_message_ticks_away() {
    let mut g = GameState::new();
    g.flash_message("Hi".to_string());
    assert_eq!(g.status_message, Some("Hi".to_string()));
    assert_eq!(g.status_timer, 20);
    for _ in 0..19 {
        g.tick_status();
    }
    assert_eq!(g.status_timer, 1);
    assert!(g.status_message.is_some());
    g.tick_status();
    assert_eq!(g.status_timer, 0);
    assert!(g.status_message.is_none());
    g.tick_status();
    assert_eq!(g.status_timer, 0);
}

#[test]
fn wagner_victory_needs_moscow_and_a_clear_m4() {
    let mut g = GameState::new();
    assert!(!g.check_wagner_victory());
    g.units[RUSICH].location = Some(Location::Moscow);
    g.units[OMON].location = None;
    g.units[FSB].location = None;
    g.units[SOBR].location = None;
    assert!(g.check_wagner_victory());
    g.units[FSB].location = Some(Location::Tula);
    assert!(!g.check_wagner_victory());
    g.units[FSB].location = Some(Location::Kaluga);
    assert!(g.check_wagner_victory());
}

#[test]
fn exchange_also_reduces_the_strongest_defender_that_stays() {
    let mut g = GameState::new();
    g.units[RUSICH].location = Some(Location::BugaevkaBorderPoint);
    g.units[UTKIN].location = Some(Location::BugaevkaBorderPoint);
    g.units[MECH].location = Some(Location::Voronezh);
    g.units[FSB].location = Some(Location::Voronezh);
    let o = g.resolve_contact_with_roll(&[RUSICH, UTKIN], Location::BugaevkaBorderPoint, Location::Voronezh, 5);
    assert_eq!(o.cd_adjusted, -1);
    assert_eq!(o.final_die, 6);
    assert_eq!(o.result, CrtResult::EX);
    assert_eq!(g.units[MECH].side, Side::Wagner);
    assert_eq!(g.units[MECH].location, Some(Location::BugaevkaBorderPoint));
    assert!(
        (g.units[FSB].is_reduced && g.units[FSB].location == Some(Location::Voronezh))
            || g.units[FSB].location.is_none()
    );
    assert!(g.russian_reduced_this_turn || g.russian_eliminated_this_turn);
    assert!(g.wagner_reduced_this_turn || g.wagner_eliminated_this_turn);
}
