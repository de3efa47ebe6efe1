use pmj::map::Location;
use pmj::mct::{mct_step, mct_track, MctMarker, MCT_MAX, MCT_MIN, MCT_START};
use pmj::units::{create_all_units, Side, UnitId};

#[test]
fn unit_names_and_labels() {
    assert_eq!(UnitId::Rusich.name(), "Rusich");
    assert_eq!(UnitId::MechanizedRegiment.name(), "Mech Regiment");
    assert_eq!(UnitId::Mospol.name(), "MOSpol");
    assert_eq!(UnitId::Fsb.short(), "FSB ");
    assert_eq!(UnitId::Helicopters.short(), "HELI");
    assert_eq!(UnitId::Rusich.nato_symbol(), 'R');
    assert_eq!(UnitId::ArmoredRegiment.nato_symbol(), '\u{25c7}');
    assert_eq!(UnitId::Sobr.nato_symbol(), '\u{2588}');
    assert!(UnitId::Serb.is_wagner());
    assert!(!UnitId::Akhmat.is_wagner());
    assert_eq!(UnitId::wagner_units(), &[UnitId::Rusich, UnitId::Utkin, UnitId::Serb]);
}

#[test]
fn manifest() {
    let units = create_all_units();
    assert_eq!(units.len(), 12);
    assert_eq!(units[0].id, UnitId::Rusich);
    assert_eq!(units[1].base_sp, 2);
    assert_eq!(units[0].location, Some(Location::RostovOnDon));
    assert_eq!(units[3].id, UnitId::MechanizedRegiment);
    assert!(units[3].switchable && units[3].in_cup);
    assert_eq!(units[3].location, None);
    assert_eq!(units[6].id, UnitId::Omon);
    assert!(units[6].police);
    assert_eq!(units[6].location, Some(Location::Moscow));
    assert_eq!(units[9].id, UnitId::Helicopters);
    assert_eq!(units[9].base_mp, 4);
    assert_eq!(units[11].id, UnitId::Mospol);
    let wagner = units.iter().filter(|u| u.side == Side::Wagner).count();
    assert_eq!(wagner, 3);
    let in_cup = units.iter().filter(|u| u.in_cup).count();
    assert_eq!(in_cup, 6);
    for u in &units {
        assert_eq!(u.mp_spent, 0);
        assert!(!u.is_reduced && !u.dispersed);
    }
}

#[test]
fn strength_and_reduction() {
    let units = create_all_units();
    let mut fsb = units[8];
    assert_eq!(fsb.current_sp(), 2);
    assert!(fsb.step_reduce());
    assert!(fsb.is_reduced);
    assert_eq!(fsb.current_sp(), 1);
    assert_eq!(fsb.location, Some(Location::Moscow));
    assert!(!fsb.step_reduce());
    assert_eq!(fsb.location, None);
    assert!(!fsb.is_reduced);

    let mut mospol = units[11];
    mospol.is_reduced = true;
    assert_eq!(mospol.current_sp(), 1);

    let mut heli = units[9];
    heli.is_reduced = true;
    assert_eq!(heli.current_sp(), 2);
    assert!(heli.is_helicopter());
    assert!(!units[0].is_helicopter());

    let mut rusich = units[0];
    assert!(rusich.is_wagner() && rusich.is_on_map());
    assert!(!rusich.step_reduce());
    assert!(!rusich.is_on_map());

    let mut sobr = units[10];
    sobr.dispersed = true;
    sobr.is_reduced = true;
    sobr.eliminate();
    assert_eq!(sobr.location, None);
    assert!(!sobr.is_reduced && !sobr.dispersed);

    let mut u = units[1];
    u.mp_spent = 3;
    u.reset_mp();
    assert_eq!(u.mp_spent, 0);
}

#[test]
fn maneuver_combat_track() {
    let t = mct_track();
    assert_eq!(t.len(), 5);
    assert_eq!((t[0].sp_mod, t[0].mp), (3, 0));
    assert_eq!((t[2].sp_mod, t[2].mp), (1, 2));
    assert_eq!((t[4].sp_mod, t[4].mp), (0, 4));
    for i in 0..5 {
        assert_eq!(mct_step(i).sp_mod, t[i].sp_mod);
        assert_eq!(mct_step(i).mp, t[i].mp);
    }
    assert_eq!(MCT_START, 2);
    assert_eq!(MCT_MIN, 0);
    assert_eq!(MCT_MAX, 4);
}

#[test]
fn marker_shifts_and_label() {
    let mut m = MctMarker::new();
    assert_eq!(m.step, 2);
    assert_eq!(m.sp_mod(), 1);
    assert_eq!(m.mp(), 2);
    assert_eq!(m.label(), "SP+1 / MP 2");
    assert!(m.shift_up());
    assert_eq!(m.label(), "SP+2 / MP 1");
    assert!(m.shift_up());
    assert_eq!(m.step, 0);
    assert!(!m.shift_up());
    assert_eq!(m.step, 0);
    assert_eq!(m.current().sp_mod, 3);
    for _ in 0..4 {
        assert!(m.shift_down());
    }
    assert!(!m.shift_down());
    assert_eq!(m.step, 4);
    assert_eq!(m.label(), "SP+0 / MP 4");
}

#[test]
fn marker_round_trip_and_trade() {
    for start in 0..5usize {
        let mut m = MctMarker { step: start };
        let before = m.step;
        if m.shift_up() {
            assert!(m.shift_down());
            assert_eq!(m.step, before);
        }
        let mut n = MctMarker { step: start };
        if n.shift_down() {
            assert!(n.sp_mod() <= MctMarker { step: start }.sp_mod());
            assert!(n.mp() > MctMarker { step: start }.mp());
            assert!(n.shift_up());
            assert_eq!(n.step, start);
        }
        assert!(m.step <= MCT_MAX && n.step <= MCT_MAX);
    }
}
