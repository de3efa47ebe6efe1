use pmj::combat::{force_ratio_shift, lookup_crt, resolve_contact, resolve_contact_with_roll, CrtResult};

fn rank(r: CrtResult) -> i32 {
    match r {
        CrtResult::AR => 0,
        CrtResult::Ar => 1,
        CrtResult::EX => 2,
        CrtResult::NE => 3,
        CrtResult::Rp => 4,
        CrtResult::R => 5,
        CrtResult::S => 6,
    }
}

#[test]
fn result_names_codes_descriptions() {
    assert_eq!(CrtResult::AR.name(), "ATTACKER ROUTED");
    assert_eq!(CrtResult::Ar.name(), "Attacker Repulsed");
    assert_eq!(CrtResult::S.name(), "SURRENDER");
    assert_eq!(CrtResult::AR.code(), "AR");
    assert_eq!(CrtResult::Rp.code(), "Rp");
    assert_eq!(CrtResult::R.code(), "R");
    assert_eq!(CrtResult::NE.description(), "No changes.");
    assert_eq!(CrtResult::Ar.description(), "All attacking units retreat toward HL.");
}

#[test]
fn crt_lookups() {
    assert_eq!(lookup_crt(3, 0), CrtResult::EX);
    assert_eq!(lookup_crt(0, 6), CrtResult::NE);
    assert_eq!(lookup_crt(1, 6), CrtResult::Rp);
    assert_eq!(lookup_crt(4, 6), CrtResult::R);
    assert_eq!(lookup_crt(6, 6), CrtResult::S);
    assert_eq!(lookup_crt(5, -6), CrtResult::AR);
    assert_eq!(lookup_crt(6, -6), CrtResult::Ar);
    assert_eq!(lookup_crt(5, 4), CrtResult::Rp);
    assert_eq!(lookup_crt(2, 4), CrtResult::NE);
}

#[test]
fn crt_clamps_rows_and_columns() {
    assert_eq!(lookup_crt(-5, -20), CrtResult::AR);
    assert_eq!(lookup_crt(-1, 0), lookup_crt(0, 0));
    assert_eq!(lookup_crt(12, 0), lookup_crt(7, 0));
    assert_eq!(lookup_crt(9, 9), CrtResult::S);
    assert_eq!(lookup_crt(3, 100), lookup_crt(3, 6));
    assert_eq!(lookup_crt(3, -100), lookup_crt(3, -6));
}

#[test]
fn crt_is_monotone_in_roll_and_column() {
    for roll in -2..10 {
        for col in -8..8 {
            assert!(rank(lookup_crt(roll, col)) <= rank(lookup_crt(roll + 1, col)));
            assert!(rank(lookup_crt(roll, col)) <= rank(lookup_crt(roll, col + 1)));
        }
    }
}

#[test]
fn force_ratio_bands() {
    assert_eq!(force_ratio_shift(4, 1), 3);
    assert_eq!(force_ratio_shift(9, 2), 3);
    assert_eq!(force_ratio_shift(3, 1), 2);
    assert_eq!(force_ratio_shift(7, 2), 2);
    assert_eq!(force_ratio_shift(2, 1), 1);
    assert_eq!(force_ratio_shift(5, 2), 1);
    assert_eq!(force_ratio_shift(3, 2), 0);
    assert_eq!(force_ratio_shift(1, 1), -1);
    assert_eq!(force_ratio_shift(4, 3), -1);
    assert_eq!(force_ratio_shift(1, 2), -2);
    assert_eq!(force_ratio_shift(1, 3), -3);
    assert_eq!(force_ratio_shift(0, 1), -3);
    assert_eq!(force_ratio_shift(5, 0), 3);
    assert_eq!(force_ratio_shift(0, -2), -3);
    assert_eq!(force_ratio_shift(0, 0), -3);
}

#[test]
fn force_ratio_matches_float_ratio() {
    for a in 0..40 {
        for d in 1..40 {
            let ratio = a as f64 / d as f64;
            let expected = if ratio >= 4.0 {
                3
            } else if ratio >= 3.0 {
                2
            } else if ratio >= 2.0 {
                1
            } else if ratio >= 1.5 {
                0
            } else if ratio >= 1.0 {
                -1
            } else if ratio >= 0.5 {
                -2
            } else {
                -3
            };
            assert_eq!(force_ratio_shift(a, d), expected);
        }
    }
}

#[test]
fn force_ratio_is_monotone_in_attack() {
    for d in 1..20 {
        for a in 0..60 {
            assert!(force_ratio_shift(a, d) <= force_ratio_shift(a + 1, d));
        }
    }
}

#[test]
fn contact_with_roll_breakdown() {
    let o = resolve_contact_with_roll(5, 2, 1, true, false, 1, false, 4);
    assert_eq!(o.attack_sp, 5);
    assert_eq!(o.defend_sp, 2);
    assert_eq!(o.cd_raw, 3);
    assert_eq!(o.fr_shift, 1);
    assert_eq!(o.cd_adjusted, 4);
    assert_eq!(o.drms.len(), 3);
    assert_eq!(o.drms[0].label, "Momentum");
    assert_eq!(o.drms[0].value, 1);
    assert_eq!(o.drms[1].label, "River crossing");
    assert_eq!(o.drms[1].value, -1);
    assert_eq!(o.drms[2].label, "Flanking");
    assert_eq!(o.drms[2].value, 1);
    assert_eq!(o.drm_total, 1);
    assert_eq!(o.die_roll, 4);
    assert_eq!(o.final_die, 5);
    assert_eq!(o.result, CrtResult::Rp);
}

#[test]
fn contact_modifiers() {
    let o = resolve_contact_with_roll(3, 3, -2, true, true, 5, true, 6);
    assert_eq!(o.drms.len(), 3);
    assert_eq!(o.drms[0].label, "Momentum");
    assert_eq!(o.drms[1].label, "Moscow defense");
    assert_eq!(o.drms[1].value, -2);
    assert_eq!(o.drms[2].label, "Flanking");
    assert_eq!(o.drms[2].value, 2);
    assert_eq!(o.drm_total, -2);
    assert_eq!(o.final_die, 4);
    assert_eq!(o.cd_adjusted, -1);
    assert_eq!(o.result, lookup_crt(4, -1));
    let p = resolve_contact_with_roll(3, 3, 0, false, false, 0, false, 2);
    assert_eq!(p.drms.len(), 1);
    assert_eq!(p.drm_total, 0);
}

#[test]
fn random_contact_rolls_one_die() {
    for _ in 0..200 {
        let o = resolve_contact(4, 2, 0, false, false, 0, false);
        assert!(o.die_roll >= 1 && o.die_roll <= 6);
        let same = resolve_contact_with_roll(4, 2, 0, false, false, 0, false, o.die_roll);
        assert_eq!(o.result, same.result);
        assert_eq!(o.final_die, same.final_die);
    }
}
