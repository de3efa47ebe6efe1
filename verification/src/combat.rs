//! Contact resolution: the Contact Result Table, force ratio shifts and
//! die roll modifiers (rulebook 6.2 to 6.2.4).

use vstd::prelude::*;
use vstd::string::*;

use crate::dice::roll_d6;

verus! {

/// CRT result codes per rulebook 6.2.2.
#[derive(Debug, Clone, Copy, PartialEq, Eq, Structural)]
pub enum CrtResult {
    /// Attacker Routed
    AR,
    /// Attacker Repulsed
    Ar,
    /// Exchange
    EX,
    /// No Effect
    NE,
    /// Repulsed (defender retreats)
    Rp,
    /// Routed (highest defender eliminated, rest retreat)
    R,
    /// Surrender (highest defender permanently removed)
    S,
}

pub open spec fn spec_crt_name(r: CrtResult) -> Seq<char> {
    match r {
        CrtResult::AR => "ATTACKER ROUTED"@,
        CrtResult::Ar => "Attacker Repulsed"@,
        CrtResult::EX => "Exchange"@,
        CrtResult::NE => "No Effect"@,
        CrtResult::Rp => "Repulsed"@,
        CrtResult::R => "ROUTED"@,
        CrtResult::S => "SURRENDER"@,
    }
}

pub open spec fn spec_crt_code(r: CrtResult) -> Seq<char> {
    match r {
        CrtResult::AR => "AR"@,
        CrtResult::Ar => "Ar"@,
        CrtResult::EX => "EX"@,
        CrtResult::NE => "NE"@,
        CrtResult::Rp => "Rp"@,
        CrtResult::R => "R"@,
        CrtResult::S => "S"@,
    }
}

pub open spec fn spec_crt_description(r: CrtResult) -> Seq<char> {
    match r {
        CrtResult::AR => "Highest SP attacker eliminated, rest retreat."@,
        CrtResult::Ar => "All attacking units retreat toward HL."@,
        CrtResult::EX => "Both sides step-reduce highest SP unit. Switchable units switch sides."@,
        CrtResult::NE => "No changes."@,
        CrtResult::Rp => "Defenders retreat (or step-reduce in Moscow)."@,
        CrtResult::R => "Highest SP defender eliminated, rest retreat."@,
        CrtResult::S => "Highest SP defender permanently removed, rest retreat. Switchable units switch."@,
    }
}

impl CrtResult {
    pub fn name(&self) -> (r: &'static str)
        ensures
            r@ == spec_crt_name(*self),
    {
        match self {
            CrtResult::AR => "ATTACKER ROUTED",
            CrtResult::Ar => "Attacker Repulsed",
            CrtResult::EX => "Exchange",
            CrtResult::NE => "No Effect",
            CrtResult::Rp => "Repulsed",
            CrtResult::R => "ROUTED",
            CrtResult::S => "SURRENDER",
        }
    }

    pub fn code(&self) -> (r: &'static str)
        ensures
            r@ == spec_crt_code(*self),
    {
        match self {
            CrtResult::AR => "AR",
            CrtResult::Ar => "Ar",
            CrtResult::EX => "EX",
            CrtResult::NE => "NE",
            CrtResult::Rp => "Rp",
            CrtResult::R => "R",
            CrtResult::S => "S",
        }
    }

    pub fn description(&self) -> (r: &'static str)
        ensures
            r@ == spec_crt_description(*self),
    {
        match self {
            CrtResult::AR => "Highest SP attacker eliminated, rest retreat.",
            CrtResult::Ar => "All attacking units retreat toward HL.",
            CrtResult::EX => "Both sides step-reduce highest SP unit. Switchable units switch sides.",
            CrtResult::NE => "No changes.",
            CrtResult::Rp => "Defenders retreat (or step-reduce in Moscow).",
            CrtResult::R => "Highest SP defender eliminated, rest retreat.",
            CrtResult::S => "Highest SP defender permanently removed, rest retreat. Switchable units switch.",
        }
    }
}

/// Contact Result Table, row `row` (die roll 0 = "0 or less" to 7 = "7+").
/// Columns run over the Contact Differential from -6 (index 0) to +6
/// (index 12).
pub open spec fn spec_crt_row(row: int) -> Seq<CrtResult> {
    if row == 0 {
        seq![CrtResult::AR, CrtResult::AR, CrtResult::AR, CrtResult::AR, CrtResult::AR, CrtResult::AR, CrtResult::Ar, CrtResult::Ar, CrtResult::Ar, CrtResult::EX, CrtResult::EX, CrtResult::EX, CrtResult::NE]
    } else if row == 1 {
        seq![CrtResult::AR, CrtResult::AR, CrtResult::AR, CrtResult::AR, CrtResult::AR, CrtResult::Ar, CrtResult::Ar, CrtResult::Ar, CrtResult::EX, CrtResult::EX, CrtResult::EX, CrtResult::NE, CrtResult::Rp]
    } else if row == 2 {
        seq![CrtResult::AR, CrtResult::AR, CrtResult::AR, CrtResult::AR, CrtResult::Ar, CrtResult::Ar, CrtResult::Ar, CrtResult::EX, CrtResult::EX, CrtResult::EX, CrtResult::NE, CrtResult::Rp, CrtResult::Rp]
    } else if row == 3 {
        seq![CrtResult::AR, CrtResult::AR, CrtResult::AR, CrtResult::Ar, CrtResult::Ar, CrtResult::Ar, CrtResult::EX, CrtResult::EX, CrtResult::EX, CrtResult::NE, CrtResult::Rp, CrtResult::Rp, CrtResult::Rp]
    } else if row == 4 {
        seq![CrtResult::AR, CrtResult::AR, CrtResult::Ar, CrtResult::Ar, CrtResult::Ar, CrtResult::EX, CrtResult::EX, CrtResult::EX, CrtResult::NE, CrtResult::Rp, CrtResult::Rp, CrtResult::Rp, CrtResult::R]
    } else if row == 5 {
        seq![CrtResult::AR, CrtResult::Ar, CrtResult::Ar, CrtResult::Ar, CrtResult::EX, CrtResult::EX, CrtResult::EX, CrtResult::NE, CrtResult::Rp, CrtResult::Rp, CrtResult::Rp, CrtResult::R, CrtResult::R]
    } else if row == 6 {
        seq![CrtResult::Ar, CrtResult::Ar, CrtResult::Ar, CrtResult::EX, CrtResult::EX, CrtResult::EX, CrtResult::NE, CrtResult::Rp, CrtResult::Rp, CrtResult::Rp, CrtResult::R, CrtResult::R, CrtResult::S]
    } else {
        seq![CrtResult::Ar, CrtResult::Ar, CrtResult::EX, CrtResult::EX, CrtResult::EX, CrtResult::NE, CrtResult::Rp, CrtResult::Rp, CrtResult::Rp, CrtResult::R, CrtResult::R, CrtResult::S, CrtResult::S]
    }
}

pub open spec fn clamp(v: int, lo: int, hi: int) -> int {
    if v < lo {
        lo
    } else if v > hi {
        hi
    } else {
        v
    }
}

/// The CRT entry for a final die roll and a Contact Differential column.
pub open spec fn spec_lookup_crt(die_roll: int, cd_column: int) -> CrtResult {
    spec_crt_row(clamp(die_roll, 0, 7))[clamp(cd_column, -6, 6) + 6]
}

fn crt_row(row: usize) -> (r: [CrtResult; 13])
    requires
        row <= 7,
    ensures
        r@ == spec_crt_row(row as int),
{
    if row == 0 {
        [CrtResult::AR, CrtResult::AR, CrtResult::AR, CrtResult::AR, CrtResult::AR, CrtResult::AR, CrtResult::Ar, CrtResult::Ar, CrtResult::Ar, CrtResult::EX, CrtResult::EX, CrtResult::EX, CrtResult::NE]
    } else if row == 1 {
        [CrtResult::AR, CrtResult::AR, CrtResult::AR, CrtResult::AR, CrtResult::AR, CrtResult::Ar, CrtResult::Ar, CrtResult::Ar, CrtResult::EX, CrtResult::EX, CrtResult::EX, CrtResult::NE, CrtResult::Rp]
    } else if row == 2 {
        [CrtResult::AR, CrtResult::AR, CrtResult::AR, CrtResult::AR, CrtResult::Ar, CrtResult::Ar, CrtResult::Ar, CrtResult::EX, CrtResult::EX, CrtResult::EX, CrtResult::NE, CrtResult::Rp, CrtResult::Rp]
    } else if row == 3 {
        [CrtResult::AR, CrtResult::AR, CrtResult::AR, CrtResult::Ar, CrtResult::Ar, CrtResult::Ar, CrtResult::EX, CrtResult::EX, CrtResult::EX, CrtResult::NE, CrtResult::Rp, CrtResult::Rp, CrtResult::Rp]
    } else if row == 4 {
        [CrtResult::AR, CrtResult::AR, CrtResult::Ar, CrtResult::Ar, CrtResult::Ar, CrtResult::EX, CrtResult::EX, CrtResult::EX, CrtResult::NE, CrtResult::Rp, CrtResult::Rp, CrtResult::Rp, CrtResult::R]
    } else if row == 5 {
        [CrtResult::AR, CrtResult::Ar, CrtResult::Ar, CrtResult::Ar, CrtResult::EX, CrtResult::EX, CrtResult::EX, CrtResult::NE, CrtResult::Rp, CrtResult::Rp, CrtResult::Rp, CrtResult::R, CrtResult::R]
    } else if row == 6 {
        [CrtResult::Ar, CrtResult::Ar, CrtResult::Ar, CrtResult::EX, CrtResult::EX, CrtResult::EX, CrtResult::NE, CrtResult::Rp, CrtResult::Rp, CrtResult::Rp, CrtResult::R, CrtResult::R, CrtResult::S]
    } else {
        [CrtResult::Ar, CrtResult::Ar, CrtResult::EX, CrtResult::EX, CrtResult::EX, CrtResult::NE, CrtResult::Rp, CrtResult::Rp, CrtResult::Rp, CrtResult::R, CrtResult::R, CrtResult::S, CrtResult::S]
    }
}

/// Look up the CRT given a final die roll and Contact Differential column.
pub fn lookup_crt(die_roll: i32, cd_column: i32) -> (r: CrtResult)
    ensures
        r == spec_lookup_crt(die_roll as int, cd_column as int),
{
    let row: usize = if die_roll < 0 {
        0
    } else if die_roll > 7 {
        7
    } else {
        die_roll as usize
    };
    let col: usize = if cd_column < -6 {
        0
    } else if cd_column > 6 {
        12
    } else {
        (cd_column + 6) as usize
    };
    let table_row = crt_row(row);
    table_row[col]
}

/// Force Ratio Column Shift (rulebook 6.2.3.1): negative shifts are to the
/// left (bad for the attacker), positive to the right.  The ratio bands
/// 4:1, 3:1, 2:1, 1.5:1, 1:1 and 1:2 are compared exactly, by
/// cross-multiplication.  An attack of no strength gets the full left
/// shift; an attack on no defending strength the full right shift.
pub open spec fn spec_force_ratio_shift(attack_sp: int, defend_sp: int) -> int {
    if attack_sp <= 0 {
        -3
    } else if defend_sp <= 0 {
        3
    } else if attack_sp >= 4 * defend_sp {
        3
    } else if attack_sp >= 3 * defend_sp {
        2
    } else if attack_sp >= 2 * defend_sp {
        1
    } else if 2 * attack_sp >= 3 * defend_sp {
        0
    } else if attack_sp >= defend_sp {
        -1
    } else if 2 * attack_sp >= defend_sp {
        -2
    } else {
        -3
    }
}

/// Force Ratio Column Shift (rulebook 6.2.3.1).
pub fn force_ratio_shift(attack_sp: i32, defend_sp: i32) -> (r: i32)
    ensures
        r == spec_force_ratio_shift(attack_sp as int, defend_sp as int),
{
    if attack_sp <= 0 {
        return -3;
    }
    if defend_sp <= 0 {
        return 3;
    }
    let a = attack_sp as i64;
    let d = defend_sp as i64;
    if a >= 4 * d {
        3
    } else if a >= 3 * d {
        2
    } else if a >= 2 * d {
        1
    } else if 2 * a >= 3 * d {
        0
    } else if a >= d {
        -1
    } else if 2 * a >= d {
        -2
    } else {
        -3
    }
}

/// A die roll modifier, for display.
#[derive(Debug, Clone)]
pub struct DrmEntry {
    pub label: String,
    pub value: i32,
}

/// Full breakdown of a contact resolution.
#[derive(Debug, Clone)]
pub struct ContactOutcome {
    pub attack_sp: i32,
    pub defend_sp: i32,
    pub cd_raw: i32,
    pub fr_shift: i32,
    pub cd_adjusted: i32,
    pub drms: Vec<DrmEntry>,
    pub drm_total: i32,
    pub die_roll: i32,
    pub final_die: i32,
    pub result: CrtResult,
}

/// The flanking modifier: +1 per extra location, at most +2.
pub open spec fn spec_flank_drm(flanking_count: int) -> int {
    if flanking_count < 2 {
        flanking_count
    } else {
        2
    }
}

/// The die roll modifiers that apply, in order, as (label, value).
pub open spec fn spec_drms(
    momentum: int,
    river_crossing: bool,
    attacking_moscow: bool,
    flanking_count: int,
    has_helicopter_only: bool,
) -> Seq<(Seq<char>, int)> {
    let s0 = seq![("Momentum"@, momentum)];
    let s1 = if river_crossing && !has_helicopter_only {
        s0.push(("River crossing"@, -1))
    } else {
        s0
    };
    let s2 = if attacking_moscow {
        s1.push(("Moscow defense"@, -2))
    } else {
        s1
    };
    if spec_flank_drm(flanking_count) > 0 {
        s2.push(("Flanking"@, spec_flank_drm(flanking_count)))
    } else {
        s2
    }
}

/// Sum of the die roll modifiers.
pub open spec fn spec_drm_total(
    momentum: int,
    river_crossing: bool,
    attacking_moscow: bool,
    flanking_count: int,
    has_helicopter_only: bool,
) -> int {
    momentum + (if river_crossing && !has_helicopter_only {
        -1int
    } else {
        0int
    }) + (if attacking_moscow {
        -2int
    } else {
        0int
    }) + (if spec_flank_drm(flanking_count) > 0 {
        spec_flank_drm(flanking_count)
    } else {
        0
    })
}

/// The arithmetic of a contact stays within `i32` for every die roll.
pub open spec fn contact_in_range(
    attack_sp: int,
    defend_sp: int,
    momentum: int,
    river_crossing: bool,
    attacking_moscow: bool,
    flanking_count: int,
    has_helicopter_only: bool,
) -> bool {
    let cd = attack_sp - defend_sp;
    let total = spec_drm_total(momentum, river_crossing, attacking_moscow, flanking_count, has_helicopter_only);
    &&& i32::MIN <= cd <= i32::MAX
    &&& i32::MIN <= cd + spec_force_ratio_shift(attack_sp, defend_sp) <= i32::MAX
    &&& i32::MIN <= momentum - 3
    &&& total + 6 <= i32::MAX
}

/// What a contact yields for a given die roll.
pub open spec fn outcome_matches(
    r: ContactOutcome,
    attack_sp: int,
    defend_sp: int,
    momentum: int,
    river_crossing: bool,
    attacking_moscow: bool,
    flanking_count: int,
    has_helicopter_only: bool,
    die_roll: int,
) -> bool {
    let total = spec_drm_total(momentum, river_crossing, attacking_moscow, flanking_count, has_helicopter_only);
    let cd_adj = attack_sp - defend_sp + spec_force_ratio_shift(attack_sp, defend_sp);
    &&& r.attack_sp == attack_sp
    &&& r.defend_sp == defend_sp
    &&& r.cd_raw == attack_sp - defend_sp
    &&& r.fr_shift == spec_force_ratio_shift(attack_sp, defend_sp)
    &&& r.cd_adjusted == cd_adj
    &&& r.drms@.map_values(|d: DrmEntry| (d.label@, d.value as int)) == spec_drms(
        momentum,
        river_crossing,
        attacking_moscow,
        flanking_count,
        has_helicopter_only,
    )
    &&& r.drm_total == total
    &&& r.die_roll == die_roll
    &&& r.final_die == die_roll + total
    &&& r.result == spec_lookup_crt(die_roll + total, cd_adj)
}

/// Contact resolution for a given die roll; does not apply results to
/// units.
pub fn resolve_contact_with_roll(
    attack_sp: i32,
    defend_sp: i32,
    momentum: i32,
    river_crossing: bool,
    attacking_moscow: bool,
    flanking_count: i32,
    has_helicopter_only: bool,
    die_roll: i32,
) -> (r: ContactOutcome)
    requires
        contact_in_range(
            attack_sp as int,
            defend_sp as int,
            momentum as int,
            river_crossing,
            attacking_moscow,
            flanking_count as int,
            has_helicopter_only,
        ),
        1 <= die_roll <= 6,
    ensures
        outcome_matches(
            r,
            attack_sp as int,
            defend_sp as int,
            momentum as int,
            river_crossing,
            attacking_moscow,
            flanking_count as int,
            has_helicopter_only,
            die_roll as int,
        ),
{
    let cd_raw = attack_sp - defend_sp;
    let fr_shift = force_ratio_shift(attack_sp, defend_sp);
    let cd_adjusted = cd_raw + fr_shift;

    let mut drms: Vec<DrmEntry> = Vec::new();
    let mut drm_total: i32 = 0;

    drms.push(DrmEntry { label: String::from_str("Momentum"), value: momentum });
    drm_total = drm_total + momentum;

    if river_crossing && !has_helicopter_only {
        drms.push(DrmEntry { label: String::from_str("River crossing"), value: -1 });
        drm_total = drm_total - 1;
    }
    if attacking_moscow {
        drms.push(DrmEntry { label: String::from_str("Moscow defense"), value: -2 });
        drm_total = drm_total - 2;
    }
    let flank_drm: i32 = if flanking_count < 2 {
        flanking_count
    } else {
        2
    };
    if flank_drm > 0 {
        drms.push(DrmEntry { label: String::from_str("Flanking"), value: flank_drm });
        drm_total = drm_total + flank_drm;
    }

    let final_die = die_roll + drm_total;
    let result = lookup_crt(final_die, cd_adjusted);
    proof {
        assert(drms@.map_values(|d: DrmEntry| (d.label@, d.value as int)) =~= spec_drms(
            momentum as int,
            river_crossing,
            attacking_moscow,
            flanking_count as int,
            has_helicopter_only,
        ));
    }
    ContactOutcome {
        attack_sp,
        defend_sp,
        cd_raw,
        fr_shift,
        cd_adjusted,
        drms,
        drm_total,
        die_roll,
        final_die,
        result,
    }
}

/// Calculate contact resolution, rolling one six-sided die.
/// Does NOT apply results to units: the caller handles that.
pub fn resolve_contact(
    attack_sp: i32,
    defend_sp: i32,
    momentum: i32,
    river_crossing: bool,
    attacking_moscow: bool,
    flanking_count: i32,
    has_helicopter_only: bool,
) -> (r: ContactOutcome)
    requires
        contact_in_range(
            attack_sp as int,
            defend_sp as int,
            momentum as int,
            river_crossing,
            attacking_moscow,
            flanking_count as int,
            has_helicopter_only,
        ),
    ensures
        1 <= r.die_roll <= 6,
        outcome_matches(
            r,
            attack_sp as int,
            defend_sp as int,
            momentum as int,
            river_crossing,
            attacking_moscow,
            flanking_count as int,
            has_helicopter_only,
            r.die_roll as int,
        ),
{
    let die_roll = roll_d6();
    resolve_contact_with_roll(
        attack_sp,
        defend_sp,
        momentum,
        river_crossing,
        attacking_moscow,
        flanking_count,
        has_helicopter_only,
        die_roll,
    )
}

/// Ranks results from worst to best for the attacker.
pub open spec fn crt_rank(r: CrtResult) -> int {
    match r {
        CrtResult::AR => 0,
        CrtResult::Ar => 1,
        CrtResult::EX => 2,
        CrtResult::NE => 3,
        CrtResult::Rp => 4,
        CrtResult::R => 5,
        CrtResult::S => 6,
    }
}

/// The table's diagonals: each entry depends only on row + column.
pub open spec fn crt_by_diagonal(s: int) -> CrtResult {
    if s <= 5 {
        CrtResult::AR
    } else if s <= 8 {
        CrtResult::Ar
    } else if s <= 11 {
        CrtResult::EX
    } else if s == 12 {
        CrtResult::NE
    } else if s <= 15 {
        CrtResult::Rp
    } else if s <= 17 {
        CrtResult::R
    } else {
        CrtResult::S
    }
}

proof fn lemma_crt_row_diagonal(row: int)
    requires
        0 <= row < 8,
    ensures
        spec_crt_row(row).len() == 13,
        forall|col: int| 0 <= col < 13 ==> #[trigger] spec_crt_row(row)[col] == crt_by_diagonal(row + col),
{
    let r = spec_crt_row(row);
    assert forall|col: int| 0 <= col < 13 implies #[trigger] r[col] == crt_by_diagonal(row + col) by {
        if col == 0 {} else if col == 1 {} else if col == 2 {} else if col == 3 {} else if col == 4 {}
        else if col == 5 {} else if col == 6 {} else if col == 7 {} else if col == 8 {}
        else if col == 9 {} else if col == 10 {} else if col == 11 {} else {}
    }
}

/// Every CRT entry lies on its diagonal: the result depends on the
/// clamped die roll plus the clamped column.
pub proof fn lemma_lookup_diagonal(die_roll: int, cd_column: int)
    ensures
        spec_lookup_crt(die_roll, cd_column) == crt_by_diagonal(
            clamp(die_roll, 0, 7) + clamp(cd_column, -6, 6) + 6,
        ),
{
    lemma_crt_row_diagonal(clamp(die_roll, 0, 7));
}

/// A higher final die roll or a column further right never gives the
/// attacker a worse result.
pub proof fn law_crt_monotone(d1: int, c1: int, d2: int, c2: int)
    requires
        d1 <= d2,
        c1 <= c2,
    ensures
        crt_rank(spec_lookup_crt(d1, c1)) <= crt_rank(spec_lookup_crt(d2, c2)),
{
    lemma_lookup_diagonal(d1, c1);
    lemma_lookup_diagonal(d2, c2);
}

/// The force ratio shift lies between 3 left and 3 right, and more
/// attacking strength never shifts it further left.
pub proof fn law_force_ratio_monotone(a1: int, a2: int, defend_sp: int)
    requires
        a1 <= a2,
    ensures
        -3 <= spec_force_ratio_shift(a1, defend_sp) <= 3,
        spec_force_ratio_shift(a1, defend_sp) <= spec_force_ratio_shift(a2, defend_sp),
{
}

} // verus!
