//! The game counters: sides, unit identities and their printed values.

use vstd::prelude::*;

use crate::map::Location;

verus! {

#[derive(Debug, Clone, Copy, PartialEq, Eq, Structural)]
pub enum Side {
    Wagner,
    Russia,
}

/// Unique identifier for each counter in the game.
#[derive(Debug, Clone, Copy, PartialEq, Eq, Structural, Hash)]
pub enum UnitId {
    Rusich,
    Utkin,
    Serb,
    MechanizedRegiment,
    MotorizedInfantry,
    ArmoredRegiment,
    Omon,
    Akhmat,
    Fsb,
    Helicopters,
    Sobr,
    Mospol,
}

/// Declaration-order index of a counter; it is also its position in the
/// unit list of a game.
pub open spec fn unit_idx(id: UnitId) -> int {
    match id {
        UnitId::Rusich => 0,
        UnitId::Utkin => 1,
        UnitId::Serb => 2,
        UnitId::MechanizedRegiment => 3,
        UnitId::MotorizedInfantry => 4,
        UnitId::ArmoredRegiment => 5,
        UnitId::Omon => 6,
        UnitId::Akhmat => 7,
        UnitId::Fsb => 8,
        UnitId::Helicopters => 9,
        UnitId::Sobr => 10,
        UnitId::Mospol => 11,
    }
}

/// The counter at a given declaration-order index.
pub open spec fn unit_at(k: int) -> UnitId {
    if k == 0 {
        UnitId::Rusich
    } else if k == 1 {
        UnitId::Utkin
    } else if k == 2 {
        UnitId::Serb
    } else if k == 3 {
        UnitId::MechanizedRegiment
    } else if k == 4 {
        UnitId::MotorizedInfantry
    } else if k == 5 {
        UnitId::ArmoredRegiment
    } else if k == 6 {
        UnitId::Omon
    } else if k == 7 {
        UnitId::Akhmat
    } else if k == 8 {
        UnitId::Fsb
    } else if k == 9 {
        UnitId::Helicopters
    } else if k == 10 {
        UnitId::Sobr
    } else {
        UnitId::Mospol
    }
}

pub open spec fn spec_unit_name(id: UnitId) -> Seq<char> {
    match id {
        UnitId::Rusich => "Rusich"@,
        UnitId::Utkin => "Utkin"@,
        UnitId::Serb => "Serb"@,
        UnitId::MechanizedRegiment => "Mech Regiment"@,
        UnitId::MotorizedInfantry => "Motor Infantry"@,
        UnitId::ArmoredRegiment => "Armor Regiment"@,
        UnitId::Omon => "OMON"@,
        UnitId::Akhmat => "Akhmat"@,
        UnitId::Fsb => "FSB"@,
        UnitId::Helicopters => "Helicopters"@,
        UnitId::Sobr => "SOBR"@,
        UnitId::Mospol => "MOSpol"@,
    }
}

pub open spec fn spec_unit_short(id: UnitId) -> Seq<char> {
    match id {
        UnitId::Rusich => "RSCH"@,
        UnitId::Utkin => "UTKN"@,
        UnitId::Serb => "SERB"@,
        UnitId::MechanizedRegiment => "MECH"@,
        UnitId::MotorizedInfantry => "MOTR"@,
        UnitId::ArmoredRegiment => "ARMR"@,
        UnitId::Omon => "OMON"@,
        UnitId::Akhmat => "AKHM"@,
        UnitId::Fsb => "FSB "@,
        UnitId::Helicopters => "HELI"@,
        UnitId::Sobr => "SOBR"@,
        UnitId::Mospol => "MPOL"@,
    }
}

pub open spec fn spec_nato_symbol(id: UnitId) -> char {
    match id {
        UnitId::Rusich => 'R',
        UnitId::Utkin => 'U',
        UnitId::Serb => 'S',
        UnitId::MechanizedRegiment => '╳',
        UnitId::MotorizedInfantry => '╳',
        UnitId::ArmoredRegiment => '◇',
        UnitId::Omon => '╳',
        UnitId::Akhmat => '╳',
        UnitId::Fsb => '█',
        UnitId::Helicopters => 'H',
        UnitId::Sobr => '█',
        UnitId::Mospol => '╳',
    }
}

/// The three counters that start as Wagner's.
pub open spec fn spec_id_is_wagner(id: UnitId) -> bool {
    id == UnitId::Rusich || id == UnitId::Utkin || id == UnitId::Serb
}

pub proof fn lemma_unit_idx_bounds(id: UnitId)
    ensures
        0 <= unit_idx(id) < 12,
        unit_at(unit_idx(id)) == id,
{
}

pub proof fn lemma_unit_at_bounds(k: int)
    requires
        0 <= k < 12,
    ensures
        unit_idx(unit_at(k)) == k,
{
}

impl UnitId {
    pub fn index(&self) -> (r: usize)
        ensures
            r as int == unit_idx(*self),
    {
        match self {
            UnitId::Rusich => 0,
            UnitId::Utkin => 1,
            UnitId::Serb => 2,
            UnitId::MechanizedRegiment => 3,
            UnitId::MotorizedInfantry => 4,
            UnitId::ArmoredRegiment => 5,
            UnitId::Omon => 6,
            UnitId::Akhmat => 7,
            UnitId::Fsb => 8,
            UnitId::Helicopters => 9,
            UnitId::Sobr => 10,
            UnitId::Mospol => 11,
        }
    }

    pub fn name(&self) -> (r: &'static str)
        ensures
            r@ == spec_unit_name(*self),
    {
        match self {
            UnitId::Rusich => "Rusich",
            UnitId::Utkin => "Utkin",
            UnitId::Serb => "Serb",
            UnitId::MechanizedRegiment => "Mech Regiment",
            UnitId::MotorizedInfantry => "Motor Infantry",
            UnitId::ArmoredRegiment => "Armor Regiment",
            UnitId::Omon => "OMON",
            UnitId::Akhmat => "Akhmat",
            UnitId::Fsb => "FSB",
            UnitId::Helicopters => "Helicopters",
            UnitId::Sobr => "SOBR",
            UnitId::Mospol => "MOSpol",
        }
    }

    /// Short label for compact display (four characters).
    pub fn short(&self) -> (r: &'static str)
        ensures
            r@ == spec_unit_short(*self),
    {
        match self {
            UnitId::Rusich => "RSCH",
            UnitId::Utkin => "UTKN",
            UnitId::Serb => "SERB",
            UnitId::MechanizedRegiment => "MECH",
            UnitId::MotorizedInfantry => "MOTR",
            UnitId::ArmoredRegiment => "ARMR",
            UnitId::Omon => "OMON",
            UnitId::Akhmat => "AKHM",
            UnitId::Fsb => "FSB ",
            UnitId::Helicopters => "HELI",
            UnitId::Sobr => "SOBR",
            UnitId::Mospol => "MPOL",
        }
    }

    /// NATO-style centre symbol for the counter display.
    pub fn nato_symbol(&self) -> (r: char)
        ensures
            r == spec_nato_symbol(*self),
    {
        match self {
            UnitId::Rusich => 'R',
            UnitId::Utkin => 'U',
            UnitId::Serb => 'S',
            UnitId::MechanizedRegiment => '╳',
            UnitId::MotorizedInfantry => '╳',
            UnitId::ArmoredRegiment => '◇',
            UnitId::Omon => '╳',
            UnitId::Akhmat => '╳',
            UnitId::Fsb => '█',
            UnitId::Helicopters => 'H',
            UnitId::Sobr => '█',
            UnitId::Mospol => '╳',
        }
    }

    pub fn is_wagner(&self) -> (r: bool)
        ensures
            r == spec_id_is_wagner(*self),
    {
        match self {
            UnitId::Rusich | UnitId::Utkin | UnitId::Serb => true,
            _ => false,
        }
    }

    /// All Wagner unit identifiers.
    pub fn wagner_units() -> (r: &'static [UnitId])
        ensures
            r@ == seq![UnitId::Rusich, UnitId::Utkin, UnitId::Serb],
    {
        &[UnitId::Rusich, UnitId::Utkin, UnitId::Serb]
    }
}

/// A single game counter.
#[derive(Debug, Clone, Copy)]
pub struct Unit {
    pub id: UnitId,
    pub side: Side,
    pub base_sp: i32,
    pub base_mp: i32,
    pub has_reduced_side: bool,
    pub is_reduced: bool,
    /// (Z) can switch sides from Russia to Wagner
    pub switchable: bool,
    /// (P) no offensive capability
    pub police: bool,
    /// (C) starts in the Moscow Mobilization Cup
    pub in_cup: bool,
    pub location: Option<Location>,
    pub mp_spent: i32,
    pub dispersed: bool,
}

/// Strength of a counter after reduction: one less when reduced on a
/// counter that has a reduced side, never below one.
pub open spec fn spec_current_sp(u: Unit) -> int {
    if u.is_reduced && u.has_reduced_side {
        if u.base_sp - 1 >= 1 {
            u.base_sp - 1
        } else {
            1
        }
    } else {
        u.base_sp as int
    }
}

/// The counter with its location, reduction and dispersal cleared.
pub open spec fn spec_eliminated(u: Unit) -> Unit {
    Unit { location: None, is_reduced: false, dispersed: false, ..u }
}

/// One step loss: a full-strength counter with a reduced side flips,
/// any other counter is eliminated.
pub open spec fn spec_step_reduced(u: Unit) -> Unit {
    if u.has_reduced_side && !u.is_reduced {
        Unit { is_reduced: true, ..u }
    } else {
        spec_eliminated(u)
    }
}

impl Unit {
    /// Current SP accounting for reduction (reduced = base_sp - 1, min 1).
    pub fn current_sp(&self) -> (r: i32)
        requires
            self.is_reduced && self.has_reduced_side ==> self.base_sp > i32::MIN,
        ensures
            r == spec_current_sp(*self),
    {
        if self.is_reduced && self.has_reduced_side {
            let v = self.base_sp - 1;
            if v >= 1 {
                v
            } else {
                1
            }
        } else {
            self.base_sp
        }
    }

    pub fn is_wagner(&self) -> (r: bool)
        ensures
            r == (self.side == Side::Wagner),
    {
        self.side == Side::Wagner
    }

    pub fn is_helicopter(&self) -> (r: bool)
        ensures
            r == (self.id == UnitId::Helicopters),
    {
        self.id == UnitId::Helicopters
    }

    pub fn is_on_map(&self) -> (r: bool)
        ensures
            r == self.location.is_some(),
    {
        self.location.is_some()
    }

    pub fn reset_mp(&mut self)
        ensures
            *final(self) == (Unit { mp_spent: 0, ..*old(self) }),
    {
        self.mp_spent = 0;
    }

    /// Step-reduce this unit. Returns true if reduced, false if eliminated.
    pub fn step_reduce(&mut self) -> (r: bool)
        ensures
            r == (old(self).has_reduced_side && !old(self).is_reduced),
            *final(self) == spec_step_reduced(*old(self)),
    {
        if self.has_reduced_side && !self.is_reduced {
            self.is_reduced = true;
            true
        } else {
            self.eliminate();
            false
        }
    }

    /// Remove unit from the map.
    pub fn eliminate(&mut self)
        ensures
            *final(self) == spec_eliminated(*old(self)),
    {
        self.location = None;
        self.is_reduced = false;
        self.dispersed = false;
    }
}

/// The counter manifest: every counter as it stands at the start of a game.
pub open spec fn spec_initial_unit(id: UnitId) -> Unit {
    match id {
        UnitId::Rusich => Unit {
            id: UnitId::Rusich,
            side: Side::Wagner,
            base_sp: 1,
            base_mp: 0,
            has_reduced_side: false,
            is_reduced: false,
            switchable: false,
            police: false,
            in_cup: false,
            location: Some(Location::RostovOnDon),
            mp_spent: 0,
            dispersed: false,
        },
        UnitId::Utkin => Unit {
            id: UnitId::Utkin,
            side: Side::Wagner,
            base_sp: 2,
            base_mp: 0,
            has_reduced_side: false,
            is_reduced: false,
            switchable: false,
            police: false,
            in_cup: false,
            location: Some(Location::RostovOnDon),
            mp_spent: 0,
            dispersed: false,
        },
        UnitId::Serb => Unit {
            id: UnitId::Serb,
            side: Side::Wagner,
            base_sp: 1,
            base_mp: 0,
            has_reduced_side: false,
            is_reduced: false,
            switchable: false,
            police: false,
            in_cup: false,
            location: Some(Location::RostovOnDon),
            mp_spent: 0,
            dispersed: false,
        },
        UnitId::MechanizedRegiment => Unit {
            id: UnitId::MechanizedRegiment,
            side: Side::Russia,
            base_sp: 3,
            base_mp: 4,
            has_reduced_side: false,
            is_reduced: false,
            switchable: true,
            police: false,
            in_cup: true,
            location: None,
            mp_spent: 0,
            dispersed: false,
        },
        UnitId::MotorizedInfantry => Unit {
            id: UnitId::MotorizedInfantry,
            side: Side::Russia,
            base_sp: 1,
            base_mp: 3,
            has_reduced_side: false,
            is_reduced: false,
            switchable: true,
            police: false,
            in_cup: true,
            location: None,
            mp_spent: 0,
            dispersed: false,
        },
        UnitId::ArmoredRegiment => Unit {
            id: UnitId::ArmoredRegiment,
            side: Side::Russia,
            base_sp: 3,
            base_mp: 3,
            has_reduced_side: false,
            is_reduced: false,
            switchable: true,
            police: false,
            in_cup: true,
            location: None,
            mp_spent: 0,
            dispersed: false,
        },
        UnitId::Omon => Unit {
            id: UnitId::Omon,
            side: Side::Russia,
            base_sp: 2,
            base_mp: 2,
            has_reduced_side: true,
            is_reduced: false,
            switchable: false,
            police: true,
            in_cup: false,
            location: Some(Location::Moscow),
            mp_spent: 0,
            dispersed: false,
        },
        UnitId::Akhmat => Unit {
            id: UnitId::Akhmat,
            side: Side::Russia,
            base_sp: 2,
            base_mp: 2,
            has_reduced_side: true,
            is_reduced: false,
            switchable: false,
            police: false,
            in_cup: true,
            location: None,
            mp_spent: 0,
            dispersed: false,
        },
        UnitId::Fsb => Unit {
            id: UnitId::Fsb,
            side: Side::Russia,
            base_sp: 2,
            base_mp: 2,
            has_reduced_side: true,
            is_reduced: false,
            switchable: false,
            police: false,
            in_cup: false,
            location: Some(Location::Moscow),
            mp_spent: 0,
            dispersed: false,
        },
        UnitId::Helicopters => Unit {
            id: UnitId::Helicopters,
            side: Side::Russia,
            base_sp: 3,
            base_mp: 4,
            has_reduced_side: true,
            is_reduced: false,
            switchable: false,
            police: false,
            in_cup: true,
            location: None,
            mp_spent: 0,
            dispersed: false,
        },
        UnitId::Sobr => Unit {
            id: UnitId::Sobr,
            side: Side::Russia,
            base_sp: 2,
            base_mp: 2,
            has_reduced_side: true,
            is_reduced: false,
            switchable: false,
            police: false,
            in_cup: false,
            location: Some(Location::Moscow),
            mp_spent: 0,
            dispersed: false,
        },
        UnitId::Mospol => Unit {
            id: UnitId::Mospol,
            side: Side::Russia,
            base_sp: 1,
            base_mp: 2,
            has_reduced_side: false,
            is_reduced: false,
            switchable: false,
            police: true,
            in_cup: true,
            location: None,
            mp_spent: 0,
            dispersed: false,
        },
    }
}

/// The printed values of a counter (everything but its state in play)
/// match the manifest entry at position `k`.
pub open spec fn unit_static_ok(u: Unit, k: int) -> bool {
    let m = spec_initial_unit(unit_at(k));
    &&& u.id == unit_at(k)
    &&& u.base_sp == m.base_sp
    &&& u.base_mp == m.base_mp
    &&& u.has_reduced_side == m.has_reduced_side
    &&& u.switchable == m.switchable
    &&& u.police == m.police
    &&& u.in_cup == m.in_cup
}

/// Create all units per the counter manifest.
pub fn create_all_units() -> (r: Vec<Unit>)
    ensures
        r@.len() == 12,
        forall|k: int| 0 <= k < 12 ==> #[trigger] r@[k] == spec_initial_unit(unit_at(k)),
{
    let mut v: Vec<Unit> = Vec::new();
    v.push(Unit {
            id: UnitId::Rusich,
            side: Side::Wagner,
            base_sp: 1,
            base_mp: 0,
            has_reduced_side: false,
            is_reduced: false,
            switchable: false,
            police: false,
            in_cup: false,
            location: Some(Location::RostovOnDon),
            mp_spent: 0,
            dispersed: false,
        });
    v.push(Unit {
            id: UnitId::Utkin,
            side: Side::Wagner,
            base_sp: 2,
            base_mp: 0,
            has_reduced_side: false,
            is_reduced: false,
            switchable: false,
            police: false,
            in_cup: false,
            location: Some(Location::RostovOnDon),
            mp_spent: 0,
            dispersed: false,
        });
    v.push(Unit {
            id: UnitId::Serb,
            side: Side::Wagner,
            base_sp: 1,
            base_mp: 0,
            has_reduced_side: false,
            is_reduced: false,
            switchable: false,
            police: false,
            in_cup: false,
            location: Some(Location::RostovOnDon),
            mp_spent: 0,
            dispersed: false,
        });
    v.push(Unit {
            id: UnitId::MechanizedRegiment,
            side: Side::Russia,
            base_sp: 3,
            base_mp: 4,
            has_reduced_side: false,
            is_reduced: false,
            switchable: true,
            police: false,
            in_cup: true,
            location: None,
            mp_spent: 0,
            dispersed: false,
        });
    v.push(Unit {
            id: UnitId::MotorizedInfantry,
            side: Side::Russia,
            base_sp: 1,
            base_mp: 3,
            has_reduced_side: false,
            is_reduced: false,
            switchable: true,
            police: false,
            in_cup: true,
            location: None,
            mp_spent: 0,
            dispersed: false,
        });
    v.push(Unit {
            id: UnitId::ArmoredRegiment,
            side: Side::Russia,
            base_sp: 3,
            base_mp: 3,
            has_reduced_side: false,
            is_reduced: false,
            switchable: true,
            police: false,
            in_cup: true,
            location: None,
            mp_spent: 0,
            dispersed: false,
        });
    v.push(Unit {
            id: UnitId::Omon,
            side: Side::Russia,
            base_sp: 2,
            base_mp: 2,
            has_reduced_side: true,
            is_reduced: false,
            switchable: false,
            police: true,
            in_cup: false,
            location: Some(Location::Moscow),
            mp_spent: 0,
            dispersed: false,
        });
    v.push(Unit {
            id: UnitId::Akhmat,
            side: Side::Russia,
            base_sp: 2,
            base_mp: 2,
            has_reduced_side: true,
            is_reduced: false,
            switchable: false,
            police: false,
            in_cup: true,
            location: None,
            mp_spent: 0,
            dispersed: false,
        });
    v.push(Unit {
            id: UnitId::Fsb,
            side: Side::Russia,
            base_sp: 2,
            base_mp: 2,
            has_reduced_side: true,
            is_reduced: false,
            switchable: false,
            police: false,
            in_cup: false,
            location: Some(Location::Moscow),
            mp_spent: 0,
            dispersed: false,
        });
    v.push(Unit {
            id: UnitId::Helicopters,
            side: Side::Russia,
            base_sp: 3,
            base_mp: 4,
            has_reduced_side: true,
            is_reduced: false,
            switchable: false,
            police: false,
            in_cup: true,
            location: None,
            mp_spent: 0,
            dispersed: false,
        });
    v.push(Unit {
            id: UnitId::Sobr,
            side: Side::Russia,
            base_sp: 2,
            base_mp: 2,
            has_reduced_side: true,
            is_reduced: false,
            switchable: false,
            police: false,
            in_cup: false,
            location: Some(Location::Moscow),
            mp_spent: 0,
            dispersed: false,
        });
    v.push(Unit {
            id: UnitId::Mospol,
            side: Side::Russia,
            base_sp: 1,
            base_mp: 2,
            has_reduced_side: false,
            is_reduced: false,
            switchable: false,
            police: true,
            in_cup: true,
            location: None,
            mp_spent: 0,
            dispersed: false,
        });
    proof {
        assert forall|k: int| 0 <= k < 12 implies #[trigger] v@[k] == spec_initial_unit(unit_at(k)) by {
            if k == 0 {} else if k == 1 {} else if k == 2 {} else if k == 3 {} else if k == 4 {}
            else if k == 5 {} else if k == 6 {} else if k == 7 {} else if k == 8 {} else if k == 9 {}
            else if k == 10 {} else {}
        }
    }
    v
}

} // verus!
