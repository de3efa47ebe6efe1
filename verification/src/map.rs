//! The game map: thirteen locations joined by typed connections.

use vstd::prelude::*;

verus! {

/// Every location on the game map.
#[derive(Debug, Clone, Copy, PartialEq, Eq, Structural, Hash)]
pub enum Location {
    RostovOnDon,
    GroznyAkhmatBase,
    BugaevkaBorderPoint,
    Voronezh,
    Orel,
    Lipetsk,
    Tambov,
    Kaluga,
    Tula,
    Ryazan,
    OkaRiver,
    Rublevo,
    Moscow,
}

/// Number of locations on the map.
pub const NUM_LOCATIONS: usize = 13;

/// Declaration-order index of a location.
pub open spec fn loc_idx(l: Location) -> int {
    match l {
        Location::RostovOnDon => 0,
        Location::GroznyAkhmatBase => 1,
        Location::BugaevkaBorderPoint => 2,
        Location::Voronezh => 3,
        Location::Orel => 4,
        Location::Lipetsk => 5,
        Location::Tambov => 6,
        Location::Kaluga => 7,
        Location::Tula => 8,
        Location::Ryazan => 9,
        Location::OkaRiver => 10,
        Location::Rublevo => 11,
        Location::Moscow => 12,
    }
}

/// The location with a given declaration-order index.
pub open spec fn loc_at(i: int) -> Location {
    if i <= 0 {
        Location::RostovOnDon
    } else if i == 1 {
        Location::GroznyAkhmatBase
    } else if i == 2 {
        Location::BugaevkaBorderPoint
    } else if i == 3 {
        Location::Voronezh
    } else if i == 4 {
        Location::Orel
    } else if i == 5 {
        Location::Lipetsk
    } else if i == 6 {
        Location::Tambov
    } else if i == 7 {
        Location::Kaluga
    } else if i == 8 {
        Location::Tula
    } else if i == 9 {
        Location::Ryazan
    } else if i == 10 {
        Location::OkaRiver
    } else if i == 11 {
        Location::Rublevo
    } else {
        Location::Moscow
    }
}

pub open spec fn spec_location_name(l: Location) -> Seq<char> {
    match l {
        Location::RostovOnDon => "Rostov-On-Don"@,
        Location::GroznyAkhmatBase => "Grozny"@,
        Location::BugaevkaBorderPoint => "Bugaevka B.P."@,
        Location::Voronezh => "Voronezh"@,
        Location::Orel => "Orel"@,
        Location::Lipetsk => "Lipetsk"@,
        Location::Tambov => "Tambov"@,
        Location::Kaluga => "Kaluga"@,
        Location::Tula => "Tula"@,
        Location::Ryazan => "Ryazan"@,
        Location::OkaRiver => "Oka River"@,
        Location::Rublevo => "Rublevo"@,
        Location::Moscow => "Moscow"@,
    }
}

pub open spec fn spec_location_short(l: Location) -> Seq<char> {
    match l {
        Location::RostovOnDon => "ROS"@,
        Location::GroznyAkhmatBase => "GRO"@,
        Location::BugaevkaBorderPoint => "BUG"@,
        Location::Voronezh => "VOR"@,
        Location::Orel => "ORL"@,
        Location::Lipetsk => "LIP"@,
        Location::Tambov => "TAM"@,
        Location::Kaluga => "KAL"@,
        Location::Tula => "TUL"@,
        Location::Ryazan => "RYA"@,
        Location::OkaRiver => "OKA"@,
        Location::Rublevo => "RUB"@,
        Location::Moscow => "MOS"@,
    }
}

pub open spec fn spec_all_locations() -> Seq<Location> {
    seq![
        Location::GroznyAkhmatBase,
        Location::RostovOnDon,
        Location::BugaevkaBorderPoint,
        Location::Voronezh,
        Location::Tambov,
        Location::Lipetsk,
        Location::Orel,
        Location::Tula,
        Location::Ryazan,
        Location::Kaluga,
        Location::OkaRiver,
        Location::Rublevo,
        Location::Moscow,
    ]
}

/// The locations on the M4 highway.
pub open spec fn spec_on_m4(l: Location) -> bool {
    l == Location::RostovOnDon || l == Location::BugaevkaBorderPoint || l == Location::Voronezh
        || l == Location::Lipetsk || l == Location::Tula || l == Location::OkaRiver
        || l == Location::Moscow
}

/// The M4 route from Rostov to Moscow, in order.
pub open spec fn spec_m4_path() -> Seq<Location> {
    seq![
        Location::RostovOnDon,
        Location::BugaevkaBorderPoint,
        Location::Voronezh,
        Location::Lipetsk,
        Location::Tula,
        Location::OkaRiver,
        Location::Moscow,
    ]
}

/// Display coordinates (column, row) of a location on the map panel:
/// neighbours along the M4 stand at least seven rows apart, so that the
/// road drawn between their label boxes stays visible.
pub open spec fn spec_map_pos(l: Location) -> (u16, u16) {
    match l {
        Location::Moscow => (39, 0),
        Location::Rublevo => (19, 3),
        Location::OkaRiver => (43, 7),
        Location::Kaluga => (9, 11),
        Location::Tula => (33, 14),
        Location::Ryazan => (54, 11),
        Location::Orel => (9, 20),
        Location::Lipetsk => (33, 21),
        Location::Tambov => (54, 20),
        Location::Voronezh => (33, 28),
        Location::BugaevkaBorderPoint => (33, 35),
        Location::RostovOnDon => (25, 42),
        Location::GroznyAkhmatBase => (52, 43),
    }
}

impl Location {
    /// The location with a given declaration-order index.
    pub fn from_index(i: usize) -> (r: Location)
        requires
            i < 13,
        ensures
            loc_idx(r) == i,
            r == loc_at(i as int),
    {
        if i == 0 {
            Location::RostovOnDon
        } else if i == 1 {
            Location::GroznyAkhmatBase
        } else if i == 2 {
            Location::BugaevkaBorderPoint
        } else if i == 3 {
            Location::Voronezh
        } else if i == 4 {
            Location::Orel
        } else if i == 5 {
            Location::Lipetsk
        } else if i == 6 {
            Location::Tambov
        } else if i == 7 {
            Location::Kaluga
        } else if i == 8 {
            Location::Tula
        } else if i == 9 {
            Location::Ryazan
        } else if i == 10 {
            Location::OkaRiver
        } else if i == 11 {
            Location::Rublevo
        } else {
            Location::Moscow
        }
    }

    pub fn index(&self) -> (r: usize)
        ensures
            r as int == loc_idx(*self),
    {
        match self {
            Location::RostovOnDon => 0,
            Location::GroznyAkhmatBase => 1,
            Location::BugaevkaBorderPoint => 2,
            Location::Voronezh => 3,
            Location::Orel => 4,
            Location::Lipetsk => 5,
            Location::Tambov => 6,
            Location::Kaluga => 7,
            Location::Tula => 8,
            Location::Ryazan => 9,
            Location::OkaRiver => 10,
            Location::Rublevo => 11,
            Location::Moscow => 12,
        }
    }

    pub fn name(&self) -> (r: &'static str)
        ensures
            r@ == spec_location_name(*self),
    {
        match self {
            Location::RostovOnDon => "Rostov-On-Don",
            Location::GroznyAkhmatBase => "Grozny",
            Location::BugaevkaBorderPoint => "Bugaevka B.P.",
            Location::Voronezh => "Voronezh",
            Location::Orel => "Orel",
            Location::Lipetsk => "Lipetsk",
            Location::Tambov => "Tambov",
            Location::Kaluga => "Kaluga",
            Location::Tula => "Tula",
            Location::Ryazan => "Ryazan",
            Location::OkaRiver => "Oka River",
            Location::Rublevo => "Rublevo",
            Location::Moscow => "Moscow",
        }
    }

    /// Short three-letter label for the map display.
    pub fn short(&self) -> (r: &'static str)
        ensures
            r@ == spec_location_short(*self),
    {
        match self {
            Location::RostovOnDon => "ROS",
            Location::GroznyAkhmatBase => "GRO",
            Location::BugaevkaBorderPoint => "BUG",
            Location::Voronezh => "VOR",
            Location::Orel => "ORL",
            Location::Lipetsk => "LIP",
            Location::Tambov => "TAM",
            Location::Kaluga => "KAL",
            Location::Tula => "TUL",
            Location::Ryazan => "RYA",
            Location::OkaRiver => "OKA",
            Location::Rublevo => "RUB",
            Location::Moscow => "MOS",
        }
    }

    /// All locations, roughly south to north.
    pub fn all() -> (r: &'static [Location])
        ensures
            r@ == spec_all_locations(),
    {
        &[
            Location::GroznyAkhmatBase,
            Location::RostovOnDon,
            Location::BugaevkaBorderPoint,
            Location::Voronezh,
            Location::Tambov,
            Location::Lipetsk,
            Location::Orel,
            Location::Tula,
            Location::Ryazan,
            Location::Kaluga,
            Location::OkaRiver,
            Location::Rublevo,
            Location::Moscow,
        ]
    }


    /// Is this location on the M4 route (used for LOC tracing)?
    pub fn on_m4(&self) -> (r: bool)
        ensures
            r == spec_on_m4(*self),
    {
        match self {
            Location::RostovOnDon
            | Location::BugaevkaBorderPoint
            | Location::Voronezh
            | Location::Lipetsk
            | Location::Tula
            | Location::OkaRiver
            | Location::Moscow => true,
            _ => false,
        }
    }

    /// Map display coordinates (col, row) for the map panel.
    pub fn map_pos(&self) -> (r: (u16, u16))
        ensures
            r == spec_map_pos(*self),
    {
        match self {
            Location::Moscow => (39, 0),
            Location::Rublevo => (19, 3),
            Location::OkaRiver => (43, 7),
            Location::Kaluga => (9, 11),
            Location::Tula => (33, 14),
            Location::Ryazan => (54, 11),
            Location::Orel => (9, 20),
            Location::Lipetsk => (33, 21),
            Location::Tambov => (54, 20),
            Location::Voronezh => (33, 28),
            Location::BugaevkaBorderPoint => (33, 35),
            Location::RostovOnDon => (25, 42),
            Location::GroznyAkhmatBase => (52, 43),
        }
    }
}

pub proof fn lemma_loc_idx_bounds(l: Location)
    ensures
        0 <= loc_idx(l) < 13,
        loc_at(loc_idx(l)) == l,
{
}

pub proof fn lemma_loc_at_bounds(i: int)
    requires
        0 <= i < 13,
    ensures
        loc_idx(loc_at(i)) == i,
{
}

/// Properties of a connection between two locations.
#[derive(Debug, Clone, Copy, PartialEq, Eq, Structural)]
pub struct EdgeProps {
    pub river: bool,
    pub m4: bool,
}

pub open spec fn spec_adj(l: Location) -> Seq<(Location, EdgeProps)> {
    match l {
        Location::RostovOnDon => seq![(Location::GroznyAkhmatBase, EdgeProps { river: true, m4: false }), (Location::BugaevkaBorderPoint, EdgeProps { river: true, m4: true })],
        Location::GroznyAkhmatBase => seq![(Location::RostovOnDon, EdgeProps { river: true, m4: false })],
        Location::BugaevkaBorderPoint => seq![(Location::RostovOnDon, EdgeProps { river: true, m4: true }), (Location::Voronezh, EdgeProps { river: false, m4: true })],
        Location::Voronezh => seq![(Location::BugaevkaBorderPoint, EdgeProps { river: false, m4: true }), (Location::Orel, EdgeProps { river: true, m4: false }), (Location::Lipetsk, EdgeProps { river: false, m4: true }), (Location::Tambov, EdgeProps { river: false, m4: false })],
        Location::Orel => seq![(Location::Voronezh, EdgeProps { river: true, m4: false }), (Location::Kaluga, EdgeProps { river: false, m4: false }), (Location::Tula, EdgeProps { river: false, m4: false }), (Location::Lipetsk, EdgeProps { river: false, m4: false })],
        Location::Lipetsk => seq![(Location::Voronezh, EdgeProps { river: false, m4: true }), (Location::Orel, EdgeProps { river: false, m4: false }), (Location::Tula, EdgeProps { river: false, m4: true }), (Location::Tambov, EdgeProps { river: false, m4: false })],
        Location::Tambov => seq![(Location::Voronezh, EdgeProps { river: false, m4: false }), (Location::Lipetsk, EdgeProps { river: false, m4: false }), (Location::Ryazan, EdgeProps { river: false, m4: false })],
        Location::Kaluga => seq![(Location::Orel, EdgeProps { river: false, m4: false }), (Location::Tula, EdgeProps { river: false, m4: false }), (Location::OkaRiver, EdgeProps { river: false, m4: false }), (Location::Moscow, EdgeProps { river: false, m4: false }), (Location::Rublevo, EdgeProps { river: false, m4: false })],
        Location::Tula => seq![(Location::Orel, EdgeProps { river: false, m4: false }), (Location::Lipetsk, EdgeProps { river: false, m4: true }), (Location::Kaluga, EdgeProps { river: false, m4: false }), (Location::OkaRiver, EdgeProps { river: true, m4: true }), (Location::Ryazan, EdgeProps { river: false, m4: false })],
        Location::Ryazan => seq![(Location::Tambov, EdgeProps { river: false, m4: false }), (Location::Tula, EdgeProps { river: false, m4: false }), (Location::OkaRiver, EdgeProps { river: true, m4: false })],
        Location::OkaRiver => seq![(Location::Kaluga, EdgeProps { river: false, m4: false }), (Location::Tula, EdgeProps { river: true, m4: true }), (Location::Ryazan, EdgeProps { river: true, m4: false }), (Location::Moscow, EdgeProps { river: false, m4: true }), (Location::Rublevo, EdgeProps { river: false, m4: false })],
        Location::Rublevo => seq![(Location::Kaluga, EdgeProps { river: false, m4: false }), (Location::OkaRiver, EdgeProps { river: false, m4: false }), (Location::Moscow, EdgeProps { river: false, m4: false })],
        Location::Moscow => seq![(Location::Kaluga, EdgeProps { river: false, m4: false }), (Location::OkaRiver, EdgeProps { river: false, m4: true }), (Location::Rublevo, EdgeProps { river: false, m4: false })],
    }
}

pub open spec fn spec_edge_dir(a: Location, b: Location) -> Option<EdgeProps> {
    match (a, b) {
        (Location::RostovOnDon, Location::GroznyAkhmatBase) => Some(EdgeProps { river: true, m4: false }),
        (Location::RostovOnDon, Location::BugaevkaBorderPoint) => Some(EdgeProps { river: true, m4: true }),
        (Location::BugaevkaBorderPoint, Location::Voronezh) => Some(EdgeProps { river: false, m4: true }),
        (Location::Voronezh, Location::Orel) => Some(EdgeProps { river: true, m4: false }),
        (Location::Voronezh, Location::Lipetsk) => Some(EdgeProps { river: false, m4: true }),
        (Location::Voronezh, Location::Tambov) => Some(EdgeProps { river: false, m4: false }),
        (Location::Orel, Location::Kaluga) => Some(EdgeProps { river: false, m4: false }),
        (Location::Orel, Location::Tula) => Some(EdgeProps { river: false, m4: false }),
        (Location::Orel, Location::Lipetsk) => Some(EdgeProps { river: false, m4: false }),
        (Location::Lipetsk, Location::Tula) => Some(EdgeProps { river: false, m4: true }),
        (Location::Lipetsk, Location::Tambov) => Some(EdgeProps { river: false, m4: false }),
        (Location::Tambov, Location::Ryazan) => Some(EdgeProps { river: false, m4: false }),
        (Location::Kaluga, Location::Tula) => Some(EdgeProps { river: false, m4: false }),
        (Location::Kaluga, Location::OkaRiver) => Some(EdgeProps { river: false, m4: false }),
        (Location::Kaluga, Location::Moscow) => Some(EdgeProps { river: false, m4: false }),
        (Location::Kaluga, Location::Rublevo) => Some(EdgeProps { river: false, m4: false }),
        (Location::Tula, Location::OkaRiver) => Some(EdgeProps { river: true, m4: true }),
        (Location::Tula, Location::Ryazan) => Some(EdgeProps { river: false, m4: false }),
        (Location::Ryazan, Location::OkaRiver) => Some(EdgeProps { river: true, m4: false }),
        (Location::OkaRiver, Location::Moscow) => Some(EdgeProps { river: false, m4: true }),
        (Location::OkaRiver, Location::Rublevo) => Some(EdgeProps { river: false, m4: false }),
        (Location::Rublevo, Location::Moscow) => Some(EdgeProps { river: false, m4: false }),
        _ => None,
    }
}

/// The connection between two locations, if any (in either direction).
pub open spec fn spec_edge(a: Location, b: Location) -> Option<EdgeProps> {
    if spec_edge_dir(a, b) is Some {
        spec_edge_dir(a, b)
    } else {
        spec_edge_dir(b, a)
    }
}

/// The neighbour lists of `spec_adj` agree with the connection table:
/// every listed neighbour is connected with the listed properties, no
/// neighbour is listed twice, and every connection is listed.
pub open spec fn adj_agrees(a: Location) -> bool {
    let s = spec_adj(a);
    &&& forall|i: int| 0 <= i < s.len() ==> spec_edge(a, #[trigger] s[i].0) == Some(s[i].1)
    &&& forall|i: int, j: int| 0 <= i < j < s.len() ==> s[i].0 != s[j].0
    &&& forall|b: Location| #[trigger] spec_edge(a, b) is Some ==> exists|i: int|
        0 <= i < s.len() && s[i].0 == b
}

pub proof fn lemma_adj_agrees(a: Location)
    ensures
        adj_agrees(a),
{
    let s = spec_adj(a);
    assert forall|b: Location| #[trigger] spec_edge(a, b) is Some implies exists|i: int|
        0 <= i < s.len() && s[i].0 == b by {
        match a {
            Location::RostovOnDon => {
                if b == Location::GroznyAkhmatBase {
                    assert(s[0].0 == b);
                } else if b == Location::BugaevkaBorderPoint {
                    assert(s[1].0 == b);
                }
            }
            Location::GroznyAkhmatBase => {
                if b == Location::RostovOnDon {
                    assert(s[0].0 == b);
                }
            }
            Location::BugaevkaBorderPoint => {
                if b == Location::RostovOnDon {
                    assert(s[0].0 == b);
                } else if b == Location::Voronezh {
                    assert(s[1].0 == b);
                }
            }
            Location::Voronezh => {
                if b == Location::BugaevkaBorderPoint {
                    assert(s[0].0 == b);
                } else if b == Location::Orel {
                    assert(s[1].0 == b);
                } else if b == Location::Lipetsk {
                    assert(s[2].0 == b);
                } else if b == Location::Tambov {
                    assert(s[3].0 == b);
                }
            }
            Location::Orel => {
                if b == Location::Voronezh {
                    assert(s[0].0 == b);
                } else if b == Location::Kaluga {
                    assert(s[1].0 == b);
                } else if b == Location::Tula {
                    assert(s[2].0 == b);
                } else if b == Location::Lipetsk {
                    assert(s[3].0 == b);
                }
            }
            Location::Lipetsk => {
                if b == Location::Voronezh {
                    assert(s[0].0 == b);
                } else if b == Location::Orel {
                    assert(s[1].0 == b);
                } else if b == Location::Tula {
                    assert(s[2].0 == b);
                } else if b == Location::Tambov {
                    assert(s[3].0 == b);
                }
            }
            Location::Tambov => {
                if b == Location::Voronezh {
                    assert(s[0].0 == b);
                } else if b == Location::Lipetsk {
                    assert(s[1].0 == b);
                } else if b == Location::Ryazan {
                    assert(s[2].0 == b);
                }
            }
            Location::Kaluga => {
                if b == Location::Orel {
                    assert(s[0].0 == b);
                } else if b == Location::Tula {
                    assert(s[1].0 == b);
                } else if b == Location::OkaRiver {
                    assert(s[2].0 == b);
                } else if b == Location::Moscow {
                    assert(s[3].0 == b);
                } else if b == Location::Rublevo {
                    assert(s[4].0 == b);
                }
            }
            Location::Tula => {
                if b == Location::Orel {
                    assert(s[0].0 == b);
                } else if b == Location::Lipetsk {
                    assert(s[1].0 == b);
                } else if b == Location::Kaluga {
                    assert(s[2].0 == b);
                } else if b == Location::OkaRiver {
                    assert(s[3].0 == b);
                } else if b == Location::Ryazan {
                    assert(s[4].0 == b);
                }
            }
            Location::Ryazan => {
                if b == Location::Tambov {
                    assert(s[0].0 == b);
                } else if b == Location::Tula {
                    assert(s[1].0 == b);
                } else if b == Location::OkaRiver {
                    assert(s[2].0 == b);
                }
            }
            Location::OkaRiver => {
                if b == Location::Kaluga {
                    assert(s[0].0 == b);
                } else if b == Location::Tula {
                    assert(s[1].0 == b);
                } else if b == Location::Ryazan {
                    assert(s[2].0 == b);
                } else if b == Location::Moscow {
                    assert(s[3].0 == b);
                } else if b == Location::Rublevo {
                    assert(s[4].0 == b);
                }
            }
            Location::Rublevo => {
                if b == Location::Kaluga {
                    assert(s[0].0 == b);
                } else if b == Location::OkaRiver {
                    assert(s[1].0 == b);
                } else if b == Location::Moscow {
                    assert(s[2].0 == b);
                }
            }
            Location::Moscow => {
                if b == Location::Kaluga {
                    assert(s[0].0 == b);
                } else if b == Location::OkaRiver {
                    assert(s[1].0 == b);
                } else if b == Location::Rublevo {
                    assert(s[2].0 == b);
                }
            }
        }
    }
}

/// The game map as an adjacency list, one neighbour list per location.
pub struct GameMap {
    edges: Vec<Vec<(Location, EdgeProps)>>,
}

impl GameMap {
    /// The map holds exactly the rulebook connections, in insertion order.
    pub closed spec fn wf(&self) -> bool {
        &&& self.edges@.len() == 13
        &&& forall|i: int| 0 <= i < 13 ==> (#[trigger] self.edges@[i])@ == spec_adj(loc_at(i))
    }

    pub fn new() -> (r: GameMap)
        ensures
            r.wf(),
    {
        let mut edges: Vec<Vec<(Location, EdgeProps)>> = Vec::new();
        let mut i: usize = 0;
        while i < 13
            invariant
                i <= 13,
                edges@.len() == i,
                forall|j: int| 0 <= j < i ==> (#[trigger] edges@[j])@ == Seq::<(Location, EdgeProps)>::empty(),
            decreases 13 - i,
        {
            edges.push(Vec::new());
            i = i + 1;
        }
        let mut map = GameMap { edges };
        map.build();
        map
    }

    fn add_edge(&mut self, a: Location, b: Location, river: bool, m4: bool)
        requires
            old(self).edges@.len() == 13,
            a != b,
        ensures
            final(self).edges@.len() == 13,
            forall|i: int| 0 <= i < 13 ==> (#[trigger] final(self).edges@[i])@ == (
                if i == loc_idx(a) {
                    old(self).edges@[i]@.push((b, EdgeProps { river, m4 }))
                } else if i == loc_idx(b) {
                    old(self).edges@[i]@.push((a, EdgeProps { river, m4 }))
                } else {
                    old(self).edges@[i]@
                }),
    {
        let props = EdgeProps { river, m4 };
        let ai = a.index();
        let bi = b.index();
        self.edges[ai].push((b, props));
        self.edges[bi].push((a, props));
    }

    fn build(&mut self)
        requires
            old(self).edges@.len() == 13,
            forall|j: int| 0 <= j < 13 ==> (#[trigger] old(self).edges@[j])@ == Seq::<(Location, EdgeProps)>::empty(),
        ensures
            final(self).wf(),
    {
        self.add_edge(Location::RostovOnDon, Location::GroznyAkhmatBase, true, false);
        self.add_edge(Location::RostovOnDon, Location::BugaevkaBorderPoint, true, true);
        self.add_edge(Location::BugaevkaBorderPoint, Location::Voronezh, false, true);
        self.add_edge(Location::Voronezh, Location::Orel, true, false);
        self.add_edge(Location::Voronezh, Location::Lipetsk, false, true);
        self.add_edge(Location::Voronezh, Location::Tambov, false, false);
        self.add_edge(Location::Orel, Location::Kaluga, false, false);
        self.add_edge(Location::Orel, Location::Tula, false, false);
        self.add_edge(Location::Orel, Location::Lipetsk, false, false);
        self.add_edge(Location::Lipetsk, Location::Tula, false, true);
        self.add_edge(Location::Lipetsk, Location::Tambov, false, false);
        self.add_edge(Location::Tambov, Location::Ryazan, false, false);
        self.add_edge(Location::Kaluga, Location::Tula, false, false);
        self.add_edge(Location::Kaluga, Location::OkaRiver, false, false);
        self.add_edge(Location::Kaluga, Location::Moscow, false, false);
        self.add_edge(Location::Kaluga, Location::Rublevo, false, false);
        self.add_edge(Location::Tula, Location::OkaRiver, true, true);
        self.add_edge(Location::Tula, Location::Ryazan, false, false);
        self.add_edge(Location::Ryazan, Location::OkaRiver, true, false);
        self.add_edge(Location::OkaRiver, Location::Moscow, false, true);
        self.add_edge(Location::OkaRiver, Location::Rublevo, false, false);
        self.add_edge(Location::Rublevo, Location::Moscow, false, false);
        assert forall|i: int| 0 <= i < 13 implies (#[trigger] self.edges@[i])@ == spec_adj(loc_at(i)) by {
            if i == 0 {} else if i == 1 {} else if i == 2 {} else if i == 3 {} else if i == 4 {}
            else if i == 5 {} else if i == 6 {} else if i == 7 {} else if i == 8 {} else if i == 9 {}
            else if i == 10 {} else if i == 11 {} else {}
        }
    }

    /// All neighbours of a location with their connection properties.
    pub fn neighbors(&self, loc: Location) -> (r: &[(Location, EdgeProps)])
        requires
            self.wf(),
        ensures
            r@ == spec_adj(loc),
    {
        proof {
            lemma_loc_idx_bounds(loc);
        }
        self.edges[loc.index()].as_slice()
    }

    /// The connection properties between two locations, if connected.
    pub fn edge(&self, a: Location, b: Location) -> (r: Option<EdgeProps>)
        requires
            self.wf(),
        ensures
            r == spec_edge(a, b),
    {
        let ns = self.neighbors(a);
        proof {
            lemma_adj_agrees(a);
        }
        let mut i: usize = 0;
        while i < ns.len()
            invariant
                ns@ == spec_adj(a),
                adj_agrees(a),
                i <= ns@.len(),
                forall|j: int| 0 <= j < i ==> ns@[j].0 != b,
            decreases ns@.len() - i,
        {
            if ns[i].0 == b {
                return Some(ns[i].1);
            }
            i = i + 1;
        }
        None
    }

    /// Are two locations directly connected?
    pub fn connected(&self, a: Location, b: Location) -> (r: bool)
        requires
            self.wf(),
        ensures
            r == (spec_edge(a, b) is Some),
    {
        self.edge(a, b).is_some()
    }

    /// Can Wagner trace a Line of Communications along the M4 from Rostov to
    /// Moscow?  Moscow must hold a Wagner unit and no M4 location may hold a
    /// Russian unit.
    pub fn can_trace_loc(&self, wagner_locations: &[Location], russian_locations: &[Location]) -> (r: bool)
        ensures
            r == spec_can_trace_loc(wagner_locations@, russian_locations@),
    {
        if !slice_contains(wagner_locations, Location::Moscow) {
            return false;
        }
        let path: [Location; 7] = [
            Location::RostovOnDon,
            Location::BugaevkaBorderPoint,
            Location::Voronezh,
            Location::Lipetsk,
            Location::Tula,
            Location::OkaRiver,
            Location::Moscow,
        ];
        assert(path@ == spec_m4_path());
        let mut i: usize = 0;
        while i < 7
            invariant
                path@ == spec_m4_path(),
                i <= 7,
                forall|j: int| 0 <= j < i ==> !russian_locations@.contains(#[trigger] spec_m4_path()[j]),
            decreases 7 - i,
        {
            if slice_contains(russian_locations, path[i]) {
                return false;
            }
            i = i + 1;
        }
        true
    }

    /// Every connection once, as (from, to, properties), `from` being the
    /// endpoint that comes first in declaration order.
    pub fn all_edges(&self) -> (r: Vec<(Location, Location, EdgeProps)>)
        requires
            self.wf(),
        ensures
            forall|k: int| 0 <= k < r@.len() ==> loc_idx(#[trigger] r@[k].0) < loc_idx(r@[k].1)
                && spec_edge(r@[k].0, r@[k].1) == Some(r@[k].2),
            forall|a: Location, b: Location| loc_idx(a) < loc_idx(b) && #[trigger] spec_edge(a, b) is Some
                ==> exists|k: int| 0 <= k < r@.len() && r@[k] == (a, b, spec_edge(a, b).unwrap()),
            forall|k: int, l: int| 0 <= k < l < r@.len() ==> edge_key(r@[k].0, r@[k].1) < edge_key(r@[l].0, r@[l].1),
            r@.len() == 22,
    {
        let mut result: Vec<(Location, Location, EdgeProps)> = Vec::new();
        let mut ai: usize = 0;
        while ai < 13
            invariant
                self.wf(),
                ai <= 13,
                forall|k: int| 0 <= k < result@.len() ==> loc_idx(#[trigger] result@[k].0) < loc_idx(result@[k].1)
                    && spec_edge(result@[k].0, result@[k].1) == Some(result@[k].2)
                    && edge_key(result@[k].0, result@[k].1) < ai * 13,
                forall|a: Location, b: Location| loc_idx(a) < loc_idx(b) && #[trigger] spec_edge(a, b) is Some
                    && edge_key(a, b) < ai * 13
                    ==> exists|k: int| 0 <= k < result@.len() && result@[k] == (a, b, spec_edge(a, b).unwrap()),
                forall|k: int, l: int| 0 <= k < l < result@.len() ==> edge_key(result@[k].0, result@[k].1) < edge_key(result@[l].0, result@[l].1),
            decreases 13 - ai,
        {
            let a = Location::from_index(ai);
            let mut bi: usize = ai + 1;
            while bi < 13
                invariant
                    self.wf(),
                    ai < 13,
                    ai < bi <= 13,
                    loc_idx(a) == ai,
                    forall|k: int| 0 <= k < result@.len() ==> loc_idx(#[trigger] result@[k].0) < loc_idx(result@[k].1)
                        && spec_edge(result@[k].0, result@[k].1) == Some(result@[k].2)
                        && edge_key(result@[k].0, result@[k].1) < ai * 13 + bi,
                    forall|x: Location, b: Location| loc_idx(x) < loc_idx(b) && #[trigger] spec_edge(x, b) is Some
                        && edge_key(x, b) < ai * 13 + bi
                        ==> exists|k: int| 0 <= k < result@.len() && result@[k] == (x, b, spec_edge(x, b).unwrap()),
                    forall|k: int, l: int| 0 <= k < l < result@.len() ==> edge_key(result@[k].0, result@[k].1) < edge_key(result@[l].0, result@[l].1),
                decreases 13 - bi,
            {
                let b = Location::from_index(bi);
                let ghost before = result@;
                match self.edge(a, b) {
                    Some(p) => {
                        result.push((a, b, p));
                    },
                    None => {},
                }
                proof {
                    assert forall|x: Location, y: Location| loc_idx(x) < loc_idx(y) && #[trigger] spec_edge(x, y) is Some
                        && edge_key(x, y) < ai * 13 + bi + 1
                        implies exists|k: int| 0 <= k < result@.len() && result@[k] == (x, y, spec_edge(x, y).unwrap()) by {
                        lemma_loc_idx_bounds(x);
                        lemma_loc_idx_bounds(y);
                        if edge_key(x, y) == ai * 13 + bi {
                            assert(x == a && y == b);
                            assert(result@[result@.len() - 1] == (x, y, spec_edge(x, y).unwrap()));
                        } else {
                            let k = choose|k: int| 0 <= k < before.len() && before[k] == (x, y, spec_edge(x, y).unwrap());
                            assert(result@[k] == before[k]);
                        }
                    }
                }
                bi = bi + 1;
            }
            proof {
                assert forall|x: Location, y: Location| loc_idx(x) < loc_idx(y) && #[trigger] spec_edge(x, y) is Some
                    && edge_key(x, y) < (ai + 1) * 13
                    implies exists|k: int| 0 <= k < result@.len() && result@[k] == (x, y, spec_edge(x, y).unwrap()) by {
                    lemma_loc_idx_bounds(x);
                    lemma_loc_idx_bounds(y);
                }
            }
            ai = ai + 1;
        }
        proof {
            assert forall|x: Location, y: Location| loc_idx(x) < loc_idx(y) && #[trigger] spec_edge(x, y) is Some
                implies exists|k: int| 0 <= k < result@.len() && result@[k] == (x, y, spec_edge(x, y).unwrap()) by {
                lemma_loc_idx_bounds(x);
                lemma_loc_idx_bounds(y);
            }
            lemma_edge_list_len(result@);
        }
        result
    }
}

/// Lexicographic rank of an ordered pair of locations.
pub open spec fn edge_key(a: Location, b: Location) -> int {
    loc_idx(a) * 13 + loc_idx(b)
}

/// Does the slice hold the location?
pub fn slice_contains(s: &[Location], l: Location) -> (r: bool)
    ensures
        r == s@.contains(l),
{
    let mut i: usize = 0;
    while i < s.len()
        invariant
            i <= s@.len(),
            forall|j: int| 0 <= j < i ==> s@[j] != l,
        decreases s@.len() - i,
    {
        if s[i] == l {
            return true;
        }
        i = i + 1;
    }
    false
}

/// Line of Communications: Moscow holds Wagner and no M4 location holds Russia.
pub open spec fn spec_can_trace_loc(wagner: Seq<Location>, russian: Seq<Location>) -> bool {
    &&& wagner.contains(Location::Moscow)
    &&& forall|j: int| 0 <= j < 7 ==> !russian.contains(#[trigger] spec_m4_path()[j])
}

/// The line of communications holds exactly when Wagner holds Moscow and
/// no Russian counter stands on any of Rostov-On-Don, Bugaevka, Voronezh,
/// Lipetsk, Tula, the Oka River or Moscow.
pub proof fn law_loc_cut_by_russia_on_m4(wagner: Seq<Location>, russian: Seq<Location>)
    ensures
        spec_can_trace_loc(wagner, russian) <==> wagner.contains(Location::Moscow) && !russian.contains(
            Location::RostovOnDon,
        ) && !russian.contains(Location::BugaevkaBorderPoint) && !russian.contains(Location::Voronezh)
            && !russian.contains(Location::Lipetsk) && !russian.contains(Location::Tula) && !russian.contains(
            Location::OkaRiver,
        ) && !russian.contains(Location::Moscow),
{
    let m = spec_m4_path();
    assert(m[0] == Location::RostovOnDon && m[1] == Location::BugaevkaBorderPoint && m[2] == Location::Voronezh
        && m[3] == Location::Lipetsk && m[4] == Location::Tula && m[5] == Location::OkaRiver && m[6]
        == Location::Moscow);
}

/// Connections run both ways with the same properties.
pub proof fn law_edge_symmetric(a: Location, b: Location)
    ensures
        spec_edge(a, b) == spec_edge(b, a),
{
}

/// No location is connected to itself.
pub proof fn law_no_self_connection(a: Location)
    ensures
        spec_edge(a, a) is None,
{
}

/// A location is on the M4 exactly when it has an M4 connection.
pub proof fn law_on_m4_iff_m4_edge(a: Location)
    ensures
        spec_on_m4(a) <==> exists|b: Location| #[trigger] spec_edge(a, b) matches Some(p) && p.m4,
{
    if spec_on_m4(a) {
        let b = match a {
            Location::RostovOnDon => Location::BugaevkaBorderPoint,
            Location::BugaevkaBorderPoint => Location::Voronezh,
            Location::Voronezh => Location::Lipetsk,
            Location::Lipetsk => Location::Tula,
            Location::Tula => Location::OkaRiver,
            Location::OkaRiver => Location::Moscow,
            _ => Location::OkaRiver,
        };
        assert(spec_edge(a, b) matches Some(p) && p.m4);
    }
}

/// `p` is a walk along connections.
pub open spec fn is_walk(p: Seq<Location>) -> bool {
    &&& p.len() > 0
    &&& forall|k: int| 0 <= k < p.len() - 1 ==> #[trigger] spec_edge(p[k], p[k + 1]) is Some
}

/// A walk from `l` to Moscow.
pub open spec fn walk_to_moscow(l: Location) -> Seq<Location> {
    match l {
        Location::GroznyAkhmatBase => seq![Location::GroznyAkhmatBase] + spec_m4_path(),
        Location::RostovOnDon => spec_m4_path(),
        Location::BugaevkaBorderPoint => spec_m4_path().subrange(1, 7),
        Location::Voronezh => spec_m4_path().subrange(2, 7),
        Location::Lipetsk => spec_m4_path().subrange(3, 7),
        Location::Tula => spec_m4_path().subrange(4, 7),
        Location::OkaRiver => spec_m4_path().subrange(5, 7),
        Location::Moscow => seq![Location::Moscow],
        Location::Orel => seq![Location::Orel, Location::Kaluga, Location::Moscow],
        Location::Kaluga => seq![Location::Kaluga, Location::Moscow],
        Location::Tambov => seq![Location::Tambov, Location::Ryazan, Location::OkaRiver, Location::Moscow],
        Location::Ryazan => seq![Location::Ryazan, Location::OkaRiver, Location::Moscow],
        Location::Rublevo => seq![Location::Rublevo, Location::Moscow],
    }
}

proof fn lemma_walk_to_moscow(l: Location)
    ensures
        is_walk(walk_to_moscow(l)),
        walk_to_moscow(l)[0] == l,
        walk_to_moscow(l).last() == Location::Moscow,
{
    let m = spec_m4_path();
    assert(is_walk(m)) by {
        assert forall|k: int| 0 <= k < m.len() - 1 implies #[trigger] spec_edge(m[k], m[k + 1]) is Some by {
            assert(0 <= k < 6);
        }
    }
    let p = walk_to_moscow(l);
    assert forall|k: int| 0 <= k < p.len() - 1 implies #[trigger] spec_edge(p[k], p[k + 1]) is Some by {
        match l {
            Location::GroznyAkhmatBase => {
                if k > 0 {
                    assert(p[k] == m[k - 1] && p[k + 1] == m[k]);
                    assert(spec_edge(m[k - 1], m[(k - 1) + 1]) is Some);
                }
            },
            Location::RostovOnDon => {},
            Location::BugaevkaBorderPoint => {
                assert(p[k] == m[k + 1] && p[k + 1] == m[k + 2]);
                assert(spec_edge(m[k + 1], m[(k + 1) + 1]) is Some);
            },
            Location::Voronezh => {
                assert(p[k] == m[k + 2] && p[k + 1] == m[k + 3]);
                assert(spec_edge(m[k + 2], m[(k + 2) + 1]) is Some);
            },
            Location::Lipetsk => {
                assert(p[k] == m[k + 3] && p[k + 1] == m[k + 4]);
                assert(spec_edge(m[k + 3], m[(k + 3) + 1]) is Some);
            },
            Location::Tula => {
                assert(p[k] == m[k + 4] && p[k + 1] == m[k + 5]);
                assert(spec_edge(m[k + 4], m[(k + 4) + 1]) is Some);
            },
            Location::OkaRiver => {
                assert(p[k] == m[k + 5] && p[k + 1] == m[k + 6]);
            },
            _ => {},
        }
    }
}

proof fn lemma_walk_reverse(p: Seq<Location>)
    requires
        is_walk(p),
    ensures
        is_walk(p.reverse()),
{
    let r = p.reverse();
    assert forall|k: int| 0 <= k < r.len() - 1 implies #[trigger] spec_edge(r[k], r[k + 1]) is Some by {
        let j = p.len() - 2 - k;
        assert(r[k] == p[j + 1] && r[k + 1] == p[j]);
        assert(spec_edge(p[j], p[j + 1]) is Some);
        law_edge_symmetric(p[j], p[j + 1]);
    }
}

proof fn lemma_walk_join(p: Seq<Location>, q: Seq<Location>)
    requires
        is_walk(p),
        is_walk(q),
        p.last() == q[0],
    ensures
        is_walk(p + q.drop_first()),
        (p + q.drop_first())[0] == p[0],
        (p + q.drop_first()).last() == q.last(),
{
    let w = p + q.drop_first();
    assert forall|k: int| 0 <= k < w.len() - 1 implies #[trigger] spec_edge(w[k], w[k + 1]) is Some by {
        if k < p.len() - 1 {
            assert(w[k] == p[k] && w[k + 1] == p[k + 1]);
        } else {
            let j = k - (p.len() - 1);
            assert(w[k] == q[j] && w[k + 1] == q[j + 1]);
            assert(spec_edge(q[j], q[j + 1]) is Some);
        }
    }
}

/// The map is connected: every location can be reached from every other
/// along connections.
pub proof fn law_map_connected(a: Location, b: Location)
    ensures
        exists|p: Seq<Location>| is_walk(p) && p[0] == a && p.last() == b,
{
    lemma_walk_to_moscow(a);
    lemma_walk_to_moscow(b);
    let back = walk_to_moscow(b).reverse();
    lemma_walk_reverse(walk_to_moscow(b));
    lemma_walk_join(walk_to_moscow(a), back);
    let w = walk_to_moscow(a) + back.drop_first();
    assert(is_walk(w) && w[0] == a && w.last() == b);
}

/// The connected pairs of locations, each once, the one that comes first
/// in declaration order first.
pub open spec fn spec_connection_pairs() -> Seq<(Location, Location)> {
    seq![
        (Location::RostovOnDon, Location::GroznyAkhmatBase),
        (Location::RostovOnDon, Location::BugaevkaBorderPoint),
        (Location::BugaevkaBorderPoint, Location::Voronezh),
        (Location::Voronezh, Location::Orel),
        (Location::Voronezh, Location::Lipetsk),
        (Location::Voronezh, Location::Tambov),
        (Location::Orel, Location::Kaluga),
        (Location::Orel, Location::Tula),
        (Location::Orel, Location::Lipetsk),
        (Location::Lipetsk, Location::Tula),
        (Location::Lipetsk, Location::Tambov),
        (Location::Tambov, Location::Ryazan),
        (Location::Kaluga, Location::Tula),
        (Location::Kaluga, Location::OkaRiver),
        (Location::Kaluga, Location::Moscow),
        (Location::Kaluga, Location::Rublevo),
        (Location::Tula, Location::OkaRiver),
        (Location::Tula, Location::Ryazan),
        (Location::Ryazan, Location::OkaRiver),
        (Location::OkaRiver, Location::Moscow),
        (Location::OkaRiver, Location::Rublevo),
        (Location::Rublevo, Location::Moscow),
    ]
}

/// The map has exactly 22 connections: the list of connected pairs has 22
/// distinct entries, and two locations (in declaration order) are connected
/// exactly when the list holds them.
pub proof fn law_22_connections(a: Location, b: Location)
    ensures
        spec_connection_pairs().len() == 22,
        spec_connection_pairs().no_duplicates(),
        loc_idx(a) < loc_idx(b) ==> (spec_edge(a, b) is Some <==> spec_connection_pairs().contains((a, b))),
{
    let l = spec_connection_pairs();
    assert forall|i: int, j: int| 0 <= i < j < l.len() implies l[i] != l[j] by {
        assert(l[i].0 != l[j].0 || l[i].1 != l[j].1);
    }
        assert(spec_edge_dir(l[0].0, l[0].1) is Some);
        assert(spec_edge_dir(l[1].0, l[1].1) is Some);
        assert(spec_edge_dir(l[2].0, l[2].1) is Some);
        assert(spec_edge_dir(l[3].0, l[3].1) is Some);
        assert(spec_edge_dir(l[4].0, l[4].1) is Some);
        assert(spec_edge_dir(l[5].0, l[5].1) is Some);
        assert(spec_edge_dir(l[6].0, l[6].1) is Some);
        assert(spec_edge_dir(l[7].0, l[7].1) is Some);
        assert(spec_edge_dir(l[8].0, l[8].1) is Some);
        assert(spec_edge_dir(l[9].0, l[9].1) is Some);
        assert(spec_edge_dir(l[10].0, l[10].1) is Some);
        assert(spec_edge_dir(l[11].0, l[11].1) is Some);
        assert(spec_edge_dir(l[12].0, l[12].1) is Some);
        assert(spec_edge_dir(l[13].0, l[13].1) is Some);
        assert(spec_edge_dir(l[14].0, l[14].1) is Some);
        assert(spec_edge_dir(l[15].0, l[15].1) is Some);
        assert(spec_edge_dir(l[16].0, l[16].1) is Some);
        assert(spec_edge_dir(l[17].0, l[17].1) is Some);
        assert(spec_edge_dir(l[18].0, l[18].1) is Some);
        assert(spec_edge_dir(l[19].0, l[19].1) is Some);
        assert(spec_edge_dir(l[20].0, l[20].1) is Some);
        assert(spec_edge_dir(l[21].0, l[21].1) is Some);
    if loc_idx(a) < loc_idx(b) {
        if a == Location::RostovOnDon && b == Location::GroznyAkhmatBase {
            assert(l[0] == (a, b));
        }
        if a == Location::RostovOnDon && b == Location::BugaevkaBorderPoint {
            assert(l[1] == (a, b));
        }
        if a == Location::BugaevkaBorderPoint && b == Location::Voronezh {
            assert(l[2] == (a, b));
        }
        if a == Location::Voronezh && b == Location::Orel {
            assert(l[3] == (a, b));
        }
        if a == Location::Voronezh && b == Location::Lipetsk {
            assert(l[4] == (a, b));
        }
        if a == Location::Voronezh && b == Location::Tambov {
            assert(l[5] == (a, b));
        }
        if a == Location::Orel && b == Location::Kaluga {
            assert(l[6] == (a, b));
        }
        if a == Location::Orel && b == Location::Tula {
            assert(l[7] == (a, b));
        }
        if a == Location::Orel && b == Location::Lipetsk {
            assert(l[8] == (a, b));
        }
        if a == Location::Lipetsk && b == Location::Tula {
            assert(l[9] == (a, b));
        }
        if a == Location::Lipetsk && b == Location::Tambov {
            assert(l[10] == (a, b));
        }
        if a == Location::Tambov && b == Location::Ryazan {
            assert(l[11] == (a, b));
        }
        if a == Location::Kaluga && b == Location::Tula {
            assert(l[12] == (a, b));
        }
        if a == Location::Kaluga && b == Location::OkaRiver {
            assert(l[13] == (a, b));
        }
        if a == Location::Kaluga && b == Location::Moscow {
            assert(l[14] == (a, b));
        }
        if a == Location::Kaluga && b == Location::Rublevo {
            assert(l[15] == (a, b));
        }
        if a == Location::Tula && b == Location::OkaRiver {
            assert(l[16] == (a, b));
        }
        if a == Location::Tula && b == Location::Ryazan {
            assert(l[17] == (a, b));
        }
        if a == Location::Ryazan && b == Location::OkaRiver {
            assert(l[18] == (a, b));
        }
        if a == Location::OkaRiver && b == Location::Moscow {
            assert(l[19] == (a, b));
        }
        if a == Location::OkaRiver && b == Location::Rublevo {
            assert(l[20] == (a, b));
        }
        if a == Location::Rublevo && b == Location::Moscow {
            assert(l[21] == (a, b));
        }
        if l.contains((a, b)) {
            let k = choose|k: int| 0 <= k < l.len() && l[k] == (a, b);
            assert(spec_edge_dir(l[k].0, l[k].1) is Some);
        }
    }
}

/// A list holding every connection once, in increasing key order, has 22
/// entries.
proof fn lemma_edge_list_len(r: Seq<(Location, Location, EdgeProps)>)
    requires
        forall|k: int| 0 <= k < r.len() ==> loc_idx(#[trigger] r[k].0) < loc_idx(r[k].1) && spec_edge(
            r[k].0,
            r[k].1,
        ) == Some(r[k].2),
        forall|a: Location, b: Location| loc_idx(a) < loc_idx(b) && #[trigger] spec_edge(a, b) is Some ==> exists|
            k: int,
        | 0 <= k < r.len() && r[k] == (a, b, spec_edge(a, b).unwrap()),
        forall|k: int, l: int| 0 <= k < l < r.len() ==> edge_key(r[k].0, r[k].1) < edge_key(r[l].0, r[l].1),
    ensures
        r.len() == 22,
{
    let ks = r.map_values(|e: (Location, Location, EdgeProps)| (e.0, e.1));
    let l = spec_connection_pairs();
    law_22_connections(Location::Moscow, Location::Moscow);
    assert(ks.no_duplicates()) by {
        assert forall|i: int, j: int| 0 <= i < ks.len() && 0 <= j < ks.len() && i != j implies ks[i] != ks[j] by {
            if i < j {
                assert(edge_key(r[i].0, r[i].1) < edge_key(r[j].0, r[j].1));
            } else {
                assert(edge_key(r[j].0, r[j].1) < edge_key(r[i].0, r[i].1));
            }
        }
    }
    assert(ks.to_set() =~= l.to_set()) by {
        assert forall|p: (Location, Location)| ks.to_set().contains(p) implies l.to_set().contains(p) by {
            let k = choose|k: int| 0 <= k < ks.len() && ks[k] == p;
            assert(loc_idx(r[k].0) < loc_idx(r[k].1));
            law_22_connections(p.0, p.1);
        }
        assert forall|p: (Location, Location)| l.to_set().contains(p) implies ks.to_set().contains(p) by {
            let j = choose|j: int| 0 <= j < l.len() && l[j] == p;
            law_22_connections(p.0, p.1);
            assert(loc_idx(p.0) < loc_idx(p.1)) by {
                assert(spec_edge_dir(l[j].0, l[j].1) is Some);
            }
            let k = choose|k: int| 0 <= k < r.len() && r[k] == (p.0, p.1, spec_edge(p.0, p.1).unwrap());
            assert(ks[k] == p);
        }
    }
    ks.unique_seq_to_set();
    l.unique_seq_to_set();
}

/// Neighbours along the M4 stand at least seven rows apart on the map.
pub proof fn law_m4_neighbours_spaced(a: Location, b: Location)
    requires
        spec_edge(a, b) matches Some(p) && p.m4,
    ensures
        spec_map_pos(a).1 - spec_map_pos(b).1 >= 7 || spec_map_pos(b).1 - spec_map_pos(a).1 >= 7,
{
}

} // verus!
