//! Rules engine of a point-to-point wargame: the map, the counters, the
//! maneuver/combat track, the contact result table and the turn sequence.

pub mod map;
pub mod units;
pub mod text;
pub mod mct;
pub mod dice;
pub mod combat;
pub mod game;
pub mod movement;
pub mod reach;
pub mod contact;
pub mod turn;
pub mod hops;
pub mod russian;
pub mod stacking;
pub mod ai;
pub mod input;
pub mod save;
pub mod line;
