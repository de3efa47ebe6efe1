//! The turn sequence: Administration, Wagner turn, End Turn with the
//! momentum questions (rulebook 8.1) and the turn limit.

use vstd::prelude::*;
use vstd::string::*;

use crate::contact::home_of;
use crate::game::{
    lemma_log_extends_refl, lemma_log_extends_trans, lemma_logged_none, lemma_logged_trans, log_entries, log_extends,
    log_view, logged, side_occupies, GameState, Phase, Screen,
};
use crate::map::{spec_location_name, Location};
use crate::text::{spec_int_str, spec_signed_str};
use crate::units::{spec_unit_name, Side, Unit};

verus! {

/// Dispersed counters return to their home location.
pub open spec fn spec_return_dispersed(units: Seq<Unit>) -> Seq<Unit> {
    Seq::new(
        units.len(),
        |i: int|
            if units[i].dispersed {
                Unit { location: Some(home_of(units[i].side)), dispersed: false, ..units[i] }
            } else {
                units[i]
            },
    )
}

/// The log messages of the counters returning from dispersal, in counter
/// order among the first `n`.
pub open spec fn spec_dispersal_msgs(units: Seq<Unit>, n: nat) -> Seq<Seq<char>>
    decreases n,
{
    if n == 0 {
        Seq::empty()
    } else {
        let u = units[n - 1];
        spec_dispersal_msgs(units, (n - 1) as nat) + if u.dispersed {
            seq![spec_unit_name(u.id) + " returns from dispersal to "@ + spec_location_name(home_of(u.side))]
        } else {
            Seq::empty()
        }
    }
}

/// Every counter with its spent MP reset.
pub open spec fn spec_reset_mp(units: Seq<Unit>) -> Seq<Unit> {
    Seq::new(units.len(), |i: int| Unit { mp_spent: 0, ..units[i] })
}

/// Momentum change at the end of a turn (rulebook 8.1): +1 Wagner in
/// Rublevo, +1 Russian unit reduced, +2 Wagner in Moscow, +2 Russian unit
/// eliminated, -1 Russia in Rostov, -1 Wagner repulsed, -2 Wagner unit
/// reduced, -3 Wagner unit eliminated.
pub open spec fn spec_momentum_delta(g: GameState) -> int {
    (if side_occupies(g.units@, Side::Wagner, Location::Rublevo) {
        1int
    } else {
        0
    }) + (if g.russian_reduced_this_turn {
        1int
    } else {
        0
    }) + (if side_occupies(g.units@, Side::Wagner, Location::Moscow) {
        2int
    } else {
        0
    }) + (if g.russian_eliminated_this_turn {
        2int
    } else {
        0
    }) - (if side_occupies(g.units@, Side::Russia, Location::RostovOnDon) {
        1int
    } else {
        0
    }) - (if g.wagner_repulsed_this_turn {
        1int
    } else {
        0
    }) - (if g.wagner_reduced_this_turn {
        2int
    } else {
        0
    }) - (if g.wagner_eliminated_this_turn {
        3int
    } else {
        0
    })
}

pub open spec fn clamp_momentum(m: int) -> int {
    if m < -3 {
        -3
    } else if m > 3 {
        3
    } else {
        m
    }
}

/// The log messages of the momentum questions that apply (rulebook 8.1),
/// in the order they are asked.
#[verifier::opaque]
pub open spec fn spec_momentum_msgs(g: GameState) -> Seq<Seq<char>> {
    (if side_occupies(g.units@, Side::Wagner, Location::Rublevo) {
        seq!["Momentum +1: Wagner occupies Rublevo."@]
    } else {
        Seq::empty()
    }) + (if g.russian_reduced_this_turn {
        seq!["Momentum +1: Russian unit reduced this turn."@]
    } else {
        Seq::empty()
    }) + (if side_occupies(g.units@, Side::Wagner, Location::Moscow) {
        seq!["Momentum +2: Wagner occupies Moscow."@]
    } else {
        Seq::empty()
    }) + (if g.russian_eliminated_this_turn {
        seq!["Momentum +2: Russian unit eliminated this turn."@]
    } else {
        Seq::empty()
    }) + (if side_occupies(g.units@, Side::Russia, Location::RostovOnDon) {
        seq!["Momentum -1: Russia occupies Rostov."@]
    } else {
        Seq::empty()
    }) + (if g.wagner_repulsed_this_turn {
        seq!["Momentum -1: Wagner unit repulsed this turn."@]
    } else {
        Seq::empty()
    }) + (if g.wagner_reduced_this_turn {
        seq!["Momentum -2: Wagner unit reduced this turn."@]
    } else {
        Seq::empty()
    }) + (if g.wagner_eliminated_this_turn {
        seq!["Momentum -3: Wagner unit eliminated this turn."@]
    } else {
        Seq::empty()
    })
}

/// The log message of the momentum change, when there is one.
#[verifier::opaque]
pub open spec fn spec_delta_msgs(g: GameState) -> Seq<Seq<char>> {
    let d = spec_momentum_delta(g);
    if d != 0 {
        seq![
            "Momentum: "@ + spec_signed_str(g.momentum as int) + " → "@ + spec_signed_str(
                clamp_momentum(g.momentum + d),
            ) + " (delta "@ + spec_signed_str(d) + ")"@,
        ]
    } else {
        Seq::empty()
    }
}

/// The log lines of the end of a turn: the momentum answers and change on
/// the old turn, the advance on the new one, and the counters returning
/// from dispersal when the game goes on.
pub open spec fn spec_end_turn_log(a: GameState) -> Seq<Seq<char>> {
    let t = (a.turn + 1) as i32;
    log_entries(a.turn, spec_momentum_msgs(a) + spec_delta_msgs(a)) + log_entries(
        t,
        seq!["Turn advanced to "@ + spec_int_str(t as int) + "."@] + if t <= LAST_TURN {
            spec_dispersal_msgs(a.units@, 12)
        } else {
            Seq::empty()
        },
    )
}

/// The Administration Phase opens: dispersed counters return, the MCT
/// menu shows, and no Wagner counter has been adjusted yet.
pub open spec fn administration_step(a: GameState, b: GameState) -> bool {
    &&& b.units@ == spec_return_dispersed(a.units@)
    &&& logged(a, b, spec_dispersal_msgs(a.units@, 12))
    &&& b.phase == Phase::Administration
    &&& b.screen is MctSelect
    &&& b.cursor == 0
    &&& b.admin_units_adjusted@ == seq![false, false, false]
    &&& b == (GameState {
        units: b.units,
        log: b.log,
        phase: b.phase,
        screen: b.screen,
        cursor: b.cursor,
        admin_units_adjusted: b.admin_units_adjusted,
        ..a
    })
    &&& log_extends(a, b)
}

/// The Wagner Player Turn opens: every counter's spent MP returns to 0.
pub open spec fn wagner_turn_step(a: GameState, b: GameState) -> bool {
    &&& b.units@ == spec_reset_mp(a.units@)
    &&& b == (GameState {
        units: b.units,
        log: b.log,
        phase: Phase::WagnerTurn,
        screen: b.screen,
        cursor: 0,
        ..a
    })
    &&& b.screen is PhaseMenu
    &&& b.log@.len() == a.log@.len() + 1
    &&& log_extends(a, b)
    &&& b.log@.last()@ == a.spec_log_entry("Wagner Player Turn begins."@)
}

/// The End Turn phase opens on the momentum questions.
pub open spec fn end_turn_phase_step(a: GameState, b: GameState) -> bool {
    &&& b.screen is EndTurnConfirm
    &&& b == (GameState {
        phase: Phase::EndTurn,
        screen: b.screen,
        cursor: 0,
        ..a
    })
}

/// End of turn (8.1): momentum moves by the questions' total, clamped to
/// the track; the turn flags clear; the turn advances; after the last turn
/// the game is over, else the Administration Phase opens.
pub open spec fn end_turn_step(a: GameState, b: GameState) -> bool {
    &&& log_extends(a, b)
    &&& log_view(b) == log_view(a) + spec_end_turn_log(a)
    &&& b.momentum == clamp_momentum(a.momentum + spec_momentum_delta(a))
    &&& b.turn == a.turn + 1
    &&& !b.russian_reduced_this_turn
    &&& !b.russian_eliminated_this_turn
    &&& !b.wagner_repulsed_this_turn
    &&& !b.wagner_reduced_this_turn
    &&& !b.wagner_eliminated_this_turn
    &&& a.turn + 1 > LAST_TURN ==> {
        &&& b.screen matches Screen::GameOver { wagner_wins } && !wagner_wins
        &&& b == (GameState {
            log: b.log,
            momentum: b.momentum,
            turn: b.turn,
            screen: b.screen,
            russian_reduced_this_turn: false,
            russian_eliminated_this_turn: false,
            wagner_repulsed_this_turn: false,
            wagner_reduced_this_turn: false,
            wagner_eliminated_this_turn: false,
            ..a
        })
    }
    &&& a.turn + 1 <= LAST_TURN ==> {
        &&& b.units@ == spec_return_dispersed(a.units@)
        &&& b.phase == Phase::Administration
        &&& b.screen is MctSelect
        &&& b.cursor == 0
        &&& b.admin_units_adjusted@ == seq![false, false, false]
        &&& b == (GameState {
            units: b.units,
            log: b.log,
            momentum: b.momentum,
            turn: b.turn,
            phase: b.phase,
            screen: b.screen,
            cursor: b.cursor,
            admin_units_adjusted: b.admin_units_adjusted,
            russian_reduced_this_turn: false,
            russian_eliminated_this_turn: false,
            wagner_repulsed_this_turn: false,
            wagner_reduced_this_turn: false,
            wagner_eliminated_this_turn: false,
            ..a
        })
    }
}

/// The game ends after the sixth turn.
pub const LAST_TURN: i32 = 6;

/// Log text of a momentum change.
fn delta_msg(old_m: i32, new_m: i32, delta: i32) -> (r: String)
    ensures
        r@ == "Momentum: "@ + spec_signed_str(old_m as int) + " → "@ + spec_signed_str(new_m as int) + " (delta "@
            + spec_signed_str(delta as int) + ")"@,
{
    let mut m = String::from_str("Momentum: ");
    m.append(crate::text::i64_to_signed_string(old_m as i64).as_str());
    m.append(" → ");
    m.append(crate::text::i64_to_signed_string(new_m as i64).as_str());
    m.append(" (delta ");
    m.append(crate::text::i64_to_signed_string(delta as i64).as_str());
    m.append(")");
    m
}

impl GameState {
    pub fn start_administration(&mut self)
        requires
            old(self).wf(),
        ensures
            final(self).wf(),
            administration_step(*old(self), *final(self)),
    {
        let mut i: usize = 0;
        proof {
            lemma_log_extends_refl(*self);
            lemma_logged_none(*self);
        }
        while i < self.units.len()
            invariant
                self.wf(),
                i <= 12,
                *self == (GameState { units: self.units, log: self.log, ..*old(self) }),
                log_extends(*old(self), *self),
                logged(*old(self), *self, spec_dispersal_msgs(old(self).units@, i as nat)),
                self.units@.len() == 12,
                old(self).units@.len() == 12,
                forall|k: int| 0 <= k < i ==> #[trigger] self.units@[k] == spec_return_dispersed(old(self).units@)[k],
                forall|k: int| i <= k < 12 ==> #[trigger] self.units@[k] == old(self).units@[k],
            decreases 12 - i,
        {
            if self.units[i].dispersed {
                let ghost before = *self;
                self.return_from_dispersal(i);
                proof {
                    lemma_log_extends_trans(*old(self), before, *self);
                    let u = old(self).units@[i as int];
                    lemma_logged_trans(
                        *old(self),
                        before,
                        *self,
                        spec_dispersal_msgs(old(self).units@, i as nat),
                        seq![spec_unit_name(u.id) + " returns from dispersal to "@ + spec_location_name(home_of(u.side))],
                    );
                }
            } else {
                proof {
                    assert(spec_dispersal_msgs(old(self).units@, (i + 1) as nat) =~= spec_dispersal_msgs(
                        old(self).units@,
                        i as nat,
                    ));
                }
            }
            i = i + 1;
        }
        proof {
            assert(self.units@ =~= spec_return_dispersed(old(self).units@));
        }
        self.phase = Phase::Administration;
        self.screen = Screen::MctSelect;
        self.cursor = 0;
        self.admin_units_adjusted = [false, false, false];
    }

    fn return_from_dispersal(&mut self, i: usize)
        requires
            old(self).wf(),
            i < 12,
        ensures
            final(self).wf(),
            final(self).units@ == old(self).units@.update(
                i as int,
                Unit {
                    location: Some(home_of(old(self).units@[i as int].side)),
                    dispersed: false,
                    ..old(self).units@[i as int]
                },
            ),
            *final(self) == (GameState { units: final(self).units, log: final(self).log, ..*old(self) }),
            log_extends(*old(self), *final(self)),
            logged(
                *old(self),
                *final(self),
                seq![spec_unit_name(old(self).units@[i as int].id) + " returns from dispersal to "@ + spec_location_name(
                    home_of(old(self).units@[i as int].side),
                )],
            ),
    {
        let mut u = self.units[i];
        let name = u.id.name();
        let home = if u.is_wagner() {
            Location::RostovOnDon
        } else {
            Location::Moscow
        };
        u.location = Some(home);
        u.dispersed = false;
        self.set_unit(i, u);
        let mut m = String::from_str(name);
        m.append(" returns from dispersal to ");
        m.append(home.name());
        self.record(m);
    }

    #[verifier::rlimit(40)]
    pub fn start_wagner_turn(&mut self)
        requires
            old(self).wf(),
        ensures
            final(self).wf(),
            wagner_turn_step(*old(self), *final(self)),
    {
        self.phase = Phase::WagnerTurn;
        self.screen = Screen::PhaseMenu;
        self.cursor = 0;
        let mut i: usize = 0;
        while i < self.units.len()
            invariant
                self.wf(),
                i <= 12,
                *self == (GameState {
                    units: self.units,
                    phase: Phase::WagnerTurn,
                    screen: self.screen,
                    cursor: 0,
                    ..*old(self)
                }),
                self.screen is PhaseMenu,
                self.units@.len() == 12,
                old(self).units@.len() == 12,
                forall|k: int| 0 <= k < i ==> #[trigger] self.units@[k] == spec_reset_mp(old(self).units@)[k],
                forall|k: int| i <= k < 12 ==> #[trigger] self.units@[k] == old(self).units@[k],
            decreases 12 - i,
        {
            let mut u = self.units[i];
            u.reset_mp();
            self.set_unit(i, u);
            i = i + 1;
        }
        proof {
            assert(self.units@ =~= spec_reset_mp(old(self).units@));
        }
        self.record(String::from_str("Wagner Player Turn begins."));
    }

    pub fn start_end_turn_phase(&mut self)
        ensures
            end_turn_phase_step(*old(self), *final(self)),
    {
        self.phase = Phase::EndTurn;
        self.screen = Screen::EndTurnConfirm;
        self.cursor = 0;
    }

    /// Does some unit of `side` stand at `loc`?
    fn any_side_at(&self, side: Side, loc: Location) -> (r: bool)
        ensures
            r == side_occupies(self.units@, side, loc),
    {
        let mut i: usize = 0;
        while i < self.units.len()
            invariant
                i <= self.units@.len(),
                forall|j: int| 0 <= j < i ==> !(self.units@[j].side == side && self.units@[j].location == Some(loc)),
            decreases self.units@.len() - i,
        {
            if self.units[i].side == side && self.units[i].location == Some(loc) {
                return true;
            }
            i = i + 1;
        }
        false
    }

    /// The momentum change of this turn, logging each answer.
    fn momentum_questions(&mut self) -> (r: i32)
        requires
            old(self).wf(),
        ensures
            r == spec_momentum_delta(*old(self)),
            *final(self) == (GameState { log: final(self).log, ..*old(self) }),
            log_extends(*old(self), *final(self)),
            logged(*old(self), *final(self), spec_momentum_msgs(*old(self))),
    {
        let ghost g0 = *self;
        let mut delta: i32 = 0;
        let wagner_in_rublevo = self.any_side_at(Side::Wagner, Location::Rublevo);
        let wagner_in_moscow = self.any_side_at(Side::Wagner, Location::Moscow);
        let russia_in_rostov = self.any_side_at(Side::Russia, Location::RostovOnDon);
        proof {
            lemma_log_extends_refl(*self);
            lemma_logged_none(*self);
        }
        let ghost mut msgs: Seq<Seq<char>> = Seq::empty();
        if wagner_in_rublevo {
            delta = delta + 1;
            let ghost before = *self;
            self.record_step(Ghost(g0), "Momentum +1: Wagner occupies Rublevo.");
            proof {
                lemma_logged_trans(g0, before, *self, msgs, seq!["Momentum +1: Wagner occupies Rublevo."@]);
                msgs = msgs + seq!["Momentum +1: Wagner occupies Rublevo."@];
            }
        } else {
            proof {
                assert(msgs + Seq::<Seq<char>>::empty() =~= msgs);
            }
        }
        if self.russian_reduced_this_turn {
            delta = delta + 1;
            let ghost before = *self;
            self.record_step(Ghost(g0), "Momentum +1: Russian unit reduced this turn.");
            proof {
                lemma_logged_trans(g0, before, *self, msgs, seq!["Momentum +1: Russian unit reduced this turn."@]);
                msgs = msgs + seq!["Momentum +1: Russian unit reduced this turn."@];
            }
        } else {
            proof {
                assert(msgs + Seq::<Seq<char>>::empty() =~= msgs);
            }
        }
        if wagner_in_moscow {
            delta = delta + 2;
            let ghost before = *self;
            self.record_step(Ghost(g0), "Momentum +2: Wagner occupies Moscow.");
            proof {
                lemma_logged_trans(g0, before, *self, msgs, seq!["Momentum +2: Wagner occupies Moscow."@]);
                msgs = msgs + seq!["Momentum +2: Wagner occupies Moscow."@];
            }
        } else {
            proof {
                assert(msgs + Seq::<Seq<char>>::empty() =~= msgs);
            }
        }
        if self.russian_eliminated_this_turn {
            delta = delta + 2;
            let ghost before = *self;
            self.record_step(Ghost(g0), "Momentum +2: Russian unit eliminated this turn.");
            proof {
                lemma_logged_trans(g0, before, *self, msgs, seq!["Momentum +2: Russian unit eliminated this turn."@]);
                msgs = msgs + seq!["Momentum +2: Russian unit eliminated this turn."@];
            }
        } else {
            proof {
                assert(msgs + Seq::<Seq<char>>::empty() =~= msgs);
            }
        }
        if russia_in_rostov {
            delta = delta - 1;
            let ghost before = *self;
            self.record_step(Ghost(g0), "Momentum -1: Russia occupies Rostov.");
            proof {
                lemma_logged_trans(g0, before, *self, msgs, seq!["Momentum -1: Russia occupies Rostov."@]);
                msgs = msgs + seq!["Momentum -1: Russia occupies Rostov."@];
            }
        } else {
            proof {
                assert(msgs + Seq::<Seq<char>>::empty() =~= msgs);
            }
        }
        if self.wagner_repulsed_this_turn {
            delta = delta - 1;
            let ghost before = *self;
            self.record_step(Ghost(g0), "Momentum -1: Wagner unit repulsed this turn.");
            proof {
                lemma_logged_trans(g0, before, *self, msgs, seq!["Momentum -1: Wagner unit repulsed this turn."@]);
                msgs = msgs + seq!["Momentum -1: Wagner unit repulsed this turn."@];
            }
        } else {
            proof {
                assert(msgs + Seq::<Seq<char>>::empty() =~= msgs);
            }
        }
        if self.wagner_reduced_this_turn {
            delta = delta - 2;
            let ghost before = *self;
            self.record_step(Ghost(g0), "Momentum -2: Wagner unit reduced this turn.");
            proof {
                lemma_logged_trans(g0, before, *self, msgs, seq!["Momentum -2: Wagner unit reduced this turn."@]);
                msgs = msgs + seq!["Momentum -2: Wagner unit reduced this turn."@];
            }
        } else {
            proof {
                assert(msgs + Seq::<Seq<char>>::empty() =~= msgs);
            }
        }
        if self.wagner_eliminated_this_turn {
            delta = delta - 3;
            let ghost before = *self;
            self.record_step(Ghost(g0), "Momentum -3: Wagner unit eliminated this turn.");
            proof {
                lemma_logged_trans(g0, before, *self, msgs, seq!["Momentum -3: Wagner unit eliminated this turn."@]);
                msgs = msgs + seq!["Momentum -3: Wagner unit eliminated this turn."@];
            }
        } else {
            proof {
                assert(msgs + Seq::<Seq<char>>::empty() =~= msgs);
            }
        }
        proof {
            reveal(spec_momentum_msgs);
            assert(msgs =~= spec_momentum_msgs(g0));
        }
        delta
    }

    /// Log `msg`, keeping the log an extension of `g0`'s.
    fn record_step(&mut self, Ghost(g0): Ghost<GameState>, msg: &str)
        requires
            log_extends(g0, *old(self)),
        ensures
            *final(self) == (GameState { log: final(self).log, ..*old(self) }),
            log_extends(g0, *final(self)),
            logged(*old(self), *final(self), seq![msg@]),
    {
        let ghost before = *self;
        self.record(String::from_str(msg));
        proof {
            lemma_log_extends_trans(g0, before, *self);
        }
    }

    /// The momentum questions (rulebook 8.1) and the momentum change,
    /// logged.
    #[verifier::rlimit(60)]
    fn settle_momentum(&mut self)
        requires
            old(self).wf(),
        ensures
            final(self).wf(),
            *final(self) == (GameState {
                log: final(self).log,
                momentum: clamp_momentum(old(self).momentum + spec_momentum_delta(*old(self))) as i32,
                ..*old(self)
            }),
            log_extends(*old(self), *final(self)),
            log_view(*final(self)) == log_view(*old(self)) + log_entries(
                old(self).turn,
                spec_momentum_msgs(*old(self)) + spec_delta_msgs(*old(self)),
            ),
    {
        let ghost g0 = *self;
        let delta = self.momentum_questions();
        let ghost s1 = *self;
        let old_m = self.momentum;
        let sum = self.momentum + delta;
        self.momentum = if sum < -3 {
            -3
        } else if sum > 3 {
            3
        } else {
            sum
        };
        if delta != 0 {
            let m = delta_msg(old_m, self.momentum, delta);
            let ghost before = *self;
            self.record(m);
            proof {
                lemma_log_extends_trans(g0, before, *self);
                reveal(spec_delta_msgs);
                assert(log_view(*self) =~= log_view(s1) + log_entries(g0.turn, spec_delta_msgs(g0)));
            }
        } else {
            proof {
                reveal(spec_delta_msgs);
                assert(log_view(*self) =~= log_view(s1) + log_entries(g0.turn, spec_delta_msgs(g0)));
            }
        }
        proof {
            assert(log_entries(g0.turn, spec_momentum_msgs(g0) + spec_delta_msgs(g0)) =~= log_entries(
                g0.turn,
                spec_momentum_msgs(g0),
            ) + log_entries(g0.turn, spec_delta_msgs(g0)));
        }
    }

    /// Apply the momentum questions (rulebook 8.1), then advance the turn;
    /// after the last turn the game is over.
    #[verifier::rlimit(40)]
    pub fn end_turn(&mut self)
        requires
            old(self).wf(),
            old(self).turn < i32::MAX,
        ensures
            final(self).wf(),
            end_turn_step(*old(self), *final(self)),
    {
        let ghost g0 = *self;
        self.settle_momentum();
        self.russian_reduced_this_turn = false;
        self.russian_eliminated_this_turn = false;
        self.wagner_repulsed_this_turn = false;
        self.wagner_reduced_this_turn = false;
        self.wagner_eliminated_this_turn = false;
        self.turn = self.turn + 1;
        let mut m = String::from_str("Turn advanced to ");
        m.append(crate::text::i64_to_string(self.turn as i64).as_str());
        m.append(".");
        let ghost before = *self;
        self.record(m);
        proof {
            lemma_log_extends_trans(g0, before, *self);
        }
        if self.turn > LAST_TURN {
            self.screen = Screen::GameOver { wagner_wins: false };
            proof {
                assert(log_view(*self) =~= log_view(g0) + spec_end_turn_log(g0));
            }
        } else {
            let ghost before2 = *self;
            self.start_administration();
            proof {
                lemma_log_extends_trans(g0, before2, *self);
                let t = (g0.turn + 1) as i32;
                assert(log_entries(t, seq!["Turn advanced to "@ + spec_int_str(t as int) + "."@] + spec_dispersal_msgs(
                    g0.units@,
                    12,
                )) =~= log_entries(t, seq!["Turn advanced to "@ + spec_int_str(t as int) + "."@]) + log_entries(
                    t,
                    spec_dispersal_msgs(g0.units@, 12),
                ));
                assert(log_view(*self) =~= log_view(g0) + spec_end_turn_log(g0));
            }
        }
    }
}

/// Each momentum question about the turn's events moves momentum by its
/// own weight, whatever else happened: +1 for a Russian counter reduced,
/// +2 for one eliminated, -1 for a Wagner counter repulsed, -2 for one
/// reduced, -3 for one eliminated.
pub proof fn law_momentum_question_weights(g: GameState)
    ensures
        spec_momentum_delta(GameState { russian_reduced_this_turn: true, ..g }) == spec_momentum_delta(
            GameState { russian_reduced_this_turn: false, ..g },
        ) + 1,
        spec_momentum_delta(GameState { russian_eliminated_this_turn: true, ..g }) == spec_momentum_delta(
            GameState { russian_eliminated_this_turn: false, ..g },
        ) + 2,
        spec_momentum_delta(GameState { wagner_repulsed_this_turn: true, ..g }) == spec_momentum_delta(
            GameState { wagner_repulsed_this_turn: false, ..g },
        ) - 1,
        spec_momentum_delta(GameState { wagner_reduced_this_turn: true, ..g }) == spec_momentum_delta(
            GameState { wagner_reduced_this_turn: false, ..g },
        ) - 2,
        spec_momentum_delta(GameState { wagner_eliminated_this_turn: true, ..g }) == spec_momentum_delta(
            GameState { wagner_eliminated_this_turn: false, ..g },
        ) - 3,
{
    let w = side_occupies(g.units@, Side::Wagner, Location::Rublevo);
    let m = side_occupies(g.units@, Side::Wagner, Location::Moscow);
    let r = side_occupies(g.units@, Side::Russia, Location::RostovOnDon);
    assert forall|h: GameState| h.units == g.units implies {
        &&& side_occupies(h.units@, Side::Wagner, Location::Rublevo) == w
        &&& side_occupies(h.units@, Side::Wagner, Location::Moscow) == m
        &&& side_occupies(h.units@, Side::Russia, Location::RostovOnDon) == r
    } by {}
}

/// With no event of the turn to count, momentum moves only for who holds
/// the key locations: +1 for Wagner in Rublevo, +2 for Wagner in Moscow,
/// -1 for Russia in Rostov-On-Don.
pub proof fn law_momentum_by_occupation(g: GameState)
    requires
        !g.russian_reduced_this_turn,
        !g.russian_eliminated_this_turn,
        !g.wagner_repulsed_this_turn,
        !g.wagner_reduced_this_turn,
        !g.wagner_eliminated_this_turn,
    ensures
        spec_momentum_delta(g) == (if side_occupies(g.units@, Side::Wagner, Location::Rublevo) {
            1int
        } else {
            0int
        }) + (if side_occupies(g.units@, Side::Wagner, Location::Moscow) {
            2int
        } else {
            0int
        }) - (if side_occupies(g.units@, Side::Russia, Location::RostovOnDon) {
            1int
        } else {
            0int
        }),
{
}

/// When the only event of the turn is a Wagner counter eliminated, and no
/// key location counts, the end of turn takes three from momentum, never
/// below the bottom of the track.
pub proof fn law_wagner_elimination_costs_three(a: GameState, b: GameState)
    requires
        end_turn_step(a, b),
        a.wagner_eliminated_this_turn,
        !a.russian_reduced_this_turn,
        !a.russian_eliminated_this_turn,
        !a.wagner_repulsed_this_turn,
        !a.wagner_reduced_this_turn,
        !side_occupies(a.units@, Side::Wagner, Location::Rublevo),
        !side_occupies(a.units@, Side::Wagner, Location::Moscow),
        !side_occupies(a.units@, Side::Russia, Location::RostovOnDon),
        -3 <= a.momentum <= 3,
    ensures
        b.momentum == if a.momentum - 3 < -3 {
            -3
        } else {
            a.momentum - 3
        },
{
    law_momentum_question_weights(GameState { wagner_eliminated_this_turn: false, ..a });
    law_momentum_by_occupation(GameState { wagner_eliminated_this_turn: false, ..a });
    assert(GameState { wagner_eliminated_this_turn: true, ..GameState { wagner_eliminated_this_turn: false, ..a } }
        == a);
}

/// At the end of turn momentum moves by the questions' total and stays on
/// the track from -3 to +3: a total that leaves the track stops at its end.
pub proof fn law_end_turn_momentum(a: GameState, b: GameState)
    requires
        end_turn_step(a, b),
    ensures
        -3 <= a.momentum + spec_momentum_delta(a) <= 3 ==> b.momentum == a.momentum + spec_momentum_delta(a),
        a.momentum + spec_momentum_delta(a) > 3 ==> b.momentum == 3,
        a.momentum + spec_momentum_delta(a) < -3 ==> b.momentum == -3,
{
}

} // verus!
