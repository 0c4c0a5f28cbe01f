//! The engine as mathematics: its state, and what one step makes of it.

use vstd::prelude::*;
use crate::bits::byte_bits;
use crate::command::{command_at, Command};
use crate::direction::Direction;
use crate::field::Field;
use crate::grid::{contains, put};

verus! {

/// All that the engine holds between two steps.
pub struct State {
    /// The garden, row by row.
    pub garden: Seq<Seq<Field>>,
    /// Row and column of the head while it is within the garden; `None` once
    /// it has left.
    pub head: Option<(int, int)>,
    /// The direction in which the head moves.
    pub facing: Direction,
    /// Set by command 3: the next planting is cancelled.
    pub suppress_plant: bool,
    /// Set by command 4: the next harvest is cancelled.
    pub suppress_harvest: bool,
    /// Set by command 5: the command after the next harvest is cancelled.
    pub suppress_execute: bool,
    /// The bits of the last input byte that no command has taken yet, least
    /// significant first.
    pub unread: Seq<bool>,
    /// Every bit that was appended to the output, in order.
    pub written: Seq<bool>,
}

/// The state in which the engine starts on `garden`: the head in the top
/// left corner, facing right, no flag set, no bit read or written. On a
/// garden without fields the head has nowhere to stand and has left at once.
pub open spec fn start(garden: Seq<Seq<Field>>) -> State {
    State {
        garden,
        head: if contains(garden, 0, 0) {
            Some((0int, 0int))
        } else {
            None
        },
        facing: Direction::Right,
        suppress_plant: false,
        suppress_harvest: false,
        suppress_execute: false,
        unread: Seq::empty(),
        written: Seq::empty(),
    }
}

/// The place one move in direction `facing` from row `r`, column `c`, if it
/// lies within `garden`.
pub open spec fn target(garden: Seq<Seq<Field>>, r: int, c: int, facing: Direction) -> Option<
    (int, int),
> {
    if contains(garden, r + facing.spec_dr(), c + facing.spec_dc()) {
        Some((r + facing.spec_dr(), c + facing.spec_dc()))
    } else {
        None
    }
}

/// What `command` makes of `s` when the head stands on row `r`, column `c`.
///
/// `fresh` is what the input source gave, and is looked at only where the
/// command is `Input` and no unread bit is left: `None` says that the source
/// is exhausted, and then the command does nothing.
pub open spec fn perform(s: State, r: int, c: int, command: Command, fresh: Option<u8>) -> State {
    match command {
        Command::Output => match target(s.garden, r, c, s.facing) {
            Some((nr, nc)) => State {
                written: s.written.push(s.garden[nr][nc] == Field::Planted),
                ..s
            },
            None => s,
        },
        Command::TurnLeft => State { facing: s.facing.spec_turn_left(), ..s },
        Command::TurnRight => State { facing: s.facing.spec_turn_right(), ..s },
        Command::SuppressPlant => State { suppress_plant: true, ..s },
        Command::SuppressHarvest => State { suppress_harvest: true, ..s },
        Command::SuppressExecute => State { suppress_execute: true, ..s },
        Command::Input => {
            let bits = if s.unread.len() > 0 {
                s.unread
            } else {
                match fresh {
                    Some(byte) => byte_bits(byte),
                    None => Seq::empty(),
                }
            };
            if bits.len() == 0 {
                s
            } else {
                State {
                    garden: if bits[0] {
                        put(s.garden, r, c, Field::Planted)
                    } else {
                        s.garden
                    },
                    unread: bits.drop_first(),
                    ..s
                }
            }
        },
    }
}

/// What the head does to the field on row `r`, column `c` that it stands on.
///
/// An inert field is left alone. An open field is planted, unless planting is
/// suppressed. A planted field is harvested, unless harvesting is suppressed;
/// after a harvest the command of the place is executed, unless that is
/// suppressed. A flag that cancels something is cleared by it.
pub open spec fn visit(s: State, r: int, c: int, fresh: Option<u8>) -> State {
    match s.garden[r][c] {
        Field::Inert => s,
        Field::Open => if s.suppress_plant {
            State { suppress_plant: false, ..s }
        } else {
            State { garden: put(s.garden, r, c, Field::Planted), ..s }
        },
        Field::Planted => if s.suppress_harvest {
            State { suppress_harvest: false, ..s }
        } else {
            let harvested = State { garden: put(s.garden, r, c, Field::Open), ..s };
            if s.suppress_execute {
                State { suppress_execute: false, ..harvested }
            } else {
                perform(harvested, r, c, command_at(harvested.garden, r, c), fresh)
            }
        },
    }
}

/// One step: the head visits the field it stands on and then moves on by
/// one place, in the direction it faces after the visit. Once the head has
/// left the garden nothing changes any more.
pub open spec fn step(s: State, fresh: Option<u8>) -> State {
    match s.head {
        Some((r, c)) => {
            let visited = visit(s, r, c, fresh);
            State { head: target(visited.garden, r, c, visited.facing), ..visited }
        },
        None => s,
    }
}

/// Whether the next step asks the input source for a byte: the head is
/// about to harvest, the command of its place is `Input`, and no unread bit
/// is left.
pub open spec fn awaits_input(s: State) -> bool {
    match s.head {
        Some((r, c)) => {
            &&& s.garden[r][c] == Field::Planted
            &&& !s.suppress_harvest
            &&& !s.suppress_execute
            &&& command_at(s.garden, r, c) == Command::Input
            &&& s.unread.len() == 0
        },
        None => false,
    }
}

/// Where a run has got to.
pub struct Course {
    /// The state that was reached.
    pub state: State,
    /// The number of steps that were taken.
    pub steps: nat,
    /// The number of input bytes that were taken from the source.
    pub consumed: nat,
}

/// A run from `s` of at most `budget` steps, with `input` as what the source
/// still holds. It ends when the head has left the garden, and no sooner
/// unless the budget runs out. A step that asks for input takes the next
/// byte, and finds the source exhausted where there is none.
pub open spec fn course(s: State, input: Seq<u8>, budget: nat) -> Course
    decreases budget,
{
    if budget == 0 || s.head is None {
        Course { state: s, steps: 0, consumed: 0 }
    } else if awaits_input(s) && input.len() > 0 {
        let rest = course(step(s, Some(input[0])), input.drop_first(), (budget - 1) as nat);
        Course { state: rest.state, steps: rest.steps + 1, consumed: rest.consumed + 1 }
    } else {
        let rest = course(step(s, None), input, (budget - 1) as nat);
        Course { state: rest.state, steps: rest.steps + 1, consumed: rest.consumed }
    }
}

} // verus!
