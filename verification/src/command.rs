//! The seven commands, and how a harvest picks one from the fields around it.

use vstd::prelude::*;
use crate::field::Field;
use crate::grid::{contains, put, value_at, Grid};

verus! {

/// What the head does after a harvest.
#[derive(Clone, Copy, PartialEq, Eq, Debug, Structural)]
pub enum Command {
    /// 0: append the value of the field ahead to the output, as one bit.
    Output,
    /// 1: turn from `(dr, dc)` to `(-dc, dr)`.
    TurnLeft,
    /// 2: turn from `(dr, dc)` to `(dc, -dr)`.
    TurnRight,
    /// 3: cancel the next planting.
    SuppressPlant,
    /// 4: cancel the next harvest.
    SuppressHarvest,
    /// 5: cancel the next command.
    SuppressExecute,
    /// 6: take one bit of input, and plant the harvested field again if it
    /// is 1.
    Input,
}

impl Command {
    /// The command with index `x`, for `x` from 0 to 6.
    pub open spec fn of_index(x: int) -> Command {
        if x == 0 {
            Command::Output
        } else if x == 1 {
            Command::TurnLeft
        } else if x == 2 {
            Command::TurnRight
        } else if x == 3 {
            Command::SuppressPlant
        } else if x == 4 {
            Command::SuppressHarvest
        } else if x == 5 {
            Command::SuppressExecute
        } else {
            Command::Input
        }
    }

    /// The index of the command, from 0 to 6.
    pub open spec fn spec_index(&self) -> int {
        match self {
            Command::Output => 0,
            Command::TurnLeft => 1,
            Command::TurnRight => 2,
            Command::SuppressPlant => 3,
            Command::SuppressHarvest => 4,
            Command::SuppressExecute => 5,
            Command::Input => 6,
        }
    }

    /// The command with index `x`; there is none for an index above 6.
    pub fn from_index(x: usize) -> (found: Option<Command>)
        ensures
            found == (if x < 7 {
                Some(Command::of_index(x as int))
            } else {
                None
            }),
    {
        match x {
            0 => Some(Command::Output),
            1 => Some(Command::TurnLeft),
            2 => Some(Command::TurnRight),
            3 => Some(Command::SuppressPlant),
            4 => Some(Command::SuppressHarvest),
            5 => Some(Command::SuppressExecute),
            6 => Some(Command::Input),
            _ => None,
        }
    }

    /// The index of the command, from 0 to 6.
    pub fn index(&self) -> (x: usize)
        ensures
            x == self.spec_index(),
            Command::of_index(x as int) == *self,
    {
        match self {
            Command::Output => 0,
            Command::TurnLeft => 1,
            Command::TurnRight => 2,
            Command::SuppressPlant => 3,
            Command::SuppressHarvest => 4,
            Command::SuppressExecute => 5,
            Command::Input => 6,
        }
    }
}

/// The weighted sum of the eight fields around row `r`, column `c`.
///
/// The neighbours are taken row by row from the one above, each row from the
/// left, the place itself left out. Their weights are 1, 2, 4, 1, 2, 4, 1, 2:
/// each twice the one before, reduced modulo 7. A neighbour outside the
/// garden adds nothing, and the weights of those after it are not affected.
pub open spec fn neighbour_sum(garden: Seq<Seq<Field>>, r: int, c: int) -> int {
    1 * value_at(garden, r - 1, c - 1) + 2 * value_at(garden, r - 1, c) + 4 * value_at(
        garden,
        r - 1,
        c + 1,
    ) + 1 * value_at(garden, r, c - 1) + 2 * value_at(garden, r, c + 1) + 4 * value_at(
        garden,
        r + 1,
        c - 1,
    ) + 1 * value_at(garden, r + 1, c) + 2 * value_at(garden, r + 1, c + 1)
}

/// The command that a harvest at row `r`, column `c` executes: the one whose
/// index is the neighbour sum modulo 7.
pub open spec fn command_at(garden: Seq<Seq<Field>>, r: int, c: int) -> Command {
    Command::of_index(neighbour_sum(garden, r, c) % 7)
}

impl Grid {
    /// What the place `dr` rows and `dc` columns from row `r`, column `c`
    /// adds to a neighbour sum: the value of the field there, and 0 where
    /// the place lies outside the garden.
    pub fn value_near(&self, r: usize, c: usize, dr: i8, dc: i8) -> (v: usize)
        ensures
            v == value_at(self@, r + dr, c + dc),
            v <= 1,
    {
        match self.neighbour(r, c, dr, dc) {
            Some((nr, nc)) => match self.get(nr, nc) {
                Some(field) => field.value(),
                None => 0,
            },
            None => 0,
        }
    }

    /// The command that a harvest at row `r`, column `c` executes.
    pub fn command_at(&self, r: usize, c: usize) -> (command: Command)
        ensures
            command == command_at(self@, r as int, c as int),
    {
        let sum = 1 * self.value_near(r, c, -1, -1) + 2 * self.value_near(r, c, -1, 0) + 4
            * self.value_near(r, c, -1, 1) + 1 * self.value_near(r, c, 0, -1) + 2
            * self.value_near(r, c, 0, 1) + 4 * self.value_near(r, c, 1, -1) + 1 * self.value_near(
            r,
            c,
            1,
            0,
        ) + 2 * self.value_near(r, c, 1, 1);
        match Command::from_index(sum % 7) {
            Some(command) => command,
            None => Command::Output,
        }
    }
}

/// The command depends on nothing but the values of the eight fields
/// around the place: two gardens that agree on them give the same command.
pub proof fn lemma_command_by_neighbours(
    first: Seq<Seq<Field>>,
    second: Seq<Seq<Field>>,
    r: int,
    c: int,
)
    requires
        forall|dr: int, dc: int|
            -1 <= dr <= 1 && -1 <= dc <= 1 && !(dr == 0 && dc == 0) ==> #[trigger] value_at(
                first,
                r + dr,
                c + dc,
            ) == value_at(second, r + dr, c + dc),
    ensures
        neighbour_sum(first, r, c) == neighbour_sum(second, r, c),
        command_at(first, r, c) == command_at(second, r, c),
{
    assert(value_at(first, r + (-1), c + (-1)) == value_at(second, r + (-1), c + (-1)));
    assert(value_at(first, r + (-1), c + 0) == value_at(second, r + (-1), c + 0));
    assert(value_at(first, r + (-1), c + 1) == value_at(second, r + (-1), c + 1));
    assert(value_at(first, r + 0, c + (-1)) == value_at(second, r + 0, c + (-1)));
    assert(value_at(first, r + 0, c + 1) == value_at(second, r + 0, c + 1));
    assert(value_at(first, r + 1, c + (-1)) == value_at(second, r + 1, c + (-1)));
    assert(value_at(first, r + 1, c + 0) == value_at(second, r + 1, c + 0));
    assert(value_at(first, r + 1, c + 1) == value_at(second, r + 1, c + 1));
}

/// What stands on the place itself does not enter its command.
pub proof fn lemma_command_ignores_own_field(garden: Seq<Seq<Field>>, r: int, c: int, field: Field)
    requires
        contains(garden, r, c),
    ensures
        command_at(put(garden, r, c, field), r, c) == command_at(garden, r, c),
{
    let changed = put(garden, r, c, field);
    assert forall|dr: int, dc: int|
        -1 <= dr <= 1 && -1 <= dc <= 1 && !(dr == 0 && dc == 0) implies #[trigger] value_at(
        changed,
        r + dr,
        c + dc,
    ) == value_at(garden, r + dr, c + dc) by {}
    lemma_command_by_neighbours(changed, garden, r, c);
}

/// The sum is at most 17, so its remainder modulo 7 takes every index.
pub proof fn lemma_neighbour_sum_range(garden: Seq<Seq<Field>>, r: int, c: int)
    ensures
        0 <= neighbour_sum(garden, r, c) <= 17,
        command_at(garden, r, c).spec_index() == neighbour_sum(garden, r, c) % 7,
{
}

} // verus!
