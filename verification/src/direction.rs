//! The four ways the head can face.

use vstd::prelude::*;

verus! {

/// The direction in which the head moves: one row up or down, or one column
/// left or right.
#[derive(Clone, Copy, PartialEq, Eq, Debug, Structural)]
pub enum Direction {
    /// Towards higher columns, `(0, +1)`: the way the head faces at first.
    Right,
    /// Towards lower rows, `(-1, 0)`.
    Up,
    /// Towards lower columns, `(0, -1)`.
    Left,
    /// Towards higher rows, `(+1, 0)`.
    Down,
}

impl Direction {
    /// By how many rows one move in this direction shifts the head.
    pub open spec fn spec_dr(&self) -> int {
        match self {
            Direction::Right => 0,
            Direction::Up => -1,
            Direction::Left => 0,
            Direction::Down => 1,
        }
    }

    /// By how many columns one move in this direction shifts the head.
    pub open spec fn spec_dc(&self) -> int {
        match self {
            Direction::Right => 1,
            Direction::Up => 0,
            Direction::Left => -1,
            Direction::Down => 0,
        }
    }

    /// The direction `(-dc, dr)`, a quarter turn from `(dr, dc)`.
    pub open spec fn spec_turn_left(&self) -> Direction {
        match self {
            Direction::Right => Direction::Up,
            Direction::Up => Direction::Left,
            Direction::Left => Direction::Down,
            Direction::Down => Direction::Right,
        }
    }

    /// The direction `(dc, -dr)`, a quarter turn the other way.
    pub open spec fn spec_turn_right(&self) -> Direction {
        match self {
            Direction::Right => Direction::Down,
            Direction::Down => Direction::Left,
            Direction::Left => Direction::Up,
            Direction::Up => Direction::Right,
        }
    }

    /// By how many rows one move in this direction shifts the head: -1, 0
    /// or 1.
    pub fn dr(&self) -> (d: i8)
        ensures
            d == self.spec_dr(),
    {
        match self {
            Direction::Right => 0,
            Direction::Up => -1,
            Direction::Left => 0,
            Direction::Down => 1,
        }
    }

    /// By how many columns one move in this direction shifts the head: -1, 0
    /// or 1.
    pub fn dc(&self) -> (d: i8)
        ensures
            d == self.spec_dc(),
    {
        match self {
            Direction::Right => 1,
            Direction::Up => 0,
            Direction::Left => -1,
            Direction::Down => 0,
        }
    }

    /// A quarter turn: from `(dr, dc)` to `(-dc, dr)`.
    #[verifier::when_used_as_spec(spec_turn_left)]
    pub fn turn_left(&self) -> (turned: Direction)
        ensures
            turned == self.spec_turn_left(),
            turned.spec_dr() == -self.spec_dc(),
            turned.spec_dc() == self.spec_dr(),
    {
        match self {
            Direction::Right => Direction::Up,
            Direction::Up => Direction::Left,
            Direction::Left => Direction::Down,
            Direction::Down => Direction::Right,
        }
    }

    /// A quarter turn the other way: from `(dr, dc)` to `(dc, -dr)`.
    #[verifier::when_used_as_spec(spec_turn_right)]
    pub fn turn_right(&self) -> (turned: Direction)
        ensures
            turned == self.spec_turn_right(),
            turned.spec_dr() == self.spec_dc(),
            turned.spec_dc() == -self.spec_dr(),
    {
        match self {
            Direction::Right => Direction::Down,
            Direction::Down => Direction::Left,
            Direction::Left => Direction::Up,
            Direction::Up => Direction::Right,
        }
    }
}

/// A direction is one step along one axis, and its two numbers tell the
/// four directions apart.
pub proof fn lemma_direction_is_a_unit_step(d: Direction, e: Direction)
    ensures
        -1 <= d.spec_dr() <= 1,
        -1 <= d.spec_dc() <= 1,
        (d.spec_dr() == 0) != (d.spec_dc() == 0),
        d.spec_dr() == e.spec_dr() && d.spec_dc() == e.spec_dc() ==> d == e,
{
}

/// Four quarter turns the same way bring a direction back, and so does a
/// quarter turn followed by one the other way.
pub proof fn lemma_turns_return(d: Direction)
    ensures
        d.spec_turn_left().spec_turn_left().spec_turn_left().spec_turn_left() == d,
        d.spec_turn_right().spec_turn_right().spec_turn_right().spec_turn_right() == d,
        d.spec_turn_left().spec_turn_right() == d,
        d.spec_turn_right().spec_turn_left() == d,
{
}

} // verus!
