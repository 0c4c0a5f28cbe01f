//! The engine: a garden, a head that walks over it, and the bits that go in
//! and out.

use vstd::prelude::*;
use crate::bits::{packed, BitReader, BitWriter};
use crate::command::Command;
use crate::direction::Direction;
use crate::field::Field;
use crate::grid::{contains, Grid};
use crate::laws::lemma_run_ends_when_head_leaves;
use crate::model::{awaits_input, course, perform, start, step, State};

verus! {

/// The engine between two steps.
pub struct Machine {
    grid: Grid,
    head: Option<(usize, usize)>,
    facing: Direction,
    suppress_plant: bool,
    suppress_harvest: bool,
    suppress_execute: bool,
    input: BitReader,
    output: BitWriter,
}

/// What a run has used and given.
#[derive(Debug, PartialEq, Eq)]
pub struct Report {
    /// The bytes that were completed during the run, in order.
    pub output: Vec<u8>,
    /// The number of steps that were taken.
    pub steps: usize,
    /// The number of input bytes that were taken.
    pub consumed: usize,
}

impl View for Machine {
    type V = State;

    closed spec fn view(&self) -> State {
        State {
            garden: self.grid@,
            head: match self.head {
                Some((r, c)) => Some((r as int, c as int)),
                None => None,
            },
            facing: self.facing,
            suppress_plant: self.suppress_plant,
            suppress_harvest: self.suppress_harvest,
            suppress_execute: self.suppress_execute,
            unread: self.input@,
            written: self.output@,
        }
    }
}

impl Machine {
    #[verifier::type_invariant]
    spec fn well_formed(&self) -> bool {
        match self.head {
            Some((r, c)) => contains(self.grid@, r as int, c as int),
            None => true,
        }
    }

    /// An engine about to take its first step on `grid`.
    pub fn new(grid: Grid) -> (machine: Machine)
        ensures
            machine@ == start(grid@),
    {
        let head = match grid.get(0, 0) {
            Some(_) => Some((0usize, 0usize)),
            None => None,
        };
        Machine {
            grid,
            head,
            facing: Direction::Right,
            suppress_plant: false,
            suppress_harvest: false,
            suppress_execute: false,
            input: BitReader::new(),
            output: BitWriter::new(),
        }
    }

    /// Whether the head is still within the garden.
    pub fn is_running(&self) -> (running: bool)
        ensures
            running == self@.head is Some,
    {
        self.head.is_some()
    }

    /// Row and column of the head, while it is within the garden.
    pub fn head(&self) -> (head: Option<(usize, usize)>)
        ensures
            match head {
                Some((r, c)) => self@.head == Some((r as int, c as int)),
                None => self@.head is None,
            },
    {
        self.head
    }

    /// The direction in which the head moves.
    pub fn facing(&self) -> (facing: Direction)
        ensures
            facing == self@.facing,
    {
        self.facing
    }

    /// The garden as it stands.
    pub fn grid(&self) -> (grid: &Grid)
        ensures
            grid@ == self@.garden,
    {
        &self.grid
    }

    /// Whether the next planting is cancelled.
    pub fn suppress_plant(&self) -> (set: bool)
        ensures
            set == self@.suppress_plant,
    {
        self.suppress_plant
    }

    /// Whether the next harvest is cancelled.
    pub fn suppress_harvest(&self) -> (set: bool)
        ensures
            set == self@.suppress_harvest,
    {
        self.suppress_harvest
    }

    /// Whether the command after the next harvest is cancelled.
    pub fn suppress_execute(&self) -> (set: bool)
        ensures
            set == self@.suppress_execute,
    {
        self.suppress_execute
    }

    /// How many output bits wait for their byte to fill.
    pub fn waiting_bits(&self) -> (n: u8)
        ensures
            n == self@.written.len() % 8,
    {
        self.output.waiting()
    }

    /// Whether the next step asks the input source for a byte. Where it
    /// does, `step` is to be given the next byte of the source, or `None` if
    /// the source is exhausted.
    pub fn awaits_input(&self) -> (asks: bool)
        ensures
            asks == awaits_input(self@),
    {
        match self.head {
            Some((r, c)) => {
                proof {
                    use_type_invariant(self);
                }
                match self.grid.get(r, c) {
                    Some(Field::Planted) => !self.suppress_harvest && !self.suppress_execute
                        && self.input.is_empty() && self.grid.command_at(r, c) == Command::Input,
                    _ => false,
                }
            },
            None => false,
        }
    }

    /// Executes `command` with the head on row `r`, column `c`.
    fn perform(&mut self, r: usize, c: usize, command: Command, fresh: Option<u8>) -> (byte: Option<
        u8,
    >)
        requires
            old(self).head == Some((r, c)),
        ensures
            final(self)@ == perform(old(self)@, r as int, c as int, command, fresh),
            final(self).head == Some((r, c)),
            packed(final(self)@.written) == (match byte {
                Some(b) => packed(old(self)@.written).push(b),
                None => packed(old(self)@.written),
            }),
    {
        proof {
            use_type_invariant(&*self);
        }
        match command {
            Command::Output => match self.grid.neighbour(r, c, self.facing.dr(), self.facing.dc()) {
                Some((nr, nc)) => {
                    let bit = match self.grid.get(nr, nc) {
                        Some(Field::Planted) => true,
                        _ => false,
                    };
                    self.output.push(bit)
                },
                None => None,
            },
            Command::TurnLeft => {
                self.facing = self.facing.turn_left();
                None
            },
            Command::TurnRight => {
                self.facing = self.facing.turn_right();
                None
            },
            Command::SuppressPlant => {
                self.suppress_plant = true;
                None
            },
            Command::SuppressHarvest => {
                self.suppress_harvest = true;
                None
            },
            Command::SuppressExecute => {
                self.suppress_execute = true;
                None
            },
            Command::Input => {
                if self.input.is_empty() {
                    match fresh {
                        Some(byte) => {
                            self.input.refill(byte);
                        },
                        None => {},
                    }
                }
                match self.input.take() {
                    Some(bit) => {
                        if bit {
                            self.grid.set(r, c, Field::Planted);
                        }
                    },
                    None => {},
                }
                None
            },
        }
    }

    /// Takes one step and returns the output byte that it completed, if it
    /// completed one.
    ///
    /// `fresh` is the next byte of the input source, or `None` if the source
    /// is exhausted. It is looked at only by a step that asks for input, as
    /// `awaits_input` tells beforehand; any other step ignores it. Once the
    /// head has left the garden a step changes nothing.
    pub fn step(&mut self, fresh: Option<u8>) -> (byte: Option<u8>)
        ensures
            final(self)@ == step(old(self)@, fresh),
            packed(final(self)@.written) == (match byte {
                Some(b) => packed(old(self)@.written).push(b),
                None => packed(old(self)@.written),
            }),
    {
        proof {
            use_type_invariant(&*self);
        }
        let (r, c) = match self.head {
            Some(place) => place,
            None => {
                return None;
            },
        };
        let mut byte: Option<u8> = None;
        match self.grid.get(r, c) {
            Some(Field::Open) => {
                if self.suppress_plant {
                    self.suppress_plant = false;
                } else {
                    self.grid.set(r, c, Field::Planted);
                }
            },
            Some(Field::Planted) => {
                if self.suppress_harvest {
                    self.suppress_harvest = false;
                } else {
                    self.grid.set(r, c, Field::Open);
                    if self.suppress_execute {
                        self.suppress_execute = false;
                    } else {
                        let command = self.grid.command_at(r, c);
                        byte = self.perform(r, c, command, fresh);
                    }
                }
            },
            _ => {},
        }
        self.head = self.grid.neighbour(r, c, self.facing.dr(), self.facing.dc());
        byte
    }

    /// Runs until the head has left the garden, but for no more than `budget`
    /// steps, with `input` as the input source.
    ///
    /// A step that asks for input takes the next byte of `input`, and finds
    /// the source exhausted once all of them are taken. The bytes that the
    /// run completes are returned in order; bits that fill no byte stay with
    /// the engine and are in no byte.
    pub fn run(&mut self, input: &[u8], budget: usize) -> (report: Report)
        ensures
            final(self)@ == course(old(self)@, input@, budget as nat).state,
            report.steps == course(old(self)@, input@, budget as nat).steps,
            report.consumed == course(old(self)@, input@, budget as nat).consumed,
            packed(old(self)@.written).is_prefix_of(packed(final(self)@.written)),
            report.output@ == packed(final(self)@.written).skip(
                packed(old(self)@.written).len() as int,
            ),
            report.output@.len() == final(self)@.written.len() / 8 - old(self)@.written.len() / 8,
            report.steps <= budget,
            report.steps < budget ==> final(self)@.head is None,
    {
        let mut output: Vec<u8> = Vec::new();
        let mut steps: usize = 0;
        let mut consumed: usize = 0;
        let ghost goal = course(old(self)@, input@, budget as nat);
        let ghost before = packed(old(self)@.written);
        proof {
            lemma_run_ends_when_head_leaves(old(self)@, input@, budget as nat);
            assert(input@.skip(0) =~= input@);
            assert(before.skip(before.len() as int) =~= Seq::<u8>::empty());
        }
        while steps < budget && self.is_running()
            invariant
                steps <= budget,
                consumed <= steps,
                consumed <= input@.len(),
                goal.state == course(
                    self@,
                    input@.skip(consumed as int),
                    (budget - steps) as nat,
                ).state,
                goal.steps == steps + course(
                    self@,
                    input@.skip(consumed as int),
                    (budget - steps) as nat,
                ).steps,
                goal.consumed == consumed + course(
                    self@,
                    input@.skip(consumed as int),
                    (budget - steps) as nat,
                ).consumed,
                before.is_prefix_of(packed(self@.written)),
                output@ == packed(self@.written).skip(before.len() as int),
            decreases budget - steps,
        {
            let ghost rest = input@.skip(consumed as int);
            let ghost bytes = packed(self@.written);
            let mut fresh: Option<u8> = None;
            if self.awaits_input() && consumed < input.len() {
                fresh = Some(input[consumed]);
                proof {
                    assert(rest.drop_first() =~= input@.skip(consumed + 1));
                }
                consumed = consumed + 1;
            }
            match self.step(fresh) {
                Some(byte) => {
                    output.push(byte);
                    proof {
                        assert(bytes.push(byte).skip(before.len() as int) =~= bytes.skip(
                            before.len() as int,
                        ).push(byte));
                    }
                },
                None => {},
            }
            steps = steps + 1;
        }
        Report { output, steps, consumed }
    }
}

} // verus!
