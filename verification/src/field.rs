//! The three states of a field of the garden.

use vstd::prelude::*;

verus! {

/// The symbol that marks a planted field in program text.
pub const PLANTED_MARK: char = '\u{1F346}';

/// The symbol that marks an open field in program text.
pub const OPEN_MARK: char = '\u{1F331}';

/// The glyph that stands for an inert field when a garden is rendered.
pub const INERT_GLYPH: char = '\u{2753}';

/// Whether `ch` is one of the two symbols that the language recognises.
pub open spec fn is_marker(ch: char) -> bool {
    ch == PLANTED_MARK || ch == OPEN_MARK
}

/// One field of the garden.
#[derive(Clone, Copy, PartialEq, Eq, Debug, Structural)]
pub enum Field {
    /// Holds a plant; counts 1 in a neighbour sum.
    Planted,
    /// Holds nothing yet; counts 0.
    Open,
    /// Takes no part: it never changes and never triggers a command; counts 0.
    Inert,
}

impl Field {
    /// The number that the field contributes to a neighbour sum.
    pub open spec fn spec_value(&self) -> usize {
        match self {
            Field::Planted => 1,
            _ => 0,
        }
    }

    /// The field that a character of program text stands for.
    pub open spec fn of_char(ch: char) -> Field {
        if ch == PLANTED_MARK {
            Field::Planted
        } else if ch == OPEN_MARK {
            Field::Open
        } else {
            Field::Inert
        }
    }

    /// The glyph by which the field is rendered.
    pub open spec fn spec_glyph(&self) -> char {
        match self {
            Field::Planted => PLANTED_MARK,
            Field::Open => OPEN_MARK,
            Field::Inert => INERT_GLYPH,
        }
    }

    /// The number that the field contributes to a neighbour sum: 1 for a
    /// planted field, 0 for the other two.
    #[verifier::when_used_as_spec(spec_value)]
    pub fn value(&self) -> (v: usize)
        ensures
            v == self.spec_value(),
    {
        match self {
            Field::Planted => 1,
            _ => 0,
        }
    }

    /// Reads one character of program text.
    pub fn from_char(ch: char) -> (f: Field)
        ensures
            f == Field::of_char(ch),
    {
        if ch == PLANTED_MARK {
            Field::Planted
        } else if ch == OPEN_MARK {
            Field::Open
        } else {
            Field::Inert
        }
    }

    /// The glyph by which the field is rendered.
    #[verifier::when_used_as_spec(spec_glyph)]
    pub fn glyph(&self) -> (ch: char)
        ensures
            ch == self.spec_glyph(),
    {
        match self {
            Field::Planted => PLANTED_MARK,
            Field::Open => OPEN_MARK,
            Field::Inert => INERT_GLYPH,
        }
    }
}

/// Reading the glyph of a field gives the field back.
pub proof fn lemma_glyph_reads_back(f: Field)
    ensures
        Field::of_char(f.spec_glyph()) == f,
{
}

} // verus!
