//! The garden: a rectangle of fields, built from program text.

use vstd::prelude::*;
use crate::field::{Field, INERT_GLYPH, OPEN_MARK, PLANTED_MARK};
use vstd::string::StringExecFns;
use crate::text::{
    field_in_line, garden_of, lemma_overlong_by_longest, lemma_segments_grow, lines, measure,
    overlong, segments, widest_marked,
};

verus! {

/// Whether every row of `garden` is as long as the first.
pub open spec fn rectangular(garden: Seq<Seq<Field>>) -> bool {
    forall|r: int| 0 <= r < garden.len() ==> (#[trigger] garden[r]).len() == garden[0].len()
}

/// The number of columns of `garden`; a garden without rows has none.
pub open spec fn width(garden: Seq<Seq<Field>>) -> nat {
    if garden.len() == 0 {
        0
    } else {
        garden[0].len()
    }
}

/// Whether row `r`, column `c` lies within `garden`.
pub open spec fn contains(garden: Seq<Seq<Field>>, r: int, c: int) -> bool {
    0 <= r < garden.len() && 0 <= c < garden[r].len()
}

/// What the place at row `r`, column `c` adds to a neighbour sum: the value
/// of the field there, and 0 where the place lies outside `garden`.
pub open spec fn value_at(garden: Seq<Seq<Field>>, r: int, c: int) -> int {
    if contains(garden, r, c) {
        garden[r][c].spec_value() as int
    } else {
        0
    }
}

/// `garden` with the field at row `r`, column `c` replaced by `field`.
pub open spec fn put(garden: Seq<Seq<Field>>, r: int, c: int, field: Field) -> Seq<Seq<Field>> {
    garden.update(r, garden[r].update(c, field))
}

/// The glyphs of one row of fields.
pub open spec fn row_glyphs(row: Seq<Field>) -> Seq<char> {
    Seq::new(row.len(), |c: int| row[c].spec_glyph())
}

/// `garden` as text: the glyphs of each row, and a newline after each.
pub open spec fn rendering(garden: Seq<Seq<Field>>) -> Seq<char>
    decreases garden.len(),
{
    if garden.len() == 0 {
        Seq::empty()
    } else {
        rendering(garden.drop_last()) + row_glyphs(garden.last()).push('\n')
    }
}

/// Why a program text describes no garden.
#[derive(Clone, Copy, PartialEq, Eq, Debug, Structural)]
pub enum GridError {
    /// A line runs past the width of the garden: after its last marker it
    /// has more characters than the widest marked line has room for.
    OutOfBoundsGrid,
    /// The garden has more fields than can be addressed.
    TooLarge,
}

/// A garden of `rows` by `cols` fields, kept row by row.
#[derive(Debug, PartialEq, Eq)]
pub struct Grid {
    rows: usize,
    cols: usize,
    cells: Vec<Field>,
}

/// Where the field at row `r`, column `c` is kept, in a garden of `cols`
/// columns.
spec fn place(r: int, c: int, cols: int) -> int {
    r * cols + c
}

/// Each place of a garden of `rows` by `cols` fields is kept within the first
/// `rows * cols` fields, and no two places are kept together.
proof fn lemma_places(rows: int, cols: int)
    requires
        0 <= rows,
        0 <= cols,
    ensures
        forall|r: int, c: int|
            0 <= r < rows && 0 <= c < cols ==> 0 <= r * cols && 0 <= #[trigger] place(r, c, cols)
                < rows * cols,
        forall|r1: int, c1: int, r2: int, c2: int|
            0 <= c1 < cols && 0 <= c2 < cols && #[trigger] place(r1, c1, cols) == #[trigger] place(
                r2,
                c2,
                cols,
            ) ==> r1 == r2 && c1 == c2,
{
    assert forall|r: int, c: int| 0 <= r < rows && 0 <= c < cols implies 0 <= r * cols && 0
        <= #[trigger] place(r, c, cols) < rows * cols by {
        assert(0 <= r * cols) by (nonlinear_arith)
            requires
                0 <= r,
                0 <= cols,
        ;
        assert((r + 1) * cols <= rows * cols) by (nonlinear_arith)
            requires
                r + 1 <= rows,
                0 <= cols,
        ;
        assert((r + 1) * cols == r * cols + cols) by (nonlinear_arith);
    }
    assert forall|r1: int, c1: int, r2: int, c2: int|
        0 <= c1 < cols && 0 <= c2 < cols && #[trigger] place(r1, c1, cols) == #[trigger] place(
            r2,
            c2,
            cols,
        ) implies r1 == r2 && c1 == c2 by {
        if r1 < r2 {
            assert((r1 + 1) * cols <= r2 * cols) by (nonlinear_arith)
                requires
                    r1 + 1 <= r2,
                    0 <= cols,
            ;
            assert((r1 + 1) * cols == r1 * cols + cols) by (nonlinear_arith);
        } else if r2 < r1 {
            assert((r2 + 1) * cols <= r1 * cols) by (nonlinear_arith)
                requires
                    r2 + 1 <= r1,
                    0 <= cols,
            ;
            assert((r2 + 1) * cols == r2 * cols + cols) by (nonlinear_arith);
        }
    }
}

/// `x` moved by `d`, where that is an index again.
fn shifted(x: usize, d: i8) -> (moved: Option<usize>)
    ensures
        moved == (if 0 <= x + d <= usize::MAX {
            Some((x + d) as usize)
        } else {
            None
        }),
{
    if d >= 0 {
        let up = d as usize;
        if x <= usize::MAX - up {
            Some(x + up)
        } else {
            None
        }
    } else {
        let down = (-(d as i16)) as usize;
        if x >= down {
            Some(x - down)
        } else {
            None
        }
    }
}

impl View for Grid {
    type V = Seq<Seq<Field>>;

    /// The rows of the garden, from the top; each row from the left.
    closed spec fn view(&self) -> Seq<Seq<Field>> {
        Seq::new(
            self.rows as nat,
            |r: int| Seq::new(self.cols as nat, |c: int| self.cells@[place(r, c, self.cols as int)]),
        )
    }
}

impl Grid {
    #[verifier::type_invariant]
    spec fn well_formed(&self) -> bool {
        &&& self.cells.len() == self.rows * self.cols
        &&& self.rows == 0 ==> self.cols == 0
    }

    /// The view of a garden is a rectangle.
    pub proof fn lemma_rectangular(&self)
        ensures
            rectangular(self@),
    {
    }

    /// Builds the garden that `source` describes.
    ///
    /// Each line of the text is one row. A marker sets its field and any
    /// other character leaves an inert field in its place. The garden is as
    /// wide as the widest line, counted up to its last marker; a line that has
    /// more characters than that is refused.
    pub fn parse(source: &str) -> (res: Result<Grid, GridError>)
        ensures
            match res {
                Ok(grid) => {
                    &&& !overlong(lines(source@), widest_marked(lines(source@)))
                    &&& lines(source@).len() * widest_marked(lines(source@)) <= usize::MAX
                    &&& grid@ == garden_of(lines(source@))
                },
                Err(GridError::OutOfBoundsGrid) => overlong(
                    lines(source@),
                    widest_marked(lines(source@)),
                ),
                Err(GridError::TooLarge) => {
                    &&& !overlong(lines(source@), widest_marked(lines(source@)))
                    &&& lines(source@).len() * widest_marked(lines(source@)) > usize::MAX
                },
            },
    {
        let extent = measure(source);
        let rows = extent.rows;
        let cols = extent.cols;
        proof {
            lemma_overlong_by_longest(lines(source@), cols as nat);
        }
        if extent.longest > cols {
            return Err(GridError::OutOfBoundsGrid);
        }
        let size = match rows.checked_mul(cols) {
            Some(size) => size,
            None => {
                return Err(GridError::TooLarge);
            },
        };
        let mut cells: Vec<Field> = vec![Field::Inert; size];
        proof {
            lemma_places(rows as int, cols as int);
        }
        let mut r: usize = 0;
        let mut c: usize = 0;
        let ghost mut closed: Seq<Seq<char>> = Seq::empty();
        let ghost mut open: Seq<char> = Seq::empty();
        for ch in it: source.chars()
            invariant
                it.seq() == source@,
                segments(it.seq().take(it.index())) == closed.push(open),
                rows == lines(source@).len(),
                cols == widest_marked(lines(source@)),
                !overlong(lines(source@), cols as nat),
                size == rows * cols,
                cells@.len() == size,
                r == closed.len(),
                c == open.len(),
                r <= rows,
                forall|rr: int, cc: int|
                    0 <= rr < rows && 0 <= cc < cols ==> cells@[#[trigger] place(
                        rr,
                        cc,
                        cols as int,
                    )] == (if rr < r {
                        field_in_line(closed[rr], cc)
                    } else if rr == r {
                        field_in_line(open, cc)
                    } else {
                        Field::Inert
                    }),
        {
            proof {
                lemma_places(rows as int, cols as int);
                let before = it.seq().take(it.index());
                let after = it.seq().take(it.index() + 1);
                let rest = it.seq().skip(it.index() + 1);
                assert(after.drop_last() =~= before);
                assert(after.last() == ch);
                assert(after + rest =~= source@);
                lemma_segments_grow(after, rest);
                if ch == '\n' {
                    assert(closed.push(open).drop_last() =~= closed);
                    assert(segments(after) == closed.push(open).push(Seq::<char>::empty()));
                } else {
                    assert(closed.push(open).update(closed.len() as int, open.push(ch))
                        =~= closed.push(open.push(ch)));
                    assert(segments(after) == closed.push(open.push(ch)));
                    let whole = segments(source@)[r as int];
                    assert(open.push(ch).is_prefix_of(whole));
                    assert(lines(source@)[r as int] == whole);
                }
            }
            if ch == '\n' {
                r = r + 1;
                c = 0;
                proof {
                    closed = closed.push(open);
                    open = Seq::empty();
                }
            } else {
                if ch == PLANTED_MARK || ch == OPEN_MARK {
                    assert(0 <= r * cols && place(r as int, c as int, cols as int) < size);
                    cells.set(r * cols + c, Field::from_char(ch));
                }
                c = c + 1;
                proof {
                    open = open.push(ch);
                }
            }
        }
        proof {
            assert(source@.take(source@.len() as int) =~= source@);
            assert(closed.push(open).drop_last() =~= closed);
        }
        proof {
            lemma_places(rows as int, cols as int);
        }
        let grid = Grid { rows, cols, cells };
        assert(grid@ =~~= garden_of(lines(source@)));
        Ok(grid)
    }

    /// The number of rows.
    pub fn rows(&self) -> (n: usize)
        ensures
            n == self@.len(),
    {
        self.rows
    }

    /// The number of columns.
    pub fn cols(&self) -> (n: usize)
        ensures
            n == width(self@),
            rectangular(self@),
    {
        proof {
            use_type_invariant(self);
        }
        self.cols
    }

    /// The field at row `r`, column `c`, if the place lies within the garden.
    pub fn get(&self, r: usize, c: usize) -> (found: Option<Field>)
        ensures
            found == (if contains(self@, r as int, c as int) {
                Some(self@[r as int][c as int])
            } else {
                None
            }),
    {
        proof {
            use_type_invariant(self);
            lemma_places(self.rows as int, self.cols as int);
        }
        if r < self.rows && c < self.cols {
            assert(0 <= r * self.cols && place(r as int, c as int, self.cols as int)
                < self.cells.len());
            Some(self.cells[r * self.cols + c])
        } else {
            None
        }
    }

    /// The place `dr` rows and `dc` columns from row `r`, column `c`, if it
    /// lies within the garden.
    pub fn neighbour(&self, r: usize, c: usize, dr: i8, dc: i8) -> (found: Option<(usize, usize)>)
        ensures
            match found {
                Some((nr, nc)) => nr == r + dr && nc == c + dc && contains(self@, r + dr, c + dc),
                None => !contains(self@, r + dr, c + dc),
            },
    {
        proof {
            use_type_invariant(self);
        }
        match (shifted(r, dr), shifted(c, dc)) {
            (Some(nr), Some(nc)) => if nr < self.rows && nc < self.cols {
                Some((nr, nc))
            } else {
                None
            },
            _ => None,
        }
    }

    /// Replaces the field at row `r`, column `c` by `field` and returns
    /// `true`; leaves the garden as it is and returns `false` where the place
    /// lies outside it.
    pub fn set(&mut self, r: usize, c: usize, field: Field) -> (done: bool)
        ensures
            done == contains(old(self)@, r as int, c as int),
            final(self)@ == (if done {
                put(old(self)@, r as int, c as int, field)
            } else {
                old(self)@
            }),
        no_unwind
    {
        proof {
            use_type_invariant(&*self);
            lemma_places(self.rows as int, self.cols as int);
        }
        if r < self.rows && c < self.cols {
            assert(0 <= r * self.cols && place(r as int, c as int, self.cols as int)
                < self.cells.len());
            self.cells[r * self.cols + c] = field;
            assert(self@ =~~= put(old(self)@, r as int, c as int, field));
            true
        } else {
            false
        }
    }

    /// The garden as text, for a reader: one line per row, one glyph per
    /// field.
    pub fn render(&self) -> (picture: String)
        ensures
            picture@ == rendering(self@),
    {
        proof {
            use_type_invariant(self);
            lemma_places(self.rows as int, self.cols as int);
            reveal_strlit("\u{1F346}");
            reveal_strlit("\u{1F331}");
            reveal_strlit("\u{2753}");
            reveal_strlit("\n");
        }
        let mut picture = String::new();
        let mut r: usize = 0;
        while r < self.rows
            invariant
                r <= self.rows,
                self.cells.len() == self.rows * self.cols,
                picture@ == rendering(self@.take(r as int)),
                "\u{1F346}"@ == seq![PLANTED_MARK],
                "\u{1F331}"@ == seq![OPEN_MARK],
                "\u{2753}"@ == seq![INERT_GLYPH],
                "\n"@ == seq!['\n'],
            decreases self.rows - r,
        {
            let mut c: usize = 0;
            while c < self.cols
                invariant
                    r < self.rows,
                    c <= self.cols,
                    self.cells.len() == self.rows * self.cols,
                    picture@ == rendering(self@.take(r as int)) + row_glyphs(self@[r as int]).take(
                        c as int,
                    ),
                    "\u{1F346}"@ == seq![PLANTED_MARK],
                    "\u{1F331}"@ == seq![OPEN_MARK],
                    "\u{2753}"@ == seq![INERT_GLYPH],
                decreases self.cols - c,
            {
                proof {
                    lemma_places(self.rows as int, self.cols as int);
                    assert(0 <= r * self.cols && place(r as int, c as int, self.cols as int)
                        < self.cells.len());
                    assert(row_glyphs(self@[r as int]).take(c + 1) =~= row_glyphs(
                        self@[r as int],
                    ).take(c as int).push(self@[r as int][c as int].spec_glyph()));
                }
                match self.cells[r * self.cols + c] {
                    Field::Planted => picture.append("\u{1F346}"),
                    Field::Open => picture.append("\u{1F331}"),
                    Field::Inert => picture.append("\u{2753}"),
                }
                c = c + 1;
            }
            picture.append("\n");
            proof {
                let upto = self@.take(r + 1);
                assert(upto.drop_last() =~= self@.take(r as int));
                assert(upto.last() == self@[r as int]);
                assert(row_glyphs(self@[r as int]).take(c as int) =~= row_glyphs(self@[r as int]));
            }
            r = r + 1;
        }
        proof {
            assert(self@.take(r as int) =~= self@);
        }
        picture
    }
}

} // verus!
