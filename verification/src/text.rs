//! Program text: its lines, and the extent of the garden that it describes.

use vstd::prelude::*;
use crate::field::{is_marker, Field, OPEN_MARK, PLANTED_MARK};

verus! {

/// The pieces of `text` between its newlines. The piece after the last
/// newline is included, also where it is empty, so there is always one.
pub open spec fn segments(text: Seq<char>) -> Seq<Seq<char>>
    decreases text.len(),
{
    if text.len() == 0 {
        seq![Seq::<char>::empty()]
    } else {
        let before = segments(text.drop_last());
        if text.last() == '\n' {
            before.push(Seq::<char>::empty())
        } else {
            before.update(before.len() - 1, before.last().push(text.last()))
        }
    }
}

/// The lines of `text`: its segments, but a final newline opens no new line.
pub open spec fn lines(text: Seq<char>) -> Seq<Seq<char>> {
    let pieces = segments(text);
    if pieces.last().len() == 0 {
        pieces.drop_last()
    } else {
        pieces
    }
}

/// One more than the index of the last marker in `line`; 0 if it holds none.
pub open spec fn marked_width(line: Seq<char>) -> nat
    decreases line.len(),
{
    if line.len() == 0 {
        0
    } else if is_marker(line.last()) {
        line.len()
    } else {
        marked_width(line.drop_last())
    }
}

/// The greatest marked width among `rows`: the width of the garden.
pub open spec fn widest_marked(rows: Seq<Seq<char>>) -> nat
    decreases rows.len(),
{
    if rows.len() == 0 {
        0
    } else {
        let rest = widest_marked(rows.drop_last());
        let own = marked_width(rows.last());
        if own > rest {
            own
        } else {
            rest
        }
    }
}

/// The length of the longest of `rows`.
pub open spec fn longest(rows: Seq<Seq<char>>) -> nat
    decreases rows.len(),
{
    if rows.len() == 0 {
        0
    } else {
        let rest = longest(rows.drop_last());
        let own = rows.last().len();
        if own > rest {
            own
        } else {
            rest
        }
    }
}

/// Whether some row runs past column `cols`: trailing characters after its
/// last marker that the garden has no room for.
pub open spec fn overlong(rows: Seq<Seq<char>>, cols: nat) -> bool {
    exists|r: int| 0 <= r < rows.len() && (#[trigger] rows[r]).len() > cols
}

/// The field at column `c` of `line`; past its end the garden keeps its
/// default, an inert field.
pub open spec fn field_in_line(line: Seq<char>, c: int) -> Field {
    if 0 <= c < line.len() {
        Field::of_char(line[c])
    } else {
        Field::Inert
    }
}

/// The garden that `rows` describe: one row of fields per line, each as wide
/// as the widest marked line.
pub open spec fn garden_of(rows: Seq<Seq<char>>) -> Seq<Seq<Field>> {
    Seq::new(
        rows.len(),
        |r: int| Seq::new(widest_marked(rows), |c: int| field_in_line(rows[r], c)),
    )
}

/// The garden of `rows` has one row for each of them, and every row of it is
/// as wide as the widest marked one. A character stands for the field in its
/// own row at its own index.
pub proof fn lemma_garden_of(rows: Seq<Seq<char>>)
    ensures
        garden_of(rows).len() == rows.len(),
        forall|r: int|
            0 <= r < rows.len() ==> (#[trigger] garden_of(rows)[r]).len() == widest_marked(rows),
        forall|r: int, c: int|
            0 <= r < rows.len() && 0 <= c < rows[r].len() && c < widest_marked(rows)
                ==> #[trigger] garden_of(rows)[r][c] == Field::of_char(rows[r][c]),
{
}

/// `marked_width` is what it is called: nothing at or after it is a marker,
/// and where it is not 0 the character just before it is one.
pub proof fn lemma_marked_width(line: Seq<char>)
    ensures
        marked_width(line) <= line.len(),
        marked_width(line) > 0 ==> is_marker(line[marked_width(line) - 1]),
        forall|i: int| marked_width(line) <= i < line.len() ==> !is_marker(#[trigger] line[i]),
    decreases line.len(),
{
    if line.len() > 0 && !is_marker(line.last()) {
        let init = line.drop_last();
        lemma_marked_width(init);
        assert forall|i: int| marked_width(line) <= i < line.len() implies !is_marker(
            #[trigger] line[i],
        ) by {
            if i < init.len() {
                assert(line[i] == init[i]);
            }
        }
    }
}

/// The width of the garden is the marked width of one of the rows, and no
/// row has a greater one.
pub proof fn lemma_widest_marked(rows: Seq<Seq<char>>)
    ensures
        forall|r: int| 0 <= r < rows.len() ==> marked_width(#[trigger] rows[r]) <= widest_marked(rows),
        widest_marked(rows) > 0 ==> exists|r: int|
            0 <= r < rows.len() && marked_width(#[trigger] rows[r]) == widest_marked(rows),
    decreases rows.len(),
{
    if rows.len() > 0 {
        let init = rows.drop_last();
        lemma_widest_marked(init);
        assert forall|r: int| 0 <= r < rows.len() implies marked_width(#[trigger] rows[r])
            <= widest_marked(rows) by {
            if r < init.len() {
                assert(rows[r] == init[r]);
            }
        }
        if widest_marked(rows) > 0 {
            if marked_width(rows.last()) > widest_marked(init) {
                assert(marked_width(rows[rows.len() - 1]) == widest_marked(rows));
            } else {
                let r = choose|r: int|
                    0 <= r < init.len() && marked_width(#[trigger] init[r]) == widest_marked(init);
                assert(rows[r] == init[r]);
            }
        }
    }
}

/// A row is overlong exactly where the longest row is.
pub proof fn lemma_overlong_by_longest(rows: Seq<Seq<char>>, cols: nat)
    ensures
        overlong(rows, cols) <==> longest(rows) > cols,
    decreases rows.len(),
{
    if rows.len() > 0 {
        let init = rows.drop_last();
        lemma_overlong_by_longest(init, cols);
        if overlong(rows, cols) {
            let r = choose|r: int| 0 <= r < rows.len() && (#[trigger] rows[r]).len() > cols;
            if r < init.len() {
                assert(init[r].len() > cols);
            }
        }
        if longest(rows) > cols {
            if rows.last().len() > cols {
                assert(rows[rows.len() - 1].len() > cols);
            } else {
                let r = choose|r: int| 0 <= r < init.len() && (#[trigger] init[r]).len() > cols;
                assert(rows[r].len() > cols);
            }
        }
    }
}

/// Reading on never changes a line that a newline has closed, and only
/// lengthens the one that is open.
pub proof fn lemma_segments_grow(head: Seq<char>, tail: Seq<char>)
    ensures
        segments(head).len() >= 1,
        segments(head + tail).len() >= segments(head).len(),
        forall|k: int|
            0 <= k < segments(head).len() - 1 ==> #[trigger] segments(head + tail)[k] == segments(
                head,
            )[k],
        segments(head).last().is_prefix_of(segments(head + tail)[segments(head).len() - 1]),
        tail.len() > 0 ==> segments(head + tail).len() > segments(head).len() || segments(
            head + tail,
        ).last().len() > 0,
    decreases tail.len(),
{
    lemma_segments_nonempty(head);
    if tail.len() == 0 {
        assert(head + tail =~= head);
    } else {
        let shorter = head + tail.drop_last();
        assert((head + tail).drop_last() =~= shorter);
        assert((head + tail).last() == tail.last());
        lemma_segments_grow(head, tail.drop_last());
    }
}

/// A text has at least one segment.
pub proof fn lemma_segments_nonempty(text: Seq<char>)
    ensures
        segments(text).len() >= 1,
    decreases text.len(),
{
    if text.len() > 0 {
        lemma_segments_nonempty(text.drop_last());
    }
}

/// The extent of the garden that a program text describes.
pub struct Extent {
    /// The number of lines.
    pub rows: usize,
    /// The greatest marked width of a line.
    pub cols: usize,
    /// The length of the longest line.
    pub longest: usize,
}

/// Scans `source` once for the extent of its garden.
pub fn measure(source: &str) -> (extent: Extent)
    ensures
        extent.rows == lines(source@).len(),
        extent.cols == widest_marked(lines(source@)),
        extent.longest == longest(lines(source@)),
{
    let total = source.unicode_len();
    let mut rows: usize = 0;
    let mut cols: usize = 0;
    let mut reach: usize = 0;
    let mut col: usize = 0;
    let mut width: usize = 0;
    let ghost mut closed: Seq<Seq<char>> = Seq::empty();
    let ghost mut open: Seq<char> = Seq::empty();
    for ch in it: source.chars()
        invariant
            it.seq() == source@,
            total == source@.len(),
            segments(it.seq().take(it.index())) == closed.push(open),
            rows == closed.len(),
            cols == widest_marked(closed),
            reach == longest(closed),
            col == open.len(),
            width == marked_width(open),
            rows + col <= it.index(),
            cols <= it.index(),
            reach <= it.index(),
            width <= col,
    {
        proof {
            let before = it.seq().take(it.index());
            let after = it.seq().take(it.index() + 1);
            assert(after.drop_last() =~= before);
            assert(after.last() == ch);
            if ch == '\n' {
                assert(closed.push(open).drop_last() =~= closed);
            } else {
                assert(closed.push(open).update(closed.len() as int, open.push(ch))
                    =~= closed.push(open.push(ch)));
                assert(open.push(ch).drop_last() =~= open);
            }
        }
        if ch == '\n' {
            if width > cols {
                cols = width;
            }
            if col > reach {
                reach = col;
            }
            rows = rows + 1;
            col = 0;
            width = 0;
            proof {
                closed = closed.push(open);
                open = Seq::empty();
            }
        } else {
            col = col + 1;
            if ch == PLANTED_MARK || ch == OPEN_MARK {
                width = col;
            }
            proof {
                open = open.push(ch);
            }
        }
    }
    proof {
        assert(source@.take(source@.len() as int) =~= source@);
        assert(closed.push(open).drop_last() =~= closed);
    }
    if col > 0 {
        if width > cols {
            cols = width;
        }
        if col > reach {
            reach = col;
        }
        rows = rows + 1;
    }
    Extent { rows, cols, longest: reach }
}

} // verus!
