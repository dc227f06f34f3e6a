//! Indent guides: the vertical lines that mark how far a nested block of rows
//! extends.
//!
//! A window of rows is given by the nesting depth of each row. In column `c`
//! a guide runs through every row that is deeper than `c`; a row of depth `c`
//! or less interrupts it. [`is_guide`] says which guides a window has, and
//! [`compute_indent_guides`] finds them in one pass over the rows, with a
//! stack that holds one open guide for each column of the row at hand.

use crate::guide_vec::{
    guide_seq, guides_extend, guides_index_mut, guides_len, guides_new, guides_pop, guides_push,
    GuideVec,
};
use vstd::prelude::*;

verus! {

/// One vertical guide line.
///
/// It is drawn in `column` (the nesting level it belongs to, counted from 0),
/// begins at the absolute row `start_row` and spans `length` rows.
#[derive(Debug, Clone, Copy, PartialEq, Eq, Hash)]
pub struct IndentGuideLayout {
    pub column: usize,
    pub start_row: usize,
    pub length: usize,
}

impl IndentGuideLayout {
    /// The guide's first row, counted from the first row of a window that
    /// begins at the absolute row `row_offset`.
    ///
    /// The window must not begin behind the guide; that holds of every guide
    /// of the window, see [`lemma_guides_lie_in_window`].
    pub fn window_row(&self, row_offset: usize) -> (row: usize)
        requires
            row_offset <= self.start_row,
        ensures
            row == self.start_row - row_offset,
    {
        self.start_row - row_offset
    }

    /// Whether the guide passes through the cell in `column` at the absolute
    /// row `row`.
    pub open spec fn covers(self, column: int, row: int) -> bool {
        self.column == column && self.start_row <= row < self.start_row + self.length
    }

    /// Whether at least one row lies between the two guides, whichever comes
    /// first.
    pub open spec fn apart_from(self, other: IndentGuideLayout) -> bool {
        self.start_row + self.length < other.start_row || other.start_row + other.length
            < self.start_row
    }

    /// The absolute row behind the guide's last row.
    pub open spec fn end_row(self) -> int {
        self.start_row + self.length
    }

    /// Whether the guide is emitted before `other` in a window that ends
    /// before the absolute row `window_end`.
    ///
    /// A guide is emitted when the row behind it is reached, so the one that
    /// ends first comes first. Of two that end together inside the window the
    /// deeper comes first; of two that reach the window's last row the
    /// shallower does.
    pub open spec fn emitted_before(self, other: IndentGuideLayout, window_end: int) -> bool {
        ||| self.end_row() < other.end_row()
        ||| self.end_row() == other.end_row() && self.end_row() < window_end && self.column
            > other.column
        ||| self.end_row() == other.end_row() && self.end_row() >= window_end && self.column
            < other.column
    }
}

/// Whether `guide` is a guide of the window `depths` whose first row is the
/// absolute row `offset`.
///
/// It is one when its rows lie in the window and are all deeper than its
/// column, and when it cannot be extended: the row before it, and the row
/// after it, is the window's edge or is not deeper than the column.
pub open spec fn is_guide(depths: Seq<usize>, offset: usize, guide: IndentGuideLayout) -> bool {
    let first = guide.start_row - offset;
    let end = first + guide.length;
    &&& 0 <= first < end <= depths.len()
    &&& forall|r: int| first <= r < end ==> depths[r] > guide.column
    &&& (first == 0 || depths[first - 1] <= guide.column)
    &&& (end == depths.len() || depths[end] <= guide.column)
}

/// Whether the window can be held in memory and the absolute row of each of
/// its indented rows fits in a `usize`.
pub open spec fn rows_fit(depths: Seq<usize>, offset: usize) -> bool {
    &&& depths.len() <= usize::MAX
    &&& forall|r: int| 0 <= r < depths.len() && depths[r] > 0 ==> r + offset <= usize::MAX
}

/// Whether one of `guides` passes through the cell in `column` at the
/// absolute row `row`.
pub open spec fn covered(guides: Seq<IndentGuideLayout>, column: int, row: int) -> bool {
    exists|i: int| 0 <= i < guides.len() && #[trigger] guides[i].covers(column, row)
}

/// Whether `guides` holds the guides of the window, each of them once.
pub open spec fn holds_guides_of(
    guides: Seq<IndentGuideLayout>,
    depths: Seq<usize>,
    offset: usize,
) -> bool {
    &&& guides.no_duplicates()
    &&& forall|g: IndentGuideLayout| guides.contains(g) <==> is_guide(depths, offset, g)
}

/// Whether `guides` stand in the order in which a window that ends before
/// the absolute row `window_end` emits them.
pub open spec fn in_emission_order(guides: Seq<IndentGuideLayout>, window_end: int) -> bool {
    forall|i: int, j: int|
        0 <= i < j < guides.len() ==> (#[trigger] guides[i]).emitted_before(
            #[trigger] guides[j],
            window_end,
        )
}

/// Whether `guides` pass through exactly the indented cells of the window:
/// the cells of the columns that a row is deeper than.
pub open spec fn covers_indented_cells(
    guides: Seq<IndentGuideLayout>,
    depths: Seq<usize>,
    offset: usize,
) -> bool {
    forall|column: int, row: int| #[trigger]
        covered(guides, column, row) <==> (offset <= row < offset + depths.len() && 0 <= column
            < depths[row - offset])
}

/// Whether any two of `guides` in one column have a row between them.
pub open spec fn separate_in_each_column(guides: Seq<IndentGuideLayout>) -> bool {
    forall|i: int, j: int|
        0 <= i < j < guides.len() && (#[trigger] guides[i]).column == (#[trigger] guides[j]).column
            ==> guides[i].apart_from(guides[j])
}

/// A guide still open after `rows_done` rows: it reaches from its start to
/// the last row done and cannot be extended upwards.
spec fn is_open(
    depths: Seq<usize>,
    offset: usize,
    rows_done: int,
    guide: IndentGuideLayout,
) -> bool {
    let first = guide.start_row - offset;
    &&& 0 <= first < rows_done <= depths.len()
    &&& guide.length == rows_done - first
    &&& forall|r: int| first <= r < rows_done ==> depths[r] > guide.column
    &&& (first == 0 || depths[first - 1] <= guide.column)
}

/// The stack after `rows_done` rows: one open guide for each column that the
/// last row done is deeper than.
spec fn stack_inv(
    depths: Seq<usize>,
    offset: usize,
    rows_done: int,
    stack: Seq<IndentGuideLayout>,
) -> bool {
    &&& 0 <= rows_done <= depths.len()
    &&& stack.len() == (if rows_done == 0 {
        0
    } else {
        depths[rows_done - 1] as int
    })
    &&& forall|k: int|
        0 <= k < stack.len() ==> (#[trigger] stack[k]).column == k && is_open(
            depths,
            offset,
            rows_done,
            stack[k],
        )
}

/// What has been emitted after `rows_done` rows: the guides of the window
/// that end before the last row done.
spec fn emitted_inv(
    depths: Seq<usize>,
    offset: usize,
    rows_done: int,
    out: Seq<IndentGuideLayout>,
) -> bool {
    &&& out.no_duplicates()
    &&& in_emission_order(out, offset + depths.len())
    &&& forall|g: IndentGuideLayout|
        out.contains(g) <==> (is_guide(depths, offset, g) && g.end_row() - offset < rows_done)
}

/// The stack while row `row` is being handled, after guides were closed or
/// opened and before the lengths are brought up to date.
spec fn adjusted(
    depths: Seq<usize>,
    offset: usize,
    row: int,
    stack: Seq<IndentGuideLayout>,
) -> bool {
    &&& 0 <= row < depths.len()
    &&& stack.len() == depths[row]
    &&& forall|k: int| 0 <= k < stack.len() ==> {
        let first = (#[trigger] stack[k]).start_row - offset;
        &&& stack[k].column == k
        &&& 0 <= first <= row
        &&& forall|r: int| first <= r <= row ==> depths[r] > k
        &&& (first == 0 || depths[first - 1] <= k)
    }
}

/// The last `count` guides of the stack, in the order in which they are
/// popped.
spec fn popped(stack: Seq<IndentGuideLayout>, count: int) -> Seq<IndentGuideLayout> {
    Seq::new(count as nat, |j: int| stack[stack.len() - 1 - j])
}

/// The guides that enter the stack when row `current_row` opens the columns
/// from `from` on.
spec fn opened(from: int, count: int, current_row: usize) -> Seq<IndentGuideLayout> {
    Seq::new(
        count as nat,
        |j: int|
            IndentGuideLayout {
                column: (from + j) as usize,
                start_row: current_row,
                length: current_row,
            },
    )
}

/// The stack with the length of each of its first `upto` guides set so that
/// the guide's last row is `current_row`.
spec fn extended(
    stack: Seq<IndentGuideLayout>,
    upto: int,
    current_row: usize,
) -> Seq<IndentGuideLayout> {
    Seq::new(
        stack.len(),
        |j: int|
            if j < upto {
                IndentGuideLayout {
                    column: stack[j].column,
                    start_row: stack[j].start_row,
                    length: (current_row - stack[j].start_row + 1) as usize,
                }
            } else {
                stack[j]
            },
    )
}

/// Finds the indent guides of a window of rows.
///
/// `indents` holds the nesting depth of each row of the window, from top to
/// bottom, and `offset` is the absolute row of the first of them. Depths need
/// not change by one from row to row: a row may open or close several guides
/// at once.
///
/// The result holds each guide of the window once (see [`is_guide`]), in the
/// order in which the guides end (see [`IndentGuideLayout::emitted_before`]).
/// So the guides pass through exactly the indented cells of the window, two
/// guides in one column are always a row apart, and a window without an
/// indented row has no guides.
///
/// The absolute row of each indented row must fit in a `usize`: no guide can
/// pass through a row that has no number. Rows that are not indented may lie
/// beyond, so a window without an indented row is taken at any offset.
pub fn compute_indent_guides(indents: &[usize], offset: usize) -> (guides: GuideVec)
    requires
        forall|r: int| 0 <= r < indents.len() && indents@[r] > 0 ==> r + offset <= usize::MAX,
    ensures
        holds_guides_of(guides@, indents@, offset),
        in_emission_order(guides@, offset + indents@.len()),
        covers_indented_cells(guides@, indents@, offset),
        separate_in_each_column(guides@),
        (forall|r: int| 0 <= r < indents@.len() ==> indents@[r] == 0) ==> guides@.len() == 0,
{
    let mut indent_guides = guides_new();
    let mut indent_stack = guides_new();

    let mut row: usize = 0;
    assert(rows_fit(indents@, offset)) by {
        assert(indents@.len() == indents.len());
    }
    while row < indents.len()
        invariant
            row <= indents@.len(),
            rows_fit(indents@, offset),
            stack_inv(indents@, offset, row as int, guide_seq(indent_stack)),
            emitted_inv(indents@, offset, row as int, guide_seq(indent_guides)),
        decreases indents@.len() - row,
    {
        let depth = indents[row];
        // Only an indented row needs its absolute number, and there the sum
        // fits.
        let current_row = row.wrapping_add(offset);
        let current_depth = guides_len(&indent_stack);
        let ghost stack0 = guide_seq(indent_stack);
        let ghost out0 = guide_seq(indent_guides);

        if depth < current_depth {
            let closing = current_depth - depth;
            let mut closed: usize = 0;
            while closed < closing
                invariant
                    closed <= closing <= stack0.len(),
                    guide_seq(indent_stack) == stack0.take(stack0.len() - closed),
                    guide_seq(indent_guides) == out0 + popped(stack0, closed as int),
                decreases closing - closed,
            {
                if let Some(guide) = guides_pop(&mut indent_stack) {
                    guides_push(&mut indent_guides, guide);
                }
                closed += 1;
            }
            proof {
                lemma_close(indents@, offset, row as int, stack0, out0);
            }
        } else if depth > current_depth {
            let mut new_depth = current_depth;
            while new_depth < depth
                invariant
                    current_depth <= new_depth <= depth,
                    current_depth == stack0.len(),
                    guide_seq(indent_stack) == stack0 + opened(
                        current_depth as int,
                        new_depth - current_depth,
                        current_row,
                    ),
                decreases depth - new_depth,
            {
                guides_push(
                    &mut indent_stack,
                    IndentGuideLayout {
                        column: new_depth,
                        start_row: current_row,
                        length: current_row,
                    },
                );
                new_depth += 1;
            }
            proof {
                assert(current_row == row + offset);
                lemma_open(indents@, offset, row as int, stack0, out0);
            }
        } else {
            proof {
                lemma_keep(indents@, offset, row as int, stack0, out0);
            }
        }

        let ghost stack1 = guide_seq(indent_stack);
        let open = guides_len(&indent_stack);
        let mut i: usize = 0;
        while i < open
            invariant
                i <= open == stack1.len(),
                indents@[row as int] > 0 ==> current_row == row + offset,
                row < indents@.len(),
                rows_fit(indents@, offset),
                adjusted(indents@, offset, row as int, stack1),
                guide_seq(indent_stack) == extended(stack1, i as int, current_row),
            decreases open - i,
        {
            let indent = guides_index_mut(&mut indent_stack, i);
            indent.length = current_row - indent.start_row + 1;
            i += 1;
        }
        proof {
            lemma_extend(indents@, offset, row as int, current_row, stack1);
        }
        row += 1;
    }

    proof {
        lemma_finish(indents@, offset, guide_seq(indent_guides), guide_seq(indent_stack));
    }
    guides_extend(&mut indent_guides, indent_stack);
    proof {
        lemma_guides_tile_indented_cells(guide_seq(indent_guides), indents@, offset);
        if forall|r: int| 0 <= r < indents@.len() ==> indents@[r] == 0 {
            lemma_flat_window_has_no_guides(guide_seq(indent_guides), indents@, offset);
        }
    }
    indent_guides
}

/// A guide of the window whose last row is the one before `row`.
spec fn ends_at(depths: Seq<usize>, offset: usize, row: int, guide: IndentGuideLayout) -> bool {
    is_guide(depths, offset, guide) && guide.end_row() - offset == row
}

/// Two runs in one column that reach the same row and cannot be extended
/// upwards start at the same row.
proof fn lemma_same_start(
    depths: Seq<usize>,
    offset: usize,
    rows_done: int,
    a: IndentGuideLayout,
    b: IndentGuideLayout,
)
    requires
        ends_at(depths, offset, rows_done, a),
        is_open(depths, offset, rows_done, b),
        a.column == b.column,
    ensures
        a == b,
{
    let first_a = a.start_row - offset;
    let first_b = b.start_row - offset;
    if first_a < first_b {
        assert(depths[first_b - 1] > a.column);
    } else if first_b < first_a {
        assert(depths[first_a - 1] > b.column);
    }
}

/// Emitting: when the guides that end just before `row` are appended, each
/// once, what has been emitted is right for one more row done.
proof fn lemma_emit(
    depths: Seq<usize>,
    offset: usize,
    row: int,
    out0: Seq<IndentGuideLayout>,
    ending: Seq<IndentGuideLayout>,
)
    requires
        emitted_inv(depths, offset, row, out0),
        forall|j: int|
            0 <= j < ending.len() ==> ends_at(depths, offset, row, #[trigger] ending[j]),
        in_emission_order(ending, offset + depths.len()),
        forall|g: IndentGuideLayout| ends_at(depths, offset, row, g) ==> ending.contains(g),
    ensures
        emitted_inv(depths, offset, row + 1, out0 + ending),
{
    let out = out0 + ending;
    assert forall|i: int, j: int| 0 <= i < j < out.len() implies (#[trigger] out[i])
        .emitted_before(#[trigger] out[j], offset + depths.len()) && out[i] != out[j] by {
        if j < out0.len() {
            assert(out[i] == out0[i] && out[j] == out0[j]);
        } else if i < out0.len() {
            assert(out0.contains(out0[i]));
            assert(out[j] == ending[j - out0.len()]);
        } else {
            assert(out[i] == ending[i - out0.len()]);
            assert(out[j] == ending[j - out0.len()]);
        }
    }
    assert forall|g: IndentGuideLayout|
        out.contains(g) <==> (is_guide(depths, offset, g) && g.end_row() - offset < row + 1) by {
        if out.contains(g) {
            let i = choose|i: int| 0 <= i < out.len() && out[i] == g;
            if i < out0.len() {
                assert(out0.contains(out0[i]));
            } else {
                assert(g == ending[i - out0.len()]);
            }
        }
        if is_guide(depths, offset, g) && g.end_row() - offset < row + 1 {
            if g.end_row() - offset < row {
                assert(out0.contains(g));
                let i = choose|i: int| 0 <= i < out0.len() && out0[i] == g;
                assert(out[i] == g);
            } else {
                assert(ends_at(depths, offset, row, g));
                assert(ending.contains(g));
                let j = choose|j: int| 0 <= j < ending.len() && ending[j] == g;
                assert(out[out0.len() + j] == g);
            }
        }
    }
}

/// Closing: when the row is shallower than the stack, the guides that leave
/// the stack are the guides of the window that end just before this row.
proof fn lemma_close(
    depths: Seq<usize>,
    offset: usize,
    row: int,
    stack0: Seq<IndentGuideLayout>,
    out0: Seq<IndentGuideLayout>,
)
    requires
        0 <= row < depths.len(),
        stack_inv(depths, offset, row, stack0),
        emitted_inv(depths, offset, row, out0),
        depths[row] < stack0.len(),
    ensures
        adjusted(depths, offset, row, stack0.take(depths[row] as int)),
        emitted_inv(depths, offset, row + 1, out0 + popped(stack0, stack0.len() - depths[row])),
{
    let keep = depths[row] as int;
    let leaving = popped(stack0, stack0.len() - keep);
    assert forall|j: int| 0 <= j < leaving.len() implies ends_at(
        depths,
        offset,
        row,
        #[trigger] leaving[j],
    ) by {
        let k = stack0.len() - 1 - j;
        assert(leaving[j] == stack0[k]);
        assert(is_open(depths, offset, row, stack0[k]));
    }
    assert forall|i: int, j: int| 0 <= i < j < leaving.len() implies (#[trigger] leaving[i])
        .emitted_before(#[trigger] leaving[j], offset + depths.len()) by {
        assert(leaving[i] == stack0[stack0.len() - 1 - i]);
        assert(leaving[j] == stack0[stack0.len() - 1 - j]);
        assert(ends_at(depths, offset, row, leaving[i]));
        assert(ends_at(depths, offset, row, leaving[j]));
    }
    assert forall|g: IndentGuideLayout| ends_at(depths, offset, row, g) implies leaving.contains(
        g,
    ) by {
        let k = g.column as int;
        assert(depths[row - 1] > k);
        assert(is_open(depths, offset, row, stack0[k]));
        lemma_same_start(depths, offset, row, g, stack0[k]);
        assert(leaving[stack0.len() - 1 - k] == stack0[k]);
    }
    lemma_emit(depths, offset, row, out0, leaving);
}

/// Opening: when the row is deeper than the stack, each new column gets a
/// guide that starts at this row, and nothing ends before it.
proof fn lemma_open(
    depths: Seq<usize>,
    offset: usize,
    row: int,
    stack0: Seq<IndentGuideLayout>,
    out0: Seq<IndentGuideLayout>,
)
    requires
        0 <= row < depths.len(),
        rows_fit(depths, offset),
        stack_inv(depths, offset, row, stack0),
        emitted_inv(depths, offset, row, out0),
        depths[row] > stack0.len(),
    ensures
        adjusted(
            depths,
            offset,
            row,
            stack0 + opened(
                stack0.len() as int,
                depths[row] - stack0.len(),
                (row + offset) as usize,
            ),
        ),
        emitted_inv(depths, offset, row + 1, out0),
{
}

/// Keeping: when the row is as deep as the stack, nothing opens or ends.
proof fn lemma_keep(
    depths: Seq<usize>,
    offset: usize,
    row: int,
    stack0: Seq<IndentGuideLayout>,
    out0: Seq<IndentGuideLayout>,
)
    requires
        0 <= row < depths.len(),
        stack_inv(depths, offset, row, stack0),
        emitted_inv(depths, offset, row, out0),
        depths[row] == stack0.len(),
    ensures
        adjusted(depths, offset, row, stack0),
        emitted_inv(depths, offset, row + 1, out0),
{
}

/// Once every length reaches to this row, the stack is that of one more row
/// done.
proof fn lemma_extend(
    depths: Seq<usize>,
    offset: usize,
    row: int,
    current_row: usize,
    stack1: Seq<IndentGuideLayout>,
)
    requires
        rows_fit(depths, offset),
        adjusted(depths, offset, row, stack1),
        depths[row] > 0 ==> current_row == row + offset,
    ensures
        stack_inv(depths, offset, row + 1, extended(stack1, stack1.len() as int, current_row)),
{
}

/// At the end of the window the guides still open are the guides that reach
/// its last row.
proof fn lemma_finish(
    depths: Seq<usize>,
    offset: usize,
    out: Seq<IndentGuideLayout>,
    stack: Seq<IndentGuideLayout>,
)
    requires
        stack_inv(depths, offset, depths.len() as int, stack),
        emitted_inv(depths, offset, depths.len() as int, out),
    ensures
        holds_guides_of(out + stack, depths, offset),
        in_emission_order(out + stack, offset + depths.len()),
{
    let rows = depths.len() as int;
    assert forall|j: int| 0 <= j < stack.len() implies ends_at(
        depths,
        offset,
        rows,
        #[trigger] stack[j],
    ) by {
        assert(is_open(depths, offset, rows, stack[j]));
    }
    assert forall|i: int, j: int| 0 <= i < j < stack.len() implies (#[trigger] stack[i])
        .emitted_before(#[trigger] stack[j], offset + depths.len()) by {
        assert(stack[i].column == i);
        assert(stack[j].column == j);
        assert(ends_at(depths, offset, rows, stack[i]));
        assert(ends_at(depths, offset, rows, stack[j]));
    }
    assert forall|g: IndentGuideLayout| ends_at(depths, offset, rows, g) implies stack.contains(
        g,
    ) by {
        let k = g.column as int;
        assert(depths[rows - 1] > k);
        assert(is_open(depths, offset, rows, stack[k]));
        lemma_same_start(depths, offset, rows, g, stack[k]);
    }
    lemma_emit(depths, offset, rows, out, stack);
}

/// The first row of the run of rows deeper than `column` that `row` lies in.
spec fn run_first(depths: Seq<usize>, column: int, row: int) -> int
    decreases row,
{
    if 0 < row && depths[row - 1] > column {
        run_first(depths, column, row - 1)
    } else {
        row
    }
}

/// The row behind the run of rows deeper than `column` that `row` lies in.
spec fn run_end(depths: Seq<usize>, column: int, row: int) -> int
    decreases depths.len() - row,
{
    if row + 1 < depths.len() && depths[row + 1] > column {
        run_end(depths, column, row + 1)
    } else {
        row + 1
    }
}

/// What [`run_first`] gives: the rows from there to `row` are deeper than
/// `column`, and the row before, if there is one, is not.
proof fn lemma_run_first(depths: Seq<usize>, column: int, row: int)
    requires
        0 <= row < depths.len(),
        depths[row] > column,
    ensures
        0 <= run_first(depths, column, row) <= row,
        forall|r: int| run_first(depths, column, row) <= r <= row ==> depths[r] > column,
        run_first(depths, column, row) == 0 || depths[run_first(depths, column, row) - 1]
            <= column,
    decreases row,
{
    if 0 < row && depths[row - 1] > column {
        lemma_run_first(depths, column, row - 1);
    }
}

/// What [`run_end`] gives: the rows from `row` to there are deeper than
/// `column`, and the row there, if there is one, is not.
proof fn lemma_run_end(depths: Seq<usize>, column: int, row: int)
    requires
        0 <= row < depths.len(),
        depths[row] > column,
    ensures
        row < run_end(depths, column, row) <= depths.len(),
        forall|r: int| row <= r < run_end(depths, column, row) ==> depths[r] > column,
        run_end(depths, column, row) == depths.len() || depths[run_end(depths, column, row)]
            <= column,
    decreases depths.len() - row,
{
    if row + 1 < depths.len() && depths[row + 1] > column {
        lemma_run_end(depths, column, row + 1);
    }
}

/// The guides of a window tile its indented cells.
///
/// A guide passes through a cell exactly when the cell's row lies in the
/// window and is deeper than the cell's column. Two guides in one column
/// never share a row, and never follow each other without a row between
/// them: rows that touch belong to one guide.
pub proof fn lemma_guides_tile_indented_cells(
    guides: Seq<IndentGuideLayout>,
    depths: Seq<usize>,
    offset: usize,
)
    requires
        rows_fit(depths, offset),
        holds_guides_of(guides, depths, offset),
    ensures
        covers_indented_cells(guides, depths, offset),
        separate_in_each_column(guides),
{
    assert forall|column: int, row: int| #[trigger]
        covered(guides, column, row) <==> (offset <= row < offset + depths.len() && 0 <= column
            < depths[row - offset]) by {
        if covered(guides, column, row) {
            let i = choose|i: int|
                0 <= i < guides.len() && #[trigger] guides[i].covers(column, row);
            assert(guides.contains(guides[i]));
        }
        if offset <= row < offset + depths.len() && 0 <= column < depths[row - offset] {
            let r = row - offset;
            lemma_run_first(depths, column, r);
            lemma_run_end(depths, column, r);
            let first = run_first(depths, column, r);
            let end = run_end(depths, column, r);
            let g = IndentGuideLayout {
                column: column as usize,
                start_row: (offset + first) as usize,
                length: (end - first) as usize,
            };
            assert(is_guide(depths, offset, g));
            assert(guides.contains(g));
            let i = choose|i: int| 0 <= i < guides.len() && guides[i] == g;
            assert(guides[i].covers(column, row));
        }
    }
    assert forall|i: int, j: int|
        0 <= i < j < guides.len() && (#[trigger] guides[i]).column == (#[trigger] guides[j]).column
        implies guides[i].apart_from(guides[j]) by {
        let a = guides[i];
        let b = guides[j];
        assert(guides.contains(a) && guides.contains(b));
        if !a.apart_from(b) {
            lemma_touching_guides_are_one(depths, offset, a, b);
        }
    }
}

/// Two guides of a window in one column that share a row, or follow each
/// other without a row between them, are the same guide.
proof fn lemma_touching_guides_are_one(
    depths: Seq<usize>,
    offset: usize,
    a: IndentGuideLayout,
    b: IndentGuideLayout,
)
    requires
        is_guide(depths, offset, a),
        is_guide(depths, offset, b),
        a.column == b.column,
        !a.apart_from(b),
    ensures
        a == b,
{
    let first_a = a.start_row - offset;
    let first_b = b.start_row - offset;
    let end_a = first_a + a.length;
    let end_b = first_b + b.length;
    if first_a < first_b {
        assert(depths[first_b - 1] > a.column);
    } else if first_b < first_a {
        assert(depths[first_a - 1] > b.column);
    } else if end_a < end_b {
        assert(depths[end_a] > b.column);
    } else if end_b < end_a {
        assert(depths[end_b] > a.column);
    }
}

/// Every guide of a window lies inside the window and spans at least one
/// row.
pub proof fn lemma_guides_lie_in_window(
    guides: Seq<IndentGuideLayout>,
    depths: Seq<usize>,
    offset: usize,
)
    requires
        holds_guides_of(guides, depths, offset),
    ensures
        forall|i: int|
            0 <= i < guides.len() ==> offset <= (#[trigger] guides[i]).start_row && 1
                <= guides[i].length && guides[i].end_row() <= offset + depths.len(),
{
    assert forall|i: int| 0 <= i < guides.len() implies offset <= (#[trigger] guides[i]).start_row
        && 1 <= guides[i].length && guides[i].end_row() <= offset + depths.len() by {
        assert(guides.contains(guides[i]));
    }
}

/// A window in which no row is indented has no guides.
pub proof fn lemma_flat_window_has_no_guides(
    guides: Seq<IndentGuideLayout>,
    depths: Seq<usize>,
    offset: usize,
)
    requires
        holds_guides_of(guides, depths, offset),
        forall|r: int| 0 <= r < depths.len() ==> depths[r] == 0,
    ensures
        guides.len() == 0,
{
    if guides.len() > 0 {
        let g = guides[0];
        assert(guides.contains(g));
        assert(depths[g.start_row - offset] > g.column);
    }
}

} // verus!
