use vstd::prelude::*;

use crate::appearance::TerminalColor;
use crate::text::{join_lines, push_line, trim_end_spaces, trimmed_end};

verus! {

#[derive(Clone, Copy, Debug, PartialEq, Eq, Structural)]
pub struct TerminalCell {
    pub ch: char,
    pub fg: TerminalColor,
    pub bg: TerminalColor,
    pub bold: bool,
    pub italic: bool,
    pub underline: bool,
    pub inverse: bool,
}

#[derive(Clone, Copy, Debug, PartialEq, Eq, Structural)]
pub struct TerminalCursor {
    pub col: u16,
    pub row: u16,
    pub visible: bool,
}

/// A selection from one corner to the opposite one; the two corners may come in either order.
#[derive(Clone, Copy, Debug, PartialEq, Eq, Structural)]
pub struct TerminalSelection {
    pub start_col: u16,
    pub start_row: u16,
    pub end_col: u16,
    pub end_row: u16,
}

/// The visible grid of a terminal, row by row, as handed to the renderer.
#[derive(Clone, Debug, PartialEq, Eq)]
pub struct TerminalRendererSnapshot {
    pub cols: u16,
    pub rows: u16,
    pub cells: Vec<TerminalCell>,
    pub cursor: TerminalCursor,
    pub selection: Option<TerminalSelection>,
    pub scrollback_lines: u32,
    pub version: u64,
}

#[derive(Clone, Copy, Debug, PartialEq, Eq, Structural)]
pub struct TerminalRenderCell {
    pub cell: TerminalCell,
    pub col: u16,
    pub row: u16,
    pub cursor: bool,
    pub selected: bool,
}

pub open spec fn min_u16(a: u16, b: u16) -> u16 {
    if a <= b {
        a
    } else {
        b
    }
}

pub open spec fn max_u16(a: u16, b: u16) -> u16 {
    if a >= b {
        a
    } else {
        b
    }
}

/// The selection as a rectangle: (left column, top row, right column, bottom row).
pub open spec fn rect_bounds(s: TerminalSelection) -> (u16, u16, u16, u16) {
    (
        min_u16(s.start_col, s.end_col),
        min_u16(s.start_row, s.end_row),
        max_u16(s.start_col, s.end_col),
        max_u16(s.start_row, s.end_row),
    )
}

pub open spec fn selection_contains_spec(s: TerminalSelection, col: u16, row: u16) -> bool {
    let (c0, r0, c1, r1) = rect_bounds(s);
    r0 <= row <= r1 && c0 <= col <= c1
}

pub fn rectangular_selection_bounds(s: TerminalSelection) -> (r: (u16, u16, u16, u16))
    ensures
        r == rect_bounds(s),
{
    (
        if s.start_col <= s.end_col { s.start_col } else { s.end_col },
        if s.start_row <= s.end_row { s.start_row } else { s.end_row },
        if s.start_col >= s.end_col { s.start_col } else { s.end_col },
        if s.start_row >= s.end_row { s.start_row } else { s.end_row },
    )
}

/// Whether the rectangle of the selection covers a cell.
pub fn selection_contains(s: TerminalSelection, col: u16, row: u16) -> (r: bool)
    ensures
        r == selection_contains_spec(s, col, row),
{
    let (c0, r0, c1, r1) = rectangular_selection_bounds(s);
    row >= r0 && row <= r1 && col >= c0 && col <= c1
}

pub open spec fn cell_chars(cells: Seq<TerminalCell>) -> Seq<char> {
    cells.map_values(|c: TerminalCell| c.ch)
}

pub open spec fn min_int(a: int, b: int) -> int {
    if a <= b {
        a
    } else {
        b
    }
}

/// Rows of `chars[start..count]`, `cols` characters each (the last may be shorter), each without
/// its trailing spaces.
pub open spec fn rows_from(chars: Seq<char>, cols: int, start: int, count: int) -> Seq<Seq<char>>
    decreases (if start < count { count - start } else { 0 }),
{
    if cols <= 0 || start >= count {
        Seq::empty()
    } else {
        seq![trim_end_spaces(chars.subrange(start, min_int(start + cols, count)))] + rows_from(
            chars,
            cols,
            start + cols,
            count,
        )
    }
}

/// One row of a rectangular selection: columns `first_col..=last_col` of the row starting at
/// `row_start`, cut at the end of the cells, trailing spaces dropped.
pub open spec fn selected_line(chars: Seq<char>, row_start: int, first_col: int, last_col: int) -> Seq<char> {
    let first = row_start + first_col;
    let last = min_int(row_start + last_col, chars.len() - 1);
    if first >= chars.len() {
        Seq::empty()
    } else {
        trim_end_spaces(chars.subrange(first, last + 1))
    }
}

/// Rows `row..=last_row` of a rectangular selection between columns `first_col` and `last_col`,
/// stopping at the first row that starts past the cells; `row_start` is where row `row` starts.
pub open spec fn selected_rows(
    chars: Seq<char>,
    cols: int,
    row: int,
    last_row: int,
    row_start: int,
    first_col: int,
    last_col: int,
) -> Seq<Seq<char>>
    decreases (if row <= last_row { last_row + 1 - row } else { 0 }),
{
    if row > last_row || row_start >= chars.len() {
        Seq::empty()
    } else {
        seq![selected_line(chars, row_start, first_col, last_col)] + selected_rows(chars, cols, row + 1, last_row, row_start + cols, first_col, last_col)
    }
}

impl TerminalRendererSnapshot {
    /// Number of cells that are on screen.
    pub open spec fn visible_count(self) -> int {
        min_int(self.rows * self.cols, self.cells@.len() as int)
    }

    pub open spec fn visible_text_spec(self) -> Seq<char> {
        if self.cols == 0 {
            Seq::empty()
        } else {
            join_lines(rows_from(cell_chars(self.cells@), self.cols as int, 0, self.visible_count()))
        }
    }

    pub open spec fn selected_text_spec(self) -> Option<Seq<char>> {
        match self.selection {
            None => None,
            Some(sel) => if self.cols == 0 {
                Some(Seq::empty())
            } else {
                let (c0, r0, c1, r1) = rect_bounds(sel);
                let cols = self.cols as int;
                Some(
                    join_lines(
                        selected_rows(
                            cell_chars(self.cells@),
                            cols,
                            r0 as int,
                            r1 as int,
                            r0 * cols,
                            min_int(c0 as int, cols - 1),
                            min_int(c1 as int, cols - 1),
                        ),
                    ),
                )
            },
        }
    }

    pub open spec fn render_cell_at(self, i: int) -> TerminalRenderCell {
        let col = (i % (self.cols as int)) as u16;
        let row = (i / (self.cols as int)) as u16;
        TerminalRenderCell {
            cell: self.cells@[i],
            col,
            row,
            cursor: self.cursor.visible && self.cursor.col == col && self.cursor.row == row,
            selected: match self.selection {
                Some(s) => selection_contains_spec(s, col, row),
                None => false,
            },
        }
    }

    /// The screen as text: row by row, trailing spaces dropped, rows joined by newlines.
    pub fn visible_text(&self) -> (r: String)
        ensures
            r@ == self.visible_text_spec(),
    {
        let cols = self.cols as usize;
        if cols == 0 {
            return String::new();
        }
        let ghost chars = cell_chars(self.cells@);
        let area = rows_times_cols(self.rows, self.cols);
        let count = if area < self.cells.len() { area } else { self.cells.len() };
        let mut out = String::new();
        let ghost mut lines: Seq<Seq<char>> = Seq::empty();
        let mut n: usize = 0;
        let mut start: usize = 0;
        assert(count as int == self.visible_count());
        while start < count
            invariant
                cols == self.cols as usize,
                cols > 0,
                count <= self.cells.len(),
                chars == cell_chars(self.cells@),
                start <= count,
                n == lines.len(),
                n <= start,
                out@ == join_lines(lines),
                lines + rows_from(chars, cols as int, start as int, count as int) == rows_from(chars, cols as int, 0, count as int),
            decreases count - start,
        {
            let end = if count - start < cols { count } else { start + cols };
            let mut row: Vec<char> = Vec::new();
            let mut j = start;
            while j < end
                invariant
                    start <= j <= end <= count <= self.cells.len(),
                    chars == cell_chars(self.cells@),
                    row@ == chars.subrange(start as int, j as int),
                decreases end - j,
            {
                row.push(self.cells[j].ch);
                assert(chars.subrange(start as int, j + 1) =~= chars.subrange(start as int, j as int).push(chars[j as int]));
                j = j + 1;
            }
            let t = trimmed_end(&row, row.len());
            let mut line: Vec<char> = Vec::new();
            let mut q: usize = 0;
            while q < t
                invariant
                    t <= row.len(),
                    q <= t,
                    line@ == row@.subrange(0, q as int),
                decreases t - q,
            {
                line.push(row[q]);
                assert(row@.subrange(0, q + 1) =~= row@.subrange(0, q as int).push(row@[q as int]));
                q = q + 1;
            }
            assert(row@.subrange(0, row.len() as int) =~= row@);
            push_line(&mut out, n, &line, Ghost(lines));
            proof {
                let rest = rows_from(chars, cols as int, start as int, count as int);
                assert(min_int(start + cols, count as int) == end);
                assert(rest == seq![line@] + rows_from(chars, cols as int, start + cols, count as int));
                assert(lines.push(line@) + rows_from(chars, cols as int, start + cols, count as int) =~= lines + rest);
                if end == count {
                    assert(rows_from(chars, cols as int, start + cols, count as int) =~= rows_from(chars, cols as int, count as int, count as int));
                }
                lines = lines.push(line@);
            }
            n = n + 1;
            start = end;
        }
        assert(rows_from(chars, cols as int, start as int, count as int) =~= Seq::<Seq<char>>::empty());
        assert(lines + Seq::<Seq<char>>::empty() =~= lines);
        out
    }

    fn selected_line_exec(&self, row_start: usize, first_col: usize, last_col: usize) -> (line: Vec<char>)
        requires
            row_start < self.cells.len(),
            first_col <= last_col,
        ensures
            line@ == selected_line(cell_chars(self.cells@), row_start as int, first_col as int, last_col as int),
    {
        let ghost chars = cell_chars(self.cells@);
        let len = self.cells.len();
        let mut line: Vec<char> = Vec::new();
        if first_col < len - row_start {
            let first = row_start + first_col;
            let last = if last_col < len - 1 - row_start { row_start + last_col } else { len - 1 };
            let mut seg: Vec<char> = Vec::new();
            let mut j = first;
            while j <= last
                invariant
                    first <= j <= last + 1,
                    last < len,
                    len == self.cells.len(),
                    chars == cell_chars(self.cells@),
                    seg@ == chars.subrange(first as int, j as int),
                decreases last + 1 - j,
            {
                seg.push(self.cells[j].ch);
                assert(chars.subrange(first as int, j + 1) =~= chars.subrange(first as int, j as int).push(chars[j as int]));
                j = j + 1;
            }
            let t = trimmed_end(&seg, seg.len());
            let mut q: usize = 0;
            while q < t
                invariant
                    t <= seg.len(),
                    q <= t,
                    line@ == seg@.subrange(0, q as int),
                decreases t - q,
            {
                line.push(seg[q]);
                assert(seg@.subrange(0, q + 1) =~= seg@.subrange(0, q as int).push(seg@[q as int]));
                q = q + 1;
            }
            assert(seg@.subrange(0, seg.len() as int) =~= seg@);
        }
        line
    }

    /// The text inside the selection's rectangle, row by row, trailing spaces dropped; `None` when
    /// nothing is selected.
    pub fn selected_text(&self) -> (r: Option<String>)
        ensures
            match r {
                Some(s) => self.selected_text_spec() == Some(s@),
                None => self.selected_text_spec() is None,
            },
    {
        let selection = match self.selection {
            Some(s) => s,
            None => return None,
        };
        let (start_col, start_row, end_col, end_row) = rectangular_selection_bounds(selection);
        let cols = self.cols as usize;
        if cols == 0 {
            return Some(String::new());
        }
        let ghost chars = cell_chars(self.cells@);
        let len = self.cells.len();
        let first_col: usize = if (start_col as usize) < cols - 1 { start_col as usize } else { cols - 1 };
        let last_col: usize = if (end_col as usize) < cols - 1 { end_col as usize } else { cols - 1 };
        let mut out = String::new();
        let ghost mut lines: Seq<Seq<char>> = Seq::empty();
        let mut n: usize = 0;
        let mut row: usize = start_row as usize;
        let mut row_start: usize = rows_times_cols(start_row, self.cols);
        let ghost mut spec_rs: int = row_start as int;
        let ghost total = selected_rows(chars, cols as int, start_row as int, end_row as int, row_start as int, first_col as int, last_col as int);
        assert(first_col <= last_col);
        while row <= end_row as usize && row_start < len
            invariant
                cols == self.cols as usize,
                cols > 0,
                len == self.cells.len(),
                chars == cell_chars(self.cells@),
                chars.len() == len,
                first_col <= last_col,
                last_col < cols,
                row <= end_row as usize + 1,
                row_start == spec_rs || (spec_rs >= len && row_start == len),
                n == lines.len(),
                n <= row,
                out@ == join_lines(lines),
                lines + selected_rows(chars, cols as int, row as int, end_row as int, spec_rs, first_col as int, last_col as int) == total,
            decreases end_row as usize + 1 - row,
        {
            let line = self.selected_line_exec(row_start, first_col, last_col);
            push_line(&mut out, n, &line, Ghost(lines));
            proof {
                let rest = selected_rows(chars, cols as int, row as int, end_row as int, spec_rs, first_col as int, last_col as int);
                assert(rest == seq![line@] + selected_rows(chars, cols as int, row + 1, end_row as int, spec_rs + cols, first_col as int, last_col as int));
                assert(lines.push(line@) + selected_rows(chars, cols as int, row + 1, end_row as int, spec_rs + cols, first_col as int, last_col as int) =~= lines + rest);
                lines = lines.push(line@);
                spec_rs = spec_rs + cols;
            }
            n = n + 1;
            row = row + 1;
            if cols < len - row_start {
                row_start = row_start + cols;
            } else {
                row_start = len;
            }
        }
        assert(selected_rows(chars, cols as int, row as int, end_row as int, spec_rs, first_col as int, last_col as int) =~= Seq::<Seq<char>>::empty());
        assert(lines + Seq::<Seq<char>>::empty() =~= lines);
        Some(out)
    }

    /// Every on-screen cell with its position and whether the cursor or the selection covers it.
    pub fn render_cells(&self) -> (r: Vec<TerminalRenderCell>)
        ensures
            self.cols == 0 ==> r@.len() == 0,
            self.cols > 0 ==> r@.len() == self.visible_count(),
            self.cols > 0 ==> forall|i: int| 0 <= i < r@.len() ==> #[trigger] r@[i] == self.render_cell_at(i),
    {
        let cols = self.cols as usize;
        if cols == 0 {
            return Vec::new();
        }
        let area = rows_times_cols(self.rows, self.cols);
        let count = if area < self.cells.len() { area } else { self.cells.len() };
        let mut out: Vec<TerminalRenderCell> = Vec::new();
        let mut i: usize = 0;
        let mut col: u16 = 0;
        let mut row: u16 = 0;
        while i < count
            invariant
                cols == self.cols as usize,
                cols > 0,
                count <= self.cells.len(),
                count <= self.rows * self.cols,
                count == self.visible_count(),
                i <= count,
                col < self.cols,
                i == row * cols + col,
                out@.len() == i,
                forall|k: int| 0 <= k < i ==> #[trigger] out@[k] == self.render_cell_at(k),
            decreases count - i,
        {
            proof {
                vstd::arithmetic::div_mod::lemma_fundamental_div_mod_converse(i as int, cols as int, row as int, col as int);
                assert(row < self.rows) by (nonlinear_arith)
                    requires
                        i == row * cols + col,
                        i < self.rows * cols,
                        col < cols,
                        0 <= col,
                        0 <= row,
                ;
            }
            let cursor = self.cursor.visible && self.cursor.col == col && self.cursor.row == row;
            let selected = match self.selection {
                Some(s) => selection_contains(s, col, row),
                None => false,
            };
            out.push(TerminalRenderCell { cell: self.cells[i], col, row, cursor, selected });
            proof {
                assert(row * cols + cols == (row + 1) * cols) by (nonlinear_arith);
            }
            i = i + 1;
            if (col as usize) + 1 == cols {
                assert((row + 1) < 0x10000) by (nonlinear_arith)
                    requires
                        i == (row + 1) * cols,
                        i <= self.rows * cols,
                        cols > 0,
                        self.rows <= 0xffff,
                ;
                col = 0;
                row = row + 1;
            } else {
                col = col + 1;
            }
        }
        out
    }
}

/// `rows * cols`; it always fits, both being 16-bit.
pub fn rows_times_cols(rows: u16, cols: u16) -> (r: usize)
    ensures
        r == rows * cols,
{
    assert(rows * cols <= 0xffff * 0xffff) by (nonlinear_arith)
        requires
            rows <= 0xffff,
            cols <= 0xffff,
    ;
    (rows as usize) * (cols as usize)
}

} // verus!
