use vstd::prelude::*;

use crate::appearance::{TerminalColor, TerminalPalette};
use crate::grid::{clip_selection_to_viewport, clipped_selection, dim, incomplete_osc_start, last_osc_byte_start, trailing_incomplete_osc_start, dimmed, indexed_color, map_indexed_color, sat_u16, to_u16, visible_row};
use crate::terminal_events::{events_view, TerminalEvent, TerminalEventView};
use crate::notify::{notifications_view, parse_from, parse_osc_notifications, TerminalNotification};
use vstd::utf8::{decode_utf8, valid_utf8};
use crate::text::{join_lines, string_from_chars, trim_end_spaces, trimmed_end};
use crate::render::{TerminalCell, TerminalCursor, TerminalRendererSnapshot, TerminalSelection};

verus! {

/// The named colors a terminal program can ask for, besides the 256 numbered ones.
#[derive(Clone, Copy, Debug, PartialEq, Eq, Structural)]
pub enum AnsiNamedColor {
    Black,
    Red,
    Green,
    Yellow,
    Blue,
    Magenta,
    Cyan,
    White,
    BrightBlack,
    BrightRed,
    BrightGreen,
    BrightYellow,
    BrightBlue,
    BrightMagenta,
    BrightCyan,
    BrightWhite,
    Foreground,
    Background,
    Cursor,
    DimBlack,
    DimRed,
    DimGreen,
    DimYellow,
    DimBlue,
    DimMagenta,
    DimCyan,
    DimWhite,
    BrightForeground,
    DimForeground,
}

/// A color as a cell of the terminal grid refers to it.
#[derive(Clone, Copy, Debug, PartialEq, Eq, Structural)]
pub enum AnsiColor {
    Named(AnsiNamedColor),
    Spec(TerminalColor),
    Indexed(u8),
}

/// The colors a terminal program has set for itself: one per numbered color, one per named color
/// (in the order of `AnsiNamedColor`); `None` where it kept the default.
#[derive(Clone, Copy, Debug, PartialEq, Eq)]
pub struct ColorTable {
    pub indexed: [Option<TerminalColor>; 256],
    pub named: [Option<TerminalColor>; 29],
}

/// Position of a named color in `ColorTable::named`.
pub open spec fn named_slot(c: AnsiNamedColor) -> int {
    match c {
        AnsiNamedColor::Black => 0,
        AnsiNamedColor::Red => 1,
        AnsiNamedColor::Green => 2,
        AnsiNamedColor::Yellow => 3,
        AnsiNamedColor::Blue => 4,
        AnsiNamedColor::Magenta => 5,
        AnsiNamedColor::Cyan => 6,
        AnsiNamedColor::White => 7,
        AnsiNamedColor::BrightBlack => 8,
        AnsiNamedColor::BrightRed => 9,
        AnsiNamedColor::BrightGreen => 10,
        AnsiNamedColor::BrightYellow => 11,
        AnsiNamedColor::BrightBlue => 12,
        AnsiNamedColor::BrightMagenta => 13,
        AnsiNamedColor::BrightCyan => 14,
        AnsiNamedColor::BrightWhite => 15,
        AnsiNamedColor::Foreground => 16,
        AnsiNamedColor::Background => 17,
        AnsiNamedColor::Cursor => 18,
        AnsiNamedColor::DimBlack => 19,
        AnsiNamedColor::DimRed => 20,
        AnsiNamedColor::DimGreen => 21,
        AnsiNamedColor::DimYellow => 22,
        AnsiNamedColor::DimBlue => 23,
        AnsiNamedColor::DimMagenta => 24,
        AnsiNamedColor::DimCyan => 25,
        AnsiNamedColor::DimWhite => 26,
        AnsiNamedColor::BrightForeground => 27,
        AnsiNamedColor::DimForeground => 28,
    }
}

pub fn named_color_slot(c: AnsiNamedColor) -> (r: usize)
    ensures
        r == named_slot(c),
        r < 29,
{
    match c {
        AnsiNamedColor::Black => 0,
        AnsiNamedColor::Red => 1,
        AnsiNamedColor::Green => 2,
        AnsiNamedColor::Yellow => 3,
        AnsiNamedColor::Blue => 4,
        AnsiNamedColor::Magenta => 5,
        AnsiNamedColor::Cyan => 6,
        AnsiNamedColor::White => 7,
        AnsiNamedColor::BrightBlack => 8,
        AnsiNamedColor::BrightRed => 9,
        AnsiNamedColor::BrightGreen => 10,
        AnsiNamedColor::BrightYellow => 11,
        AnsiNamedColor::BrightBlue => 12,
        AnsiNamedColor::BrightMagenta => 13,
        AnsiNamedColor::BrightCyan => 14,
        AnsiNamedColor::BrightWhite => 15,
        AnsiNamedColor::Foreground => 16,
        AnsiNamedColor::Background => 17,
        AnsiNamedColor::Cursor => 18,
        AnsiNamedColor::DimBlack => 19,
        AnsiNamedColor::DimRed => 20,
        AnsiNamedColor::DimGreen => 21,
        AnsiNamedColor::DimYellow => 22,
        AnsiNamedColor::DimBlue => 23,
        AnsiNamedColor::DimMagenta => 24,
        AnsiNamedColor::DimCyan => 25,
        AnsiNamedColor::DimWhite => 26,
        AnsiNamedColor::BrightForeground => 27,
        AnsiNamedColor::DimForeground => 28,
    }
}

/// The palette's color for a named color: the sixteen ANSI colors, the foreground (also for its
/// bright and dim forms), the background, the cursor, and the dim ANSI colors at two thirds of
/// their brightness.
pub open spec fn named_color(c: AnsiNamedColor, p: TerminalPalette) -> TerminalColor {
    match c {
        AnsiNamedColor::Black => p.ansi@[0],
        AnsiNamedColor::Red => p.ansi@[1],
        AnsiNamedColor::Green => p.ansi@[2],
        AnsiNamedColor::Yellow => p.ansi@[3],
        AnsiNamedColor::Blue => p.ansi@[4],
        AnsiNamedColor::Magenta => p.ansi@[5],
        AnsiNamedColor::Cyan => p.ansi@[6],
        AnsiNamedColor::White => p.ansi@[7],
        AnsiNamedColor::BrightBlack => p.ansi@[8],
        AnsiNamedColor::BrightRed => p.ansi@[9],
        AnsiNamedColor::BrightGreen => p.ansi@[10],
        AnsiNamedColor::BrightYellow => p.ansi@[11],
        AnsiNamedColor::BrightBlue => p.ansi@[12],
        AnsiNamedColor::BrightMagenta => p.ansi@[13],
        AnsiNamedColor::BrightCyan => p.ansi@[14],
        AnsiNamedColor::BrightWhite => p.ansi@[15],
        AnsiNamedColor::Foreground | AnsiNamedColor::BrightForeground | AnsiNamedColor::DimForeground => p.foreground,
        AnsiNamedColor::Background => p.background,
        AnsiNamedColor::Cursor => p.cursor,
        AnsiNamedColor::DimBlack => dimmed(p.ansi@[0]),
        AnsiNamedColor::DimRed => dimmed(p.ansi@[1]),
        AnsiNamedColor::DimGreen => dimmed(p.ansi@[2]),
        AnsiNamedColor::DimYellow => dimmed(p.ansi@[3]),
        AnsiNamedColor::DimBlue => dimmed(p.ansi@[4]),
        AnsiNamedColor::DimMagenta => dimmed(p.ansi@[5]),
        AnsiNamedColor::DimCyan => dimmed(p.ansi@[6]),
        AnsiNamedColor::DimWhite => dimmed(p.ansi@[7]),
    }
}

pub fn map_named_color(color: AnsiNamedColor, palette: &TerminalPalette) -> (r: TerminalColor)
    ensures
        r == named_color(color, *palette),
{
    match color {
        AnsiNamedColor::Black => palette.ansi[0],
        AnsiNamedColor::Red => palette.ansi[1],
        AnsiNamedColor::Green => palette.ansi[2],
        AnsiNamedColor::Yellow => palette.ansi[3],
        AnsiNamedColor::Blue => palette.ansi[4],
        AnsiNamedColor::Magenta => palette.ansi[5],
        AnsiNamedColor::Cyan => palette.ansi[6],
        AnsiNamedColor::White => palette.ansi[7],
        AnsiNamedColor::BrightBlack => palette.ansi[8],
        AnsiNamedColor::BrightRed => palette.ansi[9],
        AnsiNamedColor::BrightGreen => palette.ansi[10],
        AnsiNamedColor::BrightYellow => palette.ansi[11],
        AnsiNamedColor::BrightBlue => palette.ansi[12],
        AnsiNamedColor::BrightMagenta => palette.ansi[13],
        AnsiNamedColor::BrightCyan => palette.ansi[14],
        AnsiNamedColor::BrightWhite => palette.ansi[15],
        AnsiNamedColor::Foreground | AnsiNamedColor::BrightForeground | AnsiNamedColor::DimForeground => {
            palette.foreground
        },
        AnsiNamedColor::Background => palette.background,
        AnsiNamedColor::Cursor => palette.cursor,
        AnsiNamedColor::DimBlack => dim(palette.ansi[0]),
        AnsiNamedColor::DimRed => dim(palette.ansi[1]),
        AnsiNamedColor::DimGreen => dim(palette.ansi[2]),
        AnsiNamedColor::DimYellow => dim(palette.ansi[3]),
        AnsiNamedColor::DimBlue => dim(palette.ansi[4]),
        AnsiNamedColor::DimMagenta => dim(palette.ansi[5]),
        AnsiNamedColor::DimCyan => dim(palette.ansi[6]),
        AnsiNamedColor::DimWhite => dim(palette.ansi[7]),
    }
}

/// The color a cell shows: what the program set for that color, else the palette's; an explicit
/// RGB color as it is.
pub open spec fn resolved_color(color: AnsiColor, colors: ColorTable, p: TerminalPalette) -> TerminalColor {
    match color {
        AnsiColor::Named(n) => match colors.named@[named_slot(n)] {
            Some(c) => c,
            None => named_color(n, p),
        },
        AnsiColor::Spec(c) => c,
        AnsiColor::Indexed(i) => match colors.indexed@[i as int] {
            Some(c) => c,
            None => indexed_color(i, p),
        },
    }
}

pub fn map_color(color: AnsiColor, colors: &ColorTable, palette: &TerminalPalette) -> (r: TerminalColor)
    ensures
        r == resolved_color(color, *colors, *palette),
{
    match color {
        AnsiColor::Named(named) => match colors.named[named_color_slot(named)] {
            Some(c) => c,
            None => map_named_color(named, palette),
        },
        AnsiColor::Spec(c) => c,
        AnsiColor::Indexed(index) => match colors.indexed[index as usize] {
            Some(c) => c,
            None => map_indexed_color(index, palette),
        },
    }
}

/// One cell of the terminal grid as the emulator holds it.
#[derive(Clone, Copy, Debug, PartialEq, Eq, Structural)]
pub struct GridCell {
    pub c: char,
    pub fg: AnsiColor,
    pub bg: AnsiColor,
    pub hidden: bool,
    pub bold: bool,
    pub italic: bool,
    /// Any kind of underline.
    pub underline: bool,
    pub inverse: bool,
}

/// The character a cell shows: a space when it is hidden.
pub open spec fn shown_char(cell: GridCell) -> char {
    if cell.hidden {
        ' '
    } else {
        cell.c
    }
}

pub open spec fn rendered_cell(cell: GridCell, colors: ColorTable, p: TerminalPalette) -> TerminalCell {
    TerminalCell {
        ch: shown_char(cell),
        fg: resolved_color(cell.fg, colors, p),
        bg: resolved_color(cell.bg, colors, p),
        bold: cell.bold,
        italic: cell.italic,
        underline: cell.underline,
        inverse: cell.inverse,
    }
}

pub fn map_cell(cell: &GridCell, colors: &ColorTable, palette: &TerminalPalette) -> (r: TerminalCell)
    ensures
        r == rendered_cell(*cell, *colors, *palette),
{
    TerminalCell {
        ch: if cell.hidden { ' ' } else { cell.c },
        fg: map_color(cell.fg, colors, palette),
        bg: map_color(cell.bg, colors, palette),
        bold: cell.bold,
        italic: cell.italic,
        underline: cell.underline,
        inverse: cell.inverse,
    }
}

pub open spec fn blank(p: TerminalPalette) -> TerminalCell {
    TerminalCell {
        ch: ' ',
        fg: p.foreground,
        bg: p.background,
        bold: false,
        italic: false,
        underline: false,
        inverse: false,
    }
}

/// An empty cell in the palette's colors.
pub fn blank_cell(palette: &TerminalPalette) -> (r: TerminalCell)
    ensures
        r == blank(*palette),
{
    TerminalCell {
        ch: ' ',
        fg: palette.foreground,
        bg: palette.background,
        bold: false,
        italic: false,
        underline: false,
        inverse: false,
    }
}

/// A grid cell and where it stands: `line` counts from the top of the screen when the view is
/// not scrolled back (lines of the scrollback are negative).
#[derive(Clone, Copy, Debug, PartialEq, Eq, Structural)]
pub struct IndexedCell {
    pub line: i32,
    pub column: usize,
    pub cell: GridCell,
}

/// A selection between two grid points, in grid lines.
#[derive(Clone, Copy, Debug, PartialEq, Eq, Structural)]
pub struct GridSelection {
    pub start_column: usize,
    pub start_line: i32,
    pub end_column: usize,
    pub end_line: i32,
}

/// What the emulator shows: the size of its screen, the cells in view, how far the view is
/// scrolled back, the program's colors, the cursor, the selection and the length of the history.
#[derive(Clone, Debug)]
pub struct GridContent {
    pub screen_lines: usize,
    pub columns: usize,
    pub display: Vec<IndexedCell>,
    pub display_offset: i32,
    pub colors: ColorTable,
    pub cursor_line: i32,
    pub cursor_column: usize,
    pub cursor_hidden: bool,
    pub selection: Option<GridSelection>,
    pub history_size: usize,
}

pub open spec fn fits_i32(v: int) -> bool {
    i32::MIN <= v <= i32::MAX
}

/// Every line of the content, moved by the scroll offset, is still an `i32`.
pub open spec fn offsets_fit(g: GridContent) -> bool {
    &&& forall|i: int| 0 <= i < g.display@.len() ==> fits_i32(#[trigger] g.display@[i].line + g.display_offset)
    &&& fits_i32(g.cursor_line + g.display_offset)
    &&& g.selection matches Some(s) ==> fits_i32(s.start_line + g.display_offset) && fits_i32(
        s.end_line + g.display_offset,
    )
}

/// `cells` with each cell of `disp` that is on a screen of `rows` by `cols` written at its place,
/// later cells over earlier ones.
pub open spec fn painted(
    cells: Seq<TerminalCell>,
    disp: Seq<IndexedCell>,
    off: int,
    rows: int,
    cols: int,
    colors: ColorTable,
    p: TerminalPalette,
) -> Seq<TerminalCell>
    decreases disp.len(),
{
    if disp.len() == 0 {
        cells
    } else {
        let prev = painted(cells, disp.drop_last(), off, rows, cols, colors, p);
        let e = disp.last();
        let row = e.line + off;
        if 0 <= row < rows && e.column < cols {
            prev.update(row * cols + e.column, rendered_cell(e.cell, colors, p))
        } else {
            prev
        }
    }
}

pub open spec fn snapshot_rows(g: GridContent) -> u16 {
    sat_u16(g.screen_lines as int)
}

pub open spec fn snapshot_cols(g: GridContent) -> u16 {
    sat_u16(g.columns as int)
}

pub open spec fn snapshot_cells(g: GridContent, p: TerminalPalette) -> Seq<TerminalCell> {
    let rows = snapshot_rows(g) as int;
    let cols = snapshot_cols(g) as int;
    painted(Seq::new((rows * cols) as nat, |i: int| blank(p)), g.display@, g.display_offset as int, rows, cols, g.colors, p)
}

pub open spec fn snapshot_cursor(g: GridContent) -> TerminalCursor {
    let rows = snapshot_rows(g) as int;
    let cols = snapshot_cols(g) as int;
    let row = g.cursor_line + g.display_offset;
    let last_col = if cols > 0 { cols - 1 } else { 0 };
    TerminalCursor {
        col: (if g.cursor_column < last_col { g.cursor_column as int } else { last_col }) as u16,
        row: if 0 <= row < rows { row as u16 } else { 0 },
        visible: !g.cursor_hidden,
    }
}

pub open spec fn snapshot_selection(g: GridContent) -> Option<TerminalSelection> {
    match g.selection {
        None => None,
        Some(s) => clipped_selection(
            s.start_column as int,
            s.start_line + g.display_offset,
            s.end_column as int,
            s.end_line + g.display_offset,
            snapshot_cols(g) as int,
            snapshot_rows(g) as int,
        ),
    }
}

proof fn lemma_cell_index(row: int, col: int, rows: int, cols: int)
    requires
        0 <= row < rows,
        0 <= col < cols,
    ensures
        0 <= row * cols + col < rows * cols,
{
    assert(row * cols + col < rows * cols) by (nonlinear_arith)
        requires
            0 <= row < rows,
            0 <= col < cols,
    ;
    assert(0 <= row * cols) by (nonlinear_arith)
        requires
            0 <= row,
            0 <= cols,
    ;
}

/// The renderer's picture of what the emulator shows: the screen's cells in the palette's colors
/// (blank where no cell is in view), the cursor on screen (row 0 when its line is out of view,
/// column clamped to the last one), the selection clipped to the screen, and the history length
/// capped at `u32::MAX`.
pub fn snapshot_from_grid(grid: &GridContent, palette: &TerminalPalette, version: u64) -> (r: TerminalRendererSnapshot)
    requires
        offsets_fit(*grid),
    ensures
        r.rows == snapshot_rows(*grid),
        r.cols == snapshot_cols(*grid),
        r.cells@ == snapshot_cells(*grid, *palette),
        r.cursor == snapshot_cursor(*grid),
        r.selection == snapshot_selection(*grid),
        r.scrollback_lines == (if grid.history_size > u32::MAX { u32::MAX as int } else { grid.history_size as int }),
        r.version == version,
{
    let rows = to_u16(grid.screen_lines);
    let cols = to_u16(grid.columns);
    assert(rows as int * cols as int <= 65535 * 65535) by (nonlinear_arith)
        requires
            rows <= 65535,
            cols <= 65535,
    ;
    let n: usize = rows as usize * cols as usize;
    let blank_c = blank_cell(palette);
    let mut cells: Vec<TerminalCell> = Vec::new();
    while cells.len() < n
        invariant
            cells.len() <= n,
            forall|i: int| 0 <= i < cells@.len() ==> cells@[i] == blank_c,
        decreases n - cells.len(),
    {
        cells.push(blank_c);
    }
    let ghost start = cells@;
    assert(start =~= Seq::new((rows as int * cols as int) as nat, |i: int| blank(*palette)));
    let mut i: usize = 0;
    while i < grid.display.len()
        invariant
            i <= grid.display.len(),
            offsets_fit(*grid),
            rows == snapshot_rows(*grid),
            cols == snapshot_cols(*grid),
            n == rows * cols,
            cells@.len() == n,
            cells@ == painted(start, grid.display@.take(i as int), grid.display_offset as int, rows as int, cols as int, grid.colors, *palette),
        decreases grid.display.len() - i,
    {
        let e = grid.display[i];
        assert(grid.display@.take(i + 1).drop_last() =~= grid.display@.take(i as int));
        assert(fits_i32(grid.display@[i as int].line + grid.display_offset));
        if let Some(row) = visible_row(e.line, grid.display_offset, rows) {
            if e.column < cols as usize {
                proof {
                    lemma_cell_index(row as int, e.column as int, rows as int, cols as int);
                }
                let index = row as usize * cols as usize + e.column;
                let c = map_cell(&e.cell, &grid.colors, palette);
                cells.set(index, c);
            }
        }
        i = i + 1;
    }
    assert(grid.display@.take(grid.display.len() as int) =~= grid.display@);
    let cursor_row = match visible_row(grid.cursor_line, grid.display_offset, rows) {
        Some(r) => r,
        None => 0,
    };
    let last_col: usize = if cols > 0 { cols as usize - 1 } else { 0 };
    let cursor_col = if grid.cursor_column < last_col { grid.cursor_column } else { last_col };
    let cursor = TerminalCursor { col: to_u16(cursor_col), row: cursor_row, visible: !grid.cursor_hidden };
    let selection = match grid.selection {
        None => None,
        Some(s) => clip_selection_to_viewport(
            s.start_column,
            s.start_line,
            s.end_column,
            s.end_line,
            grid.display_offset,
            cols,
            rows,
        ),
    };
    let scrollback_lines: u32 = if grid.history_size > 4294967295 { 4294967295 } else { grid.history_size as u32 };
    TerminalRendererSnapshot { cols, rows, cells, cursor, selection, scrollback_lines, version }
}

/// A row of the grid as text: what each cell shows, trailing spaces dropped.
pub open spec fn row_text(row: Seq<GridCell>) -> Seq<char> {
    trim_end_spaces(row.map_values(|c: GridCell| shown_char(c)))
}

pub open spec fn strip_leading_newlines(s: Seq<char>) -> Seq<char>
    decreases s.len(),
{
    if s.len() > 0 && s[0] == '\n' {
        strip_leading_newlines(s.drop_first())
    } else {
        s
    }
}

pub open spec fn strip_trailing_newlines(s: Seq<char>) -> Seq<char>
    decreases s.len(),
{
    if s.len() > 0 && s.last() == '\n' {
        strip_trailing_newlines(s.drop_last())
    } else {
        s
    }
}

/// `s` without the newlines at its start and at its end.
pub open spec fn trim_newlines(s: Seq<char>) -> Seq<char> {
    strip_trailing_newlines(strip_leading_newlines(s))
}

/// The text of grid rows: each row's text, joined by newlines, without newlines at either end.
pub open spec fn grid_text(rows: Seq<Seq<GridCell>>) -> Seq<char> {
    trim_newlines(join_lines(rows.map_values(|row: Seq<GridCell>| row_text(row))))
}

pub open spec fn rows_view(rows: Seq<Vec<GridCell>>) -> Seq<Seq<GridCell>> {
    rows.map_values(|row: Vec<GridCell>| row@)
}

fn shown_chars(row: &Vec<GridCell>) -> (r: Vec<char>)
    ensures
        r@ == row@.map_values(|c: GridCell| shown_char(c)),
{
    let mut out: Vec<char> = Vec::new();
    let mut i: usize = 0;
    while i < row.len()
        invariant
            i <= row.len(),
            out@ == row@.take(i as int).map_values(|c: GridCell| shown_char(c)),
        decreases row.len() - i,
    {
        let c = row[i];
        out.push(if c.hidden { ' ' } else { c.c });
        assert(row@.take(i + 1).map_values(|c: GridCell| shown_char(c)) =~= row@.take(i as int).map_values(
            |c: GridCell| shown_char(c),
        ).push(shown_char(row@[i as int])));
        i = i + 1;
    }
    assert(row@.take(row.len() as int) =~= row@);
    out
}

fn push_joined_line(out: &mut Vec<char>, count: usize, line: &Vec<char>, len: usize, Ghost(lines): Ghost<Seq<Seq<char>>>)
    requires
        old(out)@ == join_lines(lines),
        count == lines.len(),
        len <= line.len(),
    ensures
        final(out)@ == join_lines(lines.push(line@.take(len as int))),
{
    let ghost l2 = lines.push(line@.take(len as int));
    assert(l2.drop_last() =~= lines);
    if count > 0 {
        out.push('\n');
    } else {
        assert(old(out)@ =~= Seq::<char>::empty());
    }
    let ghost before = out@;
    let mut j: usize = 0;
    while j < len
        invariant
            j <= len <= line.len(),
            out@ == before + line@.take(j as int),
        decreases len - j,
    {
        out.push(line[j]);
        assert(before + line@.take(j + 1) =~= (before + line@.take(j as int)).push(line@[j as int]));
        j = j + 1;
    }
    if count == 0 {
        assert(out@ =~= line@.take(len as int));
    }
}

/// The text of grid rows (see `grid_text`).
pub fn screen_text_from_rows(rows: &Vec<Vec<GridCell>>) -> (r: String)
    ensures
        r@ == grid_text(rows_view(rows@)),
{
    let ghost texts = rows_view(rows@).map_values(|row: Seq<GridCell>| row_text(row));
    let mut out: Vec<char> = Vec::new();
    let mut i: usize = 0;
    while i < rows.len()
        invariant
            i <= rows.len(),
            texts == rows_view(rows@).map_values(|row: Seq<GridCell>| row_text(row)),
            out@ == join_lines(texts.take(i as int)),
        decreases rows.len() - i,
    {
        let chars = shown_chars(&rows[i]);
        let end = trimmed_end(&chars, chars.len());
        assert(chars@.subrange(0, chars.len() as int) =~= chars@);
        assert(chars@.take(end as int) =~= chars@.subrange(0, end as int));
        assert(texts[i as int] == row_text(rows@[i as int]@));
        push_joined_line(&mut out, i, &chars, end, Ghost(texts.take(i as int)));
        assert(texts.take(i as int).push(chars@.take(end as int)) =~= texts.take(i + 1));
        i = i + 1;
    }
    assert(texts.take(rows.len() as int) =~= texts);
    let n = out.len();
    let mut st: usize = 0;
    assert(out@.subrange(0, n as int) =~= out@);
    while st < n && out[st] == '\n'
        invariant
            st <= n == out@.len(),
            strip_leading_newlines(out@) == strip_leading_newlines(out@.subrange(st as int, n as int)),
        decreases n - st,
    {
        assert(out@.subrange(st as int, n as int).drop_first() =~= out@.subrange(st + 1, n as int));
        st = st + 1;
    }
    let mut e: usize = n;
    while e > st && out[e - 1] == '\n'
        invariant
            st <= e <= n == out@.len(),
            strip_leading_newlines(out@) == out@.subrange(st as int, n as int),
            strip_trailing_newlines(out@.subrange(st as int, n as int)) == strip_trailing_newlines(
                out@.subrange(st as int, e as int),
            ),
        decreases e,
    {
        assert(out@.subrange(st as int, e as int).drop_last() =~= out@.subrange(st as int, e - 1));
        e = e - 1;
    }
    let mut kept: Vec<char> = Vec::new();
    let mut k: usize = st;
    while k < e
        invariant
            st <= k <= e <= n == out@.len(),
            kept@ == out@.subrange(st as int, k as int),
        decreases e - k,
    {
        kept.push(out[k]);
        assert(out@.subrange(st as int, k + 1) =~= out@.subrange(st as int, k as int).push(out@[k as int]));
        k = k + 1;
    }
    string_from_chars(&kept)
}

/// The text std makes of bytes that may not be UTF-8: each invalid sequence becomes U+FFFD.
pub uninterp spec fn utf8_lossy(bytes: Seq<u8>) -> Seq<char>;

/// `String::from_utf8_lossy`: its text is `utf8_lossy` of the bytes, and bytes that are valid
/// UTF-8 are decoded as they are. What replaces an invalid sequence is not stated here.
#[verifier::external_body]
fn lossy_text(bytes: &[u8]) -> (r: String)
    ensures
        r@ == utf8_lossy(bytes@),
        valid_utf8(bytes@) ==> r@ == decode_utf8(bytes@),
{
    String::from_utf8_lossy(bytes).into_owned()
}

/// The part of `b` whose escape sequences are complete.
pub open spec fn complete_part(b: Seq<u8>) -> Seq<u8> {
    match incomplete_osc_start(b) {
        Some(i) => b.take(i),
        None => b,
    }
}

/// What of `b` must wait for more output: an unfinished escape sequence at its end.
pub open spec fn waiting_part(b: Seq<u8>) -> Seq<u8> {
    match incomplete_osc_start(b) {
        Some(i) => b.skip(i),
        None => Seq::empty(),
    }
}

/// Terminal output on its way to the notification parser: an OSC sequence split across reads
/// waits here until the read that completes it.
#[derive(Clone, Debug)]
pub struct OscStream {
    pending: Vec<u8>,
}

impl View for OscStream {
    type V = Seq<u8>;

    closed spec fn view(&self) -> Seq<u8> {
        self.pending@
    }
}

impl OscStream {
    pub fn new() -> (r: Self)
        ensures
            r@ == Seq::<u8>::empty(),
    {
        OscStream { pending: Vec::new() }
    }

    /// Takes the next read of output and returns the notifications of the sequences it completes;
    /// an unfinished sequence at its end is kept for the next read.
    pub fn feed(&mut self, bytes: &[u8]) -> (r: Vec<TerminalNotification>)
        ensures
            final(self)@ == waiting_part(old(self)@ + bytes@),
            notifications_view(r@) == parse_from(utf8_lossy(complete_part(old(self)@ + bytes@)), 0),
            valid_utf8(complete_part(old(self)@ + bytes@)) ==> notifications_view(r@) == parse_from(
                decode_utf8(complete_part(old(self)@ + bytes@)),
                0,
            ),
    {
        let mut buffered: Vec<u8> = Vec::new();
        let ghost b = self@ + bytes@;
        let mut i: usize = 0;
        while i < self.pending.len()
            invariant
                i <= self.pending.len(),
                buffered@ == self.pending@.take(i as int),
            decreases self.pending.len() - i,
        {
            buffered.push(self.pending[i]);
            assert(self.pending@.take(i + 1) =~= self.pending@.take(i as int).push(self.pending@[i as int]));
            i = i + 1;
        }
        let mut j: usize = 0;
        while j < bytes.len()
            invariant
                i == self.pending.len(),
                j <= bytes.len(),
                buffered@ == self.pending@.take(i as int) + bytes@.take(j as int),
            decreases bytes.len() - j,
        {
            buffered.push(bytes[j]);
            assert(self.pending@.take(i as int) + bytes@.take(j + 1) =~= (self.pending@.take(i as int) + bytes@.take(
                j as int,
            )).push(bytes@[j as int]));
            j = j + 1;
        }
        assert(buffered@ =~= b);
        let complete_len = match trailing_incomplete_osc_start(buffered.as_slice()) {
            Some(st) => st,
            None => buffered.len(),
        };
        let mut complete: Vec<u8> = Vec::new();
        let mut rest: Vec<u8> = Vec::new();
        let mut k: usize = 0;
        while k < buffered.len()
            invariant
                complete_len <= buffered.len(),
                k <= buffered.len(),
                complete@ == buffered@.take(if k < complete_len { k as int } else { complete_len as int }),
                rest@ == (if k < complete_len { Seq::<u8>::empty() } else { buffered@.subrange(complete_len as int, k as int) }),
            decreases buffered.len() - k,
        {
            if k < complete_len {
                complete.push(buffered[k]);
                assert(buffered@.take(k + 1) =~= buffered@.take(k as int).push(buffered@[k as int]));
            } else {
                rest.push(buffered[k]);
                assert(buffered@.subrange(complete_len as int, k + 1) =~= buffered@.subrange(complete_len as int, k as int).push(
                    buffered@[k as int],
                ));
            }
            k = k + 1;
        }
        assert(rest@ =~= buffered@.subrange(complete_len as int, buffered.len() as int));
        self.pending = rest;
        proof {
            assert(buffered@ == b);
            match incomplete_osc_start(b) {
                None => {
                    assert(complete_len == buffered.len());
                    assert(complete@ =~= b);
                    assert(rest@ =~= Seq::<u8>::empty());
                },
                Some(st) => {
                    assert(complete_len == st);
                    assert(complete@ =~= b.take(st));
                    assert(rest@ =~= b.skip(st));
                },
            }
            assert(complete@ == complete_part(b));
            assert(rest@ == waiting_part(b));
        }
        let text = lossy_text(complete.as_slice());
        parse_osc_notifications(text.as_str())
    }
}

/// What the emulator reports while it runs, as it reports it.
#[derive(Clone, Debug, PartialEq, Eq)]
pub enum EmulatorEvent {
    Title(String),
    ResetTitle,
    Bell,
    Wakeup,
    /// The child exited, with its exit code when it has one.
    ChildExit(Option<i32>),
    ClipboardStore,
    ClipboardLoad,
    ColorRequest,
    PtyWrite,
    TextAreaSizeRequest,
    CursorBlinkingChange,
    MouseCursorDirty,
    Exit,
}

/// The terminal event an emulator report becomes: a title (a reset one reads "Terminal"), a
/// bell, a wakeup or the child's exit; the other reports are dropped.
pub open spec fn emulator_event_view(e: EmulatorEvent) -> Option<TerminalEventView> {
    match e {
        EmulatorEvent::Title(t) => Some(TerminalEventView::TitleChanged(t@)),
        EmulatorEvent::ResetTitle => Some(TerminalEventView::TitleChanged("Terminal"@)),
        EmulatorEvent::Bell => Some(TerminalEventView::Bell),
        EmulatorEvent::Wakeup => Some(TerminalEventView::Wakeup),
        EmulatorEvent::ChildExit(code) => Some(TerminalEventView::ChildExited(code)),
        _ => None,
    }
}

pub open spec fn opt_event_view(e: Option<TerminalEvent>) -> Option<TerminalEventView> {
    match e {
        Some(e) => Some(e@),
        None => None,
    }
}

pub fn map_emulator_event(event: EmulatorEvent) -> (r: Option<TerminalEvent>)
    ensures
        opt_event_view(r) == emulator_event_view(event),
{
    match event {
        EmulatorEvent::Title(title) => Some(TerminalEvent::TitleChanged(title)),
        EmulatorEvent::ResetTitle => Some(TerminalEvent::TitleChanged(String::from_str("Terminal"))),
        EmulatorEvent::Bell => Some(TerminalEvent::Bell),
        EmulatorEvent::Wakeup => Some(TerminalEvent::Wakeup),
        EmulatorEvent::ChildExit(code) => Some(TerminalEvent::ChildExited(code)),
        EmulatorEvent::ClipboardStore
        | EmulatorEvent::ClipboardLoad
        | EmulatorEvent::ColorRequest
        | EmulatorEvent::PtyWrite
        | EmulatorEvent::TextAreaSizeRequest
        | EmulatorEvent::CursorBlinkingChange
        | EmulatorEvent::MouseCursorDirty
        | EmulatorEvent::Exit => None,
    }
}

/// Collects the terminal events the emulator reports until they are drained.
#[derive(Clone, Debug)]
pub struct TerminalEventSink {
    events: Vec<TerminalEvent>,
}

impl View for TerminalEventSink {
    type V = Seq<TerminalEventView>;

    closed spec fn view(&self) -> Seq<TerminalEventView> {
        events_view(self.events@)
    }
}

impl Default for TerminalEventSink {
    fn default() -> (r: Self)
        ensures
            r@ == Seq::<TerminalEventView>::empty(),
    {
        let r = TerminalEventSink { events: Vec::new() };
        assert(r@ =~= Seq::<TerminalEventView>::empty());
        r
    }
}

impl TerminalEventSink {
    /// Records what a report becomes, if anything.
    pub fn send_event(&mut self, event: EmulatorEvent)
        ensures
            final(self)@ == match emulator_event_view(event) {
                Some(e) => old(self)@.push(e),
                None => old(self)@,
            },
    {
        let ghost before = self.events@;
        if let Some(mapped) = map_emulator_event(event) {
            self.events.push(mapped);
            assert(events_view(self.events@) =~= events_view(before).push(mapped@));
        }
    }

    /// Hands out the recorded events, oldest first, and forgets them.
    pub fn drain(&mut self) -> (r: Vec<TerminalEvent>)
        ensures
            events_view(r@) == old(self)@,
            final(self)@ == Seq::<TerminalEventView>::empty(),
    {
        let mut taken: Vec<TerminalEvent> = Vec::new();
        std::mem::swap(&mut taken, &mut self.events);
        assert(events_view(self.events@) =~= Seq::<TerminalEventView>::empty());
        taken
    }
}

proof fn lemma_painted_len(
    cells: Seq<TerminalCell>,
    disp: Seq<IndexedCell>,
    off: int,
    rows: int,
    cols: int,
    colors: ColorTable,
    p: TerminalPalette,
)
    requires
        cells.len() == rows * cols,
    ensures
        painted(cells, disp, off, rows, cols, colors, p).len() == cells.len(),
    decreases disp.len(),
{
    if disp.len() > 0 {
        lemma_painted_len(cells, disp.drop_last(), off, rows, cols, colors, p);
        let e = disp.last();
        let row = e.line + off;
        if 0 <= row < rows && e.column < cols {
            lemma_cell_index(row, e.column as int, rows, cols);
        }
    }
}

/// A snapshot has one cell for each place of its screen, and its cursor is on the screen.
pub proof fn law_snapshot_covers_screen(g: GridContent, p: TerminalPalette)
    ensures
        snapshot_cells(g, p).len() == snapshot_rows(g) * snapshot_cols(g),
        snapshot_rows(g) > 0 ==> snapshot_cursor(g).row < snapshot_rows(g),
        snapshot_cols(g) > 0 ==> snapshot_cursor(g).col < snapshot_cols(g),
{
    let rows = snapshot_rows(g) as int;
    let cols = snapshot_cols(g) as int;
    assert(0 <= rows * cols) by (nonlinear_arith)
        requires
            0 <= rows,
            0 <= cols,
    ;
    lemma_painted_len(
        Seq::new((rows * cols) as nat, |i: int| blank(p)),
        g.display@,
        g.display_offset as int,
        rows,
        cols,
        g.colors,
        p,
    );
}

proof fn lemma_last_osc_byte_start(s: Seq<u8>, end: int)
    ensures
        last_osc_byte_start(s, end) >= 0 ==> last_osc_byte_start(s, end) + 1 < s.len() && s[last_osc_byte_start(s, end)] == 0x1b,
    decreases end,
{
    if end >= 2 && end <= s.len() && !(s[end - 2] == 0x1b && s[end - 1] == 0x5d) {
        lemma_last_osc_byte_start(s, end - 1);
    }
}

/// What an OSC stream keeps waiting is nothing, or output that starts with an escape.
pub proof fn law_osc_stream_waits_on_escape(b: Seq<u8>)
    ensures
        waiting_part(b).len() == 0 || waiting_part(b)[0] == 0x1b,
        complete_part(b) + waiting_part(b) == b,
{
    lemma_last_osc_byte_start(b, b.len() as int);
    match incomplete_osc_start(b) {
        Some(i) => {
            assert(b.take(i) + b.skip(i) =~= b);
        },
        None => {
            assert(b + Seq::<u8>::empty() =~= b);
        },
    }
}

} // verus!
