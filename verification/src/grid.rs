use vstd::prelude::*;

use crate::appearance::{rgb, TerminalColor, TerminalPalette};
use crate::render::TerminalSelection;

verus! {

/// `v`, or `u16::MAX` when it does not fit.
pub open spec fn sat_u16(v: int) -> u16 {
    if v > u16::MAX {
        u16::MAX
    } else {
        v as u16
    }
}

pub fn to_u16(value: usize) -> (r: u16)
    ensures
        r == sat_u16(value as int),
{
    if value > 65535 {
        65535
    } else {
        value as u16
    }
}

/// The screen row of grid line `line` when the view is scrolled back by `display_offset`.
pub fn visible_row(line: i32, display_offset: i32, rows: u16) -> (r: Option<u16>)
    requires
        i32::MIN <= line + display_offset <= i32::MAX,
    ensures
        r == (if 0 <= line + display_offset < rows {
            Some((line + display_offset) as u16)
        } else {
            None::<u16>
        }),
{
    let row = line + display_offset;
    if row < 0 || row >= rows as i32 {
        None
    } else {
        Some(row as u16)
    }
}

/// What is left of a selection once it is clipped to a grid of `cols` by `rows`: `None`
/// when none of it is on screen; an end above the screen starts at its top-left corner, an
/// end below it at its bottom-right corner, and other columns are clamped to the grid.
pub open spec fn clipped_selection(
    start_col: int,
    start_row: int,
    end_col: int,
    end_row: int,
    cols: int,
    rows: int,
) -> Option<TerminalSelection> {
    let last_row = rows - 1;
    let last_col = cols - 1;
    if cols == 0 || rows == 0 || end_row < 0 || start_row > last_row {
        None
    } else {
        let (sr, sc) = if start_row < 0 {
            (0int, 0int)
        } else {
            (start_row, if start_col < last_col { start_col } else { last_col })
        };
        let (er, ec) = if end_row > last_row {
            (last_row, last_col)
        } else {
            (end_row, if end_col < last_col { end_col } else { last_col })
        };
        Some(
            TerminalSelection {
                start_col: sc as u16,
                start_row: sr as u16,
                end_col: ec as u16,
                end_row: er as u16,
            },
        )
    }
}

pub fn clip_selection_to_viewport(
    start_col: usize,
    start_line: i32,
    end_col: usize,
    end_line: i32,
    display_offset: i32,
    cols: u16,
    rows: u16,
) -> (r: Option<TerminalSelection>)
    requires
        i32::MIN <= start_line + display_offset <= i32::MAX,
        i32::MIN <= end_line + display_offset <= i32::MAX,
    ensures
        r == clipped_selection(
            start_col as int,
            start_line + display_offset,
            end_col as int,
            end_line + display_offset,
            cols as int,
            rows as int,
        ),
{
    if cols == 0 || rows == 0 {
        return None;
    }
    let start_row = start_line + display_offset;
    let end_row = end_line + display_offset;
    let last_row = rows as i32 - 1;
    if end_row < 0 || start_row > last_row {
        return None;
    }
    let last_col = cols as usize - 1;
    let (sr, sc) = if start_row < 0 {
        (0u16, 0u16)
    } else {
        (start_row as u16, to_u16(if start_col < last_col { start_col } else { last_col }))
    };
    let (er, ec) = if end_row > last_row {
        (last_row as u16, to_u16(last_col))
    } else {
        (end_row as u16, to_u16(if end_col < last_col { end_col } else { last_col }))
    };
    Some(TerminalSelection { start_col: sc, start_row: sr, end_col: ec, end_row: er })
}

/// A color at two thirds of its brightness.
pub open spec fn dimmed(color: TerminalColor) -> TerminalColor {
    rgb(((color.r as int * 2) / 3) as u8, ((color.g as int * 2) / 3) as u8, ((color.b as int * 2) / 3) as u8)
}

pub fn dim(color: TerminalColor) -> (r: TerminalColor)
    ensures
        r == dimmed(color),
{
    TerminalColor::rgb(
        ((color.r as u16 * 2) / 3) as u8,
        ((color.g as u16 * 2) / 3) as u8,
        ((color.b as u16 * 2) / 3) as u8,
    )
}

pub open spec fn cube_channel(v: int) -> u8 {
    if v == 0 {
        0
    } else {
        (55 + v * 40) as u8
    }
}

/// The brightness of step `value` (0 to 5) of the 6x6x6 color cube.
pub fn color_cube_channel(value: u8) -> (r: u8)
    requires
        value <= 5,
    ensures
        r == cube_channel(value as int),
{
    if value == 0 {
        0
    } else {
        55 + value * 40
    }
}

/// Color `index` of the 256-color palette: the sixteen ANSI colors, then the color cube,
/// then a gray ramp.
pub open spec fn indexed_color(index: u8, palette: TerminalPalette) -> TerminalColor {
    if index < 16 {
        palette.ansi@[index as int]
    } else if index < 232 {
        let v = index - 16;
        rgb(cube_channel(v / 36), cube_channel((v % 36) / 6), cube_channel(v % 6))
    } else {
        let c = (8 + (index - 232) * 10) as u8;
        rgb(c, c, c)
    }
}

pub fn map_indexed_color(index: u8, palette: &TerminalPalette) -> (r: TerminalColor)
    ensures
        r == indexed_color(index, *palette),
{
    if index < 16 {
        palette.ansi[index as usize]
    } else if index < 232 {
        let value = index - 16;
        let r = value / 36;
        let g = (value % 36) / 6;
        let b = value % 6;
        TerminalColor::rgb(color_cube_channel(r), color_cube_channel(g), color_cube_channel(b))
    } else {
        let channel = 8 + (index - 232) * 10;
        TerminalColor::rgb(channel, channel, channel)
    }
}

/// Start of the last OSC introducer (ESC `]`) in `s` whose pair lies before `end`, or -1.
pub open spec fn last_osc_byte_start(s: Seq<u8>, end: int) -> int
    decreases end,
{
    if end < 2 || end > s.len() {
        -1
    } else if s[end - 2] == 0x1b && s[end - 1] == 0x5d {
        end - 2
    } else {
        last_osc_byte_start(s, end - 1)
    }
}

/// A BEL, or an ESC `\`, starts at `j`.
pub open spec fn terminator_at(s: Seq<u8>, j: int) -> bool {
    s[j] == 0x07 || (j + 1 < s.len() && s[j] == 0x1b && s[j + 1] == 0x5c)
}

/// `s` from `i` on holds a BEL or an ESC `\`.
pub open spec fn has_byte_terminator(s: Seq<u8>, i: int) -> bool {
    exists|j: int| i <= j < s.len() && #[trigger] terminator_at(s, j)
}

/// Where the bytes still waiting for the end of an escape sequence begin: at the last OSC
/// introducer when no terminator follows it, else at a final lone ESC.
pub open spec fn incomplete_osc_start(s: Seq<u8>) -> Option<int> {
    let st = last_osc_byte_start(s, s.len() as int);
    if st >= 0 && !has_byte_terminator(s, st) {
        Some(st)
    } else if s.len() > 0 && s.last() == 0x1b {
        Some(s.len() - 1)
    } else {
        None
    }
}

fn last_osc_byte_start_exec(output: &[u8]) -> (r: Option<usize>)
    ensures
        match r {
            Some(i) => i as int == last_osc_byte_start(output@, output@.len() as int) && i + 2 <= output@.len(),
            None => last_osc_byte_start(output@, output@.len() as int) == -1,
        },
{
    let n = output.len();
    let mut end = n;
    while end >= 2
        invariant
            end <= n == output@.len(),
            last_osc_byte_start(output@, n as int) == last_osc_byte_start(output@, end as int),
        decreases end,
    {
        if output[end - 2] == 0x1b && output[end - 1] == 0x5d {
            return Some(end - 2);
        }
        end = end - 1;
    }
    None
}

fn has_terminator_from(output: &[u8], from: usize) -> (r: bool)
    ensures
        r == has_byte_terminator(output@, from as int),
{
    let n = output.len();
    let mut j = from;
    while j < n
        invariant
            from <= j,
            n == output@.len(),
            forall|k: int| from <= k < j ==> !#[trigger] terminator_at(output@, k),
        decreases n - j,
    {
        if output[j] == 0x07 || (j + 1 < n && output[j] == 0x1b && output[j + 1] == 0x5c) {
            assert(terminator_at(output@, j as int));
            return true;
        }
        j = j + 1;
    }
    false
}

pub fn trailing_incomplete_osc_start(output: &[u8]) -> (r: Option<usize>)
    ensures
        r matches Some(i) ==> i < output@.len(),
        match incomplete_osc_start(output@) {
            Some(i) => r == Some(i as usize) && 0 <= i < output@.len(),
            None => r is None,
        },
{
    let n = output.len();
    if let Some(st) = last_osc_byte_start_exec(output) {
        if !has_terminator_from(output, st) {
            return Some(st);
        }
    }
    if n > 0 && output[n - 1] == 0x1b {
        Some(n - 1)
    } else {
        None
    }
}

/// A clipped selection lies on the grid: both its rows below `rows`, both its columns below `cols`.
pub proof fn law_clipped_selection_on_grid(
    start_col: int,
    start_row: int,
    end_col: int,
    end_row: int,
    cols: u16,
    rows: u16,
)
    requires
        start_col >= 0,
        end_col >= 0,
    ensures
        clipped_selection(start_col, start_row, end_col, end_row, cols as int, rows as int) matches Some(sel)
            ==> sel.start_row < rows && sel.end_row < rows && sel.start_col < cols && sel.end_col < cols,
{
}

} // verus!
