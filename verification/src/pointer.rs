//! The pointer mapper: translates a mouse click in pixel coordinates, given
//! the font's line height and nominal character width, into a `(line,
//! column)` buffer coordinate. ASCII characters count one character cell,
//! all others two, matching fixed-width double-wide rendering; the mapping
//! clamps to the buffer, never failing.

use vstd::prelude::*;
use crate::buffer::TextBuffer;
use crate::text::{lemma_count_nl_nonneg, lemma_line_shape, line_count, line_len, line_text};

verus! {

/// Display width of one character in character cells.
pub open spec fn char_cells(c: char) -> int {
    if (c as u32) < 128 {
        1
    } else {
        2
    }
}

/// The column a horizontal scan of `line` lands on: character widths are
/// accumulated left to right until the total exceeds `x`; the column is the
/// character index where that happens, clamped to the line end.
pub open spec fn spec_column_at_x(line: Seq<char>, i: int, acc: int, x: int, cw: int) -> int
    decreases line.len() - i,
{
    if i < 0 || i >= line.len() {
        line.len() as int
    } else {
        let w = acc + char_cells(line[i]) * cw;
        if w > x {
            i
        } else {
            spec_column_at_x(line, i + 1, w, x, cw)
        }
    }
}

/// The line a vertical pixel position lands on: offset by the header
/// height, divided by the line height, clamped to the last line.
pub open spec fn spec_target_line(y: int, line_height: int, nlines: int) -> int {
    let rel = if y >= 41 {
        y - 41
    } else {
        0
    };
    if rel / line_height >= nlines {
        nlines - 1
    } else {
        rel / line_height
    }
}

fn column_at_x(line: &str, x: usize, cw: usize) -> (col: usize)
    ensures
        col == spec_column_at_x(line@, 0, 0, x as int, cw as int),
        col <= line@.len(),
{
    let n = line.unicode_len();
    let mut i: usize = 0;
    let mut acc: u128 = 0;
    while i < n
        invariant
            0 <= i <= n,
            n == line@.len(),
            acc <= x as u128,
            spec_column_at_x(line@, 0, 0, x as int, cw as int) == spec_column_at_x(
                line@,
                i as int,
                acc as int,
                x as int,
                cw as int,
            ),
        decreases n - i,
    {
        let c = line.get_char(i);
        let cells: u128 = if (c as u32) < 128 {
            1
        } else {
            2
        };
        let w = acc + cells * (cw as u128);
        if w > x as u128 {
            return i;
        }
        acc = w;
        i = i + 1;
    }
    n
}

/// Maps a mouse click to the buffer coordinate it lands on. The vertical
/// position picks the line, clamped to the last line; the horizontal
/// position is scanned against the line's character widths, clamped to the
/// line end. The result never splits a character and always lies within
/// buffer bounds.
pub fn handle_mouse_click(
    mouse_x: usize,
    mouse_y: usize,
    line_height: usize,
    char_width: usize,
    buffer: &TextBuffer,
) -> (r: (usize, usize))
    requires
        line_height >= 1,
    ensures
        r.0 == spec_target_line(mouse_y as int, line_height as int, line_count(buffer@)),
        r.1 == spec_column_at_x(
            line_text(buffer@, r.0 as int),
            0,
            0,
            (if mouse_x >= 8 {
                mouse_x - 8
            } else {
                0
            }) as int,
            char_width as int,
        ),
        r.0 < line_count(buffer@),
        r.1 <= line_len(buffer@, r.0 as int),
{
    let rel_y = if mouse_y >= 41 {
        mouse_y - 41
    } else {
        0
    };
    let lc = buffer.line_count();
    let q = rel_y / line_height;
    let line = if q >= lc {
        lc - 1
    } else {
        q
    };
    proof {
        lemma_count_nl_nonneg(buffer@);
        lemma_line_shape(buffer@, line as int);
    }
    let s = buffer.line(line);
    let x_rel = if mouse_x >= 8 {
        mouse_x - 8
    } else {
        0
    };
    let col = column_at_x(s.as_str(), x_rel, char_width);
    (line, col)
}

} // verus!
