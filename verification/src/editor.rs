//! The editing session: a text buffer together with a cursor in character
//! coordinates, driven by discrete movement and edit commands. Out-of-range
//! requests are clamped, never surfaced as failures: every command leaves
//! the cursor within buffer bounds.

use vstd::prelude::*;
use crate::buffer::TextBuffer;
use crate::token::{covers, parse, SyntaxBlocks};
use crate::text::{
    clamped_end, clamped_start, count_nl, insert_at, lemma_count_nl_le_len,
    lemma_count_nl_nonneg, lemma_has_nl_count, lemma_insert_count, lemma_insert_in_line,
    lemma_line_shape, lemma_no_nl_count_zero, lemma_offset_of_position,
    lemma_position_of_offset, lemma_remove_after_cursor, line_len, line_of_offset, line_start,
    remove_range,
};

verus! {

/// Reports whether the string holds a line separator.
fn contains_nl(text: &str) -> (r: bool)
    ensures
        r == (count_nl(text@) >= 1),
{
    let n = text.unicode_len();
    let mut i: usize = 0;
    let mut found = false;
    while i < n
        invariant
            0 <= i <= n,
            n == text@.len(),
            found == exists|j: int| 0 <= j < i && text@[j] == '\n',
        decreases n - i,
    {
        if text.get_char(i) == '\n' {
            found = true;
        }
        i += 1;
    }
    proof {
        lemma_has_nl_count(text@);
    }
    found
}

/// An editing session: the document and a single cursor, `(line, column)`
/// counted in characters.
pub struct Editor {
    buffer: TextBuffer,
    line: usize,
    col: usize,
}

impl Editor {
    /// The document's characters.
    pub closed spec fn text(&self) -> Seq<char> {
        self.buffer@
    }

    /// The cursor's line, 0-based.
    pub closed spec fn cursor_line(&self) -> int {
        self.line as int
    }

    /// The cursor's column in characters from the line start; the line
    /// length is the valid end-of-line position.
    pub closed spec fn cursor_col(&self) -> int {
        self.col as int
    }

    /// The cursor lies within buffer bounds.
    pub open spec fn wf(&self) -> bool {
        &&& self.cursor_line() <= count_nl(self.text())
        &&& self.cursor_col() <= line_len(self.text(), self.cursor_line())
    }

    /// The cursor's position as a character offset into the document.
    pub open spec fn cursor_offset(&self) -> int {
        line_start(self.text(), self.cursor_line()) + self.cursor_col()
    }

    /// A fresh session: empty document, cursor at the origin.
    pub fn new() -> (r: Editor)
        ensures
            r.wf(),
            r.text() == Seq::<char>::empty(),
            r.cursor_line() == 0,
            r.cursor_col() == 0,
    {
        Editor { buffer: TextBuffer::new(), line: 0, col: 0 }
    }

    /// The whole document as a string.
    pub fn get_text(&self) -> (s: String)
        ensures
            s@ == self.text(),
    {
        self.buffer.get_text()
    }

    /// The underlying buffer, for read-only collaborators such as the
    /// pointer mapper.
    pub fn buffer(&self) -> (b: &TextBuffer)
        ensures
            b@ == self.text(),
    {
        &self.buffer
    }

    /// The cursor position as a character offset.
    fn offset(&self) -> (n: usize)
        requires
            self.wf(),
        ensures
            n == self.cursor_offset(),
            n <= self.text().len(),
    {
        let _len = self.buffer.len_chars();
        proof {
            lemma_offset_of_position(self.text(), self.cursor_line(), self.cursor_col());
        }
        let start = self.buffer.line_to_char(self.line);
        start + self.col
    }

    /// Inserts `text` at the cursor. The column advances by the character
    /// count of `text`; if `text` holds a line separator the cursor moves to
    /// the start of the next line instead.
    pub fn insert_text(&mut self, text: &str)
        requires
            old(self).wf(),
            old(self).text().len() + text@.len() <= usize::MAX,
        ensures
            final(self).wf(),
            final(self).text() == insert_at(
                old(self).text(),
                old(self).cursor_offset(),
                text@,
            ),
            count_nl(text@) == 0 ==> final(self).cursor_line() == old(self).cursor_line()
                && final(self).cursor_col() == old(self).cursor_col() + text@.len(),
            count_nl(text@) >= 1 ==> final(self).cursor_line() == old(self).cursor_line() + 1
                && final(self).cursor_col() == 0,
    {
        let ghost s = self.text();
        let ghost l = self.cursor_line();
        let ghost c = self.cursor_col();
        let off = self.offset();
        let has_nl = contains_nl(text);
        proof {
            lemma_count_nl_nonneg(text@);
        }
        self.buffer.insert(off, text);
        proof {
            lemma_insert_count(s, off as int, text@);
        }
        if has_nl {
            proof {
                lemma_count_nl_le_len(s);
                lemma_line_shape(self.text(), l + 1);
            }
            self.line = self.line + 1;
            self.col = 0;
        } else {
            proof {
                lemma_line_shape(s, l);
                lemma_insert_in_line(s, l, c, text@);
            }
            let add = text.unicode_len();
            self.col = self.col + add;
        }
    }

    /// Removes `length` characters immediately after the cursor, truncated
    /// to the end of the document; the cursor does not move.
    pub fn move_cursor_delete(&mut self, length: usize)
        requires
            old(self).wf(),
        ensures
            final(self).wf(),
            final(self).cursor_line() == old(self).cursor_line(),
            final(self).cursor_col() == old(self).cursor_col(),
            final(self).text() == remove_range(
                old(self).text(),
                old(self).cursor_offset(),
                if old(self).cursor_offset() + length <= old(self).text().len() {
                    old(self).cursor_offset() + length
                } else {
                    old(self).text().len() as int
                },
            ),
    {
        let ghost s = self.text();
        let ghost l = self.cursor_line();
        let ghost c = self.cursor_col();
        let off = self.offset();
        let len = self.buffer.len_chars();
        let end = if length < len - off {
            off + length
        } else {
            len
        };
        self.buffer.delete(off, end);
        proof {
            assert(clamped_end(s, end as int) == end);
            assert(clamped_start(s, off as int, end as int) == off);
            lemma_remove_after_cursor(s, l, c, end as int);
        }
    }

    /// Removes the given character range, counted forward from the cursor,
    /// truncated to the end of the document.
    pub fn delete_text(&mut self, length: usize)
        requires
            old(self).wf(),
        ensures
            final(self).wf(),
            final(self).cursor_line() == old(self).cursor_line(),
            final(self).cursor_col() == old(self).cursor_col(),
            final(self).text() == remove_range(
                old(self).text(),
                old(self).cursor_offset(),
                if old(self).cursor_offset() + length <= old(self).text().len() {
                    old(self).cursor_offset() + length
                } else {
                    old(self).text().len() as int
                },
            ),
    {
        self.move_cursor_delete(length);
    }

    /// Removes `length` characters immediately before the cursor, truncated
    /// at the start of the document; the cursor lands where the removed text
    /// began, crossing line starts if the removal did.
    pub fn move_cursor_backspace(&mut self, length: usize)
        requires
            old(self).wf(),
        ensures
            final(self).wf(),
            final(self).text() == remove_range(
                old(self).text(),
                if length <= old(self).cursor_offset() {
                    old(self).cursor_offset() - length
                } else {
                    0
                },
                old(self).cursor_offset(),
            ),
            final(self).cursor_line() == line_of_offset(
                final(self).text(),
                if length <= old(self).cursor_offset() {
                    old(self).cursor_offset() - length
                } else {
                    0
                },
            ),
            final(self).cursor_col() == (if length <= old(self).cursor_offset() {
                old(self).cursor_offset() - length
            } else {
                0
            }) - line_start(final(self).text(), final(self).cursor_line()),
    {
        let ghost s = self.text();
        let off = self.offset();
        let n = if length < off {
            length
        } else {
            off
        };
        let start = off - n;
        self.buffer.delete(start, off);
        proof {
            assert(clamped_end(s, off as int) == off);
            assert(clamped_start(s, start as int, off as int) == start);
            lemma_position_of_offset(self.text(), start as int);
        }
        let l2 = self.buffer.char_to_line(start);
        let s2 = self.buffer.line_to_char(l2);
        self.line = l2;
        self.col = start - s2;
    }

    /// Inserts a line separator at the cursor and moves the cursor to the
    /// start of the new line.
    pub fn move_cursor_enter(&mut self)
        requires
            old(self).wf(),
            old(self).text().len() + 1 <= usize::MAX,
        ensures
            final(self).wf(),
            final(self).text() == insert_at(
                old(self).text(),
                old(self).cursor_offset(),
                seq!['\n'],
            ),
            final(self).cursor_line() == old(self).cursor_line() + 1,
            final(self).cursor_col() == 0,
    {
        proof {
            reveal_strlit("\n");
            assert("\n"@ =~= seq!['\n']);
            lemma_has_nl_count("\n"@);
        }
        self.insert_text("\n");
    }

    /// Inserts a fixed four-space whitespace run at the cursor.
    pub fn move_cursor_tab(&mut self)
        requires
            old(self).wf(),
            old(self).text().len() + 4 <= usize::MAX,
        ensures
            final(self).wf(),
            final(self).text() == insert_at(
                old(self).text(),
                old(self).cursor_offset(),
                seq![' ', ' ', ' ', ' '],
            ),
            final(self).cursor_line() == old(self).cursor_line(),
            final(self).cursor_col() == old(self).cursor_col() + 4,
    {
        proof {
            reveal_strlit("    ");
            assert("    "@ =~= seq![' ', ' ', ' ', ' ']);
            lemma_no_nl_count_zero("    "@);
        }
        self.insert_text("    ");
    }

    /// Moves one column right, or to the start of the next line from a line
    /// end; a no-op at the end of the document.
    pub fn move_cursor_right(&mut self)
        requires
            old(self).wf(),
        ensures
            final(self).wf(),
            final(self).text() == old(self).text(),
            old(self).cursor_col() < line_len(old(self).text(), old(self).cursor_line())
                ==> final(self).cursor_line() == old(self).cursor_line()
                && final(self).cursor_col() == old(self).cursor_col() + 1,
            old(self).cursor_col() == line_len(old(self).text(), old(self).cursor_line())
                && old(self).cursor_line() < count_nl(old(self).text())
                ==> final(self).cursor_line() == old(self).cursor_line() + 1
                && final(self).cursor_col() == 0,
            old(self).cursor_col() == line_len(old(self).text(), old(self).cursor_line())
                && old(self).cursor_line() == count_nl(old(self).text())
                ==> final(self).cursor_line() == old(self).cursor_line()
                && final(self).cursor_col() == old(self).cursor_col(),
    {
        let ll = self.buffer.line_len(self.line);
        if self.col < ll {
            self.col = self.col + 1;
        } else {
            let lc = self.buffer.line_count();
            if self.line < lc - 1 {
                proof {
                    lemma_line_shape(self.text(), self.cursor_line() + 1);
                }
                self.line = self.line + 1;
                self.col = 0;
            }
        }
    }

    /// Moves one column left, or to the end of the previous line from a line
    /// start; a no-op at the start of the document.
    pub fn move_cursor_left(&mut self)
        requires
            old(self).wf(),
        ensures
            final(self).wf(),
            final(self).text() == old(self).text(),
            old(self).cursor_col() > 0 ==> final(self).cursor_line() == old(self).cursor_line()
                && final(self).cursor_col() == old(self).cursor_col() - 1,
            old(self).cursor_col() == 0 && old(self).cursor_line() > 0
                ==> final(self).cursor_line() == old(self).cursor_line() - 1
                && final(self).cursor_col() == line_len(
                    old(self).text(),
                    old(self).cursor_line() - 1,
                ),
            old(self).cursor_col() == 0 && old(self).cursor_line() == 0
                ==> final(self).cursor_line() == 0 && final(self).cursor_col() == 0,
    {
        if self.col > 0 {
            self.col = self.col - 1;
        } else if self.line > 0 {
            let ll = self.buffer.line_len(self.line - 1);
            self.line = self.line - 1;
            self.col = ll;
        }
    }

    /// Moves one line down, clamping the column to the new line's length;
    /// a no-op on the last line.
    pub fn move_cursor_down(&mut self)
        requires
            old(self).wf(),
        ensures
            final(self).wf(),
            final(self).text() == old(self).text(),
            old(self).cursor_line() < count_nl(old(self).text())
                ==> final(self).cursor_line() == old(self).cursor_line() + 1
                && final(self).cursor_col() == (if old(self).cursor_col() <= line_len(
                    old(self).text(),
                    old(self).cursor_line() + 1,
                ) {
                    old(self).cursor_col()
                } else {
                    line_len(old(self).text(), old(self).cursor_line() + 1)
                }),
            old(self).cursor_line() == count_nl(old(self).text())
                ==> final(self).cursor_line() == old(self).cursor_line()
                && final(self).cursor_col() == old(self).cursor_col(),
    {
        let lc = self.buffer.line_count();
        if self.line < lc - 1 {
            let ll = self.buffer.line_len(self.line + 1);
            self.line = self.line + 1;
            if self.col > ll {
                self.col = ll;
            }
        }
    }

    /// Moves one line up, clamping the column to the new line's length;
    /// a no-op on the first line.
    pub fn move_cursor_up(&mut self)
        requires
            old(self).wf(),
        ensures
            final(self).wf(),
            final(self).text() == old(self).text(),
            old(self).cursor_line() > 0 ==> final(self).cursor_line() == old(self).cursor_line()
                - 1 && final(self).cursor_col() == (if old(self).cursor_col() <= line_len(
                old(self).text(),
                old(self).cursor_line() - 1,
            ) {
                old(self).cursor_col()
            } else {
                line_len(old(self).text(), old(self).cursor_line() - 1)
            }),
            old(self).cursor_line() == 0 ==> final(self).cursor_line() == 0
                && final(self).cursor_col() == old(self).cursor_col(),
    {
        if self.line > 0 {
            let ll = self.buffer.line_len(self.line - 1);
            self.line = self.line - 1;
            if self.col > ll {
                self.col = ll;
            }
        }
    }

    /// Places the cursor, clamping the line to the last line and the column
    /// to that line's length.
    pub fn set_cursor_position(&mut self, line: usize, col: usize)
        requires
            old(self).wf(),
        ensures
            final(self).wf(),
            final(self).text() == old(self).text(),
            final(self).cursor_line() == (if line <= count_nl(old(self).text()) {
                line as int
            } else {
                count_nl(old(self).text())
            }),
            final(self).cursor_col() == (if col <= line_len(
                old(self).text(),
                final(self).cursor_line(),
            ) {
                col as int
            } else {
                line_len(old(self).text(), final(self).cursor_line())
            }),
    {
        let lc = self.buffer.line_count();
        let l = if line < lc {
            line
        } else {
            lc - 1
        };
        let ll = self.buffer.line_len(l);
        let c = if col < ll {
            col
        } else {
            ll
        };
        self.line = l;
        self.col = c;
    }

    /// The cursor position as `(line, column)`.
    pub fn get_cursor_position(&self) -> (r: (usize, usize))
        ensures
            r.0 == self.cursor_line(),
            r.1 == self.cursor_col(),
    {
        (self.line, self.col)
    }

    /// Reports whether the cursor stands at the given position.
    pub fn is_cursor_at(&self, line: usize, col: usize) -> (r: bool)
        ensures
            r == (self.cursor_line() == line && self.cursor_col() == col),
    {
        self.line == line && self.col == col
    }

    /// Derives the per-line span cover of the current document for the
    /// renderer: an ordered, gap-free cover whose decoded text reproduces
    /// each line exactly.
    pub fn parse_text(&self) -> (blocks: SyntaxBlocks)
        ensures
            covers(self.text(), blocks@),
    {
        let mut blocks = SyntaxBlocks::default();
        parse(&self.buffer, &mut blocks);
        blocks
    }
}

} // verus!
