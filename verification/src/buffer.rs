//! The editable text buffer: a rope from the `ropey` crate held behind
//! trusted wrappers, and the verified `TextBuffer` operations over it.
//!
//! The crate is built with `ropey`'s line-break features switched off, so the
//! rope recognises exactly `'\n'` as the line separator; every wrapper
//! contract below depends on that build.

use vstd::prelude::*;
use crate::text::{
    clamped_end, clamped_start, insert_at, lemma_count_nl_nonneg, lemma_last_line_end,
    lemma_line_end_before_next, lemma_line_shape, line_count, line_len, line_of_offset,
    line_start, line_text, remove_range,
};

verus! {

#[verifier::external_type_specification]
#[verifier::external_body]
pub struct ExRope(ropey::Rope);

/// The characters a rope holds, in order.
pub uninterp spec fn rope_text(r: ropey::Rope) -> Seq<char>;

/// Relies on `ropey::Rope::new`: it creates an empty rope.
#[verifier::external_body]
fn rope_new() -> (r: ropey::Rope)
    ensures
        rope_text(r) == Seq::<char>::empty(),
{
    ropey::Rope::new()
}

/// Relies on `ropey::Rope::from_str`: it creates a rope holding exactly the
/// characters of the given string.
#[verifier::external_body]
fn rope_from_str(text: &str) -> (r: ropey::Rope)
    ensures
        rope_text(r) == text@,
{
    ropey::Rope::from_str(text)
}

/// Relies on `ropey::Rope::len_chars`: the total number of characters.
#[verifier::external_body]
fn rope_len_chars(r: &ropey::Rope) -> (n: usize)
    ensures
        n == rope_text(*r).len(),
{
    r.len_chars()
}

/// Relies on `ropey::Rope::len_lines`: with only `'\n'` as a line break it
/// returns the number of breaks plus one.
#[verifier::external_body]
fn rope_len_lines(r: &ropey::Rope) -> (n: usize)
    ensures
        n == line_count(rope_text(*r)),
{
    r.len_lines()
}

/// Relies on `ropey::Rope::insert`: it inserts the string's characters at
/// the given character index, and panics when the index is out of bounds.
#[verifier::external_body]
fn rope_insert(r: &mut ropey::Rope, char_idx: usize, text: &str)
    requires
        char_idx <= rope_text(*old(r)).len(),
        rope_text(*old(r)).len() + text@.len() <= usize::MAX,
    ensures
        rope_text(*final(r)) == insert_at(rope_text(*old(r)), char_idx as int, text@),
{
    r.insert(char_idx, text);
}

/// Relies on `ropey::Rope::remove`: it removes the half-open character
/// range, and panics when the range is out of bounds or reversed.
#[verifier::external_body]
fn rope_remove(r: &mut ropey::Rope, start: usize, end: usize)
    requires
        start <= end <= rope_text(*old(r)).len(),
    ensures
        rope_text(*final(r)) == remove_range(rope_text(*old(r)), start as int, end as int),
{
    r.remove(start..end);
}

/// Relies on `ropey::Rope::line_to_char`: the character index of the first
/// character of the given line; panics past the line count.
#[verifier::external_body]
fn rope_line_to_char(r: &ropey::Rope, line_idx: usize) -> (n: usize)
    requires
        line_idx < line_count(rope_text(*r)),
    ensures
        n == line_start(rope_text(*r), line_idx as int),
{
    r.line_to_char(line_idx)
}

/// Relies on `ropey::Rope::char_to_line`: the number of line breaks before
/// the given character index; panics past the character count.
#[verifier::external_body]
fn rope_char_to_line(r: &ropey::Rope, char_idx: usize) -> (n: usize)
    requires
        char_idx <= rope_text(*r).len(),
    ensures
        n == line_of_offset(rope_text(*r), char_idx as int),
{
    r.char_to_line(char_idx)
}

/// Relies on `ropey::Rope::slice` for the half-open character range, and on
/// `ropey::RopeSlice`'s `Display` impl (`to_string`) to copy it out.
#[verifier::external_body]
fn rope_slice_string(r: &ropey::Rope, start: usize, end: usize) -> (s: String)
    requires
        start <= end <= rope_text(*r).len(),
    ensures
        s@ == rope_text(*r).subrange(start as int, end as int),
{
    r.slice(start..end).to_string()
}

/// An editable document: an ordered sequence of characters with line-indexed
/// access, line numbering 0-based and contiguous, `'\n'` the separator.
pub struct TextBuffer {
    rope: ropey::Rope,
}

impl View for TextBuffer {
    type V = Seq<char>;

    closed spec fn view(&self) -> Seq<char> {
        rope_text(self.rope)
    }
}

impl TextBuffer {
    /// Creates an empty buffer: one empty line.
    pub fn new() -> (r: TextBuffer)
        ensures
            r@ == Seq::<char>::empty(),
    {
        TextBuffer { rope: rope_new() }
    }

    /// Creates a buffer from seed text.
    pub fn from_text(text: &str) -> (r: TextBuffer)
        ensures
            r@ == text@,
    {
        TextBuffer { rope: rope_from_str(text) }
    }

    /// Total length of the document in characters.
    pub fn len_chars(&self) -> (n: usize)
        ensures
            n == self@.len(),
    {
        rope_len_chars(&self.rope)
    }

    /// Number of lines; at least 1, even for an empty document.
    pub fn line_count(&self) -> (n: usize)
        ensures
            n == line_count(self@),
            n >= 1,
    {
        proof {
            lemma_count_nl_nonneg(self@);
        }
        rope_len_lines(&self.rope)
    }

    /// Inserts `text` at the given character offset. The offset is
    /// caller-checked: inserting past the end is prevented, not clamped.
    pub fn insert(&mut self, char_offset: usize, text: &str)
        requires
            char_offset <= old(self)@.len(),
            old(self)@.len() + text@.len() <= usize::MAX,
        ensures
            final(self)@ == insert_at(old(self)@, char_offset as int, text@),
    {
        rope_insert(&mut self.rope, char_offset, text);
    }

    /// Removes the half-open character range `[start, end)`, silently
    /// clamping an end past the buffer length, and an empty or reversed
    /// range to a no-op at `start`.
    pub fn delete(&mut self, start: usize, end: usize)
        ensures
            final(self)@ == remove_range(
                old(self)@,
                crate::text::clamped_start(old(self)@, start as int, end as int),
                crate::text::clamped_end(old(self)@, end as int),
            ),
    {
        let len = self.len_chars();
        let e = if end < len {
            end
        } else {
            len
        };
        let s = if start < e {
            start
        } else {
            e
        };
        rope_remove(&mut self.rope, s, e);
    }

    /// The character offset of the first character of `line`.
    pub fn line_to_char(&self, line: usize) -> (n: usize)
        requires
            line < line_count(self@),
        ensures
            n == line_start(self@, line as int),
    {
        rope_line_to_char(&self.rope, line)
    }

    /// The line that the character at `char_offset` falls on; the offset may
    /// be one past the end, which yields the last line.
    pub fn char_to_line(&self, char_offset: usize) -> (n: usize)
        requires
            char_offset <= self@.len(),
        ensures
            n == line_of_offset(self@, char_offset as int),
    {
        rope_char_to_line(&self.rope, char_offset)
    }

    /// The length in characters of `line`, excluding its trailing separator.
    pub fn line_len(&self, line: usize) -> (n: usize)
        requires
            line < line_count(self@),
        ensures
            n == line_len(self@, line as int),
    {
        let start = self.line_to_char(line);
        let lines = self.line_count();
        proof {
            lemma_line_shape(self@, line as int);
        }
        if line + 1 < lines {
            let next = self.line_to_char(line + 1);
            proof {
                lemma_line_end_before_next(self@, line as int);
            }
            next - 1 - start
        } else {
            proof {
                lemma_last_line_end(self@);
            }
            self.len_chars() - start
        }
    }

    /// The text of `line`, excluding its trailing separator.
    pub fn line(&self, line: usize) -> (s: String)
        requires
            line < line_count(self@),
        ensures
            s@ == line_text(self@, line as int),
    {
        let start = self.line_to_char(line);
        let n = self.line_len(line);
        let len = self.len_chars();
        proof {
            lemma_line_shape(self@, line as int);
        }
        rope_slice_string(&self.rope, start, start + n)
    }

    /// The whole document as a string.
    pub fn get_text(&self) -> (s: String)
        ensures
            s@ == self@,
    {
        let len = self.len_chars();
        let s = rope_slice_string(&self.rope, 0, len);
        proof {
            assert(self@.subrange(0, self@.len() as int) =~= self@);
        }
        s
    }
}

} // verus!
