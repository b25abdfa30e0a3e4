//! The mathematical model of buffer text: a `Seq<char>` split into lines by
//! `'\n'`, with line starts, line lengths, and offset/coordinate conversions,
//! together with the lemmas that relate them under edits.

use vstd::prelude::*;

verus! {

/// Number of line separators in `s`.
pub open spec fn count_nl(s: Seq<char>) -> int
    decreases s.len(),
{
    if s.len() == 0 {
        0
    } else {
        count_nl(s.drop_last()) + if s.last() == '\n' {
            1int
        } else {
            0int
        }
    }
}

/// Number of lines: one more than the number of separators, so that the
/// buffer always ends in a well-defined last line even when empty.
pub open spec fn line_count(s: Seq<char>) -> int {
    count_nl(s) + 1
}

/// Position of the first `'\n'` at or after `from`, or `s.len()` if none.
pub open spec fn next_nl(s: Seq<char>, from: int) -> int
    decreases s.len() - from,
{
    if from >= s.len() {
        s.len() as int
    } else if s[from] == '\n' {
        from
    } else {
        next_nl(s, from + 1)
    }
}

/// Character offset of the first character of line `l` (0-based).
pub open spec fn line_start(s: Seq<char>, l: int) -> int
    decreases l,
{
    if l <= 0 {
        0
    } else {
        next_nl(s, line_start(s, l - 1)) + 1
    }
}

/// Length in characters of line `l`, excluding its trailing separator.
pub open spec fn line_len(s: Seq<char>, l: int) -> int {
    next_nl(s, line_start(s, l)) - line_start(s, l)
}

/// The text of line `l`, excluding its trailing separator.
pub open spec fn line_text(s: Seq<char>, l: int) -> Seq<char> {
    s.subrange(line_start(s, l), next_nl(s, line_start(s, l)))
}

/// The line that character offset `off` falls on: the number of separators
/// strictly before `off`.
pub open spec fn line_of_offset(s: Seq<char>, off: int) -> int {
    count_nl(s.take(off))
}

/// The text with `t` inserted at character offset `at`.
pub open spec fn insert_at(s: Seq<char>, at: int, t: Seq<char>) -> Seq<char> {
    s.take(at) + t + s.skip(at)
}

/// The text with the half-open character range `[start, end)` removed.
pub open spec fn remove_range(s: Seq<char>, start: int, end: int) -> Seq<char> {
    s.take(start) + s.skip(end)
}

/// A deletion end clamped to the text length.
pub open spec fn clamped_end(s: Seq<char>, end: int) -> int {
    if end < s.len() {
        end
    } else {
        s.len() as int
    }
}

/// A deletion start clamped to the (already clamped) deletion end.
pub open spec fn clamped_start(s: Seq<char>, start: int, end: int) -> int {
    if start < clamped_end(s, end) {
        start
    } else {
        clamped_end(s, end)
    }
}

pub proof fn lemma_count_nl_nonneg(s: Seq<char>)
    ensures
        count_nl(s) >= 0,
    decreases s.len(),
{
    if s.len() > 0 {
        lemma_count_nl_nonneg(s.drop_last());
    }
}

pub proof fn lemma_count_nl_le_len(s: Seq<char>)
    ensures
        count_nl(s) <= s.len(),
    decreases s.len(),
{
    if s.len() > 0 {
        lemma_count_nl_le_len(s.drop_last());
    }
}

pub proof fn lemma_count_nl_append(a: Seq<char>, b: Seq<char>)
    ensures
        count_nl(a + b) == count_nl(a) + count_nl(b),
    decreases b.len(),
{
    if b.len() == 0 {
        assert(a + b =~= a);
    } else {
        lemma_count_nl_append(a, b.drop_last());
        assert((a + b).drop_last() =~= a + b.drop_last());
        assert((a + b).last() == b.last());
    }
}

/// Extending a prefix by one character raises the separator count exactly
/// when the new character is a separator.
pub proof fn lemma_count_nl_take_step(s: Seq<char>, off: int)
    requires
        0 <= off < s.len(),
    ensures
        count_nl(s.take(off + 1)) == count_nl(s.take(off)) + if s[off] == '\n' {
            1int
        } else {
            0int
        },
{
    assert(s.take(off + 1).drop_last() =~= s.take(off));
    assert(s.take(off + 1).last() == s[off]);
}

pub proof fn lemma_count_nl_take_mono(s: Seq<char>, off1: int, off2: int)
    requires
        0 <= off1 <= off2 <= s.len(),
    ensures
        count_nl(s.take(off1)) <= count_nl(s.take(off2)),
    decreases off2 - off1,
{
    if off1 < off2 {
        lemma_count_nl_take_step(s, off2 - 1);
        lemma_count_nl_take_mono(s, off1, off2 - 1);
    }
}

/// A stretch without separators does not change the count of the prefix.
pub proof fn lemma_count_nl_no_nl_range(s: Seq<char>, off1: int, off2: int)
    requires
        0 <= off1 <= off2 <= s.len(),
        forall|i: int| off1 <= i < off2 ==> s[i] != '\n',
    ensures
        count_nl(s.take(off2)) == count_nl(s.take(off1)),
    decreases off2 - off1,
{
    if off1 < off2 {
        lemma_count_nl_take_step(s, off2 - 1);
        lemma_count_nl_no_nl_range(s, off1, off2 - 1);
    }
}

pub proof fn lemma_count_nl_take_full(s: Seq<char>)
    ensures
        count_nl(s.take(s.len() as int)) == count_nl(s),
{
    assert(s.take(s.len() as int) =~= s);
}

/// A text without separators is exactly one whose count is zero.
pub proof fn lemma_count_nl_zero(s: Seq<char>)
    requires
        count_nl(s) == 0,
    ensures
        forall|i: int| 0 <= i < s.len() ==> s[i] != '\n',
    decreases s.len(),
{
    if s.len() > 0 {
        lemma_count_nl_nonneg(s.drop_last());
        assert(count_nl(s.drop_last()) == 0);
        lemma_count_nl_zero(s.drop_last());
        assert forall|i: int| 0 <= i < s.len() implies s[i] != '\n' by {
            if i < s.len() - 1 {
                assert(s.drop_last()[i] == s[i]);
            }
        }
    }
}

pub proof fn lemma_next_nl_bounds(s: Seq<char>, from: int)
    requires
        0 <= from <= s.len(),
    ensures
        from <= next_nl(s, from) <= s.len(),
        next_nl(s, from) < s.len() ==> s[next_nl(s, from)] == '\n',
        forall|i: int| from <= i < next_nl(s, from) ==> s[i] != '\n',
    decreases s.len() - from,
{
    if from < s.len() && s[from] != '\n' {
        lemma_next_nl_bounds(s, from + 1);
    }
}

/// When no separator stands at or after `from`, the next separator position
/// is the end of the text.
pub proof fn lemma_next_nl_none(s: Seq<char>, from: int)
    requires
        0 <= from <= s.len(),
        forall|i: int| from <= i < s.len() ==> s[i] != '\n',
    ensures
        next_nl(s, from) == s.len(),
    decreases s.len() - from,
{
    if from < s.len() {
        lemma_next_nl_none(s, from + 1);
    }
}

/// The basic shape of line starts: each start is in bounds, the prefix up to
/// it holds exactly `l` separators, and a separator stands right before it.
pub proof fn lemma_line_start_props(s: Seq<char>, l: int)
    requires
        0 <= l <= count_nl(s),
    ensures
        0 <= line_start(s, l) <= s.len(),
        count_nl(s.take(line_start(s, l))) == l,
        l > 0 ==> s[line_start(s, l) - 1] == '\n',
    decreases l,
{
    if l == 0 {
        assert(s.take(0) =~= Seq::<char>::empty());
    } else {
        lemma_line_start_props(s, l - 1);
        let p = line_start(s, l - 1);
        let q = next_nl(s, p);
        lemma_next_nl_bounds(s, p);
        lemma_count_nl_no_nl_range(s, p, q);
        if q == s.len() {
            lemma_count_nl_take_full(s);
            assert(false);
        }
        lemma_count_nl_take_step(s, q);
    }
}

/// A position with `l` separators before it and a separator (or the text
/// start) right before it is the start of line `l`, and no other is.
pub proof fn lemma_line_start_unique(s: Seq<char>, l: int, p: int)
    requires
        0 <= p <= s.len(),
        count_nl(s.take(p)) == l,
        p == 0 || s[p - 1] == '\n',
    ensures
        line_start(s, l) == p,
{
    lemma_count_nl_nonneg(s.take(p));
    lemma_count_nl_take_mono(s, p, s.len() as int);
    lemma_count_nl_take_full(s);
    lemma_line_start_props(s, l);
    let q = line_start(s, l);
    if q < p {
        assert(p > 0);
        lemma_count_nl_take_step(s, p - 1);
        lemma_count_nl_take_mono(s, q, p - 1);
        assert(false);
    }
    if p < q {
        assert(q > 0);
        lemma_count_nl_take_step(s, q - 1);
        lemma_count_nl_take_mono(s, p, q - 1);
        assert(false);
    }
}

/// The last line runs to the end of the text.
pub proof fn lemma_last_line_end(s: Seq<char>)
    ensures
        next_nl(s, line_start(s, count_nl(s))) == s.len(),
        line_start(s, count_nl(s)) + line_len(s, count_nl(s)) == s.len(),
{
    lemma_count_nl_nonneg(s);
    let p = line_start(s, count_nl(s));
    lemma_line_start_props(s, count_nl(s));
    assert forall|i: int| p <= i < s.len() implies s[i] != '\n' by {
        if s[i] == '\n' {
            lemma_count_nl_take_step(s, i);
            lemma_count_nl_take_mono(s, p, i);
            lemma_count_nl_take_mono(s, i + 1, s.len() as int);
            lemma_count_nl_take_full(s);
        }
    }
    lemma_next_nl_none(s, p);
}

/// A line before the last ends right before the next line's start.
pub proof fn lemma_line_end_before_next(s: Seq<char>, l: int)
    requires
        0 <= l < count_nl(s),
    ensures
        line_start(s, l) + line_len(s, l) == line_start(s, l + 1) - 1,
        s[line_start(s, l + 1) - 1] == '\n',
{
    lemma_line_start_props(s, l + 1);
}

/// Every line has a non-negative length and lies within the text.
pub proof fn lemma_line_shape(s: Seq<char>, l: int)
    requires
        0 <= l <= count_nl(s),
    ensures
        0 <= line_start(s, l),
        line_len(s, l) >= 0,
        line_start(s, l) + line_len(s, l) <= s.len(),
        forall|i: int|
            line_start(s, l) <= i < line_start(s, l) + line_len(s, l) ==> s[i] != '\n',
{
    lemma_line_start_props(s, l);
    lemma_next_nl_bounds(s, line_start(s, l));
}

/// A column within a line maps back to that line: the offset
/// `line_start(l) + c` lies on line `l` at column `c`.
pub proof fn lemma_offset_of_position(s: Seq<char>, l: int, c: int)
    requires
        0 <= l <= count_nl(s),
        0 <= c <= line_len(s, l),
    ensures
        line_of_offset(s, line_start(s, l) + c) == l,
        line_start(s, l) + c <= s.len(),
{
    lemma_line_shape(s, l);
    lemma_line_start_props(s, l);
    lemma_count_nl_no_nl_range(s, line_start(s, l), line_start(s, l) + c);
}

/// A position after a separator-free stretch, holding a separator or the
/// text end, is the next separator position.
pub proof fn lemma_next_nl_unique(s: Seq<char>, from: int, q: int)
    requires
        0 <= from <= q <= s.len(),
        forall|i: int| from <= i < q ==> s[i] != '\n',
        q == s.len() || s[q] == '\n',
    ensures
        next_nl(s, from) == q,
    decreases q - from,
{
    if from < q {
        lemma_next_nl_unique(s, from + 1, q);
    }
}

pub proof fn lemma_no_nl_count_zero(s: Seq<char>)
    requires
        forall|i: int| 0 <= i < s.len() ==> s[i] != '\n',
    ensures
        count_nl(s) == 0,
    decreases s.len(),
{
    if s.len() > 0 {
        assert forall|i: int| 0 <= i < s.len() - 1 implies s.drop_last()[i] != '\n' by {
            assert(s.drop_last()[i] == s[i]);
        }
        lemma_no_nl_count_zero(s.drop_last());
    }
}

/// A text holds a separator exactly when its separator count is positive.
pub proof fn lemma_has_nl_count(s: Seq<char>)
    ensures
        (exists|i: int| 0 <= i < s.len() && s[i] == '\n') <==> count_nl(s) >= 1,
{
    lemma_count_nl_nonneg(s);
    if exists|i: int| 0 <= i < s.len() && s[i] == '\n' {
        let i = choose|i: int| 0 <= i < s.len() && s[i] == '\n';
        lemma_count_nl_take_step(s, i);
        lemma_count_nl_nonneg(s.take(i));
        lemma_count_nl_take_mono(s, i + 1, s.len() as int);
        lemma_count_nl_take_full(s);
    } else {
        lemma_no_nl_count_zero(s);
    }
}

/// Any offset within the text lies on a well-formed line, at a column within
/// that line's length.
pub proof fn lemma_position_of_offset(s: Seq<char>, off: int)
    requires
        0 <= off <= s.len(),
    ensures
        0 <= line_of_offset(s, off) <= count_nl(s),
        line_start(s, line_of_offset(s, off)) <= off,
        off - line_start(s, line_of_offset(s, off)) <= line_len(s, line_of_offset(s, off)),
{
    let l = line_of_offset(s, off);
    lemma_count_nl_nonneg(s.take(off));
    lemma_count_nl_take_mono(s, off, s.len() as int);
    lemma_count_nl_take_full(s);
    lemma_line_start_props(s, l);
    let p = line_start(s, l);
    if p > off {
        assert(l > 0);
        lemma_count_nl_take_step(s, p - 1);
        lemma_count_nl_take_mono(s, off, p - 1);
        assert(false);
    }
    let q = next_nl(s, p);
    lemma_next_nl_bounds(s, p);
    if q < off {
        lemma_count_nl_take_step(s, q);
        lemma_count_nl_take_mono(s, q + 1, off);
        lemma_count_nl_no_nl_range(s, p, q);
        assert(false);
    }
}

/// An insertion adds exactly the inserted text's separators.
pub proof fn lemma_insert_count(s: Seq<char>, at: int, t: Seq<char>)
    requires
        0 <= at <= s.len(),
    ensures
        count_nl(insert_at(s, at, t)) == count_nl(s) + count_nl(t),
{
    assert(insert_at(s, at, t) =~= (s.take(at) + t) + s.skip(at));
    lemma_count_nl_append(s.take(at), t);
    lemma_count_nl_append(s.take(at) + t, s.skip(at));
    assert(s =~= s.take(at) + s.skip(at));
    lemma_count_nl_append(s.take(at), s.skip(at));
}

/// Inserting separator-free text at column `c` of line `l` keeps the line
/// structure: the same lines, with line `l` longer by the inserted length.
pub proof fn lemma_insert_in_line(s: Seq<char>, l: int, c: int, t: Seq<char>)
    requires
        0 <= l <= count_nl(s),
        0 <= c <= line_len(s, l),
        count_nl(t) == 0,
    ensures
        count_nl(insert_at(s, line_start(s, l) + c, t)) == count_nl(s),
        line_start(insert_at(s, line_start(s, l) + c, t), l) == line_start(s, l),
        line_len(insert_at(s, line_start(s, l) + c, t), l) == line_len(s, l) + t.len(),
{
    let p = line_start(s, l);
    let off = p + c;
    let q = p + line_len(s, l);
    let t2 = insert_at(s, off, t);
    lemma_line_shape(s, l);
    lemma_line_start_props(s, l);
    lemma_count_nl_zero(t);
    assert(t2 =~= (s.take(off) + t) + s.skip(off));
    lemma_count_nl_append(s.take(off), t);
    lemma_count_nl_append(s.take(off) + t, s.skip(off));
    assert(s =~= s.take(off) + s.skip(off));
    lemma_count_nl_append(s.take(off), s.skip(off));
    assert(t2.take(p) =~= s.take(p));
    if p > 0 {
        assert(t2[p - 1] == s[p - 1]);
    }
    lemma_line_start_unique(t2, l, p);
    assert forall|i: int| p <= i < q + t.len() implies t2[i] != '\n' by {
        if i < off {
            assert(t2[i] == s[i]);
        } else if i < off + t.len() {
            assert(t2[i] == t[i - off]);
        } else {
            assert(t2[i] == s[i - t.len()]);
        }
    }
    lemma_next_nl_bounds(s, p);
    if q < s.len() {
        assert(t2[q + t.len()] == s[q]);
    }
    lemma_next_nl_unique(t2, p, q + t.len());
}

/// Removing text that starts at or after the cursor keeps the cursor's
/// coordinates valid: its line still exists and still reaches its column.
pub proof fn lemma_remove_after_cursor(s: Seq<char>, l: int, c: int, end: int)
    requires
        0 <= l <= count_nl(s),
        0 <= c <= line_len(s, l),
        line_start(s, l) + c <= end <= s.len(),
    ensures
        l <= count_nl(remove_range(s, line_start(s, l) + c, end)),
        line_start(remove_range(s, line_start(s, l) + c, end), l) == line_start(s, l),
        c <= line_len(remove_range(s, line_start(s, l) + c, end), l),
{
    let p = line_start(s, l);
    let off = p + c;
    let t2 = remove_range(s, off, end);
    lemma_line_shape(s, l);
    lemma_line_start_props(s, l);
    lemma_offset_of_position(s, l, c);
    assert(t2.take(off) =~= s.take(off));
    lemma_count_nl_take_mono(t2, off, t2.len() as int);
    lemma_count_nl_take_full(t2);
    assert(t2.take(p) =~= s.take(p));
    if p > 0 {
        assert(t2[p - 1] == s[p - 1]);
    }
    lemma_line_start_unique(t2, l, p);
    assert forall|i: int| p <= i < off implies t2[i] != '\n' by {
        assert(t2[i] == s[i]);
    }
    lemma_next_nl_bounds(t2, p);
    if next_nl(t2, p) < off {
        assert(false);
    }
}

/// Deleting, at the insertion point, as many characters as were inserted
/// restores the original text.
pub proof fn lemma_insert_delete_inverse(s: Seq<char>, at: int, t: Seq<char>)
    requires
        0 <= at <= s.len(),
    ensures
        at + t.len() <= insert_at(s, at, t).len(),
        remove_range(insert_at(s, at, t), at, at + t.len()) == s,
{
    assert(remove_range(insert_at(s, at, t), at, at + t.len()) =~= s);
}

/// Pressing enter at line `l`, column `c` splits line `l` in two at `c`;
/// deleting the inserted separator restores the text, and the offset the
/// cursor then lands on is again line `l`, column `c`.
pub proof fn lemma_enter_backspace(s: Seq<char>, l: int, c: int)
    requires
        0 <= l <= count_nl(s),
        0 <= c <= line_len(s, l),
    ensures
        ({
            let off = line_start(s, l) + c;
            let t2 = insert_at(s, off, seq!['\n']);
            &&& line_count(t2) == line_count(s) + 1
            &&& line_start(t2, l) == line_start(s, l)
            &&& line_text(t2, l) == line_text(s, l).take(c)
            &&& line_start(t2, l + 1) == off + 1
            &&& line_text(t2, l + 1) == line_text(s, l).skip(c)
            &&& remove_range(t2, off, off + 1) == s
            &&& line_of_offset(s, off) == l
            &&& off - line_start(s, l) == c
        }),
{
    let p = line_start(s, l);
    let off = p + c;
    let q = p + line_len(s, l);
    let nl = seq!['\n'];
    let t2 = insert_at(s, off, nl);
    lemma_line_shape(s, l);
    lemma_line_start_props(s, l);
    lemma_offset_of_position(s, l, c);
    lemma_next_nl_bounds(s, p);
    // separator count rises by one
    assert(t2 =~= (s.take(off) + nl) + s.skip(off));
    lemma_count_nl_append(s.take(off), nl);
    lemma_count_nl_append(s.take(off) + nl, s.skip(off));
    assert(s =~= s.take(off) + s.skip(off));
    lemma_count_nl_append(s.take(off), s.skip(off));
    assert(nl.drop_last() =~= Seq::<char>::empty());
    assert(count_nl(nl.drop_last()) == 0);
    assert(nl.last() == '\n');
    assert(count_nl(nl) == 1);
    // line l keeps its start and now ends at the inserted separator
    assert(t2.take(p) =~= s.take(p));
    if p > 0 {
        assert(t2[p - 1] == s[p - 1]);
    }
    lemma_line_start_unique(t2, l, p);
    assert forall|i: int| p <= i < off implies t2[i] != '\n' by {
        assert(t2[i] == s[i]);
    }
    assert(t2[off] == nl[0]);
    lemma_next_nl_unique(t2, p, off);
    assert(line_text(t2, l) =~= line_text(s, l).take(c));
    // line l + 1 starts right after the inserted separator
    assert(t2.take(off + 1) =~= s.take(off) + nl);
    lemma_line_start_unique(t2, l + 1, off + 1);
    // and ends where line l used to end, shifted by one
    assert forall|i: int| off + 1 <= i < q + 1 implies t2[i] != '\n' by {
        assert(t2[i] == s[i - 1]);
    }
    if q < s.len() {
        assert(t2[q + 1] == s[q]);
    }
    lemma_next_nl_unique(t2, off + 1, q + 1);
    assert(line_text(t2, l + 1) =~= line_text(s, l).skip(c));
    // deleting the separator again restores the text
    lemma_insert_delete_inverse(s, off, nl);
}

} // verus!
