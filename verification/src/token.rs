//! The tokenizer: a pure, deterministic function from buffer content to a
//! per-line list of typed spans. For every line the spans form an ordered,
//! gap-free, non-overlapping cover whose decoded text reproduces the line
//! exactly.

use vstd::prelude::*;
use crate::buffer::TextBuffer;
use crate::text::{lemma_count_nl_nonneg, lemma_line_shape, line_count, line_text};

verus! {

/// A lexical category, each mapped to a display colour.
#[derive(Clone, Copy, Debug, PartialEq, Eq, Structural)]
pub enum SyntaxType {
    Keyword,
    StringLit,
    Comment,
    Whitespace,
    Identifier,
    Plain,
}

/// One span of a line's cover: either a reference to a contiguous character
/// range of the buffer, or a synthesized repeated-character run.
#[derive(Clone, Copy, Debug, PartialEq, Eq, Structural)]
pub enum TextNode {
    Range { start: usize, end: usize },
    RunOfChar { len: usize, ch: char },
}

/// The text a node stands for, decoded against the buffer's characters.
pub open spec fn node_text(buf: Seq<char>, n: TextNode) -> Seq<char> {
    match n {
        TextNode::Range { start, end } => buf.subrange(start as int, end as int),
        TextNode::RunOfChar { len, ch } => Seq::new(len as nat, |i: int| ch),
    }
}

/// A node's character range lies within the buffer.
pub open spec fn node_wf(buf: Seq<char>, n: TextNode) -> bool {
    match n {
        TextNode::Range { start, end } => start <= end <= buf.len(),
        TextNode::RunOfChar { len, ch } => true,
    }
}

/// The concatenated text of a span list, in order.
pub open spec fn nodes_text(buf: Seq<char>, nodes: Seq<(SyntaxType, TextNode)>) -> Seq<char>
    decreases nodes.len(),
{
    if nodes.len() == 0 {
        Seq::<char>::empty()
    } else {
        nodes_text(buf, nodes.drop_last()) + node_text(buf, nodes.last().1)
    }
}

pub proof fn lemma_nodes_text_push(
    buf: Seq<char>,
    nodes: Seq<(SyntaxType, TextNode)>,
    x: (SyntaxType, TextNode),
)
    ensures
        nodes_text(buf, nodes.push(x)) == nodes_text(buf, nodes) + node_text(buf, x.1),
{
    assert(nodes.push(x).drop_last() =~= nodes);
    assert(nodes.push(x).last() == x);
}

/// The number of characters a node stands for.
pub open spec fn node_char_len(n: TextNode) -> int {
    match n {
        TextNode::Range { start, end } => end - start,
        TextNode::RunOfChar { len, ch } => len as int,
    }
}

/// The number of characters the first `upto` nodes of a line stand for.
pub open spec fn nodes_char_len(nodes: Seq<(SyntaxType, TextNode)>, upto: int) -> int
    decreases upto,
{
    if upto <= 0 {
        0
    } else {
        nodes_char_len(nodes, upto - 1) + node_char_len(nodes[upto - 1].1)
    }
}

/// The tokenizer's correctness contract: one span list per buffer line, each
/// decoding to exactly that line's text.
pub open spec fn covers(buf: Seq<char>, blocks: Seq<Seq<(SyntaxType, TextNode)>>) -> bool {
    &&& blocks.len() == line_count(buf)
    &&& forall|l: int|
        0 <= l < blocks.len() ==> nodes_text(buf, #[trigger] blocks[l]) == line_text(buf, l)
    &&& forall|l: int, j: int|
        0 <= l < blocks.len() && 0 <= j < blocks[l].len() ==> node_wf(
            buf,
            (#[trigger] blocks[l][j]).1,
        )
}

impl SyntaxType {
    /// The display colour for this category.
    pub fn color(&self) -> (c: &'static str)
        ensures
            c@ == spec_color(*self),
    {
        match self {
            SyntaxType::Keyword => "#0000cc",
            SyntaxType::StringLit => "#a31515",
            SyntaxType::Comment => "#008000",
            SyntaxType::Whitespace => "#020202",
            SyntaxType::Identifier => "#020202",
            SyntaxType::Plain => "#020202",
        }
    }
}

/// The colour each lexical category is painted with.
pub open spec fn spec_color(t: SyntaxType) -> Seq<char> {
    match t {
        SyntaxType::Keyword => "#0000cc"@,
        SyntaxType::StringLit => "#a31515"@,
        SyntaxType::Comment => "#008000"@,
        SyntaxType::Whitespace => "#020202"@,
        SyntaxType::Identifier => "#020202"@,
        SyntaxType::Plain => "#020202"@,
    }
}

/// The per-line span lists for a whole buffer, derived state recomputed
/// after every mutation and read-only to its consumer.
#[derive(Debug)]
pub struct SyntaxBlocks {
    lines: Vec<Vec<(SyntaxType, TextNode)>>,
}

impl View for SyntaxBlocks {
    type V = Seq<Seq<(SyntaxType, TextNode)>>;

    closed spec fn view(&self) -> Seq<Seq<(SyntaxType, TextNode)>> {
        Seq::new(self.lines@.len(), |i: int| self.lines@[i]@)
    }
}

impl Default for SyntaxBlocks {
    /// An empty span list, to be filled by `parse`.
    fn default() -> (r: SyntaxBlocks)
        ensures
            r@ == Seq::<Seq<(SyntaxType, TextNode)>>::empty(),
    {
        let r = SyntaxBlocks { lines: Vec::new() };
        proof {
            assert(r@ =~= Seq::<Seq<(SyntaxType, TextNode)>>::empty());
        }
        r
    }
}

impl SyntaxBlocks {
    /// The number of lines covered.
    pub fn len(&self) -> (n: usize)
        ensures
            n == self@.len(),
    {
        self.lines.len()
    }

    /// The span list of one line.
    pub fn get_line(&self, line: usize) -> (r: &Vec<(SyntaxType, TextNode)>)
        requires
            line < self@.len(),
        ensures
            r@ == self@[line as int],
    {
        &self.lines[line]
    }

    /// The character offset, within its line, at which the span with index
    /// `col` begins: the characters the earlier spans stand for.
    pub fn char_count_up_to(&self, line: usize, col: usize) -> (n: usize)
        requires
            line < self@.len(),
            col <= self@[line as int].len(),
            forall|j: int|
                0 <= j < self@[line as int].len() ==> node_char_len(
                    (#[trigger] self@[line as int][j]).1,
                ) >= 0,
            nodes_char_len(self@[line as int], self@[line as int].len() as int) <= usize::MAX,
        ensures
            n == nodes_char_len(self@[line as int], col as int),
    {
        let nodes = &self.lines[line];
        let mut acc: usize = 0;
        let mut i: usize = 0;
        proof {
            lemma_nodes_char_len_mono(self@[line as int], 0, col as int);
        }
        while i < col
            invariant
                0 <= i <= col,
                col <= self@[line as int].len(),
                nodes@ == self@[line as int],
                forall|j: int|
                    0 <= j < self@[line as int].len() ==> node_char_len(
                        (#[trigger] self@[line as int][j]).1,
                    ) >= 0,
                nodes_char_len(self@[line as int], self@[line as int].len() as int) <= usize::MAX,
                acc == nodes_char_len(self@[line as int], i as int),
            decreases col - i,
        {
            proof {
                lemma_nodes_char_len_mono(self@[line as int], i + 1, self@[line as int].len() as int);
            }
            let add = match nodes[i].1 {
                TextNode::Range { start, end } => end - start,
                TextNode::RunOfChar { len, ch } => len,
            };
            acc = acc + add;
            i = i + 1;
        }
        acc
    }
}

proof fn lemma_nodes_char_len_nonneg(nodes: Seq<(SyntaxType, TextNode)>, i: int)
    requires
        0 <= i <= nodes.len(),
        forall|j: int| 0 <= j < nodes.len() ==> node_char_len((#[trigger] nodes[j]).1) >= 0,
    ensures
        nodes_char_len(nodes, i) >= 0,
    decreases i,
{
    if i > 0 {
        lemma_nodes_char_len_nonneg(nodes, i - 1);
    }
}

/// A character that may form part of a word: a letter, a digit, or an
/// underscore.
pub open spec fn is_word_char(c: char) -> bool {
    ||| 97 <= c as u32 <= 122
    ||| 65 <= c as u32 <= 90
    ||| 48 <= c as u32 <= 57
    ||| c as u32 == 95
}

fn word_char(c: char) -> (r: bool)
    ensures
        r == is_word_char(c),
{
    let u = c as u32;
    (97 <= u && u <= 122) || (65 <= u && u <= 90) || (48 <= u && u <= 57) || u == 95
}

/// The words the tokenizer paints as keywords.
pub open spec fn spec_is_keyword(w: Seq<char>) -> bool {
    ||| w == "fn"@
    ||| w == "let"@
    ||| w == "mut"@
    ||| w == "pub"@
    ||| w == "use"@
    ||| w == "if"@
    ||| w == "else"@
    ||| w == "while"@
    ||| w == "for"@
    ||| w == "loop"@
    ||| w == "match"@
    ||| w == "return"@
    ||| w == "struct"@
    ||| w == "enum"@
    ||| w == "impl"@
    ||| w == "mod"@
    ||| w == "const"@
    ||| w == "true"@
    ||| w == "false"@
}

/// Compares the characters `[start, end)` of `line` with `kw`.
fn word_matches(line: &str, start: usize, end: usize, kw: &str) -> (r: bool)
    requires
        start <= end <= line@.len(),
    ensures
        r == (line@.subrange(start as int, end as int) == kw@),
{
    let klen = kw.unicode_len();
    if end - start != klen {
        proof {
            assert(line@.subrange(start as int, end as int).len() != kw@.len());
        }
        return false;
    }
    let mut i: usize = 0;
    while i < klen
        invariant
            start <= end <= line@.len(),
            0 <= i <= klen,
            klen == kw@.len(),
            end - start == klen,
            forall|m: int| 0 <= m < i ==> line@[start + m] == kw@[m],
        decreases klen - i,
    {
        if line.get_char(start + i) != kw.get_char(i) {
            proof {
                assert(line@.subrange(start as int, end as int)[i as int] == line@[start + i]);
            }
            return false;
        }
        i = i + 1;
    }
    proof {
        assert(line@.subrange(start as int, end as int) =~= kw@);
    }
    true
}

fn is_keyword(line: &str, start: usize, end: usize) -> (r: bool)
    requires
        start <= end <= line@.len(),
    ensures
        r == spec_is_keyword(line@.subrange(start as int, end as int)),
{
    word_matches(line, start, end, "fn") || word_matches(line, start, end, "let")
        || word_matches(line, start, end, "mut") || word_matches(line, start, end, "pub")
        || word_matches(line, start, end, "use") || word_matches(line, start, end, "if")
        || word_matches(line, start, end, "else") || word_matches(line, start, end, "while")
        || word_matches(line, start, end, "for") || word_matches(line, start, end, "loop")
        || word_matches(line, start, end, "match") || word_matches(line, start, end, "return")
        || word_matches(line, start, end, "struct") || word_matches(line, start, end, "enum")
        || word_matches(line, start, end, "impl") || word_matches(line, start, end, "mod")
        || word_matches(line, start, end, "const") || word_matches(line, start, end, "true")
        || word_matches(line, start, end, "false")
}

/// Covers one line with spans: comments run to the line end, string
/// literals to their closing quote, words are split into keywords and
/// identifiers, whitespace runs become repeated-character nodes, and
/// anything else is covered one character at a time. An empty line gets a
/// single zero-length span. `gstart` is the line's character offset in the
/// buffer `buf`, which `Range` spans refer to.
#[verifier::rlimit(60)]
fn tokenize_line(line: &str, gstart: usize, Ghost(buf): Ghost<Seq<char>>) -> (nodes: Vec<
    (SyntaxType, TextNode),
>)
    requires
        buf.len() <= usize::MAX,
        gstart + line@.len() <= buf.len(),
        line@ == buf.subrange(gstart as int, gstart + line@.len()),
    ensures
        nodes_text(buf, nodes@) == line@,
        forall|j: int| 0 <= j < nodes@.len() ==> node_wf(buf, (#[trigger] nodes@[j]).1),
        nodes@.len() >= 1,
{
    let n = line.unicode_len();
    let mut nodes: Vec<(SyntaxType, TextNode)> = Vec::new();
    if n == 0 {
        let node = TextNode::Range { start: gstart, end: gstart };
        nodes.push((SyntaxType::Plain, node));
        proof {
            lemma_nodes_text_push(buf, Seq::empty(), (SyntaxType::Plain, node));
            assert(nodes@.drop_last() =~= Seq::<(SyntaxType, TextNode)>::empty());
            assert(nodes_text(buf, nodes@) =~= line@);
        }
        return nodes;
    }
    let mut pos: usize = 0;
    proof {
        assert(nodes_text(buf, nodes@) =~= line@.take(0));
    }
    while pos < n
        invariant
            0 <= pos <= n,
            n == line@.len(),
            buf.len() <= usize::MAX,
            gstart + n <= buf.len(),
            line@ == buf.subrange(gstart as int, gstart as int + n),
            nodes_text(buf, nodes@) == line@.take(pos as int),
            forall|j: int| 0 <= j < nodes@.len() ==> node_wf(buf, (#[trigger] nodes@[j]).1),
            pos > 0 ==> nodes@.len() >= 1,
        decreases n - pos,
    {
        let c = line.get_char(pos);
        let ghost nodes0 = nodes@;
        if c == ' ' {
            let mut j = pos + 1;
            while j < n && line.get_char(j) == ' '
                invariant
                    pos < j <= n,
                    n == line@.len(),
                    forall|m: int| pos <= m < j ==> line@[m] == ' ',
                decreases n - j,
            {
                j = j + 1;
            }
            let node = TextNode::RunOfChar { len: j - pos, ch: ' ' };
            nodes.push((SyntaxType::Whitespace, node));
            proof {
                lemma_nodes_text_push(buf, nodes0, (SyntaxType::Whitespace, node));
                assert(node_text(buf, node) =~= line@.subrange(pos as int, j as int));
                assert(line@.take(j as int) =~= line@.take(pos as int) + line@.subrange(
                    pos as int,
                    j as int,
                ));
            }
            pos = j;
        } else if c == '/' && pos + 1 < n && line.get_char(pos + 1) == '/' {
            let node = TextNode::Range { start: gstart + pos, end: gstart + n };
            nodes.push((SyntaxType::Comment, node));
            proof {
                lemma_nodes_text_push(buf, nodes0, (SyntaxType::Comment, node));
                assert(node_text(buf, node) =~= line@.subrange(pos as int, n as int));
                assert(line@.take(n as int) =~= line@.take(pos as int) + line@.subrange(
                    pos as int,
                    n as int,
                ));
            }
            pos = n;
        } else if c == '"' {
            let mut j = pos + 1;
            while j < n && line.get_char(j) != '"'
                invariant
                    pos < j <= n,
                    n == line@.len(),
                decreases n - j,
            {
                j = j + 1;
            }
            let end = if j < n {
                j + 1
            } else {
                n
            };
            let node = TextNode::Range { start: gstart + pos, end: gstart + end };
            nodes.push((SyntaxType::StringLit, node));
            proof {
                lemma_nodes_text_push(buf, nodes0, (SyntaxType::StringLit, node));
                assert(node_text(buf, node) =~= line@.subrange(pos as int, end as int));
                assert(line@.take(end as int) =~= line@.take(pos as int) + line@.subrange(
                    pos as int,
                    end as int,
                ));
            }
            pos = end;
        } else if word_char(c) {
            let mut j = pos + 1;
            while j < n && word_char(line.get_char(j))
                invariant
                    pos < j <= n,
                    n == line@.len(),
                decreases n - j,
            {
                j = j + 1;
            }
            let ty = if is_keyword(line, pos, j) {
                SyntaxType::Keyword
            } else {
                SyntaxType::Identifier
            };
            let node = TextNode::Range { start: gstart + pos, end: gstart + j };
            nodes.push((ty, node));
            proof {
                lemma_nodes_text_push(buf, nodes0, (ty, node));
                assert(node_text(buf, node) =~= line@.subrange(pos as int, j as int));
                assert(line@.take(j as int) =~= line@.take(pos as int) + line@.subrange(
                    pos as int,
                    j as int,
                ));
            }
            pos = j;
        } else {
            let node = TextNode::Range { start: gstart + pos, end: gstart + pos + 1 };
            nodes.push((SyntaxType::Plain, node));
            proof {
                lemma_nodes_text_push(buf, nodes0, (SyntaxType::Plain, node));
                assert(node_text(buf, node) =~= line@.subrange(pos as int, pos + 1));
                assert(line@.take(pos + 1) =~= line@.take(pos as int) + line@.subrange(
                    pos as int,
                    pos + 1,
                ));
            }
            pos = pos + 1;
        }
    }
    proof {
        assert(line@.take(n as int) =~= line@);
    }
    nodes
}

/// Derives the per-line span cover for the whole buffer. Re-running it on
/// identical buffer content produces identical output: the result is a
/// function of the text alone.
pub fn parse(buffer: &TextBuffer, blocks: &mut SyntaxBlocks)
    ensures
        covers(buffer@, final(blocks)@),
{
    let mut lines: Vec<Vec<(SyntaxType, TextNode)>> = Vec::new();
    let lc = buffer.line_count();
    let len = buffer.len_chars();
    let mut l: usize = 0;
    while l < lc
        invariant
            0 <= l <= lc,
            lc == line_count(buffer@),
            len == buffer@.len(),
            lines@.len() == l as int,
            forall|i: int|
                0 <= i < l ==> nodes_text(buffer@, (#[trigger] lines@[i])@) == line_text(
                    buffer@,
                    i,
                ),
            forall|i: int, j: int|
                0 <= i < l && 0 <= j < lines@[i]@.len() ==> node_wf(
                    buffer@,
                    (#[trigger] lines@[i]@[j]).1,
                ),
        decreases lc - l,
    {
        let s = buffer.line(l);
        let gs = buffer.line_to_char(l);
        proof {
            lemma_count_nl_nonneg(buffer@);
            lemma_line_shape(buffer@, l as int);
            assert(s@ == buffer@.subrange(gs as int, gs as int + s@.len()));
        }
        let nodes = tokenize_line(s.as_str(), gs, Ghost(buffer@));
        lines.push(nodes);
        l = l + 1;
    }
    blocks.lines = lines;
    proof {
        assert forall|i: int| 0 <= i < blocks@.len() implies nodes_text(
            buffer@,
            #[trigger] blocks@[i],
        ) == line_text(buffer@, i) by {
            assert(blocks@[i] == lines@[i]@);
        }
        assert forall|i: int, j: int|
            0 <= i < blocks@.len() && 0 <= j < blocks@[i].len() implies node_wf(
            buffer@,
            (#[trigger] blocks@[i][j]).1,
        ) by {
            assert(blocks@[i] == lines@[i]@);
        }
    }
}

/// Prefix sums of non-negative span lengths grow with the prefix.
proof fn lemma_nodes_char_len_mono(nodes: Seq<(SyntaxType, TextNode)>, i: int, m: int)
    requires
        0 <= i <= m <= nodes.len(),
        forall|j: int| 0 <= j < nodes.len() ==> node_char_len((#[trigger] nodes[j]).1) >= 0,
    ensures
        nodes_char_len(nodes, i) <= nodes_char_len(nodes, m),
        nodes_char_len(nodes, i) >= 0,
    decreases m - i,
{
    lemma_nodes_char_len_nonneg(nodes, i);
    if i < m {
        lemma_nodes_char_len_mono(nodes, i, m - 1);
    }
}

} // verus!
