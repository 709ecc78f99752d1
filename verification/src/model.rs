//! The line and document model, and the caret/selection model.
//!
//! A document is an ordered sequence of lines; each line carries a permanent
//! identifier, an indent depth, its raw text, and a collapsed flag. Caret
//! columns are always character offsets, never byte offsets.

use crate::scan::{find_char, indent_char, indent_end, is_indent_char, lemma_find_char};
use vstd::prelude::*;
use vstd::utf8::{encode_scalar, encode_utf8};

verus! {

broadcast use vstd::seq::group_seq_axioms;

/// A permanent, never-reused handle for a line. `Document::next_id` is kept
/// strictly greater than every identifier the document has allocated.
pub type LineId = u64;

/// A caret position: a line index and a character column within that line.
#[derive(Clone, Copy, PartialEq, Eq, Structural, Debug)]
pub struct CaretPosition {
    pub line: usize,
    pub column: usize,
}

/// Lexicographic (line, column) order on caret positions.
pub open spec fn caret_le(a: CaretPosition, b: CaretPosition) -> bool {
    a.line < b.line || (a.line == b.line && a.column <= b.column)
}

/// The (first, second) ordering of a selection's anchor and focus by
/// (line, column); ties keep the anchor first.
pub open spec fn spec_normalized(sel: SelectionRange) -> (CaretPosition, CaretPosition) {
    if caret_le(sel.anchor, sel.focus) {
        (sel.anchor, sel.focus)
    } else {
        (sel.focus, sel.anchor)
    }
}

/// A selection: an anchor and a focus caret. The two coincide for a plain
/// caret. Callers must not assume the anchor precedes the focus.
#[derive(Clone, Copy, PartialEq, Eq, Structural, Debug)]
pub struct SelectionRange {
    pub anchor: CaretPosition,
    pub focus: CaretPosition,
}

impl SelectionRange {
    /// A collapsed selection at the given line and column.
    pub fn caret(line: usize, column: usize) -> (s: Self)
        ensures
            s.anchor == (CaretPosition { line, column }),
            s.focus == (CaretPosition { line, column }),
    {
        let position = CaretPosition { line, column };
        Self { anchor: position, focus: position }
    }

    /// The anchor/focus pair ordered by (line, column); ties keep the anchor
    /// first.
    pub fn normalized(&self) -> (r: (CaretPosition, CaretPosition))
        ensures
            r == spec_normalized(*self),
            caret_le(r.0, r.1),
    {
        let le = self.anchor.line < self.focus.line || (self.anchor.line == self.focus.line
            && self.anchor.column <= self.focus.column);
        if le {
            (self.anchor, self.focus)
        } else {
            (self.focus, self.anchor)
        }
    }

    /// Whether the selection is a plain caret.
    pub fn is_collapsed(&self) -> (b: bool)
        ensures
            b == (self.anchor == self.focus),
    {
        self.anchor.line == self.focus.line && self.anchor.column == self.focus.column
    }
}

/// One line of the document.
#[derive(Debug)]
pub struct Line {
    pub id: LineId,
    pub indent: usize,
    pub text: String,
    pub collapsed: bool,
}

/// The mathematical value of a [`Line`]: the same fields with the text as a
/// character sequence.
pub ghost struct LineModel {
    pub id: LineId,
    pub indent: usize,
    pub text: Seq<char>,
    pub collapsed: bool,
}

impl View for Line {
    type V = LineModel;

    open spec fn view(&self) -> LineModel {
        LineModel { id: self.id, indent: self.indent, text: self.text@, collapsed: self.collapsed }
    }
}

impl Clone for Line {
    fn clone(&self) -> (r: Self)
        ensures
            r@ == self@,
    {
        Line {
            id: self.id,
            indent: self.indent,
            text: self.text.clone(),
            collapsed: self.collapsed,
        }
    }
}

/// The document: an ordered sequence of lines plus the next free identifier.
#[derive(Debug)]
pub struct Document {
    pub lines: Vec<Line>,
    pub next_id: LineId,
}

/// The mathematical value of a [`Document`].
pub ghost struct DocModel {
    pub lines: Seq<LineModel>,
    pub next_id: LineId,
}

/// The mathematical values of a sequence of lines.
pub open spec fn lines_model(lines: Seq<Line>) -> Seq<LineModel> {
    lines.map_values(|l: Line| l@)
}

impl View for Document {
    type V = DocModel;

    open spec fn view(&self) -> DocModel {
        DocModel { lines: lines_model(self.lines@), next_id: self.next_id }
    }
}

impl DocModel {
    /// Every identifier is below `next_id`, and no two lines share one.
    pub open spec fn wf(self) -> bool {
        &&& forall|i: int| 0 <= i < self.lines.len() ==> self.lines[i].id < self.next_id
        &&& forall|i: int, j: int|
            0 <= i < j < self.lines.len() ==> self.lines[i].id != self.lines[j].id
    }
}

/// The segments of `s` between `'\n'` characters, from position `from` on.
/// A trailing line break yields an empty final segment, and an empty text is
/// one empty segment.
pub open spec fn split_lines_from(s: Seq<char>, from: int) -> Seq<Seq<char>>
    decreases s.len() - from,
    when 0 <= from <= s.len()
    via split_lines_from_decreases
{
    let k = find_char(s, '\n', from);
    if k >= s.len() {
        seq![s.subrange(from, s.len() as int)]
    } else {
        seq![s.subrange(from, k)] + split_lines_from(s, k + 1)
    }
}

#[via_fn]
proof fn split_lines_from_decreases(s: Seq<char>, from: int) {
    lemma_find_char(s, '\n', from);
}

/// The raw lines of a text blob.
pub open spec fn split_lines(s: Seq<char>) -> Seq<Seq<char>> {
    split_lines_from(s, 0)
}

/// Splitting yields at least one segment.
pub proof fn lemma_split_lines_from_len(s: Seq<char>, from: int)
    requires
        0 <= from <= s.len(),
    ensures
        split_lines_from(s, from).len() >= 1,
{
    lemma_find_char(s, '\n', from);
}

/// The number of leading indent characters of a raw line.
pub open spec fn leading_indent(seg: Seq<char>) -> int {
    indent_end(seg, 0)
}

/// A run of `n` tab characters.
pub open spec fn spec_tabs(n: int) -> Seq<char>
    decreases n,
{
    if n <= 0 {
        Seq::empty()
    } else {
        spec_tabs(n - 1).push('\t')
    }
}

/// The serialized form of one line: its indent as tabs, then its text.
pub open spec fn spec_render_line(l: LineModel) -> Seq<char> {
    spec_tabs(l.indent as int) + l.text
}

/// The serialized lines from index `from` on, joined with `'\n'`.
pub open spec fn spec_render_from(ls: Seq<LineModel>, from: int) -> Seq<char>
    decreases ls.len() - from,
{
    if from < 0 || from >= ls.len() {
        Seq::empty()
    } else if from == ls.len() - 1 {
        spec_render_line(ls[from])
    } else {
        spec_render_line(ls[from]) + seq!['\n'] + spec_render_from(ls, from + 1)
    }
}

/// The serialized form of a whole document's lines.
pub open spec fn spec_render(ls: Seq<LineModel>) -> Seq<char> {
    spec_render_from(ls, 0)
}

impl Document {
    /// Builds a document from a text blob. The blob splits on `'\n'`; each
    /// raw line loses its leading run of space, tab, or full-width-space
    /// characters, one indent unit per character; identifiers count up from
    /// zero in order, and `next_id` sits just past the largest of them.
    pub fn from_text(text: &str) -> (d: Document)
        ensures
            d@.lines.len() == split_lines(text@).len(),
            forall|i: int| #![trigger d@.lines[i]]
                0 <= i < d@.lines.len() ==> {
                    &&& d@.lines[i].id == i
                    &&& d@.lines[i].indent == leading_indent(split_lines(text@)[i])
                    &&& d@.lines[i].text == split_lines(text@)[i].skip(
                        leading_indent(split_lines(text@)[i]),
                    )
                    &&& d@.lines[i].collapsed == false
                },
            d@.next_id == d@.lines.len(),
            d@.wf(),
    {
        let ghost target = split_lines(text@);
        let n = text.unicode_len();
        let mut lines: Vec<Line> = Vec::new();
        let mut p: usize = 0;
        loop
            invariant_except_break
                p <= n,
                n == text@.len(),
                split_lines_from(text@, p as int) =~= target.skip(lines@.len() as int),
                lines@.len() < target.len(),
                forall|i: int| #![trigger lines@[i]]
                    0 <= i < lines@.len() ==> {
                        &&& lines@[i]@.id == i
                        &&& lines@[i]@.indent == leading_indent(target[i])
                        &&& lines@[i]@.text == target[i].skip(leading_indent(target[i]))
                        &&& lines@[i]@.collapsed == false
                    },
            ensures
                lines@.len() == target.len(),
                forall|i: int| #![trigger lines@[i]]
                    0 <= i < lines@.len() ==> {
                        &&& lines@[i]@.id == i
                        &&& lines@[i]@.indent == leading_indent(target[i])
                        &&& lines@[i]@.text == target[i].skip(leading_indent(target[i]))
                        &&& lines@[i]@.collapsed == false
                    },
            decreases n - p,
        {
            let ghost cnt = lines@.len() as int;
            let mut k = p;
            while k < n && text.get_char(k) != '\n'
                invariant
                    p <= k <= n,
                    n == text@.len(),
                    forall|j: int| p <= j < k ==> text@[j] != '\n',
                decreases n - k,
            {
                k += 1;
            }
            proof {
                lemma_find_char(text@, '\n', p as int);
                crate::scan::lemma_find_char_is(text@, '\n', p as int, k as int);
            }
            let ghost seg = text@.subrange(p as int, k as int);
            let mut q = p;
            while q < k && indent_char(text.get_char(q))
                invariant
                    p <= q <= k <= n,
                    n == text@.len(),
                    forall|j: int| p <= j < q ==> is_indent_char(text@[j]),
                decreases k - q,
            {
                q += 1;
            }
            proof {
                assert forall|j: int| 0 <= j < q - p implies is_indent_char(seg[j]) by {
                    assert(seg[j] == text@[p + j]);
                }
                if q < k {
                    assert(seg[q - p] == text@[q as int]);
                }
                crate::scan::lemma_indent_end_is(seg, 0, q as int - p as int);
            }
            let line_text = text.substring_char(q, k).to_owned();
            proof {
                assert(line_text@ =~= seg.skip(leading_indent(seg)));
                assert(split_lines_from(text@, p as int)[0] == seg);
                assert(target[cnt] == seg);
            }
            let line = Line {
                id: lines.len() as LineId,
                indent: q - p,
                text: line_text,
                collapsed: false,
            };
            lines.push(line);
            if k == n {
                proof {
                    assert(split_lines_from(text@, p as int).len() == 1);
                    assert(target.len() == cnt + 1);
                }
                break ;
            }
            proof {
                lemma_split_lines_from_len(text@, k as int + 1);
                assert(split_lines_from(text@, p as int).drop_first() =~= split_lines_from(
                    text@,
                    k as int + 1,
                ));
                assert(target.skip(cnt).drop_first() =~= target.skip(cnt + 1));
            }
            p = k + 1;
        }
        let next_id = lines.len() as LineId;
        let d = Document { lines, next_id };
        proof {
            assert forall|i: int, j: int|
                0 <= i < j < d@.lines.len() implies d@.lines[i].id != d@.lines[j].id by {
                assert(d@.lines[i].id == i);
                assert(d@.lines[j].id == j);
            }
        }
        d
    }

    /// Serializes the document: each line as indent-count tabs followed by
    /// its text, joined with `'\n'`. This normalizes whatever whitespace the
    /// source used for indent to tabs.
    pub fn to_text(&self) -> (r: String)
        ensures
            r@ == spec_render(self@.lines),
    {
        let ghost ls = self@.lines;
        let mut out = String::new();
        let len = self.lines.len();
        let mut i: usize = 0;
        while i < len
            invariant
                i <= len,
                len == ls.len(),
                ls == self@.lines,
                out@ + spec_render_from(ls, i as int) =~= spec_render(ls),
            decreases len - i,
        {
            let ghost before = out@;
            let line = &self.lines[i];
            let indent = line.indent;
            let mut j: usize = 0;
            while j < indent
                invariant
                    j <= indent,
                    out@ =~= before + spec_tabs(j as int),
                decreases indent - j,
            {
                out.append("\t");
                proof {
                    reveal_strlit("\t");
                    assert(out@ =~= before + spec_tabs(j as int + 1));
                }
                j += 1;
            }
            out.append(line.text.as_str());
            proof {
                assert(out@ =~= before + spec_render_line(ls[i as int]));
            }
            if i + 1 < len {
                out.append("\n");
                proof {
                    reveal_strlit("\n");
                    assert(out@ + spec_render_from(ls, i as int + 1) =~= before
                        + spec_render_from(ls, i as int));
                }
            }
            i += 1;
        }
        out
    }

    /// Allocates a fresh line identifier. The counter saturates at the top of
    /// the identifier range instead of wrapping.
    pub fn next_line_id(&mut self) -> (id: LineId)
        ensures
            id == old(self).next_id,
            final(self).next_id == (if old(self).next_id < LineId::MAX {
                old(self).next_id + 1
            } else {
                LineId::MAX as int
            }),
            final(self).lines == old(self).lines,
    {
        let id = self.next_id;
        self.next_id = if self.next_id < LineId::MAX {
            self.next_id + 1
        } else {
            LineId::MAX
        };
        id
    }
}

/// Splits a raw line into its indent count and the text after the indent.
pub fn split_indent<'a>(line: &'a str) -> (r: (usize, &'a str))
    ensures
        r.0 == leading_indent(line@),
        r.1@ == line@.skip(leading_indent(line@)),
{
    let n = line.unicode_len();
    let mut q: usize = 0;
    while q < n && indent_char(line.get_char(q))
        invariant
            q <= n,
            n == line@.len(),
            forall|j: int| 0 <= j < q ==> is_indent_char(line@[j]),
        decreases n - q,
    {
        q += 1;
    }
    proof {
        crate::scan::lemma_indent_end_is(line@, 0, q as int);
    }
    let rest = line.substring_char(q, n);
    proof {
        assert(rest@ =~= line@.skip(leading_indent(line@)));
    }
    (q, rest)
}

/// The byte length of the UTF-8 encoding of one character.
pub open spec fn char_utf8_width(c: char) -> int {
    if (c as u32) < 0x80 {
        1
    } else if (c as u32) < 0x800 {
        2
    } else if (c as u32) < 0x10000 {
        3
    } else {
        4
    }
}

/// The number of UTF-16 code units that encode one character.
pub open spec fn char_utf16_units(c: char) -> int {
    if (c as u32) < 0x10000 {
        1
    } else {
        2
    }
}

/// The byte length of the UTF-8 encoding of the first `k` characters of `s`:
/// the byte offset of character `k`.
pub open spec fn bytes_upto(s: Seq<char>, k: int) -> int
    decreases k,
{
    if k <= 0 {
        0
    } else {
        bytes_upto(s, k - 1) + char_utf8_width(s[k - 1])
    }
}

proof fn lemma_char_width_is_scalar_len(c: char)
    ensures
        encode_scalar(c as u32).len() == char_utf8_width(c),
{
    vstd::utf8::char_is_scalar(c);
}

proof fn lemma_bytes_upto_mono(s: Seq<char>, a: int, b: int)
    requires
        a <= b,
    ensures
        bytes_upto(s, a) <= bytes_upto(s, b),
    decreases b - a,
{
    if a < b {
        lemma_bytes_upto_mono(s, a, b - 1);
    }
}

proof fn lemma_bytes_upto_prefix(s: Seq<char>, t: Seq<char>, k: int)
    requires
        forall|j: int| 0 <= j < k ==> s[j] == t[j],
    ensures
        bytes_upto(s, k) == bytes_upto(t, k),
    decreases k,
{
    if k > 0 {
        lemma_bytes_upto_prefix(s, t, k - 1);
    }
}

proof fn lemma_encode_push(t: Seq<char>, c: char)
    ensures
        encode_utf8(t.push(c)) == encode_utf8(t) + encode_scalar(c as u32),
    decreases t.len(),
{
    if t.len() == 0 {
        assert(t.push(c).drop_first() =~= Seq::<char>::empty());
        assert(t =~= Seq::<char>::empty());
        assert(encode_utf8(Seq::<char>::empty()) =~= Seq::<u8>::empty());
        assert(encode_utf8(t.push(c)) =~= encode_utf8(t) + encode_scalar(c as u32));
    } else {
        assert(t.push(c).drop_first() =~= t.drop_first().push(c));
        lemma_encode_push(t.drop_first(), c);
        assert(encode_utf8(t.push(c)) =~= encode_utf8(t) + encode_scalar(c as u32));
    }
}

/// The per-character byte counts sum to the length of the whole encoding.
proof fn lemma_bytes_upto_total(s: Seq<char>)
    ensures
        bytes_upto(s, s.len() as int) == encode_utf8(s).len(),
    decreases s.len(),
{
    if s.len() > 0 {
        let t = s.drop_last();
        let c = s[s.len() - 1];
        lemma_bytes_upto_total(t);
        lemma_bytes_upto_prefix(s, t, s.len() - 1);
        assert(t.push(c) =~= s);
        lemma_encode_push(t, c);
        lemma_char_width_is_scalar_len(c);
    }
}

/// The byte index of character number `column` of `text`, or the byte length
/// of `text` when `column` lies past its last character.
pub fn char_to_byte_index(text: &str, column: usize) -> (r: usize)
    ensures
        r == bytes_upto(
            text@,
            if column <= text@.len() {
                column as int
            } else {
                text@.len() as int
            },
        ),
        r == encode_utf8(
            text@.subrange(
                0,
                if column <= text@.len() {
                    column as int
                } else {
                    text@.len() as int
                },
            ),
        ).len(),
{
    let n = text.unicode_len();
    let limit = if column < n {
        column
    } else {
        n
    };
    let total = text.as_bytes().len();
    proof {
        lemma_bytes_upto_total(text@);
    }
    let mut b: usize = 0;
    let mut i: usize = 0;
    while i < limit
        invariant
            i <= limit <= n,
            n == text@.len(),
            b == bytes_upto(text@, i as int),
            total == encode_utf8(text@).len(),
        decreases limit - i,
    {
        let c = text.get_char(i);
        let u = c as u32;
        let w: usize = if u < 0x80 {
            1
        } else if u < 0x800 {
            2
        } else if u < 0x10000 {
            3
        } else {
            4
        };
        proof {
            lemma_bytes_upto_total(text@);
            lemma_bytes_upto_mono(text@, i as int + 1, n as int);
        }
        b += w;
        i += 1;
    }
    proof {
        let lim = limit as int;
        lemma_bytes_upto_total(text@.subrange(0, lim));
        lemma_bytes_upto_prefix(text@, text@.subrange(0, lim), lim);
    }
    b
}

/// The number of characters that a UTF-16 code-unit offset covers:
/// characters are consumed one at a time until the running UTF-16 unit
/// count reaches the offset.
pub open spec fn utf16_char_index(s: Seq<char>, offset: int) -> int
    decreases s.len(),
{
    if s.len() == 0 || offset <= 0 {
        0
    } else {
        1 + utf16_char_index(s.drop_first(), offset - char_utf16_units(s[0]))
    }
}

/// Converts a UTF-16 code-unit offset into a character index of `text`,
/// clamping past-the-end offsets to the character count.
pub fn utf16_to_char_index(text: &str, utf16_offset: usize) -> (r: usize)
    ensures
        r == utf16_char_index(text@, utf16_offset as int),
        r <= text@.len(),
{
    let n = text.unicode_len();
    let total = text.as_bytes().len();
    proof {
        lemma_bytes_upto_total(text@);
        assert(text@.skip(0) =~= text@);
    }
    let mut utf16_count: usize = 0;
    let mut char_index: usize = 0;
    while char_index < n && utf16_count < utf16_offset
        invariant
            char_index <= n,
            n == text@.len(),
            total == encode_utf8(text@).len(),
            utf16_count <= total,
            utf16_count <= bytes_upto(text@, char_index as int),
            utf16_char_index(text@, utf16_offset as int) == char_index + utf16_char_index(
                text@.skip(char_index as int),
                utf16_offset - utf16_count,
            ),
        decreases n - char_index,
    {
        let c = text.get_char(char_index);
        let u = c as u32;
        let w: usize = if u < 0x10000 {
            1
        } else {
            2
        };
        proof {
            lemma_bytes_upto_total(text@);
            lemma_bytes_upto_mono(text@, char_index as int + 1, n as int);
            assert(text@.skip(char_index as int).drop_first() =~= text@.skip(
                char_index as int + 1,
            ));
            assert(text@.skip(char_index as int)[0] == text@[char_index as int]);
        }
        utf16_count += w;
        char_index += 1;
    }
    proof {
        assert(text@.skip(char_index as int).len() == n - char_index);
    }
    char_index
}

} // verus!
