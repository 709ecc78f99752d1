//! Structural queries and edits on the outline document, and the edit
//! orchestrator that maps discrete editing commands to model mutations.
//!
//! The flat line sequence encodes a tree: the parent of a line is the
//! nearest preceding line with a strictly smaller indent, and a subtree is
//! one contiguous index range. Every operation here is total: an index that
//! no longer exists makes the operation a silent no-op.

use crate::model::{
    lines_model, spec_normalized, CaretPosition, DocModel, Document, Line, LineId, LineModel,
    SelectionRange,
};
use vstd::prelude::*;

verus! {

broadcast use vstd::seq::group_seq_axioms;

/// The first index at or after `j` whose line's indent is at most `base`, or
/// `ls.len()` if there is none.
pub open spec fn subtree_scan(ls: Seq<LineModel>, base: int, j: int) -> int
    decreases ls.len() - j,
{
    if j < 0 || j >= ls.len() {
        ls.len() as int
    } else if ls[j].indent <= base {
        j
    } else {
        subtree_scan(ls, base, j + 1)
    }
}

proof fn lemma_subtree_scan(ls: Seq<LineModel>, base: int, j: int)
    requires
        0 <= j <= ls.len(),
    ensures
        j <= subtree_scan(ls, base, j) <= ls.len(),
        forall|m: int| j <= m < subtree_scan(ls, base, j) ==> ls[m].indent > base,
        subtree_scan(ls, base, j) < ls.len() ==> ls[subtree_scan(ls, base, j)].indent <= base,
    decreases ls.len() - j,
{
    if j < ls.len() && ls[j].indent > base {
        lemma_subtree_scan(ls, base, j + 1);
    }
}

proof fn lemma_subtree_scan_is(ls: Seq<LineModel>, base: int, j: int, k: int)
    requires
        0 <= j <= k <= ls.len(),
        forall|m: int| j <= m < k ==> ls[m].indent > base,
        k < ls.len() ==> ls[k].indent <= base,
    ensures
        subtree_scan(ls, base, j) == k,
    decreases k - j,
{
    if j < k {
        lemma_subtree_scan_is(ls, base, j + 1, k);
    }
}

/// The end of the subtree rooted at `start`: the range `[start, end)` covers
/// `start` and every following line with a strictly greater indent.
pub open spec fn subtree_end(ls: Seq<LineModel>, start: int) -> int {
    subtree_scan(ls, ls[start].indent as int, start + 1)
}

/// A subtree holds at least its root line and ends within the document.
pub proof fn lemma_subtree_end_bounds(ls: Seq<LineModel>, start: int)
    requires
        0 <= start < ls.len(),
    ensures
        start < subtree_end(ls, start) <= ls.len(),
{
    lemma_subtree_scan(ls, ls[start].indent as int, start + 1);
}

/// The contiguous index range `[start, end)` of the subtree rooted at
/// `start_index`: the maximal range in which every line after the start has
/// a strictly greater indent. The range always holds at least the start
/// line, and its end is either the line count or a line whose indent is at
/// most the start line's.
pub fn subtree_range(lines: &Vec<Line>, start_index: usize) -> (r: (usize, usize))
    requires
        start_index < lines@.len(),
    ensures
        r.0 == start_index,
        r.1 == subtree_end(lines_model(lines@), start_index as int),
        start_index < r.1 <= lines@.len(),
        forall|j: int|
            start_index < j < r.1 ==> lines_model(lines@)[j].indent > lines_model(
                lines@,
            )[start_index as int].indent,
        r.1 == lines@.len() || lines_model(lines@)[r.1 as int].indent <= lines_model(
            lines@,
        )[start_index as int].indent,
{
    let ghost ls = lines_model(lines@);
    let n = lines.len();
    let base_indent = lines[start_index].indent;
    let mut end = start_index + 1;
    while end < lines.len() && lines[end].indent > base_indent
        invariant
            start_index < end <= lines@.len(),
            base_indent == ls[start_index as int].indent,
            ls == lines_model(lines@),
            forall|j: int| start_index < j < end ==> ls[j].indent > base_indent,
        decreases lines@.len() - end,
    {
        end += 1;
    }
    proof {
        lemma_subtree_scan_is(ls, base_indent as int, start_index as int + 1, end as int);
    }
    (start_index, end)
}

/// Whether the line at `index` exists and is directly followed by a line
/// with a strictly greater indent.
pub open spec fn spec_has_children(ls: Seq<LineModel>, i: int) -> bool {
    0 <= i && i + 1 < ls.len() && ls[i + 1].indent > ls[i].indent
}

/// Whether the line at `index` has children: the next line exists and has a
/// strictly greater indent. An out-of-range index has none.
pub fn has_children(lines: &Vec<Line>, index: usize) -> (b: bool)
    ensures
        b == spec_has_children(lines_model(lines@), index as int),
{
    if index < lines.len() && index + 1 < lines.len() {
        lines[index + 1].indent > lines[index].indent
    } else {
        false
    }
}

/// The caret column that the line at `line` can hold: `desired` clamped to
/// the line's character count, or zero when the line does not exist.
pub open spec fn spec_clamp_column(ls: Seq<LineModel>, line: int, desired: int) -> int {
    if 0 <= line < ls.len() {
        if desired <= ls[line].text.len() {
            desired
        } else {
            ls[line].text.len() as int
        }
    } else {
        0
    }
}

/// Clamps a desired caret column against the current shape of the document.
pub fn clamp_caret_column(document: &Document, line_index: usize, desired_column: usize) -> (r:
    usize)
    ensures
        r == spec_clamp_column(document@.lines, line_index as int, desired_column as int),
{
    if line_index < document.lines.len() {
        let len = document.lines[line_index].text.as_str().unicode_len();
        if desired_column < len {
            desired_column
        } else {
            len
        }
    } else {
        0
    }
}

/// The inclusive-start, exclusive-end line span that a selection covers,
/// each endpoint clamped to the last line; an empty document yields the
/// empty span.
pub open spec fn spec_selected_range(d: DocModel, sel: SelectionRange) -> (int, int) {
    if d.lines.len() == 0 {
        (0, 0)
    } else {
        let first = spec_normalized(sel).0.line as int;
        let last = spec_normalized(sel).1.line as int;
        let len = d.lines.len() as int;
        (
            if first < len - 1 {
                first
            } else {
                len - 1
            },
            (if last < len - 1 {
                last
            } else {
                len - 1
            }) + 1,
        )
    }
}

/// The line index range `[start, end)` that a selection covers, used by the
/// whole-line commands such as indent shift.
pub fn selected_line_range(document: &Document, selection: &SelectionRange) -> (r: (usize, usize))
    ensures
        (r.0 as int, r.1 as int) == spec_selected_range(document@, *selection),
        r.0 <= r.1 <= document@.lines.len(),
{
    if document.lines.is_empty() {
        return (0, 0);
    }
    let (start, end) = selection.normalized();
    let last_index = document.lines.len() - 1;
    let start_line = if start.line < last_index {
        start.line
    } else {
        last_index
    };
    let end_line = if end.line < last_index {
        end.line
    } else {
        last_index
    };
    (start_line, end_line + 1)
}

/// The caret column to use for a command on the line at `line_index`: the
/// focus column when the focus sits on that line, else the given fallback.
pub fn current_caret_column(line_index: usize, selection: &SelectionRange, fallback_len: usize) -> (
    r: usize)
    ensures
        r == (if selection.focus.line == line_index {
            selection.focus.column
        } else {
            fallback_len
        }),
{
    if selection.focus.line == line_index {
        selection.focus.column
    } else {
        fallback_len
    }
}

/// The nearest index at or below `j` whose line's indent is strictly below
/// `ind`, or `-1` if there is none.
pub open spec fn parent_scan(ls: Seq<LineModel>, ind: int, j: int) -> int
    decreases j + 1,
{
    if j < 0 {
        -1
    } else if ls[j].indent < ind {
        j
    } else {
        parent_scan(ls, ind, j - 1)
    }
}

proof fn lemma_parent_scan(ls: Seq<LineModel>, ind: int, j: int)
    requires
        j >= -1,
    ensures
        -1 <= parent_scan(ls, ind, j) <= j,
        parent_scan(ls, ind, j) >= 0 ==> ls[parent_scan(ls, ind, j)].indent < ind,
        forall|m: int| parent_scan(ls, ind, j) < m <= j ==> ls[m].indent >= ind,
    decreases j + 1,
{
    if j >= 0 && ls[j].indent >= ind {
        lemma_parent_scan(ls, ind, j - 1);
    }
}

/// No line has an indent below zero, so nothing is a parent of an
/// indent-zero line.
proof fn lemma_parent_scan_floor(ls: Seq<LineModel>, ind: int, j: int)
    requires
        ind <= 0,
    ensures
        parent_scan(ls, ind, j) == -1,
    decreases j + 1,
{
    if j >= 0 {
        lemma_parent_scan_floor(ls, ind, j - 1);
    }
}

/// The parent of the line at `i`: the nearest preceding line with a
/// strictly smaller indent, or `-1` at the root level.
pub open spec fn spec_parent(ls: Seq<LineModel>, i: int) -> int {
    parent_scan(ls, ls[i].indent as int, i - 1)
}

/// Whether the line at `i` is visible: every ancestor on its parent chain is
/// expanded. A collapsed line is itself still visible; only its descendants
/// are hidden.
pub open spec fn spec_visible(ls: Seq<LineModel>, i: int) -> bool
    decreases i,
    when true
    via spec_visible_decreases
{
    if i <= 0 {
        true
    } else {
        if spec_parent(ls, i) < 0 {
            true
        } else {
            !ls[spec_parent(ls, i)].collapsed && spec_visible(ls, spec_parent(ls, i))
        }
    }
}

#[via_fn]
proof fn spec_visible_decreases(ls: Seq<LineModel>, i: int) {
    if i > 0 {
        lemma_parent_scan(ls, ls[i].indent as int, i - 1);
    }
}

/// Whether the line at `index` is visible under the current collapsed
/// flags: no ancestor on its parent chain is collapsed.
pub fn is_visible(lines: &Vec<Line>, index: usize) -> (b: bool)
    requires
        index < lines@.len(),
    ensures
        b == spec_visible(lines_model(lines@), index as int),
{
    let ghost ls = lines_model(lines@);
    let mut cur = lines[index].indent;
    let mut j = index;
    let ghost mut a: int = index as int;
    while j > 0 && cur > 0
        invariant
            0 <= j <= a,
            0 <= a < lines@.len(),
            ls == lines_model(lines@),
            cur == ls[a].indent,
            spec_visible(ls, index as int) == spec_visible(ls, a),
            parent_scan(ls, cur as int, a - 1) == parent_scan(ls, cur as int, j as int - 1),
        decreases j,
    {
        j -= 1;
        if lines[j].indent < cur {
            proof {
                assert(parent_scan(ls, cur as int, j as int) == j);
                assert(spec_parent(ls, a) == j);
            }
            if lines[j].collapsed {
                return false;
            }
            proof {
                a = j as int;
            }
            cur = lines[j].indent;
        } else {
            proof {
                assert(parent_scan(ls, cur as int, j as int) == parent_scan(
                    ls,
                    cur as int,
                    j as int - 1,
                ));
            }
        }
    }
    proof {
        if cur == 0 {
            lemma_parent_scan_floor(ls, 0, a - 1);
        }
        assert(spec_parent(ls, a) == -1);
    }
    true
}

/// One row of the visible projection of the document, as the rendering side
/// consumes it.
#[derive(Debug)]
pub struct VisibleRow {
    pub index: usize,
    pub id: LineId,
    pub indent: usize,
    pub text: String,
    pub collapsed: bool,
    pub has_children: bool,
}

/// The indices of the visible lines at or after `i`, in order.
pub open spec fn spec_visible_indices(ls: Seq<LineModel>, i: int) -> Seq<int>
    decreases ls.len() - i,
{
    if i < 0 || i >= ls.len() {
        Seq::empty()
    } else if spec_visible(ls, i) {
        seq![i] + spec_visible_indices(ls, i + 1)
    } else {
        spec_visible_indices(ls, i + 1)
    }
}

/// Whether row `k` of a projection reflects line `idxs[k]` of `ls`.
pub open spec fn row_matches(
    rows: Seq<VisibleRow>,
    idxs: Seq<int>,
    ls: Seq<LineModel>,
    k: int,
) -> bool {
    &&& rows[k].index == idxs[k]
    &&& 0 <= idxs[k] < ls.len()
    &&& rows[k].id == ls[idxs[k]].id
    &&& rows[k].indent == ls[idxs[k]].indent
    &&& rows[k].text@ == ls[idxs[k]].text
    &&& rows[k].collapsed == ls[idxs[k]].collapsed
    &&& rows[k].has_children == spec_has_children(ls, idxs[k])
}

/// The visible-row projection: one row per visible line, in document order,
/// carrying the fields the rendering side needs.
pub fn visible_nodes(document: &Document) -> (rows: Vec<VisibleRow>)
    ensures
        rows@.len() == spec_visible_indices(document@.lines, 0).len(),
        forall|k: int| #![trigger rows@[k]]
            0 <= k < rows@.len() ==> row_matches(
                rows@,
                spec_visible_indices(document@.lines, 0),
                document@.lines,
                k,
            ),
{
    let ghost ls = document@.lines;
    let mut rows: Vec<VisibleRow> = Vec::new();
    let ghost mut done: Seq<int> = Seq::empty();
    let len = document.lines.len();
    let mut i: usize = 0;
    proof {
        assert(done + spec_visible_indices(ls, 0) =~= spec_visible_indices(ls, 0));
    }
    while i < len
        invariant
            i <= len,
            len == document@.lines.len(),
            ls == document@.lines,
            done.len() == rows@.len(),
            spec_visible_indices(ls, 0) == done + spec_visible_indices(ls, i as int),
            forall|k: int| #![trigger rows@[k]]
                0 <= k < rows@.len() ==> row_matches(rows@, done, ls, k),
        decreases len - i,
    {
        let ghost rows0 = rows@;
        let ghost done0 = done;
        if is_visible(&document.lines, i) {
            let line = &document.lines[i];
            let row = VisibleRow {
                index: i,
                id: line.id,
                indent: line.indent,
                text: line.text.clone(),
                collapsed: line.collapsed,
                has_children: has_children(&document.lines, i),
            };
            rows.push(row);
            proof {
                assert(spec_visible_indices(ls, i as int) == seq![i as int]
                    + spec_visible_indices(ls, i as int + 1));
                done = done.push(i as int);
                assert(spec_visible_indices(ls, 0) =~= done + spec_visible_indices(
                    ls,
                    i as int + 1,
                ));
                assert(row_matches(rows@, done, ls, rows@.len() - 1));
            }
        } else {
            proof {
                assert(spec_visible_indices(ls, i as int) == spec_visible_indices(
                    ls,
                    i as int + 1,
                ));
            }
        }
        proof {
            assert forall|k: int| #![trigger rows@[k]]
                0 <= k < rows@.len() implies row_matches(rows@, done, ls, k) by {
                if k < rows0.len() {
                    assert(rows@[k] == rows0[k]);
                    assert(done[k] == done0[k]);
                    assert(row_matches(rows0, done0, ls, k));
                }
            }
        }
        i += 1;
    }
    proof {
        assert(spec_visible_indices(ls, len as int) == Seq::<int>::empty());
        assert(spec_visible_indices(ls, 0) =~= done);
    }
    rows
}

/// A vertical direction for moves, duplication, and caret travel.
#[derive(Clone, Copy, PartialEq, Eq, Structural, Debug)]
pub enum MoveDirection {
    Up,
    Down,
}

/// The identifier counter after one allocation: one more, saturating at the
/// top of the range.
pub open spec fn bump_id(id: LineId) -> LineId {
    if id < LineId::MAX {
        (id + 1) as LineId
    } else {
        LineId::MAX
    }
}

/// A caret collapsed at (line, column).
pub open spec fn spec_caret(line: int, column: int) -> SelectionRange {
    SelectionRange {
        anchor: CaretPosition { line: line as usize, column: column as usize },
        focus: CaretPosition { line: line as usize, column: column as usize },
    }
}

/// The document after splitting line `i` at character column `col` (clamped
/// to the line's length): the head keeps the line's identity, and a fresh
/// line directly after it carries the tail at the same indent.
pub open spec fn spec_enter(d: DocModel, i: int, col: int) -> DocModel
    recommends
        0 <= i < d.lines.len(),
{
    let text = d.lines[i].text;
    let c = if col <= text.len() {
        col
    } else {
        text.len() as int
    };
    let head = LineModel {
        id: d.lines[i].id,
        indent: d.lines[i].indent,
        text: text.take(c),
        collapsed: d.lines[i].collapsed,
    };
    let tail = LineModel {
        id: d.next_id,
        indent: d.lines[i].indent,
        text: text.skip(c),
        collapsed: false,
    };
    DocModel { lines: d.lines.update(i, head).insert(i + 1, tail), next_id: bump_id(d.next_id) }
}

/// Splits the line at `line_index` at the caret column, keeping the head in
/// place and inserting the tail as a fresh line directly after it; focus
/// moves to the new line at column zero. A stale index is a no-op.
pub fn handle_enter(document: &mut Document, line_index: usize, caret_column: usize) -> (r: Option<
    SelectionRange,
>)
    ensures
        line_index < old(document)@.lines.len() ==> {
            &&& final(document)@ == spec_enter(
                old(document)@,
                line_index as int,
                caret_column as int,
            )
            &&& r == Some(spec_caret(line_index + 1, 0))
        },
        line_index >= old(document)@.lines.len() ==> final(document)@ == old(document)@ && r
            is None,
{
    let ghost d0 = document@;
    if line_index >= document.lines.len() {
        return None;
    }
    let new_id = document.next_line_id();
    let text_len = document.lines[line_index].text.as_str().unicode_len();
    let c = if caret_column < text_len {
        caret_column
    } else {
        text_len
    };
    let head_text = document.lines[line_index].text.as_str().substring_char(0, c).to_owned();
    let tail_text = document.lines[line_index].text.as_str().substring_char(c, text_len).to_owned();
    let head = Line {
        id: document.lines[line_index].id,
        indent: document.lines[line_index].indent,
        text: head_text,
        collapsed: document.lines[line_index].collapsed,
    };
    let tail = Line {
        id: new_id,
        indent: document.lines[line_index].indent,
        text: tail_text,
        collapsed: false,
    };
    document.lines[line_index] = head;
    document.lines.insert(line_index + 1, tail);
    proof {
        let sp = spec_enter(d0, line_index as int, caret_column as int);
        assert(document@.lines =~= sp.lines);
        assert(document@ == sp);
    }
    Some(SelectionRange::caret(line_index + 1, 0))
}

/// The document after merging line `i` into the line before it: the
/// previous line keeps its identity and gains the merged text, and line `i`
/// disappears.
pub open spec fn spec_merge(d: DocModel, i: int) -> DocModel
    recommends
        0 < i < d.lines.len(),
{
    let prev = d.lines[i - 1];
    let merged = LineModel {
        id: prev.id,
        indent: prev.indent,
        text: prev.text + d.lines[i].text,
        collapsed: prev.collapsed,
    };
    DocModel { lines: d.lines.update(i - 1, merged).remove(i), next_id: d.next_id }
}

/// Merges the line at `index` into the previous line, appending its text,
/// and returns the previous text's character length for caret placement.
/// Valid only for `0 < index < line count`; anything else is a no-op.
pub fn merge_with_previous(document: &mut Document, index: usize) -> (r: Option<usize>)
    ensures
        0 < index < old(document)@.lines.len() ==> {
            &&& final(document)@ == spec_merge(old(document)@, index as int)
            &&& r == Some(old(document)@.lines[index - 1].text.len() as usize)
        },
        !(0 < index < old(document)@.lines.len()) ==> final(document)@ == old(document)@ && r
            is None,
{
    let ghost d0 = document@;
    if index == 0 || index >= document.lines.len() {
        return None;
    }
    let current = document.lines.remove(index);
    let previous_length = document.lines[index - 1].text.as_str().unicode_len();
    let mut merged_text = document.lines[index - 1].text.clone();
    merged_text.append(current.text.as_str());
    let merged = Line {
        id: document.lines[index - 1].id,
        indent: document.lines[index - 1].indent,
        text: merged_text,
        collapsed: document.lines[index - 1].collapsed,
    };
    document.lines[index - 1] = merged;
    proof {
        let sp = spec_merge(d0, index as int);
        assert(document@.lines =~= sp.lines);
        assert(document@ == sp);
    }
    Some(previous_length)
}

/// The outcome of backspace at column zero on line `i`: outdent by one
/// level when the line's indent is positive; otherwise merge into the
/// previous line when one exists; otherwise nothing.
pub open spec fn spec_backspace(d: DocModel, i: int) -> (DocModel, Option<SelectionRange>) {
    if i < 0 || i >= d.lines.len() {
        (d, None)
    } else if d.lines[i].indent > 0 {
        let outdented = LineModel {
            id: d.lines[i].id,
            indent: (d.lines[i].indent - 1) as usize,
            text: d.lines[i].text,
            collapsed: d.lines[i].collapsed,
        };
        (
            DocModel { lines: d.lines.update(i, outdented), next_id: d.next_id },
            Some(spec_caret(i, 0)),
        )
    } else if i > 0 {
        (spec_merge(d, i), Some(spec_caret(i - 1, d.lines[i - 1].text.len() as int)))
    } else {
        (d, None)
    }
}

/// Backspace at column zero: a line with a nonzero indent outdents by
/// exactly one level (caret stays on the line at column zero); only an
/// indent-zero line merges with the previous line, with the caret placed at
/// the join. The first line at indent zero, or a stale index, is a no-op.
pub fn handle_backspace(document: &mut Document, line_index: usize) -> (r: Option<SelectionRange>)
    ensures
        final(document)@ == spec_backspace(old(document)@, line_index as int).0,
        r == spec_backspace(old(document)@, line_index as int).1,
{
    let ghost d0 = document@;
    if line_index >= document.lines.len() {
        return None;
    }
    let indent = document.lines[line_index].indent;
    if indent > 0 {
        let line = Line {
            id: document.lines[line_index].id,
            indent: indent - 1,
            text: document.lines[line_index].text.clone(),
            collapsed: document.lines[line_index].collapsed,
        };
        document.lines[line_index] = line;
        proof {
            let sp = spec_backspace(d0, line_index as int).0;
            assert(document@.lines =~= sp.lines);
            assert(document@ == sp);
        }
        Some(SelectionRange::caret(line_index, 0))
    } else if line_index > 0 {
        let previous_length = merge_with_previous(document, line_index);
        match previous_length {
            Some(col) => Some(SelectionRange::caret(line_index - 1, col)),
            None => None,
        }
    } else {
        None
    }
}

/// One line after an indent shift by one level: up saturates at the top of
/// the range, down stops at zero.
pub open spec fn shift_line(l: LineModel, increase: bool) -> LineModel {
    LineModel {
        id: l.id,
        indent: if increase {
            if l.indent < usize::MAX {
                (l.indent + 1) as usize
            } else {
                usize::MAX
            }
        } else {
            if l.indent > 0 {
                (l.indent - 1) as usize
            } else {
                0
            }
        },
        text: l.text,
        collapsed: l.collapsed,
    }
}

/// Whether `cur` is `orig` with every line in `[s, upto)` shifted by one
/// indent level and every other line unchanged.
pub open spec fn shifted_upto(
    cur: Seq<LineModel>,
    orig: Seq<LineModel>,
    s: int,
    upto: int,
    increase: bool,
) -> bool {
    forall|j: int| #![trigger cur[j]]
        0 <= j < orig.len() ==> cur[j] == (if s <= j < upto {
            shift_line(orig[j], increase)
        } else {
            orig[j]
        })
}

/// The document after shifting the indent of every line that the selection
/// covers by one level, up or down.
pub open spec fn spec_adjust(d: DocModel, sel: SelectionRange, increase: bool) -> DocModel {
    DocModel {
        lines: Seq::new(
            d.lines.len(),
            |j: int|
                if spec_selected_range(d, sel).0 <= j < spec_selected_range(d, sel).1 {
                    shift_line(d.lines[j], increase)
                } else {
                    d.lines[j]
                },
        ),
        next_id: d.next_id,
    }
}

/// Shifts the indent of every line in the selected line range by one level:
/// up saturating, down stopping at zero. The selection itself is unchanged.
pub fn adjust_indent(document: &mut Document, selection: &SelectionRange, increase: bool)
    ensures
        final(document)@ == spec_adjust(old(document)@, *selection, increase),
{
    let ghost d0 = document@;
    let (start, end) = selected_line_range(document, selection);
    let mut index = start;
    while index < end
        invariant
            start <= index <= end,
            end <= document@.lines.len(),
            document@.lines.len() == d0.lines.len(),
            document@.next_id == d0.next_id,
            (start as int, end as int) == spec_selected_range(d0, *selection),
            shifted_upto(document@.lines, d0.lines, start as int, index as int, increase),
        decreases end - index,
    {
        let ghost cur0 = document@.lines;
        let indent = document.lines[index].indent;
        let new_indent = if increase {
            if indent < usize::MAX {
                indent + 1
            } else {
                usize::MAX
            }
        } else {
            if indent > 0 {
                indent - 1
            } else {
                0
            }
        };
        let line = Line {
            id: document.lines[index].id,
            indent: new_indent,
            text: document.lines[index].text.clone(),
            collapsed: document.lines[index].collapsed,
        };
        document.lines[index] = line;
        proof {
            assert forall|j: int| #![trigger document@.lines[j]]
                0 <= j < d0.lines.len() implies document@.lines[j] == (if start <= j < index + 1 {
                shift_line(d0.lines[j], increase)
            } else {
                d0.lines[j]
            }) by {
                if j == index {
                    assert(cur0[j] == d0.lines[j]);
                } else {
                    assert(document@.lines[j] == cur0[j]);
                }
            }
            assert(shifted_upto(
                document@.lines,
                d0.lines,
                start as int,
                index as int + 1,
                increase,
            ));
        }
        index += 1;
    }
    proof {
        let sp = spec_adjust(d0, *selection, increase);
        assert(document@.lines =~= sp.lines);
        assert(document@ == sp);
    }
}

/// The document after inserting a fresh indent-zero line directly after
/// line `i`.
pub open spec fn spec_insert_root(d: DocModel, i: int) -> DocModel
    recommends
        0 <= i < d.lines.len(),
{
    let fresh = LineModel { id: d.next_id, indent: 0, text: Seq::empty(), collapsed: false };
    DocModel { lines: d.lines.insert(i + 1, fresh), next_id: bump_id(d.next_id) }
}

/// Inserts a new empty indent-zero line directly after the current line,
/// whatever the current line's own indent, and focuses it at column zero.
/// A stale index is a no-op.
pub fn insert_root_line(document: &mut Document, line_index: usize) -> (r: Option<SelectionRange>)
    ensures
        line_index < old(document)@.lines.len() ==> {
            &&& final(document)@ == spec_insert_root(old(document)@, line_index as int)
            &&& r == Some(spec_caret(line_index + 1, 0))
        },
        line_index >= old(document)@.lines.len() ==> final(document)@ == old(document)@ && r
            is None,
{
    let ghost d0 = document@;
    if line_index >= document.lines.len() {
        return None;
    }
    let new_id = document.next_line_id();
    let fresh = Line { id: new_id, indent: 0, text: String::new(), collapsed: false };
    document.lines.insert(line_index + 1, fresh);
    proof {
        let sp = spec_insert_root(d0, line_index as int);
        assert(document@.lines =~= sp.lines);
        assert(document@ == sp);
    }
    Some(SelectionRange::caret(line_index + 1, 0))
}

/// Inserts a new empty line directly after `index`, carrying the indent of
/// the line at `index` (or zero when that line does not exist), and returns
/// the new line's index. The insertion position clamps to the end.
pub fn insert_after(lines: &mut Vec<Line>, index: usize, new_id: LineId) -> (r: usize)
    ensures
        ({
            let ls = lines_model(old(lines)@);
            let pos = if index + 1 <= ls.len() {
                index + 1
            } else {
                ls.len() as int
            };
            let ind = if index < ls.len() {
                ls[index as int].indent
            } else {
                0
            };
            let fresh = LineModel { id: new_id, indent: ind, text: Seq::empty(), collapsed: false };
            &&& r == pos
            &&& lines_model(final(lines)@) == ls.insert(pos, fresh)
        }),
{
    let ghost ls0 = lines_model(lines@);
    let indent = if index < lines.len() {
        lines[index].indent
    } else {
        0
    };
    let insert_pos = if index < lines.len() {
        index + 1
    } else {
        lines.len()
    };
    let fresh = Line { id: new_id, indent, text: String::new(), collapsed: false };
    lines.insert(insert_pos, fresh);
    proof {
        let pos = if index + 1 <= ls0.len() {
            index as int + 1
        } else {
            ls0.len() as int
        };
        assert(lines_model(lines@) =~= ls0.insert(
            pos,
            LineModel { id: new_id, indent, text: Seq::empty(), collapsed: false },
        ));
    }
    insert_pos
}

/// The caret after vertical travel from `i`: one line up or down with the
/// column clamped to the destination line's length, or nothing at the first
/// or last line.
pub open spec fn spec_move_caret(
    d: DocModel,
    i: int,
    direction: MoveDirection,
    col: int,
) -> Option<SelectionRange> {
    match direction {
        MoveDirection::Up => if i > 0 {
            Some(spec_caret(i - 1, spec_clamp_column(d.lines, i - 1, col)))
        } else {
            None
        },
        MoveDirection::Down => if i + 1 < d.lines.len() {
            Some(spec_caret(i + 1, spec_clamp_column(d.lines, i + 1, col)))
        } else {
            None
        },
    }
}

/// Moves the focus one line up or down, clamping the column to the
/// destination line's length; at the first or last line it is a no-op.
pub fn move_caret_vertical(
    document: &Document,
    line_index: usize,
    direction: MoveDirection,
    caret_column: usize,
) -> (r: Option<SelectionRange>)
    ensures
        r == spec_move_caret(document@, line_index as int, direction, caret_column as int),
{
    let new_line_index = match direction {
        MoveDirection::Up => {
            if line_index > 0 {
                line_index - 1
            } else {
                return None;
            }
        },
        MoveDirection::Down => {
            let len = document.lines.len();
            if len > 0 && line_index < len - 1 {
                line_index + 1
            } else {
                return None;
            }
        },
    };
    let clamped_column = clamp_caret_column(document, new_line_index, caret_column);
    Some(SelectionRange::caret(new_line_index, clamped_column))
}

/// The number of whole characters of `s` that fit within a byte budget:
/// the character index that a clamped byte offset denotes.
pub open spec fn chars_within(s: Seq<char>, budget: int) -> int
    decreases s.len(),
{
    if s.len() == 0 || crate::model::char_utf8_width(s[0]) > budget {
        0
    } else {
        1 + chars_within(s.drop_first(), budget - crate::model::char_utf8_width(s[0]))
    }
}

/// The caret column for a byte offset into `text`: the number of whole
/// characters that fit within `byte_offset` bytes, clamping out-of-range
/// offsets to the character count.
pub fn byte_offset_to_column(text: &str, byte_offset: usize) -> (r: usize)
    ensures
        r == chars_within(text@, byte_offset as int),
        r <= text@.len(),
{
    let n = text.unicode_len();
    let mut b: usize = 0;
    let mut k: usize = 0;
    proof {
        assert(text@.skip(0) =~= text@);
    }
    loop
        invariant_except_break
            k <= n,
            n == text@.len(),
            b <= byte_offset,
            chars_within(text@, byte_offset as int) == k + chars_within(
                text@.skip(k as int),
                byte_offset - b,
            ),
        ensures
            k <= n == text@.len(),
            chars_within(text@, byte_offset as int) == k,
        decreases n - k,
    {
        if k >= n {
            proof {
                assert(chars_within(text@.skip(k as int), byte_offset - b) == 0);
            }
            break ;
        }
        let c = text.get_char(k);
        let u = c as u32;
        let w: usize = if u < 0x80 {
            1
        } else if u < 0x800 {
            2
        } else if u < 0x10000 {
            3
        } else {
            4
        };
        proof {
            assert(text@.skip(k as int)[0] == text@[k as int]);
        }
        if byte_offset - b < w {
            proof {
                assert(chars_within(text@.skip(k as int), byte_offset - b) == 0);
            }
            break ;
        }
        proof {
            assert(text@.skip(k as int).drop_first() =~= text@.skip(k as int + 1));
        }
        b += w;
        k += 1;
    }
    k
}

/// The document after replacing line `i`'s text, keeping its identity,
/// indent and collapsed flag.
pub open spec fn spec_set_text(d: DocModel, i: int, text: Seq<char>) -> DocModel {
    if 0 <= i < d.lines.len() {
        let set = LineModel {
            id: d.lines[i].id,
            indent: d.lines[i].indent,
            text,
            collapsed: d.lines[i].collapsed,
        };
        DocModel { lines: d.lines.update(i, set), next_id: d.next_id }
    } else {
        d
    }
}

/// Replaces the text of the line at `line_index` with what the input field
/// now holds, and places the caret at the character column that the byte
/// offset denotes. A stale index changes no line but still moves the caret.
pub fn handle_input(
    document: &mut Document,
    line_index: usize,
    new_text: String,
    cursor_pos_bytes: usize,
) -> (sel: SelectionRange)
    ensures
        final(document)@ == spec_set_text(old(document)@, line_index as int, new_text@),
        sel == spec_caret(line_index as int, chars_within(new_text@, cursor_pos_bytes as int)),
{
    let ghost d0 = document@;
    let cursor_pos_chars = byte_offset_to_column(new_text.as_str(), cursor_pos_bytes);
    if line_index < document.lines.len() {
        let line = Line {
            id: document.lines[line_index].id,
            indent: document.lines[line_index].indent,
            text: new_text,
            collapsed: document.lines[line_index].collapsed,
        };
        document.lines[line_index] = line;
        proof {
            let sp = spec_set_text(d0, line_index as int, line@.text);
            assert(document@.lines =~= sp.lines);
            assert(document@ == sp);
        }
    }
    SelectionRange::caret(line_index, cursor_pos_chars)
}

/// A line's text after a checkbox toggle: `[ ]` becomes `[x]`, and `[x]` or
/// `[X]` becomes `[ ]`; any other text stands as it is.
pub open spec fn spec_toggle_text(t: Seq<char>) -> Seq<char> {
    if t.len() >= 3 && t[0] == '[' && t[1] == ' ' && t[2] == ']' {
        seq!['[', 'x', ']'] + t.skip(3)
    } else if t.len() >= 3 && t[0] == '[' && (t[1] == 'x' || t[1] == 'X') && t[2] == ']' {
        seq!['[', ' ', ']'] + t.skip(3)
    } else {
        t
    }
}

/// The document after toggling the checkbox prefix of line `i`.
pub open spec fn spec_toggle(d: DocModel, i: int) -> DocModel {
    if 0 <= i < d.lines.len() {
        spec_set_text(d, i, spec_toggle_text(d.lines[i].text))
    } else {
        d
    }
}

/// Toggles the checkbox prefix of the line at `line_index`: `[ ]` to `[x]`
/// and back. A line without a checkbox prefix, or a stale index, is a no-op.
proof fn lemma_toggle_noop(d: DocModel, i: int)
    requires
        0 <= i < d.lines.len(),
        spec_toggle_text(d.lines[i].text) == d.lines[i].text,
    ensures
        spec_toggle(d, i) == d,
{
    assert(spec_toggle(d, i).lines =~= d.lines);
}

pub fn toggle_checkbox(document: &mut Document, line_index: usize)
    ensures
        final(document)@ == spec_toggle(old(document)@, line_index as int),
{
    let ghost d0 = document@;
    if line_index >= document.lines.len() {
        return ;
    }
    let n = document.lines[line_index].text.as_str().unicode_len();
    if n < 3 {
        proof {
            lemma_toggle_noop(d0, line_index as int);
        }
        return ;
    }
    let c0 = document.lines[line_index].text.as_str().get_char(0);
    let c1 = document.lines[line_index].text.as_str().get_char(1);
    let c2 = document.lines[line_index].text.as_str().get_char(2);
    if !(c0 == '[' && c2 == ']') {
        proof {
            lemma_toggle_noop(d0, line_index as int);
        }
        return ;
    }
    let replacement = if c1 == ' ' {
        "[x]"
    } else if c1 == 'x' || c1 == 'X' {
        "[ ]"
    } else {
        proof {
            lemma_toggle_noop(d0, line_index as int);
        }
        return ;
    };
    let mut new_text = replacement.to_owned();
    let rest = document.lines[line_index].text.as_str().substring_char(3, n);
    new_text.append(rest);
    let line = Line {
        id: document.lines[line_index].id,
        indent: document.lines[line_index].indent,
        text: new_text,
        collapsed: document.lines[line_index].collapsed,
    };
    proof {
        reveal_strlit("[x]");
        reveal_strlit("[ ]");
        assert(line@.text =~= spec_toggle_text(d0.lines[line_index as int].text));
    }
    document.lines[line_index] = line;
    proof {
        let sp = spec_toggle(d0, line_index as int);
        assert(document@.lines =~= sp.lines);
        assert(document@ == sp);
    }
}

/// The document after flipping the collapsed flag of line `i`.
pub open spec fn spec_toggle_collapse(d: DocModel, i: int) -> DocModel {
    if 0 <= i < d.lines.len() {
        let flipped = LineModel {
            id: d.lines[i].id,
            indent: d.lines[i].indent,
            text: d.lines[i].text,
            collapsed: !d.lines[i].collapsed,
        };
        DocModel { lines: d.lines.update(i, flipped), next_id: d.next_id }
    } else {
        d
    }
}

/// Flips the collapsed flag of the line at `line_index`, hiding or showing
/// its descendants in the visible projection. A stale index is a no-op.
pub fn toggle_collapse(document: &mut Document, line_index: usize)
    ensures
        final(document)@ == spec_toggle_collapse(old(document)@, line_index as int),
{
    let ghost d0 = document@;
    if line_index >= document.lines.len() {
        return ;
    }
    let line = Line {
        id: document.lines[line_index].id,
        indent: document.lines[line_index].indent,
        text: document.lines[line_index].text.clone(),
        collapsed: !document.lines[line_index].collapsed,
    };
    document.lines[line_index] = line;
    proof {
        let sp = spec_toggle_collapse(d0, line_index as int);
        assert(document@.lines =~= sp.lines);
        assert(document@ == sp);
    }
}

/// An indent depth shifted by `delta`, floored at zero and saturating at
/// the top of the range.
pub open spec fn shift_indent(ind: int, delta: int) -> int {
    if ind + delta <= 0 {
        0
    } else if ind + delta >= usize::MAX {
        usize::MAX as int
    } else {
        ind + delta
    }
}

/// The lines after shifting the subtree rooted at `index` by `delta` indent
/// levels. A stale index, or an outdent of a root-level line, changes
/// nothing.
pub open spec fn spec_indent_subtree(ls: Seq<LineModel>, index: int, delta: int) -> Seq<
    LineModel,
> {
    if !(0 <= index < ls.len()) || (ls[index].indent == 0 && delta < 0) {
        ls
    } else {
        Seq::new(
            ls.len(),
            |j: int|
                if index <= j < subtree_end(ls, index) {
                    LineModel {
                        id: ls[j].id,
                        indent: shift_indent(ls[j].indent as int, delta) as usize,
                        text: ls[j].text,
                        collapsed: ls[j].collapsed,
                    }
                } else {
                    ls[j]
                },
        )
    }
}

/// Shifts the line at `index` and its whole subtree by `delta` indent
/// levels, floored at zero. Outdenting a root-level line, or a stale index,
/// is a no-op.
pub fn indent_subtree(lines: &mut Vec<Line>, index: usize, delta: i32)
    ensures
        lines_model(final(lines)@) == spec_indent_subtree(
            lines_model(old(lines)@),
            index as int,
            delta as int,
        ),
{
    let ghost ls0 = lines_model(lines@);
    if index >= lines.len() {
        return ;
    }
    if lines[index].indent == 0 && delta < 0 {
        return ;
    }
    let (_, end) = subtree_range(lines, index);
    let magnitude: usize = if delta >= 0 {
        delta as usize
    } else {
        (-(delta as i64)) as usize
    };
    let mut j = index;
    while j < end
        invariant
            index <= j <= end,
            end <= lines@.len(),
            lines@.len() == ls0.len(),
            end == subtree_end(ls0, index as int),
            index < ls0.len(),
            !(ls0[index as int].indent == 0 && delta < 0),
            magnitude == (if delta >= 0 {
                delta as int
            } else {
                -(delta as int)
            }),
            forall|m: int| #![trigger lines_model(lines@)[m]]
                0 <= m < ls0.len() ==> lines_model(lines@)[m] == spec_indent_subtree(
                    ls0,
                    index as int,
                    delta as int,
                ).take(j as int).add(ls0.skip(j as int))[m],
        decreases end - j,
    {
        let ghost cur0 = lines_model(lines@);
        let indent = lines[j].indent;
        let new_indent: usize = if delta >= 0 {
            if indent <= usize::MAX - magnitude {
                indent + magnitude
            } else {
                usize::MAX
            }
        } else {
            if indent >= magnitude {
                indent - magnitude
            } else {
                0
            }
        };
        let line = Line {
            id: lines[j].id,
            indent: new_indent,
            text: lines[j].text.clone(),
            collapsed: lines[j].collapsed,
        };
        lines[j] = line;
        proof {
            let sp = spec_indent_subtree(ls0, index as int, delta as int);
            assert(cur0[j as int] == ls0[j as int]);
            assert(new_indent as int == shift_indent(ls0[j as int].indent as int, delta as int));
            assert(lines_model(lines@)[j as int] == sp[j as int]);
            assert forall|m: int| #![trigger lines_model(lines@)[m]]
                0 <= m < ls0.len() implies lines_model(lines@)[m] == sp.take(j as int + 1).add(
                ls0.skip(j as int + 1),
            )[m] by {
                if m != j {
                    assert(lines_model(lines@)[m] == cur0[m]);
                    assert(cur0[m] == sp.take(j as int).add(ls0.skip(j as int))[m]);
                }
            }
        }
        j += 1;
    }
    proof {
        let sp = spec_indent_subtree(ls0, index as int, delta as int);
        assert forall|m: int| 0 <= m < ls0.len() implies #[trigger] lines_model(lines@)[m]
            == sp[m] by {
            assert(lines_model(lines@)[m] == sp.take(end as int).add(ls0.skip(end as int))[m]);
            if m >= end {
                assert(sp[m] == ls0[m]);
            }
        }
        assert(lines_model(lines@) =~= sp);
    }
}

/// The outcome of backspace on an empty line: the line and its whole
/// subtree disappear, and focus goes to the previous line (or stays at the
/// start). A line with text, or a stale index, changes nothing and yields
/// no focus target; the last remaining line is kept.
pub open spec fn spec_delete_empty(ls: Seq<LineModel>, index: int) -> (Seq<LineModel>, Option<
    int,
>) {
    if !(0 <= index < ls.len()) {
        (ls, None)
    } else if ls[index].text.len() != 0 {
        (ls, None)
    } else if ls.len() == 1 {
        (ls, Some(0))
    } else {
        (
            ls.take(index) + ls.skip(subtree_end(ls, index)),
            Some(
                if index == 0 {
                    0
                } else {
                    index - 1
                },
            ),
        )
    }
}

/// Backspace on an empty line: removes the line and its entire subtree and
/// returns the index that should receive focus next (the previous line, or
/// the start). A non-empty line, or a stale index, is a no-op with no
/// focus change; the last remaining line is never removed.
pub fn handle_backspace_on_empty(lines: &mut Vec<Line>, index: usize) -> (r: Option<usize>)
    ensures
        lines_model(final(lines)@) == spec_delete_empty(lines_model(old(lines)@), index as int).0,
        match r {
            Some(v) => Some(v as int) == spec_delete_empty(
                lines_model(old(lines)@),
                index as int,
            ).1,
            None => spec_delete_empty(lines_model(old(lines)@), index as int).1 is None,
        },
{
    let ghost ls0 = lines_model(lines@);
    if index >= lines.len() {
        return None;
    }
    if !lines[index].text.as_str().is_empty() {
        return None;
    }
    if lines.len() == 1 {
        return Some(0);
    }
    let (_, end) = subtree_range(lines, index);
    let mut removed: usize = 0;
    let total = end - index;
    while removed < total
        invariant
            removed <= total,
            total == end - index,
            index < end <= ls0.len(),
            lines@.len() == ls0.len() - removed,
            lines_model(lines@) == ls0.take(index as int) + ls0.skip(index as int + removed),
        decreases total - removed,
    {
        let ghost v0 = lines@;
        let _ = lines.remove(index);
        proof {
            assert(lines_model(lines@) =~= lines_model(v0).remove(index as int));
            assert(lines_model(v0).remove(index as int) =~= ls0.take(index as int) + ls0.skip(
                index as int + removed + 1,
            ));
        }
        removed += 1;
    }
    proof {
        assert(lines_model(lines@) =~= ls0.take(index as int) + ls0.skip(end as int));
    }
    if index == 0 {
        Some(0)
    } else {
        Some(index - 1)
    }
}

/// Removes the lines `[start, end)` and returns them as their own vector,
/// in order.
fn extract_block(lines: &mut Vec<Line>, start: usize, end: usize) -> (block: Vec<Line>)
    requires
        start <= end <= old(lines)@.len(),
    ensures
        lines_model(block@) == lines_model(old(lines)@).subrange(start as int, end as int),
        lines_model(final(lines)@) == lines_model(old(lines)@).take(start as int) + lines_model(
            old(lines)@,
        ).skip(end as int),
{
    let ghost ls0 = lines_model(lines@);
    let mut block: Vec<Line> = Vec::new();
    let total = end - start;
    let mut removed: usize = 0;
    while removed < total
        invariant
            removed <= total,
            total == end - start,
            start <= end <= ls0.len(),
            lines@.len() == ls0.len() - removed,
            lines_model(lines@) == ls0.take(start as int) + ls0.skip(start as int + removed),
            lines_model(block@) == ls0.subrange(start as int, start as int + removed),
        decreases total - removed,
    {
        let ghost v0 = lines@;
        let ghost b0 = block@;
        let line = lines.remove(start);
        block.push(line);
        proof {
            assert(line@ == lines_model(v0)[start as int]);
            assert(line@ == ls0[start as int + removed]);
            assert(lines_model(lines@) =~= lines_model(v0).remove(start as int));
            assert(lines_model(v0).remove(start as int) =~= ls0.take(start as int) + ls0.skip(
                start as int + removed + 1,
            ));
            assert(lines_model(block@) =~= lines_model(b0).push(line@));
            assert(lines_model(block@) =~= ls0.subrange(start as int, start as int + removed + 1));
        }
        removed += 1;
    }
    proof {
        assert(lines_model(lines@) =~= ls0.take(start as int) + ls0.skip(end as int));
        assert(lines_model(block@) =~= ls0.subrange(start as int, end as int));
    }
    block
}

/// Inserts the given block of lines at position `at`, keeping its order.
fn insert_block(lines: &mut Vec<Line>, at: usize, block: Vec<Line>)
    requires
        at <= old(lines)@.len(),
    ensures
        lines_model(final(lines)@) == lines_model(old(lines)@).take(at as int) + lines_model(
            block@,
        ) + lines_model(old(lines)@).skip(at as int),
{
    let ghost ls0 = lines_model(lines@);
    let ghost b0 = lines_model(block@);
    let mut block = block;
    while block.len() > 0
        invariant
            lines@.len() == ls0.len() + b0.len() - block@.len(),
            block@.len() <= b0.len(),
            lines_model(block@) == b0.take(block@.len() as int),
            lines_model(lines@) == ls0.take(at as int) + b0.skip(block@.len() as int)
                + ls0.skip(at as int),
            at <= ls0.len(),
        decreases block@.len(),
    {
        let ghost v0 = lines@;
        let ghost c0 = block@;
        let line = block.pop().unwrap();
        lines.insert(at, line);
        proof {
            assert(line == c0[c0.len() - 1]);
            assert(line@ == lines_model(c0)[c0.len() - 1]);
            assert(lines_model(c0) == b0.take(c0.len() as int));
            assert(lines_model(block@) =~= b0.take(block@.len() as int));
            assert(line@ == b0[block@.len() as int]);
            assert(lines_model(lines@) =~= lines_model(v0).insert(at as int, line@));
            assert(lines_model(v0).insert(at as int, line@) =~= ls0.take(at as int) + b0.skip(
                block@.len() as int,
            ) + ls0.skip(at as int));
        }
    }
    proof {
        assert(b0.skip(0) =~= b0);
        assert(lines_model(lines@) =~= ls0.take(at as int) + b0 + ls0.skip(at as int));
    }
}

/// The document after swapping the adjacent line blocks `[a, b)` and
/// `[b, c)`, nothing else moving.
pub open spec fn swap_blocks(ls: Seq<LineModel>, a: int, b: int, c: int) -> Seq<LineModel> {
    ls.take(a) + ls.subrange(b, c) + ls.subrange(a, b) + ls.skip(c)
}

/// The outcome of moving the single line at `i` one step up or down: it
/// swaps array positions with its neighbour, indents and identities
/// untouched, and the caret follows it with a clamped column. At the first
/// or last line, or for a stale index, nothing happens.
pub open spec fn spec_move_line(d: DocModel, i: int, dir: MoveDirection, col: int) -> (
    DocModel,
    Option<SelectionRange>,
) {
    if !(0 <= i < d.lines.len()) {
        (d, None)
    } else {
        match dir {
            MoveDirection::Up => if i > 0 {
                let ls2 = d.lines.update(i, d.lines[i - 1]).update(i - 1, d.lines[i]);
                (
                    DocModel { lines: ls2, next_id: d.next_id },
                    Some(spec_caret(i - 1, spec_clamp_column(ls2, i - 1, col))),
                )
            } else {
                (d, None)
            },
            MoveDirection::Down => if i + 1 < d.lines.len() {
                let ls2 = d.lines.update(i, d.lines[i + 1]).update(i + 1, d.lines[i]);
                (
                    DocModel { lines: ls2, next_id: d.next_id },
                    Some(spec_caret(i + 1, spec_clamp_column(ls2, i + 1, col))),
                )
            } else {
                (d, None)
            },
        }
    }
}

/// Moves the single line at `line_index` one step up or down, swapping
/// array positions with its neighbour without touching any indent or
/// identity. The caret follows the line, its column clamped. Note that
/// moving a line that has children does not carry the children along.
pub fn move_single_line(
    document: &mut Document,
    line_index: usize,
    direction: MoveDirection,
    caret_column: usize,
) -> (r: Option<SelectionRange>)
    ensures
        final(document)@ == spec_move_line(
            old(document)@,
            line_index as int,
            direction,
            caret_column as int,
        ).0,
        r == spec_move_line(old(document)@, line_index as int, direction, caret_column as int).1,
{
    let ghost d0 = document@;
    if line_index >= document.lines.len() {
        return None;
    }
    let new_index = match direction {
        MoveDirection::Up => {
            if line_index == 0 {
                return None;
            }
            line_index - 1
        },
        MoveDirection::Down => {
            if line_index + 1 >= document.lines.len() {
                return None;
            }
            line_index + 1
        },
    };
    let a = document.lines[line_index].clone();
    let b = document.lines[new_index].clone();
    document.lines[line_index] = b;
    document.lines[new_index] = a;
    proof {
        let sp = spec_move_line(d0, line_index as int, direction, caret_column as int).0;
        assert(document@.lines =~= sp.lines);
        assert(document@ == sp);
    }
    let clamped_column = clamp_caret_column(document, new_index, caret_column);
    Some(SelectionRange::caret(new_index, clamped_column))
}

/// The nearest index at or below `j` whose line's indent equals `base`
/// without first meeting a smaller indent, or `-1` if a smaller indent (or
/// the start of the document) comes first.
pub open spec fn prev_sibling(ls: Seq<LineModel>, base: int, j: int) -> int
    decreases j + 1,
{
    if j < 0 {
        -1
    } else if ls[j].indent < base {
        -1
    } else if ls[j].indent == base {
        j
    } else {
        prev_sibling(ls, base, j - 1)
    }
}


/// The outcome of moving the whole subtree at `i` past its nearest sibling
/// subtree (same indent, skipping deeper lines) in the given direction: the
/// two contiguous blocks swap places, no line's indent or identity
/// changing, and the caret follows the moved line with a clamped column.
/// With no sibling in that direction, or a stale index, nothing happens.
pub open spec fn spec_move_subtree(d: DocModel, i: int, dir: MoveDirection, col: int) -> (
    DocModel,
    Option<SelectionRange>,
) {
    if !(0 <= i < d.lines.len()) {
        (d, None)
    } else {
        let base = d.lines[i].indent as int;
        let end = subtree_end(d.lines, i);
        match dir {
            MoveDirection::Up => {
                let p = prev_sibling(d.lines, base, i - 1);
                if p < 0 {
                    (d, None)
                } else {
                    let ls2 = swap_blocks(d.lines, p, i, end);
                    (
                        DocModel { lines: ls2, next_id: d.next_id },
                        Some(spec_caret(p, spec_clamp_column(ls2, p, col))),
                    )
                }
            },
            MoveDirection::Down => {
                if end < d.lines.len() && d.lines[end].indent == base {
                    let next_end = subtree_end(d.lines, end);
                    let ls2 = swap_blocks(d.lines, i, end, next_end);
                    let new_index = i + (next_end - end);
                    (
                        DocModel { lines: ls2, next_id: d.next_id },
                        Some(spec_caret(new_index, spec_clamp_column(ls2, new_index, col))),
                    )
                } else {
                    (d, None)
                }
            },
        }
    }
}

/// Finds the nearest sibling start at or below `from`: the first line
/// scanning backward whose indent equals `base`, unless a smaller indent
/// comes first.
fn find_prev_sibling(lines: &Vec<Line>, base: usize, from: usize) -> (r: Option<usize>)
    requires
        from < lines@.len(),
    ensures
        ({
            let p = prev_sibling(lines_model(lines@), base as int, from as int);
            match r {
                Some(v) => p == v && 0 <= p <= from,
                None => p == -1,
            }
        }),
{
    let ghost ls = lines_model(lines@);
    let mut j = from;
    loop
        invariant
            0 <= j <= from < ls.len(),
            ls == lines_model(lines@),
            prev_sibling(ls, base as int, from as int) == prev_sibling(ls, base as int, j as int),
        decreases j,
    {
        if lines[j].indent < base {
            proof {
                assert(prev_sibling(ls, base as int, j as int) == -1);
            }
            return None;
        }
        if lines[j].indent == base {
            return Some(j);
        }
        if j == 0 {
            proof {
                assert(prev_sibling(ls, base as int, -1) == -1);
                assert(prev_sibling(ls, base as int, 0) == -1);
            }
            return None;
        }
        j -= 1;
    }
}

/// Moves the subtree rooted at `line_index` past the nearest sibling
/// subtree at the same indent in the given direction, skipping any
/// intervening deeper-indented lines; with no such sibling the command is a
/// no-op. No indent or identifier changes; the caret follows the moved
/// line.
pub fn move_subtree(
    document: &mut Document,
    line_index: usize,
    direction: MoveDirection,
    caret_column: usize,
) -> (r: Option<SelectionRange>)
    ensures
        final(document)@ == spec_move_subtree(
            old(document)@,
            line_index as int,
            direction,
            caret_column as int,
        ).0,
        r == spec_move_subtree(old(document)@, line_index as int, direction, caret_column as int).1,
{
    let ghost d0 = document@;
    let ghost ls0 = d0.lines;
    if line_index >= document.lines.len() {
        return None;
    }
    let (start, end) = subtree_range(&document.lines, line_index);
    let base = document.lines[line_index].indent;
    match direction {
        MoveDirection::Up => {
            if start == 0 {
                proof {
                    assert(prev_sibling(ls0, base as int, -1) == -1);
                }
                return None;
            }
            let found = find_prev_sibling(&document.lines, base, start - 1);
            let prev_start: usize = match found {
                Some(p) => p,
                None => {
                    return None;
                },
            };
            let block = extract_block(&mut document.lines, start, end);
            proof {
                assert(lines_model(document.lines@).len() == start + (ls0.len() - end));
            }
            insert_block(&mut document.lines, prev_start, block);
            proof {
                let sp = spec_move_subtree(
                    d0,
                    line_index as int,
                    direction,
                    caret_column as int,
                ).0;
                assert(ls0.take(start as int).take(prev_start as int) =~= ls0.take(
                    prev_start as int,
                ));
                assert((ls0.take(start as int) + ls0.skip(end as int)).take(prev_start as int)
                    =~= ls0.take(prev_start as int));
                assert((ls0.take(start as int) + ls0.skip(end as int)).skip(prev_start as int)
                    =~= ls0.subrange(prev_start as int, start as int) + ls0.skip(end as int));
                assert(document@.lines =~= sp.lines);
                assert(document@ == sp);
            }
            let clamped_column = clamp_caret_column(document, prev_start, caret_column);
            Some(SelectionRange::caret(prev_start, clamped_column))
        },
        MoveDirection::Down => {
            if end >= document.lines.len() {
                return None;
            }
            if document.lines[end].indent != base {
                proof {
                    assert(lines_model(document.lines@)[end as int].indent != base);
                }
                return None;
            }
            let (_, next_end) = subtree_range(&document.lines, end);
            let next_len = next_end - end;
            let block = extract_block(&mut document.lines, start, end);
            let insert_at = start + next_len;
            proof {
                assert(lines_model(document.lines@).len() == start + (ls0.len() - end));
            }
            insert_block(&mut document.lines, insert_at, block);
            proof {
                let sp = spec_move_subtree(
                    d0,
                    line_index as int,
                    direction,
                    caret_column as int,
                ).0;
                assert((ls0.take(start as int) + ls0.skip(end as int)).take(insert_at as int)
                    =~= ls0.take(start as int) + ls0.subrange(end as int, next_end as int));
                assert((ls0.take(start as int) + ls0.skip(end as int)).skip(insert_at as int)
                    =~= ls0.skip(next_end as int));
                assert(document@.lines =~= sp.lines);
                assert(document@ == sp);
            }
            let clamped_column = clamp_caret_column(document, insert_at, caret_column);
            Some(SelectionRange::caret(insert_at, clamped_column))
        },
    }
}

/// An identifier `k` steps past `next`, saturating at the top of the
/// range: the identifier that the `k`-th allocation in a row yields.
pub open spec fn id_plus(next: LineId, k: int) -> LineId {
    if next + k < LineId::MAX {
        (next + k) as LineId
    } else {
        LineId::MAX
    }
}

/// The clones of the block `[start, end)` of `ls`: the same lines with
/// identifiers counting up from `next`.
pub open spec fn clone_block(ls: Seq<LineModel>, next: LineId, start: int, end: int) -> Seq<
    LineModel,
> {
    Seq::new(
        (end - start) as nat,
        |k: int|
            LineModel {
                id: id_plus(next, k),
                indent: ls[start + k].indent,
                text: ls[start + k].text,
                collapsed: ls[start + k].collapsed,
            },
    )
}

/// The outcome of duplicating the subtree at `i`: a clone of the whole
/// block, each clone carrying a freshly allocated identifier, inserted
/// directly before (up) or after (down) the original block; the caret goes
/// to the inserted block's first line with a clamped column. A stale index
/// does nothing.
pub open spec fn spec_duplicate(d: DocModel, i: int, dir: MoveDirection, col: int) -> (
    DocModel,
    Option<SelectionRange>,
) {
    if !(0 <= i < d.lines.len()) {
        (d, None)
    } else {
        let end = subtree_end(d.lines, i);
        let clones = clone_block(d.lines, d.next_id, i, end);
        let at = match dir {
            MoveDirection::Up => i,
            MoveDirection::Down => end,
        };
        let ls2 = d.lines.take(at) + clones + d.lines.skip(at);
        (
            DocModel { lines: ls2, next_id: id_plus(d.next_id, end - i) },
            Some(spec_caret(at, spec_clamp_column(ls2, at, col))),
        )
    }
}

/// Duplicates the subtree rooted at `line_index`: clones the whole block,
/// assigns every clone a freshly allocated identifier, and inserts the
/// clone block directly before (up) or after (down) the original. The
/// caret goes to the first inserted line.
pub fn duplicate_subtree(
    document: &mut Document,
    line_index: usize,
    direction: MoveDirection,
    caret_column: usize,
) -> (r: Option<SelectionRange>)
    ensures
        final(document)@ == spec_duplicate(
            old(document)@,
            line_index as int,
            direction,
            caret_column as int,
        ).0,
        r == spec_duplicate(old(document)@, line_index as int, direction, caret_column as int).1,
{
    let ghost d0 = document@;
    let ghost ls0 = d0.lines;
    if line_index >= document.lines.len() {
        return None;
    }
    let (start, end) = subtree_range(&document.lines, line_index);
    let mut clones: Vec<Line> = Vec::new();
    let mut k = start;
    while k < end
        invariant
            start <= k <= end,
            end <= document@.lines.len(),
            document@.lines == ls0,
            document@.next_id == id_plus(d0.next_id, k - start),
            clones@.len() == k - start,
            forall|m: int| #![trigger clones@[m]]
                0 <= m < clones@.len() ==> clones@[m]@ == clone_block(
                    ls0,
                    d0.next_id,
                    start as int,
                    end as int,
                )[m],
        decreases end - k,
    {
        let ghost c0 = clones@;
        let new_id = document.next_line_id();
        let line = Line {
            id: new_id,
            indent: document.lines[k].indent,
            text: document.lines[k].text.clone(),
            collapsed: document.lines[k].collapsed,
        };
        clones.push(line);
        proof {
            assert forall|m: int| #![trigger clones@[m]]
                0 <= m < clones@.len() implies clones@[m]@ == clone_block(
                ls0,
                d0.next_id,
                start as int,
                end as int,
            )[m] by {
                if m < c0.len() {
                    assert(clones@[m] == c0[m]);
                } else {
                    assert(clones@[m] == line);
                    assert(lines_model(document.lines@)[k as int] == document.lines@[k as int]@);
                    assert(line@.id == id_plus(d0.next_id, m));
                }
            }
        }
        k += 1;
    }
    let insert_at = match direction {
        MoveDirection::Up => start,
        MoveDirection::Down => end,
    };
    proof {
        assert(lines_model(clones@) =~= clone_block(ls0, d0.next_id, start as int, end as int));
    }
    insert_block(&mut document.lines, insert_at, clones);
    proof {
        let sp = spec_duplicate(d0, line_index as int, direction, caret_column as int).0;
        assert(document@.lines =~= sp.lines);
        assert(document@ == sp);
    }
    let clamped_column = clamp_caret_column(document, insert_at, caret_column);
    Some(SelectionRange::caret(insert_at, clamped_column))
}

/// A discrete key intent, as the input layer reports it.
#[derive(Clone, Copy, PartialEq, Eq, Structural, Debug)]
pub enum EditKey {
    Enter,
    Tab,
    ArrowLeft,
    ArrowRight,
    ArrowUp,
    ArrowDown,
    Backspace,
    Space,
    Other,
}

/// The outcome of one key event on (document, selection): the new document,
/// the new selection, and whether the key's default behaviour is consumed.
///
/// The bindings: Enter splits at the caret, and with Shift inserts a new
/// root-level line below; Tab indents the selected lines, and with Shift
/// outdents them, as do Ctrl with the left and right arrows; the vertical
/// arrows move the caret, with Ctrl the single line, with Alt the whole
/// subtree, and with Alt and Shift they duplicate the subtree; Backspace
/// and Space act only at column zero, the one outdenting or merging, the
/// other indenting.
pub open spec fn spec_keydown(
    d: DocModel,
    sel: SelectionRange,
    i: int,
    key: EditKey,
    shift: bool,
    ctrl: bool,
    alt: bool,
) -> (DocModel, SelectionRange, bool) {
    let fallback = if 0 <= i < d.lines.len() {
        d.lines[i].text.len() as int
    } else {
        0
    };
    let col = if sel.focus.line == i {
        sel.focus.column as int
    } else {
        fallback
    };
    match key {
        EditKey::Enter => if shift {
            if 0 <= i < d.lines.len() {
                (spec_insert_root(d, i), spec_caret(i + 1, 0), true)
            } else {
                (d, sel, true)
            }
        } else {
            if 0 <= i < d.lines.len() {
                (spec_enter(d, i, col), spec_caret(i + 1, 0), true)
            } else {
                (d, sel, true)
            }
        },
        EditKey::Tab => (spec_adjust(d, sel, !shift), sel, true),
        EditKey::ArrowLeft => if ctrl {
            (spec_adjust(d, sel, false), sel, true)
        } else {
            (d, sel, false)
        },
        EditKey::ArrowRight => if ctrl {
            (spec_adjust(d, sel, true), sel, true)
        } else {
            (d, sel, false)
        },
        EditKey::ArrowUp => spec_vertical(d, sel, i, MoveDirection::Up, col, shift, ctrl, alt),
        EditKey::ArrowDown => spec_vertical(d, sel, i, MoveDirection::Down, col, shift, ctrl, alt),
        EditKey::Backspace => if col == 0 {
            let out = spec_backspace(d, i);
            (
                out.0,
                match out.1 {
                    Some(s) => s,
                    None => sel,
                },
                true,
            )
        } else {
            (d, sel, false)
        },
        EditKey::Space => if col == 0 {
            (spec_adjust(d, sel, true), sel, true)
        } else {
            (d, sel, false)
        },
        EditKey::Other => (d, sel, false),
    }
}

/// The outcome of a vertical arrow: with Alt and Shift it duplicates the
/// subtree, with Alt alone it moves the subtree, with Ctrl the single line,
/// and unmodified it moves the caret.
pub open spec fn spec_vertical(
    d: DocModel,
    sel: SelectionRange,
    i: int,
    dir: MoveDirection,
    col: int,
    shift: bool,
    ctrl: bool,
    alt: bool,
) -> (DocModel, SelectionRange, bool) {
    if alt && shift {
        let out = spec_duplicate(d, i, dir, col);
        (
            out.0,
            match out.1 {
                Some(s) => s,
                None => sel,
            },
            true,
        )
    } else if alt {
        let out = spec_move_subtree(d, i, dir, col);
        (
            out.0,
            match out.1 {
                Some(s) => s,
                None => sel,
            },
            true,
        )
    } else if ctrl {
        let out = spec_move_line(d, i, dir, col);
        (
            out.0,
            match out.1 {
                Some(s) => s,
                None => sel,
            },
            true,
        )
    } else {
        (
            d,
            match spec_move_caret(d, i, dir, col) {
                Some(s) => s,
                None => sel,
            },
            true,
        )
    }
}

/// Applies one key event to the document and selection. Returns the new
/// selection and whether the event's default behaviour was consumed; the
/// exact outcome per key and modifier combination is [`spec_keydown`].
pub fn handle_keydown(
    document: &mut Document,
    selection: &SelectionRange,
    line_index: usize,
    key: EditKey,
    shift: bool,
    ctrl: bool,
    alt: bool,
) -> (r: (SelectionRange, bool))
    ensures
        ({
            let out = spec_keydown(
                old(document)@,
                *selection,
                line_index as int,
                key,
                shift,
                ctrl,
                alt,
            );
            final(document)@ == out.0 && r.0 == out.1 && r.1 == out.2
        }),
{
    let fallback_len = if line_index < document.lines.len() {
        document.lines[line_index].text.as_str().unicode_len()
    } else {
        0
    };
    let caret_column = current_caret_column(line_index, selection, fallback_len);
    match key {
        EditKey::Enter => {
            let moved = if shift {
                insert_root_line(document, line_index)
            } else {
                handle_enter(document, line_index, caret_column)
            };
            let sel = match moved {
                Some(s) => s,
                None => *selection,
            };
            (sel, true)
        },
        EditKey::Tab => {
            adjust_indent(document, selection, !shift);
            (*selection, true)
        },
        EditKey::ArrowLeft => {
            if ctrl {
                adjust_indent(document, selection, false);
                (*selection, true)
            } else {
                (*selection, false)
            }
        },
        EditKey::ArrowRight => {
            if ctrl {
                adjust_indent(document, selection, true);
                (*selection, true)
            } else {
                (*selection, false)
            }
        },
        EditKey::ArrowUp => vertical_command(
            document,
            selection,
            line_index,
            MoveDirection::Up,
            caret_column,
            shift,
            ctrl,
            alt,
        ),
        EditKey::ArrowDown => vertical_command(
            document,
            selection,
            line_index,
            MoveDirection::Down,
            caret_column,
            shift,
            ctrl,
            alt,
        ),
        EditKey::Backspace => {
            if caret_column == 0 {
                let moved = handle_backspace(document, line_index);
                let sel = match moved {
                    Some(s) => s,
                    None => *selection,
                };
                (sel, true)
            } else {
                (*selection, false)
            }
        },
        EditKey::Space => {
            if caret_column == 0 {
                adjust_indent(document, selection, true);
                (*selection, true)
            } else {
                (*selection, false)
            }
        },
        EditKey::Other => (*selection, false),
    }
}

/// Applies a vertical arrow with its modifier combination; see
/// [`spec_vertical`].
fn vertical_command(
    document: &mut Document,
    selection: &SelectionRange,
    line_index: usize,
    direction: MoveDirection,
    caret_column: usize,
    shift: bool,
    ctrl: bool,
    alt: bool,
) -> (r: (SelectionRange, bool))
    ensures
        ({
            let out = spec_vertical(
                old(document)@,
                *selection,
                line_index as int,
                direction,
                caret_column as int,
                shift,
                ctrl,
                alt,
            );
            final(document)@ == out.0 && r.0 == out.1 && r.1 == out.2
        }),
{
    let moved = if alt && shift {
        duplicate_subtree(document, line_index, direction, caret_column)
    } else if alt {
        move_subtree(document, line_index, direction, caret_column)
    } else if ctrl {
        move_single_line(document, line_index, direction, caret_column)
    } else {
        move_caret_vertical(document, line_index, direction, caret_column)
    };
    let sel = match moved {
        Some(s) => s,
        None => *selection,
    };
    (sel, true)
}

} // verus!
