//! Document-level laws: statements that relate several operations, proved
//! once and for all over the models that the operations' contracts use.

use crate::edit::{
    clone_block, spec_adjust, spec_duplicate, spec_enter, spec_merge, subtree_end, MoveDirection,
};
use crate::model::{
    leading_indent, spec_render, spec_render_from, spec_render_line, spec_tabs, split_lines,
    split_lines_from, DocModel, LineModel, SelectionRange,
};
use crate::scan::find_char;
use crate::scan::is_indent_char;
use vstd::prelude::*;

verus! {

broadcast use vstd::seq::group_seq_axioms;

/// Splitting a line and merging the two halves back together restores the
/// document's lines exactly: every identifier, indent, text and collapsed
/// flag, for any in-range caret column.
pub proof fn lemma_split_then_merge(d: DocModel, i: int, col: int)
    requires
        0 <= i < d.lines.len(),
        0 <= col <= d.lines[i].text.len(),
    ensures
        spec_merge(spec_enter(d, i, col), i + 1).lines == d.lines,
        spec_merge(spec_enter(d, i, col), i + 1).next_id == crate::edit::bump_id(d.next_id),
{
    assert(d.lines[i].text.take(col) + d.lines[i].text.skip(col) =~= d.lines[i].text);
    assert(spec_merge(spec_enter(d, i, col), i + 1).lines =~= d.lines);
}

/// One outdent pass after another, any number of times: `n` repetitions of
/// the outdent command over one selection.
pub open spec fn iter_outdent(d: DocModel, sel: SelectionRange, n: nat) -> DocModel
    decreases n,
{
    if n == 0 {
        d
    } else {
        spec_adjust(iter_outdent(d, sel, (n - 1) as nat), sel, false)
    }
}

/// Outdenting is idempotent at the floor: a line whose indent is already
/// zero keeps indent zero under any number of outdent passes.
pub proof fn lemma_outdent_floor(d: DocModel, sel: SelectionRange, n: nat, i: int)
    requires
        0 <= i < d.lines.len(),
        d.lines[i].indent == 0,
    ensures
        iter_outdent(d, sel, n).lines.len() == d.lines.len(),
        iter_outdent(d, sel, n).lines[i].indent == 0,
    decreases n,
{
    if n > 0 {
        lemma_outdent_floor(d, sel, (n - 1) as nat, i);
    }
}

/// Duplicating a subtree allocates only fresh identifiers: every clone's
/// identifier differs from every identifier already in the document, the
/// clones' identifiers are pairwise distinct, well-formedness is preserved,
/// and `next_id` grows by exactly the cloned block's length.
pub proof fn lemma_duplicate_fresh_ids(d: DocModel, i: int, dir: MoveDirection, col: int)
    requires
        d.wf(),
        0 <= i < d.lines.len(),
        d.next_id + (subtree_end(d.lines, i) - i) <= crate::model::LineId::MAX,
    ensures
        ({
            let end = subtree_end(d.lines, i);
            let d2 = spec_duplicate(d, i, dir, col).0;
            let clones = clone_block(d.lines, d.next_id, i, end);
            &&& d2.next_id == d.next_id + (end - i)
            &&& d2.wf()
            &&& forall|k: int, j: int|
                #![trigger clones[k], d.lines[j]]
                0 <= k < clones.len() && 0 <= j < d.lines.len() ==> clones[k].id != d.lines[j].id
        }),
{
    let ls = d.lines;
    let end = subtree_end(ls, i);
    crate::edit::lemma_subtree_end_bounds(ls, i);
    let cnt = end - i;
    let clones = clone_block(ls, d.next_id, i, end);
    let d2 = spec_duplicate(d, i, dir, col).0;
    assert forall|k: int| 0 <= k < cnt implies #[trigger] clones[k].id == d.next_id + k by {}
    assert forall|k: int, j: int|
        #![trigger clones[k], d.lines[j]]
        0 <= k < clones.len() && 0 <= j < d.lines.len() implies clones[k].id != d.lines[j].id by {
        assert(d.lines[j].id < d.next_id);
    }
    let at = if dir == MoveDirection::Up {
        i
    } else {
        end
    };
    assert(d2.lines == ls.take(at) + clones + ls.skip(at));
    assert forall|p: int| 0 <= p < d2.lines.len() implies #[trigger] d2.lines[p].id
        < d2.next_id by {
        if at <= p < at + cnt {
            assert(d2.lines[p] == clones[p - at]);
        }
    }
    assert forall|p: int, q: int|
        0 <= p < q < d2.lines.len() implies #[trigger] d2.lines[p].id != #[trigger] d2.lines[q].id
        by {
        if p < at {
            assert(d2.lines[p] == ls[p]);
        } else if p < at + cnt {
            assert(d2.lines[p] == clones[p - at]);
        } else {
            assert(d2.lines[p] == ls[p - cnt]);
        }
        if q < at {
            assert(d2.lines[q] == ls[q]);
        } else if q < at + cnt {
            assert(d2.lines[q] == clones[q - at]);
        } else {
            assert(d2.lines[q] == ls[q - cnt]);
        }
    }
}

/// Splitting a line allocates exactly one fresh identifier, so a
/// well-formed document stays well-formed.
pub proof fn lemma_enter_preserves_wf(d: DocModel, i: int, col: int)
    requires
        d.wf(),
        0 <= i < d.lines.len(),
        d.next_id < crate::model::LineId::MAX,
    ensures
        spec_enter(d, i, col).wf(),
{
    let d2 = spec_enter(d, i, col);
    assert forall|p: int| 0 <= p < d2.lines.len() implies #[trigger] d2.lines[p].id
        < d2.next_id by {
        if p <= i {
            assert(d2.lines[p].id == d.lines[p].id);
        } else if p >= i + 2 {
            assert(d2.lines[p].id == d.lines[p - 1].id);
        }
    }
    assert forall|p: int, q: int|
        0 <= p < q < d2.lines.len() implies #[trigger] d2.lines[p].id != #[trigger] d2.lines[q].id
        by {
        if p <= i {
            assert(d2.lines[p].id == d.lines[p].id);
        } else if p >= i + 2 {
            assert(d2.lines[p].id == d.lines[p - 1].id);
        }
        if q <= i {
            assert(d2.lines[q].id == d.lines[q].id);
        } else if q >= i + 2 {
            assert(d2.lines[q].id == d.lines[q - 1].id);
        }
    }
}

/// Inserting a fresh root-level line allocates exactly one fresh
/// identifier, so a well-formed document stays well-formed.
pub proof fn lemma_insert_root_preserves_wf(d: DocModel, i: int)
    requires
        d.wf(),
        0 <= i < d.lines.len(),
        d.next_id < crate::model::LineId::MAX,
    ensures
        crate::edit::spec_insert_root(d, i).wf(),
{
    let d2 = crate::edit::spec_insert_root(d, i);
    assert forall|p: int| 0 <= p < d2.lines.len() implies #[trigger] d2.lines[p].id
        < d2.next_id by {
        if p <= i {
            assert(d2.lines[p].id == d.lines[p].id);
        } else if p >= i + 2 {
            assert(d2.lines[p].id == d.lines[p - 1].id);
        }
    }
    assert forall|p: int, q: int|
        0 <= p < q < d2.lines.len() implies #[trigger] d2.lines[p].id != #[trigger] d2.lines[q].id
        by {
        if p <= i {
            assert(d2.lines[p].id == d.lines[p].id);
        } else if p >= i + 2 {
            assert(d2.lines[p].id == d.lines[p - 1].id);
        }
        if q <= i {
            assert(d2.lines[q].id == d.lines[q].id);
        } else if q >= i + 2 {
            assert(d2.lines[q].id == d.lines[q - 1].id);
        }
    }
}

/// Whether a line's text survives the save/load round trip in place: it
/// holds no line break, and does not itself start with a character that the
/// loader would count as indent.
pub open spec fn round_trip_line(t: Seq<char>) -> bool {
    &&& forall|j: int| 0 <= j < t.len() ==> t[j] != '\n'
    &&& t.len() > 0 ==> !is_indent_char(t[0])
}

proof fn lemma_tabs(n: int)
    ensures
        spec_tabs(n).len() == (if n >= 0 {
            n
        } else {
            0
        }),
        forall|j: int| 0 <= j < spec_tabs(n).len() ==> spec_tabs(n)[j] == '\t',
    decreases n,
{
    if n > 0 {
        lemma_tabs(n - 1);
    }
}

/// Splitting from position `p` is splitting the suffix from its start.
proof fn lemma_split_shift(s: Seq<char>, p: int)
    requires
        0 <= p <= s.len(),
    ensures
        split_lines_from(s, p) == split_lines(s.skip(p)),
    decreases s.len() - p,
{
    let t = s.skip(p);
    let k = find_char(s, '\n', p);
    crate::scan::lemma_find_char(s, '\n', p);
    assert forall|j: int| 0 <= j < k - p implies t[j] != '\n' by {
        assert(t[j] == s[j + p]);
    }
    if k < s.len() {
        assert(t[k - p] == s[k]);
    }
    crate::scan::lemma_find_char_is(t, '\n', 0, k - p);
    if k >= s.len() {
        assert(t.subrange(0, t.len() as int) =~= s.subrange(p, s.len() as int));
        assert(split_lines_from(s, p) =~= split_lines(t));
    } else {
        lemma_split_shift(s, k + 1);
        lemma_split_shift(t, k - p + 1);
        assert(t.skip(k - p + 1) =~= s.skip(k + 1));
        assert(t.subrange(0, k - p) =~= s.subrange(p, k));
        assert(split_lines(t) == seq![t.subrange(0, k - p)] + split_lines_from(t, k - p + 1));
        assert(split_lines_from(s, p) =~= split_lines(t));
    }
}

/// One rendered line re-splits into its indent and text.
proof fn lemma_segment_reads_back(l: LineModel)
    requires
        round_trip_line(l.text),
    ensures
        leading_indent(spec_render_line(l)) == l.indent,
        spec_render_line(l).skip(l.indent as int) == l.text,
        forall|j: int| 0 <= j < spec_render_line(l).len() ==> spec_render_line(l)[j] != '\n',
{
    let seg = spec_render_line(l);
    let ind = l.indent as int;
    lemma_tabs(ind);
    assert forall|j: int| 0 <= j < ind implies is_indent_char(seg[j]) by {
        assert(seg[j] == spec_tabs(ind)[j]);
    }
    if ind < seg.len() {
        assert(seg[ind] == l.text[0]);
    }
    crate::scan::lemma_indent_end_is(seg, 0, ind);
    assert(seg.skip(ind) =~= l.text);
    assert forall|j: int| 0 <= j < seg.len() implies seg[j] != '\n' by {
        if j >= ind {
            assert(seg[j] == l.text[j - ind]);
        } else {
            assert(seg[j] == spec_tabs(ind)[j]);
        }
    }
}

proof fn lemma_render_split(ls: Seq<LineModel>, from: int)
    requires
        0 <= from < ls.len(),
        forall|i: int| 0 <= i < ls.len() ==> round_trip_line(#[trigger] ls[i].text),
    ensures
        ({
            let segs = split_lines(spec_render_from(ls, from));
            &&& segs.len() == ls.len() - from
            &&& forall|k: int|
                #![trigger segs[k]]
                0 <= k < segs.len() ==> leading_indent(segs[k]) == ls[from + k].indent
                    && segs[k].skip(leading_indent(segs[k])) == ls[from + k].text
        }),
    decreases ls.len() - from,
{
    let s = spec_render_from(ls, from);
    let line = spec_render_line(ls[from]);
    lemma_segment_reads_back(ls[from]);
    if from == ls.len() - 1 {
        crate::scan::lemma_find_char_is(s, '\n', 0, s.len() as int);
        let segs = split_lines(s);
        assert(segs == seq![s.subrange(0, s.len() as int)]);
        assert(segs[0] =~= line);
    } else {
        let rest = spec_render_from(ls, from + 1);
        assert(s == line + seq!['\n'] + rest);
        let brk = line.len() as int;
        assert forall|j: int| 0 <= j < brk implies s[j] != '\n' by {
            assert(s[j] == line[j]);
        }
        assert(s[brk] == '\n');
        crate::scan::lemma_find_char_is(s, '\n', 0, brk);
        lemma_split_shift(s, brk + 1);
        assert(s.skip(brk + 1) =~= rest);
        lemma_render_split(ls, from + 1);
        let segs = split_lines(s);
        assert(segs == seq![s.subrange(0, brk)] + split_lines(rest));
        assert(segs[0] =~= line);
        assert forall|k: int|
            #![trigger segs[k]]
            0 <= k < segs.len() implies leading_indent(segs[k]) == ls[from + k].indent
            && segs[k].skip(leading_indent(segs[k])) == ls[from + k].text by {
            if k > 0 {
                assert(segs[k] == split_lines(rest)[k - 1]);
            } else {
                assert(segs[0] == line);
            }
        }
    }
}

/// Saving and loading reproduces every line's indent and text: the segments
/// that `to_text`'s output splits back into carry exactly the document's
/// indents and texts, whatever whitespace style the document was first
/// loaded from. Lines must not hold a line break nor start with an indent
/// character, which only a text set by hand can introduce.
pub proof fn lemma_text_round_trip(d: DocModel)
    requires
        d.lines.len() > 0,
        forall|i: int| 0 <= i < d.lines.len() ==> round_trip_line(#[trigger] d.lines[i].text),
    ensures
        split_lines(spec_render(d.lines)).len() == d.lines.len(),
        forall|k: int|
            #![trigger split_lines(spec_render(d.lines))[k]]
            0 <= k < d.lines.len() ==> {
                let seg = split_lines(spec_render(d.lines))[k];
                leading_indent(seg) == d.lines[k].indent && seg.skip(leading_indent(seg))
                    == d.lines[k].text
            },
{
    lemma_render_split(d.lines, 0);
}

} // verus!
