//! The inline markup parser.
//!
//! A single pass over one line's text produces a forest of [`InlineNode`]:
//! text runs, bracketed styles (`[* bold]`, `[/ italic]`, ...), verbatim code
//! spans between backticks, and `#tag` words. Malformed markup is never an
//! error: an unterminated construct degrades to literal text and no character
//! is ever dropped. Line-level prefix detectors (heading, checkbox,
//! alignment) run before inline parsing and strip their own prefix.

use crate::scan::is_space_char;
use vstd::prelude::*;

verus! {

/// One node of the parsed inline-markup forest.
#[derive(Debug, PartialEq)]
pub enum InlineNode {
    Text(String),
    Bold(Vec<InlineNode>),
    Italic(Vec<InlineNode>),
    Strikethrough(Vec<InlineNode>),
    Underline(Vec<InlineNode>),
    Center(Vec<InlineNode>),
    Right(Vec<InlineNode>),
    Quote(Vec<InlineNode>),
    Code(String),
    Tag(String),
}

/// The mathematical value of an [`InlineNode`]: the same tree over character
/// sequences.
pub ghost enum InlineNodeModel {
    Text(Seq<char>),
    Bold(Seq<InlineNodeModel>),
    Italic(Seq<InlineNodeModel>),
    Strikethrough(Seq<InlineNodeModel>),
    Underline(Seq<InlineNodeModel>),
    Center(Seq<InlineNodeModel>),
    Right(Seq<InlineNodeModel>),
    Quote(Seq<InlineNodeModel>),
    Code(Seq<char>),
    Tag(Seq<char>),
}

broadcast use vstd::seq::group_seq_axioms;

impl InlineNode {
    /// The mathematical value of this node.
    pub open spec fn model(self) -> InlineNodeModel
        decreases self,
    {
        match self {
            InlineNode::Text(s) => InlineNodeModel::Text(s@),
            InlineNode::Bold(v) => InlineNodeModel::Bold(forest_model(v@)),
            InlineNode::Italic(v) => InlineNodeModel::Italic(forest_model(v@)),
            InlineNode::Strikethrough(v) => InlineNodeModel::Strikethrough(forest_model(v@)),
            InlineNode::Underline(v) => InlineNodeModel::Underline(forest_model(v@)),
            InlineNode::Center(v) => InlineNodeModel::Center(forest_model(v@)),
            InlineNode::Right(v) => InlineNodeModel::Right(forest_model(v@)),
            InlineNode::Quote(v) => InlineNodeModel::Quote(forest_model(v@)),
            InlineNode::Code(s) => InlineNodeModel::Code(s@),
            InlineNode::Tag(s) => InlineNodeModel::Tag(s@),
        }
    }
}

/// The mathematical value of a forest of inline nodes.
pub open spec fn forest_model(v: Seq<InlineNode>) -> Seq<InlineNodeModel>
    decreases v, v.len(),
{
    if v.len() == 0 {
        Seq::empty()
    } else {
        forest_model(v.subrange(0, v.len() - 1)).push(v[v.len() - 1].model())
    }
}

pub proof fn lemma_forest_model(v: Seq<InlineNode>)
    ensures
        forest_model(v).len() == v.len(),
        forall|i: int| 0 <= i < v.len() ==> forest_model(v)[i] == v[i].model(),
    decreases v.len(),
{
    if v.len() > 0 {
        lemma_forest_model(v.subrange(0, v.len() - 1));
    }
}

/// The characters that may follow `[` to open a bracketed style.
pub open spec fn is_marker(c: char) -> bool {
    c == '*' || c == '/' || c == '-' || c == '_' || c == '|' || c == '>' || c == '"'
}

/// The style node that a marker character denotes.
pub open spec fn marker_node(m: char, children: Seq<InlineNodeModel>) -> InlineNodeModel {
    if m == '*' {
        InlineNodeModel::Bold(children)
    } else if m == '/' {
        InlineNodeModel::Italic(children)
    } else if m == '-' {
        InlineNodeModel::Strikethrough(children)
    } else if m == '_' {
        InlineNodeModel::Underline(children)
    } else if m == '|' {
        InlineNodeModel::Center(children)
    } else if m == '>' {
        InlineNodeModel::Right(children)
    } else {
        InlineNodeModel::Quote(children)
    }
}

/// The pending text-run buffer as zero or one `Text` nodes: consecutive plain
/// characters coalesce into a single node, and an empty buffer emits nothing.
pub open spec fn flush(buf: Seq<char>) -> Seq<InlineNodeModel> {
    if buf.len() == 0 {
        Seq::empty()
    } else {
        seq![InlineNodeModel::Text(buf)]
    }
}

/// The outcome of parsing `s` from some position: the nodes produced, whether
/// a bare `]` closed the construct, and the position just after the consumed
/// input.
pub ghost struct ParseOut {
    pub nodes: Seq<InlineNodeModel>,
    pub closed: bool,
    pub next: int,
}

/// The inline grammar, one character-driven step at a time.
///
/// `i` is the current position, `stop` tells whether a bare `]` closes the
/// current construct, and `buf` is the pending text-run buffer (always the
/// characters since the last node boundary). At each position, in priority
/// order: a backtick opens a verbatim code span, scanned to the next backtick
/// and degrading to literal text when unterminated; `[` followed by a marker
/// and one space opens a nested style whose body must reach a closing `]`,
/// and otherwise stands as literal text; `#` in tag-start position opens a
/// tag running to the next whitespace, empty tags staying literal; any other
/// character joins the text-run buffer.
pub open spec fn spec_parse(s: Seq<char>, i: int, stop: bool, buf: Seq<char>) -> ParseOut
    decreases s.len() - i,
    when i >= 0
    via spec_parse_decreases
{
    if i >= s.len() {
        ParseOut { nodes: flush(buf), closed: false, next: s.len() as int }
    } else if stop && s[i] == ']' {
        ParseOut { nodes: flush(buf), closed: true, next: i + 1 }
    } else if s[i] == '`' {
        let j = crate::scan::find_char(s, '`', i + 1);
        if j < s.len() {
            let rest = spec_parse(s, j + 1, stop, Seq::empty());
            ParseOut {
                nodes: flush(buf) + seq![InlineNodeModel::Code(s.subrange(i + 1, j))]
                    + rest.nodes,
                closed: rest.closed,
                next: rest.next,
            }
        } else {
            ParseOut {
                nodes: flush(buf) + seq![InlineNodeModel::Text(s.subrange(i, s.len() as int))],
                closed: false,
                next: s.len() as int,
            }
        }
    } else if s[i] == '[' {
        if i + 3 <= s.len() && is_marker(s[i + 1]) && s[i + 2] == ' ' {
            let inner = spec_parse(s, i + 3, true, Seq::empty());
            if inner.closed {
                let n = if inner.next < i + 3 {
                    i + 3
                } else if inner.next > s.len() {
                    s.len() as int
                } else {
                    inner.next
                };
                let rest = spec_parse(s, n, stop, Seq::empty());
                ParseOut {
                    nodes: flush(buf) + seq![marker_node(s[i + 1], inner.nodes)] + rest.nodes,
                    closed: rest.closed,
                    next: rest.next,
                }
            } else {
                let rest = spec_parse(s, i + 1, stop, seq!['[']);
                ParseOut { nodes: flush(buf) + rest.nodes, closed: rest.closed, next: rest.next }
            }
        } else {
            let rest = spec_parse(s, i + 1, stop, seq!['[']);
            ParseOut { nodes: flush(buf) + rest.nodes, closed: rest.closed, next: rest.next }
        }
    } else if s[i] == '#' {
        let tag_start = i == 0 || is_space_char(s[i - 1]);
        if tag_start {
            let e = crate::scan::find_space(s, i + 1);
            if e == i + 1 {
                spec_parse(s, i + 1, stop, buf.push('#'))
            } else {
                let rest = spec_parse(s, e, stop, Seq::empty());
                ParseOut {
                    nodes: flush(buf) + seq![InlineNodeModel::Tag(s.subrange(i + 1, e))]
                        + rest.nodes,
                    closed: rest.closed,
                    next: rest.next,
                }
            }
        } else {
            spec_parse(s, i + 1, stop, buf.push('#'))
        }
    } else {
        spec_parse(s, i + 1, stop, buf.push(s[i]))
    }
}

#[via_fn]
proof fn spec_parse_decreases(s: Seq<char>, i: int, stop: bool, buf: Seq<char>) {
    if 0 <= i < s.len() {
        crate::scan::lemma_find_char(s, '`', i + 1);
        crate::scan::lemma_find_space(s, i + 1);
    }
}

/// The position after a parse lies between the start position and the end of
/// the input, and strictly after the closing `]` when one was found.
pub proof fn lemma_spec_parse_next(s: Seq<char>, i: int, stop: bool, buf: Seq<char>)
    requires
        0 <= i <= s.len(),
    ensures
        i <= spec_parse(s, i, stop, buf).next <= s.len(),
        spec_parse(s, i, stop, buf).closed ==> spec_parse(s, i, stop, buf).next >= i + 1,
    decreases s.len() - i,
{
    if i < s.len() {
        if stop && s[i] == ']' {
        } else if s[i] == '`' {
            let j = crate::scan::find_char(s, '`', i + 1);
            crate::scan::lemma_find_char(s, '`', i + 1);
            if j < s.len() {
                lemma_spec_parse_next(s, j + 1, stop, Seq::empty());
            }
        } else if s[i] == '[' {
            if i + 3 <= s.len() && is_marker(s[i + 1]) && s[i + 2] == ' ' {
                let inner = spec_parse(s, i + 3, true, Seq::empty());
                lemma_spec_parse_next(s, i + 3, true, Seq::empty());
                if inner.closed {
                    lemma_spec_parse_next(s, inner.next, stop, Seq::empty());
                } else {
                    lemma_spec_parse_next(s, i + 1, stop, seq!['[']);
                }
            } else {
                lemma_spec_parse_next(s, i + 1, stop, seq!['[']);
            }
        } else if s[i] == '#' {
            let tag_start = i == 0 || is_space_char(s[i - 1]);
            if tag_start {
                let e = crate::scan::find_space(s, i + 1);
                crate::scan::lemma_find_space(s, i + 1);
                if e == i + 1 {
                    lemma_spec_parse_next(s, i + 1, stop, buf.push('#'));
                } else {
                    lemma_spec_parse_next(s, e, stop, Seq::empty());
                }
            } else {
                lemma_spec_parse_next(s, i + 1, stop, buf.push('#'));
            }
        } else {
            lemma_spec_parse_next(s, i + 1, stop, buf.push(s[i]));
        }
    }
}

/// The inline-markup reading of a whole line of text.
pub open spec fn spec_inline(s: Seq<char>) -> Seq<InlineNodeModel> {
    spec_parse(s, 0, false, Seq::empty()).nodes
}

pub proof fn lemma_forest_concat(a: Seq<InlineNode>, b: Seq<InlineNode>)
    ensures
        forest_model(a + b) == forest_model(a) + forest_model(b),
{
    lemma_forest_model(a + b);
    lemma_forest_model(a);
    lemma_forest_model(b);
    assert(forest_model(a + b) =~= forest_model(a) + forest_model(b));
}

pub proof fn lemma_forest_one(x: InlineNode)
    ensures
        forest_model(seq![x]) == seq![x.model()],
{
    lemma_forest_model(seq![x]);
    assert(forest_model(seq![x]) =~= seq![x.model()]);
}

/// The pending text run `s[from..to]`, flushed as a vector of zero or one
/// `Text` nodes.
fn flush_run(s: &str, from: usize, to: usize) -> (v: Vec<InlineNode>)
    requires
        from <= to <= s@.len(),
    ensures
        forest_model(v@) == flush(s@.subrange(from as int, to as int)),
{
    let ghost run = s@.subrange(from as int, to as int);
    let mut v: Vec<InlineNode> = Vec::new();
    if from < to {
        let t = s.substring_char(from, to).to_owned();
        v.push(InlineNode::Text(t));
        proof {
            lemma_forest_model(v@);
            assert(forest_model(v@) =~= flush(run));
        }
    } else {
        proof {
            lemma_forest_model(v@);
            assert(forest_model(v@) =~= flush(run));
        }
    }
    v
}

/// One pass of the inline grammar over `s`, starting at character position
/// `i` with the pending text run `s[buf_start..i]`; `stop_at_closing` tells
/// whether a bare `]` closes the current construct. Returns the parsed
/// forest, whether a `]` closed it, and the position just after the consumed
/// input. The result is exactly [`spec_parse`] on the view of `s`.
pub fn parse_inline_range(s: &str, i: usize, stop_at_closing: bool, buf_start: usize) -> (r: (
    Vec<InlineNode>,
    bool,
    usize,
))
    requires
        buf_start <= i && i <= s@.len(),
    ensures
        ({
            let out = spec_parse(
                s@,
                i as int,
                stop_at_closing,
                s@.subrange(buf_start as int, i as int),
            );
            &&& forest_model(r.0@) == out.nodes
            &&& r.1 == out.closed
            &&& r.2 == out.next
            &&& i <= r.2 <= s@.len()
        }),
    decreases s@.len() - i,
{
    let ghost bufv = s@.subrange(buf_start as int, i as int);
    let ghost out = spec_parse(s@, i as int, stop_at_closing, bufv);
    let n = s.unicode_len();
    if i >= n {
        let v = flush_run(s, buf_start, i);
        return (v, false, n);
    }
    let c = s.get_char(i);
    if stop_at_closing && c == ']' {
        let v = flush_run(s, buf_start, i);
        return (v, true, i + 1);
    }
    if c == '`' {
        let mut v = flush_run(s, buf_start, i);
        let mut j = i + 1;
        while j < n && s.get_char(j) != '`'
            invariant
                i + 1 <= j <= n,
                n == s@.len(),
                forall|k: int| i + 1 <= k < j ==> s@[k] != '`',
            decreases n - j,
        {
            j += 1;
        }
        proof {
            crate::scan::lemma_find_char_is(s@, '`', i as int + 1, j as int);
        }
        let ghost v0 = v@;
        if j < n {
            let code = s.substring_char(i + 1, j).to_owned();
            let node = InlineNode::Code(code);
            v.push(node);
            let ghost v1 = v@;
            let (mut rest, rest_closed, rest_next) = parse_inline_range(s, j + 1, stop_at_closing, j + 1);
            let ghost restv = rest@;
            v.append(&mut rest);
            proof {
                assert(s@.subrange(j as int + 1, j as int + 1) =~= Seq::<char>::empty());
                assert(v1 =~= v0 + seq![node]);
                lemma_forest_concat(v0, seq![node]);
                lemma_forest_one(node);
                lemma_forest_concat(v1, restv);
                assert(forest_model(v@) =~= out.nodes);
            }
            (v, rest_closed, rest_next)
        } else {
            let t = s.substring_char(i, n).to_owned();
            let node = InlineNode::Text(t);
            v.push(node);
            proof {
                assert(v@ =~= v0 + seq![node]);
                lemma_forest_concat(v0, seq![node]);
                lemma_forest_one(node);
                assert(forest_model(v@) =~= out.nodes);
            }
            (v, false, n)
        }
    } else if c == '[' {
        let mut bracket_ok = false;
        let mut marker: char = ' ';
        if n - i > 2 {
            marker = s.get_char(i + 1);
            let after = s.get_char(i + 2);
            bracket_ok = (marker == '*' || marker == '/' || marker == '-' || marker == '_'
                || marker == '|' || marker == '>' || marker == '"') && after == ' ';
        }
        if bracket_ok {
            proof {
                assert(s@.subrange(i as int + 3, i as int + 3) =~= Seq::<char>::empty());
            }
            let (children, inner_closed, inner_next) = parse_inline_range(s, i + 3, true, i + 3);
            proof {
                lemma_spec_parse_next(s@, i as int + 3, true, Seq::empty());
            }
            if inner_closed {
                let mut v = flush_run(s, buf_start, i);
                let node = if marker == '*' {
                    InlineNode::Bold(children)
                } else if marker == '/' {
                    InlineNode::Italic(children)
                } else if marker == '-' {
                    InlineNode::Strikethrough(children)
                } else if marker == '_' {
                    InlineNode::Underline(children)
                } else if marker == '|' {
                    InlineNode::Center(children)
                } else if marker == '>' {
                    InlineNode::Right(children)
                } else {
                    InlineNode::Quote(children)
                };
                let ghost v0 = v@;
                v.push(node);
                let ghost v1 = v@;
                let (mut rest, rest_closed, rest_next) = parse_inline_range(
                    s,
                    inner_next,
                    stop_at_closing,
                    inner_next,
                );
                let ghost restv = rest@;
                v.append(&mut rest);
                proof {
                    assert(s@.subrange(inner_next as int, inner_next as int)
                        =~= Seq::<char>::empty());
                    assert(v1 =~= v0 + seq![node]);
                    lemma_forest_concat(v0, seq![node]);
                    lemma_forest_one(node);
                    lemma_forest_concat(v1, restv);
                    assert(forest_model(v@) =~= out.nodes);
                }
                (v, rest_closed, rest_next)
            } else {
                let mut v = flush_run(s, buf_start, i);
                let ghost v0 = v@;
                let (mut rest, rest_closed, rest_next) = parse_inline_range(
                    s,
                    i + 1,
                    stop_at_closing,
                    i,
                );
                let ghost restv = rest@;
                v.append(&mut rest);
                proof {
                    assert(s@.subrange(i as int, i as int + 1) =~= seq!['[']);
                    lemma_forest_concat(v0, restv);
                    assert(forest_model(v@) =~= out.nodes);
                }
                (v, rest_closed, rest_next)
            }
        } else {
            let mut v = flush_run(s, buf_start, i);
            let ghost v0 = v@;
            let (mut rest, rest_closed, rest_next) = parse_inline_range(
                s,
                i + 1,
                stop_at_closing,
                i,
            );
            let ghost restv = rest@;
            v.append(&mut rest);
            proof {
                assert(s@.subrange(i as int, i as int + 1) =~= seq!['[']);
                lemma_forest_concat(v0, restv);
                assert(forest_model(v@) =~= out.nodes);
            }
            (v, rest_closed, rest_next)
        }
    } else if c == '#' {
        let tag_start = if i == 0 {
            true
        } else {
            crate::scan::space_char(s.get_char(i - 1))
        };
        if tag_start {
            let mut e = i + 1;
            while e < n && !crate::scan::space_char(s.get_char(e))
                invariant
                    i + 1 <= e <= n,
                    n == s@.len(),
                    forall|k: int| i + 1 <= k < e ==> !is_space_char(s@[k]),
                decreases n - e,
            {
                e += 1;
            }
            proof {
                crate::scan::lemma_find_space_is(s@, i as int + 1, e as int);
            }
            if e == i + 1 {
                proof {
                    assert(s@.subrange(buf_start as int, i as int + 1) =~= bufv.push(s@[i as int]));
                }
                parse_inline_range(s, i + 1, stop_at_closing, buf_start)
            } else {
                let mut v = flush_run(s, buf_start, i);
                let tag = s.substring_char(i + 1, e).to_owned();
                let node = InlineNode::Tag(tag);
                let ghost v0 = v@;
                v.push(node);
                let ghost v1 = v@;
                let (mut rest, rest_closed, rest_next) = parse_inline_range(
                    s,
                    e,
                    stop_at_closing,
                    e,
                );
                let ghost restv = rest@;
                v.append(&mut rest);
                proof {
                    assert(s@.subrange(e as int, e as int) =~= Seq::<char>::empty());
                    assert(v1 =~= v0 + seq![node]);
                    lemma_forest_concat(v0, seq![node]);
                    lemma_forest_one(node);
                    lemma_forest_concat(v1, restv);
                    assert(forest_model(v@) =~= out.nodes);
                }
                (v, rest_closed, rest_next)
            }
        } else {
            proof {
                assert(s@.subrange(buf_start as int, i as int + 1) =~= bufv.push(s@[i as int]));
            }
            parse_inline_range(s, i + 1, stop_at_closing, buf_start)
        }
    } else {
        proof {
            assert(s@.subrange(buf_start as int, i as int + 1) =~= bufv.push(s@[i as int]));
        }
        parse_inline_range(s, i + 1, stop_at_closing, buf_start)
    }
}

/// Parses one line's text into its inline-markup forest.
pub fn parse_inline_nodes(text: &str) -> (v: Vec<InlineNode>)
    ensures
        forest_model(v@) == spec_inline(text@),
{
    proof {
        assert(text@.subrange(0, 0) =~= Seq::<char>::empty());
    }
    let (v, _, _) = parse_inline_range(text, 0, false, 0);
    v
}

/// Alignment read from a line-level prefix.
#[derive(Clone, Copy, PartialEq, Eq, Structural, Debug)]
pub enum LineAlignment {
    Plain,
    Center,
    Right,
}

/// The character position just after the last `]` at or after `from`, or
/// `s.len()` when there is none there.
fn rfind_close(text: &str, from: usize) -> (r: usize)
    requires
        from <= text@.len(),
    ensures
        ({
            let cl = crate::scan::rfind_char(text@.skip(from as int), ']');
            r == (if cl < 0 {
                text@.len() as int
            } else {
                from + cl
            })
        }),
{
    let n = text.unicode_len();
    let ghost tail = text@.skip(from as int);
    let mut close_at: usize = n;
    let mut m = from;
    while m < n
        invariant
            from <= m <= n,
            n == text@.len(),
            close_at == n || (from <= close_at < m && text@[close_at as int] == ']'),
            forall|j: int| from <= j < m && text@[j] == ']' ==> close_at != n && j <= close_at,
        decreases n - m,
    {
        if text.get_char(m) == ']' {
            close_at = m;
        }
        m += 1;
    }
    proof {
        if close_at < n {
            assert(tail[close_at - from] == text@[close_at as int]);
            assert forall|j: int| close_at - from < j < tail.len() implies tail[j] != ']' by {
                assert(tail[j] == text@[j + from]);
            }
            crate::scan::lemma_rfind_char_is(tail, ']', close_at - from);
        } else {
            assert forall|j: int| -1 < j < tail.len() implies tail[j] != ']' by {
                assert(tail[j] == text@[j + from]);
            }
            crate::scan::lemma_rfind_char_is(tail, ']', -1);
        }
    }
    close_at
}

/// The heading reading of a line: `[` then one to six `#`, one space, and a
/// last `]`; the level is the hash count and the content sits between the
/// space and the last `]`.
pub open spec fn spec_heading(s: Seq<char>) -> Option<(int, Seq<char>)> {
    if s.len() == 0 || s[0] != '[' {
        None
    } else {
        let e = crate::scan::hash_end(s, 1);
        let h = e - 1;
        if h < 1 || h > 6 {
            None
        } else if e >= s.len() || s[e] != ' ' {
            None
        } else {
            let cl = crate::scan::rfind_char(s.skip(e + 1), ']');
            if cl < 0 {
                None
            } else {
                Some((h, s.subrange(e + 1, e + 1 + cl)))
            }
        }
    }
}

/// Reads a heading prefix: the level and the content, or nothing when the
/// line is no heading.
pub fn parse_heading_line<'a>(text: &'a str) -> (r: Option<(usize, &'a str)>)
    ensures
        ({
            let sp = spec_heading(text@);
            match r {
                None => sp is None,
                Some((level, content)) => sp == Some((level as int, content@)),
            }
        }),
{
    let n = text.unicode_len();
    if n == 0 || text.get_char(0) != '[' {
        return None;
    }
    let mut e: usize = 1;
    while e < n && text.get_char(e) == '#'
        invariant
            1 <= e <= n,
            n == text@.len(),
            forall|j: int| 1 <= j < e ==> text@[j] == '#',
        decreases n - e,
    {
        e += 1;
    }
    proof {
        crate::scan::lemma_hash_end_is(text@, 1, e as int);
    }
    let h = e - 1;
    if h < 1 || h > 6 {
        return None;
    }
    if e >= n || text.get_char(e) != ' ' {
        return None;
    }
    let close_at = rfind_close(text, e + 1);
    proof {
        crate::scan::lemma_rfind_char(text@.skip(e as int + 1), ']');
    }
    if close_at == n {
        return None;
    }
    Some((h, text.substring_char(e + 1, close_at)))
}

/// The checkbox reading of a line: a literal `[ ]`, `[x]` or `[X]` prefix,
/// optionally followed by one space, and then the label.
pub open spec fn spec_checkbox(s: Seq<char>) -> Option<(bool, Seq<char>)> {
    if s.len() >= 3 && s[0] == '[' && s[2] == ']' && (s[1] == ' ' || s[1] == 'x' || s[1]
        == 'X') {
        let checked = s[1] == 'x' || s[1] == 'X';
        if s.len() > 3 && s[3] == ' ' {
            Some((checked, s.skip(4)))
        } else {
            Some((checked, s.skip(3)))
        }
    } else {
        None
    }
}

/// Reads a checkbox prefix: the checked state and the label, or nothing when
/// the line is no checkbox.
pub fn parse_checkbox_line<'a>(text: &'a str) -> (r: Option<(bool, &'a str)>)
    ensures
        ({
            let sp = spec_checkbox(text@);
            match r {
                None => sp is None,
                Some((checked, content)) => sp == Some((checked, content@)),
            }
        }),
{
    let n = text.unicode_len();
    if n < 3 || text.get_char(0) != '[' || text.get_char(2) != ']' {
        return None;
    }
    let mid = text.get_char(1);
    if !(mid == ' ' || mid == 'x' || mid == 'X') {
        return None;
    }
    let checked = mid == 'x' || mid == 'X';
    let start = if n > 3 && text.get_char(3) == ' ' {
        4
    } else {
        3
    };
    proof {
        assert(text@.subrange(start as int, n as int) =~= text@.skip(start as int));
    }
    Some((checked, text.substring_char(start, n)))
}

/// The alignment reading of a line: a literal `[| ` (center) or `[> ` (right)
/// prefix with a matching last `]` wraps the content; any other line stands
/// as it is.
pub open spec fn spec_alignment(s: Seq<char>) -> (LineAlignment, Seq<char>) {
    if s.len() >= 3 && s[0] == '[' && s[1] == '|' && s[2] == ' ' && crate::scan::rfind_char(
        s.skip(3),
        ']',
    ) >= 0 {
        (LineAlignment::Center, s.subrange(3, 3 + crate::scan::rfind_char(s.skip(3), ']')))
    } else if s.len() >= 3 && s[0] == '[' && s[1] == '>' && s[2] == ' '
        && crate::scan::rfind_char(s.skip(3), ']') >= 0 {
        (LineAlignment::Right, s.subrange(3, 3 + crate::scan::rfind_char(s.skip(3), ']')))
    } else {
        (LineAlignment::Plain, s)
    }
}

/// Reads an alignment prefix: the alignment and the wrapped content, or the
/// whole line unchanged when no prefix matches.
pub fn parse_alignment_prefix<'a>(text: &'a str) -> (r: (LineAlignment, &'a str))
    ensures
        ({
            let sp = spec_alignment(text@);
            r.0 == sp.0 && r.1@ == sp.1
        }),
{
    let n = text.unicode_len();
    if n >= 3 && text.get_char(0) == '[' && text.get_char(2) == ' ' {
        let mid = text.get_char(1);
        if mid == '|' || mid == '>' {
            let close_at = rfind_close(text, 3);
            proof {
                crate::scan::lemma_rfind_char(text@.skip(3), ']');
            }
            if close_at < n {
                let content = text.substring_char(3, close_at);
                let alignment = if mid == '|' {
                    LineAlignment::Center
                } else {
                    LineAlignment::Right
                };
                return (alignment, content);
            }
        }
    }
    (LineAlignment::Plain, text)
}

} // verus!
