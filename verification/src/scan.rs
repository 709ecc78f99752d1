//! Character-scanning helpers shared by the document model and the inline
//! markup parser: forward searches for a given character or character class,
//! and a backward search, each with a characterization lemma.

use vstd::prelude::*;

verus! {

/// Characters that count as one indent unit at load time: space, tab, or
/// full-width space, one unit per character.
pub open spec fn is_indent_char(c: char) -> bool {
    c == ' ' || c == '\t' || c == '\u{3000}'
}

/// Whether `c` has the Unicode `White_Space` property.
pub open spec fn is_space_char(c: char) -> bool {
    ||| c == '\u{9}'
    ||| c == '\u{A}'
    ||| c == '\u{B}'
    ||| c == '\u{C}'
    ||| c == '\u{D}'
    ||| c == ' '
    ||| c == '\u{85}'
    ||| c == '\u{A0}'
    ||| c == '\u{1680}'
    ||| (c as u32 >= 0x2000 && c as u32 <= 0x200A)
    ||| c == '\u{2028}'
    ||| c == '\u{2029}'
    ||| c == '\u{202F}'
    ||| c == '\u{205F}'
    ||| c == '\u{3000}'
}

/// Runtime test for the Unicode `White_Space` property.
pub fn space_char(c: char) -> (b: bool)
    ensures
        b == is_space_char(c),
{
    let u = c as u32;
    (u >= 0x9 && u <= 0xD) || u == 0x20 || u == 0x85 || u == 0xA0 || u == 0x1680 || (u >= 0x2000
        && u <= 0x200A) || u == 0x2028 || u == 0x2029 || u == 0x202F || u == 0x205F || u == 0x3000
}

/// Runtime test for an indent character.
pub fn indent_char(c: char) -> (b: bool)
    ensures
        b == is_indent_char(c),
{
    c == ' ' || c == '\t' || c == '\u{3000}'
}

/// The first index at or after `from` holding `c`, or `s.len()` if there is
/// none.
pub open spec fn find_char(s: Seq<char>, c: char, from: int) -> int
    decreases s.len() - from,
{
    if from < 0 || from >= s.len() {
        s.len() as int
    } else if s[from] == c {
        from
    } else {
        find_char(s, c, from + 1)
    }
}

pub proof fn lemma_find_char(s: Seq<char>, c: char, from: int)
    requires
        0 <= from <= s.len(),
    ensures
        from <= find_char(s, c, from) <= s.len(),
        forall|j: int| from <= j < find_char(s, c, from) ==> s[j] != c,
        find_char(s, c, from) < s.len() ==> s[find_char(s, c, from)] == c,
    decreases s.len() - from,
{
    if from < s.len() && s[from] != c {
        lemma_find_char(s, c, from + 1);
    }
}

/// `find_char` computed: a position with the right properties is the result.
pub proof fn lemma_find_char_is(s: Seq<char>, c: char, from: int, k: int)
    requires
        0 <= from <= k <= s.len(),
        forall|j: int| from <= j < k ==> s[j] != c,
        k < s.len() ==> s[k] == c,
    ensures
        find_char(s, c, from) == k,
    decreases k - from,
{
    if from < k {
        lemma_find_char_is(s, c, from + 1, k);
    }
}

/// The first index at or after `from` holding a whitespace character, or
/// `s.len()` if there is none.
pub open spec fn find_space(s: Seq<char>, from: int) -> int
    decreases s.len() - from,
{
    if from < 0 || from >= s.len() {
        s.len() as int
    } else if is_space_char(s[from]) {
        from
    } else {
        find_space(s, from + 1)
    }
}

pub proof fn lemma_find_space(s: Seq<char>, from: int)
    requires
        0 <= from <= s.len(),
    ensures
        from <= find_space(s, from) <= s.len(),
        forall|j: int| from <= j < find_space(s, from) ==> !is_space_char(s[j]),
        find_space(s, from) < s.len() ==> is_space_char(s[find_space(s, from)]),
    decreases s.len() - from,
{
    if from < s.len() && !is_space_char(s[from]) {
        lemma_find_space(s, from + 1);
    }
}

/// `find_space` computed: a position with the right properties is the result.
pub proof fn lemma_find_space_is(s: Seq<char>, from: int, k: int)
    requires
        0 <= from <= k <= s.len(),
        forall|j: int| from <= j < k ==> !is_space_char(s[j]),
        k < s.len() ==> is_space_char(s[k]),
    ensures
        find_space(s, from) == k,
    decreases k - from,
{
    if from < k {
        lemma_find_space_is(s, from + 1, k);
    }
}

/// The end of the indent run that starts at `from`: the first index at or
/// after `from` holding a non-indent character, or `s.len()`.
pub open spec fn indent_end(s: Seq<char>, from: int) -> int
    decreases s.len() - from,
{
    if from < 0 || from >= s.len() {
        s.len() as int
    } else if !is_indent_char(s[from]) {
        from
    } else {
        indent_end(s, from + 1)
    }
}

/// `indent_end` computed: a position with the right properties is the result.
pub proof fn lemma_indent_end_is(s: Seq<char>, from: int, k: int)
    requires
        0 <= from <= k <= s.len(),
        forall|j: int| from <= j < k ==> is_indent_char(s[j]),
        k < s.len() ==> !is_indent_char(s[k]),
    ensures
        indent_end(s, from) == k,
    decreases k - from,
{
    if from < k {
        lemma_indent_end_is(s, from + 1, k);
    }
}

/// The end of the run of `'#'` characters that starts at `from`: the first
/// index at or after `from` holding another character, or `s.len()`.
pub open spec fn hash_end(s: Seq<char>, from: int) -> int
    decreases s.len() - from,
{
    if from < 0 || from >= s.len() {
        s.len() as int
    } else if s[from] != '#' {
        from
    } else {
        hash_end(s, from + 1)
    }
}

/// `hash_end` computed: a position with the right properties is the result.
pub proof fn lemma_hash_end_is(s: Seq<char>, from: int, k: int)
    requires
        0 <= from <= k <= s.len(),
        forall|j: int| from <= j < k ==> s[j] == '#',
        k < s.len() ==> s[k] != '#',
    ensures
        hash_end(s, from) == k,
    decreases k - from,
{
    if from < k {
        lemma_hash_end_is(s, from + 1, k);
    }
}

/// The last index of `c` in `s`, or `-1` if `c` does not occur.
pub open spec fn rfind_char(s: Seq<char>, c: char) -> int
    decreases s.len(),
{
    if s.len() == 0 {
        -1
    } else if s[s.len() - 1] == c {
        s.len() - 1
    } else {
        rfind_char(s.drop_last(), c)
    }
}

pub proof fn lemma_rfind_char(s: Seq<char>, c: char)
    ensures
        -1 <= rfind_char(s, c) < s.len(),
        rfind_char(s, c) >= 0 ==> s[rfind_char(s, c)] == c,
        forall|j: int| rfind_char(s, c) < j < s.len() ==> s[j] != c,
    decreases s.len(),
{
    if s.len() > 0 && s[s.len() - 1] != c {
        lemma_rfind_char(s.drop_last(), c);
        assert forall|j: int| rfind_char(s, c) < j < s.len() implies s[j] != c by {
            if j < s.len() - 1 {
                assert(s.drop_last()[j] == s[j]);
            }
        }
    }
}

/// `rfind_char` computed: a position with the right properties is the result.
pub proof fn lemma_rfind_char_is(s: Seq<char>, c: char, k: int)
    requires
        -1 <= k < s.len(),
        k >= 0 ==> s[k] == c,
        forall|j: int| k < j < s.len() ==> s[j] != c,
    ensures
        rfind_char(s, c) == k,
    decreases s.len(),
{
    if s.len() > 0 {
        if s[s.len() - 1] == c {
            assert(k == s.len() - 1);
        } else {
            assert(k < s.len() - 1);
            assert forall|j: int| k < j < s.drop_last().len() implies s.drop_last()[j] != c by {
                assert(s.drop_last()[j] == s[j]);
            }
            if k >= 0 {
                assert(s.drop_last()[k] == s[k]);
            }
            lemma_rfind_char_is(s.drop_last(), c, k);
        }
    }
}

} // verus!
