//! Lexical scanner for a small line-oriented scripting language with C-like
//! operators, string/number literals, and a fixed keyword set.
//!
//! The scanner turns a source text into a sequence of classified tokens, each
//! carrying an exact line/column span and the character-offset range it covers.
//! Trivia (whitespace, comments, newlines) are real tokens in the stream; a
//! downstream parser filters them itself.

use vstd::prelude::*;

pub mod error;
pub mod scanner;
pub mod token;

verus! {

/// A 1-based line/column location in the source text.
///
/// Within a scan, locations are monotonically non-decreasing; the column
/// resets to 1 and the line grows by one exactly once per consumed newline
/// (see `lemma_pos_at_monotone` and `pos_step`).
#[derive(Debug, Clone, Copy, PartialEq, Eq, Structural)]
pub struct Position {
    pub line: u32,
    pub column: u32,
}

/// The location one step past `p`, once the character `c` has been consumed:
/// a newline moves to the start of the next line, anything else moves to the
/// next column of the same line.
pub open spec fn pos_step(p: (int, int), c: char) -> (int, int) {
    if c == '\n' {
        (p.0 + 1, 1)
    } else {
        (p.0, p.1 + 1)
    }
}

/// The location reached from `p` after consuming the characters `src[i..j]`.
pub open spec fn pos_from(src: Seq<char>, i: int, j: int, p: (int, int)) -> (int, int)
    decreases j - i,
{
    if 0 <= i < j <= src.len() {
        pos_from(src, i + 1, j, pos_step(p, src[i]))
    } else {
        p
    }
}

/// The (line, column) location of the character at offset `i` of `src`,
/// counted from (1, 1) at the start of the text.
pub open spec fn pos_at(src: Seq<char>, i: int) -> (int, int) {
    pos_from(src, 0, i, (1, 1))
}

/// `p` holds the location given by the pair `q`.
pub open spec fn pos_is(p: Position, q: (int, int)) -> bool {
    p.line as int == q.0 && p.column as int == q.1
}

/// Location `p` comes no later than `q`, reading the text top to bottom and
/// left to right.
pub open spec fn pos_le(p: (int, int), q: (int, int)) -> bool {
    p.0 < q.0 || (p.0 == q.0 && p.1 <= q.1)
}

/// Extending the consumed range by one character steps the location once.
pub proof fn lemma_pos_from_snoc(src: Seq<char>, i: int, j: int, p: (int, int))
    requires
        0 <= i <= j < src.len(),
    ensures
        pos_from(src, i, j + 1, p) == pos_step(pos_from(src, i, j, p), src[j]),
    decreases j - i,
{
    if i < j {
        lemma_pos_from_snoc(src, i + 1, j, pos_step(p, src[i]));
    } else {
        assert(pos_from(src, j, j + 1, p) == pos_from(src, j + 1, j + 1, pos_step(p, src[j])));
        assert(pos_from(src, j + 1, j + 1, pos_step(p, src[j])) == pos_step(p, src[j]));
    }
}

/// The location of offset `i + 1` is one step past the location of offset `i`.
pub proof fn lemma_pos_at_snoc(src: Seq<char>, i: int)
    requires
        0 <= i < src.len(),
    ensures
        pos_at(src, i + 1) == pos_step(pos_at(src, i), src[i]),
{
    lemma_pos_from_snoc(src, 0, i, (1, 1));
}

/// Lines and columns stay 1-based, and together they never outgrow the number
/// of characters consumed; so both components of `pos_at` fit in a `u32`
/// whenever the source itself is short enough to.
pub proof fn lemma_pos_at_bounds(src: Seq<char>, i: int)
    requires
        0 <= i <= src.len(),
    ensures
        1 <= pos_at(src, i).0,
        1 <= pos_at(src, i).1,
        (pos_at(src, i).0 - 1) + (pos_at(src, i).1 - 1) <= i,
    decreases i,
{
    if i > 0 {
        lemma_pos_at_bounds(src, i - 1);
        lemma_pos_at_snoc(src, i - 1);
    }
}

/// Locations are monotonically non-decreasing along the source: a later
/// offset never maps to an earlier line/column.
pub proof fn lemma_pos_at_monotone(src: Seq<char>, i: int, j: int)
    requires
        0 <= i <= j <= src.len(),
    ensures
        pos_le(pos_at(src, i), pos_at(src, j)),
    decreases j - i,
{
    if i < j {
        lemma_pos_at_monotone(src, i, j - 1);
        lemma_pos_at_snoc(src, j - 1);
    }
}

} // verus!
