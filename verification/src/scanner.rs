//! The scanner: a single-pass, lookahead-bounded tokenizer with exact
//! line/column tracking.
//!
//! The whole tokenization policy is stated once, as the spec function
//! [`spec_scan`]: given the source and a character offset, it names the token
//! that starts there (with its end offset), the fault met, or the clean end
//! of input. Every pull of the executable [`Scanner`] is proved to agree
//! with it.

use vstd::prelude::*;

use crate::error::PseudoError;
use crate::token::{parse_keyword, spec_keyword, SpecTokenType, Token, TokenType};
use crate::{pos_at, pos_is, pos_step, Position};
use crate::{lemma_pos_at_bounds, lemma_pos_at_snoc};

verus! {

/// An ASCII decimal digit. Only these continue a number literal; other
/// characters that Unicode counts as numeric are not part of the language.
pub open spec fn is_digit_char(c: char) -> bool {
    '0' <= c && c <= '9'
}

/// A basic alphabetic character. Identifiers are maximal runs of these
/// alone: no digits, no underscores, no Unicode letters — a deliberate
/// restriction of the language, not an oversight.
pub open spec fn is_alpha_char(c: char) -> bool {
    ('a' <= c && c <= 'z') || ('A' <= c && c <= 'Z')
}

/// A horizontal whitespace character: space, carriage return or tab.
/// A maximal run of these forms one `WHITESPACE` token; `'\n'` is its own
/// `NEWLINE` token.
pub open spec fn is_blank_char(c: char) -> bool {
    c == ' ' || c == '\r' || c == '\t'
}

/// The character sets whose maximal runs the scanner consumes.
pub enum CharClass {
    Digit,
    Alpha,
    Blank,
    NotNewline,
    NotQuote,
}

/// Whether `c` belongs to the class `cls`.
pub open spec fn char_in_class(c: char, cls: CharClass) -> bool {
    match cls {
        CharClass::Digit => is_digit_char(c),
        CharClass::Alpha => is_alpha_char(c),
        CharClass::Blank => is_blank_char(c),
        CharClass::NotNewline => c != '\n',
        CharClass::NotQuote => c != '"',
    }
}

/// The first offset at or after `i` whose character falls outside `cls`
/// (or the end of the source): the end of the maximal run of `cls`
/// characters starting at `i`.
pub open spec fn run_end(src: Seq<char>, i: int, cls: CharClass) -> int
    decreases src.len() - i,
{
    if 0 <= i < src.len() && char_in_class(src[i], cls) {
        run_end(src, i + 1, cls)
    } else {
        i
    }
}

/// What makes `run_end` the maximal run: everything before it is in the
/// class, and it stops only at the end of input or on a character outside
/// the class.
pub proof fn lemma_run_end(src: Seq<char>, i: int, cls: CharClass)
    requires
        0 <= i <= src.len(),
    ensures
        i <= run_end(src, i, cls) <= src.len(),
        forall|k: int| i <= k < run_end(src, i, cls) ==> char_in_class(src[k], cls),
        run_end(src, i, cls) == src.len() || !char_in_class(src[run_end(src, i, cls)], cls),
    decreases src.len() - i,
{
    if i < src.len() && char_in_class(src[i], cls) {
        lemma_run_end(src, i + 1, cls);
    }
}

/// The value of a string of decimal digits, most significant first.
pub open spec fn digits_val(s: Seq<char>) -> int
    decreases s.len(),
{
    if s.len() == 0 {
        0
    } else {
        digits_val(s.drop_last()) * 10 + (s.last() as int - '0' as int)
    }
}

/// A prefix of a digit string never has a larger value than the whole.
pub proof fn lemma_digits_val_prefix(s: Seq<char>, m: int)
    requires
        0 <= m <= s.len(),
        forall|k: int| 0 <= k < s.len() ==> is_digit_char(s[k]),
    ensures
        digits_val(s.take(m)) <= digits_val(s),
    decreases s.len() - m,
{
    if m < s.len() {
        assert(s.take(m + 1).drop_last() =~= s.take(m));
        assert(s.take(m + 1).last() == s[m]);
        assert(forall|k: int| 0 <= k < s.take(m).len() ==> is_digit_char(s.take(m)[k]));
        lemma_digits_val_grows(s.take(m));
        assert(digits_val(s.take(m)) <= digits_val(s.take(m + 1)));
        lemma_digits_val_prefix(s, m + 1);
    } else {
        assert(s.take(m) =~= s);
    }
}

/// A digit string's value is non-negative, and never shrinks as the string
/// grows to the right.
pub proof fn lemma_digits_val_grows(s: Seq<char>)
    requires
        forall|k: int| 0 <= k < s.len() ==> is_digit_char(s[k]),
    ensures
        0 <= digits_val(s),
        s.len() > 0 ==> digits_val(s.drop_last()) <= digits_val(s),
    decreases s.len(),
{
    if s.len() > 0 {
        assert(forall|k: int| 0 <= k < s.drop_last().len() ==> is_digit_char(s.drop_last()[k]));
        lemma_digits_val_grows(s.drop_last());
        assert('0' as int <= s.last() as int <= '9' as int);
    }
}

/// The `Position` value for the spec-level location `p`.
pub open spec fn make_pos(p: (int, int)) -> Position {
    Position { line: p.0 as u32, column: p.1 as u32 }
}

/// The outcome of one pull: a token of the given shape covering the source
/// up to the given end offset, a fault, or the clean end of the input.
pub enum SpecStep {
    Tok(SpecTokenType, int),
    Fail(PseudoError),
    End,
}

/// The string-literal rule, for `src[i] == '"'`: consume through the
/// closing quote — newlines included, strings may span lines — and carry
/// the text strictly between the quotes; reaching the end of input first is
/// an `UnterminatedString` fault at the end location.
pub open spec fn spec_scan_string(src: Seq<char>, i: int) -> SpecStep {
    let j = run_end(src, i + 1, CharClass::NotQuote);
    if j >= src.len() {
        SpecStep::Fail(PseudoError::UnterminatedString(make_pos(pos_at(src, src.len() as int))))
    } else {
        SpecStep::Tok(SpecTokenType::STRING(src.subrange(i + 1, j)), j + 1)
    }
}

/// The number rule, for `src[i]` a digit: a maximal digit run; then, if a
/// dot follows, the dot and a further maximal digit run make a float (a
/// trailing dot with no digits after it is accepted as part of the float
/// form), whose payload is the literal's exact text. Otherwise the digits
/// make an integer, whose value must fit a signed 128-bit integer; a wider
/// value is an `IntegerOverflow` fault at the location past the digits.
pub open spec fn spec_scan_number(src: Seq<char>, i: int) -> SpecStep {
    let d = run_end(src, i, CharClass::Digit);
    if d < src.len() && src[d] == '.' {
        let e = run_end(src, d + 1, CharClass::Digit);
        SpecStep::Tok(SpecTokenType::FLOAT(src.subrange(i, e)), e)
    } else {
        let v = digits_val(src.subrange(i, d));
        if v <= i128::MAX as int {
            SpecStep::Tok(SpecTokenType::INTEGER(v), d)
        } else {
            SpecStep::Fail(PseudoError::IntegerOverflow(make_pos(pos_at(src, d))))
        }
    }
}

/// The identifier/keyword rule, for `src[i]` alphabetic: a maximal
/// alphabetic run, a keyword exactly when the keyword table has its exact
/// spelling.
pub open spec fn spec_scan_word(src: Seq<char>, i: int) -> SpecStep {
    let e = run_end(src, i, CharClass::Alpha);
    match spec_keyword(src.subrange(i, e)) {
        Some(k) => SpecStep::Tok(k, e),
        None => SpecStep::Tok(SpecTokenType::IDENTIFIER(src.subrange(i, e)), e),
    }
}

/// The whole tokenization policy, one pull at a time: the outcome of
/// scanning at offset `i` of `src`.
///
/// Single characters map to their fixed kinds; `! = < >` greedily take a
/// following `=`; `//` opens a line comment running up to (not including)
/// the newline; `"` opens a string literal; a digit, or a dot followed by a
/// digit, opens a number; an alphabetic character opens an identifier or
/// keyword; a run of space/CR/tab is one whitespace token; `'\n'` is a
/// newline token. Any other character is an `UnexpectedCharacter` fault,
/// located just past the character.
pub open spec fn spec_scan(src: Seq<char>, i: int) -> SpecStep {
    if !(0 <= i < src.len()) {
        SpecStep::End
    } else {
        let c = src[i];
        if c == '(' {
            SpecStep::Tok(SpecTokenType::LPAREN, i + 1)
        } else if c == ')' {
            SpecStep::Tok(SpecTokenType::RPAREN, i + 1)
        } else if c == '{' {
            SpecStep::Tok(SpecTokenType::LBRACE, i + 1)
        } else if c == '}' {
            SpecStep::Tok(SpecTokenType::RBRACE, i + 1)
        } else if c == ',' {
            SpecStep::Tok(SpecTokenType::COMMA, i + 1)
        } else if c == '-' {
            SpecStep::Tok(SpecTokenType::MINUS, i + 1)
        } else if c == '+' {
            SpecStep::Tok(SpecTokenType::PLUS, i + 1)
        } else if c == ';' {
            SpecStep::Tok(SpecTokenType::SEMICOLON, i + 1)
        } else if c == '*' {
            SpecStep::Tok(SpecTokenType::STAR, i + 1)
        } else if c == '!' {
            if i + 1 < src.len() && src[i + 1] == '=' {
                SpecStep::Tok(SpecTokenType::NEQUAL, i + 2)
            } else {
                SpecStep::Tok(SpecTokenType::NOT, i + 1)
            }
        } else if c == '=' {
            if i + 1 < src.len() && src[i + 1] == '=' {
                SpecStep::Tok(SpecTokenType::EEQUAL, i + 2)
            } else {
                SpecStep::Tok(SpecTokenType::EQUAL, i + 1)
            }
        } else if c == '<' {
            if i + 1 < src.len() && src[i + 1] == '=' {
                SpecStep::Tok(SpecTokenType::LEQUAL, i + 2)
            } else {
                SpecStep::Tok(SpecTokenType::LESS, i + 1)
            }
        } else if c == '>' {
            if i + 1 < src.len() && src[i + 1] == '=' {
                SpecStep::Tok(SpecTokenType::GEQUAL, i + 2)
            } else {
                SpecStep::Tok(SpecTokenType::GREATER, i + 1)
            }
        } else if c == '/' {
            if i + 1 < src.len() && src[i + 1] == '/' {
                SpecStep::Tok(SpecTokenType::COMMENT, run_end(src, i + 2, CharClass::NotNewline))
            } else {
                SpecStep::Tok(SpecTokenType::SLASH, i + 1)
            }
        } else if c == '"' {
            spec_scan_string(src, i)
        } else if c == '.' {
            if i + 1 < src.len() && is_digit_char(src[i + 1]) {
                let e = run_end(src, i + 1, CharClass::Digit);
                SpecStep::Tok(SpecTokenType::FLOAT(src.subrange(i, e)), e)
            } else {
                SpecStep::Tok(SpecTokenType::DOT, i + 1)
            }
        } else if is_blank_char(c) {
            SpecStep::Tok(SpecTokenType::WHITESPACE, run_end(src, i, CharClass::Blank))
        } else if c == '\n' {
            SpecStep::Tok(SpecTokenType::NEWLINE, i + 1)
        } else if is_digit_char(c) {
            spec_scan_number(src, i)
        } else if is_alpha_char(c) {
            spec_scan_word(src, i)
        } else {
            SpecStep::Fail(
                PseudoError::UnexpectedCharacter(c, make_pos(pos_step(pos_at(src, i), c))),
            )
        }
    }
}

/// Every token covers at least one character and stays inside the source,
/// and the end of the stream is reported only at the end of the source.
pub proof fn lemma_spec_scan_progress(src: Seq<char>, i: int)
    requires
        0 <= i <= src.len(),
    ensures
        match spec_scan(src, i) {
            SpecStep::Tok(t, end) => i < end <= src.len(),
            SpecStep::Fail(e) => true,
            SpecStep::End => i == src.len(),
        },
{
    if i < src.len() {
        lemma_run_end(src, i, CharClass::Digit);
        lemma_run_end(src, i, CharClass::Alpha);
        lemma_run_end(src, i, CharClass::Blank);
        if i + 1 <= src.len() {
            lemma_run_end(src, i + 1, CharClass::Digit);
            lemma_run_end(src, i + 1, CharClass::NotQuote);
        }
        if i + 2 <= src.len() {
            lemma_run_end(src, i + 2, CharClass::NotNewline);
        }
        let d = run_end(src, i, CharClass::Digit);
        if is_digit_char(src[i]) && d + 1 <= src.len() {
            lemma_run_end(src, d + 1, CharClass::Digit);
        }
    }
}

/// The offset ranges of the tokens of a whole scan from offset `i` on: each
/// token contributes the range it covers, and the sequence stops at the end
/// of the input or at the first fault.
pub open spec fn spec_scan_ranges(src: Seq<char>, i: int) -> Seq<(int, int)>
    decreases src.len() - i,
    when 0 <= i <= src.len()
{
    match spec_scan(src, i) {
        SpecStep::Tok(t, end) => {
            if i < end <= src.len() {
                seq![(i, end)] + spec_scan_ranges(src, end)
            } else {
                seq![]
            }
        },
        SpecStep::Fail(e) => seq![],
        SpecStep::End => seq![],
    }
}

/// A clean scan from offset `i` on: the source from `i` is made only of
/// tokens of the defined kinds, so scanning reaches the end of the input
/// without a fault.
pub open spec fn spec_scan_clean(src: Seq<char>, i: int) -> bool
    decreases src.len() - i,
    when 0 <= i <= src.len()
{
    match spec_scan(src, i) {
        SpecStep::Tok(t, end) => {
            if i < end <= src.len() {
                spec_scan_clean(src, end)
            } else {
                false
            }
        },
        SpecStep::Fail(e) => false,
        SpecStep::End => true,
    }
}

/// The concatenation of the source slices named by `rs`, in order.
pub open spec fn concat_slices(src: Seq<char>, rs: Seq<(int, int)>) -> Seq<char>
    decreases rs.len(),
{
    if rs.len() == 0 {
        Seq::empty()
    } else {
        src.subrange(rs[0].0, rs[0].1) + concat_slices(src, rs.drop_first())
    }
}

/// The token ranges of a clean scan tile the scanned suffix: their slices,
/// concatenated in order, give back `src[i..]` exactly.
pub proof fn lemma_scan_covers(src: Seq<char>, i: int)
    requires
        0 <= i <= src.len(),
        spec_scan_clean(src, i),
    ensures
        concat_slices(src, spec_scan_ranges(src, i)) == src.subrange(i, src.len() as int),
    decreases src.len() - i,
{
    lemma_spec_scan_progress(src, i);
    match spec_scan(src, i) {
        SpecStep::Tok(t, end) => {
            lemma_scan_covers(src, end);
            let rs = spec_scan_ranges(src, i);
            assert(rs == seq![(i, end)] + spec_scan_ranges(src, end));
            assert(rs[0] == (i, end));
            assert(rs.drop_first() =~= spec_scan_ranges(src, end));
            assert(src.subrange(i, end) + src.subrange(end, src.len() as int) =~= src.subrange(
                i,
                src.len() as int,
            ));
        },
        SpecStep::Fail(e) => {},
        SpecStep::End => {
            assert(src.subrange(i, src.len() as int) =~= Seq::<char>::empty());
        },
    }
}

/// The coverage law: every character of the source belongs to exactly one
/// token. For any source text composed solely of tokens of the defined
/// kinds — one whose scan runs clean to the end — re-concatenating each
/// token's original slice, in scan order, reproduces the input exactly,
/// with no gaps and no overlaps.
pub proof fn lemma_tokens_reconstruct_source(src: Seq<char>)
    requires
        spec_scan_clean(src, 0),
    ensures
        concat_slices(src, spec_scan_ranges(src, 0)) == src,
{
    lemma_scan_covers(src, 0);
    assert(src.subrange(0, src.len() as int) =~= src);
}

/// Runtime test for `is_digit_char`.
fn is_digit(c: char) -> (r: bool)
    ensures
        r == is_digit_char(c),
{
    '0' <= c && c <= '9'
}

/// Runtime test for `is_alpha_char`.
fn is_alpha(c: char) -> (r: bool)
    ensures
        r == is_alpha_char(c),
{
    ('a' <= c && c <= 'z') || ('A' <= c && c <= 'Z')
}

/// Runtime test for `is_blank_char`.
fn is_blank(c: char) -> (r: bool)
    ensures
        r == is_blank_char(c),
{
    c == ' ' || c == '\r' || c == '\t'
}

/// The scanner: the source text, a pre-decoded character array over it, the
/// cursor (`start` of the current token, `current` read position — both
/// character offsets, not byte offsets), and the running location of the
/// next unread character. Consumed as a lazy, forward-only sequence: each
/// pull of [`Scanner::scan_token`] produces exactly one token or a terminal
/// signal. After a fault the stream is poisoned: no further token comes.
pub struct Scanner {
    source: String,
    chars: Vec<char>,
    position: Position,
    start: usize,
    current: usize,
    failed: bool,
}

impl Scanner {
    /// The source text being scanned.
    pub closed spec fn src(&self) -> Seq<char> {
        self.source@
    }

    /// The read position: the offset of the next unread character.
    pub closed spec fn cur(&self) -> int {
        self.current as int
    }

    /// The offset where the token being scanned starts.
    pub closed spec fn tok_start(&self) -> int {
        self.start as int
    }

    /// The line/column location of the next unread character.
    pub closed spec fn pos(&self) -> Position {
        self.position
    }

    /// Whether a fault has poisoned the stream.
    pub closed spec fn is_failed(&self) -> bool {
        self.failed
    }

    /// Well-formedness: the character array mirrors the source, the cursor
    /// stays inside it, lines and columns fit their type, and the running
    /// location is exactly that of the read position.
    pub closed spec fn wf(&self) -> bool {
        &&& self.chars@ == self.source@
        &&& self.start <= self.current <= self.source@.len()
        &&& self.source@.len() + 1 <= u32::MAX
        &&& pos_is(self.position, pos_at(self.source@, self.current as int))
    }

    /// A fresh scanner over `source`, at offset 0, location (1, 1).
    ///
    /// The length bound is a machine limit: lines and columns are counted
    /// in `u32`, and each consumed character grows one of them by at most
    /// one.
    pub fn new(source: String) -> (s: Scanner)
        requires
            source@.len() + 1 <= u32::MAX,
        ensures
            s.wf(),
            s.src() == source@,
            s.cur() == 0,
            s.tok_start() == 0,
            !s.is_failed(),
            s.pos() == (Position { line: 1, column: 1 }),
    {
        let n = source.as_str().unicode_len();
        let mut chars: Vec<char> = Vec::new();
        let mut i: usize = 0;
        while i < n
            invariant
                i <= n,
                n == source@.len(),
                chars@ == source@.subrange(0, i as int),
            decreases n - i,
        {
            chars.push(source.as_str().get_char(i));
            i = i + 1;
            proof {
                assert(chars@ =~= source@.subrange(0, i as int));
            }
        }
        proof {
            assert(chars@ =~= source@);
        }
        Scanner {
            source,
            chars,
            position: Position { line: 1, column: 1 },
            start: 0,
            current: 0,
            failed: false,
        }
    }

    /// Whether the whole source has been consumed.
    pub fn at_end(&self) -> (r: bool)
        requires
            self.wf(),
        ensures
            r == (self.cur() == self.src().len()),
    {
        self.current >= self.chars.len()
    }

    /// The next unread character, without consuming it; `None` at the end
    /// of the input.
    pub fn peek(&self) -> (r: Option<char>)
        requires
            self.wf(),
        ensures
            r == (if self.cur() < self.src().len() {
                Some(self.src()[self.cur()])
            } else {
                None::<char>
            }),
    {
        if self.current >= self.chars.len() {
            None
        } else {
            Some(self.chars[self.current])
        }
    }

    /// Consumes one character: moves the read position one character on and
    /// steps the location (to the next column, or past a newline to column
    /// 1 of the next line — exactly once per consumed newline). With no
    /// input left it changes nothing and reports `AdvancedPastEnd`.
    pub fn advance(&mut self) -> (r: Result<char, PseudoError>)
        requires
            old(self).wf(),
        ensures
            final(self).wf(),
            final(self).src() == old(self).src(),
            final(self).tok_start() == old(self).tok_start(),
            final(self).is_failed() == old(self).is_failed(),
            old(self).cur() < old(self).src().len() ==> {
                &&& r == Ok::<char, PseudoError>(old(self).src()[old(self).cur()])
                &&& final(self).cur() == old(self).cur() + 1
                &&& pos_is(
                    final(self).pos(),
                    pos_step(
                        (old(self).pos().line as int, old(self).pos().column as int),
                        old(self).src()[old(self).cur()],
                    ),
                )
            },
            old(self).cur() == old(self).src().len() ==> {
                &&& r == Err::<char, PseudoError>(PseudoError::AdvancedPastEnd(old(self).pos()))
                &&& *final(self) == *old(self)
            },
    {
        if self.current >= self.chars.len() {
            return Err(PseudoError::AdvancedPastEnd(self.position));
        }
        proof {
            lemma_pos_at_bounds(self.source@, self.current as int);
            lemma_pos_at_snoc(self.source@, self.current as int);
        }
        let c = self.chars[self.current];
        self.current = self.current + 1;
        if c == '\n' {
            self.position.line = self.position.line + 1;
            self.position.column = 1;
        } else {
            self.position.column = self.position.column + 1;
        }
        Ok(c)
    }

    /// What `wf` guarantees to callers: the cursor stays inside the source
    /// and the running location is exactly that of the read position.
    pub proof fn lemma_wf(&self)
        requires
            self.wf(),
        ensures
            self.tok_start() <= self.cur() <= self.src().len(),
            self.src().len() + 1 <= u32::MAX,
            pos_is(self.pos(), pos_at(self.src(), self.cur())),
    {
    }

    /// Packs the token that began at `start_position` and at offset `start`,
    /// and ends at the read position.
    fn construct_token_owned(&self, kind: TokenType, start_position: Position) -> (t: Token)
        ensures
            t.kind == kind,
            t.position.0 == start_position,
            t.position.1 == self.pos(),
            t.start as int == self.tok_start(),
            t.end as int == self.cur(),
    {
        Token::new(kind, start_position, &self.position, self.start, self.current)
    }

    /// The string-literal rule, entered once the opening quote at offset
    /// `tok_start` has been consumed; agrees with `spec_scan_string`.
    #[verifier::loop_isolation(false)]
    fn string(&mut self, start_position: Position) -> (r: Result<Token, PseudoError>)
        requires
            old(self).wf(),
            old(self).tok_start() + 1 == old(self).cur(),
            old(self).src()[old(self).tok_start()] == '"',
        ensures
            final(self).wf(),
            final(self).src() == old(self).src(),
            final(self).tok_start() == old(self).tok_start(),
            ({
                let src = old(self).src();
                let i = old(self).tok_start();
                let j = run_end(src, i + 1, CharClass::NotQuote);
                if j >= src.len() {
                    &&& r == Err::<Token, PseudoError>(
                        PseudoError::UnterminatedString(make_pos(pos_at(src, src.len() as int))),
                    )
                    &&& final(self).is_failed()
                } else {
                    &&& r matches Ok(tok)
                    &&& tok.kind@ == SpecTokenType::STRING(src.subrange(i + 1, j))
                    &&& tok.start as int == i
                    &&& tok.end as int == j + 1
                    &&& tok.position.0 == start_position
                    &&& tok.position.1 == final(self).pos()
                    &&& final(self).cur() == j + 1
                    &&& final(self).is_failed() == old(self).is_failed()
                }
            }),
    {
        let ghost src = self.src();
        let ghost i = self.tok_start();
        while self.current < self.chars.len() && self.chars[self.current] != '"'
            invariant
                self.wf(),
                self.src() == src,
                self.tok_start() == i,
                self.is_failed() == old(self).is_failed(),
                i + 1 <= self.cur() <= src.len(),
                run_end(src, i + 1, CharClass::NotQuote) == run_end(
                    src,
                    self.cur(),
                    CharClass::NotQuote,
                ),
            decreases src.len() - self.cur(),
        {
            proof {
                assert(run_end(src, self.cur(), CharClass::NotQuote) == run_end(
                    src,
                    self.cur() + 1,
                    CharClass::NotQuote,
                ));
            }
            let _c = self.advance();
        }
        proof {
            assert(run_end(src, self.cur(), CharClass::NotQuote) == self.cur());
            lemma_run_end(src, i + 1, CharClass::NotQuote);
        }
        if self.at_end() {
            self.failed = true;
            return Err(PseudoError::UnterminatedString(self.position));
        }
        let _q = self.advance();
        let lit = self.source.as_str().substring_char(self.start + 1, self.current - 1);
        let text = lit.to_owned();
        Ok(self.construct_token_owned(TokenType::STRING(text), start_position))
    }

    /// The number rule, entered once the first character — a digit, or for
    /// `initial` the leading dot of a `.5`-form float, with a digit next —
    /// has been consumed; agrees with `spec_scan_number` and with the
    /// leading-dot arm of `spec_scan`.
    #[verifier::loop_isolation(false)]
    fn number(&mut self, initial: bool, start_position: Position) -> (r: Result<
        Token,
        PseudoError,
    >)
        requires
            old(self).wf(),
            old(self).tok_start() + 1 == old(self).cur(),
            !initial ==> is_digit_char(old(self).src()[old(self).tok_start()]),
            initial ==> old(self).src()[old(self).tok_start()] == '.' && old(self).cur() < old(
                self,
            ).src().len() && is_digit_char(old(self).src()[old(self).cur()]),
        ensures
            final(self).wf(),
            final(self).src() == old(self).src(),
            final(self).tok_start() == old(self).tok_start(),
            ({
                let src = old(self).src();
                let i = old(self).tok_start();
                if initial {
                    let e = run_end(src, i + 1, CharClass::Digit);
                    &&& r matches Ok(tok)
                    &&& tok.kind@ == SpecTokenType::FLOAT(src.subrange(i, e))
                    &&& tok.start as int == i
                    &&& tok.end as int == e
                    &&& tok.position.0 == start_position
                    &&& tok.position.1 == final(self).pos()
                    &&& final(self).cur() == e
                    &&& final(self).is_failed() == old(self).is_failed()
                } else {
                    match spec_scan_number(src, i) {
                        SpecStep::Tok(t, end) => {
                            &&& r matches Ok(tok)
                            &&& tok.kind@ == t
                            &&& tok.start as int == i
                            &&& tok.end as int == end
                            &&& tok.position.0 == start_position
                            &&& tok.position.1 == final(self).pos()
                            &&& final(self).cur() == end
                            &&& final(self).is_failed() == old(self).is_failed()
                        },
                        SpecStep::Fail(e) => {
                            &&& r == Err::<Token, PseudoError>(e)
                            &&& final(self).is_failed()
                        },
                        SpecStep::End => false,
                    }
                }
            }),
    {
        let ghost src = self.src();
        let ghost i = self.tok_start();
        let mut is_float = initial;
        while self.current < self.chars.len() && is_digit(self.chars[self.current])
            invariant
                self.wf(),
                self.src() == src,
                self.tok_start() == i,
                self.is_failed() == old(self).is_failed(),
                i + 1 <= self.cur() <= src.len(),
                run_end(src, i + 1, CharClass::Digit) == run_end(src, self.cur(), CharClass::Digit),
            decreases src.len() - self.cur(),
        {
            proof {
                assert(run_end(src, self.cur(), CharClass::Digit) == run_end(
                    src,
                    self.cur() + 1,
                    CharClass::Digit,
                ));
            }
            let _c = self.advance();
        }
        proof {
            assert(run_end(src, self.cur(), CharClass::Digit) == self.cur());
            lemma_run_end(src, i + 1, CharClass::Digit);
            if !initial {
                assert(run_end(src, i, CharClass::Digit) == run_end(src, i + 1, CharClass::Digit));
            }
        }
        let ghost d = run_end(src, i, CharClass::Digit);
        if !initial {
            let dot_next = match self.peek() {
                Some(c) => c == '.',
                None => false,
            };
            if dot_next {
                is_float = true;
                let _dot = self.advance();
                while self.current < self.chars.len() && is_digit(self.chars[self.current])
                    invariant
                        self.wf(),
                        self.src() == src,
                        self.tok_start() == i,
                        self.is_failed() == old(self).is_failed(),
                        d + 1 <= self.cur() <= src.len(),
                        run_end(src, d + 1, CharClass::Digit) == run_end(
                            src,
                            self.cur(),
                            CharClass::Digit,
                        ),
                    decreases src.len() - self.cur(),
                {
                    proof {
                        assert(run_end(src, self.cur(), CharClass::Digit) == run_end(
                            src,
                            self.cur() + 1,
                            CharClass::Digit,
                        ));
                    }
                    let _c = self.advance();
                }
                proof {
                    assert(run_end(src, self.cur(), CharClass::Digit) == self.cur());
                    lemma_run_end(src, d + 1, CharClass::Digit);
                }
            }
        }
        if is_float {
            let lit = self.source.as_str().substring_char(self.start, self.current);
            let text = lit.to_owned();
            return Ok(self.construct_token_owned(TokenType::FLOAT(text), start_position));
        }
        // Integer: the cursor sits at the end of the digit run; fold the
        // digits into a checked 128-bit value.
        let ghost digits = src.subrange(i, d);
        proof {
            lemma_run_end(src, i, CharClass::Digit);
        }
        let mut acc: i128 = 0;
        let mut k = self.start;
        let mut overflowed = false;
        while k < self.current && !overflowed
            invariant
                i <= k as int <= d,
                !overflowed ==> 0 <= acc as int == digits_val(src.subrange(i, k as int)),
                overflowed ==> digits_val(digits) > i128::MAX as int,
            decreases d - k + (if overflowed {
                0int
            } else {
                1int
            }),
        {
            let c = self.chars[k];
            let dg = (c as u32) - ('0' as u32);
            proof {
                assert(c == src[k as int]);
                assert(is_digit_char(c));
                assert(src.subrange(i, k as int + 1).drop_last() =~= src.subrange(i, k as int));
                assert(src.subrange(i, k as int + 1).last() == src[k as int]);
            }
            let step = match acc.checked_mul(10) {
                Some(m) => m.checked_add(dg as i128),
                None => None,
            };
            match step {
                Some(v) => {
                    acc = v;
                    k = k + 1;
                },
                None => {
                    proof {
                        assert(digits_val(src.subrange(i, k as int + 1)) > i128::MAX as int);
                        assert(digits.take(k as int + 1 - i) =~= src.subrange(i, k as int + 1));
                        lemma_digits_val_prefix(digits, k as int + 1 - i);
                        assert(digits_val(digits) > i128::MAX as int);
                    }
                    overflowed = true;
                },
            }
        }
        proof {
            if !overflowed {
                assert(k as int == d);
                assert(src.subrange(i, k as int) == digits);
            }
        }
        if overflowed {
            self.failed = true;
            return Err(PseudoError::IntegerOverflow(self.position));
        }
        Ok(self.construct_token_owned(TokenType::INTEGER(acc), start_position))
    }

    /// The identifier/keyword rule, entered once the first alphabetic
    /// character at offset `tok_start` has been consumed; agrees with
    /// `spec_scan_word`.
    #[verifier::loop_isolation(false)]
    fn identifier(&mut self, start_position: Position) -> (t: Token)
        requires
            old(self).wf(),
            old(self).tok_start() + 1 == old(self).cur(),
            is_alpha_char(old(self).src()[old(self).tok_start()]),
        ensures
            final(self).wf(),
            final(self).src() == old(self).src(),
            final(self).tok_start() == old(self).tok_start(),
            final(self).is_failed() == old(self).is_failed(),
            ({
                let src = old(self).src();
                let i = old(self).tok_start();
                let e = run_end(src, i, CharClass::Alpha);
                &&& t.kind@ == (match spec_keyword(src.subrange(i, e)) {
                    Some(k) => k,
                    None => SpecTokenType::IDENTIFIER(src.subrange(i, e)),
                })
                &&& t.start as int == i
                &&& t.end as int == e
                &&& t.position.0 == start_position
                &&& t.position.1 == final(self).pos()
                &&& final(self).cur() == e
            }),
    {
        let ghost src = self.src();
        let ghost i = self.tok_start();
        while self.current < self.chars.len() && is_alpha(self.chars[self.current])
            invariant
                self.wf(),
                self.src() == src,
                self.tok_start() == i,
                self.is_failed() == old(self).is_failed(),
                i + 1 <= self.cur() <= src.len(),
                run_end(src, i + 1, CharClass::Alpha) == run_end(src, self.cur(), CharClass::Alpha),
            decreases src.len() - self.cur(),
        {
            proof {
                assert(run_end(src, self.cur(), CharClass::Alpha) == run_end(
                    src,
                    self.cur() + 1,
                    CharClass::Alpha,
                ));
            }
            let _c = self.advance();
        }
        proof {
            assert(run_end(src, self.cur(), CharClass::Alpha) == self.cur());
            lemma_run_end(src, i + 1, CharClass::Alpha);
            assert(run_end(src, i, CharClass::Alpha) == run_end(src, i + 1, CharClass::Alpha));
        }
        let lit = self.source.as_str().substring_char(self.start, self.current);
        match parse_keyword(lit) {
            Some(kind) => self.construct_token_owned(kind, start_position),
            None => {
                let text = lit.to_owned();
                self.construct_token_owned(TokenType::IDENTIFIER(text), start_position)
            },
        }
    }

    /// One pull: scans exactly one token, in full agreement with
    /// [`spec_scan`] at the current offset.
    ///
    /// On success the token's span runs from the location before its first
    /// character to the location after its last, and its offsets cover
    /// exactly the characters consumed. On a fault the matching error comes
    /// back and the stream is poisoned: this and every later pull yields an
    /// error and consumes nothing. At the clean end of the input every pull
    /// yields `AdvancedPastEnd` and consumes nothing.
    #[verifier::loop_isolation(false)]
    pub fn scan_token(&mut self) -> (r: Result<Token, PseudoError>)
        requires
            old(self).wf(),
        ensures
            final(self).wf(),
            final(self).src() == old(self).src(),
            old(self).is_failed() ==> {
                &&& r == Err::<Token, PseudoError>(PseudoError::AdvancedPastEnd(old(self).pos()))
                &&& final(self).cur() == old(self).cur()
                &&& final(self).pos() == old(self).pos()
                &&& final(self).is_failed()
            },
            !old(self).is_failed() ==> match spec_scan(old(self).src(), old(self).cur()) {
                SpecStep::Tok(t, end) => {
                    &&& r matches Ok(tok)
                    &&& tok.kind@ == t
                    &&& tok.start as int == old(self).cur()
                    &&& tok.end as int == end
                    &&& tok.position.0 == old(self).pos()
                    &&& pos_is(tok.position.0, pos_at(old(self).src(), old(self).cur()))
                    &&& tok.position.1 == final(self).pos()
                    &&& pos_is(tok.position.1, pos_at(old(self).src(), end))
                    &&& final(self).cur() == end
                    &&& final(self).tok_start() == old(self).cur()
                    &&& !final(self).is_failed()
                },
                SpecStep::Fail(e) => {
                    &&& r == Err::<Token, PseudoError>(e)
                    &&& final(self).is_failed()
                },
                SpecStep::End => {
                    &&& r == Err::<Token, PseudoError>(
                        PseudoError::AdvancedPastEnd(old(self).pos()),
                    )
                    &&& final(self).cur() == old(self).cur()
                    &&& final(self).pos() == old(self).pos()
                    &&& !final(self).is_failed()
                },
            },
    {
        if self.failed {
            return Err(PseudoError::AdvancedPastEnd(self.position));
        }
        self.start = self.current;
        let ghost src = self.src();
        let ghost i = self.cur();
        let start_position = self.position;
        let c = match self.advance() {
            Ok(c) => c,
            Err(e) => {
                return Err(e);
            },
        };
        if c == '(' {
            Ok(self.construct_token_owned(TokenType::LPAREN, start_position))
        } else if c == ')' {
            Ok(self.construct_token_owned(TokenType::RPAREN, start_position))
        } else if c == '{' {
            Ok(self.construct_token_owned(TokenType::LBRACE, start_position))
        } else if c == '}' {
            Ok(self.construct_token_owned(TokenType::RBRACE, start_position))
        } else if c == ',' {
            Ok(self.construct_token_owned(TokenType::COMMA, start_position))
        } else if c == '-' {
            Ok(self.construct_token_owned(TokenType::MINUS, start_position))
        } else if c == '+' {
            Ok(self.construct_token_owned(TokenType::PLUS, start_position))
        } else if c == ';' {
            Ok(self.construct_token_owned(TokenType::SEMICOLON, start_position))
        } else if c == '*' {
            Ok(self.construct_token_owned(TokenType::STAR, start_position))
        } else if c == '!' {
            let kind = if self.take_equal() {
                TokenType::NEQUAL
            } else {
                TokenType::NOT
            };
            Ok(self.construct_token_owned(kind, start_position))
        } else if c == '=' {
            let kind = if self.take_equal() {
                TokenType::EEQUAL
            } else {
                TokenType::EQUAL
            };
            Ok(self.construct_token_owned(kind, start_position))
        } else if c == '<' {
            let kind = if self.take_equal() {
                TokenType::LEQUAL
            } else {
                TokenType::LESS
            };
            Ok(self.construct_token_owned(kind, start_position))
        } else if c == '>' {
            let kind = if self.take_equal() {
                TokenType::GEQUAL
            } else {
                TokenType::GREATER
            };
            Ok(self.construct_token_owned(kind, start_position))
        } else if c == '/' {
            let slash_next = match self.peek() {
                Some(nc) => nc == '/',
                None => false,
            };
            if slash_next {
                let _s = self.advance();
                while self.current < self.chars.len() && self.chars[self.current] != '\n'
                    invariant
                        self.wf(),
                        self.src() == src,
                        self.tok_start() == i,
                        self.is_failed() == old(self).is_failed(),
                        i + 2 <= self.cur() <= src.len(),
                        run_end(src, i + 2, CharClass::NotNewline) == run_end(
                            src,
                            self.cur(),
                            CharClass::NotNewline,
                        ),
                    decreases src.len() - self.cur(),
                {
                    proof {
                        assert(run_end(src, self.cur(), CharClass::NotNewline) == run_end(
                            src,
                            self.cur() + 1,
                            CharClass::NotNewline,
                        ));
                    }
                    let _c = self.advance();
                }
                proof {
                    assert(run_end(src, self.cur(), CharClass::NotNewline) == self.cur());
                }
                Ok(self.construct_token_owned(TokenType::COMMENT, start_position))
            } else {
                Ok(self.construct_token_owned(TokenType::SLASH, start_position))
            }
        } else if c == '"' {
            self.string(start_position)
        } else if c == '.' {
            let digit_next = match self.peek() {
                Some(nc) => is_digit(nc),
                None => false,
            };
            if digit_next {
                self.number(true, start_position)
            } else {
                Ok(self.construct_token_owned(TokenType::DOT, start_position))
            }
        } else if is_blank(c) {
            while self.current < self.chars.len() && is_blank(self.chars[self.current])
                invariant
                    self.wf(),
                    self.src() == src,
                    self.tok_start() == i,
                    self.is_failed() == old(self).is_failed(),
                    i + 1 <= self.cur() <= src.len(),
                    run_end(src, i, CharClass::Blank) == run_end(src, self.cur(), CharClass::Blank),
                decreases src.len() - self.cur(),
            {
                proof {
                    assert(run_end(src, self.cur(), CharClass::Blank) == run_end(
                        src,
                        self.cur() + 1,
                        CharClass::Blank,
                    ));
                }
                let _c = self.advance();
            }
            proof {
                assert(run_end(src, self.cur(), CharClass::Blank) == self.cur());
            }
            Ok(self.construct_token_owned(TokenType::WHITESPACE, start_position))
        } else if c == '\n' {
            Ok(self.construct_token_owned(TokenType::NEWLINE, start_position))
        } else if is_digit(c) {
            self.number(false, start_position)
        } else if is_alpha(c) {
            Ok(self.identifier(start_position))
        } else {
            self.failed = true;
            Err(PseudoError::UnexpectedCharacter(c, self.position))
        }
    }

    /// Consumes a `'='` lying directly at the read position, for the
    /// two-character operators; reports whether it did.
    fn take_equal(&mut self) -> (took: bool)
        requires
            old(self).wf(),
        ensures
            final(self).wf(),
            final(self).src() == old(self).src(),
            final(self).tok_start() == old(self).tok_start(),
            final(self).is_failed() == old(self).is_failed(),
            took == (old(self).cur() < old(self).src().len() && old(self).src()[old(self).cur()]
                == '='),
            took ==> final(self).cur() == old(self).cur() + 1,
            !took ==> *final(self) == *old(self),
    {
        let equal_next = match self.peek() {
            Some(nc) => nc == '=',
            None => false,
        };
        if equal_next {
            let _e = self.advance();
            true
        } else {
            false
        }
    }

    /// One pull, iterator-style: `Some` token, or `None` at the end of the
    /// input and after any fault (the fault itself is reported by
    /// [`Scanner::scan_token`]; a pull that returns `None` never emits a
    /// partial token).
    pub fn next(&mut self) -> (r: Option<Token>)
        requires
            old(self).wf(),
        ensures
            final(self).wf(),
            final(self).src() == old(self).src(),
            old(self).is_failed() ==> r is None && final(self).is_failed(),
            !old(self).is_failed() ==> match spec_scan(old(self).src(), old(self).cur()) {
                SpecStep::Tok(t, end) => {
                    &&& r matches Some(tok)
                    &&& tok.kind@ == t
                    &&& tok.start as int == old(self).cur()
                    &&& tok.end as int == end
                    &&& tok.position.0 == old(self).pos()
                    &&& pos_is(tok.position.0, pos_at(old(self).src(), old(self).cur()))
                    &&& pos_is(tok.position.1, pos_at(old(self).src(), end))
                    &&& final(self).cur() == end
                    &&& !final(self).is_failed()
                },
                SpecStep::Fail(e) => r is None && final(self).is_failed(),
                SpecStep::End => {
                    &&& r is None
                    &&& final(self).cur() == old(self).cur()
                    &&& !final(self).is_failed()
                },
            },
    {
        match self.scan_token() {
            Ok(token) => Some(token),
            Err(_) => None,
        }
    }
}

} // verus!

