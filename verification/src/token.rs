//! Tokens: the classified lexical units the scanner produces, their
//! spec-level model, and the fixed keyword table.

use vstd::prelude::*;

use crate::Position;
use vstd::string::StrSliceExecFns;

verus! {

/// The spec-level shape of a token: the same closed variant set as
/// [`TokenType`], with payloads as mathematical values (`Seq<char>`, `int`).
/// `TokenType@` yields this type.
pub enum SpecTokenType {
    // Single-character tokens
    LPAREN,
    RPAREN,
    LBRACE,
    RBRACE,
    COMMA,
    DOT,
    MINUS,
    PLUS,
    SEMICOLON,
    SLASH,
    STAR,
    // One or two character tokens
    NEQUAL,
    EQUAL,
    EEQUAL,
    GREATER,
    GEQUAL,
    LESS,
    LEQUAL,
    // Literals
    IDENTIFIER(Seq<char>),
    STRING(Seq<char>),
    INTEGER(int),
    FLOAT(Seq<char>),
    // Keywords
    AND,
    NOT,
    CLASS,
    FALSE,
    TRUE,
    FUNCTION,
    ENDFUNCTION,
    FOR,
    NEXT,
    IF,
    ELSEIF,
    ELSE,
    ENDIF,
    OR,
    PRINT,
    RETURN,
    WHILE,
    ENDWHILE,
    // Trivia
    COMMENT,
    WHITESPACE,
    NEWLINE,
    // End Of File
    EOF,
}

/// The kind of a token, with its payload where it carries one.
///
/// `IDENTIFIER` and `STRING` carry their text (for a string literal: the
/// characters strictly between the quotes, unescaped). `INTEGER` carries the
/// parsed signed 128-bit value. `FLOAT` carries the literal's exact source
/// text — of the shape digits `.` digits, with either side of the dot
/// possibly empty but not both — so a caller that wants an IEEE double parses
/// that text itself; this keeps the scanner free of floating point.
#[derive(Debug, Clone, PartialEq)]
pub enum TokenType {
    // Single-character tokens
    LPAREN,
    RPAREN,
    LBRACE,
    RBRACE,
    COMMA,
    DOT,
    MINUS,
    PLUS,
    SEMICOLON,
    SLASH,
    STAR,
    // One or two character tokens
    NEQUAL,
    EQUAL,
    EEQUAL,
    GREATER,
    GEQUAL,
    LESS,
    LEQUAL,
    // Literals
    IDENTIFIER(String),
    STRING(String),
    INTEGER(i128),
    FLOAT(String),
    // Keywords
    AND,
    NOT,
    CLASS,
    FALSE,
    TRUE,
    FUNCTION,
    ENDFUNCTION,
    FOR,
    NEXT,
    IF,
    ELSEIF,
    ELSE,
    ENDIF,
    OR,
    PRINT,
    RETURN,
    WHILE,
    ENDWHILE,
    // Trivia
    COMMENT,
    WHITESPACE,
    NEWLINE,
    // End Of File
    EOF,
}

impl View for TokenType {
    type V = SpecTokenType;

    open spec fn view(&self) -> SpecTokenType {
        match self {
            TokenType::LPAREN => SpecTokenType::LPAREN,
            TokenType::RPAREN => SpecTokenType::RPAREN,
            TokenType::LBRACE => SpecTokenType::LBRACE,
            TokenType::RBRACE => SpecTokenType::RBRACE,
            TokenType::COMMA => SpecTokenType::COMMA,
            TokenType::DOT => SpecTokenType::DOT,
            TokenType::MINUS => SpecTokenType::MINUS,
            TokenType::PLUS => SpecTokenType::PLUS,
            TokenType::SEMICOLON => SpecTokenType::SEMICOLON,
            TokenType::SLASH => SpecTokenType::SLASH,
            TokenType::STAR => SpecTokenType::STAR,
            TokenType::NEQUAL => SpecTokenType::NEQUAL,
            TokenType::EQUAL => SpecTokenType::EQUAL,
            TokenType::EEQUAL => SpecTokenType::EEQUAL,
            TokenType::GREATER => SpecTokenType::GREATER,
            TokenType::GEQUAL => SpecTokenType::GEQUAL,
            TokenType::LESS => SpecTokenType::LESS,
            TokenType::LEQUAL => SpecTokenType::LEQUAL,
            TokenType::IDENTIFIER(s) => SpecTokenType::IDENTIFIER(s@),
            TokenType::STRING(s) => SpecTokenType::STRING(s@),
            TokenType::INTEGER(v) => SpecTokenType::INTEGER(*v as int),
            TokenType::FLOAT(s) => SpecTokenType::FLOAT(s@),
            TokenType::AND => SpecTokenType::AND,
            TokenType::NOT => SpecTokenType::NOT,
            TokenType::CLASS => SpecTokenType::CLASS,
            TokenType::FALSE => SpecTokenType::FALSE,
            TokenType::TRUE => SpecTokenType::TRUE,
            TokenType::FUNCTION => SpecTokenType::FUNCTION,
            TokenType::ENDFUNCTION => SpecTokenType::ENDFUNCTION,
            TokenType::FOR => SpecTokenType::FOR,
            TokenType::NEXT => SpecTokenType::NEXT,
            TokenType::IF => SpecTokenType::IF,
            TokenType::ELSEIF => SpecTokenType::ELSEIF,
            TokenType::ELSE => SpecTokenType::ELSE,
            TokenType::ENDIF => SpecTokenType::ENDIF,
            TokenType::OR => SpecTokenType::OR,
            TokenType::PRINT => SpecTokenType::PRINT,
            TokenType::RETURN => SpecTokenType::RETURN,
            TokenType::WHILE => SpecTokenType::WHILE,
            TokenType::ENDWHILE => SpecTokenType::ENDWHILE,
            TokenType::COMMENT => SpecTokenType::COMMENT,
            TokenType::WHITESPACE => SpecTokenType::WHITESPACE,
            TokenType::NEWLINE => SpecTokenType::NEWLINE,
            TokenType::EOF => SpecTokenType::EOF,
        }
    }
}

/// One token of the source: its kind, its line/column span, and the
/// character-offset range it covers.
///
/// `position.0` is the location of the token's first character; `position.1`
/// is the location immediately past its last consumed character (that of the
/// next unread character). `start`/`end` are the matching character offsets
/// into the source, so the token's original text is `source[start..end)`.
#[derive(Debug, PartialEq)]
pub struct Token {
    pub kind: TokenType,
    pub position: (Position, Position),
    pub start: usize,
    pub end: usize,
}

impl Token {
    /// Packs a token from its parts.
    pub fn new(
        kind: TokenType,
        start_position: Position,
        end_position: &Position,
        start: usize,
        end: usize,
    ) -> (t: Token)
        ensures
            t.kind == kind,
            t.position.0 == start_position,
            t.position.1 == *end_position,
            t.start == start,
            t.end == end,
    {
        Token { kind, position: (start_position, *end_position), start, end }
    }
}

/// The fixed keyword table: the kind reserved for the exact spelling `s`,
/// or `None` where `s` is no keyword. Matching is case-sensitive and the
/// keys are all lowercase, so e.g. the spelling `IF` is an identifier.
pub open spec fn spec_keyword(s: Seq<char>) -> Option<SpecTokenType> {
    if s == "and"@ {
        Some(SpecTokenType::AND)
    } else if s == "not"@ {
        Some(SpecTokenType::NOT)
    } else if s == "class"@ {
        Some(SpecTokenType::CLASS)
    } else if s == "false"@ {
        Some(SpecTokenType::FALSE)
    } else if s == "true"@ {
        Some(SpecTokenType::TRUE)
    } else if s == "function"@ {
        Some(SpecTokenType::FUNCTION)
    } else if s == "endfunction"@ {
        Some(SpecTokenType::ENDFUNCTION)
    } else if s == "for"@ {
        Some(SpecTokenType::FOR)
    } else if s == "next"@ {
        Some(SpecTokenType::NEXT)
    } else if s == "if"@ {
        Some(SpecTokenType::IF)
    } else if s == "elseif"@ {
        Some(SpecTokenType::ELSEIF)
    } else if s == "else"@ {
        Some(SpecTokenType::ELSE)
    } else if s == "endif"@ {
        Some(SpecTokenType::ENDIF)
    } else if s == "or"@ {
        Some(SpecTokenType::OR)
    } else if s == "print"@ {
        Some(SpecTokenType::PRINT)
    } else if s == "return"@ {
        Some(SpecTokenType::RETURN)
    } else if s == "while"@ {
        Some(SpecTokenType::WHILE)
    } else if s == "endwhile"@ {
        Some(SpecTokenType::ENDWHILE)
    } else {
        None
    }
}

/// Character-by-character string equality, so that keyword lookup needs no
/// unverified comparison.
fn str_eq(a: &str, b: &str) -> (r: bool)
    ensures
        r == (a@ == b@),
{
    let n = a.unicode_len();
    if n != b.unicode_len() {
        return false;
    }
    let mut i: usize = 0;
    while i < n
        invariant
            i <= n,
            n == a@.len(),
            n == b@.len(),
            forall|k: int| 0 <= k < i ==> a@[k] == b@[k],
        decreases n - i,
    {
        if a.get_char(i) != b.get_char(i) {
            return false;
        }
        i += 1;
    }
    proof {
        assert(a@ =~= b@);
    }
    true
}

/// Looks up the exact spelling `keyword` in the keyword table.
pub fn parse_keyword(keyword: &str) -> (r: Option<TokenType>)
    ensures
        match r {
            Some(t) => spec_keyword(keyword@) == Some(t@),
            None => spec_keyword(keyword@) is None,
        },
{
    if str_eq(keyword, "and") {
        Some(TokenType::AND)
    } else if str_eq(keyword, "not") {
        Some(TokenType::NOT)
    } else if str_eq(keyword, "class") {
        Some(TokenType::CLASS)
    } else if str_eq(keyword, "false") {
        Some(TokenType::FALSE)
    } else if str_eq(keyword, "true") {
        Some(TokenType::TRUE)
    } else if str_eq(keyword, "function") {
        Some(TokenType::FUNCTION)
    } else if str_eq(keyword, "endfunction") {
        Some(TokenType::ENDFUNCTION)
    } else if str_eq(keyword, "for") {
        Some(TokenType::FOR)
    } else if str_eq(keyword, "next") {
        Some(TokenType::NEXT)
    } else if str_eq(keyword, "if") {
        Some(TokenType::IF)
    } else if str_eq(keyword, "elseif") {
        Some(TokenType::ELSEIF)
    } else if str_eq(keyword, "else") {
        Some(TokenType::ELSE)
    } else if str_eq(keyword, "endif") {
        Some(TokenType::ENDIF)
    } else if str_eq(keyword, "or") {
        Some(TokenType::OR)
    } else if str_eq(keyword, "print") {
        Some(TokenType::PRINT)
    } else if str_eq(keyword, "return") {
        Some(TokenType::RETURN)
    } else if str_eq(keyword, "while") {
        Some(TokenType::WHILE)
    } else if str_eq(keyword, "endwhile") {
        Some(TokenType::ENDWHILE)
    } else {
        None
    }
}

} // verus!
