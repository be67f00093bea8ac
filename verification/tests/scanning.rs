use not_pseudocode::error::PseudoError;
use not_pseudocode::scanner::Scanner;
use not_pseudocode::token::{Token, TokenType};
use not_pseudocode::Position;

fn pos(line: u32, column: u32) -> Position {
    Position { line, column }
}

/// Pulls tokens until the stream ends, returning the tokens and the error
/// that ended the stream.
fn scan_all(source: &str) -> (Vec<Token>, PseudoError) {
    let mut scanner = Scanner::new(source.to_string());
    let mut tokens = Vec::new();
    loop {
        match scanner.scan_token() {
            Ok(token) => tokens.push(token),
            Err(e) => return (tokens, e),
        }
    }
}

fn scan_kinds(source: &str) -> Vec<TokenType> {
    let (tokens, _) = scan_all(source);
    tokens.into_iter().map(|t| t.kind).collect()
}

#[test]
fn integer_literal_with_span() {
    let (tokens, end) = scan_all("123");
    assert_eq!(tokens.len(), 1);
    assert_eq!(tokens[0].kind, TokenType::INTEGER(123));
    assert_eq!(tokens[0].position, (pos(1, 1), pos(1, 4)));
    assert_eq!((tokens[0].start, tokens[0].end), (0, 3));
    assert_eq!(end, PseudoError::AdvancedPastEnd(pos(1, 4)));
}

#[test]
fn float_literal() {
    let (tokens, _) = scan_all("12.5");
    assert_eq!(tokens.len(), 1);
    match &tokens[0].kind {
        TokenType::FLOAT(text) => {
            assert_eq!(text.as_str(), "12.5");
            assert_eq!(text.parse::<f64>().unwrap(), 12.5);
        }
        other => panic!("expected a float, got {:?}", other),
    }
}

#[test]
fn leading_dot_float() {
    let (tokens, _) = scan_all(".5");
    assert_eq!(tokens.len(), 1);
    match &tokens[0].kind {
        TokenType::FLOAT(text) => {
            assert_eq!(text.as_str(), ".5");
            assert_eq!(text.parse::<f64>().unwrap(), 0.5);
        }
        other => panic!("expected a float, got {:?}", other),
    }
}

#[test]
fn trailing_dot_float() {
    let (tokens, _) = scan_all("3.");
    assert_eq!(tokens.len(), 1);
    match &tokens[0].kind {
        TokenType::FLOAT(text) => {
            assert_eq!(text.as_str(), "3.");
            assert_eq!(text.parse::<f64>().unwrap(), 3.0);
        }
        other => panic!("expected a float, got {:?}", other),
    }
}

#[test]
fn two_leading_dot_floats_in_a_row() {
    let kinds = scan_kinds(".5.25");
    assert_eq!(
        kinds,
        vec![
            TokenType::FLOAT(".5".to_string()),
            TokenType::FLOAT(".25".to_string()),
        ]
    );
}

#[test]
fn multiline_string_literal() {
    let (tokens, _) = scan_all("\"ab\ncd\"");
    assert_eq!(tokens.len(), 1);
    assert_eq!(tokens[0].kind, TokenType::STRING("ab\ncd".to_string()));
    assert_eq!(tokens[0].position.0, pos(1, 1));
    assert_eq!(tokens[0].position.1, pos(2, 4));
    assert_eq!((tokens[0].start, tokens[0].end), (0, 7));
}

#[test]
fn operator_disambiguation() {
    let kinds = scan_kinds("! != = == < <= > >=");
    assert_eq!(
        kinds,
        vec![
            TokenType::NOT,
            TokenType::WHITESPACE,
            TokenType::NEQUAL,
            TokenType::WHITESPACE,
            TokenType::EQUAL,
            TokenType::WHITESPACE,
            TokenType::EEQUAL,
            TokenType::WHITESPACE,
            TokenType::LESS,
            TokenType::WHITESPACE,
            TokenType::LEQUAL,
            TokenType::WHITESPACE,
            TokenType::GREATER,
            TokenType::WHITESPACE,
            TokenType::GEQUAL,
        ]
    );
}

#[test]
fn comment_runs_to_line_end() {
    let (tokens, _) = scan_all("// comment\nx");
    let kinds: Vec<_> = tokens.iter().map(|t| t.kind.clone()).collect();
    assert_eq!(
        kinds,
        vec![
            TokenType::COMMENT,
            TokenType::NEWLINE,
            TokenType::IDENTIFIER("x".to_string()),
        ]
    );
    // The comment does not include the newline.
    assert_eq!((tokens[0].start, tokens[0].end), (0, 10));
    assert_eq!((tokens[1].start, tokens[1].end), (10, 11));
}

#[test]
fn comment_at_end_of_input() {
    let kinds = scan_kinds("// done");
    assert_eq!(kinds, vec![TokenType::COMMENT]);
}

#[test]
fn unterminated_string_is_an_error_not_a_panic() {
    let (tokens, end) = scan_all("\"unterminated");
    assert!(tokens.is_empty());
    assert_eq!(end, PseudoError::UnterminatedString(pos(1, 14)));
}

#[test]
fn poisoned_after_fault() {
    let mut scanner = Scanner::new("# x".to_string());
    let first = scanner.scan_token();
    assert_eq!(
        first,
        Err(PseudoError::UnexpectedCharacter('#', pos(1, 2)))
    );
    // The stream is poisoned: later pulls yield no token either.
    assert!(scanner.scan_token().is_err());
    assert_eq!(scanner.next(), None);
}

#[test]
fn keyword_matching_is_exact_case() {
    let kinds = scan_kinds("function IF endif");
    assert_eq!(
        kinds,
        vec![
            TokenType::FUNCTION,
            TokenType::WHITESPACE,
            TokenType::IDENTIFIER("IF".to_string()),
            TokenType::WHITESPACE,
            TokenType::ENDIF,
        ]
    );
}

#[test]
fn newline_updates_line_and_column() {
    let (tokens, _) = scan_all("a\nb");
    assert_eq!(tokens.len(), 3);
    assert_eq!(tokens[0].position, (pos(1, 1), pos(1, 2)));
    assert_eq!(tokens[1].kind, TokenType::NEWLINE);
    assert_eq!(tokens[1].position, (pos(1, 2), pos(2, 1)));
    assert_eq!(tokens[2].position, (pos(2, 1), pos(2, 2)));
}

#[test]
fn spans_reconstruct_the_source() {
    let source = "if (x <= 12.5) { print \"a\nb\" } // done\nendif";
    let chars: Vec<char> = source.chars().collect();
    let (tokens, end) = scan_all(source);
    assert_eq!(end, PseudoError::AdvancedPastEnd(pos(3, 6)));
    let mut rebuilt = String::new();
    let mut next_start = 0;
    for token in &tokens {
        // Contiguous, non-overlapping, in order.
        assert_eq!(token.start, next_start);
        next_start = token.end;
        rebuilt.extend(&chars[token.start..token.end]);
    }
    assert_eq!(next_start, chars.len());
    assert_eq!(rebuilt, source);
}

#[test]
fn punctuation_kinds() {
    let kinds = scan_kinds("(){},-+;*/.");
    assert_eq!(
        kinds,
        vec![
            TokenType::LPAREN,
            TokenType::RPAREN,
            TokenType::LBRACE,
            TokenType::RBRACE,
            TokenType::COMMA,
            TokenType::MINUS,
            TokenType::PLUS,
            TokenType::SEMICOLON,
            TokenType::STAR,
            TokenType::SLASH,
            TokenType::DOT,
        ]
    );
}

#[test]
fn whitespace_run_is_one_token() {
    let (tokens, _) = scan_all(" \r\t x");
    let kinds: Vec<_> = tokens.iter().map(|t| t.kind.clone()).collect();
    assert_eq!(
        kinds,
        vec![
            TokenType::WHITESPACE,
            TokenType::IDENTIFIER("x".to_string()),
        ]
    );
    assert_eq!((tokens[0].start, tokens[0].end), (0, 4));
}

#[test]
fn largest_integer_fits() {
    let (tokens, _) = scan_all("170141183460469231731687303715884105727");
    assert_eq!(tokens.len(), 1);
    assert_eq!(tokens[0].kind, TokenType::INTEGER(i128::MAX));
}

#[test]
fn integer_overflow_is_an_error() {
    let (tokens, end) = scan_all("170141183460469231731687303715884105728");
    assert!(tokens.is_empty());
    assert_eq!(end, PseudoError::IntegerOverflow(pos(1, 40)));
}

#[test]
fn empty_source_ends_cleanly() {
    let mut scanner = Scanner::new(String::new());
    assert!(scanner.at_end());
    assert_eq!(
        scanner.scan_token(),
        Err(PseudoError::AdvancedPastEnd(pos(1, 1)))
    );
    assert_eq!(scanner.next(), None);
}

#[test]
fn advance_and_peek() {
    let mut scanner = Scanner::new("ab".to_string());
    assert!(!scanner.at_end());
    assert_eq!(scanner.peek(), Some('a'));
    assert_eq!(scanner.advance(), Ok('a'));
    assert_eq!(scanner.peek(), Some('b'));
    assert_eq!(scanner.advance(), Ok('b'));
    assert!(scanner.at_end());
    assert_eq!(scanner.peek(), None);
    assert_eq!(scanner.advance(), Err(PseudoError::AdvancedPastEnd(pos(1, 3))));
}

#[test]
fn iterator_style_pull() {
    let mut scanner = Scanner::new("print".to_string());
    let token = scanner.next().unwrap();
    assert_eq!(token.kind, TokenType::PRINT);
    assert_eq!(scanner.next(), None);
}

#[test]
fn string_may_hold_multibyte_characters() {
    // Offsets count characters, not bytes.
    let (tokens, _) = scan_all("\"né\"+");
    let kinds: Vec<_> = tokens.iter().map(|t| t.kind.clone()).collect();
    assert_eq!(
        kinds,
        vec![TokenType::STRING("né".to_string()), TokenType::PLUS]
    );
    assert_eq!((tokens[0].start, tokens[0].end), (0, 4));
    assert_eq!((tokens[1].start, tokens[1].end), (4, 5));
}

#[test]
fn identifiers_are_basic_alphabetic_only() {
    // A non-ASCII letter is matched by no dispatch rule.
    let (tokens, end) = scan_all("héllo");
    let kinds: Vec<_> = tokens.iter().map(|t| t.kind.clone()).collect();
    assert_eq!(kinds, vec![TokenType::IDENTIFIER("h".to_string())]);
    assert_eq!(
        end,
        PseudoError::UnexpectedCharacter('é', Position { line: 1, column: 3 })
    );
}

#[test]
fn digits_do_not_continue_an_identifier() {
    let kinds = scan_kinds("x1 12abc");
    assert_eq!(
        kinds,
        vec![
            TokenType::IDENTIFIER("x".to_string()),
            TokenType::INTEGER(1),
            TokenType::WHITESPACE,
            TokenType::INTEGER(12),
            TokenType::IDENTIFIER("abc".to_string()),
        ]
    );
}

#[test]
fn operators_bind_without_spaces() {
    let kinds = scan_kinds("a<=b!=c");
    assert_eq!(
        kinds,
        vec![
            TokenType::IDENTIFIER("a".to_string()),
            TokenType::LEQUAL,
            TokenType::IDENTIFIER("b".to_string()),
            TokenType::NEQUAL,
            TokenType::IDENTIFIER("c".to_string()),
        ]
    );
}

#[test]
fn token_new_packs_the_parts() {
    let token = Token::new(TokenType::EOF, pos(3, 1), &pos(3, 1), 17, 17);
    assert_eq!(token.kind, TokenType::EOF);
    assert_eq!(token.position, (pos(3, 1), pos(3, 1)));
    assert_eq!((token.start, token.end), (17, 17));
}
