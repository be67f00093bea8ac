use not_pseudocode::token::{parse_keyword, TokenType};

#[test]
fn every_keyword_is_found() {
    let table = [
        ("and", TokenType::AND),
        ("not", TokenType::NOT),
        ("class", TokenType::CLASS),
        ("false", TokenType::FALSE),
        ("true", TokenType::TRUE),
        ("function", TokenType::FUNCTION),
        ("endfunction", TokenType::ENDFUNCTION),
        ("for", TokenType::FOR),
        ("next", TokenType::NEXT),
        ("if", TokenType::IF),
        ("elseif", TokenType::ELSEIF),
        ("else", TokenType::ELSE),
        ("endif", TokenType::ENDIF),
        ("or", TokenType::OR),
        ("print", TokenType::PRINT),
        ("return", TokenType::RETURN),
        ("while", TokenType::WHILE),
        ("endwhile", TokenType::ENDWHILE),
    ];
    for (spelling, kind) in table {
        assert_eq!(parse_keyword(spelling), Some(kind));
    }
}

#[test]
fn lookup_is_case_sensitive() {
    assert_eq!(parse_keyword("AND"), None);
    assert_eq!(parse_keyword("If"), None);
    assert_eq!(parse_keyword("ENDWHILE"), None);
}

#[test]
fn non_keywords_miss() {
    assert_eq!(parse_keyword(""), None);
    assert_eq!(parse_keyword("idx"), None);
    assert_eq!(parse_keyword("functions"), None);
    assert_eq!(parse_keyword("end"), None);
}
