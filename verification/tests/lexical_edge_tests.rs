use lisp_reader::lexical_analyzer::{LexicalAnalyzer, LexicalAnalyzerMethods};
use lisp_reader::token::{LexError, Symbols};

fn first_symbol(input: &'static str) -> Result<Symbols, LexError> {
    let mut lexer = LexicalAnalyzer::new(input);
    lexer.get_symbol()
}

fn second_symbol(input: &'static str) -> Result<Symbols, LexError> {
    let mut lexer = LexicalAnalyzer::new(input);
    let _ = lexer.get_symbol();
    lexer.get_symbol()
}

#[test]
fn close_paren_without_opener() {
    assert_eq!(first_symbol(")"), Err(LexError::UnmatchedCloseParen));
}

#[test]
fn close_paren_with_wrong_opener() {
    assert_eq!(second_symbol("[)"), Err(LexError::MismatchedCloseParen));
}

#[test]
fn close_bracket_without_opener() {
    assert_eq!(first_symbol("]"), Err(LexError::UnmatchedCloseBracket));
}

#[test]
fn close_bracket_with_wrong_opener() {
    assert_eq!(second_symbol("(]"), Err(LexError::MismatchedCloseBracket));
}

#[test]
fn close_curly_without_opener() {
    assert_eq!(first_symbol("}"), Err(LexError::UnmatchedCloseCurly));
}

#[test]
fn close_curly_with_wrong_opener() {
    assert_eq!(second_symbol("(}"), Err(LexError::MismatchedCloseCurly));
}

#[test]
fn bare_colon_is_an_error() {
    assert_eq!(first_symbol(":"), Err(LexError::BareColon));
}

#[test]
fn colon_with_name_is_keyword_literal() {
    match first_symbol(":x") {
        Ok(Symbols::LiteralKeyword(0, 2, text)) => assert_eq!(text.as_str(), ":x"),
        _ => assert!(false),
    }
}

#[test]
fn illegal_character_is_an_error() {
    assert_eq!(first_symbol("!"), Err(LexError::IllegalChar));
    assert_eq!(first_symbol("7"), Err(LexError::IllegalChar));
}

#[test]
fn mismatch_error_does_not_leak_into_next_call() {
    // The pending mismatch is raised and cleared by the same call; the
    // character is not consumed, so the next call reports it afresh.
    let mut lexer = LexicalAnalyzer::new("[)");
    assert!(matches!(lexer.get_symbol(), Ok(Symbols::LeftBracket(0, 1))));
    assert_eq!(lexer.get_symbol(), Err(LexError::MismatchedCloseParen));
    assert_eq!(lexer.get_symbol(), Err(LexError::MismatchedCloseParen));
}

#[test]
fn keyword_with_trailing_character_is_a_name() {
    match first_symbol("applyx") {
        Ok(Symbols::LiteralName(0, 6, text)) => assert_eq!(text.as_str(), "applyx"),
        _ => assert!(false),
    }
    match first_symbol("map9") {
        Ok(Symbols::LiteralName(0, 4, text)) => assert_eq!(text.as_str(), "map9"),
        _ => assert!(false),
    }
}

#[test]
fn def_with_trailing_n_is_the_keyword_defn() {
    assert!(matches!(first_symbol("defn"), Ok(Symbols::Defn(0, 4))));
}

#[test]
fn not_with_trailing_name_character_is_one_name() {
    match first_symbol("nota") {
        Ok(Symbols::LiteralName(0, 4, text)) => assert_eq!(text.as_str(), "nota"),
        _ => assert!(false),
    }
}

#[test]
fn not_then_space_then_equal_is_a_name() {
    let mut lexer = LexicalAnalyzer::new("not =");
    match lexer.get_symbol() {
        Ok(Symbols::LiteralName(0, 3, text)) => assert_eq!(text.as_str(), "not"),
        _ => assert!(false),
    }
    assert!(matches!(lexer.get_symbol(), Ok(Symbols::Equal(4, 5))));
}

#[test]
fn underscore_starts_a_name() {
    match first_symbol("_x") {
        Ok(Symbols::LiteralName(0, 2, text)) => assert_eq!(text.as_str(), "_x"),
        _ => assert!(false),
    }
}

#[test]
fn spans_count_characters_not_bytes() {
    // A two-byte letter still occupies one character offset.
    let mut lexer = LexicalAnalyzer::new("\u{e9} (");
    match lexer.get_symbol() {
        Ok(Symbols::LiteralName(0, 1, text)) => assert_eq!(text.as_str(), "\u{e9}"),
        _ => assert!(false),
    }
    assert!(matches!(lexer.get_symbol(), Ok(Symbols::LeftParen(2, 3))));
}

#[test]
fn eof_is_idempotent() {
    let mut lexer = LexicalAnalyzer::new("  ");
    assert!(matches!(lexer.get_symbol(), Ok(Symbols::EOF)));
    assert!(matches!(lexer.get_symbol(), Ok(Symbols::EOF)));
    assert!(matches!(lexer.get_symbol(), Ok(Symbols::EOF)));
}

#[test]
fn comment_without_newline_runs_to_end() {
    let mut lexer = LexicalAnalyzer::new("( ; trailing");
    assert!(matches!(lexer.get_symbol(), Ok(Symbols::LeftParen(0, 1))));
    assert!(matches!(lexer.get_symbol(), Ok(Symbols::EOF)));
}
