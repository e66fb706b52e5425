use lisp_reader::expression_parser::{ExpressionParser, ExpressionParserMethods};
use lisp_reader::lexical_analyzer::{LexicalAnalyzer, LexicalAnalyzerMethods};
use lisp_reader::node::{Node, ParseError};
use lisp_reader::token::{LexError, Symbols};

fn parse(input: &'static str) -> Result<Node, ParseError> {
    let lexer = LexicalAnalyzer::new(input);
    let mut parser = ExpressionParser::new(lexer);
    parser.parse_start_unit()
}

#[test]
fn empty_unit() {
    let lexer = LexicalAnalyzer::new(";; This is an empty unit ()");
    let mut parser = ExpressionParser::new(lexer);
    let res = parser.parse_start_unit();

    match res {
        Ok(x) => match x {
            Node::Unit(lst) => {
                assert_eq!(lst.len(), (0 as usize))
            },
            _ => assert!(false),
        },
        _ => assert!(false),
    }
}

#[test]
fn whitespace_only_unit_is_empty() {
    match parse(" \t\r\n  ") {
        Ok(Node::Unit(lst)) => assert_eq!(lst.len(), 0),
        _ => assert!(false),
    }
}

#[test]
fn comment_then_list() {
    // The comment is skipped; the list follows on the next line.
    let mut lexer = Box::new(LexicalAnalyzer::new(";; comment\n()"));
    match lexer.get_symbol() {
        Ok(Symbols::LeftParen(11, 12)) => {},
        _ => assert!(false),
    }
    match lexer.get_symbol() {
        Ok(Symbols::RightParen(12, 13)) => {},
        _ => assert!(false),
    }
    match lexer.get_symbol() {
        Ok(Symbols::EOF) => {},
        _ => assert!(false),
    }

    match parse(";; comment\n()") {
        Ok(Node::Unit(lst)) => {
            assert_eq!(lst.len(), 1);
            match &lst[0] {
                Node::List(11, 13, Symbols::LeftParen(11, 12), children, Symbols::RightParen(
                    12,
                    13,
                )) => assert_eq!(children.len(), 0),
                _ => assert!(false),
            }
        },
        _ => assert!(false),
    }
}

#[test]
fn empty_map_inside_vector() {
    match parse("[{} ]") {
        Ok(Node::Unit(lst)) => {
            assert_eq!(lst.len(), 1);
            match &lst[0] {
                Node::Vector(0, 5, Symbols::LeftBracket(0, 1), children, Symbols::RightBracket(
                    4,
                    5,
                )) => {
                    assert_eq!(children.len(), 1);
                    match &children[0] {
                        Node::MapForm(1, 3, Symbols::LeftCurly(1, 2), keys, vals,
                            Symbols::RightCurly(2, 3)) => {
                            assert_eq!(keys.len(), 0);
                            assert_eq!(vals.len(), 0);
                        },
                        _ => assert!(false),
                    }
                },
                _ => assert!(false),
            }
        },
        _ => assert!(false),
    }
}

#[test]
fn balanced_delimiters_nest() {
    match parse("([{}])") {
        Ok(Node::Unit(lst)) => {
            assert_eq!(lst.len(), 1);
            match &lst[0] {
                Node::List(0, 6, Symbols::LeftParen(0, 1), children, Symbols::RightParen(5, 6)) => {
                    assert_eq!(children.len(), 1);
                    match &children[0] {
                        Node::Vector(1, 5, Symbols::LeftBracket(1, 2), inner,
                            Symbols::RightBracket(4, 5)) => {
                            assert_eq!(inner.len(), 1);
                            match &inner[0] {
                                Node::MapForm(2, 4, Symbols::LeftCurly(2, 3), keys, vals,
                                    Symbols::RightCurly(3, 4)) => {
                                    assert_eq!(keys.len(), 0);
                                    assert_eq!(vals.len(), 0);
                                },
                                _ => assert!(false),
                            }
                        },
                        _ => assert!(false),
                    }
                },
                _ => assert!(false),
            }
        },
        _ => assert!(false),
    }
}

#[test]
fn set_literal_parses() {
    match parse("#{()}") {
        Ok(Node::Unit(lst)) => {
            assert_eq!(lst.len(), 1);
            match &lst[0] {
                Node::SetForm(0, 5, Symbols::Hash(0, 1), children, Symbols::RightCurly(4, 5)) => {
                    assert_eq!(children.len(), 1);
                    match &children[0] {
                        Node::List(2, 4, Symbols::LeftParen(2, 3), inner, Symbols::RightParen(
                            3,
                            4,
                        )) => assert_eq!(inner.len(), 0),
                        _ => assert!(false),
                    }
                },
                _ => assert!(false),
            }
        },
        _ => assert!(false),
    }
}

#[test]
fn hash_without_curly_fails() {
    assert_eq!(parse("#a"), Err(ParseError::ExpectedCurlyAfterHash));
}

#[test]
fn hash_with_detached_curly_fails() {
    assert_eq!(parse("# {}"), Err(ParseError::ExpectedCurlyAfterHash));
}

#[test]
fn map_with_odd_arity_fails() {
    assert_eq!(parse("{a b c}"), Err(ParseError::OddMapArity));
}

#[test]
fn map_with_one_pair_parses() {
    match parse("{a b}") {
        Ok(Node::Unit(lst)) => {
            assert_eq!(lst.len(), 1);
            match &lst[0] {
                Node::MapForm(0, 5, Symbols::LeftCurly(0, 1), keys, vals, Symbols::RightCurly(
                    4,
                    5,
                )) => {
                    assert_eq!(keys.len(), 1);
                    assert_eq!(vals.len(), 1);
                    match &keys[0] {
                        Node::Leaf(Symbols::LiteralName(1, 2, text)) => assert_eq!(
                            text.as_str(),
                            "a"
                        ),
                        _ => assert!(false),
                    }
                    match &vals[0] {
                        Node::Leaf(Symbols::LiteralName(3, 4, text)) => assert_eq!(
                            text.as_str(),
                            "b"
                        ),
                        _ => assert!(false),
                    }
                },
                _ => assert!(false),
            }
        },
        _ => assert!(false),
    }
}

#[test]
fn map_pairs_alternate() {
    match parse("{a b c d}") {
        Ok(Node::Unit(lst)) => match &lst[0] {
            Node::MapForm(_, _, _, keys, vals, _) => {
                assert_eq!(keys.len(), 2);
                assert_eq!(vals.len(), 2);
                match (&keys[0], &keys[1], &vals[0], &vals[1]) {
                    (
                        Node::Leaf(Symbols::LiteralName(_, _, k0)),
                        Node::Leaf(Symbols::LiteralName(_, _, k1)),
                        Node::Leaf(Symbols::LiteralName(_, _, v0)),
                        Node::Leaf(Symbols::LiteralName(_, _, v1)),
                    ) => {
                        assert_eq!(k0.as_str(), "a");
                        assert_eq!(k1.as_str(), "c");
                        assert_eq!(v0.as_str(), "b");
                        assert_eq!(v1.as_str(), "d");
                    },
                    _ => assert!(false),
                }
            },
            _ => assert!(false),
        },
        _ => assert!(false),
    }
}

#[test]
fn digits_are_illegal_characters() {
    // The vocabulary has no numeric literals: a digit starts no token.
    assert_eq!(parse("{1 2 3}"), Err(ParseError::Lexical(LexError::IllegalChar)));
}

#[test]
fn unterminated_list_fails() {
    assert_eq!(parse("("), Err(ParseError::UnterminatedForm));
}

#[test]
fn bare_closer_fails_the_reader() {
    assert_eq!(parse(")"), Err(ParseError::Lexical(LexError::UnmatchedCloseParen)));
}

#[test]
fn bare_leaf_at_top_level_is_syntax_error() {
    assert_eq!(parse("+"), Err(ParseError::Syntax));
    assert_eq!(parse("apply"), Err(ParseError::Syntax));
    assert_eq!(parse("x"), Err(ParseError::Syntax));
}

#[test]
fn leaves_inside_list_are_kept_in_order() {
    match parse("(+ a :k not= when)") {
        Ok(Node::Unit(lst)) => match &lst[0] {
            Node::List(0, 18, Symbols::LeftParen(0, 1), children, Symbols::RightParen(17, 18)) => {
                assert_eq!(children.len(), 5);
                assert!(matches!(children[0], Node::Leaf(Symbols::Plus(1, 2))));
                match &children[1] {
                    Node::Leaf(Symbols::LiteralName(3, 4, t)) => assert_eq!(t.as_str(), "a"),
                    _ => assert!(false),
                }
                match &children[2] {
                    Node::Leaf(Symbols::LiteralKeyword(5, 7, t)) => assert_eq!(t.as_str(), ":k"),
                    _ => assert!(false),
                }
                assert!(matches!(children[3], Node::Leaf(Symbols::NotEqual(8, 12))));
                assert!(matches!(children[4], Node::Leaf(Symbols::When(13, 17))));
            },
            _ => assert!(false),
        },
        _ => assert!(false),
    }
}
