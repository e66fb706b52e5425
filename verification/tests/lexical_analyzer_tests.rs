use lisp_reader::lexical_analyzer::{LexicalAnalyzer, LexicalAnalyzerMethods};
use lisp_reader::token::Symbols;

#[test]
fn operator_or_delimiter_list_start() {
    let mut lexer = Box::new(LexicalAnalyzer::new("  ("));

    match lexer.get_symbol() {
        Ok(x) => match x {
            Symbols::LeftParen(2, 3) => assert!(true),
            _ => assert!(false),
        },
        _ => assert!(false),
    }
}

#[test]
fn operator_or_delimiter_vector_start() {
    let mut lexer = Box::new(LexicalAnalyzer::new("  ["));

    match lexer.get_symbol() {
        Ok(x) => match x {
            Symbols::LeftBracket(2, 3) => assert!(true),
            _ => assert!(false),
        },
        _ => assert!(false),
    }
}

#[test]
fn operator_or_delimiter_dictionary_or_set_start() {
    let mut lexer = Box::new(LexicalAnalyzer::new("  {"));

    match lexer.get_symbol() {
        Ok(x) => match x {
            Symbols::LeftCurly(2, 3) => assert!(true),
            _ => assert!(false),
        },
        _ => assert!(false),
    }
}

#[test]
fn operator_or_delimiter_hash() {
    let mut lexer = Box::new(LexicalAnalyzer::new("  #"));

    match lexer.get_symbol() {
        Ok(x) => match x {
            Symbols::Hash(2, 3) => assert!(true),
            _ => assert!(false),
        },
        _ => assert!(false),
    }
}

#[test]
fn operator_or_delimiter_plus() {
    let mut lexer = Box::new(LexicalAnalyzer::new("  +"));

    match lexer.get_symbol() {
        Ok(x) => match x {
            Symbols::Plus(2, 3) => assert!(true),
            _ => assert!(false),
        },
        _ => assert!(false),
    }
}

#[test]
fn operator_or_delimiter_minus() {
    let mut lexer = Box::new(LexicalAnalyzer::new("  -"));

    match lexer.get_symbol() {
        Ok(x) => match x {
            Symbols::Minus(2, 3) => assert!(true),
            _ => assert!(false),
        },
        _ => assert!(false),
    }
}

#[test]
fn operator_or_delimiter_mul() {
    let mut lexer = Box::new(LexicalAnalyzer::new("  *"));

    match lexer.get_symbol() {
        Ok(x) => match x {
            Symbols::Mul(2, 3) => assert!(true),
            _ => assert!(false),
        },
        _ => assert!(false),
    }
}

#[test]
fn operator_or_delimiter_div() {
    let mut lexer = Box::new(LexicalAnalyzer::new("  /"));

    match lexer.get_symbol() {
        Ok(x) => match x {
            Symbols::Divide(2, 3) => assert!(true),
            _ => assert!(false),
        },
        _ => assert!(false),
    }
}

#[test]
fn operator_or_delimiter_questionmark() {
    let mut lexer = Box::new(LexicalAnalyzer::new("  ?"));

    match lexer.get_symbol() {
        Ok(x) => match x {
            Symbols::Questionmark(2, 3) => assert!(true),
            _ => assert!(false),
        },
        _ => assert!(false),
    }
}

#[test]
fn operator_or_delimiter_less() {
    let mut lexer = Box::new(LexicalAnalyzer::new("  <"));

    match lexer.get_symbol() {
        Ok(x) => match x {
            Symbols::Less(2, 3) => assert!(true),
            _ => assert!(false),
        },
        _ => assert!(false),
    }
}

#[test]
fn operator_or_delimiter_greater() {
    let mut lexer = Box::new(LexicalAnalyzer::new("  >"));

    match lexer.get_symbol() {
        Ok(x) => match x {
            Symbols::Greater(2, 3) => assert!(true),
            _ => assert!(false),
        },
        _ => assert!(false),
    }
}

#[test]
fn operator_or_delimiter_equal() {
    let mut lexer = Box::new(LexicalAnalyzer::new("  ="));

    match lexer.get_symbol() {
        Ok(x) => match x {
            Symbols::Equal(2, 3) => assert!(true),
            _ => assert!(false),
        },
        _ => assert!(false),
    }
}

#[test]
fn keyword_apply() {
    let mut lexer = Box::new(LexicalAnalyzer::new("apply"));

    match lexer.get_symbol() {
        Ok(x) => match x {
            Symbols::Apply(0, 5) => assert!(true),
            _ => assert!(false),
        },
        _ => assert!(false),
    }
}

#[test]
fn keyword_def() {
    let mut lexer = Box::new(LexicalAnalyzer::new("  def"));

    match lexer.get_symbol() {
        Ok(x) => match x {
            Symbols::Def(2, 5) => assert!(true),
            _ => assert!(false),
        },
        _ => assert!(false),
    }
}

#[test]
fn keyword_defn() {
    let mut lexer = Box::new(LexicalAnalyzer::new("defn"));

    match lexer.get_symbol() {
        Ok(x) => match x {
            Symbols::Defn(0, 4) => assert!(true),
            _ => assert!(false),
        },
        _ => assert!(false),
    }
}

#[test]
fn keyword_doc() {
    let mut lexer = Box::new(LexicalAnalyzer::new("doc"));

    match lexer.get_symbol() {
        Ok(x) => match x {
            Symbols::Doc(0, 3) => assert!(true),
            _ => assert!(false),
        },
        _ => assert!(false),
    }
}

#[test]
fn keyword_fn() {
    let mut lexer = Box::new(LexicalAnalyzer::new("fn"));

    match lexer.get_symbol() {
        Ok(x) => match x {
            Symbols::Fn(0, 2) => assert!(true),
            _ => assert!(false),
        },
        _ => assert!(false),
    }
}

#[test]
fn keyword_first() {
    let mut lexer = Box::new(LexicalAnalyzer::new("first"));

    match lexer.get_symbol() {
        Ok(x) => match x {
            Symbols::First(0, 5) => assert!(true),
            _ => assert!(false),
        },
        _ => assert!(false),
    }
}

#[test]
fn keyword_get() {
    let mut lexer = Box::new(LexicalAnalyzer::new("get"));

    match lexer.get_symbol() {
        Ok(x) => match x {
            Symbols::Get(0, 3) => assert!(true),
            _ => assert!(false),
        },
        _ => assert!(false),
    }
}

#[test]
fn keyword_if() {
    let mut lexer = Box::new(LexicalAnalyzer::new("if"));

    match lexer.get_symbol() {
        Ok(x) => match x {
            Symbols::If(0, 2) => assert!(true),
            _ => assert!(false),
        },
        _ => assert!(false),
    }
}

#[test]
fn keyword_let() {
    let mut lexer = Box::new(LexicalAnalyzer::new("let"));

    match lexer.get_symbol() {
        Ok(x) => match x {
            Symbols::Let(0, 3) => assert!(true),
            _ => assert!(false),
        },
        _ => assert!(false),
    }
}

#[test]
fn keyword_map() {
    let mut lexer = Box::new(LexicalAnalyzer::new("map"));

    match lexer.get_symbol() {
        Ok(x) => match x {
            Symbols::MapKw(0, 3) => assert!(true),
            _ => assert!(false),
        },
        _ => assert!(false),
    }
}

#[test]
fn keyword_name() {
    let mut lexer = Box::new(LexicalAnalyzer::new("name"));

    match lexer.get_symbol() {
        Ok(x) => match x {
            Symbols::Name(0, 4) => assert!(true),
            _ => assert!(false),
        },
        _ => assert!(false),
    }
}

#[test]
fn keyword_require() {
    let mut lexer = Box::new(LexicalAnalyzer::new("require"));

    match lexer.get_symbol() {
        Ok(x) => match x {
            Symbols::Require(0, 7) => assert!(true),
            _ => assert!(false),
        },
        _ => assert!(false),
    }
}

#[test]
fn keyword_second() {
    let mut lexer = Box::new(LexicalAnalyzer::new("second"));

    match lexer.get_symbol() {
        Ok(x) => match x {
            Symbols::Second(0, 6) => assert!(true),
            _ => assert!(false),
        },
        _ => assert!(false),
    }
}

#[test]
fn keyword_when() {
    let mut lexer = Box::new(LexicalAnalyzer::new("when"));

    match lexer.get_symbol() {
        Ok(x) => match x {
            Symbols::When(0, 4) => assert!(true),
            _ => assert!(false),
        },
        _ => assert!(false),
    }
}

#[test]
fn keyword_not_equal() {
    let mut lexer = Box::new(LexicalAnalyzer::new("not="));

    match lexer.get_symbol() {
        Ok(x) => match x {
            Symbols::NotEqual(0, 4) => assert!(true),
            _ => assert!(false),
        },
        _ => assert!(false),
    }
}

#[test]
fn operator_or_delimiter_list_end() {
    let mut lexer = Box::new(LexicalAnalyzer::new("  ()"));

    match lexer.get_symbol() {
        Ok(x) => match x {
            Symbols::LeftParen(2, 3) => assert!(true),
            _ => assert!(false),
        },
        _ => assert!(false),
    }
    match lexer.get_symbol() {
        Ok(x) => match x {
            Symbols::RightParen(3, 4) => assert!(true),
            _ => assert!(false),
        },
        _ => assert!(false),
    }
}

#[test]
fn operator_or_delimiter_vector_end() {
    let mut lexer = Box::new(LexicalAnalyzer::new("  []"));

    match lexer.get_symbol() {
        Ok(x) => match x {
            Symbols::LeftBracket(2, 3) => assert!(true),
            _ => assert!(false),
        },
        _ => assert!(false),
    }
    match lexer.get_symbol() {
        Ok(x) => match x {
            Symbols::RightBracket(3, 4) => assert!(true),
            _ => assert!(false),
        },
        _ => assert!(false),
    }
}

#[test]
fn operator_or_delimiter_dictionary_or_set_end() {
    let mut lexer = Box::new(LexicalAnalyzer::new("  {}"));

    match lexer.get_symbol() {
        Ok(x) => match x {
            Symbols::LeftCurly(2, 3) => assert!(true),
            _ => assert!(false),
        },
        _ => assert!(false),
    }
    match lexer.get_symbol() {
        Ok(x) => match x {
            Symbols::RightCurly(3, 4) => assert!(true),
            _ => assert!(false),
        },
        _ => assert!(false),
    }
}

#[test]
fn operator_or_delimiter_multiple() {
    let mut lexer = Box::new(LexicalAnalyzer::new("([{}])"));

    match lexer.get_symbol() {
        Ok(x) => match x {
            Symbols::LeftParen(0, 1) => assert!(true),
            _ => assert!(false),
        },
        _ => assert!(false),
    }
    match lexer.get_symbol() {
        Ok(x) => match x {
            Symbols::LeftBracket(1, 2) => assert!(true),
            _ => assert!(false),
        },
        _ => assert!(false),
    }
    match lexer.get_symbol() {
        Ok(x) => match x {
            Symbols::LeftCurly(2, 3) => assert!(true),
            _ => assert!(false),
        },
        _ => assert!(false),
    }
    match lexer.get_symbol() {
        Ok(x) => match x {
            Symbols::RightCurly(3, 4) => assert!(true),
            _ => assert!(false),
        },
        _ => assert!(false),
    }
    match lexer.get_symbol() {
        Ok(x) => match x {
            Symbols::RightBracket(4, 5) => assert!(true),
            _ => assert!(false),
        },
        _ => assert!(false),
    }
    match lexer.get_symbol() {
        Ok(x) => match x {
            Symbols::RightParen(5, 6) => assert!(true),
            _ => assert!(false),
        },
        _ => assert!(false),
    }
}

#[test]
fn keyword_not_equal_missing_equal() {
    let mut lexer = Box::new(LexicalAnalyzer::new("not"));

    match lexer.get_symbol() {
        Ok(x) => match x {
            Symbols::LiteralName(0, 3, text) => match text.as_str() {
                "not" => assert!(true),
                _ => assert!(false),
            },
            _ => assert!(false),
        },
        _ => assert!(false),
    }
}

#[test]
fn single_semicolon_comment() {
    let mut lexer = Box::new(LexicalAnalyzer::new("; This is a comment with single semicolon start!"));

    match lexer.get_symbol() {
        Ok(x) => match x {
            Symbols::EOF => assert!(true),
            _ => assert!(false),
        },
        _ => assert!(false),
    }
}

#[test]
fn double_semicolon_comment() {
    let mut lexer = Box::new(LexicalAnalyzer::new(";; This is a comment with double semicolon start!"));

    match lexer.get_symbol() {
        Ok(x) => match x {
            Symbols::EOF => assert!(true),
            _ => assert!(false),
        },
        _ => assert!(false),
    }
}

#[test]
fn multi_semicolon_comment() {
    let mut lexer = Box::new(LexicalAnalyzer::new(";;;;;;;;; This is a comment with multiple semicolon start!"));

    match lexer.get_symbol() {
        Ok(x) => match x {
            Symbols::EOF => assert!(true),
            _ => assert!(false),
        },
        _ => assert!(false),
    }
}
