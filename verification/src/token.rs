//! Tokens of the language, their mathematical counterparts, and the
//! lexical error taxonomy.

use vstd::prelude::*;

verus! {

/// The kind of delimiter a tokenizer has seen opened and not yet closed.
/// The balance stack holds these instead of raw characters so that every
/// match over them is exhaustive.
#[derive(Clone, Copy, PartialEq, Eq, Structural, Debug)]
pub enum Opener {
    Paren,
    Bracket,
    Curly,
}

/// Everything the tokenizer can reject, one variant per condition.
#[derive(Clone, Copy, PartialEq, Eq, Structural, Debug)]
pub enum LexError {
    /// `)` with no open delimiter at all.
    UnmatchedCloseParen,
    /// `)` whose innermost open delimiter is of another kind.
    MismatchedCloseParen,
    /// `]` with no open delimiter at all.
    UnmatchedCloseBracket,
    /// `]` whose innermost open delimiter is of another kind.
    MismatchedCloseBracket,
    /// `}` with no open delimiter at all.
    UnmatchedCloseCurly,
    /// `}` whose innermost open delimiter is of another kind.
    MismatchedCloseCurly,
    /// A `:` keyword marker with no keyword text after it.
    BareColon,
    /// A character that starts no token at all.
    IllegalChar,
}

/// A lexical token. Each variant but `EOF` carries the half-open span
/// `[start, end)` of character offsets it was read from.
#[derive(Clone, PartialEq, Debug)]
pub enum Symbols {
    EOF,
    LeftParen(u32, u32),
    RightParen(u32, u32),
    LeftBracket(u32, u32),
    RightBracket(u32, u32),
    LeftCurly(u32, u32),
    RightCurly(u32, u32),
    Hash(u32, u32),
    Plus(u32, u32),
    Minus(u32, u32),
    Mul(u32, u32),
    Divide(u32, u32),
    Questionmark(u32, u32),
    Apply(u32, u32),
    Def(u32, u32),
    Defn(u32, u32),
    Doc(u32, u32),
    Fn(u32, u32),
    First(u32, u32),
    Get(u32, u32),
    If(u32, u32),
    Let(u32, u32),
    MapKw(u32, u32),
    Name(u32, u32),
    Require(u32, u32),
    Second(u32, u32),
    When(u32, u32),
    Less(u32, u32),
    Greater(u32, u32),
    Equal(u32, u32),
    NotEqual(u32, u32),
    LiteralName(u32, u32, Box<String>),
    LiteralKeyword(u32, u32, Box<String>),
}

/// The mathematical value of a token: spans as integers, literal text as a
/// character sequence.
pub enum SpecToken {
    EOF,
    LeftParen(int, int),
    RightParen(int, int),
    LeftBracket(int, int),
    RightBracket(int, int),
    LeftCurly(int, int),
    RightCurly(int, int),
    Hash(int, int),
    Plus(int, int),
    Minus(int, int),
    Mul(int, int),
    Divide(int, int),
    Questionmark(int, int),
    Apply(int, int),
    Def(int, int),
    Defn(int, int),
    Doc(int, int),
    Fn(int, int),
    First(int, int),
    Get(int, int),
    If(int, int),
    Let(int, int),
    MapKw(int, int),
    Name(int, int),
    Require(int, int),
    Second(int, int),
    When(int, int),
    Less(int, int),
    Greater(int, int),
    Equal(int, int),
    NotEqual(int, int),
    LiteralName(int, int, Seq<char>),
    LiteralKeyword(int, int, Seq<char>),
}

impl View for Symbols {
    type V = SpecToken;

    open spec fn view(&self) -> SpecToken {
        match self {
            Symbols::EOF => SpecToken::EOF,
            Symbols::LeftParen(a, b) => SpecToken::LeftParen(*a as int, *b as int),
            Symbols::RightParen(a, b) => SpecToken::RightParen(*a as int, *b as int),
            Symbols::LeftBracket(a, b) => SpecToken::LeftBracket(*a as int, *b as int),
            Symbols::RightBracket(a, b) => SpecToken::RightBracket(*a as int, *b as int),
            Symbols::LeftCurly(a, b) => SpecToken::LeftCurly(*a as int, *b as int),
            Symbols::RightCurly(a, b) => SpecToken::RightCurly(*a as int, *b as int),
            Symbols::Hash(a, b) => SpecToken::Hash(*a as int, *b as int),
            Symbols::Plus(a, b) => SpecToken::Plus(*a as int, *b as int),
            Symbols::Minus(a, b) => SpecToken::Minus(*a as int, *b as int),
            Symbols::Mul(a, b) => SpecToken::Mul(*a as int, *b as int),
            Symbols::Divide(a, b) => SpecToken::Divide(*a as int, *b as int),
            Symbols::Questionmark(a, b) => SpecToken::Questionmark(*a as int, *b as int),
            Symbols::Apply(a, b) => SpecToken::Apply(*a as int, *b as int),
            Symbols::Def(a, b) => SpecToken::Def(*a as int, *b as int),
            Symbols::Defn(a, b) => SpecToken::Defn(*a as int, *b as int),
            Symbols::Doc(a, b) => SpecToken::Doc(*a as int, *b as int),
            Symbols::Fn(a, b) => SpecToken::Fn(*a as int, *b as int),
            Symbols::First(a, b) => SpecToken::First(*a as int, *b as int),
            Symbols::Get(a, b) => SpecToken::Get(*a as int, *b as int),
            Symbols::If(a, b) => SpecToken::If(*a as int, *b as int),
            Symbols::Let(a, b) => SpecToken::Let(*a as int, *b as int),
            Symbols::MapKw(a, b) => SpecToken::MapKw(*a as int, *b as int),
            Symbols::Name(a, b) => SpecToken::Name(*a as int, *b as int),
            Symbols::Require(a, b) => SpecToken::Require(*a as int, *b as int),
            Symbols::Second(a, b) => SpecToken::Second(*a as int, *b as int),
            Symbols::When(a, b) => SpecToken::When(*a as int, *b as int),
            Symbols::Less(a, b) => SpecToken::Less(*a as int, *b as int),
            Symbols::Greater(a, b) => SpecToken::Greater(*a as int, *b as int),
            Symbols::Equal(a, b) => SpecToken::Equal(*a as int, *b as int),
            Symbols::NotEqual(a, b) => SpecToken::NotEqual(*a as int, *b as int),
            Symbols::LiteralName(a, b, s) => SpecToken::LiteralName(*a as int, *b as int, s@),
            Symbols::LiteralKeyword(a, b, s) => SpecToken::LiteralKeyword(*a as int, *b as int, s@),
        }
    }
}

/// The value of an optional token, as the contract of the delimiter scanner
/// speaks of it.
pub open spec fn opt_symbol_view(r: Option<Symbols>) -> Option<SpecToken> {
    match r {
        Option::Some(s) => Option::Some(s@),
        Option::None => Option::None,
    }
}

/// The value of a tokenizer result, as the contract of `get_symbol` speaks
/// of it.
pub open spec fn symbol_result_view(r: Result<Symbols, LexError>) -> Result<SpecToken, LexError> {
    match r {
        Result::Ok(s) => Result::Ok(s@),
        Result::Err(e) => Result::Err(e),
    }
}

} // verus!
