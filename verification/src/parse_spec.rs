//! The mathematical description of the reader: what the recursive-descent
//! parser returns for any buffer and any starting state. The executable
//! reader is proved equal to these functions.

use vstd::prelude::*;
use crate::lex_spec::{lex_next, LexStep};
use crate::node::{ParseError, SpecNode};
use crate::token::{LexError, Opener, SpecToken};

verus! {

/// The reader's state between two token requests: the tokenizer's cursor and
/// balance stack, and the one-token lookahead.
pub struct ReadState {
    pub pos: int,
    pub opens: Seq<Opener>,
    pub tok: Result<SpecToken, LexError>,
}

/// The state after requesting the next token.
pub open spec fn next_state(buf: Seq<char>, s: ReadState) -> ReadState {
    let st = lex_next(buf, s.pos, s.opens);
    ReadState { pos: st.pos, opens: st.opens, tok: st.token }
}

/// How much of the reader's work remains in a state. Loading a token past an
/// ordinary lookahead always shrinks it, which is what parsing recurses on.
pub open spec fn token_weight(t: Result<SpecToken, LexError>) -> int {
    match t {
        Result::Ok(SpecToken::EOF) => 0,
        Result::Ok(_) => 2,
        Result::Err(_) => 1,
    }
}

pub open spec fn state_measure(buf: Seq<char>, s: ReadState) -> int {
    2 * (buf.len() - s.pos) + token_weight(s.tok)
}

/// Whether `t` is the closing token for delimiter kind `k`.
pub open spec fn closes(t: SpecToken, k: Opener) -> bool {
    match k {
        Opener::Paren => t is RightParen,
        Opener::Bracket => t is RightBracket,
        Opener::Curly => t is RightCurly,
    }
}

/// The start offset of a token's span.
pub open spec fn token_lo(t: SpecToken) -> int {
    match t {
        SpecToken::EOF => 0,
        SpecToken::LeftParen(a, _) => a,
        SpecToken::RightParen(a, _) => a,
        SpecToken::LeftBracket(a, _) => a,
        SpecToken::RightBracket(a, _) => a,
        SpecToken::LeftCurly(a, _) => a,
        SpecToken::RightCurly(a, _) => a,
        SpecToken::Hash(a, _) => a,
        SpecToken::Plus(a, _) => a,
        SpecToken::Minus(a, _) => a,
        SpecToken::Mul(a, _) => a,
        SpecToken::Divide(a, _) => a,
        SpecToken::Questionmark(a, _) => a,
        SpecToken::Apply(a, _) => a,
        SpecToken::Def(a, _) => a,
        SpecToken::Defn(a, _) => a,
        SpecToken::Doc(a, _) => a,
        SpecToken::Fn(a, _) => a,
        SpecToken::First(a, _) => a,
        SpecToken::Get(a, _) => a,
        SpecToken::If(a, _) => a,
        SpecToken::Let(a, _) => a,
        SpecToken::MapKw(a, _) => a,
        SpecToken::Name(a, _) => a,
        SpecToken::Require(a, _) => a,
        SpecToken::Second(a, _) => a,
        SpecToken::When(a, _) => a,
        SpecToken::Less(a, _) => a,
        SpecToken::Greater(a, _) => a,
        SpecToken::Equal(a, _) => a,
        SpecToken::NotEqual(a, _) => a,
        SpecToken::LiteralName(a, _, _) => a,
        SpecToken::LiteralKeyword(a, _, _) => a,
    }
}

/// The end offset of a token's span.
pub open spec fn token_hi(t: SpecToken) -> int {
    match t {
        SpecToken::EOF => 0,
        SpecToken::LeftParen(_, b) => b,
        SpecToken::RightParen(_, b) => b,
        SpecToken::LeftBracket(_, b) => b,
        SpecToken::RightBracket(_, b) => b,
        SpecToken::LeftCurly(_, b) => b,
        SpecToken::RightCurly(_, b) => b,
        SpecToken::Hash(_, b) => b,
        SpecToken::Plus(_, b) => b,
        SpecToken::Minus(_, b) => b,
        SpecToken::Mul(_, b) => b,
        SpecToken::Divide(_, b) => b,
        SpecToken::Questionmark(_, b) => b,
        SpecToken::Apply(_, b) => b,
        SpecToken::Def(_, b) => b,
        SpecToken::Defn(_, b) => b,
        SpecToken::Doc(_, b) => b,
        SpecToken::Fn(_, b) => b,
        SpecToken::First(_, b) => b,
        SpecToken::Get(_, b) => b,
        SpecToken::If(_, b) => b,
        SpecToken::Let(_, b) => b,
        SpecToken::MapKw(_, b) => b,
        SpecToken::Name(_, b) => b,
        SpecToken::Require(_, b) => b,
        SpecToken::Second(_, b) => b,
        SpecToken::When(_, b) => b,
        SpecToken::Less(_, b) => b,
        SpecToken::Greater(_, b) => b,
        SpecToken::Equal(_, b) => b,
        SpecToken::NotEqual(_, b) => b,
        SpecToken::LiteralName(_, b, _) => b,
        SpecToken::LiteralKeyword(_, b, _) => b,
    }
}

/// The keys of a map body: the forms at even positions.
pub open spec fn map_keys(cs: Seq<SpecNode>) -> Seq<SpecNode> {
    Seq::new(cs.len() / 2, |i: int| cs[2 * i])
}

/// The values of a map body: the forms at odd positions.
pub open spec fn map_values(cs: Seq<SpecNode>) -> Seq<SpecNode> {
    Seq::new(cs.len() / 2, |i: int| cs[2 * i + 1])
}

/// What parsing one form does: the node or error, and the state after it.
pub struct FormStep {
    pub node: Result<SpecNode, ParseError>,
    pub state: ReadState,
}

/// What parsing a delimited body does: the child forms and the closing
/// token, or the error, and the state after the closing token.
pub struct BodyStep {
    pub body: Result<(Seq<SpecNode>, SpecToken), ParseError>,
    pub state: ReadState,
}

/// What reading the forms of a whole source text does.
pub struct UnitStep {
    pub forms: Result<Seq<SpecNode>, ParseError>,
    pub state: ReadState,
}

/// One form: a list, vector, map or set when the lookahead opens one, a leaf
/// for literals, keywords and operators, and an error otherwise.
pub open spec fn parse_form_spec(buf: Seq<char>, s: ReadState) -> FormStep
    decreases state_measure(buf, s), 1int,
{
    match s.tok {
        Result::Err(e) => FormStep { node: Result::Err(ParseError::Lexical(e)), state: s },
        Result::Ok(t) => match t {
            SpecToken::LeftParen(a, _) => {
                let s1 = next_state(buf, s);
                if 0 <= state_measure(buf, s1) < state_measure(buf, s) {
                    let bs = parse_body_spec(buf, s1, Opener::Paren);
                    match bs.body {
                        Result::Ok((cs, close)) => FormStep {
                            node: Result::Ok(SpecNode::List(a, token_hi(close), t, cs, close)),
                            state: bs.state,
                        },
                        Result::Err(e) => FormStep { node: Result::Err(e), state: bs.state },
                    }
                } else {
                    FormStep { node: Result::Err(ParseError::Syntax), state: s1 }
                }
            },
            SpecToken::LeftBracket(a, _) => {
                let s1 = next_state(buf, s);
                if 0 <= state_measure(buf, s1) < state_measure(buf, s) {
                    let bs = parse_body_spec(buf, s1, Opener::Bracket);
                    match bs.body {
                        Result::Ok((cs, close)) => FormStep {
                            node: Result::Ok(SpecNode::Vector(a, token_hi(close), t, cs, close)),
                            state: bs.state,
                        },
                        Result::Err(e) => FormStep { node: Result::Err(e), state: bs.state },
                    }
                } else {
                    FormStep { node: Result::Err(ParseError::Syntax), state: s1 }
                }
            },
            SpecToken::LeftCurly(a, _) => {
                let s1 = next_state(buf, s);
                if 0 <= state_measure(buf, s1) < state_measure(buf, s) {
                    let bs = parse_body_spec(buf, s1, Opener::Curly);
                    match bs.body {
                        Result::Ok((cs, close)) => {
                            if cs.len() % 2 == 0 {
                                FormStep {
                                    node: Result::Ok(
                                        SpecNode::MapForm(
                                            a,
                                            token_hi(close),
                                            t,
                                            map_keys(cs),
                                            map_values(cs),
                                            close,
                                        ),
                                    ),
                                    state: bs.state,
                                }
                            } else {
                                FormStep {
                                    node: Result::Err(ParseError::OddMapArity),
                                    state: bs.state,
                                }
                            }
                        },
                        Result::Err(e) => FormStep { node: Result::Err(e), state: bs.state },
                    }
                } else {
                    FormStep { node: Result::Err(ParseError::Syntax), state: s1 }
                }
            },
            SpecToken::Hash(a, b) => {
                let s1 = next_state(buf, s);
                if 0 <= state_measure(buf, s1) < state_measure(buf, s) {
                    match s1.tok {
                        Result::Err(e) => FormStep {
                            node: Result::Err(ParseError::Lexical(e)),
                            state: s1,
                        },
                        Result::Ok(SpecToken::LeftCurly(c, _)) => {
                            if c == b {
                                let s2 = next_state(buf, s1);
                                if 0 <= state_measure(buf, s2) < state_measure(buf, s1) {
                                    let bs = parse_body_spec(buf, s2, Opener::Curly);
                                    match bs.body {
                                        Result::Ok((cs, close)) => FormStep {
                                            node: Result::Ok(
                                                SpecNode::SetForm(a, token_hi(close), t, cs, close),
                                            ),
                                            state: bs.state,
                                        },
                                        Result::Err(e) => FormStep {
                                            node: Result::Err(e),
                                            state: bs.state,
                                        },
                                    }
                                } else {
                                    FormStep { node: Result::Err(ParseError::Syntax), state: s2 }
                                }
                            } else {
                                FormStep {
                                    node: Result::Err(ParseError::ExpectedCurlyAfterHash),
                                    state: s1,
                                }
                            }
                        },
                        Result::Ok(_) => FormStep {
                            node: Result::Err(ParseError::ExpectedCurlyAfterHash),
                            state: s1,
                        },
                    }
                } else {
                    FormStep { node: Result::Err(ParseError::Syntax), state: s1 }
                }
            },
            SpecToken::EOF => FormStep { node: Result::Err(ParseError::Syntax), state: s },
            SpecToken::RightParen(_, _) => FormStep {
                node: Result::Err(ParseError::Syntax),
                state: s,
            },
            SpecToken::RightBracket(_, _) => FormStep {
                node: Result::Err(ParseError::Syntax),
                state: s,
            },
            SpecToken::RightCurly(_, _) => FormStep {
                node: Result::Err(ParseError::Syntax),
                state: s,
            },
            _ => FormStep { node: Result::Ok(SpecNode::Leaf(t)), state: next_state(buf, s) },
        },
    }
}

/// The forms of a delimited body, read until the closing token of kind `k`.
/// End of input first is an unterminated form; the closing token is consumed.
pub open spec fn parse_body_spec(buf: Seq<char>, s: ReadState, k: Opener) -> BodyStep
    decreases state_measure(buf, s), 2int,
{
    match s.tok {
        Result::Err(e) => BodyStep { body: Result::Err(ParseError::Lexical(e)), state: s },
        Result::Ok(t) => {
            if t is EOF {
                BodyStep { body: Result::Err(ParseError::UnterminatedForm), state: s }
            } else if closes(t, k) {
                BodyStep {
                    body: Result::Ok((Seq::empty(), t)),
                    state: next_state(buf, s),
                }
            } else {
                let fs = parse_form_spec(buf, s);
                match fs.node {
                    Result::Err(e) => BodyStep { body: Result::Err(e), state: fs.state },
                    Result::Ok(n) => {
                        if 0 <= state_measure(buf, fs.state) < state_measure(buf, s) {
                            let bs = parse_body_spec(buf, fs.state, k);
                            match bs.body {
                                Result::Ok((rest, close)) => BodyStep {
                                    body: Result::Ok((seq![n] + rest, close)),
                                    state: bs.state,
                                },
                                Result::Err(e) => BodyStep {
                                    body: Result::Err(e),
                                    state: bs.state,
                                },
                            }
                        } else {
                            BodyStep { body: Result::Err(ParseError::Syntax), state: fs.state }
                        }
                    },
                }
            }
        },
    }
}

/// The top-level forms of a source text: only lists, vectors, maps and sets
/// may stand there, and end of input closes the unit.
pub open spec fn parse_unit_spec(buf: Seq<char>, s: ReadState) -> UnitStep
    decreases state_measure(buf, s), 3int,
{
    match s.tok {
        Result::Err(e) => UnitStep { forms: Result::Err(ParseError::Lexical(e)), state: s },
        Result::Ok(t) => match t {
            SpecToken::EOF => UnitStep { forms: Result::Ok(Seq::empty()), state: s },
            SpecToken::LeftParen(_, _)
            | SpecToken::LeftBracket(_, _)
            | SpecToken::LeftCurly(_, _)
            | SpecToken::Hash(_, _) => {
                let fs = parse_form_spec(buf, s);
                match fs.node {
                    Result::Err(e) => UnitStep { forms: Result::Err(e), state: fs.state },
                    Result::Ok(n) => {
                        if 0 <= state_measure(buf, fs.state) < state_measure(buf, s) {
                            let us = parse_unit_spec(buf, fs.state);
                            match us.forms {
                                Result::Ok(rest) => UnitStep {
                                    forms: Result::Ok(seq![n] + rest),
                                    state: us.state,
                                },
                                Result::Err(e) => UnitStep {
                                    forms: Result::Err(e),
                                    state: us.state,
                                },
                            }
                        } else {
                            UnitStep { forms: Result::Err(ParseError::Syntax), state: fs.state }
                        }
                    },
                }
            },
            _ => UnitStep { forms: Result::Err(ParseError::Syntax), state: s },
        },
    }
}

/// Reading a whole source text from its start: load the first token, then
/// read the unit.
pub open spec fn parse_text_spec(buf: Seq<char>) -> UnitStep {
    parse_unit_spec(
        buf,
        next_state(buf, ReadState { pos: 0, opens: Seq::empty(), tok: Result::Ok(SpecToken::EOF) }),
    )
}

} // verus!
