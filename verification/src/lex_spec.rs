//! The mathematical description of the tokenizer: what one call of
//! `get_symbol` consumes and returns, for any buffer, position and balance
//! stack. The executable tokenizer is proved equal to `lex_next`.

use vstd::prelude::*;
use crate::char_class::{alphabetic, alphanumeric};
use crate::token::{LexError, Opener, SpecToken};

verus! {

/// The character at offset `i`, with the NUL sentinel for every offset at or
/// past the end of the buffer. A literal NUL inside the buffer therefore ends
/// the scan early, exactly as the cursor reaching the end does.
pub open spec fn char_at(buf: Seq<char>, i: int) -> char {
    if 0 <= i < buf.len() {
        buf[i]
    } else {
        '\0'
    }
}

/// Space, tab, carriage return and line feed: skipped between tokens.
pub open spec fn space_char(c: char) -> bool {
    c == ' ' || c == '\t' || c == '\r' || c == '\n'
}

/// The characters that end a `;` line comment.
pub open spec fn line_end(c: char) -> bool {
    c == '\r' || c == '\n'
}

/// Where the cursor stands after skipping whitespace and `;` comments,
/// starting at offset `i`; `in_comment` says whether a comment is open.
pub open spec fn skip_trivia_from(buf: Seq<char>, i: int, in_comment: bool) -> int
    decreases buf.len() - i,
{
    if i < 0 || i >= buf.len() {
        i
    } else if in_comment {
        if buf[i] == '\0' {
            i
        } else if line_end(buf[i]) {
            skip_trivia_from(buf, i + 1, false)
        } else {
            skip_trivia_from(buf, i + 1, true)
        }
    } else {
        if space_char(buf[i]) {
            skip_trivia_from(buf, i + 1, false)
        } else if buf[i] == ';' {
            skip_trivia_from(buf, i + 1, true)
        } else {
            i
        }
    }
}

pub open spec fn skip_trivia(buf: Seq<char>, i: int) -> int {
    skip_trivia_from(buf, i, false)
}

/// A character that may continue an identifier.
pub open spec fn name_char(c: char) -> bool {
    alphanumeric(c) || c == '_'
}

/// A character that may begin an identifier; `:` begins a keyword literal.
pub open spec fn name_start_char(c: char) -> bool {
    alphabetic(c) || c == '_' || c == ':'
}

/// The first offset at or after `i` whose character cannot continue an
/// identifier.
pub open spec fn scan_name(buf: Seq<char>, i: int) -> int
    decreases buf.len() - i,
{
    if 0 <= i < buf.len() && name_char(buf[i]) {
        scan_name(buf, i + 1)
    } else {
        i
    }
}

/// The token for an identifier that matches the reserved-keyword table
/// exactly, or nothing.
pub open spec fn keyword_token(text: Seq<char>, lo: int, hi: int) -> Option<SpecToken> {
    if text == "apply"@ {
        Option::Some(SpecToken::Apply(lo, hi))
    } else if text == "def"@ {
        Option::Some(SpecToken::Def(lo, hi))
    } else if text == "defn"@ {
        Option::Some(SpecToken::Defn(lo, hi))
    } else if text == "doc"@ {
        Option::Some(SpecToken::Doc(lo, hi))
    } else if text == "fn"@ {
        Option::Some(SpecToken::Fn(lo, hi))
    } else if text == "first"@ {
        Option::Some(SpecToken::First(lo, hi))
    } else if text == "get"@ {
        Option::Some(SpecToken::Get(lo, hi))
    } else if text == "if"@ {
        Option::Some(SpecToken::If(lo, hi))
    } else if text == "let"@ {
        Option::Some(SpecToken::Let(lo, hi))
    } else if text == "map"@ {
        Option::Some(SpecToken::MapKw(lo, hi))
    } else if text == "name"@ {
        Option::Some(SpecToken::Name(lo, hi))
    } else if text == "require"@ {
        Option::Some(SpecToken::Require(lo, hi))
    } else if text == "second"@ {
        Option::Some(SpecToken::Second(lo, hi))
    } else if text == "when"@ {
        Option::Some(SpecToken::When(lo, hi))
    } else {
        Option::None
    }
}

/// What one call of the tokenizer does: the cursor and balance stack after
/// the call, and the token or error it returns.
pub struct LexStep {
    pub pos: int,
    pub opens: Seq<Opener>,
    pub token: Result<SpecToken, LexError>,
}

/// The token for an identifier whose text stands at `[lo, hi)`: a keyword,
/// the `not=` compound (which consumes one more character), a `:` keyword
/// literal, or a plain literal name. A bare `:` is the one error here.
pub open spec fn classify_name(buf: Seq<char>, opens: Seq<Opener>, lo: int, hi: int) -> LexStep {
    let text = buf.subrange(lo, hi);
    match keyword_token(text, lo, hi) {
        Option::Some(t) => LexStep { pos: hi, opens, token: Result::Ok(t) },
        Option::None => {
            if text == "not"@ {
                if char_at(buf, hi) == '=' {
                    LexStep { pos: hi + 1, opens, token: Result::Ok(SpecToken::NotEqual(lo, hi + 1)) }
                } else {
                    LexStep { pos: hi, opens, token: Result::Ok(SpecToken::LiteralName(lo, hi, text)) }
                }
            } else if text.len() >= 1 && text[0] == ':' {
                if text.len() == 1 {
                    LexStep { pos: hi, opens, token: Result::Err(LexError::BareColon) }
                } else {
                    LexStep { pos: hi, opens, token: Result::Ok(SpecToken::LiteralKeyword(lo, hi, text)) }
                }
            } else {
                LexStep { pos: hi, opens, token: Result::Ok(SpecToken::LiteralName(lo, hi, text)) }
            }
        }
    }
}

/// What the single-character dispatch does at offset `pos`: a structural or
/// operator token, a pending delimiter-mismatch error, or nothing.
pub struct OpStep {
    pub pos: int,
    pub opens: Seq<Opener>,
    pub token: Option<SpecToken>,
    pub pending: Option<LexError>,
}

pub open spec fn operator_step(buf: Seq<char>, pos: int, opens: Seq<Opener>) -> OpStep {
    let c = char_at(buf, pos);
    if c == '(' {
        OpStep {
            pos: pos + 1,
            opens: opens.push(Opener::Paren),
            token: Option::Some(SpecToken::LeftParen(pos, pos + 1)),
            pending: Option::None,
        }
    } else if c == '[' {
        OpStep {
            pos: pos + 1,
            opens: opens.push(Opener::Bracket),
            token: Option::Some(SpecToken::LeftBracket(pos, pos + 1)),
            pending: Option::None,
        }
    } else if c == '{' {
        OpStep {
            pos: pos + 1,
            opens: opens.push(Opener::Curly),
            token: Option::Some(SpecToken::LeftCurly(pos, pos + 1)),
            pending: Option::None,
        }
    } else if c == ')' {
        if opens.len() > 0 && opens.last() == Opener::Paren {
            OpStep {
                pos: pos + 1,
                opens: opens.drop_last(),
                token: Option::Some(SpecToken::RightParen(pos, pos + 1)),
                pending: Option::None,
            }
        } else if opens.len() > 0 {
            OpStep { pos, opens, token: Option::None, pending: Option::Some(LexError::MismatchedCloseParen) }
        } else {
            OpStep { pos, opens, token: Option::None, pending: Option::Some(LexError::UnmatchedCloseParen) }
        }
    } else if c == ']' {
        if opens.len() > 0 && opens.last() == Opener::Bracket {
            OpStep {
                pos: pos + 1,
                opens: opens.drop_last(),
                token: Option::Some(SpecToken::RightBracket(pos, pos + 1)),
                pending: Option::None,
            }
        } else if opens.len() > 0 {
            OpStep { pos, opens, token: Option::None, pending: Option::Some(LexError::MismatchedCloseBracket) }
        } else {
            OpStep { pos, opens, token: Option::None, pending: Option::Some(LexError::UnmatchedCloseBracket) }
        }
    } else if c == '}' {
        if opens.len() > 0 && opens.last() == Opener::Curly {
            OpStep {
                pos: pos + 1,
                opens: opens.drop_last(),
                token: Option::Some(SpecToken::RightCurly(pos, pos + 1)),
                pending: Option::None,
            }
        } else if opens.len() > 0 {
            OpStep { pos, opens, token: Option::None, pending: Option::Some(LexError::MismatchedCloseCurly) }
        } else {
            OpStep { pos, opens, token: Option::None, pending: Option::Some(LexError::UnmatchedCloseCurly) }
        }
    } else if c == '#' {
        OpStep { pos: pos + 1, opens, token: Option::Some(SpecToken::Hash(pos, pos + 1)), pending: Option::None }
    } else if c == '+' {
        OpStep { pos: pos + 1, opens, token: Option::Some(SpecToken::Plus(pos, pos + 1)), pending: Option::None }
    } else if c == '-' {
        OpStep { pos: pos + 1, opens, token: Option::Some(SpecToken::Minus(pos, pos + 1)), pending: Option::None }
    } else if c == '*' {
        OpStep { pos: pos + 1, opens, token: Option::Some(SpecToken::Mul(pos, pos + 1)), pending: Option::None }
    } else if c == '/' {
        OpStep { pos: pos + 1, opens, token: Option::Some(SpecToken::Divide(pos, pos + 1)), pending: Option::None }
    } else if c == '?' {
        OpStep { pos: pos + 1, opens, token: Option::Some(SpecToken::Questionmark(pos, pos + 1)), pending: Option::None }
    } else if c == '<' {
        OpStep { pos: pos + 1, opens, token: Option::Some(SpecToken::Less(pos, pos + 1)), pending: Option::None }
    } else if c == '>' {
        OpStep { pos: pos + 1, opens, token: Option::Some(SpecToken::Greater(pos, pos + 1)), pending: Option::None }
    } else if c == '=' {
        OpStep { pos: pos + 1, opens, token: Option::Some(SpecToken::Equal(pos, pos + 1)), pending: Option::None }
    } else {
        OpStep { pos, opens, token: Option::None, pending: Option::None }
    }
}

/// One whole tokenizer call: skip trivia, then end of input, delimiters and
/// operators, identifiers, or an illegal character.
pub open spec fn lex_next(buf: Seq<char>, pos: int, opens: Seq<Opener>) -> LexStep {
    let j = skip_trivia(buf, pos);
    let c = char_at(buf, j);
    if c == '\0' {
        LexStep { pos: j, opens, token: Result::Ok(SpecToken::EOF) }
    } else {
        let op = operator_step(buf, j, opens);
        match op.token {
            Option::Some(t) => LexStep { pos: op.pos, opens: op.opens, token: Result::Ok(t) },
            Option::None => match op.pending {
                Option::Some(e) => LexStep { pos: op.pos, opens: op.opens, token: Result::Err(e) },
                Option::None => {
                    if name_start_char(c) {
                        classify_name(buf, opens, j, scan_name(buf, j + 1))
                    } else {
                        LexStep { pos: j, opens, token: Result::Err(LexError::IllegalChar) }
                    }
                },
            },
        }
    }
}

pub proof fn lemma_skip_trivia_bounds(buf: Seq<char>, i: int, in_comment: bool)
    requires
        0 <= i <= buf.len(),
    ensures
        i <= skip_trivia_from(buf, i, in_comment) <= buf.len(),
    decreases buf.len() - i,
{
    if i < buf.len() {
        if in_comment {
            if buf[i] != '\0' {
                lemma_skip_trivia_bounds(buf, i + 1, !line_end(buf[i]));
            }
        } else {
            if space_char(buf[i]) {
                lemma_skip_trivia_bounds(buf, i + 1, false);
            } else if buf[i] == ';' {
                lemma_skip_trivia_bounds(buf, i + 1, true);
            }
        }
    }
}

pub proof fn lemma_scan_name_bounds(buf: Seq<char>, i: int)
    requires
        0 <= i <= buf.len(),
    ensures
        i <= scan_name(buf, i) <= buf.len(),
    decreases buf.len() - i,
{
    if i < buf.len() && name_char(buf[i]) {
        lemma_scan_name_bounds(buf, i + 1);
    }
}

/// The measure the reader's termination rests on: a tokenizer call never
/// moves the cursor back, stays within the buffer, and consumes at least one
/// character whenever it returns an ordinary token.
pub proof fn lemma_lex_next_progress(buf: Seq<char>, pos: int, opens: Seq<Opener>)
    requires
        0 <= pos <= buf.len(),
    ensures
        pos <= lex_next(buf, pos, opens).pos <= buf.len(),
        (match lex_next(buf, pos, opens).token {
            Result::Ok(t) => !(t is EOF) ==> lex_next(buf, pos, opens).pos > pos,
            Result::Err(_) => true,
        }),
{
    lemma_skip_trivia_bounds(buf, pos, false);
    let j = skip_trivia(buf, pos);
    let c = char_at(buf, j);
    if c != '\0' && operator_step(buf, j, opens).token is None
        && operator_step(buf, j, opens).pending is None && name_start_char(c) {
        lemma_scan_name_bounds(buf, j + 1);
    }
}

} // verus!
