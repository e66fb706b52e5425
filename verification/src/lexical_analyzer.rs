//! The tokenizer: scans a buffered character sequence and produces one token
//! per call, tracking the cursor and the delimiter balance stack. Every
//! method is proved equal to the corresponding spec function of `lex_spec`.

use vstd::prelude::*;
use vstd::string::StrSliceExecFns;
use crate::lex_spec::{
    char_at, classify_name, lex_next, name_char, name_start_char, operator_step, scan_name,
    skip_trivia, skip_trivia_from, space_char,
};
use crate::text::{chars_of, str_eq, string_from_chars};
use crate::token::{opt_symbol_view, symbol_result_view, LexError, Opener, SpecToken, Symbols};

verus! {

pub struct LexicalAnalyzer {
    buffer: Vec<char>,
    index: u32,
    stack_elements: Vec<Opener>,
    pending_mismatch: Option<LexError>,
}

pub trait LexicalAnalyzerMethods: Sized {
    /// The character buffer being scanned.
    spec fn buf(&self) -> Seq<char>;

    /// The cursor: the offset of the next unread character.
    spec fn pos(&self) -> int;

    /// The delimiters opened and not yet closed, innermost last.
    spec fn opens(&self) -> Seq<Opener>;

    /// A delimiter mismatch found by the structural scan and not yet raised.
    spec fn pending(&self) -> Option<LexError>;

    /// Well-formedness: the cursor never leaves the buffer, whose length
    /// fits the span type.
    spec fn inv(&self) -> bool;

    /// What well-formedness gives every caller: the cursor and the buffer
    /// length are in range.
    proof fn lemma_inv_bounds(&self)
        requires
            self.inv(),
        ensures
            0 <= self.pos() <= self.buf().len(),
            self.buf().len() <= u32::MAX,
    ;

    fn new(input: &'static str) -> (r: Self)
        requires
            input@.len() <= u32::MAX,
        ensures
            r.inv(),
            r.buf() == input@,
            r.pos() == 0,
            r.opens() == Seq::<Opener>::empty(),
            r.pending() is None,
    ;

    fn get_char(&self) -> (c: char)
        requires
            self.inv(),
        ensures
            c == char_at(self.buf(), self.pos()),
    ;

    fn advance(&mut self)
        requires
            old(self).inv(),
            old(self).pos() < old(self).buf().len(),
        ensures
            final(self).inv(),
            final(self).buf() == old(self).buf(),
            final(self).pos() == old(self).pos() + 1,
            final(self).opens() == old(self).opens(),
            final(self).pending() == old(self).pending(),
    ;

    fn is_operator_or_delimiter(&mut self) -> (r: Option<Symbols>)
        requires
            old(self).inv(),
            old(self).pending() is None,
        ensures
            final(self).inv(),
            final(self).buf() == old(self).buf(),
            ({
                let st = operator_step(old(self).buf(), old(self).pos(), old(self).opens());
                final(self).pos() == st.pos && final(self).opens() == st.opens
                    && final(self).pending() == st.pending && opt_symbol_view(r) == st.token
            }),
    ;

    fn is_reserved_keywords(&mut self, text: &str, start: u32, end: u32) -> (r: Option<Symbols>)
        requires
            old(self).inv(),
            old(self).pending() is None,
            start <= end,
            end as int <= old(self).buf().len(),
            old(self).pos() == end as int,
            text@ == old(self).buf().subrange(start as int, end as int),
        ensures
            final(self).inv(),
            final(self).buf() == old(self).buf(),
            final(self).opens() == old(self).opens(),
            final(self).pending() is None,
            ({
                let st = classify_name(old(self).buf(), old(self).opens(), start as int, end as int);
                final(self).pos() == st.pos && match st.token {
                    Result::Ok(t) => opt_symbol_view(r) == Option::Some(t),
                    Result::Err(_) => r is None,
                }
            }),
    ;

    fn get_symbol(&mut self) -> (r: Result<Symbols, LexError>)
        requires
            old(self).inv(),
            old(self).pending() is None,
        ensures
            final(self).inv(),
            final(self).buf() == old(self).buf(),
            final(self).pending() is None,
            ({
                let st = lex_next(old(self).buf(), old(self).pos(), old(self).opens());
                final(self).pos() == st.pos && final(self).opens() == st.opens
                    && symbol_result_view(r) == st.token
            }),
    ;
}

impl LexicalAnalyzerMethods for LexicalAnalyzer {
    closed spec fn buf(&self) -> Seq<char> {
        self.buffer@
    }

    closed spec fn pos(&self) -> int {
        self.index as int
    }

    closed spec fn opens(&self) -> Seq<Opener> {
        self.stack_elements@
    }

    closed spec fn pending(&self) -> Option<LexError> {
        self.pending_mismatch
    }

    closed spec fn inv(&self) -> bool {
        self.buffer@.len() <= u32::MAX && self.index as int <= self.buffer@.len()
    }

    proof fn lemma_inv_bounds(&self) {
    }

    fn new(input: &'static str) -> (r: Self) {
        LexicalAnalyzer {
            buffer: chars_of(input),
            index: 0,
            stack_elements: Vec::new(),
            pending_mismatch: Option::None,
        }
    }

    fn get_char(&self) -> (c: char) {
        if (self.index as usize) < self.buffer.len() {
            self.buffer[self.index as usize]
        } else {
            '\0'
        }
    }

    fn advance(&mut self) {
        self.index = self.index + 1;
    }

    fn is_operator_or_delimiter(&mut self) -> (r: Option<Symbols>) {
        let ch1 = self.get_char();
        let start = self.index;
        match ch1 {
            '(' => {
                self.stack_elements.push(Opener::Paren);
                self.advance();
                Option::Some(Symbols::LeftParen(start, self.index))
            },
            '[' => {
                self.stack_elements.push(Opener::Bracket);
                self.advance();
                Option::Some(Symbols::LeftBracket(start, self.index))
            },
            '{' => {
                self.stack_elements.push(Opener::Curly);
                self.advance();
                Option::Some(Symbols::LeftCurly(start, self.index))
            },
            ')' => {
                if self.stack_elements.len() > 0 {
                    let top = self.stack_elements[self.stack_elements.len() - 1];
                    if top == Opener::Paren {
                        self.stack_elements.pop();
                        self.advance();
                        Option::Some(Symbols::RightParen(start, self.index))
                    } else {
                        self.pending_mismatch = Option::Some(LexError::MismatchedCloseParen);
                        Option::None
                    }
                } else {
                    self.pending_mismatch = Option::Some(LexError::UnmatchedCloseParen);
                    Option::None
                }
            },
            ']' => {
                if self.stack_elements.len() > 0 {
                    let top = self.stack_elements[self.stack_elements.len() - 1];
                    if top == Opener::Bracket {
                        self.stack_elements.pop();
                        self.advance();
                        Option::Some(Symbols::RightBracket(start, self.index))
                    } else {
                        self.pending_mismatch = Option::Some(LexError::MismatchedCloseBracket);
                        Option::None
                    }
                } else {
                    self.pending_mismatch = Option::Some(LexError::UnmatchedCloseBracket);
                    Option::None
                }
            },
            '}' => {
                if self.stack_elements.len() > 0 {
                    let top = self.stack_elements[self.stack_elements.len() - 1];
                    if top == Opener::Curly {
                        self.stack_elements.pop();
                        self.advance();
                        Option::Some(Symbols::RightCurly(start, self.index))
                    } else {
                        self.pending_mismatch = Option::Some(LexError::MismatchedCloseCurly);
                        Option::None
                    }
                } else {
                    self.pending_mismatch = Option::Some(LexError::UnmatchedCloseCurly);
                    Option::None
                }
            },
            '#' => {
                self.advance();
                Option::Some(Symbols::Hash(start, self.index))
            },
            '+' => {
                self.advance();
                Option::Some(Symbols::Plus(start, self.index))
            },
            '-' => {
                self.advance();
                Option::Some(Symbols::Minus(start, self.index))
            },
            '*' => {
                self.advance();
                Option::Some(Symbols::Mul(start, self.index))
            },
            '/' => {
                self.advance();
                Option::Some(Symbols::Divide(start, self.index))
            },
            '?' => {
                self.advance();
                Option::Some(Symbols::Questionmark(start, self.index))
            },
            '<' => {
                self.advance();
                Option::Some(Symbols::Less(start, self.index))
            },
            '>' => {
                self.advance();
                Option::Some(Symbols::Greater(start, self.index))
            },
            '=' => {
                self.advance();
                Option::Some(Symbols::Equal(start, self.index))
            },
            _ => Option::None,
        }
    }

    fn is_reserved_keywords(&mut self, text: &str, start: u32, end: u32) -> (r: Option<Symbols>) {
        if str_eq(text, "apply") {
            return Option::Some(Symbols::Apply(start, end));
        }
        if str_eq(text, "def") {
            return Option::Some(Symbols::Def(start, end));
        }
        if str_eq(text, "defn") {
            return Option::Some(Symbols::Defn(start, end));
        }
        if str_eq(text, "doc") {
            return Option::Some(Symbols::Doc(start, end));
        }
        if str_eq(text, "fn") {
            return Option::Some(Symbols::Fn(start, end));
        }
        if str_eq(text, "first") {
            return Option::Some(Symbols::First(start, end));
        }
        if str_eq(text, "get") {
            return Option::Some(Symbols::Get(start, end));
        }
        if str_eq(text, "if") {
            return Option::Some(Symbols::If(start, end));
        }
        if str_eq(text, "let") {
            return Option::Some(Symbols::Let(start, end));
        }
        if str_eq(text, "map") {
            return Option::Some(Symbols::MapKw(start, end));
        }
        if str_eq(text, "name") {
            return Option::Some(Symbols::Name(start, end));
        }
        if str_eq(text, "require") {
            return Option::Some(Symbols::Require(start, end));
        }
        if str_eq(text, "second") {
            return Option::Some(Symbols::Second(start, end));
        }
        if str_eq(text, "when") {
            return Option::Some(Symbols::When(start, end));
        }
        if str_eq(text, "not") {
            if self.get_char() == '=' {
                self.advance();
                return Option::Some(Symbols::NotEqual(start, self.index));
            } else {
                return Option::Some(Symbols::LiteralName(start, end, Box::new(text.to_owned())));
            }
        }
        let n = text.unicode_len();
        if n >= 1 && text.get_char(0) == ':' {
            if n == 1 {
                return Option::None;
            }
            return Option::Some(Symbols::LiteralKeyword(start, end, Box::new(text.to_owned())));
        }
        Option::Some(Symbols::LiteralName(start, end, Box::new(text.to_owned())))
    }

    fn get_symbol(&mut self) -> (r: Result<Symbols, LexError>) {
        let ghost buf = self.buf();
        let ghost pos0 = self.pos();
        let ghost opens0 = self.opens();

        // Skip whitespace, line breaks and `;` comments.
        loop
            invariant
                self.inv(),
                self.buf() == buf,
                self.opens() == opens0,
                self.pending() is None,
                pos0 <= self.pos(),
                skip_trivia(buf, pos0) == skip_trivia(buf, self.pos()),
            ensures
                self.inv(),
                self.buf() == buf,
                self.opens() == opens0,
                self.pending() is None,
                self.pos() == skip_trivia(buf, pos0),
            decreases buf.len() - self.pos(),
        {
            let ch = self.get_char();
            if ch == ' ' || ch == '\t' || ch == '\r' || ch == '\n' {
                self.advance();
            } else if ch == ';' {
                let ghost ip = self.pos();
                self.advance();
                loop
                    invariant
                        self.inv(),
                        self.buf() == buf,
                        self.opens() == opens0,
                        self.pending() is None,
                        ip < self.pos(),
                        skip_trivia(buf, pos0) == skip_trivia_from(buf, self.pos(), true),
                    ensures
                        self.inv(),
                        self.buf() == buf,
                        self.opens() == opens0,
                        self.pending() is None,
                        ip < self.pos(),
                        skip_trivia(buf, pos0) == skip_trivia(buf, self.pos()),
                    decreases buf.len() - self.pos(),
                {
                    let c2 = self.get_char();
                    if c2 == '\r' || c2 == '\n' || c2 == '\0' {
                        break;
                    } else {
                        self.advance();
                    }
                }
            } else {
                break;
            }
        }

        // End of input (or an embedded NUL, which acts as the sentinel).
        let c = self.get_char();
        if c == '\0' {
            return Result::Ok(Symbols::EOF);
        }

        let start = self.index;

        // Structural and operator tokens, and delimiter mismatches.
        let symbol = self.is_operator_or_delimiter();
        match symbol {
            Option::Some(symb) => {
                return Result::Ok(symb);
            },
            Option::None => {},
        }
        match self.pending_mismatch {
            Option::Some(e) => {
                self.pending_mismatch = Option::None;
                return Result::Err(e);
            },
            Option::None => {},
        }

        // Reserved keywords, literal names and keyword literals.
        if c.is_alphabetic() || c == '_' || c == ':' {
            let mut text: Vec<char> = Vec::new();
            text.push(c);
            self.advance();
            proof {
                assert(text@ =~= buf.subrange(start as int, start as int + 1));
            }

            loop
                invariant
                    self.inv(),
                    self.buf() == buf,
                    self.opens() == opens0,
                    self.pending() is None,
                    (start as int) < self.pos() && self.pos() <= buf.len(),
                    text@ == buf.subrange(start as int, self.pos()),
                    scan_name(buf, start as int + 1) == scan_name(buf, self.pos()),
                ensures
                    self.inv(),
                    self.buf() == buf,
                    self.opens() == opens0,
                    self.pending() is None,
                    (start as int) < self.pos() && self.pos() <= buf.len(),
                    text@ == buf.subrange(start as int, self.pos()),
                    self.pos() == scan_name(buf, start as int + 1),
                decreases buf.len() - self.pos(),
            {
                let cur = self.get_char();
                if cur.is_alphanumeric() || cur == '_' {
                    text.push(cur);
                    proof {
                        assert(name_char(cur));
                        assert(char_at(buf, self.pos()) == cur);
                        assert(text@ =~= buf.subrange(start as int, self.pos() + 1));
                    }
                    self.advance();
                } else {
                    proof {
                        assert(!name_char(char_at(buf, self.pos())));
                        assert(scan_name(buf, self.pos()) == self.pos());
                    }
                    break;
                }
            }

            let s = string_from_chars(&text);
            let end = self.index;
            let res = self.is_reserved_keywords(s.as_str(), start, end);
            match res {
                Option::Some(x) => {
                    return Result::Ok(x);
                },
                Option::None => {
                    return Result::Err(LexError::BareColon);
                },
            }
        }

        Result::Err(LexError::IllegalChar)
    }
}

} // verus!
