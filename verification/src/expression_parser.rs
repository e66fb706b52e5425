//! The reader: a recursive-descent parser that pulls tokens from the
//! tokenizer one at a time and assembles the syntax tree. Every method is
//! proved equal to the corresponding spec function of `parse_spec`.

use vstd::prelude::*;
use crate::lexical_analyzer::{LexicalAnalyzer, LexicalAnalyzerMethods};
use crate::node::{lemma_nodes_view, lemma_nodes_view_push, node_view, nodes_view, Node, ParseError, SpecNode};
use crate::parse_spec::{
    closes, map_keys, map_values, next_state, parse_body_spec, parse_form_spec, parse_unit_spec,
    state_measure, token_hi, ReadState,
};
use crate::token::{symbol_result_view, LexError, Opener, SpecToken, Symbols};

verus! {

/// Whether an executable form result and a spec form result are the same
/// value.
pub open spec fn form_result_matches(
    r: Result<Node, ParseError>,
    n: Result<SpecNode, ParseError>,
) -> bool {
    match (r, n) {
        (Result::Ok(node), Result::Ok(sn)) => node_view(node) == sn,
        (Result::Err(e1), Result::Err(e2)) => e1 == e2,
        _ => false,
    }
}

/// Loop invariant of the body readers: reading the rest of the body from
/// `cur` and prepending the forms already gathered in `acc` gives exactly
/// what reading the whole body from `s0` gives.
spec fn body_continues(
    buf: Seq<char>,
    s0: ReadState,
    k: Opener,
    acc: Seq<SpecNode>,
    cur: ReadState,
) -> bool {
    let b0 = parse_body_spec(buf, s0, k);
    let bc = parse_body_spec(buf, cur, k);
    b0.state == bc.state && match (b0.body, bc.body) {
        (Result::Ok(t0), Result::Ok(tc)) => t0.0 == acc + tc.0 && t0.1 == tc.1,
        (Result::Err(e0), Result::Err(ec)) => e0 == ec,
        _ => false,
    }
}

/// Loop invariant of the unit reader, in the same shape.
spec fn unit_continues(
    buf: Seq<char>,
    s0: ReadState,
    acc: Seq<SpecNode>,
    cur: ReadState,
) -> bool {
    let u0 = parse_unit_spec(buf, s0);
    let uc = parse_unit_spec(buf, cur);
    u0.state == uc.state && match (u0.forms, uc.forms) {
        (Result::Ok(t0), Result::Ok(tc)) => t0 == acc + tc,
        (Result::Err(e0), Result::Err(ec)) => e0 == ec,
        _ => false,
    }
}

pub open spec fn tok_is_left_paren(t: Result<SpecToken, LexError>) -> bool {
    match t {
        Result::Ok(SpecToken::LeftParen(_, _)) => true,
        _ => false,
    }
}

pub open spec fn tok_is_left_bracket(t: Result<SpecToken, LexError>) -> bool {
    match t {
        Result::Ok(SpecToken::LeftBracket(_, _)) => true,
        _ => false,
    }
}

pub open spec fn tok_is_left_curly(t: Result<SpecToken, LexError>) -> bool {
    match t {
        Result::Ok(SpecToken::LeftCurly(_, _)) => true,
        _ => false,
    }
}

pub open spec fn tok_is_hash(t: Result<SpecToken, LexError>) -> bool {
    match t {
        Result::Ok(SpecToken::Hash(_, _)) => true,
        _ => false,
    }
}

spec fn tok_is_opener(t: Result<SpecToken, LexError>) -> bool {
    tok_is_left_paren(t) || tok_is_left_bracket(t) || tok_is_left_curly(t) || tok_is_hash(t)
}

pub struct ExpressionParser {
    lexer: LexicalAnalyzer,
    symbol: Result<Symbols, LexError>,
}

pub trait ExpressionParserMethods: Sized {
    /// The character buffer being read.
    spec fn buf(&self) -> Seq<char>;

    /// The tokenizer's state together with the one-token lookahead.
    spec fn cursor(&self) -> ReadState;

    /// Well-formedness, inherited from the tokenizer.
    spec fn inv(&self) -> bool;

    /// What well-formedness gives every caller: the cursor is in range.
    proof fn lemma_inv_bounds(&self)
        requires
            self.inv(),
        ensures
            0 <= self.cursor().pos <= self.buf().len(),
    ;

    fn new(lexer: LexicalAnalyzer) -> (r: Self)
        requires
            lexer.inv(),
            lexer.pending() is None,
        ensures
            r.inv(),
            r.buf() == lexer.buf(),
            r.cursor() == (ReadState {
                pos: lexer.pos(),
                opens: lexer.opens(),
                tok: Result::<SpecToken, LexError>::Ok(SpecToken::EOF),
            }),
    ;

    fn advance(&mut self)
        requires
            old(self).inv(),
        ensures
            final(self).inv(),
            final(self).buf() == old(self).buf(),
            final(self).cursor() == next_state(old(self).buf(), old(self).cursor()),
            0 <= old(self).cursor().pos <= old(self).buf().len(),
            0 <= final(self).cursor().pos <= final(self).buf().len(),
            state_measure(final(self).buf(), final(self).cursor()) <= 2 * (old(self).buf().len()
                - old(self).cursor().pos) + 1,
    ;

    fn parse_start_unit(&mut self) -> (r: Result<Node, ParseError>)
        requires
            old(self).inv(),
        ensures
            final(self).inv(),
            final(self).buf() == old(self).buf(),
            ({
                let us = parse_unit_spec(
                    old(self).buf(),
                    next_state(old(self).buf(), old(self).cursor()),
                );
                final(self).cursor() == us.state && match (r, us.forms) {
                    (Result::Ok(n), Result::Ok(fs)) => node_view(n) == SpecNode::Unit(fs),
                    (Result::Err(e1), Result::Err(e2)) => e1 == e2,
                    _ => false,
                }
            }),
    ;

    fn parse_unit(&mut self) -> (r: Result<Node, ParseError>)
        requires
            old(self).inv(),
        ensures
            final(self).inv(),
            final(self).buf() == old(self).buf(),
            ({
                let us = parse_unit_spec(old(self).buf(), old(self).cursor());
                final(self).cursor() == us.state && match (r, us.forms) {
                    (Result::Ok(n), Result::Ok(fs)) => node_view(n) == SpecNode::Unit(fs),
                    (Result::Err(e1), Result::Err(e2)) => e1 == e2,
                    _ => false,
                }
            }),
    ;

    fn parse_form(&mut self) -> (r: Result<Node, ParseError>)
        requires
            old(self).inv(),
        ensures
            final(self).inv(),
            final(self).buf() == old(self).buf(),
            ({
                let fs = parse_form_spec(old(self).buf(), old(self).cursor());
                final(self).cursor() == fs.state && form_result_matches(r, fs.node)
            }),
            state_measure(final(self).buf(), final(self).cursor()) <= state_measure(
                old(self).buf(),
                old(self).cursor(),
            ),
            r is Ok ==> state_measure(final(self).buf(), final(self).cursor()) < state_measure(
                old(self).buf(),
                old(self).cursor(),
            ),
    ;

    fn parse_list(&mut self) -> (r: Result<Node, ParseError>)
        requires
            old(self).inv(),
            tok_is_left_paren(old(self).cursor().tok),
        ensures
            final(self).inv(),
            final(self).buf() == old(self).buf(),
            ({
                let fs = parse_form_spec(old(self).buf(), old(self).cursor());
                final(self).cursor() == fs.state && form_result_matches(r, fs.node)
            }),
            state_measure(final(self).buf(), final(self).cursor()) < state_measure(
                old(self).buf(),
                old(self).cursor(),
            ),
    ;

    fn parse_vector(&mut self) -> (r: Result<Node, ParseError>)
        requires
            old(self).inv(),
            tok_is_left_bracket(old(self).cursor().tok),
        ensures
            final(self).inv(),
            final(self).buf() == old(self).buf(),
            ({
                let fs = parse_form_spec(old(self).buf(), old(self).cursor());
                final(self).cursor() == fs.state && form_result_matches(r, fs.node)
            }),
            state_measure(final(self).buf(), final(self).cursor()) < state_measure(
                old(self).buf(),
                old(self).cursor(),
            ),
    ;

    fn parse_map(&mut self) -> (r: Result<Node, ParseError>)
        requires
            old(self).inv(),
            tok_is_left_curly(old(self).cursor().tok),
        ensures
            final(self).inv(),
            final(self).buf() == old(self).buf(),
            ({
                let fs = parse_form_spec(old(self).buf(), old(self).cursor());
                final(self).cursor() == fs.state && form_result_matches(r, fs.node)
            }),
            state_measure(final(self).buf(), final(self).cursor()) < state_measure(
                old(self).buf(),
                old(self).cursor(),
            ),
    ;

    fn parse_set(&mut self) -> (r: Result<Node, ParseError>)
        requires
            old(self).inv(),
            tok_is_hash(old(self).cursor().tok),
        ensures
            final(self).inv(),
            final(self).buf() == old(self).buf(),
            ({
                let fs = parse_form_spec(old(self).buf(), old(self).cursor());
                final(self).cursor() == fs.state && form_result_matches(r, fs.node)
            }),
            state_measure(final(self).buf(), final(self).cursor()) < state_measure(
                old(self).buf(),
                old(self).cursor(),
            ),
    ;
}

/// The end offset of a token's span, as the executable reader computes it.
fn token_end(t: &Symbols) -> (r: u32)
    ensures
        r as int == token_hi(t@),
{
    match t {
        Symbols::EOF => 0,
        Symbols::LeftParen(_, b) => *b,
        Symbols::RightParen(_, b) => *b,
        Symbols::LeftBracket(_, b) => *b,
        Symbols::RightBracket(_, b) => *b,
        Symbols::LeftCurly(_, b) => *b,
        Symbols::RightCurly(_, b) => *b,
        Symbols::Hash(_, b) => *b,
        Symbols::Plus(_, b) => *b,
        Symbols::Minus(_, b) => *b,
        Symbols::Mul(_, b) => *b,
        Symbols::Divide(_, b) => *b,
        Symbols::Questionmark(_, b) => *b,
        Symbols::Apply(_, b) => *b,
        Symbols::Def(_, b) => *b,
        Symbols::Defn(_, b) => *b,
        Symbols::Doc(_, b) => *b,
        Symbols::Fn(_, b) => *b,
        Symbols::First(_, b) => *b,
        Symbols::Get(_, b) => *b,
        Symbols::If(_, b) => *b,
        Symbols::Let(_, b) => *b,
        Symbols::MapKw(_, b) => *b,
        Symbols::Name(_, b) => *b,
        Symbols::Require(_, b) => *b,
        Symbols::Second(_, b) => *b,
        Symbols::When(_, b) => *b,
        Symbols::Less(_, b) => *b,
        Symbols::Greater(_, b) => *b,
        Symbols::Equal(_, b) => *b,
        Symbols::NotEqual(_, b) => *b,
        Symbols::LiteralName(_, b, _) => *b,
        Symbols::LiteralKeyword(_, b, _) => *b,
    }
}

/// Partition the flat forms of a map body into keys (even positions) and
/// values (odd positions).
fn split_pairs(forms: Vec<Node>) -> (r: (Vec<Node>, Vec<Node>))
    requires
        forms@.len() % 2 == 0,
    ensures
        nodes_view(r.0@) == map_keys(nodes_view(forms@)),
        nodes_view(r.1@) == map_values(nodes_view(forms@)),
{
    let ghost cs = nodes_view(forms@);
    proof {
        lemma_nodes_view(forms@);
    }
    let mut rest = forms;
    let mut keys: Vec<Node> = Vec::new();
    let mut vals: Vec<Node> = Vec::new();
    while rest.len() >= 2
        invariant
            rest@.len() % 2 == 0,
            keys@.len() == vals@.len(),
            2 * keys@.len() + rest@.len() == cs.len(),
            forall|i: int| 0 <= i < keys@.len() ==> node_view(keys@[i]) == cs[2 * i],
            forall|i: int| 0 <= i < vals@.len() ==> node_view(vals@[i]) == cs[2 * i + 1],
            forall|j: int|
                0 <= j < rest@.len() ==> node_view(rest@[j]) == cs[2 * keys@.len() + j],
        decreases rest@.len(),
    {
        let k = rest.remove(0);
        let v = rest.remove(0);
        keys.push(k);
        vals.push(v);
    }
    proof {
        lemma_nodes_view(keys@);
        lemma_nodes_view(vals@);
        assert(nodes_view(keys@) =~= map_keys(cs));
        assert(nodes_view(vals@) =~= map_values(cs));
    }
    (keys, vals)
}

impl ExpressionParser {
    /// Read the forms of a delimited body up to and through the closing
    /// token of kind `k`.
    fn parse_body(&mut self, k: Opener) -> (r: Result<(Vec<Node>, Symbols), ParseError>)
        requires
            old(self).inv(),
        ensures
            final(self).inv(),
            final(self).buf() == old(self).buf(),
            ({
                let bs = parse_body_spec(old(self).buf(), old(self).cursor(), k);
                final(self).cursor() == bs.state && match (r, bs.body) {
                    (Result::Ok(p), Result::Ok(q)) => nodes_view(p.0@) == q.0 && p.1@ == q.1,
                    (Result::Err(e1), Result::Err(e2)) => e1 == e2,
                    _ => false,
                }
            }),
            state_measure(final(self).buf(), final(self).cursor()) <= state_measure(
                old(self).buf(),
                old(self).cursor(),
            ),
        decreases state_measure(old(self).buf(), old(self).cursor()), 2int,
    {
        let ghost buf = self.buf();
        let ghost s0 = self.cursor();
        proof {
            self.lemma_inv_bounds();
        }
        let mut children: Vec<Node> = Vec::new();
        loop
            invariant
                buf == old(self).buf(),
                s0 == old(self).cursor(),
                self.inv(),
                self.buf() == buf,
                body_continues(buf, s0, k, nodes_view(children@), self.cursor()),
                state_measure(buf, self.cursor()) <= state_measure(buf, s0),
                0 <= self.cursor().pos <= buf.len(),
            decreases state_measure(buf, self.cursor()),
        {
            let ghost cur = self.cursor();

            // Is the lookahead the closing token of this body?
            let close: Option<Symbols> = match (k, &self.symbol) {
                (Opener::Paren, Result::Ok(Symbols::RightParen(c, d))) => Option::Some(
                    Symbols::RightParen(*c, *d),
                ),
                (Opener::Bracket, Result::Ok(Symbols::RightBracket(c, d))) => Option::Some(
                    Symbols::RightBracket(*c, *d),
                ),
                (Opener::Curly, Result::Ok(Symbols::RightCurly(c, d))) => Option::Some(
                    Symbols::RightCurly(*c, *d),
                ),
                _ => Option::None,
            };
            match close {
                Option::Some(ct) => {
                    proof {
                        assert(match cur.tok {
                            Result::Ok(t) => closes(t, k) && !(t is EOF),
                            _ => false,
                        });
                    }
                    self.advance();
                    proof {
                        assert(nodes_view(children@) + Seq::<SpecNode>::empty() =~= nodes_view(
                            children@,
                        ));
                    }
                    return Result::Ok((children, ct));
                },
                Option::None => {},
            }

            match self.symbol {
                Result::Err(e) => {
                    return Result::Err(ParseError::Lexical(e));
                },
                Result::Ok(Symbols::EOF) => {
                    return Result::Err(ParseError::UnterminatedForm);
                },
                _ => {},
            }

            let n = match self.parse_form() {
                Result::Ok(n) => n,
                Result::Err(e) => {
                    return Result::Err(e);
                },
            };
            proof {
                self.lemma_inv_bounds();
                assert(match cur.tok {
                    Result::Ok(t) => !(t is EOF) && !closes(t, k),
                    _ => false,
                });
                let fsp = parse_form_spec(buf, cur);
                assert(fsp.state == self.cursor());
                assert(fsp.node == Result::<SpecNode, ParseError>::Ok(node_view(n)));
                assert(0 <= state_measure(buf, self.cursor()) < state_measure(buf, cur));
                let bcur = parse_body_spec(buf, cur, k);
                let bnext = parse_body_spec(buf, self.cursor(), k);
                assert(bcur.state == bnext.state && match (bcur.body, bnext.body) {
                    (Result::Ok(t0), Result::Ok(tc)) => t0.0 == seq![node_view(n)] + tc.0
                        && t0.1 == tc.1,
                    (Result::Err(e0), Result::Err(ec)) => e0 == ec,
                    _ => false,
                });
                lemma_nodes_view_push(children@, n);
                if bnext.body is Ok {
                    let rest = bnext.body->Ok_0.0;
                    assert(nodes_view(children@) + (seq![node_view(n)] + rest) =~= nodes_view(
                        children@,
                    ).push(node_view(n)) + rest);
                }
                assert(body_continues(
                    buf,
                    s0,
                    k,
                    nodes_view(children@).push(node_view(n)),
                    self.cursor(),
                ));
            }
            children.push(n);
        }
    }
}

impl ExpressionParserMethods for ExpressionParser {
    closed spec fn buf(&self) -> Seq<char> {
        self.lexer.buf()
    }

    closed spec fn cursor(&self) -> ReadState {
        ReadState {
            pos: self.lexer.pos(),
            opens: self.lexer.opens(),
            tok: symbol_result_view(self.symbol),
        }
    }

    closed spec fn inv(&self) -> bool {
        self.lexer.inv() && self.lexer.pending() is None
    }

    proof fn lemma_inv_bounds(&self) {
        self.lexer.lemma_inv_bounds();
    }

    fn new(lexer: LexicalAnalyzer) -> (r: Self) {
        ExpressionParser { lexer, symbol: Result::Ok(Symbols::EOF) }
    }

    fn advance(&mut self) {
        proof {
            self.lexer.lemma_inv_bounds();
            crate::lex_spec::lemma_lex_next_progress(
                self.lexer.buf(),
                self.lexer.pos(),
                self.lexer.opens(),
            );
        }
        let r = self.lexer.get_symbol();
        self.symbol = r;
        proof {
            self.lexer.lemma_inv_bounds();
        }
    }

    fn parse_start_unit(&mut self) -> (r: Result<Node, ParseError>) {
        self.advance();
        self.parse_unit()
    }

    fn parse_unit(&mut self) -> (r: Result<Node, ParseError>)
        decreases state_measure(old(self).buf(), old(self).cursor()), 1int,
    {
        let ghost buf = self.buf();
        let ghost s0 = self.cursor();
        proof {
            self.lemma_inv_bounds();
        }
        let mut nodes: Vec<Node> = Vec::new();
        loop
            invariant
                buf == old(self).buf(),
                s0 == old(self).cursor(),
                self.inv(),
                self.buf() == buf,
                unit_continues(buf, s0, nodes_view(nodes@), self.cursor()),
                state_measure(buf, self.cursor()) <= state_measure(buf, s0),
                0 <= self.cursor().pos <= buf.len(),
            decreases state_measure(buf, self.cursor()),
        {
            let ghost cur = self.cursor();
            let step: Result<Node, ParseError> = match self.symbol {
                Result::Err(e) => {
                    return Result::Err(ParseError::Lexical(e));
                },
                Result::Ok(Symbols::EOF) => {
                    proof {
                        assert(nodes_view(nodes@) + Seq::<SpecNode>::empty() =~= nodes_view(
                            nodes@,
                        ));
                    }
                    return Result::Ok(Node::Unit(nodes));
                },
                Result::Ok(Symbols::LeftParen(_, _)) => {
                    proof {
                        assert(tok_is_opener(cur.tok));
                    }
                    self.parse_list()
                },
                Result::Ok(Symbols::LeftBracket(_, _)) => {
                    proof {
                        assert(tok_is_opener(cur.tok));
                    }
                    self.parse_vector()
                },
                Result::Ok(Symbols::LeftCurly(_, _)) => {
                    proof {
                        assert(tok_is_opener(cur.tok));
                    }
                    self.parse_map()
                },
                Result::Ok(Symbols::Hash(_, _)) => {
                    proof {
                        assert(tok_is_opener(cur.tok));
                    }
                    self.parse_set()
                },
                Result::Ok(_) => {
                    return Result::Err(ParseError::Syntax);
                },
            };
            let n = match step {
                Result::Ok(n) => n,
                Result::Err(e) => {
                    return Result::Err(e);
                },
            };
            proof {
                self.lemma_inv_bounds();
                assert(tok_is_opener(cur.tok));
                let fsp = parse_form_spec(buf, cur);
                assert(fsp.state == self.cursor());
                assert(fsp.node == Result::<SpecNode, ParseError>::Ok(node_view(n)));
                assert(0 <= state_measure(buf, self.cursor()) < state_measure(buf, cur));
                let ucur = parse_unit_spec(buf, cur);
                let unext = parse_unit_spec(buf, self.cursor());
                assert(ucur.state == unext.state && match (ucur.forms, unext.forms) {
                    (Result::Ok(t0), Result::Ok(tc)) => t0 == seq![node_view(n)] + tc,
                    (Result::Err(e0), Result::Err(ec)) => e0 == ec,
                    _ => false,
                });
                lemma_nodes_view_push(nodes@, n);
                if unext.forms is Ok {
                    let rest = unext.forms->Ok_0;
                    assert(nodes_view(nodes@) + (seq![node_view(n)] + rest) =~= nodes_view(
                        nodes@,
                    ).push(node_view(n)) + rest);
                }
                assert(unit_continues(buf, s0, nodes_view(nodes@).push(node_view(n)), self.cursor()));
            }
            nodes.push(n);
        }
    }

    fn parse_form(&mut self) -> (r: Result<Node, ParseError>)
        decreases state_measure(old(self).buf(), old(self).cursor()), 1int,
    {
        proof {
            self.lemma_inv_bounds();
        }
        match self.symbol {
            Result::Err(e) => Result::Err(ParseError::Lexical(e)),
            Result::Ok(Symbols::LeftParen(_, _)) => self.parse_list(),
            Result::Ok(Symbols::LeftBracket(_, _)) => self.parse_vector(),
            Result::Ok(Symbols::LeftCurly(_, _)) => self.parse_map(),
            Result::Ok(Symbols::Hash(_, _)) => self.parse_set(),
            Result::Ok(Symbols::EOF) => Result::Err(ParseError::Syntax),
            Result::Ok(Symbols::RightParen(_, _)) => Result::Err(ParseError::Syntax),
            Result::Ok(Symbols::RightBracket(_, _)) => Result::Err(ParseError::Syntax),
            Result::Ok(Symbols::RightCurly(_, _)) => Result::Err(ParseError::Syntax),
            Result::Ok(_) => {
                let mut tok: Result<Symbols, LexError> = Result::Ok(Symbols::EOF);
                core::mem::swap(&mut tok, &mut self.symbol);
                match tok {
                    Result::Ok(sym) => {
                        self.advance();
                        Result::Ok(Node::Leaf(sym))
                    },
                    Result::Err(_) => {
                        proof {
                            assert(false);
                        }
                        Result::Err(ParseError::Syntax)
                    },
                }
            },
        }
    }

    fn parse_list(&mut self) -> (r: Result<Node, ParseError>)
        decreases state_measure(old(self).buf(), old(self).cursor()), 0int,
    {
        proof {
            self.lemma_inv_bounds();
        }
        let (a, b) = match &self.symbol {
            Result::Ok(Symbols::LeftParen(a, b)) => (*a, *b),
            _ => {
                proof {
                    assert(false);
                }
                (0, 0)
            },
        };
        let open_tok = Symbols::LeftParen(a, b);
        self.advance();
        match self.parse_body(Opener::Paren) {
            Result::Ok((children, close)) => {
                let hi = token_end(&close);
                Result::Ok(Node::List(a, hi, open_tok, children, close))
            },
            Result::Err(e) => Result::Err(e),
        }
    }

    fn parse_vector(&mut self) -> (r: Result<Node, ParseError>)
        decreases state_measure(old(self).buf(), old(self).cursor()), 0int,
    {
        proof {
            self.lemma_inv_bounds();
        }
        let (a, b) = match &self.symbol {
            Result::Ok(Symbols::LeftBracket(a, b)) => (*a, *b),
            _ => {
                proof {
                    assert(false);
                }
                (0, 0)
            },
        };
        let open_tok = Symbols::LeftBracket(a, b);
        self.advance();
        match self.parse_body(Opener::Bracket) {
            Result::Ok((children, close)) => {
                let hi = token_end(&close);
                Result::Ok(Node::Vector(a, hi, open_tok, children, close))
            },
            Result::Err(e) => Result::Err(e),
        }
    }

    fn parse_map(&mut self) -> (r: Result<Node, ParseError>)
        decreases state_measure(old(self).buf(), old(self).cursor()), 0int,
    {
        proof {
            self.lemma_inv_bounds();
        }
        let (a, b) = match &self.symbol {
            Result::Ok(Symbols::LeftCurly(a, b)) => (*a, *b),
            _ => {
                proof {
                    assert(false);
                }
                (0, 0)
            },
        };
        let open_tok = Symbols::LeftCurly(a, b);
        self.advance();
        match self.parse_body(Opener::Curly) {
            Result::Ok((children, close)) => {
                proof {
                    lemma_nodes_view(children@);
                }
                if children.len() % 2 == 0 {
                    let (keys, vals) = split_pairs(children);
                    let hi = token_end(&close);
                    Result::Ok(Node::MapForm(a, hi, open_tok, keys, vals, close))
                } else {
                    Result::Err(ParseError::OddMapArity)
                }
            },
            Result::Err(e) => Result::Err(e),
        }
    }

    fn parse_set(&mut self) -> (r: Result<Node, ParseError>)
        decreases state_measure(old(self).buf(), old(self).cursor()), 0int,
    {
        proof {
            self.lemma_inv_bounds();
        }
        let (a, b) = match &self.symbol {
            Result::Ok(Symbols::Hash(a, b)) => (*a, *b),
            _ => {
                proof {
                    assert(false);
                }
                (0, 0)
            },
        };
        let hash_tok = Symbols::Hash(a, b);
        self.advance();
        let c = match &self.symbol {
            Result::Err(e) => {
                return Result::Err(ParseError::Lexical(*e));
            },
            Result::Ok(Symbols::LeftCurly(c, _)) => *c,
            Result::Ok(_) => {
                return Result::Err(ParseError::ExpectedCurlyAfterHash);
            },
        };
        if c != b {
            return Result::Err(ParseError::ExpectedCurlyAfterHash);
        }
        self.advance();
        match self.parse_body(Opener::Curly) {
            Result::Ok((children, close)) => {
                let hi = token_end(&close);
                Result::Ok(Node::SetForm(a, hi, hash_tok, children, close))
            },
            Result::Err(e) => Result::Err(e),
        }
    }
}

} // verus!
