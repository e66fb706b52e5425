//! Laws of the tokenizer and the reader, stated over the spec functions that
//! the executable code is proved equal to.

use vstd::prelude::*;
use crate::char_class::alphanumeric;
use crate::lex_spec::{
    char_at, classify_name, keyword_token, lex_next, line_end, name_char, name_start_char,
    scan_name, skip_trivia, skip_trivia_from, space_char,
};
use crate::node::{lemma_nodes_map_arity_ok_all, lemma_nodes_map_arity_ok_index, map_arity_ok,
    nodes_map_arity_ok, ParseError, SpecNode};
use crate::parse_spec::{closes, map_keys, map_values, next_state, parse_body_spec,
    parse_form_spec, parse_text_spec, parse_unit_spec, state_measure, token_hi, token_lo,
    ReadState};
use crate::token::{LexError, Opener, SpecToken};

verus! {

/// Identifier scanning runs to the first offset whose character cannot
/// continue a name.
proof fn lemma_scan_name_stops(buf: Seq<char>, i: int, e: int)
    requires
        0 <= i <= e <= buf.len(),
        forall|j: int| i <= j < e ==> name_char(buf[j]),
        e == buf.len() || !name_char(buf[e]),
    ensures
        scan_name(buf, i) == e,
    decreases e - i,
{
    if i < e {
        lemma_scan_name_stops(buf, i + 1, e);
    }
}

/// Lexing a buffer that begins with an identifier classifies the scanned
/// text, with nothing skipped in front of it.
proof fn lemma_name_lex(buf: Seq<char>, opens: Seq<Opener>)
    requires
        buf.len() >= 1,
        name_start_char(buf[0]),
    ensures
        lex_next(buf, 0, opens) == classify_name(buf, opens, 0, scan_name(buf, 1)),
{
    assert(skip_trivia(buf, 0) == 0);
    assert(char_at(buf, 0) == buf[0]);
    assert(buf[0] != '\0');
}

/// Whether `text` is one of the strings of the reserved-keyword table.
pub open spec fn in_keyword_table(text: Seq<char>) -> bool {
    text == "apply"@ || text == "def"@ || text == "defn"@ || text == "doc"@ || text == "fn"@
        || text == "first"@ || text == "get"@ || text == "if"@ || text == "let"@ || text == "map"@
        || text == "name"@ || text == "require"@ || text == "second"@ || text == "when"@
}

/// Lexing a keyword string on its own yields the corresponding keyword token
/// with the span `[0, len)`, whatever the balance stack holds.
pub proof fn law_keyword_lexes_to_keyword_token(k: Seq<char>, opens: Seq<Opener>)
    requires
        in_keyword_table(k),
    ensures
        lex_next(k, 0, opens).pos == k.len(),
        lex_next(k, 0, opens).opens == opens,
        k == "apply"@ ==> lex_next(k, 0, opens).token == Result::<SpecToken, LexError>::Ok(
            SpecToken::Apply(0, 5),
        ),
        k == "def"@ ==> lex_next(k, 0, opens).token == Result::<SpecToken, LexError>::Ok(
            SpecToken::Def(0, 3),
        ),
        k == "defn"@ ==> lex_next(k, 0, opens).token == Result::<SpecToken, LexError>::Ok(
            SpecToken::Defn(0, 4),
        ),
        k == "doc"@ ==> lex_next(k, 0, opens).token == Result::<SpecToken, LexError>::Ok(
            SpecToken::Doc(0, 3),
        ),
        k == "fn"@ ==> lex_next(k, 0, opens).token == Result::<SpecToken, LexError>::Ok(
            SpecToken::Fn(0, 2),
        ),
        k == "first"@ ==> lex_next(k, 0, opens).token == Result::<SpecToken, LexError>::Ok(
            SpecToken::First(0, 5),
        ),
        k == "get"@ ==> lex_next(k, 0, opens).token == Result::<SpecToken, LexError>::Ok(
            SpecToken::Get(0, 3),
        ),
        k == "if"@ ==> lex_next(k, 0, opens).token == Result::<SpecToken, LexError>::Ok(
            SpecToken::If(0, 2),
        ),
        k == "let"@ ==> lex_next(k, 0, opens).token == Result::<SpecToken, LexError>::Ok(
            SpecToken::Let(0, 3),
        ),
        k == "map"@ ==> lex_next(k, 0, opens).token == Result::<SpecToken, LexError>::Ok(
            SpecToken::MapKw(0, 3),
        ),
        k == "name"@ ==> lex_next(k, 0, opens).token == Result::<SpecToken, LexError>::Ok(
            SpecToken::Name(0, 4),
        ),
        k == "require"@ ==> lex_next(k, 0, opens).token == Result::<SpecToken, LexError>::Ok(
            SpecToken::Require(0, 7),
        ),
        k == "second"@ ==> lex_next(k, 0, opens).token == Result::<SpecToken, LexError>::Ok(
            SpecToken::Second(0, 6),
        ),
        k == "when"@ ==> lex_next(k, 0, opens).token == Result::<SpecToken, LexError>::Ok(
            SpecToken::When(0, 4),
        ),
{
    reveal_strlit("apply");
    reveal_strlit("def");
    reveal_strlit("defn");
    reveal_strlit("doc");
    reveal_strlit("fn");
    reveal_strlit("first");
    reveal_strlit("get");
    reveal_strlit("if");
    reveal_strlit("let");
    reveal_strlit("map");
    reveal_strlit("name");
    reveal_strlit("require");
    reveal_strlit("second");
    reveal_strlit("when");
    reveal_strlit("not");
    assert(name_start_char(k[0]));
    lemma_name_lex(k, opens);
    lemma_scan_name_stops(k, 1, k.len() as int);
    assert(k.subrange(0, k.len() as int) =~= k);
}

/// Appending one alphanumeric character to a keyword string instead yields a
/// literal name holding the whole concatenated text. The one exception is
/// `def` followed by `n`, which is the keyword `defn`, so that pair is left
/// out.
pub proof fn law_keyword_with_trailing_char_is_name(k: Seq<char>, c: char, opens: Seq<Opener>)
    requires
        in_keyword_table(k),
        alphanumeric(c),
        !(k == "def"@ && c == 'n'),
    ensures
        lex_next(k.push(c), 0, opens).token == Result::<SpecToken, LexError>::Ok(
            SpecToken::LiteralName(0, k.len() as int + 1, k.push(c)),
        ),
        lex_next(k.push(c), 0, opens).pos == k.len() + 1,
        lex_next(k.push(c), 0, opens).opens == opens,
{
    reveal_strlit("apply");
    reveal_strlit("def");
    reveal_strlit("defn");
    reveal_strlit("doc");
    reveal_strlit("fn");
    reveal_strlit("first");
    reveal_strlit("get");
    reveal_strlit("if");
    reveal_strlit("let");
    reveal_strlit("map");
    reveal_strlit("name");
    reveal_strlit("require");
    reveal_strlit("second");
    reveal_strlit("when");
    reveal_strlit("not");
    let buf = k.push(c);
    assert(buf[0] == k[0]);
    assert(name_start_char(buf[0]));
    lemma_name_lex(buf, opens);
    assert(forall|j: int| 1 <= j < buf.len() ==> name_char(buf[j]));
    lemma_scan_name_stops(buf, 1, buf.len() as int);
    let text = buf.subrange(0, buf.len() as int);
    assert(text =~= buf);
    assert(keyword_token(text, 0, buf.len() as int) is None) by {
        assert(forall|i: int| 0 <= i < k.len() ==> text[i] == k[i]);
        assert(text[k.len() as int] == c);
        if text == "apply"@ {
            assert(false);
        }
        if text == "def"@ {
            assert(false);
        }
        if text == "defn"@ {
            assert(false);
        }
        if text == "doc"@ {
            assert(false);
        }
        if text == "fn"@ {
            assert(false);
        }
        if text == "first"@ {
            assert(false);
        }
        if text == "get"@ {
            assert(false);
        }
        if text == "if"@ {
            assert(false);
        }
        if text == "let"@ {
            assert(false);
        }
        if text == "map"@ {
            assert(false);
        }
        if text == "name"@ {
            assert(false);
        }
        if text == "require"@ {
            assert(false);
        }
        if text == "second"@ {
            assert(false);
        }
        if text == "when"@ {
            assert(false);
        }
    }
    assert(text != "not"@);
    assert(text[0] != ':');
}

/// `not` immediately followed by `=` lexes as one `NotEqual` token whose
/// span covers the whole compound, whatever follows the `=`.
pub proof fn law_not_equal_compound(buf: Seq<char>, opens: Seq<Opener>)
    requires
        buf.len() >= 4,
        buf.subrange(0, 3) == "not"@,
        buf[3] == '=',
    ensures
        lex_next(buf, 0, opens).token == Result::<SpecToken, LexError>::Ok(
            SpecToken::NotEqual(0, 4),
        ),
        lex_next(buf, 0, opens).pos == 4,
        lex_next(buf, 0, opens).opens == opens,
{
    reveal_strlit("apply");
    reveal_strlit("def");
    reveal_strlit("defn");
    reveal_strlit("doc");
    reveal_strlit("fn");
    reveal_strlit("first");
    reveal_strlit("get");
    reveal_strlit("if");
    reveal_strlit("let");
    reveal_strlit("map");
    reveal_strlit("name");
    reveal_strlit("require");
    reveal_strlit("second");
    reveal_strlit("when");
    reveal_strlit("not");
    assert(buf[0] == "not"@[0] && buf[1] == "not"@[1] && buf[2] == "not"@[2]);
    assert(name_start_char(buf[0]));
    lemma_name_lex(buf, opens);
    lemma_scan_name_stops(buf, 1, 3);
    assert(buf.subrange(0, 3) == "not"@);
    assert(keyword_token("not"@, 0, 3) is None);
}

/// `not` followed by anything that neither continues the identifier nor is
/// `=` (or by the end of the input) lexes as the literal name `not`.
pub proof fn law_not_alone_is_name(buf: Seq<char>, opens: Seq<Opener>)
    requires
        buf.len() >= 3,
        buf.subrange(0, 3) == "not"@,
        buf.len() == 3 || (!name_char(buf[3]) && buf[3] != '='),
    ensures
        lex_next(buf, 0, opens).token == Result::<SpecToken, LexError>::Ok(
            SpecToken::LiteralName(0, 3, "not"@),
        ),
        lex_next(buf, 0, opens).pos == 3,
        lex_next(buf, 0, opens).opens == opens,
{
    reveal_strlit("apply");
    reveal_strlit("def");
    reveal_strlit("defn");
    reveal_strlit("doc");
    reveal_strlit("fn");
    reveal_strlit("first");
    reveal_strlit("get");
    reveal_strlit("if");
    reveal_strlit("let");
    reveal_strlit("map");
    reveal_strlit("name");
    reveal_strlit("require");
    reveal_strlit("second");
    reveal_strlit("when");
    reveal_strlit("not");
    assert(buf[0] == "not"@[0] && buf[1] == "not"@[1] && buf[2] == "not"@[2]);
    assert(name_start_char(buf[0]));
    lemma_name_lex(buf, opens);
    lemma_scan_name_stops(buf, 1, 3);
    assert(keyword_token("not"@, 0, 3) is None);
    assert(char_at(buf, 3) != '=');
}

/// A `:` marker with no identifier character after it is an error, and the
/// cursor moves past the marker alone.
pub proof fn law_bare_colon_is_error(buf: Seq<char>, opens: Seq<Opener>)
    requires
        buf.len() >= 1,
        buf[0] == ':',
        buf.len() == 1 || !name_char(buf[1]),
    ensures
        lex_next(buf, 0, opens).token == Result::<SpecToken, LexError>::Err(LexError::BareColon),
        lex_next(buf, 0, opens).pos == 1,
        lex_next(buf, 0, opens).opens == opens,
{
    reveal_strlit("apply");
    reveal_strlit("def");
    reveal_strlit("defn");
    reveal_strlit("doc");
    reveal_strlit("fn");
    reveal_strlit("first");
    reveal_strlit("get");
    reveal_strlit("if");
    reveal_strlit("let");
    reveal_strlit("map");
    reveal_strlit("name");
    reveal_strlit("require");
    reveal_strlit("second");
    reveal_strlit("when");
    reveal_strlit("not");
    assert(name_start_char(buf[0]));
    lemma_name_lex(buf, opens);
    lemma_scan_name_stops(buf, 1, 1);
    let text = buf.subrange(0, 1);
    assert(text.len() == 1 && text[0] == ':');
    assert(keyword_token(text, 0, 1) is None);
    assert(text != "not"@);
}

/// A `:` marker followed by identifier characters to the end of the buffer
/// lexes as a keyword literal holding the whole text, marker included.
pub proof fn law_colon_name_is_keyword_literal(buf: Seq<char>, opens: Seq<Opener>)
    requires
        buf.len() >= 2,
        buf[0] == ':',
        forall|j: int| 1 <= j < buf.len() ==> name_char(buf[j]),
    ensures
        lex_next(buf, 0, opens).token == Result::<SpecToken, LexError>::Ok(
            SpecToken::LiteralKeyword(0, buf.len() as int, buf),
        ),
        lex_next(buf, 0, opens).pos == buf.len() as int,
        lex_next(buf, 0, opens).opens == opens,
{
    reveal_strlit("apply");
    reveal_strlit("def");
    reveal_strlit("defn");
    reveal_strlit("doc");
    reveal_strlit("fn");
    reveal_strlit("first");
    reveal_strlit("get");
    reveal_strlit("if");
    reveal_strlit("let");
    reveal_strlit("map");
    reveal_strlit("name");
    reveal_strlit("require");
    reveal_strlit("second");
    reveal_strlit("when");
    reveal_strlit("not");
    assert(name_start_char(buf[0]));
    lemma_name_lex(buf, opens);
    lemma_scan_name_stops(buf, 1, buf.len() as int);
    let text = buf.subrange(0, buf.len() as int);
    assert(text =~= buf);
    assert(keyword_token(text, 0, buf.len() as int) is None);
    assert(text != "not"@);
}

/// A closing parenthesis with nothing open fails on the very first token
/// request, without consuming the character.
pub proof fn law_closer_without_opener_fails(buf: Seq<char>)
    requires
        buf.len() >= 1,
        buf[0] == ')',
    ensures
        lex_next(buf, 0, Seq::empty()).token == Result::<SpecToken, LexError>::Err(
            LexError::UnmatchedCloseParen,
        ),
        lex_next(buf, 0, Seq::empty()).pos == 0,
{
    assert(skip_trivia(buf, 0) == 0);
}

/// An opening parenthesis with no closer makes the reader fail with an
/// unterminated form.
pub proof fn law_lone_opener_is_unterminated()
    ensures
        parse_text_spec(seq!['(']).forms == Result::<Seq<SpecNode>, ParseError>::Err(
            ParseError::UnterminatedForm,
        ),
{
    reveal_with_fuel(skip_trivia_from, 3);
    reveal_with_fuel(crate::parse_spec::parse_unit_spec, 2);
    reveal_with_fuel(crate::parse_spec::parse_form_spec, 2);
    reveal_with_fuel(crate::parse_spec::parse_body_spec, 2);
}


/// Whether offset `i` stands inside a `;` comment: some `;` before it with
/// no line end (and no NUL sentinel) in between.
pub open spec fn comment_open(buf: Seq<char>, i: int) -> bool {
    exists|j: int|
        0 <= j < i && buf[j] == ';' && (forall|m: int|
            j < m < i ==> !line_end(buf[m]) && buf[m] != '\0')
}

/// Whether the input consists solely of whitespace and `;` comments: every
/// character is whitespace, starts a comment, or stands inside one.
pub open spec fn trivia_only(buf: Seq<char>) -> bool {
    forall|i: int|
        0 <= i < buf.len() ==> space_char(buf[i]) || buf[i] == ';' || comment_open(buf, i)
}

proof fn lemma_skip_all_trivia(buf: Seq<char>, i: int, in_comment: bool)
    requires
        trivia_only(buf),
        0 <= i <= buf.len(),
        in_comment ==> comment_open(buf, i),
        !in_comment ==> !comment_open(buf, i),
    ensures
        char_at(buf, skip_trivia_from(buf, i, in_comment)) == '\0',
    decreases buf.len() - i,
{
    if i < buf.len() {
        let c = buf[i];
        if in_comment {
            if c == '\0' {
            } else if line_end(c) {
                assert(!comment_open(buf, i + 1)) by {
                    assert(forall|j: int|
                        0 <= j < i + 1 && buf[j] == ';' ==> !(forall|m: int|
                            j < m < i + 1 ==> !line_end(buf[m]) && buf[m] != '\0'));
                }
                lemma_skip_all_trivia(buf, i + 1, false);
            } else {
                assert(comment_open(buf, i + 1)) by {
                    let j = choose|j: int|
                        0 <= j < i && buf[j] == ';' && (forall|m: int|
                            j < m < i ==> !line_end(buf[m]) && buf[m] != '\0');
                    assert(0 <= j < i + 1 && buf[j] == ';' && (forall|m: int|
                        j < m < i + 1 ==> !line_end(buf[m]) && buf[m] != '\0'));
                }
                lemma_skip_all_trivia(buf, i + 1, true);
            }
        } else {
            if space_char(c) {
                assert(!comment_open(buf, i + 1)) by {
                    if comment_open(buf, i + 1) {
                        let j = choose|j: int|
                            0 <= j < i + 1 && buf[j] == ';' && (forall|m: int|
                                j < m < i + 1 ==> !line_end(buf[m]) && buf[m] != '\0');
                        assert(j < i);
                        assert(!line_end(buf[i]) && buf[i] != '\0');
                        assert(c == ' ' || c == '\t');
                        assert(comment_open(buf, i));
                    }
                }
                lemma_skip_all_trivia(buf, i + 1, false);
            } else if c == ';' {
                assert(comment_open(buf, i + 1)) by {
                    assert(0 <= i < i + 1 && buf[i] == ';' && (forall|m: int|
                        i < m < i + 1 ==> !line_end(buf[m]) && buf[m] != '\0'));
                }
                lemma_skip_all_trivia(buf, i + 1, true);
            } else {
                assert(comment_open(buf, i));
                assert(false);
            }
        }
    }
}

/// An input of whitespace and comments alone lexes to the end-of-input
/// token at once, again and again, whatever the balance stack holds; and the
/// reader turns it into an empty unit.
pub proof fn law_trivia_only_input(buf: Seq<char>, opens: Seq<Opener>)
    requires
        trivia_only(buf),
    ensures
        lex_next(buf, 0, opens).token == Result::<SpecToken, LexError>::Ok(SpecToken::EOF),
        lex_next(buf, 0, opens).opens == opens,
        lex_next(buf, lex_next(buf, 0, opens).pos, opens).token == Result::<SpecToken,
            LexError>::Ok(SpecToken::EOF),
        parse_text_spec(buf).forms == Result::<Seq<SpecNode>, ParseError>::Ok(Seq::empty()),
{
    lemma_skip_all_trivia(buf, 0, false);
    crate::lex_spec::lemma_skip_trivia_bounds(buf, 0, false);
    let j = skip_trivia(buf, 0);
    assert(skip_trivia(buf, j) == j);
    reveal_with_fuel(crate::parse_spec::parse_unit_spec, 2);
}


/// Token spans stay in order: every ordinary token starts at or after the
/// cursor that requested it, its start does not exceed its end, and the
/// cursor moves exactly to that end, so the spans of successive tokens never
/// move backwards.
pub proof fn law_token_spans_in_order(buf: Seq<char>, pos: int, opens: Seq<Opener>)
    requires
        0 <= pos <= buf.len(),
    ensures
        (match lex_next(buf, pos, opens).token {
            Result::Ok(t) => !(t is EOF) ==> pos <= token_lo(t) && token_lo(t) < token_hi(t)
                && token_hi(t) == lex_next(buf, pos, opens).pos,
            Result::Err(_) => true,
        }),
{
    crate::lex_spec::lemma_skip_trivia_bounds(buf, pos, false);
    let j = skip_trivia(buf, pos);
    let c = char_at(buf, j);
    if c != '\0' && crate::lex_spec::operator_step(buf, j, opens).token is None
        && crate::lex_spec::operator_step(buf, j, opens).pending is None && name_start_char(c) {
        crate::lex_spec::lemma_scan_name_bounds(buf, j + 1);
    }
}


proof fn lemma_parse_form_arity(buf: Seq<char>, s: ReadState)
    ensures
        (match parse_form_spec(buf, s).node {
            Result::Ok(n) => map_arity_ok(n),
            Result::Err(_) => true,
        }),
    decreases state_measure(buf, s), 1int,
{
    match s.tok {
        Result::Err(_) => {},
        Result::Ok(t) => match t {
            SpecToken::LeftParen(_, _) => {
                let s1 = next_state(buf, s);
                if 0 <= state_measure(buf, s1) < state_measure(buf, s) {
                    lemma_parse_body_arity(buf, s1, Opener::Paren);
                }
            },
            SpecToken::LeftBracket(_, _) => {
                let s1 = next_state(buf, s);
                if 0 <= state_measure(buf, s1) < state_measure(buf, s) {
                    lemma_parse_body_arity(buf, s1, Opener::Bracket);
                }
            },
            SpecToken::LeftCurly(_, _) => {
                let s1 = next_state(buf, s);
                if 0 <= state_measure(buf, s1) < state_measure(buf, s) {
                    lemma_parse_body_arity(buf, s1, Opener::Curly);
                    let bs = parse_body_spec(buf, s1, Opener::Curly);
                    match bs.body {
                        Result::Ok((cs, _)) => {
                            if cs.len() % 2 == 0 {
                                lemma_nodes_map_arity_ok_index(cs);
                                lemma_nodes_map_arity_ok_all(map_keys(cs));
                                lemma_nodes_map_arity_ok_all(map_values(cs));
                            }
                        },
                        Result::Err(_) => {},
                    }
                }
            },
            SpecToken::Hash(_, b) => {
                let s1 = next_state(buf, s);
                if 0 <= state_measure(buf, s1) < state_measure(buf, s) {
                    match s1.tok {
                        Result::Ok(SpecToken::LeftCurly(c, _)) => {
                            if c == b {
                                let s2 = next_state(buf, s1);
                                if 0 <= state_measure(buf, s2) < state_measure(buf, s1) {
                                    lemma_parse_body_arity(buf, s2, Opener::Curly);
                                }
                            }
                        },
                        _ => {},
                    }
                }
            },
            _ => {},
        },
    }
}

proof fn lemma_parse_body_arity(buf: Seq<char>, s: ReadState, k: Opener)
    ensures
        (match parse_body_spec(buf, s, k).body {
            Result::Ok(p) => nodes_map_arity_ok(p.0),
            Result::Err(_) => true,
        }),
    decreases state_measure(buf, s), 2int,
{
    match s.tok {
        Result::Err(_) => {},
        Result::Ok(t) => {
            if t is EOF || closes(t, k) {
            } else {
                lemma_parse_form_arity(buf, s);
                let fs = parse_form_spec(buf, s);
                match fs.node {
                    Result::Err(_) => {},
                    Result::Ok(n) => {
                        if 0 <= state_measure(buf, fs.state) < state_measure(buf, s) {
                            lemma_parse_body_arity(buf, fs.state, k);
                            let bs = parse_body_spec(buf, fs.state, k);
                            match bs.body {
                                Result::Ok(p) => {
                                    assert((seq![n] + p.0)[0] == n);
                                    assert((seq![n] + p.0).drop_first() =~= p.0);
                                },
                                Result::Err(_) => {},
                            }
                        }
                    },
                }
            }
        },
    }
}

proof fn lemma_parse_unit_arity(buf: Seq<char>, s: ReadState)
    ensures
        (match parse_unit_spec(buf, s).forms {
            Result::Ok(fs) => nodes_map_arity_ok(fs),
            Result::Err(_) => true,
        }),
    decreases state_measure(buf, s), 3int,
{
    match s.tok {
        Result::Err(_) => {},
        Result::Ok(t) => match t {
            SpecToken::LeftParen(_, _)
            | SpecToken::LeftBracket(_, _)
            | SpecToken::LeftCurly(_, _)
            | SpecToken::Hash(_, _) => {
                lemma_parse_form_arity(buf, s);
                let fs = parse_form_spec(buf, s);
                match fs.node {
                    Result::Err(_) => {},
                    Result::Ok(n) => {
                        if 0 <= state_measure(buf, fs.state) < state_measure(buf, s) {
                            lemma_parse_unit_arity(buf, fs.state);
                            let us = parse_unit_spec(buf, fs.state);
                            match us.forms {
                                Result::Ok(rest) => {
                                    assert((seq![n] + rest)[0] == n);
                                    assert((seq![n] + rest).drop_first() =~= rest);
                                },
                                Result::Err(_) => {},
                            }
                        }
                    },
                }
            },
            _ => {},
        },
    }
}

/// Every tree the reader returns keeps the map invariant: each map node,
/// however deeply nested, carries exactly as many keys as values.
pub proof fn law_maps_pair_keys_with_values(buf: Seq<char>)
    ensures
        (match parse_text_spec(buf).forms {
            Result::Ok(fs) => map_arity_ok(SpecNode::Unit(fs)),
            Result::Err(_) => true,
        }),
{
    let start = ReadState { pos: 0, opens: Seq::empty(), tok: Result::Ok(SpecToken::EOF) };
    lemma_parse_unit_arity(buf, next_state(buf, start));
}

} // verus!
