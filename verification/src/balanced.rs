//! The reader succeeds on every well-balanced delimiter sequence, and the
//! tree it builds carries exactly the spans of the text. The sequences are
//! given as trees of the four delimited forms; `render` writes one out as
//! text, `shape` is the syntax tree the reader must build for it, with every
//! delimiter span placed where the text has it.

use vstd::prelude::*;
use crate::lex_spec::{char_at, lex_next, skip_trivia};
use crate::node::{ParseError, SpecNode};
use crate::parse_spec::{
    map_keys, map_values, next_state, parse_body_spec, parse_form_spec, parse_text_spec,
    parse_unit_spec, state_measure, BodyStep, FormStep, ReadState,
};
use crate::token::{LexError, Opener, SpecToken};

verus! {

/// A well-balanced delimiter sequence: nested parentheses, brackets, curlies
/// and `#{` sets, and nothing else.
pub enum DelimTree {
    Paren(Seq<DelimTree>),
    Bracket(Seq<DelimTree>),
    Curly(Seq<DelimTree>),
    HashCurly(Seq<DelimTree>),
}

/// The text of one delimited form.
pub open spec fn render_form(f: DelimTree) -> Seq<char>
    decreases f,
{
    match f {
        DelimTree::Paren(cs) => seq!['('] + render_forms(cs) + seq![')'],
        DelimTree::Bracket(cs) => seq!['['] + render_forms(cs) + seq![']'],
        DelimTree::Curly(cs) => seq!['{'] + render_forms(cs) + seq!['}'],
        DelimTree::HashCurly(cs) => seq!['#', '{'] + render_forms(cs) + seq!['}'],
    }
}

/// The text of a sequence of forms, one after the other.
pub open spec fn render_forms(fs: Seq<DelimTree>) -> Seq<char>
    decreases fs,
{
    if fs.len() == 0 {
        Seq::empty()
    } else {
        render_form(fs[0]) + render_forms(fs.drop_first())
    }
}

/// Every curly body anywhere in the form holds an even number of forms, so
/// that it can be read as key/value pairs.
pub open spec fn maps_even(f: DelimTree) -> bool
    decreases f,
{
    match f {
        DelimTree::Paren(cs) => all_maps_even(cs),
        DelimTree::Bracket(cs) => all_maps_even(cs),
        DelimTree::Curly(cs) => cs.len() % 2 == 0 && all_maps_even(cs),
        DelimTree::HashCurly(cs) => all_maps_even(cs),
    }
}

pub open spec fn all_maps_even(fs: Seq<DelimTree>) -> bool
    decreases fs,
{
    if fs.len() == 0 {
        true
    } else {
        maps_even(fs[0]) && all_maps_even(fs.drop_first())
    }
}

/// The node the reader must build for the form whose text starts at offset
/// `p`: every span is determined by the text alone, and the delimiter tokens
/// of each node exactly bracket the span its children cover.
pub open spec fn shape_node(f: DelimTree, p: int) -> SpecNode
    decreases f,
{
    match f {
        DelimTree::Paren(cs) => {
            let e = p + render_form(f).len();
            SpecNode::List(
                p,
                e,
                SpecToken::LeftParen(p, p + 1),
                shape_nodes(cs, p + 1),
                SpecToken::RightParen(e - 1, e),
            )
        },
        DelimTree::Bracket(cs) => {
            let e = p + render_form(f).len();
            SpecNode::Vector(
                p,
                e,
                SpecToken::LeftBracket(p, p + 1),
                shape_nodes(cs, p + 1),
                SpecToken::RightBracket(e - 1, e),
            )
        },
        DelimTree::Curly(cs) => {
            let e = p + render_form(f).len();
            SpecNode::MapForm(
                p,
                e,
                SpecToken::LeftCurly(p, p + 1),
                map_keys(shape_nodes(cs, p + 1)),
                map_values(shape_nodes(cs, p + 1)),
                SpecToken::RightCurly(e - 1, e),
            )
        },
        DelimTree::HashCurly(cs) => {
            let e = p + render_form(f).len();
            SpecNode::SetForm(
                p,
                e,
                SpecToken::Hash(p, p + 1),
                shape_nodes(cs, p + 2),
                SpecToken::RightCurly(e - 1, e),
            )
        },
    }
}

pub open spec fn shape_nodes(fs: Seq<DelimTree>, p: int) -> Seq<SpecNode>
    decreases fs,
{
    if fs.len() == 0 {
        Seq::empty()
    } else {
        seq![shape_node(fs[0], p)] + shape_nodes(fs.drop_first(), p + render_form(fs[0]).len())
    }
}

proof fn lemma_shape_nodes_len(fs: Seq<DelimTree>, p: int)
    ensures
        shape_nodes(fs, p).len() == fs.len(),
    decreases fs,
{
    if fs.len() > 0 {
        lemma_shape_nodes_len(fs.drop_first(), p + render_form(fs[0]).len());
    }
}

/// The character a body of kind `k` ends with.
pub open spec fn close_char(k: Opener) -> char {
    match k {
        Opener::Paren => ')',
        Opener::Bracket => ']',
        Opener::Curly => '}',
    }
}

/// The closing token of kind `k` at offset `e`.
pub open spec fn close_token(k: Opener, e: int) -> SpecToken {
    match k {
        Opener::Paren => SpecToken::RightParen(e, e + 1),
        Opener::Bracket => SpecToken::RightBracket(e, e + 1),
        Opener::Curly => SpecToken::RightCurly(e, e + 1),
    }
}

/// The reader's state after loading one token from offset `p` with balance
/// stack `opens`.
pub open spec fn loaded(buf: Seq<char>, p: int, opens: Seq<Opener>) -> ReadState {
    let st = lex_next(buf, p, opens);
    ReadState { pos: st.pos, opens: st.opens, tok: st.token }
}


/// A window of a window: what `buf` holds between `p + lo` and `p + hi` is
/// what `x` holds between `lo` and `hi`, when `x` is `buf`'s text at `p`.
proof fn lemma_subrange_shift(buf: Seq<char>, p: int, x: Seq<char>, lo: int, hi: int)
    requires
        0 <= p,
        p + x.len() <= buf.len(),
        buf.subrange(p, p + x.len() as int) == x,
        0 <= lo <= hi <= x.len(),
    ensures
        buf.subrange(p + lo, p + hi) == x.subrange(lo, hi),
{
    assert forall|i: int| 0 <= i < hi - lo implies buf.subrange(p + lo, p + hi)[i] == x.subrange(
        lo,
        hi,
    )[i] by {
        assert(buf.subrange(p, p + x.len() as int)[lo + i] == x[lo + i]);
    }
    assert(buf.subrange(p + lo, p + hi) =~= x.subrange(lo, hi));
}

proof fn lemma_render_forms_split(buf: Seq<char>, p: int, fs: Seq<DelimTree>)
    requires
        fs.len() > 0,
        0 <= p,
        p + render_forms(fs).len() <= buf.len(),
        buf.subrange(p, p + render_forms(fs).len() as int) == render_forms(fs),
    ensures
        render_forms(fs).len() == render_form(fs[0]).len() + render_forms(fs.drop_first()).len(),
        buf.subrange(p, p + render_form(fs[0]).len() as int) == render_form(fs[0]),
        buf.subrange(
            p + render_form(fs[0]).len() as int,
            p + render_forms(fs).len() as int,
        ) == render_forms(fs.drop_first()),
{
    let a = render_form(fs[0]);
    let b = render_forms(fs.drop_first());
    let x = render_forms(fs);
    assert(x == a + b);
    lemma_subrange_shift(buf, p, x, 0, a.len() as int);
    assert(x.subrange(0, a.len() as int) =~= a);
    lemma_subrange_shift(buf, p, x, a.len() as int, x.len() as int);
    assert(x.subrange(a.len() as int, x.len() as int) =~= b);
}

/// The delimiter characters a rendered form starts and ends with.
proof fn lemma_render_form_chars(buf: Seq<char>, p: int, f: DelimTree)
    requires
        0 <= p,
        p + render_form(f).len() <= buf.len(),
        buf.subrange(p, p + render_form(f).len() as int) == render_form(f),
    ensures
        render_form(f).len() >= 2,
        f is Paren ==> buf[p] == '(' && buf[p + render_form(f).len() - 1] == ')',
        f is Bracket ==> buf[p] == '[' && buf[p + render_form(f).len() - 1] == ']',
        f is Curly ==> buf[p] == '{' && buf[p + render_form(f).len() - 1] == '}',
        f is HashCurly ==> buf[p] == '#' && buf[p + 1] == '{' && buf[p + render_form(f).len() - 1]
            == '}',
        (match f {
            DelimTree::Paren(cs) => buf.subrange(p + 1, p + 1 + render_forms(cs).len() as int)
                == render_forms(cs),
            DelimTree::Bracket(cs) => buf.subrange(p + 1, p + 1 + render_forms(cs).len() as int)
                == render_forms(cs),
            DelimTree::Curly(cs) => buf.subrange(p + 1, p + 1 + render_forms(cs).len() as int)
                == render_forms(cs),
            DelimTree::HashCurly(cs) => buf.subrange(p + 2, p + 2 + render_forms(cs).len() as int)
                == render_forms(cs),
        }),
{
    let r = render_form(f);
    match f {
        DelimTree::Paren(cs) => {
            assert(r == seq!['('] + render_forms(cs) + seq![')']);
            assert(buf[p] == r[0] && r[0] == '(');
            assert(buf[p + r.len() - 1] == r[r.len() - 1] && r[r.len() - 1] == ')');
            lemma_subrange_shift(buf, p, r, 1, 1 + render_forms(cs).len() as int);
            assert(r.subrange(1, 1 + render_forms(cs).len() as int) =~= render_forms(cs));
        },
        DelimTree::Bracket(cs) => {
            assert(r == seq!['['] + render_forms(cs) + seq![']']);
            assert(buf[p] == r[0] && r[0] == '[');
            assert(buf[p + r.len() - 1] == r[r.len() - 1] && r[r.len() - 1] == ']');
            lemma_subrange_shift(buf, p, r, 1, 1 + render_forms(cs).len() as int);
            assert(r.subrange(1, 1 + render_forms(cs).len() as int) =~= render_forms(cs));
        },
        DelimTree::Curly(cs) => {
            assert(r == seq!['{'] + render_forms(cs) + seq!['}']);
            assert(buf[p] == r[0] && r[0] == '{');
            assert(buf[p + r.len() - 1] == r[r.len() - 1] && r[r.len() - 1] == '}');
            lemma_subrange_shift(buf, p, r, 1, 1 + render_forms(cs).len() as int);
            assert(r.subrange(1, 1 + render_forms(cs).len() as int) =~= render_forms(cs));
        },
        DelimTree::HashCurly(cs) => {
            assert(r == seq!['#', '{'] + render_forms(cs) + seq!['}']);
            assert(buf[p] == r[0] && r[0] == '#');
            assert(buf[p + 1] == r[1] && r[1] == '{');
            assert(buf[p + r.len() - 1] == r[r.len() - 1] && r[r.len() - 1] == '}');
            lemma_subrange_shift(buf, p, r, 2, 2 + render_forms(cs).len() as int);
            assert(r.subrange(2, 2 + render_forms(cs).len() as int) =~= render_forms(cs));
        },
    }
}

/// Parsing one rendered form from its first character: the reader returns
/// exactly the shape of the form and stands right after its closing
/// delimiter, with the balance stack as it was.
proof fn lemma_parse_rendered_form(buf: Seq<char>, p: int, opens: Seq<Opener>, f: DelimTree)
    requires
        maps_even(f),
        0 <= p,
        p + render_form(f).len() <= buf.len(),
        buf.subrange(p, p + render_form(f).len() as int) == render_form(f),
    ensures
        parse_form_spec(buf, loaded(buf, p, opens)) == (FormStep {
            node: Result::<SpecNode, ParseError>::Ok(shape_node(f, p)),
            state: loaded(buf, p + render_form(f).len(), opens),
        }),
    decreases render_form(f).len(), 0int,
{
    let e = p + render_form(f).len();
    lemma_render_form_chars(buf, p, f);
    match f {
        DelimTree::Paren(cs) => {
            assert(skip_trivia(buf, p) == p);
            let s = loaded(buf, p, opens);
            assert(s.tok == Result::<SpecToken, LexError>::Ok(SpecToken::LeftParen(p, p + 1)));
            assert(s.pos == p + 1 && s.opens == opens.push(Opener::Paren));
            let s1 = next_state(buf, s);
            assert(s1 == loaded(buf, p + 1, opens.push(Opener::Paren)));
            crate::lex_spec::lemma_lex_next_progress(buf, p + 1, opens.push(Opener::Paren));
            assert(0 <= state_measure(buf, s1) < state_measure(buf, s));
            lemma_parse_rendered_body(buf, p + 1, opens.push(Opener::Paren), Opener::Paren, cs, e
                - 1);
            assert(opens.push(Opener::Paren).drop_last() =~= opens);
            lemma_shape_nodes_len(cs, p + 1);
        },
        DelimTree::Bracket(cs) => {
            assert(skip_trivia(buf, p) == p);
            let s = loaded(buf, p, opens);
            assert(s.tok == Result::<SpecToken, LexError>::Ok(SpecToken::LeftBracket(p, p + 1)));
            assert(s.pos == p + 1 && s.opens == opens.push(Opener::Bracket));
            let s1 = next_state(buf, s);
            assert(s1 == loaded(buf, p + 1, opens.push(Opener::Bracket)));
            crate::lex_spec::lemma_lex_next_progress(buf, p + 1, opens.push(Opener::Bracket));
            assert(0 <= state_measure(buf, s1) < state_measure(buf, s));
            lemma_parse_rendered_body(
                buf,
                p + 1,
                opens.push(Opener::Bracket),
                Opener::Bracket,
                cs,
                e - 1,
            );
            assert(opens.push(Opener::Bracket).drop_last() =~= opens);
            lemma_shape_nodes_len(cs, p + 1);
        },
        DelimTree::Curly(cs) => {
            assert(skip_trivia(buf, p) == p);
            let s = loaded(buf, p, opens);
            assert(s.tok == Result::<SpecToken, LexError>::Ok(SpecToken::LeftCurly(p, p + 1)));
            assert(s.pos == p + 1 && s.opens == opens.push(Opener::Curly));
            let s1 = next_state(buf, s);
            assert(s1 == loaded(buf, p + 1, opens.push(Opener::Curly)));
            crate::lex_spec::lemma_lex_next_progress(buf, p + 1, opens.push(Opener::Curly));
            assert(0 <= state_measure(buf, s1) < state_measure(buf, s));
            lemma_parse_rendered_body(buf, p + 1, opens.push(Opener::Curly), Opener::Curly, cs, e
                - 1);
            assert(opens.push(Opener::Curly).drop_last() =~= opens);
            lemma_shape_nodes_len(cs, p + 1);
        },
        DelimTree::HashCurly(cs) => {
            assert(skip_trivia(buf, p) == p);
            let s = loaded(buf, p, opens);
            assert(s.tok == Result::<SpecToken, LexError>::Ok(SpecToken::Hash(p, p + 1)));
            assert(s.pos == p + 1 && s.opens == opens);
            let s1 = next_state(buf, s);
            assert(skip_trivia(buf, p + 1) == p + 1);
            assert(s1.tok == Result::<SpecToken, LexError>::Ok(
                SpecToken::LeftCurly(p + 1, p + 2),
            ));
            assert(s1 == loaded(buf, p + 1, opens));
            assert(s1.pos == p + 2 && s1.opens == opens.push(Opener::Curly));
            crate::lex_spec::lemma_lex_next_progress(buf, p + 1, opens);
            assert(0 <= state_measure(buf, s1) < state_measure(buf, s));
            let s2 = next_state(buf, s1);
            assert(s2 == loaded(buf, p + 2, opens.push(Opener::Curly)));
            crate::lex_spec::lemma_lex_next_progress(buf, p + 2, opens.push(Opener::Curly));
            assert(0 <= state_measure(buf, s2) < state_measure(buf, s1));
            lemma_parse_rendered_body(buf, p + 2, opens.push(Opener::Curly), Opener::Curly, cs, e
                - 1);
            assert(opens.push(Opener::Curly).drop_last() =~= opens);
            lemma_shape_nodes_len(cs, p + 2);
        },
    }
}

/// Parsing the rendered forms of a body followed by its closing delimiter at
/// offset `e`: the reader returns their shapes and the closing token, and
/// stands right after the closer with the enclosing form popped.
proof fn lemma_parse_rendered_body(
    buf: Seq<char>,
    p: int,
    opens: Seq<Opener>,
    k: Opener,
    fs: Seq<DelimTree>,
    e: int,
)
    requires
        all_maps_even(fs),
        0 <= p,
        e == p + render_forms(fs).len(),
        e < buf.len(),
        buf.subrange(p, e) == render_forms(fs),
        buf[e] == close_char(k),
        opens.len() > 0,
        opens.last() == k,
    ensures
        parse_body_spec(buf, loaded(buf, p, opens), k) == (BodyStep {
            body: Result::<(Seq<SpecNode>, SpecToken), ParseError>::Ok(
                (shape_nodes(fs, p), close_token(k, e)),
            ),
            state: loaded(buf, e + 1, opens.drop_last()),
        }),
    decreases render_forms(fs).len(), 1int,
{
    if fs.len() == 0 {
        assert(e == p);
        assert(skip_trivia(buf, p) == p);
        let s = loaded(buf, p, opens);
        assert(s.tok == Result::<SpecToken, LexError>::Ok(close_token(k, e)));
        assert(s.pos == e + 1 && s.opens == opens.drop_last());
        assert(next_state(buf, s) == loaded(buf, e + 1, opens.drop_last()));
    } else {
        lemma_render_forms_split(buf, p, fs);
        let f0 = fs[0];
        let e0 = p + render_form(f0).len();
        lemma_parse_rendered_form(buf, p, opens, f0);
        lemma_render_form_chars(buf, p, f0);
        let s = loaded(buf, p, opens);
        let fstep = parse_form_spec(buf, s);
        assert(fstep.node == Result::<SpecNode, ParseError>::Ok(shape_node(f0, p)));
        assert(fstep.state == loaded(buf, e0, opens));
        crate::lex_spec::lemma_lex_next_progress(buf, p, opens);
        crate::lex_spec::lemma_lex_next_progress(buf, e0, opens);
        assert(0 <= state_measure(buf, fstep.state));
        assert(state_measure(buf, fstep.state) < state_measure(buf, s));
        lemma_parse_rendered_body(buf, e0, opens, k, fs.drop_first(), e);
        assert(seq![shape_node(f0, p)] + shape_nodes(fs.drop_first(), e0) == shape_nodes(fs, p));
    }
}

/// Reading a whole source text that is one well-balanced delimiter sequence,
/// every curly body even: the reader succeeds, and the tree it returns
/// carries exactly the spans of the text, each delimiter pair bracketing the
/// span its children cover.
pub proof fn law_balanced_delimiters_parse(fs: Seq<DelimTree>)
    requires
        all_maps_even(fs),
    ensures
        parse_text_spec(render_forms(fs)).forms == Result::<Seq<SpecNode>, ParseError>::Ok(
            shape_nodes(fs, 0),
        ),
{
    let buf = render_forms(fs);
    assert(buf.subrange(0, buf.len() as int) =~= buf);
    lemma_parse_rendered_unit(buf, 0, fs);
}

proof fn lemma_parse_rendered_unit(buf: Seq<char>, p: int, fs: Seq<DelimTree>)
    requires
        all_maps_even(fs),
        0 <= p,
        p + render_forms(fs).len() == buf.len(),
        buf.subrange(p, buf.len() as int) == render_forms(fs),
    ensures
        parse_unit_spec(buf, loaded(buf, p, Seq::empty())).forms == Result::<Seq<SpecNode>,
            ParseError>::Ok(shape_nodes(fs, p)),
    decreases render_forms(fs).len(),
{
    if fs.len() == 0 {
        assert(p == buf.len());
        let s = loaded(buf, p, Seq::empty());
        assert(char_at(buf, skip_trivia(buf, p)) == '\0');
        assert(s.tok == Result::<SpecToken, LexError>::Ok(SpecToken::EOF));
    } else {
        lemma_render_forms_split(buf, p, fs);
        let f0 = fs[0];
        let e0 = p + render_form(f0).len();
        lemma_parse_rendered_form(buf, p, Seq::empty(), f0);
        lemma_render_form_chars(buf, p, f0);
        let s = loaded(buf, p, Seq::empty());
        let fstep = parse_form_spec(buf, s);
        assert(fstep.node == Result::<SpecNode, ParseError>::Ok(shape_node(f0, p)));
        assert(fstep.state == loaded(buf, e0, Seq::empty()));
        crate::lex_spec::lemma_lex_next_progress(buf, p, Seq::empty());
        crate::lex_spec::lemma_lex_next_progress(buf, e0, Seq::empty());
        assert(0 <= state_measure(buf, fstep.state));
        assert(state_measure(buf, fstep.state) < state_measure(buf, s));
        lemma_parse_rendered_unit(buf, e0, fs.drop_first());
        assert(seq![shape_node(f0, p)] + shape_nodes(fs.drop_first(), e0) == shape_nodes(fs, p));
    }
}

} // verus!
