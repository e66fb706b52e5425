//! The syntax tree the reader builds, its mathematical counterpart, and the
//! parse error taxonomy.

use vstd::prelude::*;
use crate::token::{LexError, SpecToken, Symbols};

verus! {

/// Everything the reader can reject, one variant per condition.
#[derive(Clone, Copy, PartialEq, Eq, Structural, Debug)]
pub enum ParseError {
    /// The tokenizer itself failed.
    Lexical(LexError),
    /// A token that cannot begin a form where one was expected.
    Syntax,
    /// End of input inside an open list, vector, map or set body.
    UnterminatedForm,
    /// A `#` not followed at once by `{`.
    ExpectedCurlyAfterHash,
    /// A map body holding an odd number of forms.
    OddMapArity,
}

/// A node of the syntax tree. Delimited forms carry the span `[start, end)`
/// of the whole form (from the first character of the opening delimiter to
/// just past the closing one), the opening and closing delimiter tokens, and
/// the child forms in source order. A map carries its keys and values
/// separately, in equal number.
#[derive(PartialEq, Debug)]
pub enum Node {
    Unit(Vec<Node>),
    List(u32, u32, Symbols, Vec<Node>, Symbols),
    Vector(u32, u32, Symbols, Vec<Node>, Symbols),
    MapForm(u32, u32, Symbols, Vec<Node>, Vec<Node>, Symbols),
    SetForm(u32, u32, Symbols, Vec<Node>, Symbols),
    Leaf(Symbols),
}

/// The mathematical value of a syntax tree node.
pub enum SpecNode {
    Unit(Seq<SpecNode>),
    List(int, int, SpecToken, Seq<SpecNode>, SpecToken),
    Vector(int, int, SpecToken, Seq<SpecNode>, SpecToken),
    MapForm(int, int, SpecToken, Seq<SpecNode>, Seq<SpecNode>, SpecToken),
    SetForm(int, int, SpecToken, Seq<SpecNode>, SpecToken),
    Leaf(SpecToken),
}

/// The mathematical value of a sequence of nodes.
pub open spec fn nodes_view(ns: Seq<Node>) -> Seq<SpecNode>
    decreases ns,
{
    if ns.len() == 0 {
        Seq::empty()
    } else {
        seq![node_view(ns[0])] + nodes_view(ns.drop_first())
    }
}

/// The mathematical value of a node: spans as integers, children as
/// sequences.
pub open spec fn node_view(n: Node) -> SpecNode
    decreases n,
{
    match n {
        Node::Unit(cs) => SpecNode::Unit(nodes_view(cs@)),
        Node::List(a, b, o, cs, c) => SpecNode::List(a as int, b as int, o@, nodes_view(cs@), c@),
        Node::Vector(a, b, o, cs, c) => SpecNode::Vector(
            a as int,
            b as int,
            o@,
            nodes_view(cs@),
            c@,
        ),
        Node::MapForm(a, b, o, ks, vs, c) => SpecNode::MapForm(
            a as int,
            b as int,
            o@,
            nodes_view(ks@),
            nodes_view(vs@),
            c@,
        ),
        Node::SetForm(a, b, o, cs, c) => SpecNode::SetForm(
            a as int,
            b as int,
            o@,
            nodes_view(cs@),
            c@,
        ),
        Node::Leaf(t) => SpecNode::Leaf(t@),
    }
}

pub proof fn lemma_nodes_view(ns: Seq<Node>)
    ensures
        nodes_view(ns).len() == ns.len(),
        forall|i: int| 0 <= i < ns.len() ==> nodes_view(ns)[i] == node_view(ns[i]),
    decreases ns.len(),
{
    if ns.len() > 0 {
        lemma_nodes_view(ns.drop_first());
    }
}

/// Appending one node at the end extends the sequence view by its view.
pub proof fn lemma_nodes_view_push(ns: Seq<Node>, n: Node)
    ensures
        nodes_view(ns.push(n)) == nodes_view(ns).push(node_view(n)),
    decreases ns.len(),
{
    if ns.len() == 0 {
        assert(ns.push(n)[0] == n);
        assert(ns.push(n).drop_first() =~= Seq::<Node>::empty());
        assert(nodes_view(ns.push(n)) == seq![node_view(n)] + nodes_view(Seq::<Node>::empty()));
        assert(nodes_view(ns.push(n)) =~= nodes_view(ns).push(node_view(n)));
    } else {
        lemma_nodes_view_push(ns.drop_first(), n);
        assert(ns.push(n)[0] == ns[0]);
        assert(ns.push(n).drop_first() =~= ns.drop_first().push(n));
        assert(nodes_view(ns.push(n)) == seq![node_view(ns[0])] + nodes_view(
            ns.drop_first().push(n)));
        assert(nodes_view(ns.push(n)) =~= nodes_view(ns).push(node_view(n)));
    }
}


/// Whether every map node in the tree carries as many keys as values.
pub open spec fn map_arity_ok(n: SpecNode) -> bool
    decreases n,
{
    match n {
        SpecNode::Unit(cs) => nodes_map_arity_ok(cs),
        SpecNode::List(_, _, _, cs, _) => nodes_map_arity_ok(cs),
        SpecNode::Vector(_, _, _, cs, _) => nodes_map_arity_ok(cs),
        SpecNode::MapForm(_, _, _, ks, vs, _) => ks.len() == vs.len() && nodes_map_arity_ok(ks)
            && nodes_map_arity_ok(vs),
        SpecNode::SetForm(_, _, _, cs, _) => nodes_map_arity_ok(cs),
        SpecNode::Leaf(_) => true,
    }
}

pub open spec fn nodes_map_arity_ok(ns: Seq<SpecNode>) -> bool
    decreases ns,
{
    if ns.len() == 0 {
        true
    } else {
        map_arity_ok(ns[0]) && nodes_map_arity_ok(ns.drop_first())
    }
}

pub proof fn lemma_nodes_map_arity_ok_index(ns: Seq<SpecNode>)
    requires
        nodes_map_arity_ok(ns),
    ensures
        forall|i: int| 0 <= i < ns.len() ==> map_arity_ok(ns[i]),
    decreases ns,
{
    if ns.len() > 0 {
        lemma_nodes_map_arity_ok_index(ns.drop_first());
        assert(forall|i: int| 1 <= i < ns.len() ==> ns[i] == ns.drop_first()[i - 1]);
    }
}

pub proof fn lemma_nodes_map_arity_ok_all(ns: Seq<SpecNode>)
    requires
        forall|i: int| 0 <= i < ns.len() ==> map_arity_ok(ns[i]),
    ensures
        nodes_map_arity_ok(ns),
    decreases ns,
{
    if ns.len() > 0 {
        assert(forall|i: int| 0 <= i < ns.drop_first().len() ==> map_arity_ok(
            ns.drop_first()[i],
        )) by {
            assert(forall|i: int| 0 <= i < ns.drop_first().len() ==> ns.drop_first()[i] == ns[i
                + 1]);
        }
        lemma_nodes_map_arity_ok_all(ns.drop_first());
    }
}

} // verus!
