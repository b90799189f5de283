//! The parse tree of a Loguage query, as plain values.
//!
//! A parser turns query text into this tree; every node keeps its grammar
//! kind, whether it is a named node, the source text it spans and its
//! children in source order.

use vstd::prelude::*;

verus! {

/// One node of a Loguage parse tree.
pub struct SyntaxNode {
    /// The grammar rule or token kind, such as `query` or `operation`.
    pub kind: String,
    /// Whether the node is a named node of the grammar (not punctuation).
    pub named: bool,
    /// The source text that the node spans.
    pub text: String,
    /// The child nodes, in source order.
    pub children: Vec<SyntaxNode>,
}

/// The `i`-th child of `n`.
pub open spec fn child(n: SyntaxNode, i: int) -> SyntaxNode {
    n.children@[i]
}

/// The number of children of `n`.
pub open spec fn arity(n: SyntaxNode) -> int {
    n.children@.len() as int
}

/// The `i`-th child of `n` is structurally smaller than `n`.
pub proof fn lemma_child_smaller(n: SyntaxNode, i: int)
    requires
        0 <= i < arity(n),
    ensures
        decreases_to!(n => child(n, i)),
{
    assert(decreases_to!(n => n.children));
    assert(decreases_to!(n.children => n.children@));
    assert(decreases_to!(n.children@ => n.children@[i]));
}

/// The first child of the `i`-th child of `n` is smaller than `n`.
pub proof fn lemma_grandchild_smaller(n: SyntaxNode, i: int)
    requires
        0 <= i < arity(n),
        arity(child(n, i)) > 0,
    ensures
        decreases_to!(n => child(child(n, i), 0)),
{
    lemma_child_smaller(n, i);
    lemma_child_smaller(child(n, i), 0);
}

impl SyntaxNode {
    /// A leaf node.
    pub fn leaf(kind: String, named: bool, text: String) -> (r: SyntaxNode)
        ensures
            r.kind == kind,
            r.named == named,
            r.text == text,
            r.children@.len() == 0,
    {
        SyntaxNode { kind, named, text, children: Vec::new() }
    }

    /// An inner node.
    pub fn branch(kind: String, named: bool, text: String, children: Vec<SyntaxNode>) -> (r:
        SyntaxNode)
        ensures
            r.kind == kind,
            r.named == named,
            r.text == text,
            r.children == children,
    {
        SyntaxNode { kind, named, text, children }
    }
}

} // verus!
