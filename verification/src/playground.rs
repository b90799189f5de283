//! The first, smaller evaluator of Loguage, used to try the grammar out: an
//! operation's value is the raw text of its first argument when it is a
//! `search`, and a query's value is that of its last operation.

use vstd::prelude::*;
use crate::syntax::{arity, child, lemma_child_smaller, SyntaxNode};

verus! {

/// A value of the trial evaluator.
#[derive(Debug)]
pub enum Val {
    Operation,
    LuceneQuery(String),
    Nil,
}

/// A value of the trial evaluator, by its view.
pub enum TrialValue {
    Operation,
    LuceneQuery(Seq<char>),
    Nil,
}

impl View for Val {
    type V = TrialValue;

    open spec fn view(&self) -> TrialValue {
        match self {
            Val::Operation => TrialValue::Operation,
            Val::LuceneQuery(s) => TrialValue::LuceneQuery(s@),
            Val::Nil => TrialValue::Nil,
        }
    }
}

/// The measure of the walk over the children of `n` from `i` on.
pub open spec fn rest(n: SyntaxNode, i: int) -> int {
    if 0 <= i <= arity(n) {
        arity(n) - i
    } else {
        0
    }
}

/// The value of a node.
pub open spec fn trial_eval(n: SyntaxNode) -> TrialValue
    decreases n, arity(n) + 1,
{
    if n.kind@ == "query"@ {
        trial_query(n, 0, TrialValue::Nil)
    } else if n.kind@ == "operation"@ {
        if child(n, 0).text@ == "search"@ {
            TrialValue::LuceneQuery(child(child(n, 1), 0).text@)
        } else {
            TrialValue::Nil
        }
    } else {
        TrialValue::Nil
    }
}

/// The value of the last named child of a query from `i` on, or `last`.
pub open spec fn trial_query(n: SyntaxNode, i: int, last: TrialValue) -> TrialValue
    decreases n, rest(n, i),
{
    if 0 <= i < arity(n) {
        if child(n, i).named {
            proof {
                lemma_child_smaller(n, i);
            }
            trial_query(n, i + 1, trial_eval(child(n, i)))
        } else {
            trial_query(n, i + 1, last)
        }
    } else {
        last
    }
}

/// The tree can be evaluated: each reached operation has a name and an
/// argument list, and a `search`'s argument list has a first element.
pub open spec fn trial_well_formed(n: SyntaxNode) -> bool
    decreases n, arity(n) + 1,
{
    if n.kind@ == "query"@ {
        trial_query_well_formed(n, 0)
    } else if n.kind@ == "operation"@ {
        &&& arity(n) >= 2
        &&& child(n, 0).text@ == "search"@ ==> arity(child(n, 1)) >= 1
    } else {
        true
    }
}

/// The named children of a query from `i` on are well formed.
pub open spec fn trial_query_well_formed(n: SyntaxNode, i: int) -> bool
    decreases n, rest(n, i),
{
    if 0 <= i < arity(n) {
        (child(n, i).named ==> {
            proof {
                lemma_child_smaller(n, i);
            }
            trial_well_formed(child(n, i))
        }) && trial_query_well_formed(n, i + 1)
    } else {
        true
    }
}

/// Evaluates a node with the trial evaluator.
pub fn eval(n: &SyntaxNode) -> (v: Val)
    requires
        trial_well_formed(*n),
    ensures
        v@ == trial_eval(*n),
    decreases *n,
{
    if crate::record::same_text(n.kind.as_str(), "query") {
        let mut cur = Val::Nil;
        let len = n.children.len();
        let mut i: usize = 0;
        while i < len
            invariant
                i <= len,
                len == arity(*n),
                n.kind@ == "query"@,
                trial_query_well_formed(*n, i as int),
                trial_eval(*n) == trial_query(*n, i as int, cur@),
            decreases len - i,
        {
            let c = &n.children[i];
            if c.named {
                proof {
                    lemma_child_smaller(*n, i as int);
                }
                cur = eval(c);
            }
            i = i + 1;
        }
        cur
    } else if crate::record::same_text(n.kind.as_str(), "operation") {
        let name = &n.children[0].text;
        let arguments = &n.children[1];
        if crate::record::same_text(name.as_str(), "search") {
            Val::LuceneQuery(arguments.children[0].text.clone())
        } else {
            Val::Nil
        }
    } else {
        Val::Nil
    }
}

/// Decides `trial_well_formed`.
pub fn check_trial_well_formed(n: &SyntaxNode) -> (r: bool)
    ensures
        r == trial_well_formed(*n),
    decreases *n,
{
    if crate::record::same_text(n.kind.as_str(), "query") {
        let len = n.children.len();
        let mut i: usize = 0;
        while i < len
            invariant
                i <= len,
                len == arity(*n),
                n.kind@ == "query"@,
                trial_well_formed(*n) == trial_query_well_formed(*n, i as int),
            decreases len - i,
        {
            let c = &n.children[i];
            if c.named {
                proof {
                    lemma_child_smaller(*n, i as int);
                }
                if !check_trial_well_formed(c) {
                    return false;
                }
            }
            i = i + 1;
        }
        true
    } else if crate::record::same_text(n.kind.as_str(), "operation") {
        if n.children.len() < 2 {
            return false;
        }
        if crate::record::same_text(n.children[0].text.as_str(), "search") {
            n.children[1].children.len() >= 1
        } else {
            true
        }
    } else {
        true
    }
}


/// Past the last named child, a query's walk keeps the value it has.
proof fn lemma_no_named_after(n: SyntaxNode, k: int, last: TrialValue)
    requires
        0 <= k,
        forall|j: int| k <= j < arity(n) ==> !(#[trigger] child(n, j)).named,
    ensures
        trial_query(n, k, last) == last,
    decreases rest(n, k),
{
    if k < arity(n) {
        lemma_no_named_after(n, k + 1, last);
    }
}

/// From any point up to its last named child `i`, a query's walk ends with
/// the value of child `i`.
proof fn lemma_walk_ends_at_last_named(n: SyntaxNode, k: int, i: int, last: TrialValue)
    requires
        0 <= k <= i < arity(n),
        child(n, i).named,
        forall|j: int| i < j < arity(n) ==> !(#[trigger] child(n, j)).named,
    ensures
        trial_query(n, k, last) == trial_eval(child(n, i)),
    decreases rest(n, k),
{
    if k == i {
        lemma_child_smaller(n, i);
        lemma_no_named_after(n, i + 1, trial_eval(child(n, i)));
    } else if child(n, k).named {
        lemma_child_smaller(n, k);
        lemma_walk_ends_at_last_named(n, k + 1, i, trial_eval(child(n, k)));
    } else {
        lemma_walk_ends_at_last_named(n, k + 1, i, last);
    }
}

/// A query's value is the value of its last named child, whatever the
/// children before it give.
pub proof fn law_query_value_is_last_operation(n: SyntaxNode, i: int)
    requires
        n.kind@ == "query"@,
        0 <= i < arity(n),
        child(n, i).named,
        forall|j: int| i < j < arity(n) ==> !(#[trigger] child(n, j)).named,
    ensures
        trial_eval(n) == trial_eval(child(n, i)),
{
    lemma_walk_ends_at_last_named(n, 0, i, TrialValue::Nil);
}

/// A query without named children is `Nil`.
pub proof fn law_query_without_operations_is_nil(n: SyntaxNode)
    requires
        n.kind@ == "query"@,
        forall|j: int| 0 <= j < arity(n) ==> !(#[trigger] child(n, j)).named,
    ensures
        trial_eval(n) == TrialValue::Nil,
{
    lemma_no_named_after(n, 0, TrialValue::Nil);
}

} // verus!
