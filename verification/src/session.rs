//! Running a query against the log index.
//!
//! Searches read the index on disk, so the caller runs them: a session says
//! which search it needs next, the caller hands back the hits, and the
//! session finishes once every search it needs has been answered.

use vstd::prelude::*;
use crate::interpreter::{
    answers_of, cache_view, eval, eval_node, first_answer, law_answer_moves_evaluation_on,
    law_answered_within_searches, node_answered, records_view, refines, searches_in,
    well_formed, Outcome, Step, Val, Value,
};
use crate::record::{Field, Record};
use crate::syntax::SyntaxNode;

verus! {

/// What the caller is to do next.
pub enum Action {
    /// Run this Lucene query and hand its hits to `supply`.
    Search(String),
    /// The query's value.
    Finish(Val),
}

impl View for Action {
    type V = Step;

    open spec fn view(&self) -> Step {
        match self {
            Action::Search(q) => Step::Pending(q@),
            Action::Finish(v) => Step::Done(v@),
        }
    }
}

/// The evaluation of one query tree, with the search results gathered so far.
pub struct Session {
    root: SyntaxNode,
    answers: Vec<(String, Vec<Record>)>,
}

impl Session {
    #[verifier::type_invariant]
    spec fn inv(self) -> bool {
        well_formed(self.root)
    }

    /// The query tree being evaluated.
    pub closed spec fn tree(self) -> SyntaxNode {
        self.root
    }

    /// The searches answered so far, in the order they were supplied.
    pub closed spec fn known(self) -> Seq<(String, Vec<Record>)> {
        self.answers@
    }

    /// Starts evaluating a well formed query tree, with no search run yet.
    pub fn new(root: SyntaxNode) -> (s: Session)
        requires
            well_formed(root),
        ensures
            s.tree() == root,
            s.known() == Seq::<(String, Vec<Record>)>::empty(),
    {
        Session { root, answers: Vec::new() }
    }

    /// The next thing to do: the search that evaluation needs next, or the
    /// query's value once every search it needs has been answered.
    pub fn next_action(&self) -> (a: Action)
        ensures
            a@ == eval_node(self.tree(), None, answers_of(self.known())),
    {
        proof {
            use_type_invariant(self);
        }
        match eval(&self.root, None, &self.answers) {
            Outcome::Done(v) => Action::Finish(v),
            Outcome::Pending(q) => Action::Search(q),
        }
    }

    /// Records the hits of a search.
    pub fn supply(&mut self, query: String, hits: Vec<Record>)
        ensures
            final(self).tree() == old(self).tree(),
            final(self).known() == old(self).known().push((query, hits)),
    {
        proof {
            use_type_invariant(&*self);
        }
        let mut answers = Vec::new();
        std::mem::swap(&mut answers, &mut self.answers);
        answers.push((query, hits));
        self.answers = answers;
    }
}

/// Answering the search that a session waits for moves it on: it never asks
/// for that query again.
pub proof fn law_supplied_search_is_not_asked_again(
    n: SyntaxNode,
    c: Seq<(String, Vec<Record>)>,
    query: String,
    hits: Vec<Record>,
)
    requires
        eval_node(n, None, answers_of(c)) == Step::Pending(query@),
    ensures
        eval_node(n, None, answers_of(c.push((query, hits)))) != Step::Pending(query@),
        first_answer(cache_view(c.push((query, hits))), query@) == Some(records_view(hits@)),
{
    crate::interpreter::law_waits_only_for_unknown(n, None, answers_of(c));
    lemma_first_answer_push(cache_view(c), query@, records_view(hits@));
    assert(cache_view(c.push((query, hits))) == cache_view(c).push((query@, records_view(hits@))));
    crate::interpreter::law_waits_only_for_unknown(n, None, answers_of(c.push((query, hits))));
}

/// A later entry answers a query that no earlier entry answers.
proof fn lemma_first_answer_push(
    c: Seq<(Seq<char>, Seq<Seq<Field>>)>,
    q: Seq<char>,
    r: Seq<Seq<Field>>,
)
    requires
        first_answer(c, q) is None,
    ensures
        first_answer(c.push((q, r)), q) == Some(r),
    decreases c.len(),
{
    if c.len() > 0 {
        lemma_first_answer_push(c.drop_first(), q, r);
        assert(c.push((q, r)).drop_first() == c.drop_first().push((q, r)));
    }
}

/// Supplying more hits never changes the value of a finished session.
pub proof fn law_finished_session_stays_finished(
    n: SyntaxNode,
    c: Seq<(String, Vec<Record>)>,
    extra: (String, Vec<Record>),
)
    requires
        eval_node(n, None, answers_of(c)) is Done,
    ensures
        eval_node(n, None, answers_of(c.push(extra))) == eval_node(n, None, answers_of(c)),
{
    let a = answers_of(c);
    let b = answers_of(c.push(extra));
    assert forall|q: Seq<char>| #[trigger] a(q) is Some implies b(q) == a(q) by {
        lemma_first_answer_prefix(cache_view(c), q, (extra.0@, records_view(extra.1@)));
        assert(cache_view(c.push(extra)) == cache_view(c).push((extra.0@, records_view(extra.1@))));
    }
    crate::interpreter::law_more_answers_keep_result(n, None, a, b);
}

/// An entry appended after one that answers a query does not change it.
proof fn lemma_first_answer_prefix(
    c: Seq<(Seq<char>, Seq<Seq<Field>>)>,
    q: Seq<char>,
    e: (Seq<char>, Seq<Seq<Field>>),
)
    requires
        first_answer(c, q) is Some,
    ensures
        first_answer(c.push(e), q) == first_answer(c, q),
    decreases c.len(),
{
    if c[0].0 != q {
        lemma_first_answer_prefix(c.drop_first(), q, e);
        assert(c.push(e).drop_first() == c.drop_first().push(e));
    }
}


/// Each entry of `c` answers the search that evaluating `n` waited for with
/// the entries before it: the searches of a session, supplied as it asks.
pub open spec fn supplied_in_turn(n: SyntaxNode, c: Seq<(String, Vec<Record>)>) -> bool {
    forall|k: int|
        0 <= k < c.len() ==> eval_node(n, None, answers_of(c.take(k))) == Step::Pending(
            #[trigger] c[k].0@,
        )
}

/// A session asks for at most as many searches as its tree has `search`
/// operations, so the loop that runs them and supplies their hits ends.
pub proof fn law_searches_asked_at_most_searches_in(
    n: SyntaxNode,
    c: Seq<(String, Vec<Record>)>,
)
    requires
        supplied_in_turn(n, c),
    ensures
        c.len() <= searches_in(n),
{
    lemma_answered_at_least(n, c, c.len() as int);
    assert(c.take(c.len() as int) == c);
    law_answered_within_searches(n, answers_of(c));
}

/// After the first `k` searches of a session are supplied, evaluation uses
/// at least `k` search results.
proof fn lemma_answered_at_least(n: SyntaxNode, c: Seq<(String, Vec<Record>)>, k: int)
    requires
        supplied_in_turn(n, c),
        0 <= k <= c.len(),
    ensures
        node_answered(n, None, answers_of(c.take(k))) >= k,
    decreases k,
{
    if k > 0 {
        lemma_answered_at_least(n, c, k - 1);
        let p = c.take(k - 1);
        let e = c[k - 1];
        let a = answers_of(p);
        let b = answers_of(c.take(k));
        assert(c.take(k) == p.push(e));
        assert(cache_view(p.push(e)) == cache_view(p).push((e.0@, records_view(e.1@))));
        assert(eval_node(n, None, a) == Step::Pending(e.0@));
        crate::interpreter::law_waits_only_for_unknown(n, None, a);
        assert(refines(a, b)) by {
            assert forall|q: Seq<char>| #[trigger] a(q) is Some implies b(q) == a(q) by {
                lemma_first_answer_prefix(cache_view(p), q, (e.0@, records_view(e.1@)));
            }
        }
        lemma_first_answer_push(cache_view(p), e.0@, records_view(e.1@));
        law_answer_moves_evaluation_on(n, a, b);
    }
}

} // verus!
