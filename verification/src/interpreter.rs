//! The Loguage interpreter.
//!
//! A query is a sequence of operations, each fed the previous one's output:
//! `search` runs a Lucene query against the log index, `fields` keeps some
//! fields of each hit, and `lucene` turns hits back into a Lucene query.
//! Searching is outside work, so evaluation is given the answers known so
//! far and either finishes or names the next search it needs.

use vstd::prelude::*;
use crate::record::{keep_names, Field, Record};
use crate::syntax::{arity, child, lemma_child_smaller, lemma_grandchild_smaller, SyntaxNode};
use crate::text::{chars_of, join, join_strings, string_of, trim, trimmed, views};

verus! {

/// A value of the language.
#[derive(Debug)]
pub enum Val {
    /// The value of an operation (unused by the evaluator).
    Operation,
    /// A Lucene query string.
    LuceneQuery(String),
    /// The hits of a search, one record per hit.
    SearchResults(Vec<Record>),
    /// No value.
    Nil,
}

/// A value of the language, by its view.
pub enum Value {
    Operation,
    LuceneQuery(Seq<char>),
    SearchResults(Seq<Seq<Field>>),
    Nil,
}

/// Views of a list of records.
pub open spec fn records_view(rs: Seq<Record>) -> Seq<Seq<Field>> {
    rs.map_values(|r: Record| r@)
}

impl View for Val {
    type V = Value;

    open spec fn view(&self) -> Value {
        match self {
            Val::Operation => Value::Operation,
            Val::LuceneQuery(s) => Value::LuceneQuery(s@),
            Val::SearchResults(rs) => Value::SearchResults(records_view(rs@)),
            Val::Nil => Value::Nil,
        }
    }
}

/// Views of an optional value.
pub open spec fn opt_view(v: Option<Val>) -> Option<Value> {
    match v {
        Some(x) => Some(x@),
        None => None,
    }
}

/// What the search engine answers, as far as it is known: the hits of a
/// query, or `None` for a query not run yet.
pub type Answers = spec_fn(Seq<char>) -> Option<Seq<Seq<Field>>>;

/// The result of evaluating a node with the answers known so far.
pub enum Step {
    /// Evaluation finished with this value.
    Done(Value),
    /// Evaluation needs the hits of this query first.
    Pending(Seq<char>),
}

/// The text of a `lucene_query` token without its delimiters: the first and
/// last character are dropped and surrounding whitespace is trimmed.
pub open spec fn literal_query(t: Seq<char>) -> Seq<char> {
    trimmed(t.subrange(1, t.len() - 1))
}

/// A token whose first and last characters are ASCII and can be cut off.
pub open spec fn delimited(t: Seq<char>) -> bool {
    &&& t.len() >= 2
    &&& (t[0] as u32) < 128
    &&& (t.last() as u32) < 128
}

/// One field as a Lucene term: `name:"value"`.
pub open spec fn field_term(f: Field) -> Seq<char> {
    f.0 + ":\""@ + f.1 + "\""@
}

/// A record as a conjunction of its field terms.
pub open spec fn record_clause(r: Seq<Field>) -> Seq<char> {
    join(r.map_values(|f: Field| field_term(f)), " AND "@)
}

/// Hits as a Lucene query that matches any of them.
pub open spec fn lucene_of(rs: Seq<Seq<Field>>) -> Seq<char> {
    "("@ + join(rs.map_values(|r: Seq<Field>| record_clause(r)), " OR "@) + ")"@
}

/// Every value is a Lucene query.
pub open spec fn all_queries(vs: Seq<Value>) -> bool {
    forall|i: int| 0 <= i < vs.len() ==> vs[i] is LuceneQuery
}

/// The query strings of a list of Lucene query values.
pub open spec fn query_texts(vs: Seq<Value>) -> Seq<Seq<char>> {
    vs.map_values(|v: Value| v->LuceneQuery_0)
}

/// The conjunction of the argument queries of `search`.
pub open spec fn compound_query(vs: Seq<Value>) -> Seq<char> {
    join(query_texts(vs), " AND "@)
}

/// `search` once its arguments are evaluated: the conjunction of their
/// queries is run, or the result is `Nil` when an argument is no query.
pub open spec fn finish_search(vs: Seq<Value>, ans: Answers) -> Step {
    if all_queries(vs) {
        match ans(compound_query(vs)) {
            Some(rs) => Step::Done(Value::SearchResults(rs)),
            None => Step::Pending(compound_query(vs)),
        }
    } else {
        Step::Done(Value::Nil)
    }
}

/// Measure of the walk over the children of `n` from `i` on.
pub open spec fn rest(n: SyntaxNode, i: int) -> int {
    if 0 <= i <= arity(n) {
        arity(n) - i
    } else {
        0
    }
}

/// Evaluates a node, given the output of the previous operation.
pub open spec fn eval_node(n: SyntaxNode, last: Option<Value>, ans: Answers) -> Step
    decreases n, arity(n) + 3,
{
    if n.kind@ == "query"@ {
        run_query(n, 0, None, ans)
    } else if n.kind@ == "operation"@ {
        eval_operation(n, last, ans)
    } else {
        Step::Done(Value::Nil)
    }
}

/// The operations of a query from child `i` on, each fed the previous output;
/// the value is the last output, or `Nil` when there was none.
pub open spec fn run_query(n: SyntaxNode, i: int, last: Option<Value>, ans: Answers) -> Step
    decreases n, rest(n, i),
{
    if 0 <= i < arity(n) {
        if !child(n, i).named {
            run_query(n, i + 1, last, ans)
        } else {
            proof {
                lemma_child_smaller(n, i);
            }
            match eval_node(child(n, i), last, ans) {
                Step::Done(v) => run_query(n, i + 1, Some(v), ans),
                Step::Pending(q) => Step::Pending(q),
            }
        }
    } else {
        match last {
            Some(v) => Step::Done(v),
            None => Step::Done(Value::Nil),
        }
    }
}

/// The arguments of `search` from child `i` on, `vs` holding the values of
/// those before.
pub open spec fn search_args(n: SyntaxNode, i: int, vs: Seq<Value>, ans: Answers) -> Step
    decreases n, rest(n, i),
{
    if 1 <= i < arity(n) {
        let a = child(child(n, i), 0);
        if a.kind@ == "lucene_query"@ {
            search_args(n, i + 1, vs.push(Value::LuceneQuery(literal_query(a.text@))), ans)
        } else if a.kind@ == "query"@ {
            if arity(child(n, i)) > 0 {
                proof {
                    lemma_grandchild_smaller(n, i);
                }
                match eval_node(a, None, ans) {
                    Step::Done(v) => search_args(n, i + 1, vs.push(v), ans),
                    Step::Pending(q) => Step::Pending(q),
                }
            } else {
                Step::Done(Value::Nil)
            }
        } else {
            search_args(n, i + 1, vs.push(Value::Nil), ans)
        }
    } else {
        finish_search(vs, ans)
    }
}

/// The terms named by the arguments of `fields` from child `i` on, or
/// `None` when one of them is not an expression.
pub open spec fn field_names(n: SyntaxNode, i: int) -> Option<Seq<Seq<char>>>
    decreases rest(n, i),
{
    if 1 <= i < arity(n) {
        let e = child(child(n, i), 0);
        if e.kind@ == "expression"@ {
            match field_names(n, i + 1) {
                Some(ts) => Some(seq![child(e, 0).text@] + ts),
                None => None,
            }
        } else {
            None
        }
    } else {
        Some(Seq::empty())
    }
}

/// Keeps the named fields of every hit.
pub open spec fn keep_in_all(rs: Seq<Seq<Field>>, names: Seq<Seq<char>>) -> Seq<Seq<Field>> {
    rs.map_values(|r: Seq<Field>| keep_names(r, names))
}

/// Evaluates an operation node; its first child names the operation and the
/// others are its arguments.
pub open spec fn eval_operation(n: SyntaxNode, last: Option<Value>, ans: Answers) -> Step
    decreases n, arity(n) + 2,
{
    let name = child(n, 0).text@;
    if name == "search"@ {
        search_args(n, 1, Seq::empty(), ans)
    } else if name == "fields"@ {
        match field_names(n, 1) {
            Some(names) => match last {
                Some(Value::SearchResults(rs)) => Step::Done(
                    Value::SearchResults(keep_in_all(rs, names)),
                ),
                _ => Step::Done(Value::Nil),
            },
            None => Step::Done(Value::Nil),
        }
    } else if name == "lucene"@ {
        match last {
            Some(Value::SearchResults(rs)) => Step::Done(Value::LuceneQuery(lucene_of(rs))),
            _ => Step::Done(Value::Nil),
        }
    } else {
        Step::Done(Value::Nil)
    }
}

/// The tree can be evaluated: every operation that evaluation reaches has a
/// name, every argument it inspects has a first child, and every Lucene
/// token it reads can have its delimiters cut off.
pub open spec fn well_formed(n: SyntaxNode) -> bool
    decreases n, arity(n) + 3,
{
    if n.kind@ == "query"@ {
        query_well_formed(n, 0)
    } else if n.kind@ == "operation"@ {
        operation_well_formed(n)
    } else {
        true
    }
}

/// The named children of a query from `i` on are well formed.
pub open spec fn query_well_formed(n: SyntaxNode, i: int) -> bool
    decreases n, rest(n, i),
{
    if 0 <= i < arity(n) {
        (child(n, i).named ==> {
            proof {
                lemma_child_smaller(n, i);
            }
            well_formed(child(n, i))
        }) && query_well_formed(n, i + 1)
    } else {
        true
    }
}

/// An operation has a name and well formed arguments.
pub open spec fn operation_well_formed(n: SyntaxNode) -> bool
    decreases n, arity(n) + 2,
{
    &&& arity(n) >= 1
    &&& child(n, 0).text@ == "search"@ ==> search_well_formed(n, 1)
    &&& child(n, 0).text@ == "fields"@ ==> fields_well_formed(n, 1)
}

/// The arguments of `search` from `i` on are well formed.
pub open spec fn search_well_formed(n: SyntaxNode, i: int) -> bool
    decreases n, rest(n, i),
{
    if 1 <= i < arity(n) {
        let a = child(child(n, i), 0);
        &&& arity(child(n, i)) >= 1
        &&& a.kind@ == "lucene_query"@ ==> delimited(a.text@)
        &&& a.kind@ == "query"@ ==> {
            proof {
                lemma_grandchild_smaller(n, i);
            }
            well_formed(a)
        }
        &&& search_well_formed(n, i + 1)
    } else {
        true
    }
}

/// The arguments of `fields` from `i` on are well formed, up to the first
/// one that is not an expression, where evaluation stops.
pub open spec fn fields_well_formed(n: SyntaxNode, i: int) -> bool
    decreases rest(n, i),
{
    if 1 <= i < arity(n) {
        let e = child(child(n, i), 0);
        &&& arity(child(n, i)) >= 1
        &&& e.kind@ == "expression"@ ==> arity(e) >= 1 && fields_well_formed(n, i + 1)
    } else {
        true
    }
}


/// Whether `n` is of the given kind.
fn is_kind(n: &SyntaxNode, kind: &str) -> (r: bool)
    ensures
        r == (n.kind@ == kind@),
{
    crate::record::same_text(n.kind.as_str(), kind)
}

/// The query of a `lucene_query` token: delimiters cut off, whitespace trimmed.
pub fn literal_text(text: &String) -> (r: String)
    requires
        delimited(text@),
    ensures
        r@ == literal_query(text@),
{
    let cs = chars_of(text.as_str());
    let n = cs.len();
    let mut inner: Vec<char> = Vec::new();
    let mut i: usize = 1;
    while i + 1 < n
        invariant
            1 <= i <= n - 1,
            n == cs@.len(),
            n >= 2,
            inner@ == cs@.subrange(1, i as int),
        decreases n - i,
    {
        inner.push(cs[i]);
        assert(cs@.subrange(1, i + 1) == cs@.subrange(1, i as int).push(cs@[i as int]));
        i = i + 1;
    }
    let t = trim(inner.as_slice());
    string_of(t.as_slice())
}

/// One field as a Lucene term: `name:"value"`.
pub fn term_text(name: &String, value: &String) -> (r: String)
    ensures
        r@ == field_term((name@, value@)),
{
    let mut out = name.clone();
    out.append(":\"");
    out.append(value.as_str());
    out.append("\"");
    out
}

/// A record as a conjunction of its fields, such as `a:"1" AND b:"2"`.
pub fn record_text(r: &Record) -> (out: String)
    ensures
        out@ == record_clause(r@),
{
    let mut terms: Vec<String> = Vec::new();
    let n = r.len();
    for i in 0..n
        invariant
            n == r@.len(),
            terms@.len() == i,
            forall|j: int| 0 <= j < i ==> (#[trigger] terms@[j])@ == field_term(r@[j]),
    {
        let ghost prev = terms@;
        let (k, v) = r.field_at(i);
        let t = term_text(&k, &v);
        terms.push(t);
        assert forall|j: int| 0 <= j < i + 1 implies (#[trigger] terms@[j])@ == field_term(
            r@[j],
        ) by {
            if j < i {
                assert(terms@[j] == prev[j]);
            }
        }
    }
    assert(views(terms@) =~= r@.map_values(|f: Field| field_term(f)));
    join_strings(&terms, " AND ")
}

/// Hits as a Lucene query matching any of them: `(c1 OR c2 ...)`.
pub fn lucene_text(rs: &Vec<Record>) -> (out: String)
    ensures
        out@ == lucene_of(records_view(rs@)),
{
    let ghost rv = records_view(rs@);
    let mut clauses: Vec<String> = Vec::new();
    let n = rs.len();
    for i in 0..n
        invariant
            n == rs@.len(),
            rv == records_view(rs@),
            clauses@.len() == i,
            forall|j: int| 0 <= j < i ==> (#[trigger] clauses@[j])@ == record_clause(rv[j]),
    {
        let ghost prev = clauses@;
        let c = record_text(&rs[i]);
        clauses.push(c);
        assert forall|j: int| 0 <= j < i + 1 implies (#[trigger] clauses@[j])@ == record_clause(
            rv[j],
        ) by {
            if j < i {
                assert(clauses@[j] == prev[j]);
            }
        }
    }
    assert(views(clauses@) =~= rv.map_values(|r: Seq<Field>| record_clause(r)));
    let body = join_strings(&clauses, " OR ");
    let mut out = String::from_str("(");
    out.append(body.as_str());
    out.append(")");
    out
}

/// A copy of a list of records.
pub fn copy_records(rs: &Vec<Record>) -> (out: Vec<Record>)
    ensures
        records_view(out@) == records_view(rs@),
{
    let mut out: Vec<Record> = Vec::new();
    let n = rs.len();
    for i in 0..n
        invariant
            n == rs@.len(),
            out@.len() == i,
            forall|j: int| 0 <= j < i ==> (#[trigger] out@[j])@ == rs@[j]@,
    {
        let ghost prev = out@;
        out.push(rs[i].copy());
        assert forall|j: int| 0 <= j < i + 1 implies (#[trigger] out@[j])@ == rs@[j]@ by {
            if j < i {
                assert(out@[j] == prev[j]);
            }
        }
    }
    assert(records_view(out@) =~= records_view(rs@));
    out
}

/// The answers a search engine gave so far, by their view.
pub open spec fn cache_view(c: Seq<(String, Vec<Record>)>) -> Seq<(Seq<char>, Seq<Seq<Field>>)> {
    c.map_values(|e: (String, Vec<Record>)| (e.0@, records_view(e.1@)))
}

/// The hits recorded for `q`: those of its first entry.
pub open spec fn first_answer(c: Seq<(Seq<char>, Seq<Seq<Field>>)>, q: Seq<char>) -> Option<
    Seq<Seq<Field>>,
>
    decreases c.len(),
{
    if c.len() == 0 {
        None
    } else if c[0].0 == q {
        Some(c[0].1)
    } else {
        first_answer(c.drop_first(), q)
    }
}

/// The answers that a list of query results gives.
pub open spec fn answers_of(c: Seq<(String, Vec<Record>)>) -> Answers {
    |q: Seq<char>| first_answer(cache_view(c), q)
}

/// Looks up the hits recorded for `q`.
pub fn cached(cache: &Vec<(String, Vec<Record>)>, q: &String) -> (r: Option<Vec<Record>>)
    ensures
        match r {
            Some(rs) => first_answer(cache_view(cache@), q@) == Some(records_view(rs@)),
            None => first_answer(cache_view(cache@), q@) is None,
        },
{
    let ghost cv = cache_view(cache@);
    let n = cache.len();
    assert(cv.subrange(0, n as int) == cv);
    for i in 0..n
        invariant
            n == cache@.len(),
            cv == cache_view(cache@),
            first_answer(cv, q@) == first_answer(cv.subrange(i as int, n as int), q@),
    {
        let (k, rs) = &cache[i];
        assert(cv.subrange(i as int, n as int)[0] == (k@, records_view(rs@)));
        assert(cv.subrange(i as int, n as int).drop_first() == cv.subrange(i + 1, n as int));
        if *k == *q {
            return Some(copy_records(rs));
        }
    }
    None
}


/// The outcome of evaluating a node with the answers known so far.
pub enum Outcome {
    /// Evaluation finished with this value.
    Done(Val),
    /// Evaluation needs the hits of this query first.
    Pending(String),
}

impl View for Outcome {
    type V = Step;

    open spec fn view(&self) -> Step {
        match self {
            Outcome::Done(v) => Step::Done(v@),
            Outcome::Pending(q) => Step::Pending(q@),
        }
    }
}

/// Views of a list of values.
pub open spec fn values_view(vs: Seq<Val>) -> Seq<Value> {
    vs.map_values(|v: Val| v@)
}

/// Joining one more piece onto a prefix of a list.
pub proof fn lemma_join_take(list: Seq<Seq<char>>, sep: Seq<char>, i: int)
    requires
        0 <= i < list.len(),
    ensures
        join(list.take(i + 1), sep) == if i == 0 {
            list[0]
        } else {
            join(list.take(i), sep) + sep + list[i]
        },
{
    assert(list.take(i + 1).drop_last() == list.take(i));
    assert(list.take(i + 1).last() == list[i]);
}

/// Runs `search` on its evaluated arguments: their conjunction is looked up
/// in the answers, or named as the search still to run.
fn finish_search_exec(vals: &Vec<Val>, cache: &Vec<(String, Vec<Record>)>) -> (out: Outcome)
    ensures
        out@ == finish_search(values_view(vals@), answers_of(cache@)),
{
    let ghost vv = values_view(vals@);
    let mut q = String::new();
    let n = vals.len();
    for i in 0..n
        invariant
            n == vals@.len(),
            vv == values_view(vals@),
            all_queries(vv.take(i as int)),
            q@ == join(query_texts(vv).take(i as int), " AND "@),
    {
        match &vals[i] {
            Val::LuceneQuery(e) => {
                proof {
                    lemma_join_take(query_texts(vv), " AND "@, i as int);
                }
                if i > 0 {
                    q.append(" AND ");
                }
                q.append(e.as_str());
                assert(all_queries(vv.take(i + 1))) by {
                    assert forall|j: int| 0 <= j < i + 1 implies (#[trigger] vv.take(
                        i + 1,
                    )[j]) is LuceneQuery by {
                        if j < i {
                            assert(vv.take(i + 1)[j] == vv.take(i as int)[j]);
                        }
                    }
                }
            },
            _ => {
                assert(vv[i as int] == vals@[i as int]@);
                assert(!all_queries(vv));
                return Outcome::Done(Val::Nil);
            },
        }
    }
    assert(vv.take(n as int) == vv);
    assert(query_texts(vv).take(n as int) == query_texts(vv));
    match cached(cache, &q) {
        Some(rs) => Outcome::Done(Val::SearchResults(rs)),
        None => Outcome::Pending(q),
    }
}

/// Prepends names to an optional list of names.
pub open spec fn prepend(p: Seq<Seq<char>>, o: Option<Seq<Seq<char>>>) -> Option<Seq<Seq<char>>> {
    match o {
        Some(ts) => Some(p + ts),
        None => None,
    }
}

/// Keeps the named fields of every hit.
fn keep_in_all_exec(rs: &Vec<Record>, names: &Vec<String>) -> (out: Vec<Record>)
    ensures
        records_view(out@) == keep_in_all(records_view(rs@), views(names@)),
{
    let mut out: Vec<Record> = Vec::new();
    let n = rs.len();
    for i in 0..n
        invariant
            n == rs@.len(),
            out@.len() == i,
            forall|j: int|
                0 <= j < i ==> (#[trigger] out@[j])@ == keep_names(rs@[j]@, views(names@)),
    {
        let ghost prev = out@;
        out.push(rs[i].keep_names(names));
        assert forall|j: int| 0 <= j < i + 1 implies (#[trigger] out@[j])@ == keep_names(
            rs@[j]@,
            views(names@),
        ) by {
            if j < i {
                assert(out@[j] == prev[j]);
            }
        }
    }
    assert(records_view(out@) =~= keep_in_all(records_view(rs@), views(names@)));
    out
}

/// Evaluates a node, given the output of the previous operation and the
/// answers of the searches run so far.
pub fn eval(n: &SyntaxNode, last: Option<Val>, cache: &Vec<(String, Vec<Record>)>) -> (out:
    Outcome)
    requires
        well_formed(*n),
    ensures
        out@ == eval_node(*n, opt_view(last), answers_of(cache@)),
    decreases *n, 1int,
{
    let ghost ans = answers_of(cache@);
    if is_kind(n, "query") {
        let mut cur: Option<Val> = None;
        let len = n.children.len();
        let mut i: usize = 0;
        while i < len
            invariant
                i <= len,
                len == arity(*n),
                n.kind@ == "query"@,
                query_well_formed(*n, i as int),
                ans == answers_of(cache@),
                run_query(*n, 0, None, ans) == run_query(*n, i as int, opt_view(cur), ans),
            decreases len - i,
        {
            let c = &n.children[i];
            if c.named {
                proof {
                    lemma_child_smaller(*n, i as int);
                }
                let ghost before = opt_view(cur);
                match eval(c, cur, cache) {
                    Outcome::Done(v) => {
                        cur = Some(v);
                    },
                    Outcome::Pending(q) => {
                        assert(run_query(*n, i as int, before, ans) == Step::Pending(q@));
                        return Outcome::Pending(q);
                    },
                }
            }
            i = i + 1;
        }
        match cur {
            Some(v) => Outcome::Done(v),
            None => Outcome::Done(Val::Nil),
        }
    } else if is_kind(n, "operation") {
        eval_op(n, last, cache)
    } else {
        Outcome::Done(Val::Nil)
    }
}

/// Evaluates an operation node.
fn eval_op(n: &SyntaxNode, last: Option<Val>, cache: &Vec<(String, Vec<Record>)>) -> (out:
    Outcome)
    requires
        operation_well_formed(*n),
    ensures
        out@ == eval_operation(*n, opt_view(last), answers_of(cache@)),
    decreases *n, 0int,
{
    let ghost ans = answers_of(cache@);
    let name = &n.children[0].text;
    let len = n.children.len();
    if crate::record::same_text(name.as_str(), "search") {
        let mut vals: Vec<Val> = Vec::new();
        let mut i: usize = 1;
        assert(values_view(vals@) =~= Seq::<Value>::empty());
        while i < len
            invariant
                1 <= i <= len,
                len == arity(*n),
                child(*n, 0).text@ == "search"@,
                search_well_formed(*n, i as int),
                ans == answers_of(cache@),
                search_args(*n, 1, Seq::empty(), ans) == search_args(
                    *n,
                    i as int,
                    values_view(vals@),
                    ans,
                ),
            decreases len - i,
        {
            let arg = &n.children[i];
            let a = &arg.children[0];
            assert(values_view(vals@).push(Value::Nil) == values_view(vals@.push(Val::Nil)));
            if is_kind(a, "lucene_query") {
                let t = literal_text(&a.text);
                let v = Val::LuceneQuery(t);
                assert(values_view(vals@).push(v@) == values_view(vals@.push(v)));
                vals.push(v);
            } else if is_kind(a, "query") {
                proof {
                    lemma_grandchild_smaller(*n, i as int);
                }
                match eval(a, None, cache) {
                    Outcome::Done(v) => {
                        assert(values_view(vals@).push(v@) == values_view(vals@.push(v)));
                        vals.push(v);
                    },
                    Outcome::Pending(q) => {
                        assert(search_args(*n, i as int, values_view(vals@), ans) == Step::Pending(
                            q@,
                        ));
                        return Outcome::Pending(q);
                    },
                }
            } else {
                vals.push(Val::Nil);
            }
            i = i + 1;
        }
        finish_search_exec(&vals, cache)
    } else if crate::record::same_text(name.as_str(), "fields") {
        let mut names: Vec<String> = Vec::new();
        let mut i: usize = 1;
        while i < len
            invariant
                1 <= i <= len,
                len == arity(*n),
                child(*n, 0).text@ == "fields"@,
                child(*n, 0).text@ != "search"@,
                fields_well_formed(*n, i as int),
                field_names(*n, 1) == prepend(views(names@), field_names(*n, i as int)),
            decreases len - i,
        {
            let e = &n.children[i].children[0];
            if !is_kind(e, "expression") {
                assert(field_names(*n, i as int) is None);
                return Outcome::Done(Val::Nil);
            }
            let t = e.children[0].text.clone();
            let ghost before = views(names@);
            names.push(t);
            assert(views(names@) == before.push(t@));
            assert(forall|ts: Seq<Seq<char>>| before + (seq![t@] + ts) == #[trigger] (before.push(t@) + ts));
            i = i + 1;
        }
        assert(views(names@) + Seq::<Seq<char>>::empty() == views(names@));
        match last {
            Some(Val::SearchResults(rs)) => Outcome::Done(
                Val::SearchResults(keep_in_all_exec(&rs, &names)),
            ),
            _ => Outcome::Done(Val::Nil),
        }
    } else if crate::record::same_text(name.as_str(), "lucene") {
        match last {
            Some(Val::SearchResults(rs)) => Outcome::Done(Val::LuceneQuery(lucene_text(&rs))),
            _ => Outcome::Done(Val::Nil),
        }
    } else {
        Outcome::Done(Val::Nil)
    }
}


/// Whether the first and last characters of `t` are ASCII and it has at
/// least two.
fn is_delimited(t: &String) -> (r: bool)
    ensures
        r == delimited(t@),
{
    let cs = chars_of(t.as_str());
    let n = cs.len();
    n >= 2 && (cs[0] as u32) < 128 && (cs[n - 1] as u32) < 128
}

/// Decides whether a tree can be evaluated (see `well_formed`).
pub fn check_well_formed(n: &SyntaxNode) -> (r: bool)
    ensures
        r == well_formed(*n),
    decreases *n, 1int,
{
    if is_kind(n, "query") {
        let len = n.children.len();
        let mut i: usize = 0;
        while i < len
            invariant
                i <= len,
                len == arity(*n),
                n.kind@ == "query"@,
                well_formed(*n) == query_well_formed(*n, i as int),
            decreases len - i,
        {
            let c = &n.children[i];
            if c.named {
                proof {
                    lemma_child_smaller(*n, i as int);
                }
                if !check_well_formed(c) {
                    return false;
                }
            }
            i = i + 1;
        }
        true
    } else if is_kind(n, "operation") {
        check_operation(n)
    } else {
        true
    }
}

/// Decides `operation_well_formed`.
fn check_operation(n: &SyntaxNode) -> (r: bool)
    ensures
        r == operation_well_formed(*n),
    decreases *n, 0int,
{
    let len = n.children.len();
    if len == 0 {
        return false;
    }
    let name = &n.children[0].text;
    if crate::record::same_text(name.as_str(), "search") {
        proof {
            reveal_strlit("search");
            reveal_strlit("fields");
            assert("search"@[0] != "fields"@[0]);
        }
        let mut i: usize = 1;
        while i < len
            invariant
                1 <= i <= len,
                len == arity(*n),
                child(*n, 0).text@ == "search"@,
                operation_well_formed(*n) == search_well_formed(*n, i as int),
            decreases len - i,
        {
            let arg = &n.children[i];
            if arg.children.len() == 0 {
                return false;
            }
            let a = &arg.children[0];
            if is_kind(a, "lucene_query") && !is_delimited(&a.text) {
                return false;
            }
            if is_kind(a, "query") {
                proof {
                    lemma_grandchild_smaller(*n, i as int);
                }
                if !check_well_formed(a) {
                    return false;
                }
            }
            i = i + 1;
        }
        true
    } else if crate::record::same_text(name.as_str(), "fields") {
        let mut i: usize = 1;
        while i < len
            invariant
                1 <= i <= len,
                len == arity(*n),
                child(*n, 0).text@ == "fields"@,
                child(*n, 0).text@ != "search"@,
                operation_well_formed(*n) == fields_well_formed(*n, i as int),
            decreases len - i,
        {
            let arg = &n.children[i];
            if arg.children.len() == 0 {
                return false;
            }
            let e = &arg.children[0];
            if !is_kind(e, "expression") {
                return true;
            }
            if e.children.len() == 0 {
                return false;
            }
            i = i + 1;
        }
        true
    } else {
        true
    }
}


/// A step that waits for a search waits for one the answers lack.
pub open spec fn waits_for_unknown(s: Step, a: Answers) -> bool {
    s matches Step::Pending(q) ==> a(q) is None
}

/// `b` answers every query that `a` answers, the same way.
pub open spec fn refines(a: Answers, b: Answers) -> bool {
    forall|q: Seq<char>| #[trigger] a(q) is Some ==> b(q) == a(q)
}

/// A finished step stays finished, with the same value, under `b`.
pub open spec fn kept(s: Step, t: Step) -> bool {
    s is Done ==> t == s
}

proof fn lemma_pending_node(n: SyntaxNode, last: Option<Value>, a: Answers)
    ensures
        waits_for_unknown(eval_node(n, last, a), a),
    decreases n, arity(n) + 3,
{
    if n.kind@ == "query"@ {
        lemma_pending_query(n, 0, None, a);
    } else if n.kind@ == "operation"@ {
        lemma_pending_op(n, last, a);
    }
}

proof fn lemma_pending_query(n: SyntaxNode, i: int, last: Option<Value>, a: Answers)
    ensures
        waits_for_unknown(run_query(n, i, last, a), a),
    decreases n, rest(n, i),
{
    if 0 <= i < arity(n) {
        if !child(n, i).named {
            lemma_pending_query(n, i + 1, last, a);
        } else {
            lemma_child_smaller(n, i);
            lemma_pending_node(child(n, i), last, a);
            match eval_node(child(n, i), last, a) {
                Step::Done(v) => lemma_pending_query(n, i + 1, Some(v), a),
                Step::Pending(_) => {},
            }
        }
    }
}

proof fn lemma_pending_op(n: SyntaxNode, last: Option<Value>, a: Answers)
    ensures
        waits_for_unknown(eval_operation(n, last, a), a),
    decreases n, arity(n) + 2,
{
    if child(n, 0).text@ == "search"@ {
        lemma_pending_search(n, 1, Seq::empty(), a);
    }
}

proof fn lemma_pending_search(n: SyntaxNode, i: int, vs: Seq<Value>, a: Answers)
    ensures
        waits_for_unknown(search_args(n, i, vs, a), a),
    decreases n, rest(n, i),
{
    if 1 <= i < arity(n) {
        let g = child(child(n, i), 0);
        if g.kind@ == "lucene_query"@ {
            lemma_pending_search(n, i + 1, vs.push(Value::LuceneQuery(literal_query(g.text@))), a);
        } else if g.kind@ == "query"@ {
            if arity(child(n, i)) > 0 {
                lemma_grandchild_smaller(n, i);
                lemma_pending_node(g, None, a);
                match eval_node(g, None, a) {
                    Step::Done(v) => lemma_pending_search(n, i + 1, vs.push(v), a),
                    Step::Pending(_) => {},
                }
            }
        } else {
            lemma_pending_search(n, i + 1, vs.push(Value::Nil), a);
        }
    }
}

proof fn lemma_kept_node(n: SyntaxNode, last: Option<Value>, a: Answers, b: Answers)
    requires
        refines(a, b),
    ensures
        kept(eval_node(n, last, a), eval_node(n, last, b)),
    decreases n, arity(n) + 3,
{
    if n.kind@ == "query"@ {
        lemma_kept_query(n, 0, None, a, b);
    } else if n.kind@ == "operation"@ {
        lemma_kept_op(n, last, a, b);
    }
}

proof fn lemma_kept_query(n: SyntaxNode, i: int, last: Option<Value>, a: Answers, b: Answers)
    requires
        refines(a, b),
    ensures
        kept(run_query(n, i, last, a), run_query(n, i, last, b)),
    decreases n, rest(n, i),
{
    if 0 <= i < arity(n) {
        if !child(n, i).named {
            lemma_kept_query(n, i + 1, last, a, b);
        } else {
            lemma_child_smaller(n, i);
            lemma_kept_node(child(n, i), last, a, b);
            match eval_node(child(n, i), last, a) {
                Step::Done(v) => lemma_kept_query(n, i + 1, Some(v), a, b),
                Step::Pending(_) => {},
            }
        }
    }
}

proof fn lemma_kept_op(n: SyntaxNode, last: Option<Value>, a: Answers, b: Answers)
    requires
        refines(a, b),
    ensures
        kept(eval_operation(n, last, a), eval_operation(n, last, b)),
    decreases n, arity(n) + 2,
{
    if child(n, 0).text@ == "search"@ {
        lemma_kept_search(n, 1, Seq::empty(), a, b);
    }
}

proof fn lemma_kept_search(n: SyntaxNode, i: int, vs: Seq<Value>, a: Answers, b: Answers)
    requires
        refines(a, b),
    ensures
        kept(search_args(n, i, vs, a), search_args(n, i, vs, b)),
    decreases n, rest(n, i),
{
    if 1 <= i < arity(n) {
        let g = child(child(n, i), 0);
        if g.kind@ == "lucene_query"@ {
            lemma_kept_search(n, i + 1, vs.push(Value::LuceneQuery(literal_query(g.text@))), a, b);
        } else if g.kind@ == "query"@ {
            if arity(child(n, i)) > 0 {
                lemma_grandchild_smaller(n, i);
                lemma_kept_node(g, None, a, b);
                match eval_node(g, None, a) {
                    Step::Done(v) => lemma_kept_search(n, i + 1, vs.push(v), a, b),
                    Step::Pending(_) => {},
                }
            }
        } else {
            lemma_kept_search(n, i + 1, vs.push(Value::Nil), a, b);
        }
    } else {
        if all_queries(vs) {
            let q = compound_query(vs);
            if a(q) is Some {
                assert(b(q) == a(q));
            }
        }
    }
}

/// When evaluation waits for a search, that search is one whose hits are not
/// known yet: the evaluator never asks twice for the same query.
pub proof fn law_waits_only_for_unknown(n: SyntaxNode, last: Option<Value>, a: Answers)
    ensures
        waits_for_unknown(eval_node(n, last, a), a),
{
    lemma_pending_node(n, last, a);
}

/// Knowing more search results never changes a finished evaluation: if it
/// finishes with the answers `a`, it finishes with the same value under any
/// answers that agree with `a` wherever `a` has one.
pub proof fn law_more_answers_keep_result(n: SyntaxNode, last: Option<Value>, a: Answers, b: Answers)
    requires
        refines(a, b),
    ensures
        kept(eval_node(n, last, a), eval_node(n, last, b)),
{
    lemma_kept_node(n, last, a, b);
}

/// A search engine, as a function from Lucene query to hits.
pub type Engine = spec_fn(Seq<char>) -> Seq<Seq<Field>>;

/// The answers of an engine that answers every query.
pub open spec fn engine_answers(e: Engine) -> Answers {
    |q: Seq<char>| Some(e(q))
}

/// What a query tree evaluates to when every search is run on `e`.
pub open spec fn interpret(n: SyntaxNode, e: Engine) -> Value {
    match eval_node(n, None, engine_answers(e)) {
        Step::Done(v) => v,
        Step::Pending(_) => Value::Nil,
    }
}

/// With an engine at hand, evaluation always finishes.
pub proof fn law_engine_never_waits(n: SyntaxNode, e: Engine)
    ensures
        eval_node(n, None, engine_answers(e)) is Done,
{
    lemma_pending_node(n, None, engine_answers(e));
}

/// Recorded results agree with an engine: each query's first recorded
/// hits are the engine's hits for it.
pub open spec fn agrees_with(c: Seq<(String, Vec<Record>)>, e: Engine) -> bool {
    forall|q: Seq<char>| #[trigger] first_answer(cache_view(c), q) is Some ==> first_answer(
        cache_view(c),
        q,
    ) == Some(e(q))
}

/// Evaluating with recorded search results gives what the interpreter gives
/// with the engine that produced them.
pub proof fn law_recorded_results_match_engine(
    n: SyntaxNode,
    c: Seq<(String, Vec<Record>)>,
    e: Engine,
)
    requires
        agrees_with(c, e),
        eval_node(n, None, answers_of(c)) is Done,
    ensures
        eval_node(n, None, answers_of(c)) == Step::Done(interpret(n, e)),
{
    let a = answers_of(c);
    let b = engine_answers(e);
    assert(refines(a, b)) by {
        assert forall|q: Seq<char>| #[trigger] a(q) is Some implies b(q) == a(q) by {
            assert(first_answer(cache_view(c), q) is Some);
        }
    }
    lemma_kept_node(n, None, a, b);
}


/// The number of `search` operations in `n` that evaluation can reach: an
/// upper bound on the searches one evaluation of `n` can run.
pub open spec fn searches_in(n: SyntaxNode) -> nat
    decreases n, arity(n) + 3,
{
    if n.kind@ == "query"@ {
        query_searches(n, 0)
    } else if n.kind@ == "operation"@ {
        operation_searches(n)
    } else {
        0
    }
}

/// The `search` operations in the named children of a query from `i` on.
pub open spec fn query_searches(n: SyntaxNode, i: int) -> nat
    decreases n, rest(n, i),
{
    if 0 <= i < arity(n) {
        let here = if child(n, i).named {
            proof {
                lemma_child_smaller(n, i);
            }
            searches_in(child(n, i))
        } else {
            0
        };
        here + query_searches(n, i + 1)
    } else {
        0
    }
}

/// The `search` operations of an operation: itself, when it is one, and
/// those in the queries among its arguments.
pub open spec fn operation_searches(n: SyntaxNode) -> nat
    decreases n, arity(n) + 2,
{
    if child(n, 0).text@ == "search"@ {
        1 + arg_searches(n, 1)
    } else {
        0
    }
}

/// The `search` operations in the query arguments of `n` from child `i` on.
pub open spec fn arg_searches(n: SyntaxNode, i: int) -> nat
    decreases n, rest(n, i),
{
    if 1 <= i < arity(n) {
        let a = child(child(n, i), 0);
        let here = if a.kind@ == "query"@ && arity(child(n, i)) > 0 {
            proof {
                lemma_grandchild_smaller(n, i);
            }
            searches_in(a)
        } else {
            0
        };
        here + arg_searches(n, i + 1)
    } else {
        0
    }
}

/// The number of searches whose hits evaluation of `n` used with answers `ans`.
pub open spec fn node_answered(n: SyntaxNode, last: Option<Value>, ans: Answers) -> nat
    decreases n, arity(n) + 3,
{
    if n.kind@ == "query"@ {
        query_answered(n, 0, None, ans)
    } else if n.kind@ == "operation"@ {
        operation_answered(n, ans)
    } else {
        0
    }
}

/// The searches answered while running the operations of a query from `i` on.
pub open spec fn query_answered(n: SyntaxNode, i: int, last: Option<Value>, ans: Answers) -> nat
    decreases n, rest(n, i),
{
    if 0 <= i < arity(n) {
        if !child(n, i).named {
            query_answered(n, i + 1, last, ans)
        } else {
            proof {
                lemma_child_smaller(n, i);
            }
            let here = node_answered(child(n, i), last, ans);
            match eval_node(child(n, i), last, ans) {
                Step::Done(v) => here + query_answered(n, i + 1, Some(v), ans),
                Step::Pending(_) => here,
            }
        }
    } else {
        0
    }
}

/// The searches answered while evaluating an operation.
pub open spec fn operation_answered(n: SyntaxNode, ans: Answers) -> nat
    decreases n, arity(n) + 2,
{
    if child(n, 0).text@ == "search"@ {
        args_answered(n, 1, Seq::empty(), ans)
    } else {
        0
    }
}

/// The searches answered while evaluating the arguments of `search` from
/// child `i` on and then the search itself.
pub open spec fn args_answered(n: SyntaxNode, i: int, vs: Seq<Value>, ans: Answers) -> nat
    decreases n, rest(n, i),
{
    if 1 <= i < arity(n) {
        let a = child(child(n, i), 0);
        if a.kind@ == "lucene_query"@ {
            args_answered(n, i + 1, vs.push(Value::LuceneQuery(literal_query(a.text@))), ans)
        } else if a.kind@ == "query"@ {
            if arity(child(n, i)) > 0 {
                proof {
                    lemma_grandchild_smaller(n, i);
                }
                let here = node_answered(a, None, ans);
                match eval_node(a, None, ans) {
                    Step::Done(v) => here + args_answered(n, i + 1, vs.push(v), ans),
                    Step::Pending(_) => here,
                }
            } else {
                0
            }
        } else {
            args_answered(n, i + 1, vs.push(Value::Nil), ans)
        }
    } else if all_queries(vs) && ans(compound_query(vs)) is Some {
        1
    } else {
        0
    }
}

proof fn lemma_answered_node_bound(n: SyntaxNode, last: Option<Value>, a: Answers)
    ensures
        node_answered(n, last, a) <= searches_in(n),
    decreases n, arity(n) + 3,
{
    if n.kind@ == "query"@ {
        lemma_answered_query_bound(n, 0, None, a);
    } else if n.kind@ == "operation"@ {
        if child(n, 0).text@ == "search"@ {
            lemma_answered_args_bound(n, 1, Seq::empty(), a);
        }
    }
}

proof fn lemma_answered_query_bound(n: SyntaxNode, i: int, last: Option<Value>, a: Answers)
    ensures
        query_answered(n, i, last, a) <= query_searches(n, i),
    decreases n, rest(n, i),
{
    if 0 <= i < arity(n) {
        if !child(n, i).named {
            lemma_answered_query_bound(n, i + 1, last, a);
        } else {
            lemma_child_smaller(n, i);
            lemma_answered_node_bound(child(n, i), last, a);
            match eval_node(child(n, i), last, a) {
                Step::Done(v) => lemma_answered_query_bound(n, i + 1, Some(v), a),
                Step::Pending(_) => {},
            }
        }
    }
}

proof fn lemma_answered_args_bound(n: SyntaxNode, i: int, vs: Seq<Value>, a: Answers)
    ensures
        args_answered(n, i, vs, a) <= 1 + arg_searches(n, i),
    decreases n, rest(n, i),
{
    if 1 <= i < arity(n) {
        let g = child(child(n, i), 0);
        if g.kind@ == "lucene_query"@ {
            lemma_answered_args_bound(n, i + 1, vs.push(Value::LuceneQuery(literal_query(g.text@))), a);
        } else if g.kind@ == "query"@ {
            if arity(child(n, i)) > 0 {
                lemma_grandchild_smaller(n, i);
                lemma_answered_node_bound(g, None, a);
                match eval_node(g, None, a) {
                    Step::Done(v) => lemma_answered_args_bound(n, i + 1, vs.push(v), a),
                    Step::Pending(_) => {},
                }
            }
        } else {
            lemma_answered_args_bound(n, i + 1, vs.push(Value::Nil), a);
        }
    }
}

/// `s` waits for a search that `b` answers.
pub open spec fn unblocked(s: Step, b: Answers) -> bool {
    s matches Step::Pending(q) && b(q) is Some
}

proof fn lemma_answered_node_grows(n: SyntaxNode, last: Option<Value>, a: Answers, b: Answers)
    requires
        refines(a, b),
    ensures
        node_answered(n, last, a) <= node_answered(n, last, b),
        unblocked(eval_node(n, last, a), b) ==> node_answered(n, last, a) < node_answered(
            n,
            last,
            b,
        ),
    decreases n, arity(n) + 3,
{
    if n.kind@ == "query"@ {
        lemma_answered_query_grows(n, 0, None, a, b);
    } else if n.kind@ == "operation"@ {
        if child(n, 0).text@ == "search"@ {
            lemma_answered_args_grows(n, 1, Seq::empty(), a, b);
        }
    }
}

proof fn lemma_answered_query_grows(
    n: SyntaxNode,
    i: int,
    last: Option<Value>,
    a: Answers,
    b: Answers,
)
    requires
        refines(a, b),
    ensures
        query_answered(n, i, last, a) <= query_answered(n, i, last, b),
        unblocked(run_query(n, i, last, a), b) ==> query_answered(n, i, last, a)
            < query_answered(n, i, last, b),
    decreases n, rest(n, i),
{
    if 0 <= i < arity(n) {
        if !child(n, i).named {
            lemma_answered_query_grows(n, i + 1, last, a, b);
        } else {
            lemma_child_smaller(n, i);
            lemma_answered_node_grows(child(n, i), last, a, b);
            lemma_kept_node(child(n, i), last, a, b);
            match eval_node(child(n, i), last, a) {
                Step::Done(v) => lemma_answered_query_grows(n, i + 1, Some(v), a, b),
                Step::Pending(_) => {},
            }
        }
    }
}

proof fn lemma_answered_args_grows(n: SyntaxNode, i: int, vs: Seq<Value>, a: Answers, b: Answers)
    requires
        refines(a, b),
    ensures
        args_answered(n, i, vs, a) <= args_answered(n, i, vs, b),
        unblocked(search_args(n, i, vs, a), b) ==> args_answered(n, i, vs, a) < args_answered(
            n,
            i,
            vs,
            b,
        ),
    decreases n, rest(n, i),
{
    if 1 <= i < arity(n) {
        let g = child(child(n, i), 0);
        if g.kind@ == "lucene_query"@ {
            lemma_answered_args_grows(
                n,
                i + 1,
                vs.push(Value::LuceneQuery(literal_query(g.text@))),
                a,
                b,
            );
        } else if g.kind@ == "query"@ {
            if arity(child(n, i)) > 0 {
                lemma_grandchild_smaller(n, i);
                lemma_answered_node_grows(g, None, a, b);
                lemma_kept_node(g, None, a, b);
                match eval_node(g, None, a) {
                    Step::Done(v) => lemma_answered_args_grows(n, i + 1, vs.push(v), a, b),
                    Step::Pending(_) => {},
                }
            }
        } else {
            lemma_answered_args_grows(n, i + 1, vs.push(Value::Nil), a, b);
        }
    } else {
        if all_queries(vs) {
            let q = compound_query(vs);
            if a(q) is Some {
                assert(b(q) == a(q));
            }
        }
    }
}

/// Evaluation never uses more searches than the tree has: however many
/// answers are known, at most `searches_in(n)` of them are used.
pub proof fn law_answered_within_searches(n: SyntaxNode, a: Answers)
    ensures
        node_answered(n, None, a) <= searches_in(n),
{
    lemma_answered_node_bound(n, None, a);
}

/// Answering the search that evaluation waits for lets it use one more
/// search result, and knowing more answers never lets it use fewer.
pub proof fn law_answer_moves_evaluation_on(n: SyntaxNode, a: Answers, b: Answers)
    requires
        refines(a, b),
    ensures
        node_answered(n, None, a) <= node_answered(n, None, b),
        unblocked(eval_node(n, None, a), b) ==> node_answered(n, None, a) + 1 <= node_answered(
            n,
            None,
            b,
        ),
{
    lemma_answered_node_grows(n, None, a, b);
}


/// The named children of `n` from child `i` on, in order: the operations of
/// a query.
pub open spec fn named_from(n: SyntaxNode, i: int) -> Seq<SyntaxNode>
    decreases rest(n, i),
{
    if 0 <= i < arity(n) {
        if child(n, i).named {
            seq![child(n, i)] + named_from(n, i + 1)
        } else {
            named_from(n, i + 1)
        }
    } else {
        Seq::empty()
    }
}

/// Runs operations in turn, each given the previous one's output (`last`
/// for the first): the last output, `Nil` when there is none, or the first
/// search still waiting for its hits.
pub open spec fn run_ops(ops: Seq<SyntaxNode>, last: Option<Value>, ans: Answers) -> Step
    decreases ops.len(),
{
    if ops.len() == 0 {
        match last {
            Some(v) => Step::Done(v),
            None => Step::Done(Value::Nil),
        }
    } else {
        match eval_node(ops[0], last, ans) {
            Step::Done(v) => run_ops(ops.drop_first(), Some(v), ans),
            Step::Pending(q) => Step::Pending(q),
        }
    }
}

proof fn lemma_run_query_folds(n: SyntaxNode, i: int, last: Option<Value>, ans: Answers)
    ensures
        run_query(n, i, last, ans) == run_ops(named_from(n, i), last, ans),
    decreases rest(n, i),
{
    if 0 <= i < arity(n) {
        if child(n, i).named {
            let tail = named_from(n, i + 1);
            let ops = seq![child(n, i)] + tail;
            assert(ops[0] == child(n, i));
            assert(ops.drop_first() == tail);
            match eval_node(child(n, i), last, ans) {
                Step::Done(v) => lemma_run_query_folds(n, i + 1, Some(v), ans),
                Step::Pending(_) => {},
            }
        } else {
            lemma_run_query_folds(n, i + 1, last, ans);
        }
    }
}

/// A query runs its operations in turn: the first gets no previous output,
/// each later one gets the output of the one before, and the query's value
/// is the last output (`Nil` for a query without operations).
pub proof fn law_query_runs_operations_in_turn(n: SyntaxNode, ans: Answers)
    requires
        n.kind@ == "query"@,
    ensures
        eval_node(n, None, ans) == run_ops(named_from(n, 0), None, ans),
{
    lemma_run_query_folds(n, 0, None, ans);
}


/// `fields` reads every one of its arguments: it names the term of each
/// argument in order, and it names nothing (`None`) exactly when one of
/// them is not an expression.
pub proof fn law_field_names_are_all_arguments(n: SyntaxNode, i: int)
    requires
        1 <= i <= arity(n),
    ensures
        field_names(n, i) is Some <==> forall|k: int|
            i <= k < arity(n) ==> (#[trigger] child(child(n, k), 0)).kind@ == "expression"@,
        field_names(n, i) matches Some(ts) ==> ts.len() == arity(n) - i && forall|k: int|
            0 <= k < ts.len() ==> ts[k] == child(child(child(n, i + k), 0), 0).text@,
    decreases arity(n) - i,
{
    if i < arity(n) {
        law_field_names_are_all_arguments(n, i + 1);
        let e = child(child(n, i), 0);
        if e.kind@ == "expression"@ {
            if let Some(ts) = field_names(n, i + 1) {
                let all = seq![child(e, 0).text@] + ts;
                assert forall|k: int| 0 <= k < all.len() implies all[k] == child(
                    child(child(n, i + k), 0),
                    0,
                ).text@ by {
                    if k > 0 {
                        assert(all[k] == ts[k - 1]);
                        assert(i + 1 + (k - 1) == i + k);
                    }
                }
            }
        }
    }
}

/// Keeping named fields keeps, in every hit, exactly the fields whose
/// names are among `names`, and keeps every hit.
pub proof fn law_keep_in_all_keeps_named_fields(rs: Seq<Seq<Field>>, names: Seq<Seq<char>>)
    ensures
        keep_in_all(rs, names).len() == rs.len(),
        forall|j: int, f: Field|
            0 <= j < rs.len() ==> (#[trigger] keep_in_all(rs, names)[j].contains(f) <==> (
            rs[j].contains(f) && names.contains(f.0))),
{
    assert forall|j: int, f: Field| 0 <= j < rs.len() implies (#[trigger] keep_in_all(
        rs,
        names,
    )[j].contains(f) <==> (rs[j].contains(f) && names.contains(f.0))) by {
        crate::record::law_keep_names(rs[j], names);
    }
}

/// `fields a1 ... an` applied to hits keeps every hit, and in each hit
/// exactly the fields whose names are among all of `a1` to `an`.
pub proof fn law_fields_keeps_fields_named_by_its_arguments(
    n: SyntaxNode,
    rs: Seq<Seq<Field>>,
    ans: Answers,
)
    requires
        arity(n) >= 1,
        child(n, 0).text@ == "fields"@,
        forall|k: int|
            1 <= k < arity(n) ==> (#[trigger] child(child(n, k), 0)).kind@ == "expression"@,
    ensures
        eval_operation(n, Some(Value::SearchResults(rs)), ans) matches Step::Done(
            Value::SearchResults(out),
        ) && out.len() == rs.len() && forall|j: int, f: Field|
            0 <= j < rs.len() ==> (#[trigger] out[j].contains(f) <==> (rs[j].contains(f)
                && exists|k: int|
                1 <= k < arity(n) && f.0 == child(child(child(n, k), 0), 0).text@)),
{
    reveal_strlit("fields");
    reveal_strlit("search");
    assert("fields"@[0] != "search"@[0]);
    law_field_names_are_all_arguments(n, 1);
    let names = field_names(n, 1)->Some_0;
    law_keep_in_all_keeps_named_fields(rs, names);
    let out = keep_in_all(rs, names);
    assert forall|f: Field|
        names.contains(f.0) <==> exists|k: int|
            1 <= k < arity(n) && f.0 == child(child(child(n, k), 0), 0).text@ by {
        if names.contains(f.0) {
            let m = choose|m: int| 0 <= m < names.len() && names[m] == f.0;
            assert(f.0 == child(child(child(n, 1 + m), 0), 0).text@);
        }
        if exists|k: int| 1 <= k < arity(n) && f.0 == child(child(child(n, k), 0), 0).text@ {
            let k = choose|k: int|
                1 <= k < arity(n) && f.0 == child(child(child(n, k), 0), 0).text@;
            assert(names[k - 1] == f.0);
        }
    }
    assert forall|j: int, f: Field| 0 <= j < rs.len() implies (#[trigger] out[j].contains(f) <==> (
    rs[j].contains(f) && exists|k: int|
        1 <= k < arity(n) && f.0 == child(child(child(n, k), 0), 0).text@)) by {
        assert(out[j].contains(f) <==> (rs[j].contains(f) && names.contains(f.0)));
    }
}

} // verus!
