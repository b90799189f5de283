use logviewer::interpreter::{check_well_formed, eval, literal_text, lucene_text, Outcome, Val};
use logviewer::record::Record;
use logviewer::session::{Action, Session};
use logviewer::syntax::SyntaxNode;

fn leaf(kind: &str, text: &str) -> SyntaxNode {
    SyntaxNode::leaf(kind.to_string(), true, text.to_string())
}

fn node(kind: &str, text: &str, children: Vec<SyntaxNode>) -> SyntaxNode {
    SyntaxNode::branch(kind.to_string(), true, text.to_string(), children)
}

fn punct(text: &str) -> SyntaxNode {
    SyntaxNode::leaf(text.to_string(), false, text.to_string())
}

fn lucene_arg(text: &str) -> SyntaxNode {
    node("operation_argument", text, vec![leaf("lucene_query", text)])
}

fn query_arg(q: SyntaxNode) -> SyntaxNode {
    node("operation_argument", "", vec![q])
}

fn field_arg(name: &str) -> SyntaxNode {
    node("operation_argument", name, vec![node("expression", name, vec![leaf("term", name)])])
}

fn op(name: &str, args: Vec<SyntaxNode>) -> SyntaxNode {
    let mut children = vec![leaf("operation_name", name)];
    children.extend(args);
    node("operation", name, children)
}

fn query(ops: Vec<SyntaxNode>) -> SyntaxNode {
    let mut children = vec![punct("[")];
    let n = ops.len();
    for (i, o) in ops.into_iter().enumerate() {
        children.push(o);
        if i + 1 < n {
            children.push(punct("|"));
        }
    }
    children.push(punct("]"));
    node("query", "", children)
}

fn record(pairs: &[(&str, &str)]) -> Record {
    let mut r = Record::new();
    for (k, v) in pairs {
        r.insert(k.to_string(), v.to_string());
    }
    r
}

fn pairs(r: &Record) -> Vec<(String, String)> {
    (0..r.len()).map(|i| r.field_at(i)).collect()
}

fn hits() -> Vec<Record> {
    vec![
        record(&[("_raw", "line one"), ("requestId", "r1"), ("_time", "1000")]),
        record(&[("_raw", "line two"), ("requestId", "r2"), ("_time", "2500")]),
    ]
}

#[test]
fn search_asks_for_its_query() {
    let tree = query(vec![op("search", vec![lucene_arg("`hi`")])]);
    assert!(check_well_formed(&tree));
    match eval(&tree, None, &vec![]) {
        Outcome::Pending(q) => assert_eq!(q, "hi"),
        _ => panic!("expected a pending search"),
    }
}

#[test]
fn search_returns_supplied_hits() {
    let tree = query(vec![op("search", vec![lucene_arg("` level:error `")])]);
    let cache = vec![("level:error".to_string(), hits())];
    match eval(&tree, None, &cache) {
        Outcome::Done(Val::SearchResults(rs)) => {
            assert_eq!(rs.len(), 2);
            assert_eq!(rs[1].get("requestId"), Some("r2".to_string()));
        },
        _ => panic!("expected results"),
    }
}

#[test]
fn search_joins_arguments_with_and() {
    let tree = query(vec![op("search", vec![lucene_arg("`a`"), lucene_arg("`b c`")])]);
    match eval(&tree, None, &vec![]) {
        Outcome::Pending(q) => assert_eq!(q, "a AND b c"),
        _ => panic!("expected a pending search"),
    }
}

#[test]
fn fields_keeps_named_fields() {
    let tree = query(vec![
        op("search", vec![lucene_arg("`x`")]),
        op("fields", vec![field_arg("requestId"), field_arg("_time")]),
    ]);
    let cache = vec![("x".to_string(), hits())];
    match eval(&tree, None, &cache) {
        Outcome::Done(Val::SearchResults(rs)) => {
            assert_eq!(
                pairs(&rs[0]),
                vec![
                    ("requestId".to_string(), "r1".to_string()),
                    ("_time".to_string(), "1000".to_string()),
                ]
            );
        },
        _ => panic!("expected results"),
    }
}

#[test]
fn fields_without_results_is_nil() {
    let tree = query(vec![op("fields", vec![field_arg("a")])]);
    assert!(matches!(eval(&tree, None, &vec![]), Outcome::Done(Val::Nil)));
}

#[test]
fn fields_with_a_non_expression_is_nil() {
    let tree = query(vec![
        op("search", vec![lucene_arg("`x`")]),
        op("fields", vec![lucene_arg("`y`")]),
    ]);
    let cache = vec![("x".to_string(), hits())];
    assert!(matches!(eval(&tree, None, &cache), Outcome::Done(Val::Nil)));
}

#[test]
fn lucene_turns_hits_into_a_query() {
    let tree = query(vec![
        op("search", vec![lucene_arg("`x`")]),
        op("fields", vec![field_arg("requestId")]),
        op("lucene", vec![]),
    ]);
    let cache = vec![("x".to_string(), hits())];
    match eval(&tree, None, &cache) {
        Outcome::Done(Val::LuceneQuery(q)) => {
            assert_eq!(q, "(requestId:\"r1\" OR requestId:\"r2\")");
        },
        _ => panic!("expected a query"),
    }
}

#[test]
fn lucene_text_of_no_hits() {
    assert_eq!(lucene_text(&vec![]), "()");
    assert_eq!(lucene_text(&vec![record(&[("a", "1"), ("b", "2")])]), "(a:\"1\" AND b:\"2\")");
}

#[test]
fn nested_query_feeds_search() {
    let inner = query(vec![
        op("search", vec![lucene_arg("`x`")]),
        op("fields", vec![field_arg("requestId")]),
        op("lucene", vec![]),
    ]);
    let tree = query(vec![op("search", vec![query_arg(inner), lucene_arg("`level:warn`")])]);
    assert!(check_well_formed(&tree));
    let cache = vec![("x".to_string(), hits())];
    match eval(&tree, None, &cache) {
        Outcome::Pending(q) => {
            assert_eq!(q, "(requestId:\"r1\" OR requestId:\"r2\") AND level:warn")
        },
        _ => panic!("expected a pending search"),
    }
}

#[test]
fn search_with_a_non_query_argument_is_nil() {
    let tree = query(vec![op("search", vec![node("operation_argument", "a", vec![leaf("term", "a")])])]);
    assert!(matches!(eval(&tree, None, &vec![]), Outcome::Done(Val::Nil)));
}

#[test]
fn empty_query_and_unknown_nodes_are_nil() {
    assert!(matches!(eval(&query(vec![]), None, &vec![]), Outcome::Done(Val::Nil)));
    assert!(matches!(eval(&leaf("comment", "x"), None, &vec![]), Outcome::Done(Val::Nil)));
    assert!(matches!(
        eval(&query(vec![op("sort", vec![])]), None, &vec![]),
        Outcome::Done(Val::Nil)
    ));
}

#[test]
fn malformed_trees_are_detected() {
    let nameless = node("operation", "", vec![]);
    assert!(!check_well_formed(&nameless));
    assert!(!check_well_formed(&query(vec![nameless])));
    let bare_arg = op("search", vec![node("operation_argument", "", vec![])]);
    assert!(!check_well_formed(&bare_arg));
    let short = query(vec![op("search", vec![lucene_arg("`")])]);
    assert!(!check_well_formed(&short));
    let wide = query(vec![op("search", vec![lucene_arg("«x»")])]);
    assert!(!check_well_formed(&wide));
    let fields_stop = op("fields", vec![lucene_arg("`y`"), node("operation_argument", "", vec![])]);
    assert!(check_well_formed(&fields_stop));
}

#[test]
fn literal_text_trims() {
    assert_eq!(literal_text(&"`  hi there \t`".to_string()), "hi there");
    assert_eq!(literal_text(&"``".to_string()), "");
    assert_eq!(literal_text(&"`\u{3000}x\u{85}`".to_string()), "x");
}

#[test]
fn session_runs_searches_in_turn() {
    let inner = query(vec![op("search", vec![lucene_arg("`x`")]), op("lucene", vec![])]);
    let tree = query(vec![
        op("search", vec![query_arg(inner)]),
        op("fields", vec![field_arg("_raw")]),
    ]);
    let mut session = Session::new(tree);
    let mut asked = Vec::new();
    let value = loop {
        match session.next_action() {
            Action::Search(q) => {
                asked.push(q.clone());
                let results = if q == "x" { hits() } else { vec![record(&[("_raw", "found")])] };
                session.supply(q, results);
            },
            Action::Finish(v) => break v,
        }
    };
    assert_eq!(
        asked,
        vec![
            "x".to_string(),
            "(_raw:\"line one\" AND requestId:\"r1\" AND _time:\"1000\" OR _raw:\"line two\" AND requestId:\"r2\" AND _time:\"2500\")".to_string(),
        ]
    );
    match value {
        Val::SearchResults(rs) => assert_eq!(pairs(&rs[0]), vec![("_raw".to_string(), "found".to_string())]),
        _ => panic!("expected results"),
    }
}

#[test]
fn finished_session_ignores_more_answers() {
    let tree = query(vec![op("search", vec![lucene_arg("`x`")])]);
    let mut session = Session::new(tree);
    session.supply("x".to_string(), hits());
    session.supply("x".to_string(), vec![]);
    match session.next_action() {
        Action::Finish(Val::SearchResults(rs)) => assert_eq!(rs.len(), 2),
        _ => panic!("expected results"),
    }
}

#[test]
fn session_asks_no_more_searches_than_the_tree_has() {
    let tree = query(vec![
        op("search", vec![lucene_arg("`a`")]),
        op("fields", vec![field_arg("_raw")]),
        op("search", vec![lucene_arg("`b`"), lucene_arg("`c`")]),
    ]);
    let mut session = Session::new(tree);
    let mut asked = Vec::new();
    loop {
        match session.next_action() {
            Action::Search(q) => {
                asked.push(q.clone());
                assert!(asked.len() <= 2);
                session.supply(q, vec![]);
            },
            Action::Finish(_) => break,
        }
    }
    assert_eq!(asked, vec!["a".to_string(), "b AND c".to_string()]);
}
