use logviewer::playground::{check_trial_well_formed, eval, Val};
use logviewer::syntax::SyntaxNode;

fn leaf(kind: &str, text: &str) -> SyntaxNode {
    SyntaxNode::leaf(kind.to_string(), true, text.to_string())
}

fn node(kind: &str, children: Vec<SyntaxNode>) -> SyntaxNode {
    SyntaxNode::branch(kind.to_string(), true, String::new(), children)
}

#[test]
fn trial_search_gives_raw_argument() {
    let tree = node(
        "query",
        vec![node(
            "operation",
            vec![leaf("operation_name", "search"), node("operation_arguments", vec![leaf("lucene_query", "`hi`")])],
        )],
    );
    assert!(check_trial_well_formed(&tree));
    match eval(&tree) {
        Val::LuceneQuery(q) => assert_eq!(q, "`hi`"),
        _ => panic!("expected a query"),
    }
}

#[test]
fn trial_other_operations_are_nil() {
    let tree = node(
        "query",
        vec![node("operation", vec![leaf("operation_name", "fields"), node("operation_arguments", vec![])])],
    );
    assert!(matches!(eval(&tree), Val::Nil));
    assert!(!check_trial_well_formed(&node("operation", vec![leaf("operation_name", "search")])));
}
