use logviewer::highlight::{highlight_spans, Capture, Highlight, Span};
use logviewer::record::Record;
use logviewer::table::table_columns;

#[test]
fn insert_get_remove() {
    let mut r = Record::new();
    r.insert("a".to_string(), "1".to_string());
    r.insert("b".to_string(), "2".to_string());
    r.insert("a".to_string(), "3".to_string());
    assert_eq!(r.len(), 2);
    assert_eq!(r.get("a"), Some("3".to_string()));
    assert_eq!(r.field_at(0), ("a".to_string(), "3".to_string()));
    assert_eq!(r.remove("a"), Some("3".to_string()));
    assert_eq!(r.get("a"), None);
    assert_eq!(r.remove("a"), None);
    assert_eq!(r.get("b"), Some("2".to_string()));
}

#[test]
fn columns_are_sorted_names_of_first_hit() {
    let mut r = Record::new();
    for k in ["requestId", "_time", "_raw", "Zeta", "éclair"] {
        r.insert(k.to_string(), "v".to_string());
    }
    let mut other = Record::new();
    other.insert("only".to_string(), "x".to_string());
    let cols = table_columns(&vec![r, other]);
    let mut expected: Vec<String> = vec!["requestId", "_time", "_raw", "Zeta", "éclair"].into_iter().map(String::from).collect();
    expected.sort();
    assert_eq!(cols, expected);
    assert_eq!(table_columns(&vec![]), Vec::<String>::new());
}

fn cap(start: usize, end: usize, name: &str) -> Capture {
    Capture { start, end, name: name.to_string() }
}

#[test]
fn spans_cover_the_text() {
    let input = "[search `hi` | fields a]";
    let caps = vec![cap(1, 7, "operation"), cap(8, 12, "lucene_query"), cap(15, 21, "operation"), cap(22, 23, "term")];
    let spans = highlight_spans(input, &caps);
    let expected = vec![
        Span { start: 0, end: 1, color: Highlight::Plain },
        Span { start: 1, end: 7, color: Highlight::Operation },
        Span { start: 7, end: 8, color: Highlight::Plain },
        Span { start: 8, end: 12, color: Highlight::Literal },
        Span { start: 12, end: 15, color: Highlight::Plain },
        Span { start: 15, end: 21, color: Highlight::Operation },
        Span { start: 21, end: 22, color: Highlight::Plain },
        Span { start: 22, end: 23, color: Highlight::Literal },
        Span { start: 23, end: 24, color: Highlight::Plain },
    ];
    assert_eq!(spans, expected);
}

#[test]
fn spans_without_captures() {
    assert_eq!(highlight_spans("abc", &vec![]), vec![Span { start: 0, end: 3, color: Highlight::Plain }]);
    assert_eq!(highlight_spans("", &vec![]), vec![]);
    assert_eq!(highlight_spans("ab", &vec![cap(0, 2, "other")]), vec![Span { start: 0, end: 2, color: Highlight::Plain }]);
}
