use logviewer::indexing::{document_from_matches, convert_to_iso8601, hit_from_document, split_at_comma, try_convert_to_iso8601, FieldValue, IndexError, LineParser};
use logviewer::mailbox::EatSpit;
use logviewer::record::Record;

#[test]
fn timestamps_become_iso8601() {
    assert_eq!(convert_to_iso8601("2024-03-01 12:00:00.123"), "2024-03-01T12:00:00.123+00:00");
    assert_eq!(try_convert_to_iso8601("2024-03-01 12:00:00.000"), Some("2024-03-01T12:00:00+00:00".to_string()));
    assert_eq!(try_convert_to_iso8601("yesterday"), None);
}

#[test]
fn split_at_first_comma() {
    assert_eq!(split_at_comma("a,b,c"), Some(("a".to_string(), "b,c".to_string())));
    assert_eq!(split_at_comma(",x"), Some((String::new(), "x".to_string())));
    assert_eq!(split_at_comma("none"), None);
}

#[test]
fn lines_become_documents() {
    let mut p = LineParser::new();
    let e = p.parse_line("2024-03-01 12:00:00.123, requestId=abc, user=bob").unwrap();
    assert_eq!(e.time, "2024-03-01T12:00:00.123+00:00");
    assert_eq!(e.request_id, "abc");
    assert_eq!(e.raw, "2024-03-01 12:00:00.123, requestId=abc, user=bob");
    let e2 = p.parse_line("2024-03-01 12:00:01.000,status=ok").unwrap();
    assert_eq!(e2.request_id, "abc");
    assert_eq!(e2.time, "2024-03-01T12:00:01+00:00");
}

#[test]
fn line_errors() {
    let mut p = LineParser::new();
    assert_eq!(p.parse_line("2024-03-01 12:00:00.123,status=ok").err(), Some(IndexError::MissingRequestId));
    assert_eq!(p.parse_line("not a time,requestId=1").err(), Some(IndexError::BadTimestamp));
    let e = p.parse_line("2024-03-01 12:00:00.123,requestId=7").unwrap();
    assert_eq!(e.request_id, "7");
}

#[test]
fn pair_overrides_time() {
    let mut p = LineParser::new();
    let e = p.parse_line("2024-03-01 12:00:00.123,_time=later,requestId=x").unwrap();
    assert_eq!(e.time, "later");
}

#[test]
fn documents_become_hits() {
    let r = hit_from_document(&vec![
        ("_time".to_string(), FieldValue::Date(1709294400123)),
        ("requestId".to_string(), FieldValue::Text("abc".to_string())),
        ("_raw".to_string(), FieldValue::Text("line".to_string())),
    ]);
    assert_eq!(r.get("_time"), Some("1709294400123".to_string()));
    assert_eq!(r.get("requestId"), Some("abc".to_string()));
    assert_eq!(r.len(), 3);
}

#[test]
fn mailbox_takes_one_value() {
    let mut m: EatSpit<u32> = EatSpit::new();
    assert!(!m.available());
    let tx = m.mouth();
    tx.try_send(5).unwrap();
    assert!(m.available());
    assert_eq!(*m.val(), 5);
    *m.val_mut() = 6;
    tx.try_send(9).unwrap();
    assert!(m.available());
    assert_eq!(*m.val(), 6);
}

fn groups(gs: &[Option<&str>]) -> Vec<Option<String>> {
    gs.iter().map(|g| g.map(|s| s.to_string())).collect()
}

#[test]
fn documents_from_given_matches() {
    let mut carried = Record::new();
    carried.insert("requestId".to_string(), "old".to_string());
    let ms = vec![groups(&[Some("user=bob"), Some("user"), Some("bob")])];
    let (f, e) = document_from_matches(&carried, "T".to_string(), &ms, "raw").unwrap();
    assert_eq!(e.time, "T");
    assert_eq!(e.request_id, "old");
    assert_eq!(e.raw, "raw");
    assert_eq!(f.get("user"), Some("bob".to_string()));
    assert_eq!(f.get("_time"), None);
    let bad = vec![groups(&[Some("x"), None, Some("y")])];
    assert_eq!(document_from_matches(&carried, "T".to_string(), &bad, "raw").err(), Some(IndexError::MissingGroup));
    let short = vec![groups(&[Some("x")])];
    assert_eq!(document_from_matches(&carried, "T".to_string(), &short, "raw").err(), Some(IndexError::MissingGroup));
    assert_eq!(document_from_matches(&Record::new(), "T".to_string(), &vec![], "raw").err(), Some(IndexError::MissingRequestId));
}

#[test]
fn indexed_time_lands_in_its_bin() {
    let hit = hit_from_document(&vec![
        ("_time".to_string(), FieldValue::Date(1000)),
        ("_raw".to_string(), FieldValue::Text("a".to_string())),
        ("_time".to_string(), FieldValue::Date(7250)),
    ]);
    assert_eq!(hit.get("_time"), Some("7250".to_string()));
    assert_eq!(logviewer::histogram::count_by_bin(&vec![hit], 1000), vec![(7, 1)]);
}
