use logviewer::histogram::count_by_bin;
use logviewer::numeric::{format_i64, parse_u64};
use logviewer::record::Record;
use logviewer::status::frames_per_second;

fn hit(time: Option<&str>) -> Record {
    let mut r = Record::new();
    r.insert("_raw".to_string(), "x".to_string());
    if let Some(t) = time {
        r.insert("_time".to_string(), t.to_string());
    }
    r
}

#[test]
fn parse_u64_like_from_str() {
    for s in ["0", "123", "+7", "007", "18446744073709551615", "", "+", "-1", " 1", "1 ", "18446744073709551616", "1_0", "１"] {
        assert_eq!(parse_u64(s), s.parse::<u64>().ok(), "{:?}", s);
    }
}

#[test]
fn format_i64_like_to_string() {
    for n in [0i64, 7, -5, 1700000000123, i64::MIN, i64::MAX, -10, 10] {
        assert_eq!(format_i64(n), n.to_string());
    }
}

#[test]
fn written_times_read_back() {
    for n in [0i64, 9, 10, 99, 1700000000123, i64::MAX] {
        assert_eq!(parse_u64(&format_i64(n)), Some(n as u64));
    }
}

#[test]
fn hits_are_counted_per_bin() {
    let data = vec![
        hit(Some("1500")),
        hit(Some("1999")),
        hit(Some("500")),
        hit(None),
        hit(Some("soon")),
        hit(Some("3000")),
    ];
    assert_eq!(count_by_bin(&data, 1000), vec![(0, 1), (1, 2), (3, 1)]);
    assert_eq!(count_by_bin(&vec![], 1000), vec![]);
}

#[test]
fn fps_divides() {
    assert_eq!(frames_per_second(16), 62);
    assert_eq!(frames_per_second(2000), 0);
}

#[test]
fn zero_bin_size_without_times_gives_no_bins() {
    let data = vec![hit(None), hit(Some("soon"))];
    assert_eq!(count_by_bin(&data, 0), vec![]);
}
