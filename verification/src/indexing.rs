//! Turning log lines into index documents, and index documents back into
//! search hits.
//!
//! A log line starts with a timestamp, then a comma, then `key=value`
//! pairs separated by commas. The fields seen so far are carried from line
//! to line, so a line without a `requestId` keeps the last one seen.

use vstd::prelude::*;
use crate::numeric::{format_i64, signed_decimal};
use crate::record::{insert_field, lookup, remove_field, unique_keys, Field, Record};
use crate::text::{chars_of, string_of};

verus! {

#[verifier::external_type_specification]
#[verifier::external_body]
pub struct ExNaiveDateTime(chrono::NaiveDateTime);

/// What `chrono::NaiveDateTime::parse_from_str` gives for a text and a
/// format, with its error dropped.
pub uninterp spec fn naive_datetime_parse(input: Seq<char>, format: Seq<char>) -> Option<
    chrono::NaiveDateTime,
>;

/// What `chrono::DateTime::<Utc>::to_rfc3339` writes for a date and time
/// taken as UTC.
pub uninterp spec fn rfc3339_utc(t: chrono::NaiveDateTime) -> Seq<char>;

/// All capture groups of all matches of a regular expression in a text, as
/// `regex::Regex::new` and `captures_iter` give them: `None` for a pattern
/// that does not compile, else one list of groups per match, in order.
pub uninterp spec fn regex_captures(pattern: Seq<char>, text: Seq<char>) -> Option<
    Seq<Seq<Option<Seq<char>>>>,
>;

/// Calls `chrono::NaiveDateTime::parse_from_str(input, format)`.
/// Claimed: the result is the function `naive_datetime_parse` of the two
/// texts; nothing is said of which texts parse.
#[verifier::external_body]
fn parse_naive_datetime(input: &str, format: &str) -> (r: Option<chrono::NaiveDateTime>)
    ensures
        r == naive_datetime_parse(input@, format@),
{
    chrono::NaiveDateTime::parse_from_str(input, format).ok()
}

/// Takes a date and time as UTC (`DateTime::from_naive_utc_and_offset`) and
/// writes it with `to_rfc3339`.
/// Claimed: the text is the function `rfc3339_utc` of the date and time.
#[verifier::external_body]
fn utc_rfc3339(t: chrono::NaiveDateTime) -> (s: String)
    ensures
        s@ == rfc3339_utc(t),
{
    chrono::DateTime::<chrono::Utc>::from_naive_utc_and_offset(t, chrono::Utc).to_rfc3339()
}

/// Compiles `pattern` with `regex::Regex::new` and lists the capture groups
/// of every match of it in `text` (`captures_iter`, `Captures::iter`).
/// Claimed: the result is the function `regex_captures` of the two texts.
#[verifier::external_body]
fn capture_groups(pattern: &str, text: &str) -> (r: Option<Vec<Vec<Option<String>>>>)
    ensures
        captures_view(r) == regex_captures(pattern@, text@),
{
    let re = regex::Regex::new(pattern).ok()?;
    Some(
        re.captures_iter(text).map(
            |c| c.iter().map(|m| m.map(|m| m.as_str().to_string())).collect(),
        ).collect(),
    )
}

/// Views of capture groups.
pub open spec fn captures_view(r: Option<Vec<Vec<Option<String>>>>) -> Option<
    Seq<Seq<Option<Seq<char>>>>,
> {
    match r {
        Some(ms) => Some(
            ms@.map_values(
                |m: Vec<Option<String>>|
                    m@.map_values(
                        |g: Option<String>|
                            match g {
                                Some(s) => Some(s@),
                                None => None,
                            },
                    ),
            ),
        ),
        None => None,
    }
}

/// The format of the timestamp at the start of a log line.
pub open spec fn timestamp_format() -> Seq<char> {
    "%Y-%m-%d %H:%M:%S%.3f"@
}

/// The pattern of a `key=value` pair.
pub open spec fn pair_pattern() -> Seq<char> {
    "(\\w+)=([^,]+)"@
}

/// The ISO 8601 (RFC 3339) form of a log timestamp, taken as UTC.
pub open spec fn iso8601_of(input: Seq<char>) -> Seq<char> {
    rfc3339_utc(naive_datetime_parse(input, timestamp_format()).unwrap())
}

/// Converts a log timestamp such as `2024-03-01 12:00:00.123` to ISO 8601
/// in UTC.
pub fn convert_to_iso8601(input: &str) -> (s: String)
    requires
        naive_datetime_parse(input@, timestamp_format()) is Some,
    ensures
        s@ == iso8601_of(input@),
{
    let t = parse_naive_datetime(input, "%Y-%m-%d %H:%M:%S%.3f");
    match t {
        Some(t) => utc_rfc3339(t),
        None => String::new(),
    }
}

/// Converts a log timestamp to ISO 8601 in UTC, or `None` when it does not
/// read as a timestamp.
pub fn try_convert_to_iso8601(input: &str) -> (r: Option<String>)
    ensures
        r is Some <==> naive_datetime_parse(input@, timestamp_format()) is Some,
        r matches Some(s) ==> s@ == iso8601_of(input@),
{
    match parse_naive_datetime(input, "%Y-%m-%d %H:%M:%S%.3f") {
        Some(_) => Some(convert_to_iso8601(input)),
        None => None,
    }
}

/// Index of the first comma in `s`, if any.
pub open spec fn first_comma(s: Seq<char>) -> int
    decreases s.len(),
{
    if s.len() == 0 {
        -1
    } else if s[0] == ',' {
        0
    } else {
        let r = first_comma(s.drop_first());
        if r < 0 {
            -1
        } else {
            r + 1
        }
    }
}

proof fn lemma_first_comma(s: Seq<char>)
    ensures
        -1 <= first_comma(s) < s.len(),
        first_comma(s) >= 0 ==> s[first_comma(s)] == ',',
        forall|j: int| 0 <= j < first_comma(s) ==> s[j] != ',',
        first_comma(s) < 0 ==> forall|j: int| 0 <= j < s.len() ==> s[j] != ',',
    decreases s.len(),
{
    if s.len() > 0 && s[0] != ',' {
        lemma_first_comma(s.drop_first());
        assert forall|j: int| 0 <= j < s.len() && (first_comma(s) < 0 || j < first_comma(s))
            implies s[j] != ',' by {
            if j > 0 {
                assert(s[j] == s.drop_first()[j - 1]);
            }
        }
    }
}

/// Splits `s` at its first comma, as `str::split_once(',')` does.
pub fn split_at_comma(s: &str) -> (r: Option<(String, String)>)
    ensures
        match r {
            Some((a, b)) => first_comma(s@) >= 0 && a@ == s@.subrange(0, first_comma(s@)) && b@
                == s@.subrange(first_comma(s@) + 1, s@.len() as int),
            None => first_comma(s@) < 0,
        },
{
    let cs = chars_of(s);
    let n = cs.len();
    proof {
        lemma_first_comma(s@);
    }
    for i in 0..n
        invariant
            n == cs@.len(),
            cs@ == s@,
            forall|j: int| 0 <= j < i ==> cs@[j] != ',',
    {
        proof {
            lemma_first_comma(s@);
        }
        if cs[i] == ',' {
            assert(first_comma(s@) == i);
            let a = string_of(slice_prefix(&cs, i).as_slice());
            let b = string_of(slice_suffix(&cs, i + 1).as_slice());
            return Some((a, b));
        }
    }
    None
}

/// The first `k` characters.
fn slice_prefix(cs: &Vec<char>, k: usize) -> (r: Vec<char>)
    requires
        k <= cs@.len(),
    ensures
        r@ == cs@.subrange(0, k as int),
{
    let mut r: Vec<char> = Vec::new();
    for i in 0..k
        invariant
            k <= cs@.len(),
            r@ == cs@.subrange(0, i as int),
    {
        r.push(cs[i]);
        assert(cs@.subrange(0, i + 1) == cs@.subrange(0, i as int).push(cs@[i as int]));
    }
    r
}

/// The characters from `k` on.
fn slice_suffix(cs: &Vec<char>, k: usize) -> (r: Vec<char>)
    requires
        k <= cs@.len(),
    ensures
        r@ == cs@.subrange(k as int, cs@.len() as int),
{
    let mut r: Vec<char> = Vec::new();
    let n = cs.len();
    for i in k..n
        invariant
            n == cs@.len(),
            k <= n,
            r@ == cs@.subrange(k as int, i as int),
    {
        r.push(cs[i]);
        assert(cs@.subrange(k as int, i + 1) == cs@.subrange(k as int, i as int).push(
            cs@[i as int],
        ));
    }
    r
}

/// Why a log line could not be turned into a document.
#[derive(PartialEq, Eq, Structural, Clone, Copy, Debug)]
pub enum IndexError {
    /// The text before the first comma is not a timestamp.
    BadTimestamp,
    /// The `key=value` pattern does not compile.
    BadPattern,
    /// A `key=value` match lacks its key or its value.
    MissingGroup,
    /// No `requestId` field has been seen yet.
    MissingRequestId,
}

/// The fields after storing the pairs of the matches `ms`, or `None` when a
/// match lacks group 1 or 2.
pub open spec fn store_pairs(f: Seq<Field>, ms: Seq<Seq<Option<Seq<char>>>>) -> Option<Seq<Field>>
    decreases ms.len(),
{
    if ms.len() == 0 {
        Some(f)
    } else {
        match store_pairs(f, ms.drop_last()) {
            Some(g) => {
                let m = ms.last();
                if m.len() >= 3 && m[1] is Some && m[2] is Some {
                    Some(insert_field(g, m[1]->Some_0, m[2]->Some_0))
                } else {
                    None
                }
            },
            None => None,
        }
    }
}

/// A document of the log index: the line's time in ISO 8601, its request
/// id and the raw line.
#[derive(Debug)]
pub struct LogEntry {
    pub time: String,
    pub request_id: String,
    pub raw: String,
}

/// The document for a line whose time reads as `iso` and whose `key=value`
/// pattern matched as `ms`: the time is stored under `_time` and the pairs
/// over the fields carried from earlier lines; the document takes `_time`,
/// which is not carried on, and `requestId`.
pub open spec fn line_document(
    fields: Seq<Field>,
    iso: Seq<char>,
    ms: Seq<Seq<Option<Seq<char>>>>,
    line: Seq<char>,
) -> Result<(Seq<Field>, (Seq<char>, Seq<char>, Seq<char>)), IndexError> {
    match store_pairs(insert_field(fields, "_time"@, iso), ms) {
        None => Err(IndexError::MissingGroup),
        Some(f2) => {
            let kept = remove_field(f2, "_time"@);
            match lookup(kept, "requestId"@) {
                None => Err(IndexError::MissingRequestId),
                Some(id) => Ok((kept, (lookup(f2, "_time"@).unwrap(), id, line))),
            }
        },
    }
}

/// What reading a line gives: the fields carried on, and the document.
pub open spec fn read_line(fields: Seq<Field>, line: Seq<char>) -> Result<
    (Seq<Field>, (Seq<char>, Seq<char>, Seq<char>)),
    IndexError,
> {
    let c = first_comma(line);
    let stamp = line.subrange(0, c);
    let rest = line.subrange(c + 1, line.len() as int);
    if naive_datetime_parse(stamp, timestamp_format()) is None {
        Err(IndexError::BadTimestamp)
    } else {
        match regex_captures(pair_pattern(), rest) {
            None => Err(IndexError::BadPattern),
            Some(ms) => line_document(fields, iso8601_of(stamp), ms, line),
        }
    }
}

/// A document and the fields it carries on, by their views.
pub open spec fn outcome_view(r: Result<(Record, LogEntry), IndexError>) -> Result<
    (Seq<Field>, (Seq<char>, Seq<char>, Seq<char>)),
    IndexError,
> {
    match r {
        Ok((f, e)) => Ok((f@, (e.time@, e.request_id@, e.raw@))),
        Err(err) => Err(err),
    }
}

/// Builds the document of a line from its time in ISO 8601 and the capture
/// groups of its `key=value` matches (see `line_document`), returning it
/// with the fields to carry on to the next line.
#[verifier::loop_isolation(false)]
pub fn document_from_matches(
    carried: &Record,
    iso: String,
    matches: &Vec<Vec<Option<String>>>,
    line: &str,
) -> (r: Result<(Record, LogEntry), IndexError>)
    ensures
        outcome_view(r) == line_document(
            carried@,
            iso@,
            captures_view(Some(*matches))->Some_0,
            line@,
        ),
{
    let ghost iso_v = iso@;
    let mut f = carried.copy();
    f.insert(String::from_str("_time"), iso);
    let ghost f1 = f@;
    let ghost msv = captures_view(Some(*matches))->Some_0;
    let n = matches.len();
    for i in 0..n
        invariant
            n == matches@.len(),
            msv == captures_view(Some(*matches))->Some_0,
            f1 == insert_field(carried@, "_time"@, iso_v),
            store_pairs(f1, msv.take(i as int)) == Some(f@),
    {
        let m = &matches[i];
        assert(msv.take(i + 1).drop_last() == msv.take(i as int));
        assert(msv.take(i + 1).last() == msv[i as int]);
        if m.len() < 3 {
            proof {
                lemma_store_pairs_none(f1, msv, i as int);
            }
            return Err(IndexError::MissingGroup);
        }
        match (&m[1], &m[2]) {
            (Some(k), Some(v)) => {
                f.insert(k.clone(), v.clone());
            },
            _ => {
                proof {
                    lemma_store_pairs_none(f1, msv, i as int);
                }
                return Err(IndexError::MissingGroup);
            },
        }
    }
    assert(msv.take(n as int) == msv);
    proof {
        reveal_strlit("_time");
        reveal_strlit("requestId");
        assert("requestId"@[0] != "_time"@[0]);
        crate::record::law_insert_then_lookup(carried@, "_time"@, iso_v, "requestId"@);
        lemma_store_pairs_keeps(f1, msv, "_time"@);
    }
    let time = match f.remove("_time") {
        Some(t) => t,
        None => String::new(),
    };
    match f.get("requestId") {
        Some(id) => Ok((f, LogEntry { time, request_id: id, raw: String::from_str(line) })),
        None => Err(IndexError::MissingRequestId),
    }
}

/// Reads log lines one after the other, carrying their fields along.
pub struct LineParser {
    fields: Record,
}

impl LineParser {
    /// The fields carried from the lines read so far.
    pub closed spec fn carried(self) -> Seq<Field> {
        self.fields@
    }

    /// A parser that has read no line yet.
    pub fn new() -> (p: LineParser)
        ensures
            p.carried() == Seq::<Field>::empty(),
    {
        LineParser { fields: Record::new() }
    }

    /// Reads one log line into a document (see `read_line`). On an error
    /// nothing changes.
    pub fn parse_line(&mut self, line: &str) -> (r: Result<LogEntry, IndexError>)
        requires
            first_comma(line@) >= 0,
        ensures
            match r {
                Ok(e) => read_line(old(self).carried(), line@) == Ok::<
                    (Seq<Field>, (Seq<char>, Seq<char>, Seq<char>)),
                    IndexError,
                >((final(self).carried(), (e.time@, e.request_id@, e.raw@))),
                Err(err) => read_line(old(self).carried(), line@) == Err::<
                    (Seq<Field>, (Seq<char>, Seq<char>, Seq<char>)),
                    IndexError,
                >(err) && final(self).carried() == old(self).carried(),
            },
            unique_keys(final(self).carried()),
    {
        proof {
            use_type_invariant(&self.fields);
        }
        let (stamp, rest) = match split_at_comma(line) {
            Some(p) => p,
            None => {
                return Err(IndexError::BadTimestamp);
            },
        };
        let iso = match try_convert_to_iso8601(stamp.as_str()) {
            Some(s) => s,
            None => {
                return Err(IndexError::BadTimestamp);
            },
        };
        let ms = match capture_groups("(\\w+)=([^,]+)", rest.as_str()) {
            Some(ms) => ms,
            None => {
                return Err(IndexError::BadPattern);
            },
        };
        match document_from_matches(&self.fields, iso, &ms, line) {
            Ok((f, e)) => {
                proof {
                    use_type_invariant(&f);
                }
                self.fields = f;
                Ok(e)
            },
            Err(err) => Err(err),
        }
    }
}

/// The value stored under `k` by the last of the matches `ms` whose key is
/// `k`, or `d` when no match has that key.
spec fn last_pair_value(
    ms: Seq<Seq<Option<Seq<char>>>>,
    k: Seq<char>,
    d: Option<Seq<char>>,
) -> Option<Seq<char>>
    decreases ms.len(),
{
    if ms.len() == 0 {
        d
    } else if ms.last()[1] == Some(k) {
        ms.last()[2]
    } else {
        last_pair_value(ms.drop_last(), k, d)
    }
}

proof fn lemma_last_pair_value(ms: Seq<Seq<Option<Seq<char>>>>, k: Seq<char>, d: Option<Seq<char>>)
    ensures
        forall|i: int|
            0 <= i < ms.len() && (#[trigger] ms[i])[1] == Some(k) && (forall|j: int|
                i < j < ms.len() ==> ms[j][1] != Some(k)) ==> last_pair_value(ms, k, d)
                == ms[i][2],
        (forall|j: int| 0 <= j < ms.len() ==> (#[trigger] ms[j])[1] != Some(k)) ==> last_pair_value(
            ms,
            k,
            d,
        ) == d,
    decreases ms.len(),
{
    if ms.len() > 0 {
        let p = ms.drop_last();
        lemma_last_pair_value(p, k, d);
        assert forall|i: int|
            0 <= i < ms.len() && (#[trigger] ms[i])[1] == Some(k) && (forall|j: int|
                i < j < ms.len() ==> ms[j][1] != Some(k)) implies last_pair_value(ms, k, d)
            == ms[i][2] by {
            if i < ms.len() - 1 {
                assert(ms[ms.len() - 1][1] != Some(k));
                assert(p[i] == ms[i]);
                assert forall|j: int| i < j < p.len() implies p[j][1] != Some(k) by {
                    assert(p[j] == ms[j]);
                }
            }
        }
        if forall|j: int| 0 <= j < ms.len() ==> (#[trigger] ms[j])[1] != Some(k) {
            assert(ms[ms.len() - 1][1] != Some(k));
            assert forall|j: int| 0 <= j < p.len() implies (#[trigger] p[j])[1] != Some(k) by {
                assert(p[j] == ms[j]);
            }
        }
    }
}

/// Storing complete matches stores, under each name, the value of the last
/// match with that name, keeps the other names, and keeps names unique.
proof fn lemma_store_pairs_value(f: Seq<Field>, ms: Seq<Seq<Option<Seq<char>>>>, k: Seq<char>)
    requires
        forall|x: int|
            0 <= x < ms.len() ==> (#[trigger] ms[x]).len() >= 3 && ms[x][1] is Some && ms[x][2] is Some,
    ensures
        store_pairs(f, ms) is Some,
        lookup(store_pairs(f, ms)->Some_0, k) == last_pair_value(ms, k, lookup(f, k)),
        unique_keys(f) ==> unique_keys(store_pairs(f, ms)->Some_0),
    decreases ms.len(),
{
    if ms.len() > 0 {
        let p = ms.drop_last();
        assert forall|x: int| 0 <= x < p.len() implies (#[trigger] p[x]).len() >= 3 && p[x][1] is Some
            && p[x][2] is Some by {
            assert(p[x] == ms[x]);
        }
        lemma_store_pairs_value(f, p, k);
        let g = store_pairs(f, p)->Some_0;
        let m = ms.last();
        assert(m == ms[ms.len() - 1]);
        let key = m[1]->Some_0;
        let val = m[2]->Some_0;
        if key == k {
            assert(k.push(' ').len() != k.len());
            crate::record::law_insert_then_lookup(g, key, val, k.push(' '));
        } else {
            crate::record::law_insert_then_lookup(g, key, val, k);
        }
        if unique_keys(f) {
            crate::record::law_names_stay_unique(g, key, val);
        }
    }
}

/// The request id of a line's document is the value of the line's last
/// `requestId` pair, character for character.
pub proof fn law_request_id_is_last_pair(
    fields: Seq<Field>,
    iso: Seq<char>,
    ms: Seq<Seq<Option<Seq<char>>>>,
    line: Seq<char>,
    i: int,
)
    requires
        unique_keys(fields),
        forall|x: int|
            0 <= x < ms.len() ==> (#[trigger] ms[x]).len() >= 3 && ms[x][1] is Some && ms[x][2] is Some,
        0 <= i < ms.len(),
        ms[i][1] == Some("requestId"@),
        forall|j: int| i < j < ms.len() ==> ms[j][1] != Some("requestId"@),
    ensures
        line_document(fields, iso, ms, line) matches Ok((_, (_, id, _))) && id == ms[i][2]->Some_0,
{
    lemma_request_id(fields, iso, ms);
    lemma_last_pair_value(ms, "requestId"@, lookup(insert_field(fields, "_time"@, iso), "requestId"@));
}

/// A line without a `requestId` pair keeps the request id carried from
/// earlier lines, and is refused when none was carried.
pub proof fn law_request_id_is_carried(
    fields: Seq<Field>,
    iso: Seq<char>,
    ms: Seq<Seq<Option<Seq<char>>>>,
    line: Seq<char>,
)
    requires
        unique_keys(fields),
        forall|x: int|
            0 <= x < ms.len() ==> (#[trigger] ms[x]).len() >= 3 && ms[x][1] is Some && ms[x][2] is Some,
        forall|j: int| 0 <= j < ms.len() ==> (#[trigger] ms[j])[1] != Some("requestId"@),
    ensures
        match lookup(fields, "requestId"@) {
            Some(v) => line_document(fields, iso, ms, line) matches Ok((_, (_, id, _))) && id == v,
            None => line_document(fields, iso, ms, line) == Err::<
                (Seq<Field>, (Seq<char>, Seq<char>, Seq<char>)),
                IndexError,
            >(IndexError::MissingRequestId),
        },
{
    lemma_request_id(fields, iso, ms);
    lemma_last_pair_value(ms, "requestId"@, lookup(insert_field(fields, "_time"@, iso), "requestId"@));
    reveal_strlit("_time");
    reveal_strlit("requestId");
    assert("requestId"@[0] != "_time"@[0]);
    crate::record::law_insert_then_lookup(fields, "_time"@, iso, "requestId"@);
}

/// The document's request id is what storing the pairs left under
/// `requestId`.
proof fn lemma_request_id(fields: Seq<Field>, iso: Seq<char>, ms: Seq<Seq<Option<Seq<char>>>>)
    requires
        unique_keys(fields),
        forall|x: int|
            0 <= x < ms.len() ==> (#[trigger] ms[x]).len() >= 3 && ms[x][1] is Some && ms[x][2] is Some,
    ensures
        ({
            let f1 = insert_field(fields, "_time"@, iso);
            let f2 = store_pairs(f1, ms)->Some_0;
            &&& store_pairs(f1, ms) is Some
            &&& lookup(remove_field(f2, "_time"@), "requestId"@) == last_pair_value(
                ms,
                "requestId"@,
                lookup(f1, "requestId"@),
            )
        }),
{
    let f1 = insert_field(fields, "_time"@, iso);
    crate::record::law_names_stay_unique(fields, "_time"@, iso);
    lemma_store_pairs_value(f1, ms, "requestId"@);
    let f2 = store_pairs(f1, ms)->Some_0;
    reveal_strlit("_time");
    reveal_strlit("requestId");
    assert("requestId"@[0] != "_time"@[0]);
    crate::record::law_remove_then_lookup(f2, "_time"@, "requestId"@);
}

/// The `key=value` pattern: a key of word characters, then `=`, then a
/// value of one or more characters other than a comma, so a value runs up
/// to the next comma whatever else it holds.
pub proof fn law_pair_value_runs_to_comma()
    ensures
        pair_pattern() == "(\\w+)="@ + "([^,]+)"@,
{
    reveal_strlit("(\\w+)=([^,]+)");
    reveal_strlit("(\\w+)=");
    reveal_strlit("([^,]+)");
    assert(pair_pattern() =~= "(\\w+)="@ + "([^,]+)"@);
}

/// Storing a value keeps every name that was there.
proof fn lemma_insert_keeps(f: Seq<Field>, k: Seq<char>, k2: Seq<char>, v: Seq<char>)
    requires
        lookup(f, k) is Some,
    ensures
        lookup(insert_field(f, k2, v), k) is Some,
{
    crate::record::lemma_key_index(f, k);
    crate::record::lemma_key_index(f, k2);
    let g = insert_field(f, k2, v);
    crate::record::lemma_key_index(g, k);
    let j = crate::record::key_index(f, k);
    assert(g[j].0 == k);
}

/// Storing pairs keeps every name that was there.
proof fn lemma_store_pairs_keeps(f: Seq<Field>, ms: Seq<Seq<Option<Seq<char>>>>, k: Seq<char>)
    requires
        lookup(f, k) is Some,
    ensures
        store_pairs(f, ms) matches Some(g) ==> lookup(g, k) is Some,
    decreases ms.len(),
{
    if ms.len() > 0 {
        lemma_store_pairs_keeps(f, ms.drop_last(), k);
        if let Some(g) = store_pairs(f, ms.drop_last()) {
            let m = ms.last();
            if m.len() >= 3 && m[1] is Some && m[2] is Some {
                lemma_insert_keeps(g, k, m[1]->Some_0, m[2]->Some_0);
            }
        }
    }
}

/// Once a match lacks a group, storing the rest of the matches fails too.
proof fn lemma_store_pairs_none(f: Seq<Field>, ms: Seq<Seq<Option<Seq<char>>>>, i: int)
    requires
        0 <= i < ms.len(),
        !(ms[i].len() >= 3 && ms[i][1] is Some && ms[i][2] is Some),
    ensures
        store_pairs(f, ms) is None,
    decreases ms.len(),
{
    if i < ms.len() - 1 {
        lemma_store_pairs_none(f, ms.drop_last(), i);
    } else {
        assert(ms.last() == ms[i]);
    }
}


/// A stored value of a retrieved document.
pub enum FieldValue {
    /// A text value.
    Text(String),
    /// A date, in milliseconds since the Unix epoch.
    Date(i64),
}

/// The text a stored value shows in a hit: the text itself, or the date's
/// milliseconds in decimal.
pub open spec fn shown(v: FieldValue) -> Seq<char> {
    match v {
        FieldValue::Text(s) => s@,
        FieldValue::Date(ms) => signed_decimal(ms as int),
    }
}

/// The `_time` field holds a date and every other field holds text.
pub open spec fn typed_as_indexed(fs: Seq<(String, FieldValue)>) -> bool {
    forall|i: int|
        0 <= i < fs.len() ==> (#[trigger] fs[i].0@ == "_time"@ <==> fs[i].1 is Date)
}

/// The hit for a document's stored values: each stored under its field
/// name, a later value of a name overwriting an earlier one.
pub open spec fn document_hit(fs: Seq<(String, FieldValue)>) -> Seq<Field>
    decreases fs.len(),
{
    if fs.len() == 0 {
        Seq::empty()
    } else {
        insert_field(document_hit(fs.drop_last()), fs.last().0@, shown(fs.last().1))
    }
}

/// Turns the stored values of a retrieved document into a hit: `_time`
/// becomes its milliseconds in decimal, other fields keep their text.
pub fn hit_from_document(fields: &Vec<(String, FieldValue)>) -> (r: Record)
    requires
        typed_as_indexed(fields@),
    ensures
        r@ == document_hit(fields@),
{
    let mut r = Record::new();
    let n = fields.len();
    for i in 0..n
        invariant
            n == fields@.len(),
            typed_as_indexed(fields@),
            r@ == document_hit(fields@.take(i as int)),
    {
        let (name, value) = &fields[i];
        assert(fields@.take(i + 1).drop_last() == fields@.take(i as int));
        assert(fields@.take(i + 1).last() == fields@[i as int]);
        let text = match value {
            FieldValue::Date(ms) => format_i64(*ms),
            FieldValue::Text(t) => t.clone(),
        };
        r.insert(name.clone(), text);
    }
    assert(fields@.take(n as int) == fields@);
    r
}

} // verus!
