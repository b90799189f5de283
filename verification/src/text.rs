//! Character-level string helpers shared by the interpreter and the indexer.

use vstd::prelude::*;

verus! {

/// Appends one character to a `String` (std's `String::push`).
/// Claimed: the string afterwards is the old one followed by `c`.
#[verifier::external_body]
pub fn push_char(s: &mut String, c: char)
    ensures
        final(s)@ == old(s)@.push(c),
{
    s.push(c);
}

/// The characters of `s`, in order.
pub fn chars_of(s: &str) -> (out: Vec<char>)
    ensures
        out@ == s@,
{
    let mut out: Vec<char> = Vec::new();
    for c in it: s.chars()
        invariant
            out@ == it.seq().take(it.index() as int),
            it.seq() == s@,
    {
        out.push(c);
    }
    out
}

/// A `String` holding exactly the characters of `cs`.
pub fn string_of(cs: &[char]) -> (out: String)
    ensures
        out@ == cs@,
{
    let mut out = String::new();
    let n = cs.len();
    for i in 0..n
        invariant
            n == cs@.len(),
            out@ == cs@.take(i as int),
    {
        push_char(&mut out, cs[i]);
        assert(cs@.take(i + 1) == cs@.take(i as int).push(cs@[i as int]));
    }
    assert(cs@.take(n as int) == cs@);
    out
}


/// Whether `c` has the Unicode `White_Space` property, the definition of
/// whitespace that `str::trim` uses.
pub open spec fn is_white_space(c: char) -> bool {
    let u = c as u32;
    ||| 0x09 <= u <= 0x0D
    ||| u == 0x20
    ||| u == 0x85
    ||| u == 0xA0
    ||| u == 0x1680
    ||| 0x2000 <= u <= 0x200A
    ||| u == 0x2028
    ||| u == 0x2029
    ||| u == 0x202F
    ||| u == 0x205F
    ||| u == 0x3000
}

/// `s` without its leading whitespace.
pub open spec fn trim_front(s: Seq<char>) -> Seq<char>
    decreases s.len(),
{
    if s.len() > 0 && is_white_space(s[0]) {
        trim_front(s.drop_first())
    } else {
        s
    }
}

/// `s` without its trailing whitespace.
pub open spec fn trim_back(s: Seq<char>) -> Seq<char>
    decreases s.len(),
{
    if s.len() > 0 && is_white_space(s.last()) {
        trim_back(s.drop_last())
    } else {
        s
    }
}

/// `s` without leading and trailing whitespace.
pub open spec fn trimmed(s: Seq<char>) -> Seq<char> {
    trim_back(trim_front(s))
}

/// Whether `c` has the `White_Space` property.
pub fn white_space(c: char) -> (b: bool)
    ensures
        b == is_white_space(c),
{
    let u = c as u32;
    (0x09 <= u && u <= 0x0D) || u == 0x20 || u == 0x85 || u == 0xA0 || u == 0x1680 || (0x2000
        <= u && u <= 0x200A) || u == 0x2028 || u == 0x2029 || u == 0x202F || u == 0x205F || u
        == 0x3000
}

/// Removes leading and trailing whitespace, as `str::trim` does.
pub fn trim(cs: &[char]) -> (out: Vec<char>)
    ensures
        out@ == trimmed(cs@),
{
    let n = cs.len();
    let mut i: usize = 0;
    assert(cs@.subrange(0, n as int) == cs@);
    while i < n && white_space(cs[i])
        invariant
            i <= n,
            n == cs@.len(),
            trim_front(cs@) == trim_front(cs@.subrange(i as int, n as int)),
        decreases n - i,
    {
        assert(cs@.subrange(i as int, n as int).drop_first() == cs@.subrange(
            i + 1,
            n as int,
        ));
        i = i + 1;
    }
    let ghost front = cs@.subrange(i as int, n as int);
    assert(trim_front(front) == front);
    let mut j: usize = n;
    assert(trimmed(cs@) == trim_back(front));
    while j > i && white_space(cs[j - 1])
        invariant
            i <= j <= n,
            n == cs@.len(),
            front == cs@.subrange(i as int, n as int),
            trim_back(front) == trim_back(cs@.subrange(i as int, j as int)),
        decreases j,
    {
        assert(cs@.subrange(i as int, j as int).drop_last() == cs@.subrange(
            i as int,
            j - 1,
        ));
        j = j - 1;
    }
    let mut out: Vec<char> = Vec::new();
    let mut k: usize = i;
    while k < j
        invariant
            i <= k <= j <= n,
            n == cs@.len(),
            out@ == cs@.subrange(i as int, k as int),
        decreases j - k,
    {
        out.push(cs[k]);
        assert(cs@.subrange(i as int, k + 1) == cs@.subrange(i as int, k as int).push(
            cs@[k as int],
        ));
        k = k + 1;
    }
    assert(trim_back(cs@.subrange(i as int, j as int)) == cs@.subrange(i as int, j as int));
    out
}

/// The pieces of `list` joined with `sep` between neighbours.
pub open spec fn join(list: Seq<Seq<char>>, sep: Seq<char>) -> Seq<char>
    decreases list.len(),
{
    if list.len() == 0 {
        Seq::empty()
    } else if list.len() == 1 {
        list[0]
    } else {
        join(list.drop_last(), sep) + sep + list.last()
    }
}

/// Views of a list of strings.
pub open spec fn views(list: Seq<String>) -> Seq<Seq<char>> {
    list.map_values(|s: String| s@)
}

/// Joins `list` with `sep`, as `[String]::join` does.
pub fn join_strings(list: &Vec<String>, sep: &str) -> (out: String)
    ensures
        out@ == join(views(list@), sep@),
{
    let mut out = String::new();
    let n = list.len();
    for i in 0..n
        invariant
            n == list@.len(),
            out@ == join(views(list@).take(i as int), sep@),
    {
        assert(views(list@).take(i + 1).drop_last() == views(list@).take(i as int));
        if i > 0 {
            out.append(sep);
        }
        out.append(list[i].as_str());
    }
    assert(views(list@).take(n as int) == views(list@));
    out
}

} // verus!
