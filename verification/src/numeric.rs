//! Decimal text for integers: writing a timestamp into a record and reading
//! it back when the hits are binned by time.

use vstd::prelude::*;
use crate::text::{chars_of, string_of};

verus! {

/// Whether `c` is an ASCII decimal digit.
pub open spec fn is_digit(c: char) -> bool {
    '0' <= c && c <= '9'
}

/// The value of a decimal digit.
pub open spec fn digit_value(c: char) -> int {
    c as int - '0' as int
}

/// The digit character for `d` in `0..10`.
pub open spec fn digit_char(d: nat) -> char {
    (d + '0' as nat) as char
}

/// The value of a string of decimal digits.
pub open spec fn digits_value(s: Seq<char>) -> int
    decreases s.len(),
{
    if s.len() == 0 {
        0
    } else {
        digits_value(s.drop_last()) * 10 + digit_value(s.last())
    }
}

/// All characters of `s` are decimal digits.
pub open spec fn all_digits(s: Seq<char>) -> bool {
    forall|i: int| 0 <= i < s.len() ==> is_digit(#[trigger] s[i])
}

/// What `u64::from_str` gives: an optional `+`, then at least one digit and
/// nothing else, with a value that fits in 64 bits.
pub open spec fn parse_u64_spec(s: Seq<char>) -> Option<u64> {
    let d = if s.len() > 0 && s[0] == '+' {
        s.drop_first()
    } else {
        s
    };
    if d.len() > 0 && all_digits(d) && digits_value(d) <= u64::MAX {
        Some(digits_value(d) as u64)
    } else {
        None
    }
}

/// The decimal digits of `n`, without leading zeros.
pub open spec fn decimal(n: nat) -> Seq<char>
    decreases n,
{
    if n < 10 {
        seq![digit_char(n)]
    } else {
        decimal(n / 10).push(digit_char(n % 10))
    }
}

/// The decimal text of `n`, with a `-` when it is negative, as `Display`
/// writes an integer.
pub open spec fn signed_decimal(n: int) -> Seq<char> {
    if n < 0 {
        seq!['-'] + decimal((-n) as nat)
    } else {
        decimal(n as nat)
    }
}

/// A value of at least 0 whose prefixes have no larger value.
proof fn lemma_digits_prefix(s: Seq<char>, i: int)
    requires
        all_digits(s),
        0 <= i <= s.len(),
    ensures
        0 <= digits_value(s.take(i)) <= digits_value(s),
    decreases s.len(),
{
    if s.len() > 0 {
        let p = s.drop_last();
        assert(all_digits(p)) by {
            assert forall|j: int| 0 <= j < p.len() implies is_digit(#[trigger] p[j]) by {
                assert(p[j] == s[j]);
            }
        }
        assert(is_digit(s[s.len() - 1]));
        if i == s.len() {
            lemma_digits_prefix(p, p.len() as int);
            assert(s.take(i) == s);
            assert(p.take(p.len() as int) == p);
        } else {
            lemma_digits_prefix(p, i);
            lemma_digits_prefix(p, p.len() as int);
            assert(p.take(i) == s.take(i));
            assert(p.take(p.len() as int) == p);
        }
    }
}

/// A digit character is a digit with its value.
proof fn lemma_digit_char(d: nat)
    requires
        d < 10,
    ensures
        is_digit(digit_char(d)),
        digit_value(digit_char(d)) == d,
{
    assert(digit_char(d) as int == d + 48);
}

/// The decimal text of a number is digits with that value.
pub proof fn lemma_decimal(n: nat)
    ensures
        decimal(n).len() > 0,
        all_digits(decimal(n)),
        digits_value(decimal(n)) == n,
    decreases n,
{
    lemma_digit_char(n % 10);
    if n < 10 {
        assert(decimal(n).drop_last() =~= Seq::<char>::empty());
        assert(decimal(n).last() == digit_char(n));
        assert(digits_value(Seq::<char>::empty()) == 0);
        assert(digits_value(decimal(n)) == digits_value(Seq::<char>::empty()) * 10 + digit_value(digit_char(n)));
        assert(n % 10 == n);
    }
    if n >= 10 {
        lemma_decimal(n / 10);
        let p = decimal(n / 10);
        assert(decimal(n).drop_last() == p);
        assert(decimal(n).last() == digit_char(n % 10));
        assert(digits_value(decimal(n)) == digits_value(p) * 10 + digit_value(digit_char(n % 10)));
        assert((n / 10) * 10 + n % 10 == n);
        assert forall|j: int| 0 <= j < decimal(n).len() implies is_digit(#[trigger] decimal(n)[j]) by {
            if j < p.len() {
                assert(decimal(n)[j] == p[j]);
            }
        }
    }
}

/// Parses an unsigned decimal number as `u64::from_str` does.
pub fn parse_u64(s: &str) -> (r: Option<u64>)
    ensures
        r == parse_u64_spec(s@),
{
    let cs = chars_of(s);
    let n = cs.len();
    let start: usize = if n > 0 && cs[0] == '+' {
        1
    } else {
        0
    };
    let ghost d = if n > 0 && cs@[0] == '+' {
        cs@.drop_first()
    } else {
        cs@
    };
    assert(d == cs@.subrange(start as int, n as int));
    if start == n {
        return None;
    }
    let mut v: u64 = 0;
    let mut i: usize = start;
    while i < n
        invariant
            start <= i <= n,
            n == cs@.len(),
            cs@ == s@,
            d == (if n > 0 && s@[0] == '+' {
                s@.drop_first()
            } else {
                s@
            }),
            d.len() > 0,
            d == cs@.subrange(start as int, n as int),
            all_digits(d.take(i - start)),
            v == digits_value(d.take(i - start)),
        decreases n - i,
    {
        let c = cs[i];
        let ghost k = (i - start) as int;
        assert(d[k] == c);
        if !('0' <= c && c <= '9') {
            assert(!all_digits(d));
            return None;
        }
        let dv = (c as u32 - '0' as u32) as u64;
        assert(d.take(k + 1).drop_last() == d.take(k));
        assert(d.take(k + 1).last() == c);
        assert(all_digits(d.take(k + 1))) by {
            assert forall|j: int| 0 <= j < k + 1 implies is_digit(#[trigger] d.take(k + 1)[j]) by {
                if j < k {
                    assert(d.take(k + 1)[j] == d.take(k)[j]);
                }
            }
        }
        if v > (u64::MAX - dv) / 10 {
            assert(v * 10 + dv > u64::MAX) by (nonlinear_arith)
                requires
                    v > (u64::MAX - dv) / 10,
                    dv <= 9,
            ;
            proof {
                if all_digits(d) {
                    lemma_digits_prefix(d, k + 1);
                }
            }
            return None;
        }
        v = v * 10 + dv;
        i = i + 1;
    }
    assert(d.take(n - start) == d);
    Some(v)
}

/// Writes `n` in decimal, as `i64::to_string` does.
pub fn format_i64(n: i64) -> (s: String)
    ensures
        s@ == signed_decimal(n as int),
{
    let m: u64 = if n < 0 {
        ((-(n + 1)) as u64) + 1
    } else {
        n as u64
    };
    let ghost mag: nat = if n < 0 {
        (-n) as nat
    } else {
        n as nat
    };
    assert(m == mag);
    let mut x: u64 = m;
    let mut low: Vec<char> = Vec::new();
    while x >= 10
        invariant
            decimal(mag) == decimal(x as nat) + low@,
        decreases x,
    {
        let dc = ((x % 10) as u8 + 48u8) as char;
        assert(dc == digit_char((x % 10) as nat));
        assert(decimal(x as nat) == decimal((x / 10) as nat).push(dc));
        assert(decimal((x / 10) as nat).push(dc) + low@ == decimal((x / 10) as nat) + (seq![dc]
            + low@));
        low.insert(0, dc);
        x = x / 10;
    }
    let first = (x as u8 + 48u8) as char;
    assert(first == digit_char(x as nat));
    let mut out: Vec<char> = Vec::new();
    if n < 0 {
        out.push('-');
    }
    out.push(first);
    let k = low.len();
    for j in 0..k
        invariant
            k == low@.len(),
            out@ == (if n < 0 {
                seq!['-']
            } else {
                Seq::<char>::empty()
            }) + seq![first] + low@.take(j as int),
    {
        out.push(low[j]);
        assert(low@.take(j + 1) == low@.take(j as int).push(low@[j as int]));
    }
    assert(low@.take(k as int) == low@);
    string_of(out.as_slice())
}

/// A time written by `format_i64` is read back by `parse_u64`, for every
/// time that is not negative.
pub proof fn law_written_time_reads_back(n: i64)
    requires
        n >= 0,
    ensures
        parse_u64_spec(signed_decimal(n as int)) == Some(n as u64),
{
    lemma_decimal(n as nat);
    let s = decimal(n as nat);
    assert(s[0] != '+') by {
        assert(is_digit(s[0]));
    }
}

} // verus!
