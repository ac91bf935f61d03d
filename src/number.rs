//! Decimal `i32` literals, as `str::parse::<i32>` reads them.
use vstd::prelude::*;

verus! {

pub open spec fn is_digit(c: char) -> bool {
    '0' <= c && c <= '9'
}

pub open spec fn all_digits(d: Seq<char>) -> bool {
    forall|i: int| 0 <= i < d.len() ==> is_digit(#[trigger] d[i])
}

/// Value of a run of decimal digits.
pub open spec fn digits_value(d: Seq<char>) -> int
    decreases d.len(),
{
    if d.len() == 0 {
        0
    } else {
        digits_value(d.drop_last()) * 10 + (d.last() as int - '0' as int)
    }
}

/// What follows an optional leading sign.
pub open spec fn unsigned_part(s: Seq<char>) -> Seq<char> {
    if s.len() > 0 && (s[0] == '-' || s[0] == '+') {
        s.subrange(1, s.len() as int)
    } else {
        s
    }
}

/// The value of a signed run of digits, or `None` when no digits follow the sign.
pub open spec fn signed_value(s: Seq<char>) -> Option<int> {
    let d = unsigned_part(s);
    if s.len() == 0 || d.len() == 0 || !all_digits(d) {
        None
    } else if s[0] == '-' {
        Some(-digits_value(d))
    } else {
        Some(digits_value(d))
    }
}

/// The `i32` that `s` denotes: an optional `+` or `-`, then one or more digits, in range.
pub open spec fn i32_text(s: Seq<char>) -> Option<int> {
    match signed_value(s) {
        Some(v) => if i32::MIN <= v <= i32::MAX {
            Some(v)
        } else {
            None
        },
        None => None,
    }
}

proof fn lemma_digits_value_grows(d: Seq<char>, j: int)
    requires
        0 <= j <= d.len(),
        all_digits(d),
    ensures
        0 <= digits_value(d.subrange(0, j)) <= digits_value(d),
    decreases d.len() - j,
{
    if j < d.len() {
        lemma_digits_value_grows(d, j + 1);
        assert(d.subrange(0, j + 1).drop_last() =~= d.subrange(0, j));
        assert(is_digit(d[j]));
    } else {
        assert(d.subrange(0, j) =~= d);
        lemma_digits_nonneg(d);
    }
}

proof fn lemma_digits_nonneg(d: Seq<char>)
    requires
        all_digits(d),
    ensures
        digits_value(d) >= 0,
    decreases d.len(),
{
    if d.len() > 0 {
        assert(is_digit(d[d.len() - 1]));
        lemma_digits_nonneg(d.drop_last());
    }
}

/// Reads a decimal `i32`, with an optional sign.
pub fn parse_i32(s: &str) -> (r: Option<i32>)
    ensures
        match r {
            Some(v) => i32_text(s@) == Some(v as int),
            None => i32_text(s@) is None,
        },
{
    let n = s.unicode_len();
    if n == 0 {
        return None;
    }
    let c0 = s.get_char(0);
    let neg = c0 == '-';
    let from: usize = if c0 == '-' || c0 == '+' {
        1
    } else {
        0
    };
    let ghost d = s@.subrange(from as int, n as int);
    assert(d == unsigned_part(s@)) by {
        if from == 0 {
            assert(s@.subrange(0, n as int) =~= s@);
        }
    }
    if from == n {
        return None;
    }
    let mut i: usize = from;
    while i < n
        invariant
            n == s@.len(),
            from <= i <= n,
            d == s@.subrange(from as int, n as int),
            d == unsigned_part(s@),
            n > 0,
            neg == (s@[0] == '-'),
            forall|k: int| 0 <= k < i - from ==> is_digit(#[trigger] d[k]),
        decreases n - i,
    {
        let c = s.get_char(i);
        if !('0' <= c && c <= '9') {
            assert(!is_digit(d[i - from]));
            assert(!all_digits(d));
            return None;
        }
        i = i + 1;
    }
    assert(all_digits(d));
    let mut acc: i64 = 0;
    let mut j: usize = from;
    while j < n
        invariant
            n == s@.len(),
            from <= j <= n,
            d == s@.subrange(from as int, n as int),
            d == unsigned_part(s@),
            n > 0,
            neg == (s@[0] == '-'),
            all_digits(d),
            acc as int == digits_value(d.subrange(0, j - from)),
            0 <= acc <= 2147483648,
        decreases n - j,
    {
        let c = s.get_char(j);
        proof {
            assert(is_digit(d[j - from]));
            assert(d.subrange(0, j - from + 1).drop_last() =~= d.subrange(0, j - from));
            assert(d[j - from] == c);
            assert(d.subrange(0, j - from + 1).last() == c);
        }
        let next: i64 = acc * 10 + (c as i64 - '0' as i64);
        if next > 2147483648 {
            proof {
                lemma_digits_value_grows(d, j - from + 1);
                assert(digits_value(d) > 2147483648);
            }
            return None;
        }
        acc = next;
        j = j + 1;
    }
    assert(d.subrange(0, n - from) =~= d);
    if neg {
        Some((0 - acc) as i32)
    } else if acc > 2147483647 {
        None
    } else {
        Some(acc as i32)
    }
}

} // verus!
