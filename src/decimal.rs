//! Exact decimal quantities, counted in billionths of a unit.
use vstd::prelude::*;
use crate::text::{chars_of, find_from};

verus! {

/// Number of billionths in one unit.
pub const NANOS_PER_UNIT: i64 = 1_000_000_000;

/// Most digits accepted on either side of the decimal point.
pub const MAX_DIGITS: usize = 9;

/// A decimal quantity: `nanos` billionths of a unit.
#[derive(Clone, Copy, Debug, PartialEq, Eq, Structural)]
pub struct Decimal {
    pub nanos: i64,
}

pub open spec fn is_digit(c: char) -> bool {
    48 <= (c as u32) <= 57
}

pub open spec fn all_digits(s: Seq<char>) -> bool {
    forall|i: int| 0 <= i < s.len() ==> is_digit(#[trigger] s[i])
}

/// The number written by the decimal digits `s` (zero for no digits).
pub open spec fn digits_value(s: Seq<char>) -> int
    decreases s.len(),
{
    if s.len() == 0 {
        0
    } else {
        digits_value(s.drop_last()) * 10 + ((s.last() as u32) - 48)
    }
}

pub open spec fn pow10(n: nat) -> int
    decreases n,
{
    if n == 0 {
        1
    } else {
        10 * pow10((n - 1) as nat)
    }
}

/// Billionths written by an unsigned decimal `digits[.digits]`, with at least one digit
/// in all and at most nine on each side of the point.
pub open spec fn unsigned_nanos(s: Seq<char>) -> Option<int> {
    let k = find_from(s, '.', 0);
    let int_part = s.take(k);
    let frac_part = if k < s.len() {
        s.skip(k + 1)
    } else {
        Seq::<char>::empty()
    };
    if all_digits(int_part) && all_digits(frac_part) && int_part.len() + frac_part.len() > 0
        && int_part.len() <= 9 && frac_part.len() <= 9 {
        Some(digits_value(int_part) * pow10(9) + digits_value(frac_part) * pow10(
            (9 - frac_part.len()) as nat,
        ))
    } else {
        None
    }
}

/// Billionths written by `s`: an unsigned decimal, optionally preceded by `+` or `-`.
pub open spec fn decimal_nanos(s: Seq<char>) -> Option<int> {
    if s.len() > 0 && s[0] == '-' {
        match unsigned_nanos(s.drop_first()) {
            Some(m) => Some(-m),
            None => None,
        }
    } else if s.len() > 0 && s[0] == '+' {
        unsigned_nanos(s.drop_first())
    } else {
        unsigned_nanos(s)
    }
}

proof fn lemma_digits_bound(s: Seq<char>)
    requires
        all_digits(s),
    ensures
        0 <= digits_value(s) < pow10(s.len()),
    decreases s.len(),
{
    if s.len() > 0 {
        assert(is_digit(s[s.len() - 1]));
        lemma_digits_bound(s.drop_last());
    }
}

proof fn lemma_pow10_positive(n: nat)
    ensures
        pow10(n) >= 1,
    decreases n,
{
    if n > 0 {
        lemma_pow10_positive((n - 1) as nat);
    }
}

proof fn lemma_pow10_monotone(a: nat, b: nat)
    requires
        a <= b,
    ensures
        pow10(a) <= pow10(b),
    decreases b,
{
    if a < b {
        lemma_pow10_monotone(a, (b - 1) as nat);
        lemma_pow10_positive((b - 1) as nat);
    }
}

proof fn lemma_pow10_add(a: nat, b: nat)
    ensures
        pow10(a) * pow10(b) == pow10(a + b),
    decreases a,
{
    if a > 0 {
        lemma_pow10_add((a - 1) as nat, b);
        assert(pow10(a) * pow10(b) == 10 * (pow10((a - 1) as nat) * pow10(b))) by (nonlinear_arith)
            requires
                pow10(a) == 10 * pow10((a - 1) as nat),
        {
        }
    }
}

proof fn lemma_pow10_nine()
    ensures
        pow10(9) == 1_000_000_000,
{
    reveal_with_fuel(pow10, 10);
}

/// `10` to the power `n`, for `n` at most nine.
fn pow10_exec(n: usize) -> (r: i64)
    requires
        n <= 9,
    ensures
        r == pow10(n as nat),
{
    let mut r: i64 = 1;
    let mut i: usize = 0;
    while i < n
        invariant
            i <= n <= 9,
            r == pow10(i as nat),
        decreases n - i,
    {
        proof {
            lemma_pow10_nine();
            lemma_pow10_monotone((i + 1) as nat, 9);
            assert(pow10((i + 1) as nat) == 10 * pow10(i as nat));
            lemma_pow10_positive(i as nat);
        }
        r = r * 10;
        i = i + 1;
    }
    r
}

/// The value of the digits `cs[lo..hi]`, or `None` if one of them is not a digit.
fn digits_exec(cs: &Vec<char>, lo: usize, hi: usize) -> (r: Option<i64>)
    requires
        lo <= hi <= cs@.len(),
        hi - lo <= 9,
    ensures
        r is Some <==> all_digits(cs@.subrange(lo as int, hi as int)),
        r is Some ==> r->0 == digits_value(cs@.subrange(lo as int, hi as int)),
{
    let mut acc: i64 = 0;
    let mut i = lo;
    while i < hi
        invariant
            lo <= i <= hi <= cs@.len(),
            hi - lo <= 9,
            all_digits(cs@.subrange(lo as int, i as int)),
            acc == digits_value(cs@.subrange(lo as int, i as int)),
        decreases hi - i,
    {
        let c = cs[i];
        let u = c as u32;
        if u < 48 || u > 57 {
            assert(cs@.subrange(lo as int, hi as int)[i - lo] == c);
            return None;
        }
        proof {
            lemma_digits_bound(cs@.subrange(lo as int, i as int));
            lemma_pow10_monotone((i - lo) as nat, 8);
            lemma_pow10_nine();
            assert(pow10(9) == 10 * pow10(8));
            assert(cs@.subrange(lo as int, i + 1).drop_last() =~= cs@.subrange(lo as int, i as int));
            assert(all_digits(cs@.subrange(lo as int, i + 1)));
        }
        acc = acc * 10 + (u - 48) as i64;
        i = i + 1;
    }
    Some(acc)
}

/// Billionths written by the unsigned decimal `cs[lo..hi]`.
fn unsigned_exec(cs: &Vec<char>, lo: usize, hi: usize) -> (r: Option<i64>)
    requires
        lo <= hi <= cs@.len(),
    ensures
        r is Some <==> unsigned_nanos(cs@.subrange(lo as int, hi as int)) is Some,
        r is Some ==> r->0 == unsigned_nanos(cs@.subrange(lo as int, hi as int))->0,
        r is Some ==> r->0 >= 0,
{
    let ghost s = cs@.subrange(lo as int, hi as int);
    let mut k = lo;
    while k < hi && cs[k] != '.'
        invariant
            lo <= k <= hi <= cs@.len(),
            s == cs@.subrange(lo as int, hi as int),
            find_from(s, '.', 0) == find_from(s, '.', k - lo),
        decreases hi - k,
    {
        k = k + 1;
    }
    assert(find_from(s, '.', 0) == k - lo);
    let int_len = k - lo;
    let frac_lo = if k < hi {
        k + 1
    } else {
        hi
    };
    let frac_len = hi - frac_lo;
    assert(s.take(k - lo) =~= cs@.subrange(lo as int, k as int));
    assert(k < hi ==> s.skip(k - lo + 1) =~= cs@.subrange(frac_lo as int, hi as int));
    assert(k == hi ==> Seq::<char>::empty() =~= cs@.subrange(frac_lo as int, hi as int));
    if int_len > MAX_DIGITS || frac_len > MAX_DIGITS || int_len + frac_len == 0 {
        return None;
    }
    let ip = digits_exec(cs, lo, k);
    let fp = digits_exec(cs, frac_lo, hi);
    match (ip, fp) {
        (Some(a), Some(b)) => {
            proof {
                lemma_digits_bound(cs@.subrange(lo as int, k as int));
                lemma_digits_bound(cs@.subrange(frac_lo as int, hi as int));
                lemma_pow10_positive((9 - frac_len) as nat);
                lemma_pow10_nine();
                lemma_pow10_add(frac_len as nat, (9 - frac_len) as nat);
                lemma_pow10_monotone(int_len as nat, 9);
                let p = pow10((9 - frac_len) as nat);
                assert(b * p < 1_000_000_000) by (nonlinear_arith)
                    requires
                        0 <= b < pow10(frac_len as nat),
                        pow10(frac_len as nat) * p == 1_000_000_000,
                        p >= 1,
                {
                }
                assert(a * 1_000_000_000 < 1_000_000_000_000_000_000) by (nonlinear_arith)
                    requires
                        0 <= a < 1_000_000_000,
                {
                }
            }
            let scale = pow10_exec(MAX_DIGITS - frac_len);
            Some(a * NANOS_PER_UNIT + b * scale)
        },
        _ => None,
    }
}


/// Parses the decimal `cs[lo..hi]`.
pub fn parse_decimal_chars(cs: &Vec<char>, lo: usize, hi: usize) -> (r: Option<Decimal>)
    requires
        lo <= hi <= cs@.len(),
    ensures
        r is Some <==> decimal_nanos(cs@.subrange(lo as int, hi as int)) is Some,
        r is Some ==> r->0.nanos == decimal_nanos(cs@.subrange(lo as int, hi as int))->0,
{
    let ghost s = cs@.subrange(lo as int, hi as int);
    if lo < hi && (cs[lo] == '-' || cs[lo] == '+') {
        assert(s.drop_first() =~= cs@.subrange(lo + 1, hi as int));
        let m = unsigned_exec(cs, lo + 1, hi);
        match m {
            Some(v) => {
                if cs[lo] == '-' {
                    Some(Decimal { nanos: -v })
                } else {
                    Some(Decimal { nanos: v })
                }
            },
            None => None,
        }
    } else {
        match unsigned_exec(cs, lo, hi) {
            Some(v) => Some(Decimal { nanos: v }),
            None => None,
        }
    }
}

impl Decimal {
    /// Reads a decimal such as `15.000000`, `-0.5` or `+7`: an optional sign, then at most
    /// nine digits, optionally a point and at most nine more digits, with at least one digit.
    pub fn parse(s: &str) -> (r: Option<Decimal>)
        ensures
            r is Some <==> decimal_nanos(s@) is Some,
            r is Some ==> r->0.nanos == decimal_nanos(s@)->0,
    {
        let cs = chars_of(s);
        assert(cs@.subrange(0, cs@.len() as int) =~= s@);
        parse_decimal_chars(&cs, 0, cs.len())
    }
}

} // verus!
