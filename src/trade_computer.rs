//! Reconstruction of trades: each purchase is paired with the first sale that closes it.
use vstd::prelude::*;
use crate::decimal::Decimal;
use crate::text::chars_of;
use crate::trade::{Details, Trade};
use crate::transaction::{Transaction, Type};

verus! {

/// Lexicographic order of texts by code point, which is also the order of their UTF-8 bytes.
pub open spec fn text_lt(a: Seq<char>, b: Seq<char>) -> bool
    decreases a.len(),
{
    if a.len() == 0 {
        b.len() > 0
    } else if b.len() == 0 {
        false
    } else if a[0] != b[0] {
        (a[0] as u32) < (b[0] as u32)
    } else {
        text_lt(a.drop_first(), b.drop_first())
    }
}

/// Order by instrument, then by timestamp.
pub open spec fn key_lt(x: Transaction, y: Transaction) -> bool {
    text_lt(x.currency@, y.currency@) || (x.currency@ == y.currency@ && text_lt(
        x.timestamp@,
        y.timestamp@,
    ))
}

/// `s` with `x` placed before its first element of a greater key.
pub open spec fn insert_by_key(s: Seq<Transaction>, x: Transaction) -> Seq<Transaction>
    decreases s.len(),
{
    if s.len() == 0 {
        seq![x]
    } else if key_lt(x, s[0]) {
        seq![x] + s
    } else {
        seq![s[0]] + insert_by_key(s.drop_first(), x)
    }
}

/// The stable sort of `s` by instrument, then timestamp.
pub open spec fn sorted_by_key(s: Seq<Transaction>) -> Seq<Transaction>
    decreases s.len(),
{
    if s.len() == 0 {
        s
    } else {
        insert_by_key(sorted_by_key(s.drop_last()), s.last())
    }
}

/// `candidate` lies strictly within a thousandth of `reference`, the window being taken
/// from `reference`.
pub open spec fn within_tolerance(candidate: Decimal, reference: Decimal) -> bool {
    let d = reference.nanos - candidate.nanos;
    let diff = if d < 0 {
        -d
    } else {
        d
    };
    diff * 1000 < reference.nanos
}

/// `t` closes the position opened by `o`.
pub open spec fn closes(t: Transaction, o: Transaction) -> bool {
    &&& t.kind == Type::Sold
    &&& t.currency@ == o.currency@
    &&& within_tolerance(t.amount, o.amount)
}

/// The first index at or after `k` of a purchase in `s`, or `s.len()`.
pub open spec fn find_bought(s: Seq<Transaction>, k: int) -> int
    decreases s.len() - k,
{
    if k < 0 || k >= s.len() {
        s.len() as int
    } else if s[k].kind == Type::Bought {
        k
    } else {
        find_bought(s, k + 1)
    }
}

/// The first index at or after `k` of a transaction in `s` that closes `o`, or `s.len()`.
pub open spec fn find_closing(s: Seq<Transaction>, o: Transaction, k: int) -> int
    decreases s.len() - k,
{
    if k < 0 || k >= s.len() {
        s.len() as int
    } else if closes(s[k], o) {
        k
    } else {
        find_closing(s, o, k + 1)
    }
}

pub open spec fn details_of(t: Transaction) -> Details {
    Details { amount: t.amount, total_value: t.total_value, price: t.price, timestamp: t.timestamp }
}

pub open spec fn trade_of(o: Transaction, c: Option<Transaction>) -> Trade {
    Trade {
        currency: o.currency,
        opening_details: details_of(o),
        closing_details: match c {
            Some(t) => Some(details_of(t)),
            None => None,
        },
    }
}

/// The trades of the working sequence `s`: take its first purchase, pair it with the first
/// transaction that closes it if there is one, remove both, and go on.
pub open spec fn match_trades(s: Seq<Transaction>) -> Seq<Trade>
    decreases s.len(),
{
    let i = find_bought(s, 0);
    if 0 <= i < s.len() {
        let o = s[i];
        let j = find_closing(s, o, 0);
        if 0 <= j < s.len() && j != i {
            let rest = if i < j {
                s.remove(j).remove(i)
            } else {
                s.remove(i).remove(j)
            };
            seq![trade_of(o, Some(s[j]))] + match_trades(rest)
        } else {
            seq![trade_of(o, None)] + match_trades(s.remove(i))
        }
    } else {
        Seq::empty()
    }
}

/// Whether `a` comes before `b`, comparing code points.
pub fn text_less(a: &str, b: &str) -> (r: bool)
    ensures
        r == text_lt(a@, b@),
{
    let x = chars_of(a);
    let y = chars_of(b);
    let mut i: usize = 0;
    assert(a@.skip(0) =~= a@);
    assert(b@.skip(0) =~= b@);
    while i < x.len() && i < y.len() && x[i] == y[i]
        invariant
            x@ == a@,
            y@ == b@,
            i <= x@.len(),
            i <= y@.len(),
            text_lt(a@, b@) == text_lt(a@.skip(i as int), b@.skip(i as int)),
        decreases x@.len() - i,
    {
        assert(a@.skip(i as int).drop_first() =~= a@.skip(i + 1));
        assert(b@.skip(i as int).drop_first() =~= b@.skip(i + 1));
        i = i + 1;
    }
    if i == x.len() {
        i < y.len()
    } else if i == y.len() {
        false
    } else {
        (x[i] as u32) < (y[i] as u32)
    }
}

fn key_less(x: &Transaction, y: &Transaction) -> (r: bool)
    ensures
        r == key_lt(*x, *y),
{
    text_less(x.currency.as_str(), y.currency.as_str()) || (x.currency == y.currency && text_less(
        x.timestamp.as_str(),
        y.timestamp.as_str(),
    ))
}

pub(crate) proof fn lemma_find_closing(s: Seq<Transaction>, o: Transaction, k: int)
    requires
        0 <= k <= s.len(),
    ensures
        k <= find_closing(s, o, k) <= s.len(),
        find_closing(s, o, k) < s.len() ==> closes(s[find_closing(s, o, k)], o),
    decreases s.len() - k,
{
    if k < s.len() && !closes(s[k], o) {
        lemma_find_closing(s, o, k + 1);
    }
}

pub(crate) proof fn lemma_find_bought(s: Seq<Transaction>, k: int)
    requires
        0 <= k <= s.len(),
    ensures
        k <= find_bought(s, k) <= s.len(),
        find_bought(s, k) < s.len() ==> s[find_bought(s, k)].kind == Type::Bought,
    decreases s.len() - k,
{
    if k < s.len() && s[k].kind != Type::Bought {
        lemma_find_bought(s, k + 1);
    }
}

proof fn lemma_insert_at(s: Seq<Transaction>, x: Transaction, j: int)
    requires
        0 <= j <= s.len(),
        forall|k: int| 0 <= k < j ==> !key_lt(x, #[trigger] s[k]),
        j < s.len() ==> key_lt(x, s[j]),
    ensures
        insert_by_key(s, x) == s.insert(j, x),
    decreases s.len(),
{
    if s.len() == 0 {
        assert(s.insert(j, x) =~= seq![x]);
    } else if j == 0 {
        assert(s.insert(j, x) =~= seq![x] + s);
    } else {
        assert(!key_lt(x, s[0]));
        lemma_insert_at(s.drop_first(), x, j - 1);
        assert(s.insert(j, x) =~= seq![s[0]] + s.drop_first().insert(j - 1, x));
    }
}

/// Stable sort by instrument, then timestamp.
fn sort_by_key(v: Vec<Transaction>) -> (r: Vec<Transaction>)
    ensures
        r@ == sorted_by_key(v@),
{
    let ghost orig = v@;
    let mut input = v;
    let mut out: Vec<Transaction> = Vec::new();
    let n = input.len();
    let mut i: usize = 0;
    assert(orig.take(0) =~= Seq::<Transaction>::empty());
    while i < n
        invariant
            n == orig.len(),
            i <= n,
            input@ == orig.skip(i as int),
            out@ == sorted_by_key(orig.take(i as int)),
        decreases n - i,
    {
        assert(orig.skip(i as int)[0] == orig[i as int]);
        let x = input.remove(0);
        assert(input@ =~= orig.skip(i + 1));
        let mut j: usize = 0;
        while j < out.len() && !key_less(&x, &out[j])
            invariant
                j <= out@.len(),
                forall|k: int| 0 <= k < j ==> !key_lt(x, #[trigger] out@[k]),
            decreases out@.len() - j,
        {
            j = j + 1;
        }
        proof {
            lemma_insert_at(out@, x, j as int);
            assert(orig.take(i + 1).drop_last() =~= orig.take(i as int));
        }
        out.insert(j, x);
        i = i + 1;
    }
    assert(orig.take(n as int) =~= orig);
    out
}

/// Index of the first purchase.
fn find_opening_of_a_trade(transactions: &Vec<Transaction>) -> (r: Option<usize>)
    ensures
        match r {
            Some(i) => i == find_bought(transactions@, 0) && i < transactions@.len(),
            None => find_bought(transactions@, 0) == transactions@.len(),
        },
{
    let mut k: usize = 0;
    while k < transactions.len()
        invariant
            k <= transactions@.len(),
            find_bought(transactions@, 0) == find_bought(transactions@, k as int),
        decreases transactions@.len() - k,
    {
        if transactions[k].kind == Type::Bought {
            return Some(k);
        }
        k = k + 1;
    }
    None
}

/// Whether `d1` lies strictly within a thousandth of `d2`.
fn approx(d1: Decimal, d2: Decimal) -> (r: bool)
    ensures
        r == within_tolerance(d1, d2),
{
    let d = d2.nanos as i128 - d1.nanos as i128;
    let diff = if d < 0 {
        -d
    } else {
        d
    };
    diff * 1000 < d2.nanos as i128
}

/// Index of the first transaction that closes the purchase at `opening_transaction`.
fn find_corresponding_closing_transaction(
    transactions: &Vec<Transaction>,
    opening_transaction: usize,
) -> (r: Option<usize>)
    requires
        opening_transaction < transactions@.len(),
    ensures
        ({
            let o = transactions@[opening_transaction as int];
            match r {
                Some(j) => j == find_closing(transactions@, o, 0) && j < transactions@.len(),
                None => find_closing(transactions@, o, 0) == transactions@.len(),
            }
        }),
{
    let opening = &transactions[opening_transaction];
    let mut k: usize = 0;
    while k < transactions.len()
        invariant
            k <= transactions@.len(),
            opening == transactions@[opening_transaction as int],
            find_closing(transactions@, *opening, 0) == find_closing(
                transactions@,
                *opening,
                k as int,
            ),
        decreases transactions@.len() - k,
    {
        let t = &transactions[k];
        if t.kind == Type::Sold && t.currency == opening.currency && approx(t.amount, opening.amount) {
            return Some(k);
        }
        k = k + 1;
    }
    None
}

fn details_from_transaction(transaction: Transaction) -> (d: Details)
    ensures
        d == details_of(transaction),
{
    Details {
        amount: transaction.amount,
        total_value: transaction.total_value,
        price: transaction.price,
        timestamp: transaction.timestamp,
    }
}

/// The trade opened by `o` and closed by `c`, if any.
fn trade_from(o: Transaction, c: Option<Transaction>) -> (t: Trade)
    ensures
        t == trade_of(o, c),
{
    let closing = match c {
        Some(t) => Some(details_from_transaction(t)),
        None => None,
    };
    Trade {
        currency: o.currency,
        opening_details: Details {
            amount: o.amount,
            total_value: o.total_value,
            price: o.price,
            timestamp: o.timestamp,
        },
        closing_details: closing,
    }
}

/// The trades of a ledger: sorted by instrument, then timestamp, each purchase in turn is
/// paired with the first remaining sale of its instrument whose amount lies strictly within
/// a thousandth of its own. Sales that close nothing are left out.
pub fn analyze(transactions: Vec<Transaction>) -> (trades: Vec<Trade>)
    ensures
        trades@ == match_trades(sorted_by_key(transactions@)),
        transactions@.len() == 0 ==> trades@.len() == 0,
{
    if transactions.is_empty() {
        assert(sorted_by_key(transactions@) =~= transactions@);
        assert(find_bought(transactions@, 0) == 0);
        return Vec::new();
    }
    let mut work = sort_by_key(transactions);
    let ghost sorted = work@;
    let mut trades: Vec<Trade> = Vec::new();
    assert(trades@ + match_trades(work@) =~= match_trades(sorted));
    loop
        invariant
            trades@ + match_trades(work@) == match_trades(sorted),
            sorted == sorted_by_key(transactions@),
        ensures
            trades@ == match_trades(sorted),
        decreases work@.len(),
    {
        let i = match find_opening_of_a_trade(&work) {
            Some(i) => i,
            None => {
                assert(trades@ =~= match_trades(sorted));
                break;
            },
        };
        let ghost s = work@;
        let ghost old_trades = trades@;
        proof {
            lemma_find_bought(s, 0);
            lemma_find_closing(s, s[i as int], 0);
        }
        match find_corresponding_closing_transaction(&work, i) {
            Some(j) => {
                assert(j != i);
                let (o, c) = if i < j {
                    let c = work.remove(j);
                    let o = work.remove(i);
                    (o, c)
                } else {
                    let o = work.remove(i);
                    let c = work.remove(j);
                    (o, c)
                };
                assert(o == s[i as int]);
                assert(c == s[j as int]);
                trades.push(trade_from(o, Some(c)));
            },
            None => {
                let o = work.remove(i);
                assert(o == s[i as int]);
                trades.push(trade_from(o, None));
            },
        }
        assert(trades@ =~= old_trades + seq![trades@.last()]);
        assert(trades@ + match_trades(work@) =~= match_trades(sorted));
    }
    trades
}

} // verus!
