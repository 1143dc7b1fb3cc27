//! Keys of the transaction store: one per instrument, besides the store's own index.
use vstd::prelude::*;
use crate::error::Error;
use crate::parser::{ledger_result, parse_transactions};
use crate::text::text_equal;
use crate::transaction::Transaction;

verus! {

/// The key under which the store keeps its index rather than an instrument's rows.
pub open spec fn is_index_key(k: Seq<char>) -> bool {
    k == "currencies.index"@
}

/// The keys of `s` that name instruments, in their order.
pub open spec fn instrument_keys(s: Seq<String>) -> Seq<String>
    decreases s.len(),
{
    if s.len() == 0 {
        s
    } else {
        let p = instrument_keys(s.drop_last());
        if is_index_key(s.last()@) {
            p
        } else {
            p.push(s.last())
        }
    }
}

/// Whether `key` is the store's index key.
pub fn is_index(key: &str) -> (r: bool)
    ensures
        r == is_index_key(key@),
{
    text_equal(key, "currencies.index")
}

/// The store keys that name instruments: all but the index key, in their order.
pub fn currency_keys(keys: Vec<String>) -> (r: Vec<String>)
    ensures
        r@ == instrument_keys(keys@),
{
    let ghost orig = keys@;
    let mut input = keys;
    let mut out: Vec<String> = Vec::new();
    let n = input.len();
    let mut i: usize = 0;
    assert(orig.take(0) =~= Seq::<String>::empty());
    while i < n
        invariant
            n == orig.len(),
            i <= n,
            input@ == orig.skip(i as int),
            out@ == instrument_keys(orig.take(i as int)),
        decreases n - i,
    {
        assert(orig.skip(i as int)[0] == orig[i as int]);
        let k = input.remove(0);
        assert(input@ =~= orig.skip(i + 1));
        assert(orig.take(i + 1).drop_last() =~= orig.take(i as int));
        if !is_index(k.as_str()) {
            out.push(k);
        }
        i = i + 1;
    }
    assert(orig.take(n as int) =~= orig);
    out
}

/// The first index at or after `k` of a record keyed `key`, or `records.len()`.
pub open spec fn find_key(records: Seq<(String, String)>, key: Seq<char>, k: int) -> int
    decreases records.len() - k,
{
    if k < 0 || k >= records.len() {
        records.len() as int
    } else if records[k].0@ == key {
        k
    } else {
        find_key(records, key, k + 1)
    }
}

/// The transactions of `currency` among the store's `(key, rows)` records: those of the
/// first record keyed `currency`, or `NotFound` if none is.
pub fn transactions_in(records: &Vec<(String, String)>, currency: &str) -> (r: Result<
    Vec<Transaction>,
    Error,
>)
    ensures
        ({
            let k = find_key(records@, currency@, 0);
            if k < records@.len() {
                ledger_result(currency@, records@[k].1@, r)
            } else {
                r matches Err(Error::NotFound(c)) && c@ == currency@
            }
        }),
{
    let mut k: usize = 0;
    while k < records.len()
        invariant
            k <= records@.len(),
            find_key(records@, currency@, 0) == find_key(records@, currency@, k as int),
        decreases records@.len() - k,
    {
        if text_equal(records[k].0.as_str(), currency) {
            return parse_transactions(currency, records[k].1.as_str());
        }
        k = k + 1;
    }
    Err(Error::NotFound(currency.to_owned()))
}

} // verus!
