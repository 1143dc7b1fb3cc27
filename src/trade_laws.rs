//! Properties of trade reconstruction, proved over the specification of `analyze`.
use vstd::prelude::*;
use crate::trade::{gain_of, Ratio, Trade};
use crate::trade_computer::{
    lemma_find_bought, lemma_find_closing,
    closes, details_of, find_bought, find_closing, insert_by_key, key_lt, match_trades, sorted_by_key,
    text_lt, trade_of, within_tolerance,
};
use crate::transaction::{Transaction, Type};

verus! {

/// Every element of `a` is an element of `b`.
pub open spec fn drawn_from(a: Seq<Transaction>, b: Seq<Transaction>) -> bool {
    forall|j: int| 0 <= j < a.len() ==> b.contains(#[trigger] a[j])
}

/// `s` is in order of instrument, then timestamp.
pub open spec fn is_sorted_by_key(s: Seq<Transaction>) -> bool {
    forall|i: int, j: int| 0 <= i < j < s.len() ==> !key_lt(#[trigger] s[j], #[trigger] s[i])
}

proof fn lemma_text_lt_transitive(a: Seq<char>, b: Seq<char>, c: Seq<char>)
    requires
        text_lt(a, b),
        text_lt(b, c),
    ensures
        text_lt(a, c),
    decreases a.len(),
{
    if a.len() > 0 && b.len() > 0 && c.len() > 0 && a[0] == b[0] && b[0] == c[0] {
        lemma_text_lt_transitive(a.drop_first(), b.drop_first(), c.drop_first());
    }
}

proof fn lemma_text_lt_irreflexive(a: Seq<char>)
    ensures
        !text_lt(a, a),
    decreases a.len(),
{
    if a.len() > 0 {
        lemma_text_lt_irreflexive(a.drop_first());
    }
}

proof fn lemma_key_lt_transitive(x: Transaction, y: Transaction, z: Transaction)
    requires
        key_lt(x, y),
        key_lt(y, z),
    ensures
        key_lt(x, z),
{
    if text_lt(x.currency@, y.currency@) && text_lt(y.currency@, z.currency@) {
        lemma_text_lt_transitive(x.currency@, y.currency@, z.currency@);
    } else if x.currency@ == y.currency@ && y.currency@ == z.currency@ {
        lemma_text_lt_transitive(x.timestamp@, y.timestamp@, z.timestamp@);
    }
}

proof fn lemma_insert_keeps_order(s: Seq<Transaction>, x: Transaction)
    requires
        is_sorted_by_key(s),
    ensures
        is_sorted_by_key(insert_by_key(s, x)),
        insert_by_key(s, x).len() == s.len() + 1,
        drawn_from(insert_by_key(s, x), s.push(x)),
    decreases s.len(),
{
    let r = insert_by_key(s, x);
    if s.len() == 0 {
        assert(s.push(x)[0] == x);
    } else if key_lt(x, s[0]) {
        assert forall|i: int, j: int| 0 <= i < j < r.len() implies !key_lt(
            #[trigger] r[j],
            #[trigger] r[i],
        ) by {
            assert(r == seq![x] + s);
            if i == 0 {
                assert(r[j] == s[j - 1]);
                if key_lt(r[j], x) {
                    if j - 1 > 0 {
                        assert(!key_lt(s[j - 1], s[0]));
                    } else {
                        lemma_text_lt_irreflexive(s[0].currency@);
                        lemma_text_lt_irreflexive(s[0].timestamp@);
                    }
                    lemma_key_lt_transitive(r[j], x, s[0]);
                }
            } else {
                assert(r[i] == s[i - 1] && r[j] == s[j - 1]);
            }
        }
        assert forall|j: int| 0 <= j < r.len() implies s.push(x).contains(#[trigger] r[j]) by {
            assert(r == seq![x] + s);
            if j == 0 {
                assert(r[j] == s.push(x)[s.len() as int]);
            } else {
                assert(r[j] == s.push(x)[j - 1]);
            }
        }
    } else {
        let rest = s.drop_first();
        assert(is_sorted_by_key(rest)) by {
            assert forall|i: int, j: int| 0 <= i < j < rest.len() implies !key_lt(
                #[trigger] rest[j],
                #[trigger] rest[i],
            ) by {
                assert(rest[j] == s[j + 1] && rest[i] == s[i + 1]);
            }
        }
        lemma_insert_keeps_order(rest, x);
        let t = insert_by_key(rest, x);
        assert(r == seq![s[0]] + t);
        assert forall|i: int, j: int| 0 <= i < j < r.len() implies !key_lt(
            #[trigger] r[j],
            #[trigger] r[i],
        ) by {
            if i == 0 {
                assert(r[j] == t[j - 1]);
                let k = choose|k: int| 0 <= k < rest.push(x).len() && t[j - 1] == rest.push(x)[k];
                if k < rest.len() {
                    assert(rest.push(x)[k] == s[k + 1]);
                } else {
                    assert(rest.push(x)[k] == x);
                }
            } else {
                assert(r[i] == t[i - 1] && r[j] == t[j - 1]);
            }
        }
        assert forall|j: int| 0 <= j < r.len() implies s.push(x).contains(#[trigger] r[j]) by {
            if j == 0 {
                assert(r[j] == s.push(x)[0]);
            } else {
                let k = choose|k: int| 0 <= k < rest.push(x).len() && t[j - 1] == rest.push(x)[k];
                assert(r[j] == t[j - 1]);
                assert(rest.push(x)[k] == s.push(x)[k + 1]);
            }
        }
    }
}

/// Sorting by key orders the transactions and keeps only transactions of the input.
pub proof fn lemma_sorted_by_key(s: Seq<Transaction>)
    ensures
        is_sorted_by_key(sorted_by_key(s)),
        sorted_by_key(s).len() == s.len(),
        drawn_from(sorted_by_key(s), s),
    decreases s.len(),
{
    if s.len() > 0 {
        let p = s.drop_last();
        lemma_sorted_by_key(p);
        let q = sorted_by_key(p);
        lemma_insert_keeps_order(q, s.last());
        let r = sorted_by_key(s);
        assert forall|j: int| 0 <= j < r.len() implies s.contains(#[trigger] r[j]) by {
            let k = choose|k: int| 0 <= k < q.push(s.last()).len() && r[j] == q.push(s.last())[k];
            if k < q.len() {
                let m = choose|m: int| 0 <= m < p.len() && q[k] == p[m];
                assert(r[j] == s[m]);
            } else {
                assert(r[j] == s[s.len() - 1]);
            }
        }
    }
}

proof fn lemma_no_closing_among_purchases(s: Seq<Transaction>, o: Transaction, k: int)
    requires
        0 <= k <= s.len(),
        forall|i: int| 0 <= i < s.len() ==> (#[trigger] s[i]).kind == Type::Bought,
    ensures
        find_closing(s, o, k) == s.len(),
    decreases s.len() - k,
{
    if k < s.len() {
        lemma_no_closing_among_purchases(s, o, k + 1);
    }
}

proof fn lemma_purchases_open(s: Seq<Transaction>)
    requires
        forall|i: int| 0 <= i < s.len() ==> (#[trigger] s[i]).kind == Type::Bought,
    ensures
        match_trades(s) == s.map_values(|t: Transaction| trade_of(t, None)),
    decreases s.len(),
{
    if s.len() == 0 {
        assert(match_trades(s) =~= s.map_values(|t: Transaction| trade_of(t, None)));
    } else {
        lemma_no_closing_among_purchases(s, s[0], 0);
        let rest = s.remove(0);
        assert forall|i: int| 0 <= i < rest.len() implies (#[trigger] rest[i]).kind
            == Type::Bought by {
            assert(rest[i] == s[i + 1]);
        }
        lemma_purchases_open(rest);
        assert(s.map_values(|t: Transaction| trade_of(t, None)) =~= seq![trade_of(s[0], None)]
            + rest.map_values(|t: Transaction| trade_of(t, None)));
    }
}

/// A ledger of purchases only gives one open trade per purchase, each opened by that
/// purchase, in order of instrument, then timestamp.
pub proof fn lemma_purchases_give_open_trades(s: Seq<Transaction>)
    requires
        forall|i: int| 0 <= i < s.len() ==> (#[trigger] s[i]).kind == Type::Bought,
    ensures
        match_trades(sorted_by_key(s)) == sorted_by_key(s).map_values(
            |t: Transaction| trade_of(t, None),
        ),
        sorted_by_key(s).len() == s.len(),
        drawn_from(sorted_by_key(s), s),
        is_sorted_by_key(sorted_by_key(s)),
{
    lemma_sorted_by_key(s);
    let r = sorted_by_key(s);
    assert forall|i: int| 0 <= i < r.len() implies (#[trigger] r[i]).kind == Type::Bought by {
        let k = choose|k: int| 0 <= k < s.len() && r[i] == s[k];
    }
    lemma_purchases_open(r);
}

/// The ledger of one purchase and one sale, in either order.
proof fn lemma_sorted_pair(b: Transaction, t: Transaction)
    ensures
        sorted_by_key(seq![b, t]) == if key_lt(t, b) {
            seq![t, b]
        } else {
            seq![b, t]
        },
{
    assert(seq![b, t].drop_last() =~= seq![b]);
    assert(seq![b].drop_last() =~= Seq::<Transaction>::empty());
    reveal_with_fuel(sorted_by_key, 3);
    reveal_with_fuel(insert_by_key, 3);
    assert(sorted_by_key(seq![b]) == seq![b]);
    assert(seq![b].drop_first() =~= Seq::<Transaction>::empty());
    assert(seq![t] + seq![b] =~= seq![t, b]);
    assert(seq![b] + seq![t] =~= seq![b, t]);
}

/// A purchase and a sale of the same instrument and the same positive amount make one
/// closed trade, whose gain is the sale's total value less the purchase's, over the
/// purchase's.
pub proof fn lemma_matching_pair(b: Transaction, t: Transaction)
    requires
        b.kind == Type::Bought,
        t.kind == Type::Sold,
        b.currency@ == t.currency@,
        t.amount == b.amount,
        b.amount.nanos > 0,
    ensures
        match_trades(sorted_by_key(seq![b, t])) == seq![trade_of(b, Some(t))],
        gain_of(details_of(b), details_of(t)) == (Ratio {
            numerator: (t.total_value.nanos - b.total_value.nanos) as i128,
            denominator: b.total_value.nanos as i128,
        }),
{
    lemma_sorted_pair(b, t);
    reveal_with_fuel(find_bought, 3);
    reveal_with_fuel(find_closing, 3);
    assert(closes(t, b));
    let s = sorted_by_key(seq![b, t]);
    if key_lt(t, b) {
        assert(find_bought(s, 0) == 1);
        assert(find_closing(s, b, 0) == 0);
        assert(s.remove(1).remove(0) =~= Seq::<Transaction>::empty());
    } else {
        assert(find_bought(s, 0) == 0);
        assert(find_closing(s, b, 0) == 1);
        assert(s.remove(1).remove(0) =~= Seq::<Transaction>::empty());
    }
    assert(match_trades(Seq::<Transaction>::empty()) == Seq::<crate::trade::Trade>::empty());
    assert(match_trades(s) =~= seq![trade_of(b, Some(t))]);
}

/// A sale whose amount differs from a purchase's by exactly a thousandth of the purchase's
/// amount does not close it: the purchase stays open and the sale is dropped.
pub proof fn lemma_boundary_sale_does_not_close(b: Transaction, t: Transaction)
    requires
        b.kind == Type::Bought,
        t.kind == Type::Sold,
        b.currency@ == t.currency@,
        (t.amount.nanos - b.amount.nanos) * 1000 == b.amount.nanos || (b.amount.nanos
            - t.amount.nanos) * 1000 == b.amount.nanos,
    ensures
        !within_tolerance(t.amount, b.amount),
        match_trades(sorted_by_key(seq![b, t])) == seq![trade_of(b, None)],
{
    lemma_sorted_pair(b, t);
    reveal_with_fuel(find_bought, 3);
    reveal_with_fuel(find_closing, 3);
    assert(!closes(t, b));
    let s = sorted_by_key(seq![b, t]);
    if key_lt(t, b) {
        assert(find_bought(s, 0) == 1);
        assert(s.remove(1) =~= seq![t]);
    } else {
        assert(find_bought(s, 0) == 0);
        assert(s.remove(0) =~= seq![t]);
    }
    assert(find_bought(seq![t], 0) == 1);
    assert(match_trades(seq![t]) == Seq::<crate::trade::Trade>::empty());
    assert(match_trades(s) =~= seq![trade_of(b, None)]);
}

proof fn lemma_drawn_after_remove(s: Seq<Transaction>, j: int)
    requires
        0 <= j < s.len(),
    ensures
        drawn_from(s.remove(j), s),
{
    let r = s.remove(j);
    assert forall|m: int| 0 <= m < r.len() implies s.contains(#[trigger] r[m]) by {
        if m < j {
            assert(r[m] == s[m]);
        } else {
            assert(r[m] == s[m + 1]);
        }
    }
}

proof fn lemma_drawn_transitive(a: Seq<Transaction>, b: Seq<Transaction>, c: Seq<Transaction>)
    requires
        drawn_from(a, b),
        drawn_from(b, c),
    ensures
        drawn_from(a, c),
{
    assert forall|m: int| 0 <= m < a.len() implies c.contains(#[trigger] a[m]) by {
        let k = choose|k: int| 0 <= k < b.len() && a[m] == b[k];
        let l = choose|l: int| 0 <= l < c.len() && b[k] == c[l];
    }
}

/// `tr` is opened by a purchase in `s`, and closed, if at all, by a sale in `s` of the
/// same instrument.
pub open spec fn drawn_from_ledger(tr: Trade, s: Seq<Transaction>) -> bool {
    &&& exists|i: int|
        0 <= i < s.len() && (#[trigger] s[i]).kind == Type::Bought && s[i].currency@
            == tr.currency@ && tr.opening_details == details_of(s[i])
    &&& (tr.closing_details is Some ==> exists|j: int|
        0 <= j < s.len() && (#[trigger] s[j]).kind == Type::Sold && s[j].currency@
            == tr.currency@ && tr.closing_details == Some(details_of(s[j])))
}

proof fn lemma_drawn_from_larger_ledger(tr: Trade, a: Seq<Transaction>, b: Seq<Transaction>)
    requires
        drawn_from_ledger(tr, a),
        drawn_from(a, b),
    ensures
        drawn_from_ledger(tr, b),
{
    let i = choose|i: int|
        0 <= i < a.len() && (#[trigger] a[i]).kind == Type::Bought && a[i].currency@
            == tr.currency@ && tr.opening_details == details_of(a[i]);
    assert(b.contains(a[i]));
    let k = choose|k: int| 0 <= k < b.len() && b[k] == a[i];
    assert(b[k].kind == Type::Bought);
    if tr.closing_details is Some {
        let j = choose|j: int|
            0 <= j < a.len() && (#[trigger] a[j]).kind == Type::Sold && a[j].currency@
                == tr.currency@ && tr.closing_details == Some(details_of(a[j]));
        assert(b.contains(a[j]));
        let l = choose|l: int| 0 <= l < b.len() && b[l] == a[j];
        assert(b[l].kind == Type::Sold);
    }
}

/// Every trade of `match_trades(s)` is drawn from `s`.
proof fn lemma_trades_drawn_from(s: Seq<Transaction>)
    ensures
        forall|m: int|
            0 <= m < match_trades(s).len() ==> drawn_from_ledger(#[trigger] match_trades(s)[m], s),
    decreases s.len(),
{
    let i = find_bought(s, 0);
    lemma_find_bought(s, 0);
    if 0 <= i < s.len() {
        let o = s[i];
        let j = find_closing(s, o, 0);
        lemma_find_closing(s, o, 0);
        let rest = if 0 <= j < s.len() && j != i {
            if i < j {
                lemma_drawn_after_remove(s, j);
                lemma_drawn_after_remove(s.remove(j), i);
                lemma_drawn_transitive(s.remove(j).remove(i), s.remove(j), s);
                s.remove(j).remove(i)
            } else {
                lemma_drawn_after_remove(s, i);
                lemma_drawn_after_remove(s.remove(i), j);
                lemma_drawn_transitive(s.remove(i).remove(j), s.remove(i), s);
                s.remove(i).remove(j)
            }
        } else {
            lemma_drawn_after_remove(s, i);
            s.remove(i)
        };
        lemma_trades_drawn_from(rest);
        let ts = match_trades(s);
        assert(ts == seq![ts[0]] + match_trades(rest));
        assert forall|m: int| 0 <= m < ts.len() implies drawn_from_ledger(#[trigger] ts[m], s) by {
            if m == 0 {
                assert(s[i].kind == Type::Bought);
                if 0 <= j < s.len() && j != i {
                    assert(closes(s[j], o));
                    assert(s[j].kind == Type::Sold);
                }
            } else {
                assert(ts[m] == match_trades(rest)[m - 1]);
                lemma_drawn_from_larger_ledger(ts[m], rest, s);
            }
        }
    }
}

/// Every trade of a ledger is opened by one of its purchases and closed, if at all, by one
/// of its sales of the same instrument.
pub proof fn lemma_trades_come_from_ledger(s: Seq<Transaction>)
    ensures
        forall|m: int|
            0 <= m < match_trades(sorted_by_key(s)).len() ==> drawn_from_ledger(
                #[trigger] match_trades(sorted_by_key(s))[m],
                s,
            ),
{
    let r = sorted_by_key(s);
    lemma_sorted_by_key(s);
    lemma_trades_drawn_from(r);
    assert forall|m: int| 0 <= m < match_trades(r).len() implies drawn_from_ledger(
        #[trigger] match_trades(r)[m],
        s,
    ) by {
        lemma_drawn_from_larger_ledger(match_trades(r)[m], r, s);
    }
}

/// A sale of an instrument that no purchase in the ledger is of yields no trade: no trade
/// is of its instrument, so it is neither the opening nor the closing of any.
pub proof fn lemma_unmatched_sale_is_dropped(s: Seq<Transaction>, k: int)
    requires
        0 <= k < s.len(),
        s[k].kind == Type::Sold,
        forall|i: int|
            0 <= i < s.len() && (#[trigger] s[i]).kind == Type::Bought ==> s[i].currency@
                != s[k].currency@,
    ensures
        forall|m: int|
            0 <= m < match_trades(sorted_by_key(s)).len() ==> (#[trigger] match_trades(
                sorted_by_key(s),
            )[m]).currency@ != s[k].currency@,
{
    lemma_trades_come_from_ledger(s);
    assert forall|m: int| 0 <= m < match_trades(sorted_by_key(s)).len() implies (
    #[trigger] match_trades(sorted_by_key(s))[m]).currency@ != s[k].currency@ by {
        let tr = match_trades(sorted_by_key(s))[m];
        assert(drawn_from_ledger(tr, s));
        let i = choose|i: int|
            0 <= i < s.len() && (#[trigger] s[i]).kind == Type::Bought && s[i].currency@
                == tr.currency@ && tr.opening_details == details_of(s[i]);
    }
}

} // verus!
