//! Parsing of ledger rows `kind,amount,total_value,price,timestamp`.
use vstd::prelude::*;
use vstd::string::*;
use crate::decimal::{decimal_nanos, parse_decimal_chars};
use crate::error::Error;
use crate::text::{chars_of, find_from, split_bounds, split_on, trim, trim_bounds};
use crate::transaction::{Transaction, Type};

verus! {

/// The kind that a kind code stands for: its first character `B` or `S`.
pub open spec fn kind_of(f: Seq<char>) -> Option<Type> {
    if f.len() > 0 && f[0] == 'B' {
        Some(Type::Bought)
    } else if f.len() > 0 && f[0] == 'S' {
        Some(Type::Sold)
    } else {
        None
    }
}

/// The comma-separated fields of a row, each trimmed.
pub open spec fn fields_of(line: Seq<char>) -> Seq<Seq<char>> {
    split_on(line, ',').map_values(|f: Seq<char>| trim(f))
}

/// A row is valid when it has five fields, a known kind code and three decimals.
pub open spec fn row_is_valid(line: Seq<char>) -> bool {
    let fs = fields_of(line);
    &&& fs.len() == 5
    &&& kind_of(fs[0]) is Some
    &&& decimal_nanos(fs[1]) is Some
    &&& decimal_nanos(fs[2]) is Some
    &&& decimal_nanos(fs[3]) is Some
}

/// `t` is what the valid row `line` of instrument `currency` describes.
pub open spec fn row_value(currency: Seq<char>, line: Seq<char>, t: Transaction) -> bool {
    let fs = fields_of(line);
    &&& t.currency@ == currency
    &&& t.kind == kind_of(fs[0])->0
    &&& t.amount.nanos == decimal_nanos(fs[1])->0
    &&& t.total_value.nanos == decimal_nanos(fs[2])->0
    &&& t.price.nanos == decimal_nanos(fs[3])->0
    &&& t.timestamp@ == fs[4]
}

/// `e` is the error for the invalid row `line`: the first of its faults, in field order.
pub open spec fn row_error(line: Seq<char>, e: Error) -> bool {
    let fs = fields_of(line);
    if fs.len() != 5 {
        e matches Error::MalformedLine(l) && l@ == line
    } else if kind_of(fs[0]) is None {
        e matches Error::UnknownKind(f) && f@ == fs[0]
    } else if decimal_nanos(fs[1]) is None {
        e matches Error::InvalidNumber(f) && f@ == fs[1]
    } else if decimal_nanos(fs[2]) is None {
        e matches Error::InvalidNumber(f) && f@ == fs[2]
    } else {
        e matches Error::InvalidNumber(f) && f@ == fs[3]
    }
}

pub open spec fn row_result(currency: Seq<char>, line: Seq<char>, r: Result<Transaction, Error>) -> bool {
    match r {
        Ok(t) => row_is_valid(line) && row_value(currency, line, t),
        Err(e) => !row_is_valid(line) && row_error(line, e),
    }
}

/// The rows of a ledger text: its lines, each trimmed. A final line break ends the last
/// line and starts no new one.
pub open spec fn rows_of(s: Seq<char>) -> Seq<Seq<char>> {
    if s.len() == 0 {
        Seq::empty()
    } else {
        let pieces = split_on(s, '\n');
        let lines = if s.last() == '\n' {
            pieces.drop_last()
        } else {
            pieces
        };
        lines.map_values(|l: Seq<char>| trim(l))
    }
}

/// `r` is the outcome of parsing the ledger text `raw` of instrument `currency`: every
/// row's transaction if all rows are valid, else the error of the first invalid row.
pub open spec fn ledger_result(
    currency: Seq<char>,
    raw: Seq<char>,
    r: Result<Vec<Transaction>, Error>,
) -> bool {
    match r {
        Ok(v) => {
            &&& v@.len() == rows_of(raw).len()
            &&& forall|i: int|
                0 <= i < v@.len() ==> row_is_valid(#[trigger] rows_of(raw)[i]) && row_value(
                    currency,
                    rows_of(raw)[i],
                    v@[i],
                )
        },
        Err(e) => exists|k: int|
            0 <= k < rows_of(raw).len() && (forall|i: int|
                0 <= i < k ==> row_is_valid(#[trigger] rows_of(raw)[i])) && !row_is_valid(
                rows_of(raw)[k],
            ) && row_error(rows_of(raw)[k], e),
    }
}

/// Reads a kind code: `B` for a purchase, `S` for a sale, by its first character.
pub fn parse_type(value: &str) -> (r: Result<Type, Error>)
    ensures
        match kind_of(value@) {
            Some(k) => r == Ok::<Type, Error>(k),
            None => r matches Err(Error::UnknownKind(f)) && f@ == value@,
        },
{
    if value.unicode_len() > 0 {
        let c = value.get_char(0);
        if c == 'B' {
            return Ok(Type::Bought);
        } else if c == 'S' {
            return Ok(Type::Sold);
        }
    }
    Err(Error::UnknownKind(value.to_owned()))
}

/// Parses the row `cs[lo..hi]`, where `cs` holds the characters of `raw`.
fn parse_row(currency: &str, raw: &str, cs: &Vec<char>, lo: usize, hi: usize) -> (r: Result<
    Transaction,
    Error,
>)
    requires
        cs@ == raw@,
        lo <= hi <= cs@.len(),
    ensures
        row_result(currency@, cs@.subrange(lo as int, hi as int), r),
{
    let ghost line = cs@.subrange(lo as int, hi as int);
    let parts = split_bounds(cs, lo, hi, ',');
    if parts.len() != 5 {
        return Err(Error::MalformedLine(raw.substring_char(lo, hi).to_owned()));
    }
    let ghost fs = fields_of(line);
    let ghost sp = split_on(line, ',');
    let mut bounds: Vec<(usize, usize)> = Vec::new();
    let mut i: usize = 0;
    while i < 5
        invariant
            parts@.len() == 5,
            sp.len() == 5,
            fs == sp.map_values(|f: Seq<char>| trim(f)),
            lo <= hi <= cs@.len(),
            i <= 5,
            bounds@.len() == i,
            forall|j: int|
                0 <= j < parts@.len() ==> {
                    &&& lo <= (#[trigger] parts@[j]).0 <= parts@[j].1 <= hi
                    &&& cs@.subrange(parts@[j].0 as int, parts@[j].1 as int) == sp[j]
                },
            forall|j: int|
                0 <= j < i ==> {
                    &&& (#[trigger] bounds@[j]).0 <= bounds@[j].1 <= cs@.len()
                    &&& cs@.subrange(bounds@[j].0 as int, bounds@[j].1 as int) == fs[j]
                },
        decreases 5 - i,
    {
        let b = trim_bounds(cs, parts[i].0, parts[i].1);
        bounds.push(b);
        i = i + 1;
    }
    let kind = match parse_type(raw.substring_char(bounds[0].0, bounds[0].1)) {
        Ok(k) => k,
        Err(e) => return Err(e),
    };
    let amount = match parse_decimal_chars(cs, bounds[1].0, bounds[1].1) {
        Some(d) => d,
        None => return Err(Error::InvalidNumber(raw.substring_char(bounds[1].0, bounds[1].1).to_owned())),
    };
    let total_value = match parse_decimal_chars(cs, bounds[2].0, bounds[2].1) {
        Some(d) => d,
        None => return Err(Error::InvalidNumber(raw.substring_char(bounds[2].0, bounds[2].1).to_owned())),
    };
    let price = match parse_decimal_chars(cs, bounds[3].0, bounds[3].1) {
        Some(d) => d,
        None => return Err(Error::InvalidNumber(raw.substring_char(bounds[3].0, bounds[3].1).to_owned())),
    };
    Ok(Transaction {
        currency: currency.to_owned(),
        kind,
        amount,
        total_value,
        price,
        timestamp: raw.substring_char(bounds[4].0, bounds[4].1).to_owned(),
    })
}

/// Parses one row of instrument `currency`.
pub fn parse_transaction(currency: &str, line: &str) -> (r: Result<Transaction, Error>)
    ensures
        row_result(currency@, line@, r),
{
    let cs = chars_of(line);
    assert(cs@.subrange(0, cs@.len() as int) =~= line@);
    parse_row(currency, line, &cs, 0, cs.len())
}

/// Parses every row of the ledger text `raw` of instrument `currency`: all of them, or
/// the error of the first invalid row.
pub fn parse_transactions(currency: &str, raw: &str) -> (r: Result<Vec<Transaction>, Error>)
    ensures
        ledger_result(currency@, raw@, r),
{
    let cs = chars_of(raw);
    let n = cs.len();
    let mut out: Vec<Transaction> = Vec::new();
    if n == 0 {
        return Ok(out);
    }
    let ghost rows = rows_of(raw@);
    assert(cs@.subrange(0, n as int) =~= raw@);
    let pieces = split_bounds(&cs, 0, n, '\n');
    let count = if cs[n - 1] == '\n' {
        pieces.len() - 1
    } else {
        pieces.len()
    };
    assert(rows.len() == count);
    let mut i: usize = 0;
    while i < count
        invariant
            cs@ == raw@,
            n == cs@.len(),
            n > 0,
            rows == rows_of(raw@),
            rows.len() == count,
            count <= pieces@.len(),
            pieces@.len() == split_on(raw@, '\n').len(),
            forall|j: int|
                0 <= j < pieces@.len() ==> {
                    &&& 0 <= (#[trigger] pieces@[j]).0 <= pieces@[j].1 <= n
                    &&& cs@.subrange(pieces@[j].0 as int, pieces@[j].1 as int) == split_on(
                        raw@,
                        '\n',
                    )[j]
                },
            i <= count,
            out@.len() == i,
            forall|j: int|
                0 <= j < i ==> row_is_valid(#[trigger] rows[j]) && row_value(
                    currency@,
                    rows[j],
                    out@[j],
                ),
        decreases count - i,
    {
        let (a, b) = trim_bounds(&cs, pieces[i].0, pieces[i].1);
        assert(cs@.subrange(a as int, b as int) == rows[i as int]);
        match parse_row(currency, raw, &cs, a, b) {
            Ok(t) => {
                out.push(t);
            },
            Err(e) => {
                return Err(e);
            },
        }
        i = i + 1;
    }
    Ok(out)
}

proof fn lemma_find_from_first(s: Seq<char>, c: char, k: int, stop: int)
    requires
        0 <= k <= stop <= s.len(),
        forall|m: int| k <= m < stop ==> s[m] != c,
        stop == s.len() || s[stop] == c,
    ensures
        find_from(s, c, k) == stop,
    decreases stop - k,
{
    if k < stop {
        lemma_find_from_first(s, c, k + 1, stop);
    }
}

/// Two lines joined by a line break are two rows, in their order: parsing such a text
/// yields, when both rows are valid, the first row's transaction, then the second's.
pub proof fn lemma_two_rows(a: Seq<char>, b: Seq<char>)
    requires
        forall|i: int| 0 <= i < a.len() ==> a[i] != '\n',
        forall|i: int| 0 <= i < b.len() ==> b[i] != '\n',
        b.len() > 0,
    ensures
        rows_of(a + seq!['\n'] + b) == seq![trim(a), trim(b)],
{
    let s = a + seq!['\n'] + b;
    lemma_find_from_first(s, '\n', 0, a.len() as int);
    lemma_find_from_first(b, '\n', 0, b.len() as int);
    assert(s.take(a.len() as int) =~= a);
    assert(s.skip(a.len() as int + 1) =~= b);
    assert(split_on(b, '\n') == seq![b]);
    assert(split_on(s, '\n') =~= seq![a, b]);
    assert(s.last() == b.last());
    assert(rows_of(s) =~= seq![trim(a), trim(b)]);
}

} // verus!
