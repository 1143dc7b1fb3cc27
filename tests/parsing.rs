use trade_journal::decimal::Decimal;
use trade_journal::error::Error;
use trade_journal::parser::{parse_transaction, parse_transactions, parse_type};
use trade_journal::transaction::{Transaction, Type};

fn dec(s: &str) -> Decimal {
    Decimal::parse(s).unwrap()
}

#[test]
fn test_parse_transaction() {
    let currency = "BTC";
    let transaction = "B,0.5,15.000000,30.0,2023-03-27T08:00:00";
    let res = parse_transaction(currency, transaction);
    assert!(res.as_ref().is_ok());
    assert_eq!(
        res.unwrap(),
        Transaction {
            currency: currency.to_string(),
            kind: Type::Bought,
            amount: dec("0.5"),
            total_value: dec("15."),
            price: dec("30."),
            timestamp: "2023-03-27T08:00:00".to_string()
        }
    );
}

#[test]
fn test_parse_transactions() {
    let currency = "BTC";
    let transactions =
        "B,0.5,15.000000,30.0,2023-01-01T08:00:00\nS,0.5,20.000000,40.0,2023-01-01T09:00:00";
    let res = parse_transactions(currency, transactions);
    assert!(res.as_ref().is_ok());
    let transactions = res.unwrap();
    assert_eq!(transactions.len(), 2);
    assert_eq!(
        transactions[0],
        Transaction {
            currency: currency.to_string(),
            kind: Type::Bought,
            amount: dec("0.5"),
            total_value: dec("15."),
            price: dec("30."),
            timestamp: "2023-01-01T08:00:00".to_string()
        }
    );
    assert_eq!(
        transactions[1],
        Transaction {
            currency: currency.to_string(),
            kind: Type::Sold,
            amount: dec("0.5"),
            total_value: dec("20."),
            price: dec("40."),
            timestamp: "2023-01-01T09:00:00".to_string()
        }
    );
}

#[test]
fn round_trip_single_row_gives_exact_fields() {
    let v = parse_transactions("BTC", "B,0.5,15.000000,30.0,2023-03-27T08:00:00").unwrap();
    assert_eq!(v.len(), 1);
    assert_eq!(v[0].currency, "BTC");
    assert_eq!(v[0].kind, Type::Bought);
    assert_eq!(v[0].amount, Decimal { nanos: 500_000_000 });
    assert_eq!(v[0].total_value, Decimal { nanos: 15_000_000_000 });
    assert_eq!(v[0].price, Decimal { nanos: 30_000_000_000 });
    assert_eq!(v[0].timestamp, "2023-03-27T08:00:00");
}

#[test]
fn two_rows_keep_source_order_and_kinds() {
    let v = parse_transactions("ETH", "S,1,2,2,t2\nB,3,6,2,t1").unwrap();
    assert_eq!(v.len(), 2);
    assert_eq!(v[0].kind, Type::Sold);
    assert_eq!(v[0].timestamp, "t2");
    assert_eq!(v[1].kind, Type::Bought);
    assert_eq!(v[1].amount, dec("3"));
    assert_eq!(v[1].currency, "ETH");
}

#[test]
fn four_fields_is_malformed() {
    let r = parse_transactions("BTC", "B,0.5,15.0,2023-01-01");
    assert_eq!(r, Err(Error::MalformedLine("B,0.5,15.0,2023-01-01".to_string())));
}

#[test]
fn six_fields_is_malformed() {
    let r = parse_transaction("BTC", "B,1,2,3,t,extra");
    assert_eq!(r, Err(Error::MalformedLine("B,1,2,3,t,extra".to_string())));
}

#[test]
fn unknown_kind_code_is_rejected() {
    let r = parse_transactions("BTC", "X,0.5,15.0,30.0,t");
    assert_eq!(r, Err(Error::UnknownKind("X".to_string())));
}

#[test]
fn empty_kind_code_is_rejected() {
    let r = parse_transaction("BTC", " ,0.5,15.0,30.0,t");
    assert_eq!(r, Err(Error::UnknownKind("".to_string())));
}

#[test]
fn non_numeric_amount_is_rejected() {
    let r = parse_transactions("BTC", "B,abc,15.0,30.0,t");
    assert_eq!(r, Err(Error::InvalidNumber("abc".to_string())));
}

#[test]
fn non_numeric_price_is_rejected() {
    let r = parse_transaction("BTC", "S,1,15.0,3x,t");
    assert_eq!(r, Err(Error::InvalidNumber("3x".to_string())));
}

#[test]
fn kind_error_comes_before_number_error() {
    let r = parse_transaction("BTC", "Q,abc,15.0,30.0,t");
    assert_eq!(r, Err(Error::UnknownKind("Q".to_string())));
}

#[test]
fn first_bad_row_aborts_the_batch() {
    let r = parse_transactions("BTC", "B,1,1,1,t1\nB,1,1\nX,1,1,1,t3");
    assert_eq!(r, Err(Error::MalformedLine("B,1,1".to_string())));
}

#[test]
fn fields_and_lines_are_trimmed() {
    let v = parse_transactions("BTC", "  B , 1.25 ,\t2.5, 2 , t1  \r\nS,1.25,3,2.4,t2\n").unwrap();
    assert_eq!(v.len(), 2);
    assert_eq!(v[0].amount, Decimal { nanos: 1_250_000_000 });
    assert_eq!(v[0].timestamp, "t1");
    assert_eq!(v[1].timestamp, "t2");
}

#[test]
fn empty_text_has_no_rows() {
    assert_eq!(parse_transactions("BTC", ""), Ok(vec![]));
}

#[test]
fn blank_line_between_rows_is_malformed() {
    let r = parse_transactions("BTC", "B,1,1,1,t1\n\nS,1,1,1,t2");
    assert_eq!(r, Err(Error::MalformedLine("".to_string())));
}

#[test]
fn kind_code_is_read_from_its_first_character() {
    assert_eq!(parse_type("Buy"), Ok(Type::Bought));
    assert_eq!(parse_type("Sell"), Ok(Type::Sold));
    assert_eq!(parse_type("b"), Err(Error::UnknownKind("b".to_string())));
    assert_eq!(parse_type(""), Err(Error::UnknownKind("".to_string())));
}

#[test]
fn decimals_accept_signs_and_bare_points() {
    assert_eq!(dec("-2.5").nanos, -2_500_000_000);
    assert_eq!(dec("+7").nanos, 7_000_000_000);
    assert_eq!(dec(".5").nanos, 500_000_000);
    assert_eq!(dec("5.").nanos, 5_000_000_000);
    assert_eq!(dec("0.000000001").nanos, 1);
    assert_eq!(dec("999999999.999999999").nanos, 999_999_999_999_999_999);
}

#[test]
fn decimals_reject_what_they_cannot_hold() {
    assert_eq!(Decimal::parse("."), None);
    assert_eq!(Decimal::parse(""), None);
    assert_eq!(Decimal::parse("-"), None);
    assert_eq!(Decimal::parse("1.2.3"), None);
    assert_eq!(Decimal::parse("1e5"), None);
    assert_eq!(Decimal::parse("1234567890"), None);
    assert_eq!(Decimal::parse("0.1234567891"), None);
    assert_eq!(Decimal::parse(" 1"), None);
}
