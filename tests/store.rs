use trade_journal::error::Error;
use trade_journal::store::{currency_keys, is_index, transactions_in};
use trade_journal::transaction::Type;

#[test]
fn index_key_is_left_out_of_currencies() {
    let keys = vec!["BTC".to_string(), "currencies.index".to_string(), "ETH".to_string()];
    assert_eq!(currency_keys(keys), vec!["BTC".to_string(), "ETH".to_string()]);
}

#[test]
fn only_the_exact_index_key_is_recognised() {
    assert!(is_index("currencies.index"));
    assert!(!is_index("currencies.inde"));
    assert!(!is_index("currencies.indexes"));
    assert!(!is_index(""));
}

#[test]
fn lookup_parses_the_matching_record() {
    let records = vec![
        ("ETH".to_string(), "B,1,2,2,t1".to_string()),
        ("BTC".to_string(), "S,0.5,20,40,t2\nB,0.5,15,30,t1".to_string()),
    ];
    let v = transactions_in(&records, "BTC").unwrap();
    assert_eq!(v.len(), 2);
    assert_eq!(v[0].kind, Type::Sold);
    assert_eq!(v[0].currency, "BTC");
    assert_eq!(v[1].timestamp, "t1");
}

#[test]
fn lookup_of_absent_instrument_is_not_found() {
    let records = vec![("ETH".to_string(), "B,1,2,2,t1".to_string())];
    assert_eq!(transactions_in(&records, "BTC"), Err(Error::NotFound("BTC".to_string())));
}

#[test]
fn lookup_reports_parse_errors_of_the_record() {
    let records = vec![("BTC".to_string(), "B,1,2,t1".to_string())];
    assert_eq!(
        transactions_in(&records, "BTC"),
        Err(Error::MalformedLine("B,1,2,t1".to_string()))
    );
}
