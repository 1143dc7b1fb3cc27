use trade_journal::decimal::Decimal;
use trade_journal::trade::{Details, Ratio, Trade};
use trade_journal::trade_computer::{analyze, text_less};
use trade_journal::transaction::{Transaction, Type};

fn dec(s: &str) -> Decimal {
    Decimal::parse(s).unwrap()
}

fn tx(currency: &str, kind: Type, amount: &str, total: &str, price: &str, ts: &str) -> Transaction {
    Transaction {
        currency: currency.to_string(),
        kind,
        amount: dec(amount),
        total_value: dec(total),
        price: dec(price),
        timestamp: ts.to_string(),
    }
}

fn compare(transaction: &Transaction, trade_details: &Details) -> bool {
    trade_details.amount == transaction.amount
        && trade_details.total_value == transaction.total_value
        && trade_details.price == transaction.price
        && trade_details.timestamp == transaction.timestamp
}

#[test]
fn test_open_trade() {
    let trade = Trade {
        currency: "BTC".to_string(),
        opening_details: Details {
            amount: dec("0.5"),
            total_value: dec("30."),
            price: dec("60.0"),
            timestamp: "2023-01-01T08:00:00".to_string(),
        },
        closing_details: None,
    };
    assert!(trade.is_open());
    assert!(!trade.is_closed());
    assert!(trade.result().is_none());
}

#[test]
fn test_closed_trade() {
    let trade = Trade {
        currency: "BTC".to_string(),
        opening_details: Details {
            amount: dec("0.5"),
            total_value: dec("30."),
            price: dec("60.0"),
            timestamp: "2023-01-01T08:00:00".to_string(),
        },
        closing_details: Some(Details {
            amount: dec("0.5"),
            total_value: dec("40."),
            price: dec("80.0"),
            timestamp: "2023-01-01T09:00:00".to_string(),
        }),
    };
    assert!(!trade.is_open());
    assert!(trade.is_closed());
    let result = trade.result();
    assert!(result.is_some());
    let r = result.unwrap();
    assert_eq!(r.numerator as f64 / r.denominator as f64, 1. / 3.);
}

#[test]
fn test_empty_input() {
    assert!(analyze(vec![]).is_empty());
}

#[test]
fn test_with_open_trades_only() {
    let transactions = vec![
        tx("BTC", Type::Bought, "1.0", "10.0", "10.0", "timestamp1"),
        tx("ETH", Type::Bought, "2.0", "40.0", "20.0", "timestamp2"),
    ];
    let trades = analyze(transactions.clone());
    assert_eq!(trades.len(), 2);

    assert_eq!(&trades[0].currency, &transactions[0].currency);
    assert!(compare(&transactions[0], &trades[0].opening_details));
    assert!(&trades[0].closing_details.is_none());

    assert_eq!(&trades[1].currency, &transactions[1].currency);
    assert!(compare(&transactions[1], &trades[1].opening_details));
    assert!(&trades[1].closing_details.is_none());
}

#[test]
fn test_with_closed_trades_only() {
    let transactions = vec![
        tx("BTC", Type::Bought, "1.0", "10.0", "10.0", "timestamp1"),
        tx("ETH", Type::Bought, "2.0", "40.0", "20.0", "timestamp3"),
        tx("BTC", Type::Sold, "1.0", "15.0", "15.0", "timestamp2"),
        tx("ETH", Type::Sold, "2.0", "30.0", "15.0", "timestamp4"),
    ];
    let trades = analyze(transactions.clone());
    assert_eq!(trades.len(), 2);

    assert_eq!(&trades[0].currency, &transactions[0].currency);
    assert!(compare(&transactions[0], &trades[0].opening_details));
    assert!(&trades[0].is_closed());
    assert!(compare(&transactions[2], &trades[0].closing_details.as_ref().unwrap()));

    assert_eq!(&trades[1].currency, &transactions[1].currency);
    assert!(compare(&transactions[1], &trades[1].opening_details));
    assert!(&trades[1].is_closed());
    assert!(compare(&transactions[3], &trades[1].closing_details.as_ref().unwrap()));
}

#[test]
fn purchases_only_come_out_sorted_by_instrument_then_time() {
    let transactions = vec![
        tx("ETH", Type::Bought, "1", "1", "1", "t2"),
        tx("BTC", Type::Bought, "2", "2", "1", "t9"),
        tx("ETH", Type::Bought, "3", "3", "1", "t1"),
    ];
    let trades = analyze(transactions.clone());
    assert_eq!(trades.len(), 3);
    assert_eq!(trades[0].currency, "BTC");
    assert!(compare(&transactions[1], &trades[0].opening_details));
    assert_eq!(trades[1].currency, "ETH");
    assert!(compare(&transactions[2], &trades[1].opening_details));
    assert!(compare(&transactions[0], &trades[2].opening_details));
    assert!(trades.iter().all(|t| t.is_open()));
}

#[test]
fn matching_pair_gives_closed_trade_and_its_gain() {
    let b = tx("BTC", Type::Bought, "0.5", "30", "60", "2023-01-01T08:00:00");
    let s = tx("BTC", Type::Sold, "0.5", "40", "80", "2023-01-01T09:00:00");
    let trades = analyze(vec![s.clone(), b.clone()]);
    assert_eq!(trades.len(), 1);
    assert!(compare(&b, &trades[0].opening_details));
    assert!(compare(&s, trades[0].closing_details.as_ref().unwrap()));
    assert_eq!(
        trades[0].result(),
        Some(Ratio { numerator: 10_000_000_000, denominator: 30_000_000_000 })
    );
}

#[test]
fn sale_exactly_a_thousandth_away_does_not_close() {
    let b = tx("BTC", Type::Bought, "1.0", "10", "10", "t1");
    let s = tx("BTC", Type::Sold, "1.001", "12", "12", "t2");
    let trades = analyze(vec![b.clone(), s]);
    assert_eq!(trades.len(), 1);
    assert!(trades[0].is_open());
    assert!(compare(&b, &trades[0].opening_details));

    let below = tx("BTC", Type::Sold, "0.999", "12", "12", "t2");
    let trades = analyze(vec![b.clone(), below]);
    assert_eq!(trades.len(), 1);
    assert!(trades[0].is_open());
}

#[test]
fn sale_just_within_a_thousandth_closes() {
    let b = tx("BTC", Type::Bought, "1.0", "10", "10", "t1");
    let s = tx("BTC", Type::Sold, "1.000999999", "12", "12", "t2");
    let trades = analyze(vec![b, s.clone()]);
    assert_eq!(trades.len(), 1);
    assert!(compare(&s, trades[0].closing_details.as_ref().unwrap()));
}

#[test]
fn sale_without_purchase_is_dropped() {
    let trades = analyze(vec![
        tx("BTC", Type::Bought, "1", "10", "10", "t1"),
        tx("DOGE", Type::Sold, "1", "10", "10", "t2"),
        tx("ETH", Type::Sold, "5", "10", "2", "t0"),
    ]);
    assert_eq!(trades.len(), 1);
    assert_eq!(trades[0].currency, "BTC");
    assert!(trades[0].is_open());
}

#[test]
fn only_sales_give_no_trades() {
    let trades = analyze(vec![tx("BTC", Type::Sold, "1", "10", "10", "t1")]);
    assert!(trades.is_empty());
}

#[test]
fn earlier_sale_can_close_a_later_purchase() {
    let s = tx("BTC", Type::Sold, "2", "10", "5", "t1");
    let b = tx("BTC", Type::Bought, "2", "8", "4", "t2");
    let b2 = tx("BTC", Type::Bought, "3", "9", "3", "t3");
    let trades = analyze(vec![b2.clone(), b.clone(), s.clone()]);
    assert_eq!(trades.len(), 2);
    assert!(compare(&b, &trades[0].opening_details));
    assert!(compare(&s, trades[0].closing_details.as_ref().unwrap()));
    assert!(compare(&b2, &trades[1].opening_details));
    assert!(trades[1].is_open());
}

#[test]
fn each_sale_closes_at_most_one_purchase() {
    let b1 = tx("BTC", Type::Bought, "1", "10", "10", "t1");
    let b2 = tx("BTC", Type::Bought, "1", "11", "11", "t2");
    let s = tx("BTC", Type::Sold, "1", "12", "12", "t3");
    let trades = analyze(vec![s.clone(), b2.clone(), b1.clone()]);
    assert_eq!(trades.len(), 2);
    assert!(compare(&b1, &trades[0].opening_details));
    assert!(compare(&s, trades[0].closing_details.as_ref().unwrap()));
    assert!(compare(&b2, &trades[1].opening_details));
    assert!(trades[1].is_open());
}

#[test]
fn zero_opening_value_gives_zero_denominator() {
    let trades = analyze(vec![
        tx("BTC", Type::Bought, "1", "0", "0", "t1"),
        tx("BTC", Type::Sold, "1", "5", "5", "t2"),
    ]);
    assert_eq!(trades[0].result(), Some(Ratio { numerator: 5_000_000_000, denominator: 0 }));
}

#[test]
fn texts_compare_by_code_point() {
    assert!(text_less("BTC", "ETH"));
    assert!(!text_less("ETH", "BTC"));
    assert!(text_less("AB", "ABC"));
    assert!(!text_less("ABC", "ABC"));
    assert!(text_less("Z", "a"));
}
