use limabean_booking::decimal::Dec;
use limabean_booking::positions::Positions;
use limabean_booking::text::format_date;
use limabean_booking::types::{compare_price, Booking, Cost, Date, Position, Price};

fn d(mantissa: i128, scale: u32) -> Dec {
    Dec::from_parts(mantissa, scale)
}

fn date(year: i32, month: u8, day: u8) -> Date {
    Date { year, month, day }
}

fn cost(label: Option<&str>, merge: bool) -> Cost {
    Cost {
        date: date(2024, 1, 5),
        per_unit: d(10050, 2),
        total: d(10050, 2),
        currency: "USD".to_string(),
        label: label.map(|l| l.to_string()),
        merge,
    }
}

#[test]
fn dates_are_zero_padded() {
    assert_eq!(format_date(&date(2024, 1, 5)).unwrap(), "2024-01-05");
    assert_eq!(format_date(&date(987, 12, 31)).unwrap(), "0987-12-31");
    assert_eq!(format_date(&date(-44, 3, 15)).unwrap(), "-0044-03-15");
}

#[test]
fn invalid_dates_have_no_text() {
    assert!(format_date(&date(2023, 2, 29)).is_none());
    assert!(format_date(&date(2024, 2, 29)).is_some());
    assert!(format_date(&date(2024, 13, 1)).is_none());
    assert!(format_date(&date(10000, 1, 1)).is_none());
}

#[test]
fn price_text() {
    let p = Price {
        per_unit: d(15, 1),
        total: None,
        currency: "EUR".to_string(),
    };
    assert_eq!(p.to_text(), "@ 1.5 EUR");
}

#[test]
fn cost_text_with_label_and_merge() {
    assert_eq!(cost(None, false).to_text().unwrap(), "{2024-01-05, 100.50 USD}");
    assert_eq!(
        cost(Some("lot-1"), true).to_text().unwrap(),
        "{2024-01-05, 100.50 USD, \"lot-1\", *}"
    );
}

#[test]
fn positions_text_is_comma_separated() {
    let mut p = Positions::default();
    p.accumulate(d(5, 0), "USD".to_string(), None, Booking::Strict).unwrap();
    p.accumulate(d(3, 0), "AAPL".to_string(), Some(cost(None, false)), Booking::Strict)
        .unwrap();
    let text = p.to_text().unwrap();
    // positions are kept in currency order
    assert_eq!(text, "AAPL 3 {2024-01-05, 100.50 USD}, USD 5");
    let single = Position {
        units: d(-2, 0),
        currency: "GBP".to_string(),
        cost: None,
    };
    assert_eq!(single.to_text().unwrap(), "GBP -2");
    assert_eq!(Positions::default().to_text().unwrap(), "");
}

#[test]
fn prices_order_by_currency_then_value_then_total() {
    let p = |n: i128, cur: &str, total: Option<Dec>| Price {
        per_unit: d(n, 0),
        total,
        currency: cur.to_string(),
    };
    assert_eq!(compare_price(&p(5, "EUR", None), &p(1, "USD", None)), -1);
    assert_eq!(compare_price(&p(5, "USD", None), &p(1, "USD", None)), 1);
    assert_eq!(compare_price(&p(1, "USD", None), &p(1, "USD", Some(d(1, 0)))), -1);
    assert_eq!(compare_price(&p(1, "USD", Some(d(10, 1))), &p(1, "USD", Some(d(1, 0)))), 0);
}
