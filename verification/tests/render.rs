use limabean_booking::decimal::Dec;
use limabean_booking::loader::Posting;
use limabean_booking::render::{edn_cost, edn_number, edn_opt_string, edn_posting, edn_price, edn_string, posting_line};
use limabean_booking::types::{Cost, Date, Price};

fn d(mantissa: i128, scale: u32) -> Dec {
    Dec::from_parts(mantissa, scale)
}

fn lot() -> Cost {
    Cost {
        date: Date { year: 2014, month: 2, day: 16 },
        per_unit: d(16000, 2),
        total: d(160000, 2),
        currency: "USD".to_string(),
        label: Some("first \"lot\"".to_string()),
        merge: false,
    }
}

fn bought() -> Posting {
    Posting {
        posting_idx: Some(0),
        account: "Assets:Stock".to_string(),
        units: d(10, 0),
        currency: "IBM".to_string(),
        cost: Some(lot()),
        price: None,
    }
}

#[test]
fn edn_strings_escape_quotes_backslashes_and_newlines() {
    assert_eq!(edn_string("plain"), "\"plain\"");
    assert_eq!(edn_string("say \"hi\"\\\n"), "\"say \\\"hi\\\"\\\\\\n\"");
    assert_eq!(edn_string(""), "\"\"");
    assert_eq!(edn_string("café"), "\"café\"");
}

#[test]
fn edn_numbers_and_absent_values() {
    assert_eq!(edn_number(d(-250, 2)), "-2.50M");
    assert_eq!(edn_opt_string(&None), "nil");
    assert_eq!(edn_opt_string(&Some("x".to_string())), "\"x\"");
    let price = Price { per_unit: d(15, 1), total: None, currency: "EUR".to_string() };
    assert_eq!(edn_price(&price), "{:per-unit 1.5M :currency \"EUR\"}");
}

#[test]
fn edn_costs_and_postings() {
    assert_eq!(
        edn_cost(&lot()).unwrap(),
        "{:date \"2014-02-16\" :per-unit 160.00M :currency \"USD\" :label \"first \\\"lot\\\"\" :merge false}"
    );
    assert_eq!(
        edn_posting(&Some("*".to_string()), &bought()).unwrap(),
        "{:flag \"*\" :account \"Assets:Stock\" :units 10M :currency \"IBM\" :cost {:date \"2014-02-16\" :per-unit 160.00M :currency \"USD\" :label \"first \\\"lot\\\"\" :merge false} :price nil}"
    );
    let mut invalid = bought();
    invalid.cost = Some(Cost { date: Date { year: 2014, month: 2, day: 30 }, ..lot() });
    assert!(edn_posting(&None, &invalid).is_none());
}

#[test]
fn beancount_posting_lines() {
    assert_eq!(
        posting_line(&None, &bought()).unwrap(),
        "  Assets:Stock 10 IBM {2014-02-16, 160.00 USD, \"first \"lot\"\"}"
    );
    let cash = Posting {
        posting_idx: Some(1),
        account: "Assets:Cash".to_string(),
        units: d(-160000, 2),
        currency: "USD".to_string(),
        cost: None,
        price: Some(Price { per_unit: d(9, 1), total: None, currency: "EUR".to_string() }),
    };
    assert_eq!(posting_line(&Some("!".to_string()), &cash).unwrap(), "  ! Assets:Cash -1600.00 USD @ 0.9 EUR");
}

#[test]
fn booked_trading_lines_as_documented() {
    let ibm = Posting {
        posting_idx: Some(0),
        account: "Assets:US:ETrade:IBM".to_string(),
        units: d(10, 0),
        currency: "IBM".to_string(),
        cost: Some(Cost {
            date: Date { year: 2014, month: 2, day: 16 },
            per_unit: d(16000, 2),
            total: d(160000, 2),
            currency: "USD".to_string(),
            label: None,
            merge: false,
        }),
        price: None,
    };
    assert_eq!(posting_line(&None, &ibm).unwrap(), "  Assets:US:ETrade:IBM 10 IBM {2014-02-16, 160.00 USD}");
    let cash = Posting {
        posting_idx: Some(1),
        account: "Assets:US:ETrade:Cash".to_string(),
        units: d(-160995, 2),
        currency: "USD".to_string(),
        cost: None,
        price: None,
    };
    assert_eq!(posting_line(&None, &cash).unwrap(), "  Assets:US:ETrade:Cash -1609.95 USD");
}
