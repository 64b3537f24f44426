use limabean_booking::interpolate::{units_from_cost_spec, units_from_price_spec};
use limabean_booking::book::{book, Bookings};
use limabean_booking::collections::Inventory;
use limabean_booking::decimal::Dec;
use limabean_booking::errors::{BookingError, PostingBookingError, TransactionBookingError};
use limabean_booking::positions::Positions;
use limabean_booking::tolerance::{LimaTolerance, Tolerance};
use limabean_booking::types::{
    is_supported_method, Booking, BookingMethods, Cost, CostSpec, Date, Position, PostingSpec, PriceSpec,
};

fn d(mantissa: i128, scale: u32) -> Dec {
    Dec::from_parts(mantissa, scale)
}

fn date(year: i32, month: u8, day: u8) -> Date {
    Date { year, month, day }
}

fn s(x: &str) -> String {
    x.to_string()
}

fn posting(account: &str, units: Option<Dec>, currency: Option<&str>) -> PostingSpec {
    PostingSpec {
        account: s(account),
        units,
        currency: currency.map(s),
        cost: None,
        price: None,
    }
}

fn empty_cost_spec() -> CostSpec {
    CostSpec {
        date: None,
        per_unit: None,
        total: None,
        currency: None,
        label: None,
        merge: false,
    }
}

fn cost(year: i32, month: u8, day: u8, per_unit: Dec, currency: &str) -> Cost {
    Cost {
        date: date(year, month, day),
        per_unit,
        total: per_unit,
        currency: s(currency),
        label: None,
        merge: false,
    }
}

fn no_tolerance() -> LimaTolerance {
    LimaTolerance::new(vec![], None)
}

fn strict() -> BookingMethods {
    BookingMethods::new(Booking::Strict)
}

fn value_eq(a: Dec, b: Dec) -> bool {
    a.num_eq(&b)
}

fn book_simple(postings: &Vec<PostingSpec>) -> Result<Bookings, BookingError> {
    book(
        date(2024, 3, 1),
        postings,
        &no_tolerance(),
        &Inventory::default(),
        &strict(),
    )
}

/// An inventory holding two AAPL lots of 10, at 100 USD and at 110 USD.
fn two_lots() -> Inventory {
    let mut positions = Positions::default();
    positions
        .accumulate(
            d(10, 0),
            s("AAPL"),
            Some(cost(2024, 1, 1, d(100, 0), "USD")),
            Booking::Strict,
        )
        .unwrap();
    positions
        .accumulate(
            d(10, 0),
            s("AAPL"),
            Some(cost(2024, 2, 1, d(110, 0), "USD")),
            Booking::Strict,
        )
        .unwrap();
    Inventory::from_entries(vec![(s("Assets:Stock"), positions)])
}

/// Selling `units` of AAPL, at cost, for `cash` dollars.
fn sell_aapl(units: i128, cash: i128) -> Vec<PostingSpec> {
    vec![
        PostingSpec {
            account: s("Assets:Stock"),
            units: Some(d(-units, 0)),
            currency: Some(s("AAPL")),
            cost: Some(empty_cost_spec()),
            price: None,
        },
        posting("Assets:Cash", Some(d(cash, 0)), Some("USD")),
    ]
}

#[test]
fn supported_methods() {
    assert!(is_supported_method(Booking::Strict));
    assert!(is_supported_method(Booking::StrictWithSize));
    assert!(is_supported_method(Booking::NoneBooking));
    assert!(!is_supported_method(Booking::Average));
    assert!(is_supported_method(Booking::Fifo));
    assert!(is_supported_method(Booking::Lifo));
    assert!(is_supported_method(Booking::Hifo));
}

#[test]
fn default_booking_is_strict() {
    assert_eq!(Booking::default(), Booking::Strict);
    assert_eq!(Booking::default().name(), "Strict");
    assert_eq!(Booking::NoneBooking.name(), "None");
}

#[test]
fn balanced_transaction_is_aligned() {
    let postings = vec![
        posting("Expenses:Food", Some(d(100, 0)), Some("USD")),
        posting("Assets:Bank", Some(d(-100, 0)), Some("USD")),
    ];
    let bookings = book_simple(&postings).unwrap();
    assert_eq!(bookings.interpolated_postings.len(), 2);
    for (i, p) in bookings.interpolated_postings.iter().enumerate() {
        assert_eq!(p.idx, i);
        assert_eq!(p.currency, "USD");
    }
    assert!(value_eq(bookings.interpolated_postings[0].units, d(100, 0)));
    assert!(value_eq(bookings.interpolated_postings[1].units, d(-100, 0)));
    let food = bookings.updated_inventory.get(&s("Expenses:Food")).unwrap();
    assert_eq!(food.len(), 1);
    assert!(value_eq(food.as_vec()[0].units, d(100, 0)));
}

#[test]
fn auto_posting_takes_the_residual() {
    let postings = vec![
        posting("Expenses:Food", Some(d(1250, 2)), Some("USD")),
        posting("Assets:Bank", None, None),
    ];
    let bookings = book_simple(&postings).unwrap();
    let auto = &bookings.interpolated_postings[1];
    assert_eq!(auto.idx, 1);
    assert_eq!(auto.currency, "USD");
    assert!(value_eq(auto.units, d(-1250, 2)));
}

#[test]
fn unknown_currency_inferred_from_single_group() {
    let postings = vec![
        posting("Expenses:Food", Some(d(5, 0)), Some("EUR")),
        posting("Assets:Bank", Some(d(-5, 0)), None),
    ];
    let bookings = book_simple(&postings).unwrap();
    assert_eq!(bookings.interpolated_postings[1].currency, "EUR");
}

#[test]
fn unbalanced_transaction_reports_residual() {
    let postings = vec![
        posting("Expenses:Food", Some(d(100, 0)), Some("USD")),
        posting("Assets:Bank", Some(d(-90, 0)), Some("USD")),
    ];
    match book_simple(&postings) {
        Err(BookingError::Transaction(TransactionBookingError::Unbalanced(message))) => {
            assert_eq!(message, "-10 USD");
        }
        _ => panic!("expected unbalanced"),
    }
}

#[test]
fn unbalanced_currencies_are_sorted() {
    let postings = vec![
        posting("Expenses:Food", Some(d(3, 0)), Some("USD")),
        posting("Expenses:Food", Some(d(2, 0)), Some("EUR")),
        posting("Expenses:Food", Some(d(-15, 1)), Some("AUD")),
    ];
    match book_simple(&postings) {
        Err(BookingError::Transaction(TransactionBookingError::Unbalanced(message))) => {
            assert_eq!(message, "1.5 AUD, -2 EUR, -3 USD");
        }
        _ => panic!("expected unbalanced"),
    }
}

#[test]
fn tolerance_absorbs_small_residual() {
    let postings = vec![
        posting("Expenses:Food", Some(d(1001, 2)), Some("USD")),
        posting("Assets:Bank", Some(d(-1000, 2)), Some("USD")),
    ];
    // the residual 0.01 reaches the inferred tolerance of 0.5 * 0.01
    assert!(book_simple(&postings).is_err());
    let postings = vec![
        posting("Expenses:Food", Some(d(10004, 3)), Some("USD")),
        posting("Assets:Bank", Some(d(-1000, 2)), Some("USD")),
    ];
    // the residual 0.004 is below the tolerance of 0.5 * 0.01, the smallest scale being 2
    assert!(book_simple(&postings).is_ok());
}

#[test]
fn two_auto_postings_are_ambiguous() {
    let postings = vec![
        posting("Expenses:Food", Some(d(1, 0)), Some("USD")),
        posting("Assets:Bank", None, None),
        posting("Assets:Cash", None, None),
    ];
    match book_simple(&postings) {
        Err(BookingError::Posting(2, PostingBookingError::AmbiguousAutoPost)) => {}
        _ => panic!("expected ambiguous auto-post"),
    }
}

#[test]
fn auto_posting_alone_cannot_balance() {
    let postings = vec![posting("Assets:Bank", None, None)];
    match book_simple(&postings) {
        Err(BookingError::Transaction(
            TransactionBookingError::CannotDetermineCurrencyForBalancing,
        )) => {}
        _ => panic!("expected cannot determine currency"),
    }
}

#[test]
fn auto_posting_with_two_buckets() {
    let postings = vec![
        posting("Expenses:Food", Some(d(1, 0)), Some("USD")),
        posting("Expenses:Food", Some(d(1, 0)), Some("EUR")),
        posting("Assets:Bank", None, None),
    ];
    match book_simple(&postings) {
        Err(BookingError::Transaction(TransactionBookingError::AutoPostMultipleBuckets(
            mut buckets,
        ))) => {
            buckets.sort();
            assert_eq!(buckets, vec![s("EUR"), s("USD")]);
        }
        _ => panic!("expected multiple buckets"),
    }
}

#[test]
fn unknown_currency_without_inventory_cannot_be_inferred() {
    let postings = vec![
        posting("Expenses:Food", Some(d(1, 0)), Some("USD")),
        posting("Expenses:Food", Some(d(1, 0)), Some("EUR")),
        posting("Assets:Bank", Some(d(-1, 0)), None),
    ];
    match book_simple(&postings) {
        Err(BookingError::Posting(2, PostingBookingError::CannotInferAnything)) => {}
        _ => panic!("expected cannot infer anything"),
    }
}

#[test]
fn too_many_missing_numbers() {
    let postings = vec![
        posting("Expenses:Food", Some(d(1, 0)), Some("USD")),
        posting("Assets:Bank", None, Some("USD")),
        posting("Assets:Cash", None, Some("USD")),
    ];
    match book_simple(&postings) {
        Err(BookingError::Transaction(TransactionBookingError::TooManyMissingNumbers)) => {}
        _ => panic!("expected too many missing numbers"),
    }
}

#[test]
fn augmentation_at_cost_adds_a_lot() {
    let postings = vec![
        PostingSpec {
            account: s("Assets:Stock"),
            units: Some(d(10, 0)),
            currency: Some(s("AAPL")),
            cost: Some(CostSpec {
                per_unit: Some(d(100, 0)),
                currency: Some(s("USD")),
                ..empty_cost_spec()
            }),
            price: None,
        },
        posting("Assets:Cash", None, None),
    ];
    let bookings = book_simple(&postings).unwrap();
    let stock = &bookings.interpolated_postings[0];
    let costs = stock.cost.as_ref().unwrap();
    assert_eq!(costs.cost_currency, "USD");
    assert_eq!(costs.adjustments.len(), 1);
    assert_eq!(costs.adjustments[0].date, date(2024, 3, 1));
    assert!(value_eq(costs.adjustments[0].per_unit, d(100, 0)));
    let cash = &bookings.interpolated_postings[1];
    assert_eq!(cash.currency, "USD");
    assert!(value_eq(cash.units, d(-1000, 0)));
    let positions = bookings.updated_inventory.get(&s("Assets:Stock")).unwrap();
    assert_eq!(positions.len(), 1);
    assert_eq!(positions.as_vec()[0].currency, "AAPL");
    assert!(positions.as_vec()[0].cost.is_some());
}

#[test]
fn price_conversion_weight() {
    let postings = vec![
        PostingSpec {
            account: s("Assets:Euro"),
            units: Some(d(100, 0)),
            currency: Some(s("EUR")),
            cost: None,
            price: Some(PriceSpec {
                per_unit: Some(d(11, 1)),
                total: None,
                currency: Some(s("USD")),
            }),
        },
        posting("Assets:Bank", None, None),
    ];
    let bookings = book_simple(&postings).unwrap();
    let bank = &bookings.interpolated_postings[1];
    assert_eq!(bank.currency, "USD");
    assert!(value_eq(bank.units, d(-110, 0)));
    let euro = &bookings.interpolated_postings[0];
    let price = euro.price.as_ref().unwrap();
    assert_eq!(price.currency, "USD");
    assert!(value_eq(price.per_unit, d(11, 1)));
}

fn adjustment_units(b: &Bookings) -> Vec<i128> {
    b.interpolated_postings[0]
        .cost
        .as_ref()
        .unwrap()
        .adjustments
        .iter()
        .map(|c| c.units.mantissa())
        .collect()
}

#[test]
fn fifo_reduces_oldest_first() {
    let bookings = book(
        date(2024, 3, 1),
        &sell_aapl(15, 1550),
        &no_tolerance(),
        &two_lots(),
        &BookingMethods::new(Booking::Fifo),
    )
    .unwrap();
    assert_eq!(adjustment_units(&bookings), vec![-10, -5]);
    let costs = bookings.interpolated_postings[0].cost.as_ref().unwrap();
    assert!(value_eq(costs.adjustments[0].per_unit, d(100, 0)));
    assert!(value_eq(costs.adjustments[1].per_unit, d(110, 0)));
    assert!(bookings.interpolated_postings[0].price.is_none());
    let positions = bookings.updated_inventory.get(&s("Assets:Stock")).unwrap();
    assert_eq!(positions.len(), 1);
    assert!(value_eq(positions.as_vec()[0].units, d(5, 0)));
    assert!(value_eq(
        positions.as_vec()[0].cost.as_ref().unwrap().per_unit,
        d(110, 0)
    ));
}

#[test]
fn lifo_reduces_newest_first() {
    let bookings = book(
        date(2024, 3, 1),
        &sell_aapl(15, 1600),
        &no_tolerance(),
        &two_lots(),
        &BookingMethods::new(Booking::Lifo),
    )
    .unwrap();
    assert_eq!(adjustment_units(&bookings), vec![-10, -5]);
    let costs = bookings.interpolated_postings[0].cost.as_ref().unwrap();
    assert!(value_eq(costs.adjustments[0].per_unit, d(110, 0)));
    let positions = bookings.updated_inventory.get(&s("Assets:Stock")).unwrap();
    assert!(value_eq(
        positions.as_vec()[0].cost.as_ref().unwrap().per_unit,
        d(100, 0)
    ));
}

#[test]
fn hifo_reduces_highest_cost_first() {
    let bookings = book(
        date(2024, 3, 1),
        &sell_aapl(12, 1300),
        &no_tolerance(),
        &two_lots(),
        &BookingMethods::new(Booking::Hifo),
    )
    .unwrap();
    assert_eq!(adjustment_units(&bookings), vec![-10, -2]);
    let costs = bookings.interpolated_postings[0].cost.as_ref().unwrap();
    assert!(value_eq(costs.adjustments[0].per_unit, d(110, 0)));
    assert!(value_eq(costs.adjustments[1].per_unit, d(100, 0)));
}

#[test]
fn strict_with_several_matches_is_ambiguous() {
    match book(
        date(2024, 3, 1),
        &sell_aapl(15, 1550),
        &no_tolerance(),
        &two_lots(),
        &strict(),
    ) {
        Err(BookingError::Posting(0, PostingBookingError::AmbiguousMatches)) => {}
        _ => panic!("expected ambiguous matches"),
    }
}

#[test]
fn selling_everything_matched_at_once() {
    let bookings = book(
        date(2024, 3, 1),
        &sell_aapl(20, 2100),
        &no_tolerance(),
        &two_lots(),
        &strict(),
    )
    .unwrap();
    assert_eq!(adjustment_units(&bookings), vec![-10, -10]);
    let positions = bookings.updated_inventory.get(&s("Assets:Stock")).unwrap();
    assert!(positions.is_empty());
}

#[test]
fn strict_with_size_takes_the_exact_lot() {
    let bookings = book(
        date(2024, 3, 1),
        &sell_aapl(10, 1000),
        &no_tolerance(),
        &two_lots(),
        &BookingMethods::new(Booking::StrictWithSize),
    )
    .unwrap();
    assert_eq!(adjustment_units(&bookings), vec![-10]);
    let costs = bookings.interpolated_postings[0].cost.as_ref().unwrap();
    assert!(value_eq(costs.adjustments[0].per_unit, d(100, 0)));
}

#[test]
fn reduction_needs_a_matching_lot() {
    let mut postings = sell_aapl(5, 500);
    postings[0].cost = Some(CostSpec {
        per_unit: Some(d(999, 0)),
        ..empty_cost_spec()
    });
    match book(
        date(2024, 3, 1),
        &postings,
        &no_tolerance(),
        &two_lots(),
        &strict(),
    ) {
        Err(BookingError::Posting(0, PostingBookingError::NoPositionMatches)) => {}
        _ => panic!("expected no position matches"),
    }
}

#[test]
fn reduction_of_one_lot_needs_enough_units() {
    let mut postings = sell_aapl(15, 1500);
    postings[0].cost = Some(CostSpec {
        per_unit: Some(d(100, 0)),
        ..empty_cost_spec()
    });
    match book(
        date(2024, 3, 1),
        &postings,
        &no_tolerance(),
        &two_lots(),
        &strict(),
    ) {
        Err(BookingError::Posting(0, PostingBookingError::NotEnoughLotsToReduce)) => {}
        _ => panic!("expected not enough lots"),
    }
}

#[test]
fn reduction_of_one_lot() {
    let mut postings = sell_aapl(4, 440);
    postings[0].cost = Some(CostSpec {
        date: Some(date(2024, 2, 1)),
        ..empty_cost_spec()
    });
    let bookings = book(
        date(2024, 3, 1),
        &postings,
        &no_tolerance(),
        &two_lots(),
        &strict(),
    )
    .unwrap();
    assert_eq!(adjustment_units(&bookings), vec![-4]);
    let positions = bookings.updated_inventory.get(&s("Assets:Stock")).unwrap();
    assert_eq!(positions.len(), 2);
    assert!(value_eq(positions.as_vec()[1].units, d(6, 0)));
}

#[test]
fn unknown_currency_inferred_from_account() {
    let postings = vec![
        posting("Expenses:Food", Some(d(1, 0)), Some("USD")),
        posting("Expenses:Food", Some(d(1, 0)), Some("EUR")),
        posting("Assets:Stock", Some(d(-1, 0)), None),
    ];
    let mut positions = Positions::default();
    positions
        .accumulate(d(3, 0), s("EUR"), None, Booking::Strict)
        .unwrap();
    let inventory = Inventory::from_entries(vec![(s("Assets:Stock"), positions)]);
    match book(
        date(2024, 3, 1),
        &postings,
        &no_tolerance(),
        &inventory,
        &strict(),
    ) {
        Err(BookingError::Transaction(TransactionBookingError::Unbalanced(message))) => {
            assert_eq!(message, "-1 USD");
        }
        _ => panic!("expected the USD group to be unbalanced"),
    }
}

#[test]
fn accumulate_keeps_positions_sorted() {
    let mut positions = Positions::default();
    positions
        .accumulate(d(1, 0), s("USD"), None, Booking::Strict)
        .unwrap();
    positions
        .accumulate(d(2, 0), s("EUR"), None, Booking::Strict)
        .unwrap();
    positions
        .accumulate(d(3, 0), s("USD"), None, Booking::Strict)
        .unwrap();
    let v = positions.as_vec();
    assert_eq!(v.len(), 2);
    assert_eq!(v[0].currency, "EUR");
    assert_eq!(v[1].currency, "USD");
    assert!(value_eq(v[1].units, d(4, 0)));
}

#[test]
fn accumulate_at_cost_after_without_cost() {
    let mut positions = Positions::default();
    positions
        .accumulate(
            d(1, 0),
            s("AAPL"),
            Some(cost(2024, 1, 1, d(5, 0), "USD")),
            Booking::Strict,
        )
        .unwrap();
    positions
        .accumulate(d(2, 0), s("AAPL"), None, Booking::Strict)
        .unwrap();
    let v = positions.as_vec();
    assert!(v[0].cost.is_none());
    assert!(v[1].cost.is_some());
}

#[test]
fn accumulate_overflow_is_an_error() {
    let mut positions = Positions::default();
    let big = d(79_228_162_514_264_337_593_543_950_335, 0);
    positions
        .accumulate(big, s("USD"), None, Booking::Strict)
        .unwrap();
    assert_eq!(
        positions.accumulate(big, s("USD"), None, Booking::Strict),
        Err(PostingBookingError::NumberOverflow)
    );
    assert_eq!(positions.len(), 1);
}

#[test]
fn units_by_currency() {
    let mut positions = Positions::default();
    positions
        .accumulate(
            d(1, 0),
            s("AAPL"),
            Some(cost(2024, 1, 1, d(5, 0), "USD")),
            Booking::Strict,
        )
        .unwrap();
    positions
        .accumulate(
            d(2, 0),
            s("AAPL"),
            Some(cost(2024, 1, 2, d(5, 0), "USD")),
            Booking::Strict,
        )
        .unwrap();
    positions
        .accumulate(d(7, 1), s("EUR"), None, Booking::Strict)
        .unwrap();
    let units = positions.units().unwrap();
    assert!(value_eq(units.get(&s("AAPL")).unwrap(), d(3, 0)));
    assert!(value_eq(units.get(&s("EUR")).unwrap(), d(7, 1)));
    assert!(units.get(&s("USD")).is_none());
}

#[test]
fn tolerance_defaults() {
    let tol = LimaTolerance::new(
        vec![
            (Some(s("USD")), d(1, 2)),
            (None, d(5, 3)),
            (Some(s("USD")), d(2, 2)),
        ],
        Some(d(6, 1)),
    );
    assert!(value_eq(
        tol.inferred_tolerance_default(&s("USD")).unwrap(),
        d(2, 2)
    ));
    assert!(value_eq(
        tol.inferred_tolerance_default(&s("EUR")).unwrap(),
        d(5, 3)
    ));
    assert!(value_eq(tol.inferred_tolerance_multiplier().unwrap(), d(6, 1)));
    let none = LimaTolerance::new(vec![], None);
    assert!(none.inferred_tolerance_default(&s("USD")).is_none());
}

#[test]
fn decimal_text_and_arithmetic() {
    assert_eq!(d(-1250, 2).to_text(), "-12.50");
    assert_eq!(d(3, 0).neg().to_text(), "-3");
    let sum = d(1, 1).checked_add(&d(2, 2)).unwrap();
    assert!(value_eq(sum, d(12, 2)));
    assert!(d(1, 0).num_lt(&d(11, 1)));
    assert!(d(10, 1).num_eq(&d(1, 0)));
}

#[test]
fn posting_error_messages() {
    assert_eq!(
        PostingBookingError::NotEnoughLotsToReduce.message(),
        "not enough lots to reduce"
    );
    assert_eq!(PostingBookingError::NumberOverflow.message(), "number overflow");
}

#[test]
fn position_from_units() {
    let p = Position::from_units(d(5, 0), s("USD"));
    assert!(p.cost.is_none());
    assert_eq!(p.currency, "USD");
}

#[test]
fn transaction_error_messages() {
    assert_eq!(
        TransactionBookingError::Unbalanced(s("-10 USD")).message(),
        "transaction does not balance: -10 USD"
    );
    assert_eq!(
        TransactionBookingError::AutoPostMultipleBuckets(vec![s("EUR"), s("USD")]).message(),
        "auto-post with multiple buckets: EUR, USD"
    );
    assert_eq!(
        TransactionBookingError::TooManyMissingNumbers.message(),
        "too many missing numbers"
    );
    assert_eq!(
        TransactionBookingError::CannotDetermineCurrencyForBalancing.message(),
        "can't determine currency for balancing"
    );
}

#[test]
fn reduction_keeps_other_currencies() {
    let mut positions = Positions::default();
    positions
        .accumulate(d(5, 0), s("IBM"), Some(cost(2014, 1, 1, d(100, 0), "USD")), Booking::Fifo)
        .unwrap();
    positions
        .accumulate(d(5, 0), s("IBM"), Some(cost(2014, 2, 1, d(120, 0), "USD")), Booking::Fifo)
        .unwrap();
    positions.accumulate(d(10000, 2), s("USD"), None, Booking::Fifo).unwrap();
    let inventory = Inventory::from_entries(vec![(s("Assets:Stock"), positions)]);
    let postings = vec![
        PostingSpec {
            account: s("Assets:Stock"),
            units: Some(d(-7, 0)),
            currency: Some(s("IBM")),
            cost: Some(empty_cost_spec()),
            price: None,
        },
        posting("Assets:Cash", Some(d(740, 0)), Some("USD")),
    ];
    let bookings = book(
        date(2014, 3, 1),
        &postings,
        &no_tolerance(),
        &inventory,
        &BookingMethods::new(Booking::Fifo),
    )
    .unwrap();
    let stock = bookings.updated_inventory.get(&s("Assets:Stock")).unwrap().as_vec();
    assert_eq!(stock.len(), 2);
    assert_eq!(stock[0].currency, "IBM");
    assert!(value_eq(stock[0].units, d(3, 0)));
    assert!(value_eq(stock[0].cost.as_ref().unwrap().per_unit, d(120, 0)));
    assert_eq!(stock[1].currency, "USD");
    assert!(value_eq(stock[1].units, d(10000, 2)));
    assert!(stock[1].cost.is_none());
}

#[test]
fn exact_products_keep_scales() {
    let p = d(10, 0).checked_mul(&d(16000, 2)).unwrap();
    assert_eq!(p.mantissa(), 160000);
    assert_eq!(p.scale_of(), 2);
}

fn units_total(positions: &Positions, currency: &str) -> i128 {
    // every number here is at scale 0 or 2; compare at scale 2
    positions
        .as_vec()
        .iter()
        .filter(|p| p.currency == currency)
        .map(|p| p.units.mantissa() * if p.units.scale_of() == 0 { 100 } else { 1 })
        .sum()
}

#[test]
fn accumulate_changes_only_its_currency_total() {
    let mut positions = Positions::default();
    positions
        .accumulate(d(5, 0), s("IBM"), Some(cost(2014, 1, 1, d(100, 0), "USD")), Booking::Fifo)
        .unwrap();
    positions.accumulate(d(10000, 2), s("USD"), None, Booking::Fifo).unwrap();
    assert_eq!(units_total(&positions, "IBM"), 500);
    assert_eq!(units_total(&positions, "USD"), 10000);
    // merged into the lot of the same cost
    positions
        .accumulate(d(3, 0), s("IBM"), Some(cost(2014, 1, 1, d(100, 0), "USD")), Booking::Fifo)
        .unwrap();
    assert_eq!(units_total(&positions, "IBM"), 800);
    assert_eq!(units_total(&positions, "USD"), 10000);
    // a new lot
    positions
        .accumulate(d(2, 0), s("IBM"), Some(cost(2014, 2, 1, d(110, 0), "USD")), Booking::Fifo)
        .unwrap();
    assert_eq!(positions.as_vec().len(), 3);
    assert_eq!(units_total(&positions, "IBM"), 1000);
    assert_eq!(units_total(&positions, "USD"), 10000);
}

#[test]
fn ordered_reduction_conserves_units() {
    let mut positions = Positions::default();
    positions
        .accumulate(d(5, 0), s("IBM"), Some(cost(2014, 1, 1, d(100, 0), "USD")), Booking::Fifo)
        .unwrap();
    positions
        .accumulate(d(5, 0), s("IBM"), Some(cost(2014, 2, 1, d(120, 0), "USD")), Booking::Fifo)
        .unwrap();
    let inventory = Inventory::from_entries(vec![(s("Assets:Stock"), positions)]);
    let postings = vec![
        PostingSpec {
            account: s("Assets:Stock"),
            units: Some(d(-7, 0)),
            currency: Some(s("IBM")),
            cost: Some(empty_cost_spec()),
            price: None,
        },
        posting("Assets:Cash", None, None),
    ];
    let bookings = book(
        date(2014, 3, 1),
        &postings,
        &no_tolerance(),
        &inventory,
        &BookingMethods::new(Booking::Fifo),
    )
    .unwrap();
    let stock = bookings.updated_inventory.get(&s("Assets:Stock")).unwrap();
    // 10 units less the 7 reduced
    assert_eq!(units_total(stock, "IBM"), 300);
}

#[test]
fn reduction_weighed_at_the_cost_of_its_lots() {
    let mut positions = Positions::default();
    positions
        .accumulate(d(10, 0), s("IBM"), Some(cost(2014, 2, 16, d(16000, 2), "USD")), Booking::Strict)
        .unwrap();
    let inventory = Inventory::from_entries(vec![(s("Assets:US:ETrade:IBM"), positions)]);
    let postings = vec![
        PostingSpec {
            account: s("Assets:US:ETrade:IBM"),
            units: Some(d(-3, 0)),
            currency: Some(s("IBM")),
            cost: Some(CostSpec {
                date: Some(date(2014, 2, 16)),
                per_unit: Some(d(16000, 2)),
                currency: Some(s("USD")),
                ..empty_cost_spec()
            }),
            price: None,
        },
        posting("Assets:US:ETrade:Cash", Some(d(50005, 2)), Some("USD")),
        posting("Expenses:Financial:Commissions", Some(d(995, 2)), Some("USD")),
        posting("Income:US:ETrade:PnL", None, None),
    ];
    let bookings = book(date(2014, 2, 17), &postings, &no_tolerance(), &inventory, &strict()).unwrap();
    let pnl = bookings.interpolated_postings.iter().find(|p| p.idx == 3).unwrap();
    assert_eq!(pnl.currency, "USD");
    // -3 at 160.00 weighs -480.00: 500.05 + 9.95 - 480.00 leaves 30.00 to balance
    assert!(value_eq(pnl.units, d(-3000, 2)));
}

#[test]
fn augmentation_weighed_at_the_exact_cost() {
    let postings = vec![
        PostingSpec {
            account: s("Assets:Stock"),
            units: Some(d(10, 0)),
            currency: Some(s("IBM")),
            cost: Some(CostSpec {
                per_unit: Some(d(16025, 2)),
                currency: Some(s("USD")),
                ..empty_cost_spec()
            }),
            price: None,
        },
        posting("Assets:Cash", None, None),
    ];
    let bookings = book_simple(&postings).unwrap();
    let cash = bookings.interpolated_postings.iter().find(|p| p.idx == 1).unwrap();
    assert_eq!(cash.currency, "USD");
    assert!(value_eq(cash.units, d(-160250, 2)));
}

#[test]
fn exact_sums_and_differences_keep_the_larger_scale() {
    let sum = d(15, 1).checked_add(&d(225, 2)).unwrap();
    assert_eq!((sum.mantissa(), sum.scale_of()), (375, 2));
    // a zero operand leaves the other as it is
    let sum = d(0, 2).checked_add(&d(5, 0)).unwrap();
    assert_eq!((sum.mantissa(), sum.scale_of()), (5, 0));
    let diff = d(5, 0).checked_sub(&d(0, 2)).unwrap();
    assert_eq!((diff.mantissa(), diff.scale_of()), (5, 0));
    let diff = d(0, 0).checked_sub(&d(25, 1)).unwrap();
    assert_eq!((diff.mantissa(), diff.scale_of()), (-25, 1));
    let diff = d(5, 0).checked_sub(&d(500, 2)).unwrap();
    assert_eq!((diff.mantissa(), diff.scale_of()), (0, 2));
}

#[test]
fn price_spec_units_as_cost_spec() {
    let cs = CostSpec { per_unit: Some(d(16025, 2)), ..empty_cost_spec() };
    let ps = PriceSpec { per_unit: Some(d(16025, 2)), total: None, currency: None };
    let a = units_from_cost_spec(None, d(-160250, 2), &cs).unwrap().unwrap();
    let b = units_from_price_spec(None, d(-160250, 2), &ps).unwrap().unwrap();
    assert_eq!((a.units.mantissa(), a.units.scale_of()), (b.units.mantissa(), b.units.scale_of()));
    assert!(value_eq(a.units, d(-10, 0)));
    let ca = a.conversion.unwrap();
    let cb = b.conversion.unwrap();
    assert!(value_eq(ca.total, cb.total));
    assert!(value_eq(ca.per_unit, cb.per_unit));
}

#[test]
fn reduction_balanced_by_its_units_is_unbalanced() {
    match book(
        date(2024, 3, 1),
        &sell_aapl(15, 15),
        &no_tolerance(),
        &two_lots(),
        &BookingMethods::new(Booking::Fifo),
    ) {
        Err(BookingError::Transaction(TransactionBookingError::Unbalanced(message))) => {
            assert_eq!(message, "1535 USD");
        }
        _ => panic!("expected an unbalanced transaction"),
    }
}
