use limabean_booking::collections::Origin;
use limabean_booking::decimal::Dec;
use limabean_booking::loader::{
    balance_failure_reason, calculate_balance_margin, calculate_balance_pad_postings, describe, starts_with, DirectiveInput, InternalPlugins,
    LoadError, LoadIssue, LoadWarning, Loaded, Loader,
};
use limabean_booking::positions::Positions;
use limabean_booking::tolerance::LimaTolerance;
use limabean_booking::types::{Booking, Date, PostingSpec};

fn d(mantissa: i128, scale: u32) -> Dec {
    Dec::from_parts(mantissa, scale)
}

fn date(year: i32, month: u8, day: u8) -> Date {
    Date { year, month, day }
}

fn s(x: &str) -> String {
    x.to_string()
}

fn value_eq(a: Dec, b: Dec) -> bool {
    a.num_eq(&b)
}

fn plugins(auto_accounts: bool, balance_rollup: bool) -> InternalPlugins {
    InternalPlugins {
        auto_accounts,
        implicit_prices: false,
        balance_rollup,
    }
}

fn loader_with(p: InternalPlugins) -> Loader {
    Loader::new(Booking::Strict, p, LimaTolerance::new(vec![], None))
}

fn loader() -> Loader {
    loader_with(plugins(false, false))
}

fn posting(account: &str, units: Option<Dec>, currency: Option<&str>) -> PostingSpec {
    PostingSpec {
        account: s(account),
        units,
        currency: currency.map(s),
        cost: None,
        price: None,
    }
}

fn open(account: &str) -> DirectiveInput {
    DirectiveInput::Open {
        account: s(account),
        currencies: vec![],
        booking: None,
    }
}

fn spend(amount: i128, from: &str, to: &str) -> DirectiveInput {
    DirectiveInput::Transaction {
        date: date(2024, 1, 2),
        payee: None,
        narration: Some(s("groceries")),
        postings: vec![
            posting(to, Some(d(amount, 0)), Some("USD")),
            posting(from, Some(d(-amount, 0)), Some("USD")),
        ],
    }
}

fn balance(account: &str, units: i128) -> DirectiveInput {
    DirectiveInput::Balance {
        date: date(2024, 2, 1),
        account: s(account),
        units: d(units, 0),
        currency: s("USD"),
        tolerance: None,
    }
}

fn issues(errors: &[LoadError]) -> Vec<(usize, String)> {
    errors
        .iter()
        .map(|e| {
            let name = match &e.issue {
                LoadIssue::AccountNotOpen => "not open".to_string(),
                LoadIssue::AccountWasClosed(_) => "was closed".to_string(),
                LoadIssue::AccountAlreadyOpened(_) => "already opened".to_string(),
                LoadIssue::AccountAlreadyClosed(_) => "already closed".to_string(),
                LoadIssue::InvalidCurrency(_) => "invalid currency".to_string(),
                LoadIssue::UnusedPad(i) => format!("unused pad {i}"),
                LoadIssue::BalanceFailed { .. } => "balance failed".to_string(),
                LoadIssue::Booking(_) => "booking".to_string(),
                LoadIssue::NumberOverflow => "overflow".to_string(),
                LoadIssue::PadIsNotAPad(i) => format!("not a pad {i}"),
                LoadIssue::PadSourceNotBuilt(a) => format!("pad source {a}"),
            };
            (e.parsed, name)
        })
        .collect()
}

#[test]
fn open_twice_fails() {
    let mut l = loader();
    assert!(l.open(0, &s("Assets:Bank"), &vec![], None).is_ok());
    match l.open(1, &s("Assets:Bank"), &vec![], None) {
        Err(LoadIssue::AccountAlreadyOpened(Origin::Directive(0))) => {}
        other => panic!("unexpected {:?}", other),
    }
}

#[test]
fn close_then_reopen_fails() {
    let mut l = loader();
    l.open(0, &s("Assets:Bank"), &vec![], None).unwrap();
    assert!(l.close(1, &s("Assets:Bank")).is_ok());
    assert_eq!(l.open_origin(&s("Assets:Bank")), None);
    assert_eq!(l.close_origin(&s("Assets:Bank")), Some(Origin::Directive(1)));
    match l.close(2, &s("Assets:Bank")) {
        Err(LoadIssue::AccountNotOpen) => {}
        other => panic!("unexpected {:?}", other),
    }
    match l.open(3, &s("Assets:Bank"), &vec![], None) {
        Err(LoadIssue::AccountWasClosed(Origin::Directive(1))) => {}
        other => panic!("unexpected {:?}", other),
    }
    // the reopened account is recorded as open, so closing it again finds it closed
    match l.close(4, &s("Assets:Bank")) {
        Err(LoadIssue::AccountAlreadyClosed(Origin::Directive(1))) => {}
        other => panic!("unexpected {:?}", other),
    }
}

#[test]
fn close_unknown_account_fails() {
    let mut l = loader();
    match l.close(0, &s("Assets:Nowhere")) {
        Err(LoadIssue::AccountNotOpen) => {}
        other => panic!("unexpected {:?}", other),
    }
}

#[test]
fn unsupported_booking_falls_back_with_two_warnings() {
    let mut l = loader();
    l.open(5, &s("Assets:Stock"), &vec![], Some(Booking::Average)).unwrap();
    assert_eq!(l.warnings.len(), 2);
    match (&l.warnings[0], &l.warnings[1]) {
        (
            LoadWarning::UnsupportedBooking {
                parsed: 5,
                booking: Booking::Average,
            },
            LoadWarning::UnsupportedBookingUnnamed { parsed: 5 },
        ) => {}
        other => panic!("unexpected {:?}", other),
    }
    assert_eq!(l.methods.method(&s("Assets:Stock")), Booking::Strict);
}

#[test]
fn supported_booking_is_kept() {
    let mut l = loader();
    l.open(0, &s("Assets:Stock"), &vec![], Some(Booking::Fifo)).unwrap();
    assert!(l.warnings.is_empty());
    assert_eq!(l.methods.method(&s("Assets:Stock")), Booking::Fifo);
}

#[test]
fn transaction_books_postings_and_diagnostics() {
    let mut l = loader();
    l.open(0, &s("Assets:Bank"), &vec![], None).unwrap();
    l.open(1, &s("Expenses:Food"), &vec![], None).unwrap();
    let postings = vec![
        posting("Expenses:Food", Some(d(30, 0)), Some("USD")),
        posting("Assets:Bank", None, None),
    ];
    let loaded = l
        .transaction(2, date(2024, 1, 2), &None, &Some(s("lunch")), &postings)
        .unwrap();
    match loaded {
        Loaded::Transaction {
            postings,
            prices,
            auto_accounts,
        } => {
            assert_eq!(postings.len(), 2);
            assert_eq!(postings[0].posting_idx, Some(0));
            assert_eq!(postings[1].posting_idx, Some(1));
            assert_eq!(postings[1].account, "Assets:Bank");
            assert!(value_eq(postings[1].units, d(-30, 0)));
            assert!(prices.is_empty());
            assert!(auto_accounts.is_empty());
        }
        other => panic!("unexpected {:?}", other),
    }
    let bank = l.inventory.get(&s("Assets:Bank")).unwrap();
    assert_eq!(bank.len(), 1);
    assert!(value_eq(bank.as_vec()[0].units, d(-30, 0)));
    let diagnostics = l.diagnostics.get("Assets:Bank").unwrap();
    assert_eq!(diagnostics.len(), 1);
    assert_eq!(diagnostics[0].description.as_deref(), Some("lunch"));
    assert!(value_eq(diagnostics[0].amount.as_ref().unwrap().number, d(-30, 0)));
    assert!(diagnostics[0].positions.is_some());
}

#[test]
fn transaction_to_unopened_account_fails() {
    let mut l = loader();
    l.open(0, &s("Assets:Bank"), &vec![], None).unwrap();
    let postings = vec![
        posting("Expenses:Food", Some(d(30, 0)), Some("USD")),
        posting("Assets:Bank", Some(d(-30, 0)), Some("USD")),
    ];
    match l.transaction(1, date(2024, 1, 2), &None, &None, &postings) {
        Err(LoadIssue::AccountNotOpen) => {}
        other => panic!("unexpected {:?}", other),
    }
    // nothing was booked
    assert_eq!(l.inventory.get(&s("Assets:Bank")).unwrap().len(), 0);
}

#[test]
fn transaction_in_disallowed_currency_fails() {
    let mut l = loader();
    l.open(0, &s("Assets:Bank"), &vec![s("EUR")], None).unwrap();
    l.open(1, &s("Expenses:Food"), &vec![], None).unwrap();
    let postings = vec![
        posting("Expenses:Food", Some(d(30, 0)), Some("USD")),
        posting("Assets:Bank", Some(d(-30, 0)), Some("USD")),
    ];
    match l.transaction(2, date(2024, 1, 2), &None, &None, &postings) {
        Err(LoadIssue::InvalidCurrency(Origin::Directive(0))) => {}
        other => panic!("unexpected {:?}", other),
    }
}

#[test]
fn unbalanced_transaction_is_a_booking_error() {
    let mut l = loader();
    l.open(0, &s("Assets:Bank"), &vec![], None).unwrap();
    l.open(1, &s("Expenses:Food"), &vec![], None).unwrap();
    let postings = vec![
        posting("Expenses:Food", Some(d(30, 0)), Some("USD")),
        posting("Assets:Bank", Some(d(-20, 0)), Some("USD")),
    ];
    match l.transaction(2, date(2024, 1, 2), &None, &None, &postings) {
        Err(LoadIssue::Booking(_)) => {}
        other => panic!("unexpected {:?}", other),
    }
}

#[test]
fn auto_accounts_are_opened_where_first_posted() {
    let mut l = loader_with(plugins(true, false));
    let postings = vec![
        posting("Expenses:Food", Some(d(10, 0)), Some("USD")),
        posting("Expenses:Food", Some(d(20, 0)), Some("USD")),
        posting("Assets:Bank", Some(d(-30, 0)), Some("USD")),
    ];
    match l.transaction(7, date(2024, 1, 2), &None, &None, &postings).unwrap() {
        Loaded::Transaction { auto_accounts, .. } => {
            assert_eq!(auto_accounts, vec![s("Expenses:Food"), s("Assets:Bank")]);
        }
        other => panic!("unexpected {:?}", other),
    }
    assert_eq!(l.open_origin(&s("Assets:Bank")), Some(Origin::PostingAccount(7, 2)));
    assert_eq!(l.open_origin(&s("Expenses:Food")), Some(Origin::PostingAccount(7, 0)));
    assert_eq!(l.account_names, vec![s("Expenses:Food"), s("Assets:Bank")]);
}

#[test]
fn description_prefers_payee_then_narration() {
    assert_eq!(describe(&Some(s("Shop")), &Some(s("lunch"))), "Shop");
    assert_eq!(describe(&None, &Some(s("lunch"))), "lunch");
    assert_eq!(describe(&None, &None), "post");
}

/// The units of the amounts, by currency.
fn units_of(amounts: &[(i128, u32, &str)]) -> limabean_booking::collections::CurrencyNumbers {
    let mut p = Positions::default();
    for (m, scale, cur) in amounts {
        p.accumulate(d(*m, *scale), s(cur), None, Booking::Strict).unwrap();
    }
    p.units().unwrap()
}

#[test]
fn balance_margin_within_tolerance_is_empty() {
    let rollup = units_of(&[(1000, 2, "USD")]);
    let margin = calculate_balance_margin(d(1001, 2), &s("USD"), d(1, 2), rollup).unwrap();
    assert!(margin.is_empty());
}

#[test]
fn balance_margin_of_missing_currency() {
    let rollup = units_of(&[]);
    let margin = calculate_balance_margin(d(5, 0), &s("USD"), d(0, 0), rollup).unwrap();
    assert_eq!(margin.len(), 1);
    assert_eq!(margin[0].0, "USD");
    assert!(value_eq(margin[0].1, d(5, 0)));
}

#[test]
fn balance_margin_of_other_currency_is_negated() {
    let rollup = units_of(&[(7, 0, "EUR")]);
    let margin = calculate_balance_margin(d(0, 0), &s("USD"), d(0, 0), rollup).unwrap();
    assert_eq!(margin.len(), 1);
    assert_eq!(margin[0].0, "EUR");
    assert!(value_eq(margin[0].1, d(-7, 0)));
}

#[test]
fn pad_postings_pair_the_margin() {
    let margin = vec![(s("USD"), d(25, 0))];
    let postings = calculate_balance_pad_postings(&margin, &s("Assets:Bank"), &s("Equity:Opening"));
    assert_eq!(postings.len(), 2);
    assert_eq!(postings[0].account, "Assets:Bank");
    assert!(value_eq(postings[0].units, d(25, 0)));
    assert_eq!(postings[1].account, "Equity:Opening");
    assert!(value_eq(postings[1].units, d(-25, 0)));
    assert_eq!(postings[1].currency, "USD");
}

#[test]
fn correct_balance_passes() {
    let ds = vec![
        open("Assets:Bank"),
        open("Expenses:Food"),
        spend(30, "Assets:Bank", "Expenses:Food"),
        balance("Assets:Bank", -30),
    ];
    let success = loader().collect(&ds).ok().unwrap();
    assert_eq!(success.directives.len(), 4);
    assert_eq!(success.directives[3].parsed, 3);
}

#[test]
fn wrong_balance_fails_with_margin_and_diagnostics() {
    let ds = vec![
        open("Assets:Bank"),
        open("Expenses:Food"),
        spend(30, "Assets:Bank", "Expenses:Food"),
        balance("Assets:Bank", -20),
        // the account was reset to what was asserted
        balance("Assets:Bank", -20),
    ];
    let errors = loader().collect(&ds).err().unwrap();
    assert_eq!(issues(&errors), vec![(3, s("balance failed"))]);
    match &errors[0].issue {
        LoadIssue::BalanceFailed {
            accumulated,
            margin,
            diagnostics,
        } => {
            assert_eq!(accumulated.len(), 1);
            assert_eq!(margin.len(), 1);
            assert!(value_eq(margin[0].1, d(10, 0)));
            assert_eq!(diagnostics.len(), 1);
            assert_eq!(diagnostics[0].description.as_deref(), Some("groceries"));
        }
        _ => unreachable!(),
    }
}

#[test]
fn pad_fills_the_balance() {
    let ds = vec![
        open("Assets:Bank"),
        open("Equity:Opening"),
        DirectiveInput::Pad {
            account: s("Assets:Bank"),
            source: s("Equity:Opening"),
        },
        balance("Assets:Bank", 100),
    ];
    let success = loader().collect(&ds).ok().unwrap();
    match &success.directives[2].loaded {
        Loaded::Pad { postings, source } => {
            assert_eq!(source, "Equity:Opening");
            assert_eq!(postings.len(), 2);
            assert!(value_eq(postings[0].units, d(100, 0)));
            assert_eq!(postings[1].account, "Equity:Opening");
            assert!(value_eq(postings[1].units, d(-100, 0)));
        }
        other => panic!("unexpected {:?}", other),
    }
}

#[test]
fn pad_source_is_debited() {
    let mut l = loader();
    l.open(0, &s("Assets:Bank"), &vec![], None).unwrap();
    l.open(1, &s("Equity:Opening"), &vec![], None).unwrap();
    l.pad(0, &s("Assets:Bank")).unwrap();
    l.directives.push(limabean_booking::loader::LoadedDirective {
        parsed: 2,
        loaded: Loaded::Pad {
            postings: vec![],
            source: s("Equity:Opening"),
        },
    });
    l.balance(3, date(2024, 2, 1), &s("Assets:Bank"), d(100, 0), &s("USD"), None)
        .unwrap();
    let equity = l.inventory.get(&s("Equity:Opening")).unwrap();
    assert!(value_eq(equity.as_vec()[0].units, d(-100, 0)));
    let bank = l.inventory.get(&s("Assets:Bank")).unwrap();
    assert!(value_eq(bank.as_vec()[0].units, d(100, 0)));
    assert!(l.pads.get("Assets:Bank").is_none());
}

#[test]
fn unused_pads_are_errors() {
    let ds = vec![
        open("Assets:Bank"),
        open("Equity:Opening"),
        DirectiveInput::Pad {
            account: s("Assets:Bank"),
            source: s("Equity:Opening"),
        },
        DirectiveInput::Pad {
            account: s("Assets:Bank"),
            source: s("Equity:Opening"),
        },
        DirectiveInput::Other,
    ];
    let errors = loader().collect(&ds).err().unwrap();
    // the second pad finds the first unused, and fails; it is still recorded,
    // as the directive loaded next, which is then reported as unused
    assert_eq!(
        issues(&errors),
        vec![(3, s("unused pad 2")), (4, s("unused pad 4"))]
    );
}

#[test]
fn balance_rollup_counts_subaccounts() {
    let ds = vec![
        open("Assets:Bank"),
        open("Assets:Bank:Savings"),
        open("Equity:Opening"),
        DirectiveInput::Transaction {
            date: date(2024, 1, 2),
            payee: None,
            narration: None,
            postings: vec![
                posting("Assets:Bank:Savings", Some(d(50, 0)), Some("USD")),
                posting("Equity:Opening", Some(d(-50, 0)), Some("USD")),
            ],
        },
        balance("Assets:Bank", 50),
    ];
    assert!(loader_with(plugins(false, true)).collect(&ds).is_ok());
    let errors = loader().collect(&ds).err().unwrap();
    assert_eq!(issues(&errors), vec![(4, s("balance failed"))]);
}

#[test]
fn balance_of_unopened_account_fails() {
    let errors = loader().collect(&vec![balance("Assets:Bank", 0)]).err().unwrap();
    assert_eq!(issues(&errors), vec![(0, s("not open"))]);
}

#[test]
fn other_directives_load_as_nothing() {
    let success = loader().collect(&vec![DirectiveInput::Other]).ok().unwrap();
    match success.directives[0].loaded {
        Loaded::NA => {}
        _ => panic!("expected nothing"),
    }
}

#[test]
fn prefixes_compare_bytes() {
    assert!(starts_with(&s("Assets:Bank:Savings"), &s("Assets:Bank")));
    assert!(starts_with(&s("Assets"), &s("")));
    assert!(!starts_with(&s("Assets"), &s("Assets:Bank")));
    assert!(!starts_with(&s("Equity"), &s("Assets")));
}

#[test]
fn positions_of_new_account_are_empty() {
    let mut l = loader();
    l.open(0, &s("Assets:Bank"), &vec![], None).unwrap();
    let p: &Positions = l.inventory.get(&s("Assets:Bank")).unwrap();
    assert!(p.is_empty());
}

#[test]
fn plugins_are_recognised_by_name() {
    let names = vec![
        s("limabean.balance_rollup"),
        s("beancount.plugins.something_else"),
        s("beancount.plugins.auto_accounts"),
        s("beancount.plugins.auto_accounts.extra"),
    ];
    let (p, unknown) = InternalPlugins::from_names(&names);
    assert!(p.auto_accounts);
    assert!(!p.implicit_prices);
    assert!(p.balance_rollup);
    assert_eq!(unknown, vec![1, 3]);
}

#[test]
fn balance_failure_reason_text() {
    let margin = vec![(s("USD"), d(10, 0)), (s("EUR"), d(-25, 1))];
    assert_eq!(
        balance_failure_reason(&Positions::default(), &margin).unwrap(),
        "accumulated zero, error 10 USD, -2.5 EUR"
    );
    let mut held = Positions::default();
    held.accumulate(d(-30, 0), s("USD"), None, Booking::Strict).unwrap();
    assert_eq!(
        balance_failure_reason(&held, &vec![(s("USD"), d(10, 0))]).unwrap(),
        "accumulated USD -30, error 10 USD"
    );
}

#[test]
fn balance_that_holds_clears_pending_pad() {
    let ds = vec![
        open("Assets:Bank"),
        open("Equity:Opening"),
        DirectiveInput::Pad {
            account: s("Assets:Bank"),
            source: s("Equity:Opening"),
        },
        // nothing held, nothing asserted: the pad is cleared, not used
        balance("Assets:Bank", 0),
    ];
    let success = loader().collect(&ds).ok().unwrap();
    match &success.directives[2].loaded {
        Loaded::Pad { postings, .. } => assert!(postings.is_empty()),
        other => panic!("unexpected {:?}", other),
    }
}

#[test]
fn balance_within_tolerance_passes() {
    let mut l = loader();
    l.open(0, &s("Assets:Bank"), &vec![], None).unwrap();
    l.open(1, &s("Expenses:Food"), &vec![], None).unwrap();
    let postings = vec![
        posting("Expenses:Food", Some(d(1000, 2)), Some("USD")),
        posting("Assets:Bank", Some(d(-1000, 2)), Some("USD")),
    ];
    l.transaction(2, date(2024, 1, 2), &None, &None, &postings).unwrap();
    assert!(l
        .balance(3, date(2024, 2, 1), &s("Assets:Bank"), d(-1001, 2), &s("USD"), Some(d(1, 2)))
        .is_ok());
    assert!(l
        .balance(4, date(2024, 2, 1), &s("Assets:Bank"), d(-1002, 2), &s("USD"), Some(d(1, 2)))
        .is_err());
}

#[test]
fn balance_rollup_excludes_accounts_that_only_share_a_prefix() {
    let ds = vec![
        open("Assets:Bank"),
        open("Assets:Bank2"),
        open("Equity:Opening"),
        DirectiveInput::Transaction {
            date: date(2024, 1, 2),
            payee: None,
            narration: None,
            postings: vec![
                posting("Assets:Bank2", Some(d(50, 0)), Some("USD")),
                posting("Equity:Opening", Some(d(-50, 0)), Some("USD")),
            ],
        },
        balance("Assets:Bank", 0),
    ];
    assert!(loader_with(plugins(false, true)).collect(&ds).is_ok());
}
