use beancount_parser_lima::{BeancountParser, BeancountSources};
use limabean_booking::decimal::Dec;
use limabean_booking::ledger::{load_ledger, ParsedLedger};
use limabean_booking::loader::{DirectiveInput, LoadIssue, LoadWarning, Loaded};
use limabean_booking::parse::{booking_by_name, directive_from_parts, ledger_from_parts, parse_ledger, DirectiveKind, DirectiveParts};
use limabean_booking::types::Date;
use limabean_booking::types::Booking;

fn s(x: &str) -> String {
    x.to_string()
}

fn ledger(plugin_names: Vec<String>, booking_method: Option<Booking>, directives: Vec<DirectiveInput>) -> ParsedLedger {
    ParsedLedger {
        directives,
        plugin_names,
        booking_method,
        tolerance_defaults: vec![],
        tolerance_multiplier: None,
    }
}

#[test]
fn unknown_plugins_and_unsupported_default_booking_warn() {
    let l = ledger(
        vec![s("x.y"), s("beancount.plugins.auto_accounts"), s("z")],
        Some(Booking::Average),
        vec![DirectiveInput::Other],
    );
    let (result, warnings) = load_ledger(&l);
    assert!(result.is_ok());
    assert_eq!(warnings.len(), 3);
    assert!(matches!(warnings[0], LoadWarning::UnknownPlugin { plugin: 0 }));
    assert!(matches!(warnings[1], LoadWarning::UnknownPlugin { plugin: 2 }));
    assert!(matches!(
        warnings[2],
        LoadWarning::UnsupportedDefaultBooking {
            booking: Booking::Average
        }
    ));
}

#[test]
fn supported_default_booking_gives_no_warning() {
    let (_, warnings) = load_ledger(&ledger(vec![], Some(Booking::Fifo), vec![]));
    assert!(warnings.is_empty());
}

#[test]
fn booking_names_of_the_parser() {
    assert_eq!(booking_by_name(&s("STRICT_WITH_SIZE")), Some(Booking::StrictWithSize));
    assert_eq!(booking_by_name(&s("NONE")), Some(Booking::NoneBooking));
    assert_eq!(booking_by_name(&s("HIFO")), Some(Booking::Hifo));
    assert_eq!(booking_by_name(&s("Strict")), None);
}

#[test]
fn parsed_text_loads() {
    let text = "\
option \"booking_method\" \"FIFO\"
plugin \"beancount.plugins.auto_accounts\"

2024-01-01 open Assets:Bank USD
2024-01-02 * \"Shop\" \"lunch\"
  Expenses:Food  12.50 USD
  Assets:Bank
2024-01-03 balance Assets:Bank  -12.50 USD
";
    let sources = BeancountSources::from(text.to_string());
    let parser = BeancountParser::new(&sources);
    let (parsed, _) = parse_ledger(&parser).ok().unwrap();
    assert_eq!(parsed.plugin_names, vec![s("beancount.plugins.auto_accounts")]);
    assert_eq!(parsed.booking_method, Some(Booking::Fifo));
    assert_eq!(parsed.directives.len(), 3);
    match &parsed.directives[1] {
        DirectiveInput::Transaction { date, payee, postings, .. } => {
            assert_eq!((date.year, date.month, date.day), (2024, 1, 2));
            assert_eq!(payee.as_deref(), Some("Shop"));
            assert_eq!(postings.len(), 2);
            assert!(postings[0].units.unwrap().num_eq(&Dec::from_parts(1250, 2)));
            assert!(postings[1].units.is_none());
        }
        _ => panic!("expected a transaction"),
    }
    let (result, warnings) = load_ledger(&parsed);
    assert!(warnings.is_empty());
    let success = result.ok().unwrap();
    match &success.directives[1].loaded {
        Loaded::Transaction { auto_accounts, .. } => assert_eq!(auto_accounts, &vec![s("Expenses:Food")]),
        _ => panic!("expected a transaction"),
    }
}

#[test]
fn parsed_wrong_balance_fails() {
    let text = "\
2024-01-01 open Assets:Bank
2024-01-01 open Expenses:Food
2024-01-02 * \"lunch\"
  Expenses:Food  12.50 USD
  Assets:Bank
2024-01-03 balance Assets:Bank  -10.00 USD
";
    let sources = BeancountSources::from(text.to_string());
    let parser = BeancountParser::new(&sources);
    let (parsed, _) = parse_ledger(&parser).ok().unwrap();
    let errors = load_ledger(&parsed).0.err().unwrap();
    assert_eq!(errors.len(), 1);
    assert_eq!(errors[0].parsed, 3);
    assert!(matches!(errors[0].issue, LoadIssue::BalanceFailed { .. }));
}

fn parts(kind: DirectiveKind) -> DirectiveParts {
    DirectiveParts {
        kind,
        date: Some(Date { year: 2024, month: 1, day: 2 }),
        account: s("Assets:Bank"),
        pad_source: s("Equity:Opening"),
        balance: Some((Dec::from_parts(1000, 2), s("NZD"), None)),
        open_currencies: vec![s("NZD")],
        open_booking_name: Some(s("FIFO")),
        payee: Some(s("shop")),
        narration: None,
        postings: vec![],
    }
}

#[test]
fn directives_from_their_parts() {
    match directive_from_parts(parts(DirectiveKind::Open)) {
        DirectiveInput::Open { account, currencies, booking } => {
            assert_eq!(account, "Assets:Bank");
            assert_eq!(currencies, vec![s("NZD")]);
            assert!(matches!(booking, Some(Booking::Fifo)));
        }
        _ => panic!("expected an open"),
    }
    match directive_from_parts(parts(DirectiveKind::Balance)) {
        DirectiveInput::Balance { account, units, currency, tolerance, .. } => {
            assert_eq!(account, "Assets:Bank");
            assert_eq!(units.mantissa(), 1000);
            assert_eq!(currency, "NZD");
            assert!(tolerance.is_none());
        }
        _ => panic!("expected a balance"),
    }
    match directive_from_parts(parts(DirectiveKind::Pad)) {
        DirectiveInput::Pad { account, source } => {
            assert_eq!(account, "Assets:Bank");
            assert_eq!(source, "Equity:Opening");
        }
        _ => panic!("expected a pad"),
    }
    match directive_from_parts(parts(DirectiveKind::Transaction)) {
        DirectiveInput::Transaction { payee, narration, .. } => {
            assert_eq!(payee, Some(s("shop")));
            assert!(narration.is_none());
        }
        _ => panic!("expected a transaction"),
    }
    // a balance without its amount, or a transaction without its date, loads as nothing
    let mut no_amount = parts(DirectiveKind::Balance);
    no_amount.balance = None;
    assert!(matches!(directive_from_parts(no_amount), DirectiveInput::Other));
    let mut no_date = parts(DirectiveKind::Transaction);
    no_date.date = None;
    assert!(matches!(directive_from_parts(no_date), DirectiveInput::Other));
    assert!(matches!(directive_from_parts(parts(DirectiveKind::Other)), DirectiveInput::Other));
}

#[test]
fn ledger_from_its_parts() {
    let l = ledger_from_parts(vec![DirectiveInput::Other], vec![s("beancount.plugins.auto_accounts")], Some(s("HIFO")), vec![], None);
    assert_eq!(l.directives.len(), 1);
    assert_eq!(l.plugin_names, vec![s("beancount.plugins.auto_accounts")]);
    assert!(matches!(l.booking_method, Some(Booking::Hifo)));
    let unknown = ledger_from_parts(vec![], vec![], Some(s("SOMETIMES")), vec![], None);
    assert!(unknown.booking_method.is_none());
}
