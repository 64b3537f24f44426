//! Parsing a ledger with `beancount-parser-lima`, into what loading reads.
use beancount_parser_lima as parser;
use beancount_parser_lima::DirectiveVariant;
use vstd::prelude::*;

use crate::decimal::{from_rust_decimal, Dec};
use crate::ledger::ParsedLedger;
use crate::loader::DirectiveInput;
use crate::types::{Booking, CostSpec, Date, PostingSpec, PriceSpec};

verus! {

/// The parser, holding the ledger's sources.
#[verifier::external_type_specification]
#[verifier::external_body]
pub struct ExBeancountParser<'s>(parser::BeancountParser<'s>);

/// A successful parse: the directives, options, plugins and warnings.
#[verifier::external_type_specification]
#[verifier::external_body]
pub struct ExParseSuccess<'t>(parser::ParseSuccess<'t>);

/// A failed parse: the errors and warnings.
#[verifier::external_type_specification]
#[verifier::external_body]
pub struct ExParseError(parser::ParseError);

/// A parsed number, per unit or in total.
#[verifier::external_type_specification]
#[verifier::external_body]
pub struct ExScopedExprValue(parser::ScopedExprValue);

/// The kinds of directive that loading tells apart.
pub enum DirectiveKind {
    Transaction,
    Balance,
    Open,
    Close,
    Pad,
    Other,
}

/// The booking method of the name that the parser gives it, if any.
pub open spec fn booking_named(name: Seq<char>) -> Option<Booking> {
    if name == "STRICT"@ {
        Some(Booking::Strict)
    } else if name == "STRICT_WITH_SIZE"@ {
        Some(Booking::StrictWithSize)
    } else if name == "NONE"@ {
        Some(Booking::NoneBooking)
    } else if name == "AVERAGE"@ {
        Some(Booking::Average)
    } else if name == "FIFO"@ {
        Some(Booking::Fifo)
    } else if name == "LIFO"@ {
        Some(Booking::Lifo)
    } else if name == "HIFO"@ {
        Some(Booking::Hifo)
    } else {
        None
    }
}

/// The booking method of the name that the parser gives it.
pub fn booking_by_name(name: &String) -> (r: Option<Booking>)
    ensures
        r == booking_named(name@),
{
    if name.eq(&String::from_str("STRICT")) {
        Some(Booking::Strict)
    } else if name.eq(&String::from_str("STRICT_WITH_SIZE")) {
        Some(Booking::StrictWithSize)
    } else if name.eq(&String::from_str("NONE")) {
        Some(Booking::NoneBooking)
    } else if name.eq(&String::from_str("AVERAGE")) {
        Some(Booking::Average)
    } else if name.eq(&String::from_str("FIFO")) {
        Some(Booking::Fifo)
    } else if name.eq(&String::from_str("LIFO")) {
        Some(Booking::Lifo)
    } else if name.eq(&String::from_str("HIFO")) {
        Some(Booking::Hifo)
    } else {
        None
    }
}

/// Calls `BeancountParser::parse`.  What it gives rests on the sources that
/// the parser holds, read from disk, so nothing is said of it.
#[verifier::external_body]
fn parse_sources<'a, 's>(p: &'a parser::BeancountParser<'s>) -> Result<parser::ParseSuccess<'a>, parser::ParseError> {
    p.parse()
}

/// The number of directives parsed (`len` of `ParseSuccess::directives`).
#[verifier::external_body]
fn directive_count(s: &parser::ParseSuccess) -> usize {
    s.directives.len()
}

/// The module names of the plugins, by `Plugin::module_name`, in order.
#[verifier::external_body]
fn plugin_names_of(s: &parser::ParseSuccess) -> Vec<String> {
    s.plugins.iter().map(|p| p.module_name().item().to_string()).collect()
}

/// The name of the default booking method, by `Options::booking_method`.
#[verifier::external_body]
fn booking_name_of(s: &parser::ParseSuccess) -> Option<String> {
    s.options.booking_method().map(|b| b.item().as_ref().to_string())
}

/// The tolerance defaults, by `Options::inferred_tolerance_defaults`.
#[verifier::external_body]
fn tolerance_defaults_of(s: &parser::ParseSuccess) -> Vec<(Option<String>, Dec)> {
    s.options.inferred_tolerance_defaults().map(|(c, t)| (c.map(|c| c.to_string()), from_rust_decimal(t))).collect()
}

/// The tolerance multiplier, by `Options::inferred_tolerance_multiplier`.
#[verifier::external_body]
fn tolerance_multiplier_of(s: &parser::ParseSuccess) -> Option<Dec> {
    s.options.inferred_tolerance_multiplier().map(|m| from_rust_decimal(*m.item()))
}

/// Tells the variants of directive `i` apart, one arm each; `Other` where
/// there is no directive `i`.
#[verifier::external_body]
fn directive_kind(s: &parser::ParseSuccess, i: usize) -> DirectiveKind {
    match s.directives.get(i).map(|d| d.variant()) {
        Some(DirectiveVariant::Transaction(_)) => DirectiveKind::Transaction,
        Some(DirectiveVariant::Balance(_)) => DirectiveKind::Balance,
        Some(DirectiveVariant::Open(_)) => DirectiveKind::Open,
        Some(DirectiveVariant::Close(_)) => DirectiveKind::Close,
        Some(DirectiveVariant::Pad(_)) => DirectiveKind::Pad,
        _ => DirectiveKind::Other,
    }
}

/// The date of directive `i`, by `time::Date`'s `year`, `month` and `day`;
/// `None` where there is no directive `i`.
#[verifier::external_body]
fn directive_date(s: &parser::ParseSuccess, i: usize) -> Option<Date> {
    let d = s.directives.get(i)?.date().item();
    Some(Date { year: d.year(), month: u8::from(d.month()), day: d.day() })
}

/// The account of directive `i` (a balance, open, close or pad); empty for
/// another, or where there is no directive `i`.
#[verifier::external_body]
fn account_of(s: &parser::ParseSuccess, i: usize) -> String {
    match s.directives.get(i).map(|d| d.variant()) {
        Some(DirectiveVariant::Balance(b)) => b.account().item().to_string(),
        Some(DirectiveVariant::Open(o)) => o.account().item().to_string(),
        Some(DirectiveVariant::Close(c)) => c.account().item().to_string(),
        Some(DirectiveVariant::Pad(p)) => p.account().item().to_string(),
        _ => String::new(),
    }
}

/// The source account of pad directive `i`; empty for another.
#[verifier::external_body]
fn pad_source_of(s: &parser::ParseSuccess, i: usize) -> String {
    match s.directives.get(i).map(|d| d.variant()) {
        Some(DirectiveVariant::Pad(p)) => p.source().item().to_string(),
        _ => String::new(),
    }
}

/// The units, currency and tolerance of balance directive `i`; `None` for
/// another.
#[verifier::external_body]
fn balance_amount_of(s: &parser::ParseSuccess, i: usize) -> Option<(Dec, String, Option<Dec>)> {
    match s.directives.get(i).map(|d| d.variant()) {
        Some(DirectiveVariant::Balance(b)) => Some((
            from_rust_decimal(b.atol().amount().number().value()),
            b.atol().amount().currency().item().to_string(),
            b.atol().tolerance().map(|t| from_rust_decimal(*t.item())),
        )),
        _ => None,
    }
}

/// The currencies of open directive `i`, in order; none for another.
#[verifier::external_body]
fn open_currencies_of(s: &parser::ParseSuccess, i: usize) -> Vec<String> {
    match s.directives.get(i).map(|d| d.variant()) {
        Some(DirectiveVariant::Open(o)) => o.currencies().map(|c| c.item().to_string()).collect(),
        _ => Vec::new(),
    }
}

/// The name of the booking method of open directive `i`, if any.
#[verifier::external_body]
fn open_booking_name_of(s: &parser::ParseSuccess, i: usize) -> Option<String> {
    match s.directives.get(i).map(|d| d.variant()) {
        Some(DirectiveVariant::Open(o)) => o.booking().map(|b| b.item().as_ref().to_string()),
        _ => None,
    }
}

/// The payee and narration of transaction `i`; neither for another directive.
#[verifier::external_body]
fn description_parts_of(s: &parser::ParseSuccess, i: usize) -> (Option<String>, Option<String>) {
    match s.directives.get(i).map(|d| d.variant()) {
        Some(DirectiveVariant::Transaction(t)) => (
            t.payee().map(|x| x.item().to_string()),
            t.narration().map(|x| x.item().to_string()),
        ),
        _ => (None, None),
    }
}

/// The number of postings of transaction `i`; none for another directive.
#[verifier::external_body]
fn posting_count(s: &parser::ParseSuccess, i: usize) -> usize {
    match s.directives.get(i).map(|d| d.variant()) {
        Some(DirectiveVariant::Transaction(t)) => t.postings().len(),
        _ => 0,
    }
}

/// The account, units and currency of posting `j` of transaction `i`; `None`
/// where there is no such posting.
#[verifier::external_body]
fn posting_basics_of(s: &parser::ParseSuccess, i: usize, j: usize) -> Option<(String, Option<Dec>, Option<String>)> {
    let Some(DirectiveVariant::Transaction(t)) = s.directives.get(i).map(|d| d.variant()) else { return None };
    let p = t.postings().nth(j)?;
    let units = p.amount().map(|a| from_rust_decimal(a.item().value()));
    Some((p.account().item().to_string(), units, p.currency().map(|c| c.item().to_string())))
}

/// The date of the cost specification of posting `j` of transaction `i`,
/// by `time::Date`'s `year`, `month` and `day`; `None` where it has none.
#[verifier::external_body]
fn cost_date_of(s: &parser::ParseSuccess, i: usize, j: usize) -> Option<Date> {
    let Some(DirectiveVariant::Transaction(t)) = s.directives.get(i).map(|d| d.variant()) else { return None };
    let d = t.postings().nth(j)?.cost_spec().as_ref()?.item().date()?.item();
    Some(Date { year: d.year(), month: u8::from(d.month()), day: d.day() })
}

/// The cost specification of posting `j` of transaction `i`, field by field;
/// `None` where it has none.
#[verifier::external_body]
fn cost_spec_of(s: &parser::ParseSuccess, i: usize, j: usize) -> Option<CostSpec> {
    let Some(DirectiveVariant::Transaction(t)) = s.directives.get(i).map(|d| d.variant()) else { return None };
    let c = t.postings().nth(j)?.cost_spec().as_ref()?.item();
    Some(CostSpec {
        date: cost_date_of(s, i, j),
        per_unit: c.per_unit().map(|x| from_rust_decimal(x.value())),
        total: c.total().map(|x| from_rust_decimal(x.value())),
        currency: c.currency().map(|x| x.item().to_string()),
        label: c.label().map(|x| x.item().to_string()),
        merge: c.merge(),
    })
}

/// A number per unit or in total, as the pair (per unit, total).
#[verifier::external_body]
fn scoped_of(v: &parser::ScopedExprValue) -> (Option<Dec>, Option<Dec>) {
    match v {
        parser::ScopedExprValue::PerUnit(e) => (Some(from_rust_decimal(e.value())), None),
        parser::ScopedExprValue::Total(e) => (None, Some(from_rust_decimal(e.value()))),
    }
}

/// The price specification of posting `j` of transaction `i`, variant for variant.
#[verifier::external_body]
fn price_spec_of(s: &parser::ParseSuccess, i: usize, j: usize) -> Option<PriceSpec> {
    let Some(DirectiveVariant::Transaction(t)) = s.directives.get(i).map(|d| d.variant()) else { return None };
    let ((per_unit, total), currency) = match t.postings().nth(j)?.price_annotation().as_ref()?.item() {
        parser::PriceSpec::Unspecified => ((None, None), None),
        parser::PriceSpec::BareCurrency(c) => ((None, None), Some(c.to_string())),
        parser::PriceSpec::BareAmount(v) => (scoped_of(v), None),
        parser::PriceSpec::CurrencyAmount(v, c) => (scoped_of(v), Some(c.to_string())),
    };
    Some(PriceSpec { per_unit, total, currency })
}

/// The postings of transaction `i`.
fn postings_of(s: &parser::ParseSuccess, i: usize) -> Vec<PostingSpec> {
    let n = posting_count(s, i);
    let mut postings: Vec<PostingSpec> = Vec::new();
    let mut j: usize = 0;
    while j < n
        decreases n - j,
    {
        match posting_basics_of(s, i, j) {
            Some((account, units, currency)) => {
                postings.push(
                    PostingSpec { account, units, currency, cost: cost_spec_of(s, i, j), price: price_spec_of(s, i, j) },
                );
            },
            None => {},
        }
        j = j + 1;
    }
    postings
}

/// What the parse gives of one directive, as plain values: its kind, its
/// date, its account, the source of a pad, the amount of a balance, the
/// currencies and booking method name of an open, and the payee, narration
/// and postings of a transaction.
pub struct DirectiveParts {
    pub kind: DirectiveKind,
    pub date: Option<Date>,
    pub account: String,
    pub pad_source: String,
    pub balance: Option<(Dec, String, Option<Dec>)>,
    pub open_currencies: Vec<String>,
    pub open_booking_name: Option<String>,
    pub payee: Option<String>,
    pub narration: Option<String>,
    pub postings: Vec<PostingSpec>,
}

/// The booking method of an optional name.
pub open spec fn booking_of_name(name: Option<String>) -> Option<Booking> {
    match name {
        Some(n) => booking_named(n@),
        None => None,
    }
}

/// What loading reads of a directive given by its parts: a transaction or
/// balance needs its date (and a balance its amount), else it is read as
/// nothing to load; an open takes the booking method its name gives.
pub open spec fn directive_of_parts(p: DirectiveParts) -> DirectiveInput {
    match p.kind {
        DirectiveKind::Transaction => match p.date {
            Some(date) => DirectiveInput::Transaction { date, payee: p.payee, narration: p.narration, postings: p.postings },
            None => DirectiveInput::Other,
        },
        DirectiveKind::Balance => match (p.date, p.balance) {
            (Some(date), Some((units, currency, tolerance))) => DirectiveInput::Balance {
                date,
                account: p.account,
                units,
                currency,
                tolerance,
            },
            _ => DirectiveInput::Other,
        },
        DirectiveKind::Open => DirectiveInput::Open {
            account: p.account,
            currencies: p.open_currencies,
            booking: booking_of_name(p.open_booking_name),
        },
        DirectiveKind::Close => DirectiveInput::Close { account: p.account },
        DirectiveKind::Pad => DirectiveInput::Pad { account: p.account, source: p.pad_source },
        DirectiveKind::Other => DirectiveInput::Other,
    }
}

/// The booking method of an optional name.
pub fn booking_by_opt_name(name: &Option<String>) -> (r: Option<Booking>)
    ensures
        r == booking_of_name(*name),
{
    match name {
        Some(n) => booking_by_name(n),
        None => None,
    }
}

/// What loading reads of a directive given by its parts.
pub fn directive_from_parts(p: DirectiveParts) -> (r: DirectiveInput)
    ensures
        r == directive_of_parts(p),
{
    let booking = booking_by_opt_name(&p.open_booking_name);
    match p.kind {
        DirectiveKind::Transaction => match p.date {
            Some(date) => DirectiveInput::Transaction { date, payee: p.payee, narration: p.narration, postings: p.postings },
            None => DirectiveInput::Other,
        },
        DirectiveKind::Balance => match (p.date, p.balance) {
            (Some(date), Some((units, currency, tolerance))) => DirectiveInput::Balance {
                date,
                account: p.account,
                units,
                currency,
                tolerance,
            },
            _ => DirectiveInput::Other,
        },
        DirectiveKind::Open => DirectiveInput::Open { account: p.account, currencies: p.open_currencies, booking },
        DirectiveKind::Close => DirectiveInput::Close { account: p.account },
        DirectiveKind::Pad => DirectiveInput::Pad { account: p.account, source: p.pad_source },
        DirectiveKind::Other => DirectiveInput::Other,
    }
}

/// The parts of directive `i`.
fn directive_parts(s: &parser::ParseSuccess, i: usize) -> DirectiveParts {
    let (payee, narration) = description_parts_of(s, i);
    DirectiveParts {
        kind: directive_kind(s, i),
        date: directive_date(s, i),
        account: account_of(s, i),
        pad_source: pad_source_of(s, i),
        balance: balance_amount_of(s, i),
        open_currencies: open_currencies_of(s, i),
        open_booking_name: open_booking_name_of(s, i),
        payee,
        narration,
        postings: postings_of(s, i),
    }
}

/// A parsed ledger from its parts: the directives in order, the plugin
/// names, the default booking method that its name gives, and the tolerance
/// options.
pub fn ledger_from_parts(
    directives: Vec<DirectiveInput>,
    plugin_names: Vec<String>,
    booking_name: Option<String>,
    tolerance_defaults: Vec<(Option<String>, Dec)>,
    tolerance_multiplier: Option<Dec>,
) -> (r: ParsedLedger)
    ensures
        r.directives@ == directives@,
        r.plugin_names@ == plugin_names@,
        r.booking_method == booking_of_name(booking_name),
        r.tolerance_defaults@ == tolerance_defaults@,
        r.tolerance_multiplier == tolerance_multiplier,
{
    let booking_method = booking_by_opt_name(&booking_name);
    ParsedLedger { directives, plugin_names, booking_method, tolerance_defaults, tolerance_multiplier }
}

/// What loading reads of a successful parse: each directive in order, the
/// plugin names, the default booking method (by its name) and the
/// tolerance options.
fn ledger_of(s: &parser::ParseSuccess) -> ParsedLedger {
    let n = directive_count(s);
    let mut directives: Vec<DirectiveInput> = Vec::new();
    let mut i: usize = 0;
    while i < n
        decreases n - i,
    {
        directives.push(directive_from_parts(directive_parts(s, i)));
        i = i + 1;
    }
    ledger_from_parts(
        directives,
        plugin_names_of(s),
        booking_name_of(s),
        tolerance_defaults_of(s),
        tolerance_multiplier_of(s),
    )
}

/// Parse the ledger that the parser holds: what loading reads of it, with
/// the parse itself (for reports and output); or why it could not be
/// parsed.  What the parse gives rests on the sources, read from disk, and
/// is not stated.
pub fn parse_ledger<'a, 's>(p: &'a parser::BeancountParser<'s>) -> Result<(ParsedLedger, parser::ParseSuccess<'a>), parser::ParseError> {
    match parse_sources(p) {
        Ok(success) => {
            let ledger = ledger_of(&success);
            Ok((ledger, success))
        },
        Err(e) => Err(e),
    }
}

} // verus!
