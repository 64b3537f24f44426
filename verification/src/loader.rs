//! Loading a ledger: opening and closing accounts, booking transactions
//! against the accounts' positions, and checking balance assertions, with
//! padding where a pad directive allows it.
use vstd::prelude::*;

use crate::collections::{
    currency_numbers_map, entries_match, inventory_map, no_accounts, no_origins, origins_map, positions_entries_match, AccountOrigins,
    CurrencyNumbers, Inventory, Origin,
};
use crate::decimal::{abs_value, dec_neg, decimal_checked_add, decimal_checked_sub, decimal_text, sub_is_exact, Dec, Number};
use crate::text::{cost_dates_valid, positions_text};
use vstd::string::StringExecFns;
use vstd::utf8::encode_utf8;
use crate::book::{book, booked, Bookings};
use crate::errors::BookingError;
use crate::order::copy_opt_str;
use crate::positions::{accumulate_outcome, units_upto, Positions};
use crate::tolerance::LimaTolerance;
use crate::internal::Interpolated;
use crate::types::{
    cost_of_posting_cost, is_supported_method, supported_method, Booking, BookingMethods, Cost, Date, Position,
    PostingCost, PostingSpec, Price,
};
use vstd::hash_map::StringHashMap;
use vstd::hash_set::StringHashSet;

verus! {

/// An amount: a number of a currency.
#[derive(Clone, Debug)]
pub struct Amount {
    pub number: Dec,
    pub currency: String,
}

/// What an account's balance assertion reports when it fails, one line for
/// each posting since the last assertion.
#[derive(Clone, Debug)]
pub struct BalanceDiagnostic {
    pub date: Date,
    pub description: Option<String>,
    pub amount: Option<Amount>,
    pub positions: Option<Positions>,
}

/// A booked posting: the posting of the transaction it comes from (by index;
/// none for a posting that a pad makes), its account, units and currency,
/// with a single cost or a price.
#[derive(Clone, Debug)]
pub struct Posting {
    pub posting_idx: Option<usize>,
    pub account: String,
    pub units: Dec,
    pub currency: String,
    pub cost: Option<Cost>,
    pub price: Option<Price>,
}

/// The margin of a balance assertion for the first `n` currencies that the
/// account holds: what the assertion asks less what is held for its currency,
/// and what is held negated for any other, each kept only where its magnitude
/// exceeds the tolerance; `None` where a difference overflows.
pub open spec fn margin_upto(units: Dec, currency: Seq<char>, tolerance: Dec, es: Seq<(String, Dec)>, n: int) -> Option<Seq<(String, Dec)>>
    decreases n,
{
    if n <= 0 {
        Some(Seq::empty())
    } else {
        match margin_upto(units, currency, tolerance, es, n - 1) {
            None => None,
            Some(m) => {
                let (k, x) = es[n - 1];
                let v = if k@ == currency {
                    decimal_checked_sub(units, x)
                } else {
                    Some(dec_neg(x))
                };
                match v {
                    None => None,
                    Some(v) => if abs_value(v) > tolerance.value() {
                        Some(m.push((k, v)))
                    } else {
                        Some(m)
                    },
                }
            },
        }
    }
}

/// The margin of a balance assertion of `units` of `currency`, given what
/// the account holds of each currency (`es`): as [margin_upto], with the
/// asserted units themselves where the account holds none of the currency
/// and they exceed the tolerance.
pub open spec fn margin_of(units: Dec, currency: String, tolerance: Dec, es: Seq<(String, Dec)>) -> Option<Seq<(String, Dec)>> {
    match margin_upto(units, currency@, tolerance, es, es.len() as int) {
        None => None,
        Some(m) => if !(exists|i: int| 0 <= i < es.len() && (#[trigger] es[i]).0@ == currency@) && abs_value(units) > tolerance.value() {
            Some(m.push((currency, units)))
        } else {
            Some(m)
        },
    }
}

proof fn lemma_margin_none_stays(units: Dec, currency: Seq<char>, tolerance: Dec, es: Seq<(String, Dec)>, k: int, n: int)
    requires
        0 <= k <= n,
        margin_upto(units, currency, tolerance, es, k) is None,
    ensures
        margin_upto(units, currency, tolerance, es, n) is None,
    decreases n - k,
{
    if k < n {
        lemma_margin_none_stays(units, currency, tolerance, es, k + 1, n);
    }
}

/// What an account holds matches a balance assertion: its units of the
/// asserted currency differ from those asserted by at most the tolerance
/// (the difference being exact), those of any other currency are within the
/// tolerance of zero, and where it holds none of the asserted currency, the
/// asserted units themselves are within the tolerance of zero.
pub open spec fn held_within(held: Map<Seq<char>, Dec>, units: Dec, currency: Seq<char>, tol: int) -> bool {
    &&& forall|k: Seq<char>| #[trigger] held.contains_key(k) ==> if k == currency {
        sub_is_exact(units, held[k]) && -tol <= units.value() - held[k].value() <= tol
    } else {
        abs_value(held[k]) <= tol
    }
    &&& held.contains_key(currency) || abs_value(units) <= tol
}

/// An entry of what an account holds that does not match a balance
/// assertion: of another currency, beyond the tolerance of zero; of the
/// asserted currency, differing by more than the tolerance, exactly.
pub open spec fn beyond_entry(e: (String, Dec), units: Dec, currency: Seq<char>, tol: int) -> bool {
    if e.0@ == currency {
        sub_is_exact(units, e.1) && !(-tol <= units.value() - e.1.value() <= tol)
    } else {
        abs_value(e.1) > tol
    }
}

/// What an account holds does not match a balance assertion: its units of
/// some other currency are beyond the tolerance of zero, or its units of the
/// asserted currency differ from those asserted by more than the tolerance
/// (the difference being exact), or it holds none of the asserted currency
/// and the asserted units are beyond the tolerance of zero.
pub open spec fn held_beyond(held: Map<Seq<char>, Dec>, units: Dec, currency: Seq<char>, tol: int) -> bool {
    ||| exists|k: Seq<char>| #[trigger] held.contains_key(k) && k != currency && abs_value(held[k]) > tol
    ||| held.contains_key(currency) && sub_is_exact(units, held[currency]) && !(-tol <= units.value()
        - held[currency].value() <= tol)
    ||| !held.contains_key(currency) && abs_value(units) > tol
}

/// What's the gap between what the account has and what the balance
/// assertion says it should have?  `None` where a difference overflows;
/// nothing where the account holds what is asserted.
pub fn calculate_balance_margin(
    balance_units: Dec,
    balance_currency: &String,
    balance_tolerance: Dec,
    account_rollup: CurrencyNumbers,
) -> (r: Option<Vec<(String, Dec)>>)
    ensures
        exists|es: Seq<(String, Dec)>|
            #![trigger entries_match(es, currency_numbers_map(account_rollup))]
            entries_match(es, currency_numbers_map(account_rollup)) && match margin_of(
                balance_units,
                *balance_currency,
                balance_tolerance,
                es,
            ) {
                None => r is None,
                Some(m) => r matches Some(v) && v@ == m,
            },
        held_within(currency_numbers_map(account_rollup), balance_units, balance_currency@, balance_tolerance.value())
            ==> (r matches Some(v) && v@.len() == 0),
        held_beyond(currency_numbers_map(account_rollup), balance_units, balance_currency@, balance_tolerance.value())
            ==> (r matches Some(v) ==> v@.len() > 0),
{
    let ghost rm = currency_numbers_map(account_rollup);
    let ghost within = held_within(rm, balance_units, balance_currency@, balance_tolerance.value());
    let entries = account_rollup.into_entries();
    let n = entries.len();
    let mut margin: Vec<(String, Dec)> = Vec::new();
    let mut has_balance_currency = false;
    let mut i: usize = 0;
    while i < n
        invariant
            n == entries@.len(),
            i <= n,
            rm == currency_numbers_map(account_rollup),
            entries_match(entries@, rm),
            margin_upto(balance_units, balance_currency@, balance_tolerance, entries@, i as int) == Some(margin@),
            has_balance_currency == exists|j: int| 0 <= j < i && (#[trigger] entries@[j]).0@ == balance_currency@,
            within == held_within(rm, balance_units, balance_currency@, balance_tolerance.value()),
            within ==> margin@.len() == 0,
            (exists|j: int| 0 <= j < i && #[trigger] beyond_entry(entries@[j], balance_units, balance_currency@, balance_tolerance.value()))
                ==> margin@.len() > 0,
        decreases n - i,
    {
        let cur = &entries[i].0;
        let number = entries[i].1;
        proof {
            assert(rm.contains_key(entries@[i as int].0@) && rm[entries@[i as int].0@] == entries@[i as int].1);
        }
        let v = if cur.eq(balance_currency) {
            has_balance_currency = true;
            balance_units.checked_sub(&number)
        } else {
            Some(number.neg())
        };
        match v {
            None => {
                proof {
                    lemma_margin_none_stays(balance_units, balance_currency@, balance_tolerance, entries@, i + 1, n as int);
                    assert(entries_match(entries@, currency_numbers_map(account_rollup)));
                }
                return None;
            },
            Some(v) => {
                // discard anything below the tolerance
                if balance_tolerance.num_lt(&v.abs()) {
                    margin.push((cur.clone(), v));
                }
            },
        }
        proof {
            if exists|j: int| 0 <= j < i + 1 && #[trigger] beyond_entry(entries@[j], balance_units, balance_currency@, balance_tolerance.value()) {
                let j = choose|j: int| 0 <= j < i + 1 && #[trigger] beyond_entry(entries@[j], balance_units, balance_currency@, balance_tolerance.value());
                if j < i {
                    assert(exists|j: int| 0 <= j < i && #[trigger] beyond_entry(entries@[j], balance_units, balance_currency@, balance_tolerance.value()));
                }
            }
            if cur@ == balance_currency@ {
                assert(0 <= i < i + 1 && entries@[i as int].0@ == balance_currency@);
            }
            if exists|j: int| 0 <= j < i + 1 && (#[trigger] entries@[j]).0@ == balance_currency@ {
                let j = choose|j: int| 0 <= j < i + 1 && (#[trigger] entries@[j]).0@ == balance_currency@;
                if j < i {
                    assert(exists|j: int| 0 <= j < i && (#[trigger] entries@[j]).0@ == balance_currency@);
                }
            }
        }
        i = i + 1;
    }
    proof {
        if held_beyond(rm, balance_units, balance_currency@, balance_tolerance.value()) {
            if exists|k: Seq<char>| #[trigger] rm.contains_key(k) && k != balance_currency@ && abs_value(rm[k]) > balance_tolerance.value() {
                let k = choose|k: Seq<char>| #[trigger] rm.contains_key(k) && k != balance_currency@ && abs_value(rm[k]) > balance_tolerance.value();
                let j = choose|j: int| 0 <= j < entries@.len() && entries@[j].0@ == k;
                assert(beyond_entry(entries@[j], balance_units, balance_currency@, balance_tolerance.value()));
            } else if rm.contains_key(balance_currency@) {
                let j = choose|j: int| 0 <= j < entries@.len() && entries@[j].0@ == balance_currency@;
                assert(beyond_entry(entries@[j], balance_units, balance_currency@, balance_tolerance.value()));
            }
        }
        if within && !has_balance_currency {
            if rm.contains_key(balance_currency@) {
                let j = choose|j: int| 0 <= j < entries@.len() && entries@[j].0@ == balance_currency@;
                assert(exists|j: int| 0 <= j < i && (#[trigger] entries@[j]).0@ == balance_currency@);
            }
        }
    }
    // cope with the case of the balance currency not being in the inventory
    if !has_balance_currency && balance_tolerance.num_lt(&balance_units.abs()) {
        margin.push((balance_currency.clone(), balance_units));
    }
    Some(margin)
}

/// The postings that pad the margin of a balance assertion: for each currency
/// of the margin, its number to the asserted account and its negation to the
/// pad's source account.
pub open spec fn pad_postings_of(margin: Seq<(String, Dec)>, balance_account: String, pad_source: String) -> Seq<Posting> {
    Seq::new(
        2 * margin.len(),
        |i: int|
            if i % 2 == 0 {
                Posting {
                    posting_idx: None,
                    account: balance_account,
                    units: margin[i / 2].1,
                    currency: margin[i / 2].0,
                    cost: None,
                    price: None,
                }
            } else {
                Posting {
                    posting_idx: None,
                    account: pad_source,
                    units: dec_neg(margin[i / 2].1),
                    currency: margin[i / 2].0,
                    cost: None,
                    price: None,
                }
            },
    )
}

/// The postings with which a pad makes up the margin of a balance assertion.
pub fn calculate_balance_pad_postings(margin: &Vec<(String, Dec)>, balance_account: &String, pad_source: &String) -> (r: Vec<Posting>)
    ensures
        r@ == pad_postings_of(margin@, *balance_account, *pad_source),
{
    let mut postings: Vec<Posting> = Vec::new();
    let mut i: usize = 0;
    while i < margin.len()
        invariant
            i <= margin@.len(),
            postings@ == pad_postings_of(margin@.take(i as int), *balance_account, *pad_source),
        decreases margin@.len() - i,
    {
        let cur = &margin[i].0;
        let number = margin[i].1;
        postings.push(
            Posting {
                posting_idx: None,
                account: balance_account.clone(),
                units: number,
                currency: cur.clone(),
                cost: None,
                price: None,
            },
        );
        postings.push(
            Posting {
                posting_idx: None,
                account: pad_source.clone(),
                units: number.neg(),
                currency: cur.clone(),
                cost: None,
                price: None,
            },
        );
        proof {
            let t = margin@.take(i + 1);
            assert(postings@ =~= pad_postings_of(t, *balance_account, *pad_source)) by {
                assert forall|j: int| 0 <= j < postings@.len() implies postings@[j] == pad_postings_of(t, *balance_account, *pad_source)[j] by {
                    if j < 2 * i {
                        assert(t[j / 2] == margin@.take(i as int)[j / 2]);
                    }
                }
            }
        }
        i = i + 1;
    }
    assert(margin@.take(i as int) =~= margin@);
    postings
}

/// The positions after adding (or subtracting) each number of the margin in
/// its currency, without cost, in turn; `None` where a sum overflows.
pub open spec fn adjusted_upto(ps: Seq<Position>, margin: Seq<(String, Dec)>, add: bool, n: int) -> Option<Seq<Position>>
    decreases n,
{
    if n <= 0 {
        Some(ps)
    } else {
        match adjusted_upto(ps, margin, add, n - 1) {
            None => None,
            Some(q) => match accumulate_outcome(
                q,
                if add {
                    margin[n - 1].1
                } else {
                    dec_neg(margin[n - 1].1)
                },
                margin[n - 1].0,
                None,
                Booking::Strict,
            ) {
                Ok(q2) => Some(q2),
                Err(_) => None,
            },
        }
    }
}

proof fn lemma_adjusted_none_stays(ps: Seq<Position>, margin: Seq<(String, Dec)>, add: bool, k: int, n: int)
    requires
        0 <= k <= n,
        adjusted_upto(ps, margin, add, k) is None,
    ensures
        adjusted_upto(ps, margin, add, n) is None,
    decreases n - k,
{
    if k < n {
        lemma_adjusted_none_stays(ps, margin, add, k + 1, n);
    }
}

/// Reset the account's positions to what was asserted, to localise errors,
/// adding the margin (or, for the pad's source account, subtracting it).
/// Fails, where a sum overflows.
pub fn adjust_account_to_match_balance(positions: &mut Positions, margin: &Vec<(String, Dec)>, add: bool) -> (r: Result<(), ()>)
    ensures
        match adjusted_upto(old(positions)@, margin@, add, margin@.len() as int) {
            None => r is Err,
            Some(q) => r is Ok && final(positions)@ == q,
        },
{
    let ghost p0 = positions@;
    let mut i: usize = 0;
    while i < margin.len()
        invariant
            i <= margin@.len(),
            p0 == old(positions)@,
            adjusted_upto(p0, margin@, add, i as int) == Some(positions@),
        decreases margin@.len() - i,
    {
        let units = if add {
            margin[i].1
        } else {
            margin[i].1.neg()
        };
        // the booking method doesn't matter without cost
        match positions.accumulate(units, margin[i].0.clone(), None, Booking::Strict) {
            Ok(()) => {},
            Err(_) => {
                proof {
                    lemma_adjusted_none_stays(p0, margin@, add, i + 1, margin@.len() as int);
                }
                return Err(());
            },
        }
        i = i + 1;
    }
    Ok(())
}

/// The internal plugins that loading honours.
#[derive(Clone, Copy, Debug)]
pub struct InternalPlugins {
    pub auto_accounts: bool,
    pub implicit_prices: bool,
    /// Balance assertions apply to the rollup of an account and all its subaccounts.
    pub balance_rollup: bool,
}

/// The name of the plugin that opens accounts automatically.
pub open spec fn auto_accounts_name() -> Seq<char> {
    "beancount.plugins.auto_accounts"@
}

/// The name of the plugin that adds prices implied by postings.
pub open spec fn implicit_prices_name() -> Seq<char> {
    "beancount.plugins.implicit_prices"@
}

/// The name of the plugin that makes balance assertions apply to subaccounts too.
pub open spec fn balance_rollup_name() -> Seq<char> {
    "limabean.balance_rollup"@
}

/// Some of the plugins is named so.
pub open spec fn names_plugin(names: Seq<String>, name: Seq<char>) -> bool {
    exists|i: int| 0 <= i < names.len() && (#[trigger] names[i])@ == name
}

/// Whether the plugin name is one that loading honours.
pub open spec fn known_plugin(name: Seq<char>) -> bool {
    name == auto_accounts_name() || name == implicit_prices_name() || name == balance_rollup_name()
}

/// The internal plugins among the plugins named, and the indices of the
/// names that are not of an internal plugin, in increasing order.
pub open spec fn plugins_of(names: Seq<String>, plugins: InternalPlugins, unknown: Seq<usize>) -> bool {
    &&& plugins.auto_accounts == names_plugin(names, auto_accounts_name())
    &&& plugins.implicit_prices == names_plugin(names, implicit_prices_name())
    &&& plugins.balance_rollup == names_plugin(names, balance_rollup_name())
    &&& forall|k: int| 0 <= k < unknown.len() ==> (#[trigger] unknown[k]) < names.len() && !known_plugin(names[unknown[k] as int]@)
    &&& forall|k: int, l: int| 0 <= k < l < unknown.len() ==> (#[trigger] unknown[k]) < (#[trigger] unknown[l])
    &&& forall|i: int| 0 <= i < names.len() && !known_plugin((#[trigger] names[i])@) ==> unknown.contains(i as usize)
}

impl InternalPlugins {
    /// The internal plugins among the plugins named, and the indices of the
    /// names that are not of an internal plugin, in order.
    pub fn from_names(names: &Vec<String>) -> (r: (InternalPlugins, Vec<usize>))
        ensures
            plugins_of(names@, r.0, r.1@),
    {
        let auto_accounts = String::from_str("beancount.plugins.auto_accounts");
        let implicit_prices = String::from_str("beancount.plugins.implicit_prices");
        let balance_rollup = String::from_str("limabean.balance_rollup");
        proof {
            reveal_strlit("beancount.plugins.auto_accounts");
            reveal_strlit("beancount.plugins.implicit_prices");
            reveal_strlit("limabean.balance_rollup");
            assert(auto_accounts_name().len() != implicit_prices_name().len());
            assert(auto_accounts_name().len() != balance_rollup_name().len());
            assert(implicit_prices_name().len() != balance_rollup_name().len());
        }
        let mut plugins = InternalPlugins { auto_accounts: false, implicit_prices: false, balance_rollup: false };
        let mut unknown: Vec<usize> = Vec::new();
        let mut i: usize = 0;
        while i < names.len()
            invariant
                i <= names@.len(),
                auto_accounts@ == auto_accounts_name(),
                implicit_prices@ == implicit_prices_name(),
                balance_rollup@ == balance_rollup_name(),
                auto_accounts_name() != implicit_prices_name(),
                auto_accounts_name() != balance_rollup_name(),
                implicit_prices_name() != balance_rollup_name(),
                plugins.auto_accounts == names_plugin(names@.take(i as int), auto_accounts_name()),
                plugins.implicit_prices == names_plugin(names@.take(i as int), implicit_prices_name()),
                plugins.balance_rollup == names_plugin(names@.take(i as int), balance_rollup_name()),
                forall|k: int| 0 <= k < unknown@.len() ==> (#[trigger] unknown@[k]) < i && !known_plugin(names@[unknown@[k] as int]@),
                forall|k: int, l: int| 0 <= k < l < unknown@.len() ==> (#[trigger] unknown@[k]) < (#[trigger] unknown@[l]),
                forall|j: int| 0 <= j < i && !known_plugin((#[trigger] names@[j])@) ==> unknown@.contains(j as usize),
            decreases names@.len() - i,
        {
            let ghost t0 = names@.take(i as int);
            let ghost t1 = names@.take(i + 1);
            let ghost u0 = unknown@;
            let name = &names[i];
            if name.eq(&auto_accounts) {
                plugins.auto_accounts = true;
            } else if name.eq(&implicit_prices) {
                plugins.implicit_prices = true;
            } else if name.eq(&balance_rollup) {
                plugins.balance_rollup = true;
            } else {
                unknown.push(i);
            }
            proof {
                assert forall|n: Seq<char>| names_plugin(t1, n) == (names_plugin(t0, n) || names@[i as int]@ == n) by {
                    if names_plugin(t1, n) {
                        let j = choose|j: int| 0 <= j < t1.len() && (#[trigger] t1[j])@ == n;
                        if j < i {
                            assert(t0[j] == t1[j]);
                        }
                    }
                    if names_plugin(t0, n) {
                        let j = choose|j: int| 0 <= j < t0.len() && (#[trigger] t0[j])@ == n;
                        assert(t1[j] == t0[j]);
                    }
                    if names@[i as int]@ == n {
                        assert(t1[i as int] == names@[i as int]);
                    }
                }
                assert forall|j: int| 0 <= j < i + 1 && !known_plugin((#[trigger] names@[j])@) implies unknown@.contains(j as usize) by {
                    if j < i {
                        let k = choose|k: int| 0 <= k < u0.len() && u0[k] == j as usize;
                        assert(unknown@[k] == u0[k]);
                    } else {
                        assert(unknown@[unknown@.len() - 1] == i);
                    }
                }
            }
            i = i + 1;
        }
        assert(names@.take(i as int) =~= names@);
        (plugins, unknown)
    }
}

/// What loading leaves for a directive: the booked postings and prices of a
/// transaction, with the accounts it opened automatically; the postings of a
/// pad (filled in by the balance assertion it pads), with its source account;
/// nothing for any other directive.
#[derive(Debug)]
pub enum Loaded {
    NA,
    Transaction { postings: Vec<Posting>, prices: Vec<(String, String, Dec)>, auto_accounts: Vec<String> },
    Pad { postings: Vec<Posting>, source: String },
}

/// A directive as loaded, with the index of the directive as parsed.
#[derive(Debug)]
pub struct LoadedDirective {
    pub parsed: usize,
    pub loaded: Loaded,
}

/// Why a directive could not be loaded.
#[derive(Debug)]
pub enum LoadIssue {
    AccountNotOpen,
    /// The account was closed, where given.
    AccountWasClosed(Origin),
    /// The account was already opened, where given.
    AccountAlreadyOpened(Origin),
    /// The account was already closed, where given.
    AccountAlreadyClosed(Origin),
    /// The currency is not one the account was opened for, where given.
    InvalidCurrency(Origin),
    /// A pad directive, by its index as parsed, that no balance assertion used.
    UnusedPad(usize),
    /// A balance assertion failed: the positions accumulated, the margin by
    /// currency, and the postings since the last assertion.
    BalanceFailed { accumulated: Positions, margin: Vec<(String, Dec)>, diagnostics: Vec<BalanceDiagnostic> },
    Booking(BookingError),
    /// A sum of the account's units does not fit in a decimal.
    NumberOverflow,
    /// The pending pad of the account, by its index among the loaded
    /// directives, is not a pad: loading cannot go on.
    PadIsNotAPad(usize),
    /// The source account of the pad has not been built: loading cannot go on.
    PadSourceNotBuilt(String),
}

/// A directive that could not be loaded, by its index as parsed, and why.
#[derive(Debug)]
pub struct LoadError {
    pub parsed: usize,
    pub issue: LoadIssue,
}

/// A warning about a directive, by its index as parsed, or about the
/// ledger's plugins or options.
#[derive(Clone, Copy, Debug)]
pub enum LoadWarning {
    /// The booking method is not supported; the default is used.
    UnsupportedBooking { parsed: usize, booking: Booking },
    /// The same, reported a second time without naming the method.
    UnsupportedBookingUnnamed { parsed: usize },
    /// The plugin, by its index among those named, is not one loading knows.
    UnknownPlugin { plugin: usize },
    /// The ledger's default booking method is not supported; `Strict` is used.
    UnsupportedDefaultBooking { booking: Booking },
}

/// Where the account is not open: `AccountWasClosed` if it was closed,
/// else `AccountNotOpen`.
pub open spec fn account_issue(open: Map<Seq<char>, Origin>, closed: Map<Seq<char>, Origin>, a: Seq<char>) -> Option<LoadIssue> {
    if open.contains_key(a) {
        None
    } else if closed.contains_key(a) {
        Some(LoadIssue::AccountWasClosed(closed[a]))
    } else {
        Some(LoadIssue::AccountNotOpen)
    }
}

/// All currencies are valid for an account unless some were given when it
/// was opened.
pub open spec fn currency_valid(allowed: Set<Seq<char>>, currency: Seq<char>) -> bool {
    allowed.is_empty() || allowed.contains(currency)
}

/// The state of loading: the directives loaded so far, the accounts open and
/// closed (with where), for each account built its allowed currencies, where
/// it was opened, its pending pad, its balance diagnostics, its positions and
/// its booking method, and the warnings so far.
pub struct Loader {
    pub directives: Vec<LoadedDirective>,
    pub open_accounts: AccountOrigins,
    pub closed_accounts: AccountOrigins,
    pub allowed_currencies: StringHashMap<StringHashSet>,
    pub opened: StringHashMap<Origin>,
    pub pads: StringHashMap<usize>,
    pub diagnostics: StringHashMap<Vec<BalanceDiagnostic>>,
    pub account_names: Vec<String>,
    pub inventory: Inventory,
    pub methods: BookingMethods,
    pub default_booking: Booking,
    pub plugins: InternalPlugins,
    pub tolerance: LimaTolerance,
    pub warnings: Vec<LoadWarning>,
}

/// A loader with nothing loaded, with the default booking method, plugins
/// and tolerance given.
pub open spec fn fresh_loader(r: Loader, default_booking: Booking, plugins: InternalPlugins, tolerance: LimaTolerance) -> bool {
    &&& r.directives@.len() == 0
    &&& origins_map(r.open_accounts) == no_origins()
    &&& origins_map(r.closed_accounts) == no_origins()
    &&& r.allowed_currencies@ == Map::<Seq<char>, StringHashSet>::empty()
    &&& inventory_map(r.inventory) == no_accounts()
    &&& forall|a: Seq<char>| #[trigger] r.methods.spec_method(a) == default_booking
    &&& r.default_booking == default_booking
    &&& r.plugins == plugins
    &&& r.tolerance == tolerance
    &&& r.warnings@.len() == 0
    &&& r.opened@ == Map::<Seq<char>, Origin>::empty()
    &&& r.pads@ == Map::<Seq<char>, usize>::empty()
    &&& r.diagnostics@ == Map::<Seq<char>, Vec<BalanceDiagnostic>>::empty()
    &&& r.account_names@.len() == 0
}

impl Loader {
    /// The accounts built: each with its allowed currencies, where it was
    /// opened, its balance diagnostics and its positions, and listed once by
    /// name; every account open or closed, or with a pending pad, has been built.
    pub open spec fn wf(self) -> bool {
        &&& forall|a: Seq<char>| #[trigger] self.allowed_currencies@.contains_key(a) ==> self.opened@.contains_key(a)
            && self.diagnostics@.contains_key(a) && inventory_map(self.inventory).contains_key(a)
            && self.account_names@.map_values(|n: String| n@).contains(a)
        &&& forall|i: int| 0 <= i < self.account_names@.len() ==> self.allowed_currencies@.contains_key(#[trigger] self.account_names@[i]@)
        &&& forall|a: Seq<char>| #[trigger] origins_map(self.open_accounts).contains_key(a) ==> self.allowed_currencies@.contains_key(a)
        &&& forall|a: Seq<char>| #[trigger] origins_map(self.closed_accounts).contains_key(a) ==> self.allowed_currencies@.contains_key(a)
        &&& forall|a: Seq<char>| #[trigger] self.pads@.contains_key(a) ==> self.allowed_currencies@.contains_key(a)
        &&& supported_method(self.default_booking)
    }

    /// A loader with nothing loaded.
    pub fn new(default_booking: Booking, plugins: InternalPlugins, tolerance: LimaTolerance) -> (r: Loader)
        requires
            supported_method(default_booking),
        ensures
            r.wf(),
            fresh_loader(r, default_booking, plugins, tolerance),
    {
        let r = Loader {
            directives: Vec::new(),
            open_accounts: AccountOrigins::empty(),
            closed_accounts: AccountOrigins::empty(),
            allowed_currencies: StringHashMap::new(),
            opened: StringHashMap::new(),
            pads: StringHashMap::new(),
            diagnostics: StringHashMap::new(),
            account_names: Vec::new(),
            inventory: Inventory::empty(),
            methods: BookingMethods::new(default_booking),
            default_booking,
            plugins,
            tolerance,
            warnings: Vec::new(),
        };
        assert(r.allowed_currencies@ =~= Map::<Seq<char>, StringHashSet>::empty());
        assert(r.opened@ =~= Map::<Seq<char>, Origin>::empty());
        assert(r.pads@ =~= Map::<Seq<char>, usize>::empty());
        assert(r.diagnostics@ =~= Map::<Seq<char>, Vec<BalanceDiagnostic>>::empty());
        r
    }

    /// Where the account was opened, if it is open.
    pub fn open_origin(&self, account: &String) -> (r: Option<Origin>)
        ensures
            r is Some == origins_map(self.open_accounts).contains_key(account@),
            r is Some ==> r.unwrap() == origins_map(self.open_accounts)[account@],
    {
        self.open_accounts.get(account)
    }

    /// Where the account was closed, if it was.
    pub fn close_origin(&self, account: &String) -> (r: Option<Origin>)
        ensures
            r is Some == origins_map(self.closed_accounts).contains_key(account@),
            r is Some ==> r.unwrap() == origins_map(self.closed_accounts)[account@],
    {
        self.closed_accounts.get(account)
    }

    /// Check that the account is open.
    fn validate_account(&self, account: &String) -> (r: Result<(), LoadIssue>)
        ensures
            match account_issue(origins_map(self.open_accounts), origins_map(self.closed_accounts), account@) {
                None => r is Ok,
                Some(e) => r == Err::<(), LoadIssue>(e),
            },
    {
        if self.open_accounts.get(account).is_some() {
            Ok(())
        } else {
            match self.closed_accounts.get(account) {
                Some(closed) => Err(LoadIssue::AccountWasClosed(closed)),
                None => Err(LoadIssue::AccountNotOpen),
            }
        }
    }

    /// Check that the account is open and the currency valid for it.
    fn validate_account_and_currency(&self, account: &String, currency: &String) -> (r: Result<(), LoadIssue>)
        requires
            self.wf(),
        ensures
            match account_issue(origins_map(self.open_accounts), origins_map(self.closed_accounts), account@) {
                Some(e) => r == Err::<(), LoadIssue>(e),
                None => if currency_valid(self.allowed_currencies@[account@]@, currency@) {
                    r is Ok
                } else {
                    r == Err::<(), LoadIssue>(LoadIssue::InvalidCurrency(self.opened@[account@]))
                },
            },
    {
        self.validate_account(account)?;
        let allowed = self.allowed_currencies.get(account.as_str()).unwrap();
        if allowed.is_empty() || allowed.contains(currency.as_str()) {
            Ok(())
        } else {
            Err(LoadIssue::InvalidCurrency(*self.opened.get(account.as_str()).unwrap()))
        }
    }

    /// Record the account as built, with its allowed currencies, where it
    /// was opened and its booking method, no positions and no diagnostics.
    fn build_account(&mut self, account: &String, currencies: StringHashSet, origin: Origin, booking: Booking)
        requires
            old(self).wf(),
            supported_method(booking),
        ensures
            final(self).wf(),
            final(self).directives == old(self).directives,
            final(self).open_accounts == old(self).open_accounts,
            final(self).closed_accounts == old(self).closed_accounts,
            final(self).allowed_currencies@ == old(self).allowed_currencies@.insert(account@, currencies),
            final(self).opened@ == old(self).opened@.insert(account@, origin),
            final(self).pads@ == old(self).pads@.remove(account@),
            final(self).diagnostics@.contains_key(account@),
            final(self).diagnostics@[account@]@.len() == 0,
            final(self).diagnostics@.remove(account@) == old(self).diagnostics@.remove(account@),
            inventory_map(final(self).inventory) == inventory_map(old(self).inventory).insert(account@, Seq::<Position>::empty()),
            forall|a: Seq<char>| #[trigger] final(self).methods.spec_method(a) == (if a == account@ {
                booking
            } else {
                old(self).methods.spec_method(a)
            }),
            final(self).default_booking == old(self).default_booking,
            final(self).plugins == old(self).plugins,
            final(self).tolerance == old(self).tolerance,
            final(self).warnings == old(self).warnings,
            final(self).account_names@ == (if old(self).allowed_currencies@.contains_key(account@) {
                old(self).account_names@
            } else {
                old(self).account_names@.push(*account)
            }),
    {
        let ghost built = self.allowed_currencies@.contains_key(account@);
        let ghost a0 = self.allowed_currencies@;
        self.allowed_currencies.insert(account.clone(), currencies);
        self.opened.insert(account.clone(), origin);
        self.pads.remove(account.as_str());
        self.diagnostics.insert(account.clone(), Vec::new());
        self.inventory.insert(account.clone(), Positions::default());
        let mut methods = BookingMethods::new(Booking::Strict);
        std::mem::swap(&mut methods, &mut self.methods);
        self.methods = methods.with_method(account.clone(), booking);
        let ghost names = self.account_names@;
        let mut listed = false;
        let mut i: usize = 0;
        while i < self.account_names.len()
            invariant
                names == self.account_names@,
                i <= names.len(),
                listed == exists|j: int| 0 <= j < i && (#[trigger] names[j])@ == account@,
            decreases names.len() - i,
        {
            if self.account_names[i].eq(account) {
                listed = true;
            }
            proof {
                if names[i as int]@ == account@ {
                    assert(0 <= i < i + 1 && names[i as int]@ == account@);
                }
                if exists|j: int| 0 <= j < i + 1 && (#[trigger] names[j])@ == account@ {
                    let j = choose|j: int| 0 <= j < i + 1 && (#[trigger] names[j])@ == account@;
                    if j < i {
                        assert(exists|j: int| 0 <= j < i && (#[trigger] names[j])@ == account@);
                    }
                }
            }
            i = i + 1;
        }
        proof {
            if listed {
                let j = choose|j: int| 0 <= j < names.len() && (#[trigger] names[j])@ == account@;
                assert(a0.contains_key(names[j]@));
            } else if built {
                let ov = names.map_values(|n: String| n@);
                assert(ov.contains(account@));
                let j = choose|j: int| 0 <= j < ov.len() && ov[j] == account@;
                assert(names[j]@ == account@);
            }
        }
        if !listed {
            self.account_names.push(account.clone());
        }
        proof {
            let nv = self.account_names@.map_values(|n: String| n@);
            assert forall|a: Seq<char>| #[trigger] self.allowed_currencies@.contains_key(a) implies nv.contains(a) by {
                if a == account@ {
                    if listed {
                        let j = choose|j: int| 0 <= j < names.len() && (#[trigger] names[j])@ == account@;
                        assert(nv[j] == a);
                    } else {
                        assert(nv[nv.len() - 1] == a);
                    }
                } else {
                    let ov = names.map_values(|n: String| n@);
                    assert(ov.contains(a));
                    let j = choose|j: int| 0 <= j < ov.len() && ov[j] == a;
                    assert(nv[j] == a);
                }
            }
        }
    }
}

/// The currencies listed, by their characters.
pub open spec fn currency_set(currencies: Seq<String>) -> Set<Seq<char>> {
    Set::new(|c: Seq<char>| exists|i: int| 0 <= i < currencies.len() && (#[trigger] currencies[i])@ == c)
}

/// The warnings that opening an account with the booking method given (if
/// any) adds: two, where the method is not supported.
pub open spec fn open_warnings(parsed: usize, booking: Option<Booking>) -> Seq<LoadWarning> {
    match booking {
        Some(b) => if supported_method(b) {
            Seq::empty()
        } else {
            seq![LoadWarning::UnsupportedBooking { parsed, booking: b }, LoadWarning::UnsupportedBookingUnnamed { parsed }]
        },
        None => Seq::empty(),
    }
}

/// What opening `account` (directive `parsed`, with the currencies and
/// booking method given) does, from `s0` to `s1`, with result `r`.
pub open spec fn open_outcome(s0: Loader, s1: Loader, r: Result<(), LoadIssue>, parsed: usize, account: String, currencies: Seq<String>, booking: Option<Booking>) -> bool {
    &&& (origins_map(s0.open_accounts).contains_key(account@) ==> r == Err::<(), LoadIssue>(
        LoadIssue::AccountAlreadyOpened(origins_map(s0.open_accounts)[account@]),
    ) && s1 == s0)
    &&& (!origins_map(s0.open_accounts).contains_key(account@) ==> origins_map(s1.open_accounts)
        == origins_map(s0.open_accounts).insert(account@, Origin::Directive(parsed))
        && origins_map(s1.closed_accounts) == origins_map(s0.closed_accounts))
    &&& !origins_map(s0.open_accounts).contains_key(account@) && origins_map(s0.closed_accounts).contains_key(account@)
        ==> r == Err::<(), LoadIssue>(LoadIssue::AccountWasClosed(origins_map(s0.closed_accounts)[account@]))
        && s1.same_but_origins(s0)
    &&& !origins_map(s0.open_accounts).contains_key(account@) && !origins_map(s0.closed_accounts).contains_key(account@)
        ==> {
        let b = match booking {
            Some(b) => b,
            None => s0.default_booking,
        };
        let effective = if supported_method(b) {
            b
        } else {
            Booking::Strict
        };
        &&& r is Ok
        &&& s1.directives == s0.directives
        &&& s1.allowed_currencies@.contains_key(account@)
        &&& s1.allowed_currencies@[account@]@ == currency_set(currencies)
        &&& s1.allowed_currencies@.remove(account@) == s0.allowed_currencies@.remove(account@)
        &&& s1.opened@ == s0.opened@.insert(account@, Origin::Directive(parsed))
        &&& s1.pads@ == s0.pads@.remove(account@)
        &&& s1.diagnostics@[account@]@.len() == 0
        &&& s1.diagnostics@.remove(account@) == s0.diagnostics@.remove(account@)
        &&& inventory_map(s1.inventory) == inventory_map(s0.inventory).insert(account@, Seq::<Position>::empty())
        &&& forall|a: Seq<char>| #[trigger] s1.methods.spec_method(a) == (if a == account@ {
            effective
        } else {
            s0.methods.spec_method(a)
        })
        &&& s1.warnings@ == s0.warnings@ + open_warnings(parsed, booking)
        &&& s1.account_names@ == (if s0.allowed_currencies@.contains_key(account@) {
            s0.account_names@
        } else {
            s0.account_names@.push(account)
        })
    }
}

/// What closing `account` (directive `parsed`) does, from `s0` to `s1`,
/// with result `r`.
pub open spec fn close_outcome(s0: Loader, s1: Loader, r: Result<(), LoadIssue>, parsed: usize, account: String) -> bool {
    &&& s1.same_but_origins(s0)
    &&& (match (origins_map(s0.open_accounts).contains_key(account@), origins_map(s0.closed_accounts).contains_key(account@)) {
        (false, _) => r == Err::<(), LoadIssue>(LoadIssue::AccountNotOpen) && s1 == s0,
        (true, true) => r == Err::<(), LoadIssue>(LoadIssue::AccountAlreadyClosed(origins_map(s0.closed_accounts)[account@]))
            && s1 == s0,
        (true, false) => r is Ok && origins_map(s1.open_accounts) == origins_map(s0.open_accounts).remove(account@)
            && origins_map(s1.closed_accounts) == origins_map(s0.closed_accounts).insert(account@, Origin::Directive(parsed)),
    })
}

/// The issue of a pad left unused, by its index among the loaded
/// directives: the pad directive, by its index as parsed; where no
/// directive was loaded at that index, loading cannot go on.
pub open spec fn unused_pad_issue(s: Loader, idx: usize) -> LoadIssue {
    if idx < s.directives@.len() {
        LoadIssue::UnusedPad(s.directives@[idx as int].parsed)
    } else {
        LoadIssue::PadIsNotAPad(idx)
    }
}

/// What recording a pad for `account`, as loaded directive `n_loaded`,
/// does, from `s0` to `s1`, with result `r`.
pub open spec fn pad_outcome(s0: Loader, s1: Loader, r: Result<(), LoadIssue>, n_loaded: usize, account: String) -> bool {
    &&& (match account_issue(origins_map(s0.open_accounts), origins_map(s0.closed_accounts), account@) {
        Some(e) => r == Err::<(), LoadIssue>(e) && s1 == s0,
        None => {
            &&& s1.pads@ == s0.pads@.insert(account@, n_loaded)
            &&& if s0.pads@.contains_key(account@) {
                r == Err::<(), LoadIssue>(unused_pad_issue(s0, s0.pads@[account@]))
            } else {
                r is Ok
            }
            &&& s1.directives == s0.directives
            &&& s1.open_accounts == s0.open_accounts
            &&& s1.closed_accounts == s0.closed_accounts
            &&& s1.allowed_currencies == s0.allowed_currencies
            &&& s1.opened == s0.opened
            &&& s1.diagnostics == s0.diagnostics
            &&& s1.account_names == s0.account_names
            &&& s1.inventory == s0.inventory
            &&& s1.methods == s0.methods
            &&& s1.warnings == s0.warnings
        },
    })
}

impl Loader {
    /// The accounts open, closed and built, their names and booking methods,
    /// the defaults and the warnings are as before.
    pub open spec fn same_accounts(self, other: Loader) -> bool {
        &&& self.open_accounts == other.open_accounts
        &&& self.closed_accounts == other.closed_accounts
        &&& self.allowed_currencies == other.allowed_currencies
        &&& self.opened == other.opened
        &&& self.account_names == other.account_names
        &&& self.methods == other.methods
        &&& self.default_booking == other.default_booking
        &&& self.plugins == other.plugins
        &&& self.tolerance == other.tolerance
        &&& self.warnings == other.warnings
    }

    /// All but the accounts open and closed are as before.
    pub open spec fn same_but_origins(self, other: Loader) -> bool {
        &&& self.directives == other.directives
        &&& self.allowed_currencies == other.allowed_currencies
        &&& self.opened == other.opened
        &&& self.pads == other.pads
        &&& self.diagnostics == other.diagnostics
        &&& self.account_names == other.account_names
        &&& self.inventory == other.inventory
        &&& self.methods == other.methods
        &&& self.default_booking == other.default_booking
        &&& self.plugins == other.plugins
        &&& self.tolerance == other.tolerance
        &&& self.warnings == other.warnings
    }

    /// Open an account: an account already open fails, as does one that was
    /// closed (though it is then recorded as open); otherwise the account is
    /// built with the currencies given and the booking method given, else the
    /// default, where supported (else `Strict`, with warnings).
    pub fn open(&mut self, parsed: usize, account: &String, currencies: &Vec<String>, booking: Option<Booking>) -> (r: Result<(), LoadIssue>)
        requires
            old(self).wf(),
        ensures
            final(self).wf(),
            open_outcome(*old(self), *final(self), r, parsed, *account, currencies@, booking),
    {
        match self.open_accounts.get(account) {
            Some(open) => {
                return Err(LoadIssue::AccountAlreadyOpened(open));
            },
            None => {},
        }
        // cannot reopen a closed account
        match self.closed_accounts.get(account) {
            Some(closed) => {
                self.open_accounts.insert(account.clone(), Origin::Directive(parsed));
                return Err(LoadIssue::AccountWasClosed(closed));
            },
            None => {},
        }
        let mut method = match booking {
            Some(b) => b,
            None => self.default_booking,
        };
        if !is_supported_method(method) {
            self.warnings.push(LoadWarning::UnsupportedBooking { parsed, booking: method });
            method = Booking::default();
        }
        let mut allowed = StringHashSet::new();
        let mut i: usize = 0;
        while i < currencies.len()
            invariant
                i <= currencies@.len(),
                allowed@ == currency_set(currencies@.take(i as int)),
            decreases currencies@.len() - i,
        {
            allowed.insert(currencies[i].clone());
            proof {
                let t = currencies@.take(i + 1);
                assert(allowed@ =~= currency_set(t)) by {
                    assert forall|c: Seq<char>| allowed@.contains(c) <==> currency_set(t).contains(c) by {
                        if currency_set(currencies@.take(i as int)).contains(c) {
                            let j = choose|j: int| 0 <= j < i && (#[trigger] currencies@.take(i as int)[j])@ == c;
                            assert(t[j]@ == c);
                        }
                        if c == currencies@[i as int]@ {
                            assert(t[i as int]@ == c);
                        }
                        if currency_set(t).contains(c) {
                            let j = choose|j: int| 0 <= j < i + 1 && (#[trigger] t[j])@ == c;
                            if j < i {
                                assert(currencies@.take(i as int)[j]@ == c);
                            }
                        }
                    }
                }
            }
            i = i + 1;
        }
        assert(currencies@.take(i as int) =~= currencies@);
        self.build_account(account, allowed, Origin::Directive(parsed), method);
        self.open_accounts.insert(account.clone(), Origin::Directive(parsed));
        match booking {
            Some(b) => {
                if !is_supported_method(b) {
                    self.warnings.push(LoadWarning::UnsupportedBookingUnnamed { parsed });
                }
            },
            None => {},
        }
        proof {
            assert(self.warnings@ =~= old(self).warnings@ + open_warnings(parsed, booking));
            assert(self.allowed_currencies@.remove(account@) =~= old(self).allowed_currencies@.remove(account@));
        }
        Ok(())
    }

    /// Close an account: one not open fails, as does one already closed.
    pub fn close(&mut self, parsed: usize, account: &String) -> (r: Result<(), LoadIssue>)
        requires
            old(self).wf(),
        ensures
            final(self).wf(),
            close_outcome(*old(self), *final(self), r, parsed, *account),
    {
        match self.open_accounts.get(account) {
            Some(_) => match self.closed_accounts.get(account) {
                Some(closed) => Err(LoadIssue::AccountAlreadyClosed(closed)),
                None => {
                    self.open_accounts.remove(account);
                    self.closed_accounts.insert(account.clone(), Origin::Directive(parsed));
                    Ok(())
                },
            },
            None => Err(LoadIssue::AccountNotOpen),
        }
    }

    /// Record a pad for an account, as the directive about to be loaded
    /// (`n_loaded`): the account must be open, and a pad still pending for it
    /// is unused, which fails (though the new pad is then recorded).
    pub fn pad(&mut self, n_loaded: usize, account: &String) -> (r: Result<(), LoadIssue>)
        requires
            old(self).wf(),
        ensures
            final(self).wf(),
            pad_outcome(*old(self), *final(self), r, n_loaded, *account),
    {
        self.validate_account(account)?;
        let unused = match self.pads.get(account.as_str()) {
            Some(u) => Some(*u),
            None => None,
        };
        let issue = match unused {
            Some(u) => Some(self.unused_pad_issue_of(u)),
            None => None,
        };
        self.pads.insert(account.clone(), n_loaded);
        match issue {
            // unused pad directives are errors
            Some(e) => Err(e),
            None => Ok(()),
        }
    }

    /// The issue of a pad left unused, by its index among the loaded directives.
    fn unused_pad_issue_of(&self, idx: usize) -> (r: LoadIssue)
        ensures
            r == unused_pad_issue(*self, idx),
    {
        if idx < self.directives.len() {
            LoadIssue::UnusedPad(self.directives[idx].parsed)
        } else {
            LoadIssue::PadIsNotAPad(idx)
        }
    }
}

/// `prefix` begins `s`, byte for byte.
pub open spec fn starts_with_bytes(s: Seq<char>, prefix: Seq<char>) -> bool {
    let a = encode_utf8(s);
    let b = encode_utf8(prefix);
    b.len() <= a.len() && a.subrange(0, b.len() as int) == b
}

/// Whether the string begins with the prefix.
pub fn starts_with(s: &String, prefix: &String) -> (r: bool)
    ensures
        r == starts_with_bytes(s@, prefix@),
{
    let a = s.as_str().as_bytes();
    let b = prefix.as_str().as_bytes();
    if b.len() > a.len() {
        return false;
    }
    let mut i: usize = 0;
    while i < b.len()
        invariant
            a@ == encode_utf8(s@),
            b@ == encode_utf8(prefix@),
            b@.len() <= a@.len(),
            i <= b@.len(),
            a@.subrange(0, i as int) == b@.subrange(0, i as int),
        decreases b@.len() - i,
    {
        if a[i] != b[i] {
            proof {
                assert(a@.subrange(0, b@.len() as int)[i as int] == a@[i as int]);
            }
            return false;
        }
        i = i + 1;
        proof {
            assert(a@.subrange(0, i as int) =~= b@.subrange(0, i as int));
        }
    }
    assert(b@.subrange(0, i as int) =~= b@);
    true
}

/// Units added to a rollup of units: each currency's number summed with what
/// the rollup has of it; `None` where a sum overflows.
pub open spec fn add_units(rollup: Map<Seq<char>, Dec>, units: Map<Seq<char>, Dec>) -> Option<Map<Seq<char>, Dec>> {
    if exists|k: Seq<char>| #[trigger] units.contains_key(k) && rollup.contains_key(k) && decimal_checked_add(rollup[k], units[k]) is None {
        None
    } else {
        Some(
            Map::new(
                |k: Seq<char>| rollup.contains_key(k) || units.contains_key(k),
                |k: Seq<char>|
                    if units.contains_key(k) && rollup.contains_key(k) {
                        decimal_checked_add(rollup[k], units[k]).unwrap()
                    } else if units.contains_key(k) {
                        units[k]
                    } else {
                        rollup[k]
                    },
            ),
        )
    }
}

/// The account is `base` or one of its subaccounts: its name is `base`, or
/// begins with `base` followed by a colon.
pub open spec fn within_account(name: Seq<char>, base: Seq<char>) -> bool {
    name == base || starts_with_bytes(name, base + ":"@)
}

/// The units of the first `n` accounts named that are `base` or its
/// subaccounts, summed by currency; `None` where a sum overflows.
pub open spec fn rollup_upto(names: Seq<String>, base: Seq<char>, inv: Map<Seq<char>, Seq<Position>>, n: int) -> Option<Map<Seq<char>, Dec>>
    decreases n,
{
    if n <= 0 {
        Some(Map::empty())
    } else {
        match rollup_upto(names, base, inv, n - 1) {
            None => None,
            Some(r) => if within_account(names[n - 1]@, base) {
                let ps = if inv.contains_key(names[n - 1]@) {
                    inv[names[n - 1]@]
                } else {
                    Seq::empty()
                };
                match units_upto(ps, ps.len() as int) {
                    None => None,
                    Some(u) => add_units(r, u),
                }
            } else {
                Some(r)
            },
        }
    }
}

/// The units of an account's positions by currency, or with the balance
/// rollup plugin, of the account and all its subaccounts; `None` where a sum
/// overflows.
pub open spec fn rollup_of(rollup: bool, names: Seq<String>, base: Seq<char>, inv: Map<Seq<char>, Seq<Position>>) -> Option<Map<Seq<char>, Dec>> {
    if rollup {
        rollup_upto(names, base, inv, names.len() as int)
    } else if inv.contains_key(base) {
        units_upto(inv[base], inv[base].len() as int)
    } else {
        Some(Map::empty())
    }
}

/// Add units into a rollup.
fn add_units_into(rollup: &mut CurrencyNumbers, units: CurrencyNumbers) -> (r: Result<(), ()>)
    ensures
        match add_units(currency_numbers_map(*old(rollup)), currency_numbers_map(units)) {
            None => r is Err,
            Some(m) => r is Ok && currency_numbers_map(*final(rollup)) == m,
        },
{
    let ghost r0 = currency_numbers_map(*rollup);
    let ghost um = currency_numbers_map(units);
    let entries = units.into_entries();
    let n = entries.len();
    let mut i: usize = 0;
    while i < n
        invariant
            n == entries@.len(),
            i <= n,
            r0 == currency_numbers_map(*old(rollup)),
            um == currency_numbers_map(units),
            entries_match(entries@, um),
            forall|k: Seq<char>| #[trigger] currency_numbers_map(*rollup).contains_key(k) <==> r0.contains_key(k)
                || exists|j: int| 0 <= j < i && entries@[j].0@ == k,
            forall|k: Seq<char>| #[trigger] currency_numbers_map(*rollup).contains_key(k) ==> currency_numbers_map(*rollup)[k] == (
                if exists|j: int| 0 <= j < i && entries@[j].0@ == k {
                    if r0.contains_key(k) {
                        decimal_checked_add(r0[k], um[k]).unwrap()
                    } else {
                        um[k]
                    }
                } else {
                    r0[k]
                }),
            forall|j: int| 0 <= j < i && r0.contains_key(entries@[j].0@) ==> decimal_checked_add(r0[entries@[j].0@], um[entries@[j].0@]) is Some,
        decreases n - i,
    {
        let cur = &entries[i].0;
        let number = entries[i].1;
        let ghost k = cur@;
        proof {
            assert(um.contains_key(entries@[i as int].0@));
            assert forall|j: int| 0 <= j < i implies entries@[j].0@ != k by {
                assert(entries@[j].0@ != entries@[i as int].0@);
            }
        }
        match rollup.get(cur) {
            Some(existing) => {
                match existing.checked_add(&number) {
                    Some(sum) => {
                        rollup.insert(cur.clone(), sum);
                    },
                    None => {
                        proof {
                            assert(!exists|j: int| 0 <= j < i && entries@[j].0@ == k);
                            assert(r0.contains_key(k));
                            assert(um.contains_key(k) && r0.contains_key(k) && decimal_checked_add(r0[k], um[k]) is None);
                        }
                        return Err(());
                    },
                }
            },
            None => {
                rollup.insert(cur.clone(), number);
            },
        }
        proof {
            assert forall|k2: Seq<char>| #[trigger] currency_numbers_map(*rollup).contains_key(k2) <==> r0.contains_key(k2)
                || exists|j: int| 0 <= j < i + 1 && entries@[j].0@ == k2 by {
                if k2 == k {
                    assert(0 <= i < i + 1 && entries@[i as int].0@ == k2);
                } else if exists|j: int| 0 <= j < i + 1 && entries@[j].0@ == k2 {
                    let j = choose|j: int| 0 <= j < i + 1 && entries@[j].0@ == k2;
                    assert(j < i);
                }
            }
            assert forall|k2: Seq<char>| #[trigger] currency_numbers_map(*rollup).contains_key(k2) implies currency_numbers_map(*rollup)[k2] == (
                if exists|j: int| 0 <= j < i + 1 && entries@[j].0@ == k2 {
                    if r0.contains_key(k2) {
                        decimal_checked_add(r0[k2], um[k2]).unwrap()
                    } else {
                        um[k2]
                    }
                } else {
                    r0[k2]
                }) by {
                if k2 == k {
                    assert(0 <= i < i + 1 && entries@[i as int].0@ == k2);
                    assert(!exists|j: int| 0 <= j < i && entries@[j].0@ == k);
                } else {
                    if exists|j: int| 0 <= j < i + 1 && entries@[j].0@ == k2 {
                        let j = choose|j: int| 0 <= j < i + 1 && entries@[j].0@ == k2;
                        assert(j < i);
                    }
                }
            }
        }
        i = i + 1;
    }
    proof {
        assert forall|k: Seq<char>| #[trigger] um.contains_key(k) implies exists|j: int| 0 <= j < n && entries@[j].0@ == k by {
            let j = choose|j: int| 0 <= j < entries@.len() && entries@[j].0@ == k;
        }
        assert(!exists|k: Seq<char>| #[trigger] um.contains_key(k) && r0.contains_key(k) && decimal_checked_add(r0[k], um[k]) is None) by {
            assert forall|k: Seq<char>| #[trigger] um.contains_key(k) && r0.contains_key(k) implies decimal_checked_add(r0[k], um[k]) is Some by {
                let j = choose|j: int| 0 <= j < n && entries@[j].0@ == k;
            }
        }
        let m = add_units(r0, um).unwrap();
        assert(currency_numbers_map(*rollup) =~= m) by {
            assert forall|k: Seq<char>| #[trigger] m.contains_key(k) implies currency_numbers_map(*rollup).contains_key(k) by {
                if um.contains_key(k) {
                    let j = choose|j: int| 0 <= j < n && entries@[j].0@ == k;
                }
            }
            assert forall|k: Seq<char>| #[trigger] currency_numbers_map(*rollup).contains_key(k) implies m.contains_key(k)
                && currency_numbers_map(*rollup)[k] == m[k] by {
                if exists|j: int| 0 <= j < n && entries@[j].0@ == k {
                    let j = choose|j: int| 0 <= j < n && entries@[j].0@ == k;
                    assert(um.contains_key(entries@[j].0@));
                } else {
                    assert(!um.contains_key(k));
                }
            }
        }
    }
    Ok(())
}

impl Loader {
    /// The units the account holds by currency, or with the balance rollup
    /// plugin, what it and its subaccounts hold; `None` where a sum overflows.
    fn rollup_units(&self, base_account_name: &String) -> (r: Option<CurrencyNumbers>)
        ensures
            match rollup_of(self.plugins.balance_rollup, self.account_names@, base_account_name@, inventory_map(self.inventory)) {
                None => r is None,
                Some(m) => r matches Some(c) && currency_numbers_map(c) == m,
            },
    {
        if self.plugins.balance_rollup {
            let mut rollup = CurrencyNumbers::empty();
            let names = &self.account_names;
            let mut sub_prefix = base_account_name.clone();
            sub_prefix.append(":");
            let mut i: usize = 0;
            while i < names.len()
                invariant
                    i <= names@.len(),
                    names == &self.account_names,
                    self.plugins.balance_rollup,
                    rollup_upto(names@, base_account_name@, inventory_map(self.inventory), i as int) == Some(currency_numbers_map(rollup)),
                    sub_prefix@ == base_account_name@ + ":"@,
                decreases names@.len() - i,
            {
                if names[i].eq(base_account_name) || starts_with(&names[i], &sub_prefix) {
                    let ghost inv = inventory_map(self.inventory);
                    let ghost name = names@[i as int]@;
                    let ghost ps = if inv.contains_key(name) {
                        inv[name]
                    } else {
                        Seq::<Position>::empty()
                    };
                    let units = match self.inventory.get(&names[i]) {
                        Some(positions) => positions.units(),
                        None => Positions::default().units(),
                    };
                    assert(match units_upto(ps, ps.len() as int) {
                        None => units is None,
                        Some(m) => units matches Some(c) && currency_numbers_map(c) == m,
                    });
                    match units {
                        Some(u) => {
                            match add_units_into(&mut rollup, u) {
                                Ok(()) => {},
                                Err(()) => {
                                    proof {
                                        assert(rollup_upto(names@, base_account_name@, inventory_map(self.inventory), i + 1) is None);
                                        lemma_rollup_none_stays(names@, base_account_name@, inventory_map(self.inventory), i + 1, names@.len() as int);
                                    }
                                    return None;
                                },
                            }
                        },
                        None => {
                            proof {
                                assert(rollup_upto(names@, base_account_name@, inventory_map(self.inventory), i + 1) is None);
                                lemma_rollup_none_stays(names@, base_account_name@, inventory_map(self.inventory), i + 1, names@.len() as int);
                            }
                            return None;
                        },
                    }
                }
                i = i + 1;
            }
            Some(rollup)
        } else {
            match self.inventory.get(base_account_name) {
                Some(positions) => positions.units(),
                None => Some(CurrencyNumbers::empty()),
            }
        }
    }
}

proof fn lemma_rollup_none_stays(names: Seq<String>, base: Seq<char>, inv: Map<Seq<char>, Seq<Position>>, k: int, n: int)
    requires
        0 <= k <= n,
        rollup_upto(names, base, inv, k) is None,
    ensures
        rollup_upto(names, base, inv, n) is None,
    decreases n - k,
{
    if k < n {
        lemma_rollup_none_stays(names, base, inv, k + 1, n);
    }
}

/// The margin of a balance assertion, as [calculate_balance_margin] gives it
/// for what the account holds listed in some order.
pub open spec fn balance_margin(r: Option<Vec<(String, Dec)>>, units: Dec, currency: String, tolerance: Dec, rollup: Option<Map<Seq<char>, Dec>>) -> bool {
    match rollup {
        None => false,
        Some(m) => exists|es: Seq<(String, Dec)>|
            #![trigger entries_match(es, m)]
            entries_match(es, m) && match margin_of(units, currency, tolerance, es) {
                None => r is None,
                Some(v) => r matches Some(x) && x@ == v,
            },
    }
}

/// The positions after a balance assertion: as held, with the margin added;
/// `None` where a sum overflows.
pub open spec fn adjusted_positions(inv: Map<Seq<char>, Seq<Position>>, account: Seq<char>, margin: Seq<(String, Dec)>, add: bool) -> Option<Seq<Position>> {
    adjusted_upto(
        if inv.contains_key(account) {
            inv[account]
        } else {
            Seq::empty()
        },
        margin,
        add,
        margin.len() as int,
    )
}

/// What checking a balance assertion (directive `parsed` of `date`) of
/// `units` of `currency` for `account`, within `tolerance`, does, from `s0`
/// to `s1`, with result `r`.  In particular, where the account (with the
/// rollup plugin, with its subaccounts) holds what is asserted (see
/// [held_within]), the assertion passes, and clears the account's pending
/// pad and diagnostics; where it does not (see [held_beyond]) and no pad is
/// pending, the assertion fails.
pub open spec fn balance_outcome(s0: Loader, s1: Loader, r: Result<(), LoadIssue>, parsed: usize, date: Date, account: String, units: Dec, currency: String, tolerance: Option<Dec>) -> bool {
    let tol = match tolerance {
        Some(t) => t.value(),
        None => 0,
    };
    let inv = inventory_map(s0.inventory);
    let rollup = rollup_of(s0.plugins.balance_rollup, s0.account_names@, account@, inv);
    &&& s1.same_accounts(s0)
    &&& s1.pads@.remove(account@) == s0.pads@.remove(account@)
    &&& s1.diagnostics@.remove(account@) == s0.diagnostics@.remove(account@)
    &&& (rollup matches Some(held) && held_within(held, units, currency@, tol) && account_issue(
        origins_map(s0.open_accounts),
        origins_map(s0.closed_accounts),
        account@,
    ) is None && currency_valid(s0.allowed_currencies@[account@]@, currency@) ==> {
        &&& r is Ok
        &&& s1.pads@ == s0.pads@.remove(account@)
        &&& s1.diagnostics@.contains_key(account@) && s1.diagnostics@[account@]@.len() == 0
        &&& s1.inventory == s0.inventory
        &&& s1.directives == s0.directives
    })
    &&& (rollup matches Some(held) && held_beyond(held, units, currency@, tol) && !s0.pads@.contains_key(account@) ==> r is Err)
    &&& {
        ||| rollup is None && r == Err::<(), LoadIssue>(LoadIssue::NumberOverflow) && s1 == s0
        ||| exists|margin: Option<Vec<(String, Dec)>>, t: Dec|
            #![trigger balance_margin(margin, units, currency, t, rollup)]
            t.value() == tol && balance_margin(margin, units, currency, t, rollup) && match margin {
                None => r == Err::<(), LoadIssue>(LoadIssue::NumberOverflow) && s1 == s0,
                Some(m) => match account_issue(origins_map(s0.open_accounts), origins_map(s0.closed_accounts), account@) {
                    Some(e) => r == Err::<(), LoadIssue>(e) && s1 == s0,
                    None => if !currency_valid(s0.allowed_currencies@[account@]@, currency@) {
                        r == Err::<(), LoadIssue>(LoadIssue::InvalidCurrency(s0.opened@[account@])) && s1 == s0
                    } else {
                        &&& s1.pads@ == s0.pads@.remove(account@)
                        &&& s1.diagnostics@.contains_key(account@)
                        &&& if m@.len() == 0 {
                            &&& r is Ok
                            &&& s1.diagnostics@[account@]@.len() == 0
                            &&& s1.inventory == s0.inventory
                            &&& s1.directives == s0.directives
                        } else {
                            match adjusted_positions(inv, account@, m@, true) {
                                None => {
                                    &&& r == Err::<(), LoadIssue>(LoadIssue::NumberOverflow)
                                    &&& s1.diagnostics == s0.diagnostics
                                    &&& s1.inventory == s0.inventory
                                    &&& s1.directives == s0.directives
                                },
                                Some(q) => if !s0.pads@.contains_key(account@) {
                                    &&& r matches Err(LoadIssue::BalanceFailed { accumulated, margin, diagnostics })
                                        && accumulated@ == (if inv.contains_key(account@) {
                                        inv[account@]
                                    } else {
                                        Seq::<Position>::empty()
                                    }) && margin@ == m@ && diagnostics_same(diagnostics@, s0.diagnostics@[account@]@)
                                    &&& s1.diagnostics@[account@]@.len() == 0
                                    &&& inventory_map(s1.inventory) == inv.insert(account@, q)
                                    &&& s1.directives == s0.directives
                                } else {
                                    let idx = s0.pads@[account@];
                                    let inv1 = inv.insert(account@, q);
                                    &&& s1.diagnostics@[account@]@.len() == 1
                                    &&& s1.diagnostics@[account@]@[0].date == date
                                    &&& s1.diagnostics@[account@]@[0].positions matches Some(p)
                                        && p@ == seq![Position { units, currency, cost: None }]
                                    &&& if !(idx < s0.directives@.len() && s0.directives@[idx as int].loaded is Pad) {
                                        &&& r == Err::<(), LoadIssue>(LoadIssue::PadIsNotAPad(idx))
                                        &&& inventory_map(s1.inventory) == inv1
                                        &&& s1.directives == s0.directives
                                    } else {
                                        let source = s0.directives@[idx as int].loaded->Pad_source;
                                        &&& s1.directives@.len() == s0.directives@.len()
                                        &&& forall|j: int| 0 <= j < s0.directives@.len() && j != idx ==> #[trigger] s1.directives@[j] == s0.directives@[j]
                                        &&& s1.directives@[idx as int].parsed == s0.directives@[idx as int].parsed
                                        &&& s1.directives@[idx as int].loaded matches Loaded::Pad { postings, source: s2 }
                                            && s2 == source && postings@ == pad_postings_of(m@, account, source)
                                        &&& if !s0.allowed_currencies@.contains_key(source@) {
                                            r == Err::<(), LoadIssue>(LoadIssue::PadSourceNotBuilt(source)) && inventory_map(s1.inventory) == inv1
                                        } else {
                                            match adjusted_positions(inv1, source@, m@, false) {
                                                None => r == Err::<(), LoadIssue>(LoadIssue::NumberOverflow) && inventory_map(s1.inventory) == inv1,
                                                Some(q2) => r is Ok && inventory_map(s1.inventory) == inv1.insert(source@, q2),
                                            }
                                        }
                                    }
                                },
                            }
                        }
                    },
                },
            }
    }
}

impl Loader {
    /// The positions of an account, empty where it has none.
    fn positions_of(&self, account: &String) -> (r: Positions)
        ensures
            r@ == (if inventory_map(self.inventory).contains_key(account@) {
                inventory_map(self.inventory)[account@]
            } else {
                Seq::<Position>::empty()
            }),
    {
        match self.inventory.get(account) {
            Some(p) => p.duplicate(),
            None => Positions::default(),
        }
    }

    /// Check a balance assertion of `units` of `currency` (within the
    /// tolerance, if any, else exactly) for an account, as directive `parsed`
    /// of date `date`.  Where the account holds what is asserted, its pending
    /// pad and diagnostics go.  Otherwise, without a pending pad the
    /// assertion fails, with the positions, margin and diagnostics; with one,
    /// the pad's postings make up the margin from the pad's source account.
    /// Either way the account's positions are reset to what was asserted.
    pub fn balance(&mut self, parsed: usize, date: Date, account: &String, units: Dec, currency: &String, tolerance: Option<Dec>) -> (r: Result<(), LoadIssue>)
        requires
            old(self).wf(),
        ensures
            final(self).wf(),
            balance_outcome(*old(self), *final(self), r, parsed, date, *account, units, *currency, tolerance),
    {
        let balance_tolerance = match tolerance {
            Some(t) => t,
            None => <Dec as Number>::zero(),
        };
        let ghost rollup_spec = rollup_of(self.plugins.balance_rollup, self.account_names@, account@, inventory_map(self.inventory));
        let rollup = match self.rollup_units(account) {
            Some(r) => r,
            None => {
                return Err(LoadIssue::NumberOverflow);
            },
        };
        let margin_opt = calculate_balance_margin(units, currency, balance_tolerance, rollup);
        assert(balance_margin(margin_opt, units, *currency, balance_tolerance, rollup_spec));
        let margin = match margin_opt {
            Some(m) => m,
            None => {
                return Err(LoadIssue::NumberOverflow);
            },
        };
        self.validate_account_and_currency(account, currency)?;
        // pad can't last beyond balance
        let pad_idx = match self.pads.get(account.as_str()) {
            Some(i) => Some(*i),
            None => None,
        };
        self.pads.remove(account.as_str());
        assert(self.pads@.remove(account@) =~= old(self).pads@.remove(account@));
        if margin.len() == 0 {
            // the balance assertion is correct, and we already cleared the pad
            self.diagnostics.insert(account.clone(), Vec::new());
            assert(self.diagnostics@.remove(account@) =~= old(self).diagnostics@.remove(account@));
            return Ok(());
        }
        let accumulated = self.positions_of(account);
        let mut positions = accumulated.duplicate();
        match adjust_account_to_match_balance(&mut positions, &margin, true) {
            Ok(()) => {},
            Err(()) => {
                return Err(LoadIssue::NumberOverflow);
            },
        }
        match pad_idx {
            None => {
                // the balance assertion is incorrect and there is no pad to
                // take up the slack; even so, the account is adjusted to
                // match, to localise balance failures
                let diagnostics = match self.diagnostics.get(account.as_str()) {
                    Some(d) => copy_diagnostics(d),
                    None => Vec::new(),
                };
                self.diagnostics.insert(account.clone(), Vec::new());
                assert(self.diagnostics@.remove(account@) =~= old(self).diagnostics@.remove(account@));
                self.inventory.insert(account.clone(), positions);
                Err(LoadIssue::BalanceFailed { accumulated, margin, diagnostics })
            },
            Some(idx) => {
                self.inventory.insert(account.clone(), positions);
                // initialize balance diagnostics according to the assertion
                let mut asserted = Positions::default();
                match asserted.accumulate(units, currency.clone(), None, Booking::Strict) {
                    Ok(()) => {},
                    Err(_) => {
                        return Err(LoadIssue::NumberOverflow);
                    },
                }
                let mut diagnostics: Vec<BalanceDiagnostic> = Vec::new();
                diagnostics.push(BalanceDiagnostic { date, description: None, amount: None, positions: Some(asserted) });
                self.diagnostics.insert(account.clone(), diagnostics);
                assert(asserted@ =~= seq![Position { units, currency: *currency, cost: None }]);
                assert(self.diagnostics@.remove(account@) =~= old(self).diagnostics@.remove(account@));
                if idx >= self.directives.len() {
                    return Err(LoadIssue::PadIsNotAPad(idx));
                }
                let pad_parsed = self.directives[idx].parsed;
                let source = match &self.directives[idx].loaded {
                    Loaded::Pad { source, .. } => source.clone(),
                    _ => {
                        return Err(LoadIssue::PadIsNotAPad(idx));
                    },
                };
                let pad_postings = calculate_balance_pad_postings(&margin, account, &source);
                self.directives.set(idx, LoadedDirective { parsed: pad_parsed, loaded: Loaded::Pad { postings: pad_postings, source: source.clone() } });
                if !self.allowed_currencies.contains_key(source.as_str()) {
                    return Err(LoadIssue::PadSourceNotBuilt(source));
                }
                let mut pad_positions = self.positions_of(&source);
                match adjust_account_to_match_balance(&mut pad_positions, &margin, false) {
                    Ok(()) => {},
                    Err(()) => {
                        return Err(LoadIssue::NumberOverflow);
                    },
                }
                self.inventory.insert(source, pad_positions);
                Ok(())
            },
        }
    }
}

/// Diagnostics are alike where their fields are, the positions by what they hold.
pub open spec fn diagnostic_same(a: BalanceDiagnostic, b: BalanceDiagnostic) -> bool {
    &&& a.date == b.date
    &&& a.description == b.description
    &&& a.amount == b.amount
    &&& match (a.positions, b.positions) {
        (Some(x), Some(y)) => x@ == y@,
        (None, None) => true,
        _ => false,
    }
}

/// Lists of diagnostics are alike, one for one.
pub open spec fn diagnostics_same(a: Seq<BalanceDiagnostic>, b: Seq<BalanceDiagnostic>) -> bool {
    a.len() == b.len() && forall|i: int| 0 <= i < a.len() ==> diagnostic_same(#[trigger] a[i], b[i])
}

/// A copy of the diagnostics.
fn copy_diagnostics(d: &Vec<BalanceDiagnostic>) -> (r: Vec<BalanceDiagnostic>)
    ensures
        diagnostics_same(r@, d@),
{
    let mut r: Vec<BalanceDiagnostic> = Vec::new();
    let mut i: usize = 0;
    while i < d.len()
        invariant
            i <= d@.len(),
            r@.len() == i,
            forall|j: int| 0 <= j < i ==> diagnostic_same(#[trigger] r@[j], d@[j]),
        decreases d@.len() - i,
    {
        r.push(d[i].duplicate());
        i = i + 1;
    }
    r
}

impl BalanceDiagnostic {
    /// A copy of the diagnostic.
    pub fn duplicate(&self) -> (r: BalanceDiagnostic)
        ensures
            diagnostic_same(r, *self),
    {
        BalanceDiagnostic {
            date: self.date,
            description: copy_opt_str(&self.description),
            amount: match &self.amount {
                Some(a) => Some(Amount { number: a.number, currency: a.currency.clone() }),
                None => None,
            },
            positions: match &self.positions {
                Some(p) => Some(p.duplicate()),
                None => None,
            },
        }
    }
}

/// What a transaction is described by: its payee, else its narration, else "post".
pub open spec fn description_of(payee: Option<String>, narration: Option<String>) -> Seq<char> {
    match payee {
        Some(p) => p@,
        None => match narration {
            Some(n) => n@,
            None => "post"@,
        },
    }
}

/// The description of a transaction.
pub fn describe(payee: &Option<String>, narration: &Option<String>) -> (r: String)
    ensures
        r@ == description_of(*payee, *narration),
{
    match payee {
        Some(p) => p.clone(),
        None => match narration {
            Some(n) => n.clone(),
            None => String::from_str("post"),
        },
    }
}

/// The booked postings of an interpolated posting `j` of `account`: one for
/// each of its posting costs, with that single cost, else one with its price.
pub open spec fn postings_of_one(it: Interpolated, account: String, j: usize) -> Seq<Posting> {
    match it.cost {
        Some(pcs) => pcs.adjustments@.map_values(
            |c: PostingCost|
                Posting {
                    posting_idx: Some(j),
                    account,
                    units: c.units,
                    currency: it.currency,
                    cost: Some(cost_of_posting_cost(pcs.cost_currency, c)),
                    price: None,
                },
        ),
        None => seq![Posting { posting_idx: Some(j), account, units: it.units, currency: it.currency, cost: None, price: it.price }],
    }
}

/// The booked postings of the first `n` interpolated postings, in order.
pub open spec fn postings_upto(its: Seq<Interpolated>, ps: Seq<PostingSpec>, n: int) -> Seq<Posting>
    decreases n,
{
    if n <= 0 {
        Seq::empty()
    } else {
        postings_upto(its, ps, n - 1) + postings_of_one(its[n - 1], ps[n - 1].account, (n - 1) as usize)
    }
}

/// An interpolated posting arising from a reduction with multiple costs is
/// mapped to several postings, each with a single cost.
fn flatten_postings(its: &Vec<Interpolated>, postings: &Vec<PostingSpec>) -> (r: Vec<Posting>)
    requires
        its@.len() == postings@.len(),
    ensures
        r@ == postings_upto(its@, postings@, its@.len() as int),
{
    let mut r: Vec<Posting> = Vec::new();
    let mut j: usize = 0;
    while j < its.len()
        invariant
            its@.len() == postings@.len(),
            j <= its@.len(),
            r@ == postings_upto(its@, postings@, j as int),
        decreases its@.len() - j,
    {
        let it = &its[j];
        let account = &postings[j].account;
        let ghost before = r@;
        match &it.cost {
            Some(costs) => {
                let mut k: usize = 0;
                while k < costs.adjustments.len()
                    invariant
                        k <= costs.adjustments@.len(),
                        it.cost == Some(*costs),
                        r@ == before + postings_of_one(*it, *account, j).take(k as int),
                    decreases costs.adjustments@.len() - k,
                {
                    let c = costs.adjustments[k].duplicate();
                    r.push(
                        Posting {
                            posting_idx: Some(j),
                            account: account.clone(),
                            units: c.units,
                            currency: it.currency.clone(),
                            cost: Some(Cost::from_posting_cost(costs.cost_currency.clone(), c)),
                            price: None,
                        },
                    );
                    k = k + 1;
                    assert(r@ =~= before + postings_of_one(*it, *account, j).take(k as int));
                }
                assert(postings_of_one(*it, *account, j).take(k as int) =~= postings_of_one(*it, *account, j));
            },
            None => {
                r.push(
                    Posting {
                        posting_idx: Some(j),
                        account: account.clone(),
                        units: it.units,
                        currency: it.currency.clone(),
                        cost: None,
                        price: match &it.price {
                            Some(p) => Some(p.duplicate()),
                            None => None,
                        },
                    },
                );
                assert(r@ =~= before + postings_of_one(*it, *account, j));
            },
        }
        j = j + 1;
    }
    r
}

/// The price a booked posting implies, if any: its currency, the currency of
/// its cost (else price), and the number per unit.
pub open spec fn price_of(p: Posting) -> Option<(Seq<char>, Seq<char>, int)> {
    match p.cost {
        Some(c) => Some((p.currency@, c.currency@, c.per_unit.value())),
        None => match p.price {
            Some(pr) => Some((p.currency@, pr.currency@, pr.per_unit.value())),
            None => None,
        },
    }
}

/// The view of a price.
pub open spec fn price_view(t: (String, String, Dec)) -> (Seq<char>, Seq<char>, int) {
    (t.0@, t.1@, t.2.value())
}

/// Whether the list has the price.
fn has_price(r: &Vec<(String, String, Dec)>, t: &(String, String, Dec)) -> (present: bool)
    ensures
        present == exists|j: int| 0 <= j < r@.len() && price_view(#[trigger] r@[j]) == price_view(*t),
{
    let mut i: usize = 0;
    while i < r.len()
        invariant
            i <= r@.len(),
            forall|j: int| 0 <= j < i ==> price_view(#[trigger] r@[j]) != price_view(*t),
        decreases r@.len() - i,
    {
        if r[i].0.eq(&t.0) && r[i].1.eq(&t.1) && r[i].2.num_eq(&t.2) {
            return true;
        }
        i = i + 1;
    }
    false
}

/// The prices that the first `k` booked postings imply.
pub open spec fn prices_upto(booked: Seq<Posting>, k: int) -> Set<(Seq<char>, Seq<char>, int)> {
    Set::new(|t: (Seq<char>, Seq<char>, int)| exists|l: int| 0 <= l < k && price_of(#[trigger] booked[l]) == Some(t))
}

/// The prices listed, each once, are exactly those of the set.
pub open spec fn lists_prices(r: Seq<(String, String, Dec)>, prices: Set<(Seq<char>, Seq<char>, int)>) -> bool {
    &&& forall|i: int, j: int| 0 <= i < j < r.len() ==> price_view(#[trigger] r[i]) != price_view(#[trigger] r[j])
    &&& forall|t: (Seq<char>, Seq<char>, int)| #[trigger] prices.contains(t) <==> exists|i: int| 0 <= i < r.len() && price_view(#[trigger] r[i]) == t
}

proof fn lemma_price_step(booked: Seq<Posting>, k: int, r0: Seq<(String, String, Dec)>, r1: Seq<(String, String, Dec)>)
    requires
        0 <= k < booked.len(),
        lists_prices(r0, prices_upto(booked, k)),
        price_of(booked[k]) is None ==> r1 == r0,
        price_of(booked[k]) is Some ==> {
            let t = price_of(booked[k]).unwrap();
            if exists|j: int| 0 <= j < r0.len() && price_view(#[trigger] r0[j]) == t {
                r1 == r0
            } else {
                exists|x: (String, String, Dec)| price_view(x) == t && r1 == r0.push(x)
            }
        },
    ensures
        lists_prices(r1, prices_upto(booked, k + 1)),
{
    let p0 = prices_upto(booked, k);
    let p1 = prices_upto(booked, k + 1);
    assert forall|t: (Seq<char>, Seq<char>, int)| #[trigger] p1.contains(t) <==> p0.contains(t) || price_of(booked[k]) == Some(t) by {
        if p1.contains(t) {
            let l = choose|l: int| 0 <= l < k + 1 && price_of(#[trigger] booked[l]) == Some(t);
            if l < k {
                assert(p0.contains(t));
            }
        }
        if p0.contains(t) {
            let l = choose|l: int| 0 <= l < k && price_of(#[trigger] booked[l]) == Some(t);
            assert(0 <= l < k + 1 && price_of(booked[l]) == Some(t));
        }
        if price_of(booked[k]) == Some(t) {
            assert(0 <= k < k + 1 && price_of(booked[k]) == Some(t));
        }
    }
    if price_of(booked[k]) is Some {
        let t = price_of(booked[k]).unwrap();
        if !exists|j: int| 0 <= j < r0.len() && price_view(#[trigger] r0[j]) == t {
            let x = choose|x: (String, String, Dec)| price_view(x) == t && r1 == r0.push(x);
            assert forall|u: (Seq<char>, Seq<char>, int)| #[trigger] p1.contains(u) <==> exists|i: int| 0 <= i < r1.len() && price_view(#[trigger] r1[i]) == u by {
                if p0.contains(u) {
                    let i = choose|i: int| 0 <= i < r0.len() && price_view(#[trigger] r0[i]) == u;
                    assert(r1[i] == r0[i]);
                }
                if u == t {
                    assert(r1[r0.len() as int] == x);
                }
                if exists|i: int| 0 <= i < r1.len() && price_view(#[trigger] r1[i]) == u {
                    let i = choose|i: int| 0 <= i < r1.len() && price_view(#[trigger] r1[i]) == u;
                    if i < r0.len() {
                        assert(r1[i] == r0[i]);
                    }
                }
            }
            assert forall|i: int, j: int| 0 <= i < j < r1.len() implies price_view(#[trigger] r1[i]) != price_view(#[trigger] r1[j]) by {
                if j < r0.len() {
                    assert(r1[i] == r0[i] && r1[j] == r0[j]);
                } else {
                    assert(r1[i] == r0[i]);
                }
            }
        }
    }
}

/// The prices that the booked postings imply, each once.
fn collect_prices(booked: &Vec<Posting>) -> (r: Vec<(String, String, Dec)>)
    ensures
        lists_prices(r@, prices_upto(booked@, booked@.len() as int)),
{
    let mut r: Vec<(String, String, Dec)> = Vec::new();
    let mut k: usize = 0;
    while k < booked.len()
        invariant
            k <= booked@.len(),
            lists_prices(r@, prices_upto(booked@, k as int)),
        decreases booked@.len() - k,
    {
        let ghost r0 = r@;
        let p = &booked[k];
        let price = match &p.cost {
            Some(c) => Some((p.currency.clone(), c.currency.clone(), c.per_unit)),
            None => match &p.price {
                Some(pr) => Some((p.currency.clone(), pr.currency.clone(), pr.per_unit)),
                None => None,
            },
        };
        match price {
            Some(t) => {
                let ghost tg = t;
                assert(price_of(booked@[k as int]) == Some(price_view(tg)));
                if !has_price(&r, &t) {
                    r.push(t);
                    assert(r@ == r0.push(tg));
                }
            },
            None => {},
        }
        proof {
            lemma_price_step(booked@, k as int, r0, r@);
        }
        k = k + 1;
    }
    r
}

/// The first posting of `ps` with the account, if any.
pub open spec fn first_posting_of(ps: Seq<PostingSpec>, a: Seq<char>) -> int {
    choose|j: int| 0 <= j < ps.len() && ps[j].account@ == a && forall|i: int| 0 <= i < j ==> (#[trigger] ps[i]).account@ != a
}

/// Some posting of the first `n` is of the account.
pub open spec fn posted(ps: Seq<PostingSpec>, a: Seq<char>, n: int) -> bool {
    exists|j: int| 0 <= j < n && (#[trigger] ps[j]).account@ == a
}

/// The account is one that auto-opening opens: some of the first `n`
/// postings is to it, and it was not built.
pub open spec fn auto_new(s0: Loader, ps: Seq<PostingSpec>, n: int, a: Seq<char>) -> bool {
    posted(ps, a, n) && !s0.allowed_currencies@.contains_key(a)
}

/// The accounts that auto-opening opens for the first `n` postings.
pub open spec fn auto_set(s0: Loader, ps: Seq<PostingSpec>, n: int) -> Set<Seq<char>> {
    Set::new(|a: Seq<char>| auto_new(s0, ps, n, a))
}

/// An account that auto-opening opens is built with no currencies given and
/// the default booking method, and opened where its first posting is.
pub open spec fn auto_built(s0: Loader, s1: Loader, parsed: usize, ps: Seq<PostingSpec>, a: Seq<char>) -> bool {
    let origin = Origin::PostingAccount(parsed, first_posting_of(ps, a) as usize);
    &&& s1.allowed_currencies@.contains_key(a) && s1.allowed_currencies@[a]@.is_empty()
    &&& s1.opened@.contains_key(a) && s1.opened@[a] == origin
    &&& origins_map(s1.open_accounts).contains_key(a) && origins_map(s1.open_accounts)[a] == origin
    &&& !s1.pads@.contains_key(a)
    &&& s1.diagnostics@.contains_key(a) && s1.diagnostics@[a]@.len() == 0
    &&& inventory_map(s1.inventory).contains_key(a) && inventory_map(s1.inventory)[a].len() == 0
    &&& s1.methods.spec_method(a) == s0.default_booking
}

/// Auto-opening for the first `n` postings: with the auto-accounts plugin,
/// the accounts of those postings not yet built are opened and built (see
/// [auto_built]), listed in `auto` in order of first posting and appended
/// in that order to the account names; everything else is as it was.
/// Without the plugin, nothing changes.
pub open spec fn auto_opened_upto(s0: Loader, s1: Loader, parsed: usize, ps: Seq<PostingSpec>, auto: Seq<String>, n: int) -> bool {
    if !s0.plugins.auto_accounts {
        s1 == s0 && auto.len() == 0
    } else {
        let new = auto_set(s0, ps, n);
        &&& s1.directives == s0.directives
        &&& s1.closed_accounts == s0.closed_accounts
        &&& s1.default_booking == s0.default_booking
        &&& s1.plugins == s0.plugins
        &&& s1.tolerance == s0.tolerance
        &&& s1.warnings == s0.warnings
        &&& s1.account_names@ == s0.account_names@ + auto
        &&& s1.allowed_currencies@.remove_keys(new) == s0.allowed_currencies@
        &&& s1.opened@.remove_keys(new) == s0.opened@.remove_keys(new)
        &&& origins_map(s1.open_accounts).remove_keys(new) == origins_map(s0.open_accounts).remove_keys(new)
        &&& s1.pads@ == s0.pads@.remove_keys(new)
        &&& s1.diagnostics@.remove_keys(new) == s0.diagnostics@.remove_keys(new)
        &&& inventory_map(s1.inventory).remove_keys(new) == inventory_map(s0.inventory).remove_keys(new)
        &&& forall|a: Seq<char>| !new.contains(a) ==> #[trigger] s1.methods.spec_method(a) == s0.methods.spec_method(a)
        &&& forall|a: Seq<char>| #[trigger] new.contains(a) ==> auto_built(s0, s1, parsed, ps, a)
        &&& forall|i: int, j: int| 0 <= i < j < auto.len() ==> (#[trigger] auto[i])@ != (#[trigger] auto[j])@
        &&& forall|a: Seq<char>| #[trigger] new.contains(a) <==> exists|i: int| 0 <= i < auto.len() && (#[trigger] auto[i])@ == a
    }
}

/// Auto-opening for all the postings.
pub open spec fn auto_opened(s0: Loader, s1: Loader, parsed: usize, ps: Seq<PostingSpec>, auto: Seq<String>) -> bool {
    auto_opened_upto(s0, s1, parsed, ps, auto, ps.len() as int)
}

proof fn lemma_first_posting(ps: Seq<PostingSpec>, a: Seq<char>, j: int)
    requires
        0 <= j < ps.len(),
        ps[j].account@ == a,
        forall|i: int| 0 <= i < j ==> (#[trigger] ps[i]).account@ != a,
    ensures
        first_posting_of(ps, a) == j,
{
    let k = first_posting_of(ps, a);
    assert(0 <= k < ps.len() && ps[k].account@ == a && forall|i: int| 0 <= i < k ==> (#[trigger] ps[i]).account@ != a);
    if k < j {
        assert(ps[k].account@ != a);
    }
    if k > j {
        assert(ps[j].account@ != a);
    }
}

impl Loader {
    /// With the auto-accounts plugin, open and build each account posted to
    /// that is not yet built, where its first posting is; the accounts opened,
    /// in order.
    fn open_auto_accounts(&mut self, parsed: usize, postings: &Vec<PostingSpec>) -> (auto: Vec<String>)
        requires
            old(self).wf(),
        ensures
            final(self).wf(),
            auto_opened(*old(self), *final(self), parsed, postings@, auto@),
    {
        let mut auto: Vec<String> = Vec::new();
        if !self.plugins.auto_accounts {
            return auto;
        }
        let ghost s0 = *self;
        let ghost ps = postings@;
        proof {
            let e = auto_set(s0, ps, 0);
            assert(e =~= Set::<Seq<char>>::empty());
            assert(s0.allowed_currencies@.remove_keys(e) =~= s0.allowed_currencies@);
            assert(s0.pads@.remove_keys(e) =~= s0.pads@);
            assert(s0.account_names@ + auto@ =~= s0.account_names@);
        }
        let mut j: usize = 0;
        while j < postings.len()
            invariant
                s0 == *old(self),
                ps == postings@,
                s0.wf(),
                s0.plugins.auto_accounts,
                self.wf(),
                j <= ps.len(),
                auto_opened_upto(s0, *self, parsed, ps, auto@, j as int),
            decreases ps.len() - j,
        {
            let account = &postings[j].account;
            let ghost a = account@;
            let ghost n0 = auto_set(s0, ps, j as int);
            let ghost n1 = auto_set(s0, ps, j + 1);
            let ghost s = *self;
            let ghost auto0 = auto@;
            proof {
                assert(ps[j as int].account@ == a);
                assert forall|b: Seq<char>| n1.contains(b) <==> n0.contains(b) || (b == a && !s0.allowed_currencies@.contains_key(a)) by {
                    if n1.contains(b) && b != a {
                        let k = choose|k: int| 0 <= k < j + 1 && (#[trigger] ps[k]).account@ == b;
                        assert(k < j);
                        assert(posted(ps, b, j as int));
                    }
                    if n0.contains(b) {
                        let k = choose|k: int| 0 <= k < j && (#[trigger] ps[k]).account@ == b;
                        assert(posted(ps, b, j + 1));
                    }
                    if b == a {
                        assert(posted(ps, b, j + 1));
                    }
                }
                // built now exactly where built before or opened so far
                assert(s.allowed_currencies@.contains_key(a) <==> s0.allowed_currencies@.contains_key(a) || n0.contains(a)) by {
                    if n0.contains(a) {
                        assert(auto_built(s0, s, parsed, ps, a));
                    }
                    if !n0.contains(a) {
                        assert(s.allowed_currencies@.remove_keys(n0).contains_key(a) == s.allowed_currencies@.contains_key(a));
                    }
                }
            }
            if !self.allowed_currencies.contains_key(account.as_str()) {
                let origin = Origin::PostingAccount(parsed, j);
                let default_booking = self.default_booking;
                self.build_account(account, StringHashSet::new(), origin, default_booking);
                self.open_accounts.insert(account.clone(), origin);
                auto.push(account.clone());
                proof {
                    assert(!n0.contains(a));
                    assert(n1.contains(a));
                    assert forall|i: int| 0 <= i < j implies (#[trigger] ps[i]).account@ != a by {
                        if ps[i].account@ == a {
                            assert(posted(ps, a, j as int));
                        }
                    }
                    lemma_first_posting(ps, a, j as int);
                    assert(n1 =~= n0.insert(a));
                    let s1 = *self;
                    assert(s1.account_names@ =~= s0.account_names@ + auto@);
                    assert(s1.allowed_currencies@.remove_keys(n1) =~= s0.allowed_currencies@) by {
                        assert(s1.allowed_currencies@.remove_keys(n1) =~= s.allowed_currencies@.remove_keys(n0));
                    }
                    assert(s1.opened@.remove_keys(n1) =~= s0.opened@.remove_keys(n1)) by {
                        assert(s1.opened@.remove_keys(n1) =~= s.opened@.remove_keys(n0).remove(a));
                        assert(s0.opened@.remove_keys(n1) =~= s0.opened@.remove_keys(n0).remove(a));
                    }
                    assert(origins_map(s1.open_accounts).remove_keys(n1) =~= origins_map(s0.open_accounts).remove_keys(n1)) by {
                        assert(origins_map(s1.open_accounts).remove_keys(n1) =~= origins_map(s.open_accounts).remove_keys(n0).remove(a));
                        assert(origins_map(s0.open_accounts).remove_keys(n1) =~= origins_map(s0.open_accounts).remove_keys(n0).remove(a));
                    }
                    assert(s1.pads@ =~= s0.pads@.remove_keys(n1));
                    assert(s1.diagnostics@.remove_keys(n1) =~= s0.diagnostics@.remove_keys(n1)) by {
                        assert(s1.diagnostics@.remove(a) == s.diagnostics@.remove(a));
                        assert(s1.diagnostics@.remove_keys(n1) =~= s1.diagnostics@.remove(a).remove_keys(n0));
                        assert(s.diagnostics@.remove_keys(n0).remove(a) =~= s.diagnostics@.remove(a).remove_keys(n0));
                        assert(s1.diagnostics@.remove_keys(n1) =~= s.diagnostics@.remove_keys(n0).remove(a));
                        assert(s0.diagnostics@.remove_keys(n1) =~= s0.diagnostics@.remove_keys(n0).remove(a));
                    }
                    assert(inventory_map(s1.inventory).remove_keys(n1) =~= inventory_map(s0.inventory).remove_keys(n1)) by {
                        assert(inventory_map(s1.inventory).remove_keys(n1) =~= inventory_map(s.inventory).remove_keys(n0).remove(a));
                        assert(inventory_map(s0.inventory).remove_keys(n1) =~= inventory_map(s0.inventory).remove_keys(n0).remove(a));
                    }
                    assert forall|b: Seq<char>| #[trigger] n1.contains(b) implies auto_built(s0, s1, parsed, ps, b) by {
                        if b != a {
                            assert(n0.contains(b));
                            assert(auto_built(s0, s, parsed, ps, b));
                            assert(s1.diagnostics@.remove(a)[b] == s.diagnostics@.remove(a)[b]);
                        } else {
                            let origin = Origin::PostingAccount(parsed, j);
                            assert(s1.allowed_currencies@[a]@ =~= Set::<Seq<char>>::empty());
                            assert(s1.opened@.contains_key(a) && s1.opened@[a] == origin);
                            assert(origins_map(s1.open_accounts).contains_key(a) && origins_map(s1.open_accounts)[a] == origin);
                            assert(!s1.pads@.contains_key(a));
                            assert(s1.diagnostics@.contains_key(a) && s1.diagnostics@[a]@.len() == 0);
                            assert(inventory_map(s1.inventory).contains_key(a) && inventory_map(s1.inventory)[a].len() == 0);
                            assert(s1.methods.spec_method(a) == s0.default_booking);
                        }
                    }
                    assert forall|i: int, k: int| 0 <= i < k < auto@.len() implies (#[trigger] auto@[i])@ != (#[trigger] auto@[k])@ by {
                        if k == auto@.len() - 1 {
                            assert(auto@[i] == auto0[i]);
                            if auto0[i]@ == a {
                                assert(n0.contains(a));
                            }
                        } else {
                            assert(auto@[i] == auto0[i] && auto@[k] == auto0[k]);
                        }
                    }
                    assert forall|b: Seq<char>| #[trigger] n1.contains(b) <==> exists|i: int| 0 <= i < auto@.len() && (#[trigger] auto@[i])@ == b by {
                        if n1.contains(b) {
                            if b == a {
                                assert(auto@[auto@.len() - 1]@ == b);
                            } else {
                                let i = choose|i: int| 0 <= i < auto0.len() && (#[trigger] auto0[i])@ == b;
                                assert(auto@[i] == auto0[i]);
                            }
                        }
                        if exists|i: int| 0 <= i < auto@.len() && (#[trigger] auto@[i])@ == b {
                            let i = choose|i: int| 0 <= i < auto@.len() && (#[trigger] auto@[i])@ == b;
                            if i < auto0.len() {
                                assert(auto@[i] == auto0[i]);
                                assert(n0.contains(b));
                            }
                        }
                    }
                }
            } else {
                proof {
                    assert(n1 =~= n0);
                }
            }
            j = j + 1;
        }
        auto
    }
}

/// The first of the first `n` interpolated postings whose account is not
/// open, or whose currency is not valid for its account, gives the issue.
pub open spec fn first_invalid(its: Seq<Interpolated>, ps: Seq<PostingSpec>, s: Loader, n: int) -> Option<LoadIssue>
    decreases n,
{
    if n <= 0 {
        None
    } else {
        match first_invalid(its, ps, s, n - 1) {
            Some(e) => Some(e),
            None => {
                let a = ps[n - 1].account@;
                match account_issue(origins_map(s.open_accounts), origins_map(s.closed_accounts), a) {
                    Some(e) => Some(e),
                    None => if currency_valid(s.allowed_currencies@[a]@, its[n - 1].currency@) {
                        None
                    } else {
                        Some(LoadIssue::InvalidCurrency(s.opened@[a]))
                    },
                }
            },
        }
    }
}

/// The amounts of the first `n` booked postings of the account, in order.
pub open spec fn amounts_upto(bp: Seq<Posting>, a: Seq<char>, n: int) -> Seq<(Dec, Seq<char>)>
    decreases n,
{
    if n <= 0 {
        Seq::empty()
    } else {
        let r = amounts_upto(bp, a, n - 1);
        if bp[n - 1].account@ == a {
            r.push((bp[n - 1].units, bp[n - 1].currency@))
        } else {
            r
        }
    }
}

/// The balance diagnostics that a transaction adds for an account with the
/// amounts: one for each, the last with the account's positions after it.
pub open spec fn new_diagnostics_as(d: Seq<BalanceDiagnostic>, date: Date, description: Seq<char>, amounts: Seq<(Dec, Seq<char>)>, positions: Seq<Position>) -> bool {
    &&& d.len() == amounts.len()
    &&& forall|k: int| 0 <= k < d.len() ==> {
        &&& (#[trigger] d[k]).date == date
        &&& d[k].description matches Some(s) && s@ == description
        &&& d[k].amount matches Some(am) && am.number == amounts[k].0 && am.currency@ == amounts[k].1
        &&& if k == d.len() - 1 {
            d[k].positions matches Some(p) && p@ == positions
        } else {
            d[k].positions is None
        }
    }
}

/// The amounts, by their number and currency.
pub open spec fn amounts_view(amounts: Seq<Amount>) -> Seq<(Dec, Seq<char>)> {
    amounts.map_values(|am: Amount| (am.number, am.currency@))
}

/// The amounts of the booked postings of the account, in order.
fn amounts_of(booked: &Vec<Posting>, account: &String) -> (r: Vec<Amount>)
    ensures
        amounts_view(r@) == amounts_upto(booked@, account@, booked@.len() as int),
{
    let mut r: Vec<Amount> = Vec::new();
    let mut i: usize = 0;
    while i < booked.len()
        invariant
            i <= booked@.len(),
            amounts_view(r@) == amounts_upto(booked@, account@, i as int),
        decreases booked@.len() - i,
    {
        let ghost r0 = r@;
        if booked[i].account.eq(account) {
            r.push(Amount { number: booked[i].units, currency: booked[i].currency.clone() });
            assert(amounts_view(r@) =~= amounts_view(r0).push((booked@[i as int].units, booked@[i as int].currency@)));
        }
        i = i + 1;
    }
    r
}

/// The diagnostics of an account after a transaction: those before, then
/// one for each amount posted to it, the last with its positions after.
pub open spec fn diagnostics_extended(
    d: Seq<BalanceDiagnostic>,
    prior: Seq<BalanceDiagnostic>,
    date: Date,
    description: Seq<char>,
    amounts: Seq<(Dec, Seq<char>)>,
    positions: Seq<Position>,
) -> bool {
    &&& d.len() == prior.len() + amounts.len()
    &&& diagnostics_same(d.take(prior.len() as int), prior)
    &&& new_diagnostics_as(d.skip(prior.len() as int), date, description, amounts, positions)
}

/// The diagnostics, then one for each amount, the last with the positions.
fn extend_diagnostics(
    prior: &Vec<BalanceDiagnostic>,
    amounts: &Vec<Amount>,
    date: Date,
    description: &String,
    positions: &Positions,
) -> (r: Vec<BalanceDiagnostic>)
    ensures
        diagnostics_extended(r@, prior@, date, description@, amounts_view(amounts@), positions@),
{
    let mut r = copy_diagnostics(prior);
    let n0 = r.len();
    let mut k: usize = 0;
    while k < amounts.len()
        invariant
            n0 == prior@.len(),
            k <= amounts@.len(),
            r@.len() == n0 + k,
            diagnostics_same(r@.take(n0 as int), prior@),
            forall|j: int| 0 <= j < k ==> {
                &&& (#[trigger] r@[n0 + j]).date == date
                &&& r@[n0 + j].description matches Some(s) && s@ == description@
                &&& r@[n0 + j].amount matches Some(am) && am.number == amounts@[j].number && am.currency@ == amounts@[j].currency@
                &&& if j == amounts@.len() - 1 {
                    r@[n0 + j].positions matches Some(p) && p@ == positions@
                } else {
                    r@[n0 + j].positions is None
                }
            },
        decreases amounts@.len() - k,
    {
        let last = k + 1 == amounts.len();
        let ghost r0 = r@;
        r.push(
            BalanceDiagnostic {
                date,
                description: Some(description.clone()),
                amount: Some(Amount { number: amounts[k].number, currency: amounts[k].currency.clone() }),
                positions: if last {
                    Some(positions.duplicate())
                } else {
                    None
                },
            },
        );
        proof {
            assert(r@.take(n0 as int) =~= r0.take(n0 as int));
            assert forall|j: int| 0 <= j < k + 1 implies (#[trigger] r@[n0 + j]).date == date by {
                if j < k {
                    assert(r@[n0 + j] == r0[n0 + j]);
                }
            }
        }
        k = k + 1;
    }
    proof {
        let d = r@.skip(n0 as int);
        let am = amounts_view(amounts@);
        assert forall|j: int| 0 <= j < d.len() implies {
            &&& (#[trigger] d[j]).date == date
            &&& d[j].description matches Some(s) && s@ == description@
            &&& d[j].amount matches Some(a) && a.number == am[j].0 && a.currency@ == am[j].1
            &&& if j == d.len() - 1 {
                d[j].positions matches Some(p) && p@ == positions@
            } else {
                d[j].positions is None
            }
        } by {
            assert(d[j] == r@[n0 + j]);
        }
    }
    r
}

/// The diagnostics after a transaction: for each account of `done` that
/// a booked posting is to, extended (see [diagnostics_extended]) with the
/// amounts posted to it and its updated positions; any other as it was.
pub open spec fn diagnostics_added(
    d1: Map<Seq<char>, Vec<BalanceDiagnostic>>,
    d0: Map<Seq<char>, Vec<BalanceDiagnostic>>,
    done: Set<Seq<char>>,
    upd: Map<Seq<char>, Seq<Position>>,
    booked: Seq<Posting>,
    date: Date,
    description: Seq<char>,
) -> bool {
    &&& d1.dom() == d0.dom()
    &&& forall|a: Seq<char>| #[trigger] d0.contains_key(a) ==> {
        let amounts = amounts_upto(booked, a, booked.len() as int);
        if done.contains(a) && amounts.len() > 0 {
            diagnostics_extended(d1[a]@, d0[a]@, date, description, amounts, upd[a])
        } else {
            d1[a] == d0[a]
        }
    }
}

impl Loader {
    /// All but the positions and the diagnostics are as before.
    pub open spec fn same_but_books(self, other: Loader) -> bool {
        &&& self.directives == other.directives
        &&& self.open_accounts == other.open_accounts
        &&& self.closed_accounts == other.closed_accounts
        &&& self.allowed_currencies == other.allowed_currencies
        &&& self.opened == other.opened
        &&& self.pads == other.pads
        &&& self.account_names == other.account_names
        &&& self.methods == other.methods
        &&& self.default_booking == other.default_booking
        &&& self.plugins == other.plugins
        &&& self.tolerance == other.tolerance
        &&& self.warnings == other.warnings
    }

    /// Give each account updated its positions, and add the diagnostics of
    /// the booked postings to it.
    fn apply_updates(
        &mut self,
        entries: &Vec<(String, Positions)>,
        booked: &Vec<Posting>,
        date: Date,
        description: &String,
        Ghost(upd): Ghost<Map<Seq<char>, Seq<Position>>>,
    )
        requires
            old(self).wf(),
            positions_entries_match(entries@, upd),
            forall|a: Seq<char>| #[trigger] upd.contains_key(a) ==> old(self).allowed_currencies@.contains_key(a),
        ensures
            final(self).wf(),
            final(self).same_but_books(*old(self)),
            inventory_map(final(self).inventory) == inventory_map(old(self).inventory).union_prefer_right(upd),
            diagnostics_added(final(self).diagnostics@, old(self).diagnostics@, upd.dom(), upd, booked@, date, description@),
    {
        let ghost s0 = *self;
        let ghost mut done: Set<Seq<char>> = Set::empty();
        proof {
            assert(upd.restrict(done) =~= Map::<Seq<char>, Seq<Position>>::empty());
            assert(inventory_map(s0.inventory).union_prefer_right(upd.restrict(done)) =~= inventory_map(s0.inventory));
        }
        let mut i: usize = 0;
        while i < entries.len()
            invariant
                s0 == *old(self),
                s0.wf(),
                self.wf(),
                self.same_but_books(s0),
                i <= entries@.len(),
                positions_entries_match(entries@, upd),
                forall|a: Seq<char>| #[trigger] upd.contains_key(a) ==> s0.allowed_currencies@.contains_key(a),
                forall|a: Seq<char>| #[trigger] done.contains(a) <==> exists|j: int| 0 <= j < i && entries@[j].0@ == a,
                inventory_map(self.inventory) == inventory_map(s0.inventory).union_prefer_right(upd.restrict(done)),
                diagnostics_added(self.diagnostics@, s0.diagnostics@, done, upd, booked@, date, description@),
            decreases entries@.len() - i,
        {
            let account = &entries[i].0;
            let positions = &entries[i].1;
            let ghost a = account@;
            proof {
                assert(upd.contains_key(entries@[i as int].0@));
                assert(!done.contains(a)) by {
                    if done.contains(a) {
                        let j = choose|j: int| 0 <= j < i && entries@[j].0@ == a;
                        assert(entries@[j].0@ != entries@[i as int].0@);
                    }
                }
            }
            let amounts = amounts_of(booked, account);
            let ghost d_before = self.diagnostics@;
            if amounts.len() > 0 {
                let prior = self.diagnostics.get(account.as_str()).unwrap();
                let d = extend_diagnostics(prior, &amounts, date, description, positions);
                self.diagnostics.insert(account.clone(), d);
            }
            self.inventory.insert(account.clone(), positions.duplicate());
            proof {
                let done1 = done.insert(a);
                assert forall|b: Seq<char>| #[trigger] done1.contains(b) <==> exists|j: int| 0 <= j < i + 1 && entries@[j].0@ == b by {
                    if done.contains(b) {
                        let j = choose|j: int| 0 <= j < i && entries@[j].0@ == b;
                        assert(0 <= j < i + 1 && entries@[j].0@ == b);
                    }
                    if b == a {
                        assert(0 <= i < i + 1 && entries@[i as int].0@ == b);
                    }
                    if exists|j: int| 0 <= j < i + 1 && entries@[j].0@ == b {
                        let j = choose|j: int| 0 <= j < i + 1 && entries@[j].0@ == b;
                        if j < i {
                            assert(done.contains(b));
                        }
                    }
                }
                assert(upd.restrict(done1) =~= upd.restrict(done).insert(a, positions@));
                assert(inventory_map(self.inventory) =~= inventory_map(s0.inventory).union_prefer_right(upd.restrict(done1)));
                assert(self.diagnostics@.dom() =~= s0.diagnostics@.dom());
                assert forall|b: Seq<char>| #[trigger] s0.diagnostics@.contains_key(b) implies {
                    let amounts = amounts_upto(booked@, b, booked@.len() as int);
                    if done1.contains(b) && amounts.len() > 0 {
                        diagnostics_extended(self.diagnostics@[b]@, s0.diagnostics@[b]@, date, description@, amounts, upd[b])
                    } else {
                        self.diagnostics@[b] == s0.diagnostics@[b]
                    }
                } by {
                    if b != a {
                        assert(self.diagnostics@[b] == d_before[b]);
                    }
                }
                done = done1;
            }
            i = i + 1;
        }
        proof {
            assert(done =~= upd.dom()) by {
                assert forall|a: Seq<char>| done.contains(a) <==> upd.contains_key(a) by {
                    if upd.contains_key(a) {
                        let j = choose|j: int| 0 <= j < entries@.len() && entries@[j].0@ == a;
                    }
                    if done.contains(a) {
                        let j = choose|j: int| 0 <= j < i && entries@[j].0@ == a;
                    }
                }
            }
            assert(upd.restrict(done) =~= upd);
        }
    }
}

proof fn lemma_first_invalid_stays(its: Seq<Interpolated>, ps: Seq<PostingSpec>, s: Loader, k: int, n: int)
    requires
        0 <= k <= n,
        first_invalid(its, ps, s, k) is Some,
    ensures
        first_invalid(its, ps, s, n) == first_invalid(its, ps, s, k),
    decreases n - k,
{
    if k < n {
        lemma_first_invalid_stays(its, ps, s, k + 1, n);
    }
}

/// What booking a transaction does, given what booking its postings gave
/// (`bk`) in the state `s0` after its accounts were opened automatically
/// (`auto`).  A booking error fails.  So does the first posting whose
/// account is not open or whose currency is not valid for it, and any
/// account updated that is not open.  Otherwise the transaction is loaded
/// with its booked postings (see [postings_upto]), the prices they imply,
/// and the accounts opened automatically; the accounts updated get their
/// new positions and diagnostics (see [diagnostics_added]).  A failure
/// leaves `s0` as it was.
pub open spec fn transaction_outcome(
    r: Result<Loaded, LoadIssue>,
    s1: Loader,
    s0: Loader,
    auto: Seq<String>,
    bk: Result<Bookings, BookingError>,
    date: Date,
    description: Seq<char>,
    ps: Seq<PostingSpec>,
) -> bool {
    match bk {
        Err(e) => r == Err::<Loaded, LoadIssue>(LoadIssue::Booking(e)) && s1 == s0,
        Ok(b) => {
            let its = b.interpolated_postings@;
            match first_invalid(its, ps, s0, ps.len() as int) {
                Some(e) => r == Err::<Loaded, LoadIssue>(e) && s1 == s0,
                None => {
                    let upd = inventory_map(b.updated_inventory);
                    let open = origins_map(s0.open_accounts);
                    let closed = origins_map(s0.closed_accounts);
                    if exists|a: Seq<char>| #[trigger] upd.contains_key(a) && account_issue(open, closed, a) is Some {
                        &&& s1 == s0
                        &&& exists|a: Seq<char>| #[trigger] upd.contains_key(a) && r == Err::<Loaded, LoadIssue>(account_issue(open, closed, a).unwrap())
                    } else {
                        let bp = postings_upto(its, ps, ps.len() as int);
                        &&& r matches Ok(Loaded::Transaction { postings, prices, auto_accounts }) && postings@ == bp
                            && lists_prices(prices@, prices_upto(bp, bp.len() as int)) && auto_accounts@ == auto
                        &&& s1.wf()
                        &&& s1.same_but_books(s0)
                        &&& inventory_map(s1.inventory) == inventory_map(s0.inventory).union_prefer_right(upd)
                        &&& diagnostics_added(s1.diagnostics@, s0.diagnostics@, upd.dom(), upd, bp, date, description)
                    }
                },
            }
        },
    }
}

/// What loading a transaction (directive `parsed` of `date`, with its payee,
/// narration and postings) does, from `s0` to `s1`, with result `r`: its
/// accounts are opened automatically (see [auto_opened]), then its postings
/// booked in the state so reached (see [transaction_outcome]).
pub open spec fn transaction_loaded(s0: Loader, s1: Loader, r: Result<Loaded, LoadIssue>, parsed: usize, date: Date, payee: Option<String>, narration: Option<String>, ps: Seq<PostingSpec>) -> bool {
    exists|mid: Loader, auto: Seq<String>|
        #![trigger auto_opened(s0, mid, parsed, ps, auto)]
        {
            &&& auto_opened(s0, mid, parsed, ps, auto)
            &&& mid.wf()
            &&& exists|bk: Result<Bookings, BookingError>|
                #![trigger booked(bk, date, ps, mid.tolerance, mid.methods, inventory_map(mid.inventory))]
                {
                    &&& booked(bk, date, ps, mid.tolerance, mid.methods, inventory_map(mid.inventory))
                    &&& bk matches Ok(b) ==> b.interpolated_postings@.len() == ps.len()
                    &&& transaction_outcome(r, s1, mid, auto, bk, date, description_of(payee, narration), ps)
                }
        }
}

impl Loader {
    /// Book the postings of a transaction, once its accounts are opened.
    fn book_transaction(
        &mut self,
        date: Date,
        description: &String,
        postings: &Vec<PostingSpec>,
        auto: Vec<String>,
    ) -> (r: Result<Loaded, LoadIssue>)
        requires
            old(self).wf(),
        ensures
            final(self).wf(),
            exists|bk: Result<Bookings, BookingError>|
                #![trigger booked(bk, date, postings@, old(self).tolerance, old(self).methods, inventory_map(old(self).inventory))]
                {
                    &&& booked(bk, date, postings@, old(self).tolerance, old(self).methods, inventory_map(old(self).inventory))
                    &&& bk matches Ok(b) ==> b.interpolated_postings@.len() == postings@.len()
                    &&& transaction_outcome(r, *final(self), *old(self), auto@, bk, date, description@, postings@)
                },
    {
        let ghost s0 = *self;
        let result = book(date, postings, &self.tolerance, &self.inventory, &self.methods);
        let ghost bk = result;
        let Bookings { interpolated_postings, updated_inventory } = match result {
            Ok(b) => b,
            Err(e) => {
                return Err(LoadIssue::Booking(e));
            },
        };
        let ghost upd = inventory_map(updated_inventory);
        let ghost its = interpolated_postings@;
        // check all postings have valid accounts and currencies, returning the first error
        let mut i: usize = 0;
        while i < interpolated_postings.len()
            invariant
                *self == s0,
                s0.wf(),
                its == interpolated_postings@,
                its.len() == postings@.len(),
                i <= its.len(),
                first_invalid(its, postings@, s0, i as int) is None,
                booked(bk, date, postings@, s0.tolerance, s0.methods, inventory_map(s0.inventory)),
                bk matches Ok(b) && b.interpolated_postings@ == its && inventory_map(b.updated_inventory) == upd,
            decreases its.len() - i,
        {
            match self.validate_account_and_currency(&postings[i].account, &interpolated_postings[i].currency) {
                Ok(()) => {},
                Err(e) => {
                    proof {
                        lemma_first_invalid_stays(its, postings@, s0, i + 1, postings@.len() as int);
                    }
                    return Err(e);
                },
            }
            i = i + 1;
        }
        let entries = updated_inventory.into_entries();
        let mut k: usize = 0;
        while k < entries.len()
            invariant
                *self == s0,
                s0.wf(),
                k <= entries@.len(),
                positions_entries_match(entries@, upd),
                its.len() == postings@.len(),
                first_invalid(its, postings@, s0, postings@.len() as int) is None,
                booked(bk, date, postings@, s0.tolerance, s0.methods, inventory_map(s0.inventory)),
                bk matches Ok(b) && b.interpolated_postings@ == its && inventory_map(b.updated_inventory) == upd,
                forall|j: int| 0 <= j < k ==> account_issue(origins_map(s0.open_accounts), origins_map(s0.closed_accounts), #[trigger] entries@[j].0@) is None,
            decreases entries@.len() - k,
        {
            match self.validate_account(&entries[k].0) {
                Ok(()) => {},
                Err(e) => {
                    proof {
                        let a = entries@[k as int].0@;
                        assert(upd.contains_key(a));
                    }
                    return Err(e);
                },
            }
            k = k + 1;
        }
        proof {
            assert forall|a: Seq<char>| #[trigger] upd.contains_key(a) implies account_issue(origins_map(s0.open_accounts), origins_map(s0.closed_accounts), a) is None
                && s0.allowed_currencies@.contains_key(a) by {
                let j = choose|j: int| 0 <= j < entries@.len() && entries@[j].0@ == a;
                assert(account_issue(origins_map(s0.open_accounts), origins_map(s0.closed_accounts), entries@[j].0@) is None);
            }
        }
        // an interpolated posting arising from a reduction with multiple costs is mapped
        // to several postings, each with a single cost
        let booked = flatten_postings(&interpolated_postings, postings);
        let prices = collect_prices(&booked);
        self.apply_updates(&entries, &booked, date, description, Ghost(upd));
        Ok(Loaded::Transaction { postings: booked, prices, auto_accounts: auto })
    }

    /// Load a transaction, directive `parsed` of date `date`, described by its
    /// payee, else its narration, else "post": with the auto-accounts
    /// plugin its accounts not yet built are opened (see [auto_opened]), then
    /// its postings are booked against the accounts' positions and booking
    /// methods (see [transaction_outcome]).
    pub fn transaction(
        &mut self,
        parsed: usize,
        date: Date,
        payee: &Option<String>,
        narration: &Option<String>,
        postings: &Vec<PostingSpec>,
    ) -> (r: Result<Loaded, LoadIssue>)
        requires
            old(self).wf(),
        ensures
            final(self).wf(),
            transaction_loaded(*old(self), *final(self), r, parsed, date, *payee, *narration, postings@),
    {
        let description = describe(payee, narration);
        let auto = self.open_auto_accounts(parsed, postings);
        let ghost mid = *self;
        let ghost autos = auto@;
        let r = self.book_transaction(date, &description, postings, auto);
        assert(auto_opened(*old(self), mid, parsed, postings@, autos));
        r
    }
}

/// A directive, by what loading reads of it.
pub enum DirectiveInput {
    Transaction { date: Date, payee: Option<String>, narration: Option<String>, postings: Vec<PostingSpec> },
    Balance { date: Date, account: String, units: Dec, currency: String, tolerance: Option<Dec> },
    Open { account: String, currencies: Vec<String>, booking: Option<Booking> },
    Close { account: String },
    Pad { account: String, source: String },
    /// A price, commodity, document, note, event, query or custom directive:
    /// nothing to load.
    Other,
}

/// The result without what was loaded.
pub open spec fn as_unit(r: Result<Loaded, LoadIssue>) -> Result<(), LoadIssue> {
    match r {
        Ok(_) => Ok(()),
        Err(e) => Err(e),
    }
}

/// What loading directive `parsed` does, from `s0` to `s1`, with result `r`:
/// by its kind, as [transaction_loaded], [balance_outcome], [open_outcome],
/// [close_outcome] or [pad_outcome] say; a pad is recorded as the directive
/// about to be loaded, and loads as a pad with no postings yet.  Any other
/// directive loads as nothing.
pub open spec fn directive_outcome(s0: Loader, s1: Loader, r: Result<Loaded, LoadIssue>, parsed: usize, d: DirectiveInput) -> bool {
    match d {
        DirectiveInput::Transaction { date, payee, narration, postings } => transaction_loaded(
            s0,
            s1,
            r,
            parsed,
            date,
            payee,
            narration,
            postings@,
        ),
        DirectiveInput::Balance { date, account, units, currency, tolerance } => {
            &&& balance_outcome(s0, s1, as_unit(r), parsed, date, account, units, currency, tolerance)
            &&& r is Ok ==> r == Ok::<Loaded, LoadIssue>(Loaded::NA)
        },
        DirectiveInput::Open { account, currencies, booking } => {
            &&& open_outcome(s0, s1, as_unit(r), parsed, account, currencies@, booking)
            &&& r is Ok ==> r == Ok::<Loaded, LoadIssue>(Loaded::NA)
        },
        DirectiveInput::Close { account } => {
            &&& close_outcome(s0, s1, as_unit(r), parsed, account)
            &&& r is Ok ==> r == Ok::<Loaded, LoadIssue>(Loaded::NA)
        },
        DirectiveInput::Pad { account, source } => {
            &&& pad_outcome(s0, s1, as_unit(r), s0.directives@.len() as usize, account)
            &&& r is Ok ==> (r matches Ok(Loaded::Pad { postings, source: s }) && postings@.len() == 0 && s == source)
        },
        DirectiveInput::Other => r == Ok::<Loaded, LoadIssue>(Loaded::NA) && s1 == s0,
    }
}

impl Loader {
    /// Load a directive, `parsed` by its index as parsed.
    pub fn directive(&mut self, parsed: usize, d: &DirectiveInput) -> (r: Result<Loaded, LoadIssue>)
        requires
            old(self).wf(),
        ensures
            final(self).wf(),
            directive_outcome(*old(self), *final(self), r, parsed, *d),
    {
        match d {
            DirectiveInput::Transaction { date, payee, narration, postings } => self.transaction(
                parsed,
                *date,
                payee,
                narration,
                postings,
            ),
            DirectiveInput::Balance { date, account, units, currency, tolerance } => {
                self.balance(parsed, *date, account, *units, currency, *tolerance)?;
                Ok(Loaded::NA)
            },
            DirectiveInput::Open { account, currencies, booking } => {
                self.open(parsed, account, currencies, *booking)?;
                Ok(Loaded::NA)
            },
            DirectiveInput::Close { account } => {
                self.close(parsed, account)?;
                Ok(Loaded::NA)
            },
            DirectiveInput::Pad { account, source } => {
                let n_loaded = self.directives.len();
                self.pad(n_loaded, account)?;
                Ok(Loaded::Pad { postings: Vec::new(), source: source.clone() })
            },
            DirectiveInput::Other => Ok(Loaded::NA),
        }
    }
}

/// What the loaded directives and the warnings are, where loading succeeds.
pub struct LoadSuccess {
    pub directives: Vec<LoadedDirective>,
    pub warnings: Vec<LoadWarning>,
}

impl Loader {
    /// All but the loaded directives are as before.
    pub open spec fn same_but_directives(self, other: Loader) -> bool {
        &&& self.same_accounts(other)
        &&& self.pads == other.pads
        &&& self.diagnostics == other.diagnostics
        &&& self.inventory == other.inventory
    }
}

/// Loading directive `parsed` from `s0` gives `r`, and `s1` once a directive
/// loaded is appended to the loaded directives.
pub open spec fn loaded_step(s0: Loader, s1: Loader, r: Result<Loaded, LoadIssue>, parsed: usize, d: DirectiveInput) -> bool {
    exists|mid: Loader|
        #[trigger] directive_outcome(s0, mid, r, parsed, d) && match r {
            Ok(l) => s1.directives@ == mid.directives@.push(LoadedDirective { parsed, loaded: l }) && s1.same_but_directives(mid),
            Err(_) => s1 == mid,
        }
}

/// The directives loaded in turn, each by its index: `hist` holds the state
/// before each (and after the last), `results` what each gave.
pub open spec fn loaded_all(hist: Seq<Loader>, results: Seq<Result<Loaded, LoadIssue>>, ds: Seq<DirectiveInput>) -> bool {
    &&& hist.len() == ds.len() + 1
    &&& results.len() == ds.len()
    &&& forall|i: int| 0 <= i < ds.len() ==> #[trigger] loaded_step(hist[i], hist[i + 1], results[i], i as usize, ds[i])
}

/// The errors of the first `n` directives, in order, each with its index.
pub open spec fn errors_upto(results: Seq<Result<Loaded, LoadIssue>>, n: int) -> Seq<LoadError>
    decreases n,
{
    if n <= 0 {
        Seq::empty()
    } else {
        let e = errors_upto(results, n - 1);
        match results[n - 1] {
            Err(issue) => e.push(LoadError { parsed: (n - 1) as usize, issue }),
            Ok(_) => e,
        }
    }
}

/// An error for each of the first `n` accounts named that has a pad still
/// pending: the pad was unused, and the error is the pad directive's (where
/// there is no such directive, loading cannot go on).
pub open spec fn unused_pads_upto(s: Loader, n: int) -> Seq<LoadError>
    decreases n,
{
    if n <= 0 {
        Seq::empty()
    } else {
        let e = unused_pads_upto(s, n - 1);
        let a = s.account_names@[n - 1]@;
        if s.pads@.contains_key(a) {
            let idx = s.pads@[a];
            e.push(
                if idx < s.directives@.len() {
                    LoadError { parsed: s.directives@[idx as int].parsed, issue: unused_pad_issue(s, idx) }
                } else {
                    LoadError { parsed: idx, issue: unused_pad_issue(s, idx) }
                },
            )
        } else {
            e
        }
    }
}

/// Loading the directives in turn from `s0` (see [loaded_all]) gives `r`:
/// the errors of the directives that failed, in order, then those of the
/// pads left pending; with none, the directives loaded and the warnings.
pub open spec fn collected(s0: Loader, ds: Seq<DirectiveInput>, r: Result<LoadSuccess, Vec<LoadError>>) -> bool {
    exists|hist: Seq<Loader>, results: Seq<Result<Loaded, LoadIssue>>|
        #![trigger loaded_all(hist, results, ds)]
        {
            let s = hist[ds.len() as int];
            let errors = errors_upto(results, ds.len() as int) + unused_pads_upto(s, s.account_names@.len() as int);
            &&& loaded_all(hist, results, ds)
            &&& hist[0] == s0
            &&& if errors.len() == 0 {
                r matches Ok(success) && success.directives@ == s.directives@ && success.warnings@ == s.warnings@
            } else {
                r matches Err(e) && e@ == errors
            }
        }
}

impl Loader {
    /// The errors for the pads still pending, unused.
    fn unused_pads(&self) -> (r: Vec<LoadError>)
        ensures
            r@ == unused_pads_upto(*self, self.account_names@.len() as int),
    {
        let mut r: Vec<LoadError> = Vec::new();
        let mut i: usize = 0;
        while i < self.account_names.len()
            invariant
                i <= self.account_names@.len(),
                r@ == unused_pads_upto(*self, i as int),
            decreases self.account_names@.len() - i,
        {
            match self.pads.get(self.account_names[i].as_str()) {
                Some(idx) => {
                    let idx = *idx;
                    if idx < self.directives.len() {
                        r.push(LoadError { parsed: self.directives[idx].parsed, issue: self.unused_pad_issue_of(idx) });
                    } else {
                        r.push(LoadError { parsed: idx, issue: self.unused_pad_issue_of(idx) });
                    }
                },
                None => {},
            }
            i = i + 1;
        }
        r
    }

    /// Load the directives in turn, each by its index, keeping those that
    /// load and the errors of those that do not; then every pad still pending
    /// is an error too.  With no error, the directives loaded and the
    /// warnings; otherwise the errors.
    pub fn collect(self, directives: &Vec<DirectiveInput>) -> (r: Result<LoadSuccess, Vec<LoadError>>)
        requires
            self.wf(),
        ensures
            collected(self, directives@, r),
    {
        let mut loader = self;
        let mut errors: Vec<LoadError> = Vec::new();
        let ghost mut hist: Seq<Loader> = seq![loader];
        let ghost mut results: Seq<Result<Loaded, LoadIssue>> = Seq::empty();
        let mut i: usize = 0;
        while i < directives.len()
            invariant
                i <= directives@.len(),
                loader.wf(),
                hist.len() == i + 1,
                results.len() == i,
                hist[0] == self,
                hist[i as int] == loader,
                forall|j: int| 0 <= j < i ==> #[trigger] loaded_step(hist[j], hist[j + 1], results[j], j as usize, directives@[j]),
                errors@ == errors_upto(results, i as int),
            decreases directives@.len() - i,
        {
            let ghost before = loader;
            let result = loader.directive(i, &directives[i]);
            let ghost mid = loader;
            let ghost rg = result;
            match result {
                Ok(loaded) => {
                    loader.directives.push(LoadedDirective { parsed: i, loaded });
                },
                Err(issue) => {
                    errors.push(LoadError { parsed: i, issue });
                },
            }
            proof {
                assert(directive_outcome(before, mid, rg, i, directives@[i as int]));
                assert(loaded_step(before, loader, rg, i, directives@[i as int]));
                let h1 = hist.push(loader);
                let r1 = results.push(rg);
                assert forall|j: int| 0 <= j < i + 1 implies #[trigger] loaded_step(h1[j], h1[j + 1], r1[j], j as usize, directives@[j]) by {
                    if j < i {
                        assert(h1[j] == hist[j] && h1[j + 1] == hist[j + 1] && r1[j] == results[j]);
                    }
                }
                assert(errors_upto(r1, i as int) == errors_upto(results, i as int)) by {
                    lemma_errors_prefix(results, r1, i as int);
                }
                hist = h1;
                results = r1;
            }
            i = i + 1;
        }
        let mut unused = loader.unused_pads();
        errors.append(&mut unused);
        proof {
            assert(loaded_all(hist, results, directives@));
        }
        if errors.len() == 0 {
            Ok(LoadSuccess { directives: loader.directives, warnings: loader.warnings })
        } else {
            Err(errors)
        }
    }
}

proof fn lemma_errors_prefix(a: Seq<Result<Loaded, LoadIssue>>, b: Seq<Result<Loaded, LoadIssue>>, n: int)
    requires
        0 <= n <= a.len(),
        n <= b.len(),
        forall|j: int| 0 <= j < n ==> a[j] == b[j],
    ensures
        errors_upto(a, n) == errors_upto(b, n),
    decreases n,
{
    if n > 0 {
        lemma_errors_prefix(a, b, n - 1);
    }
}

/// The first `n` numbers of the margin written out, each with its
/// currency, separated by commas.
pub open spec fn margin_text(m: Seq<(String, Dec)>, n: int) -> Seq<char>
    decreases n,
{
    if n <= 0 {
        Seq::empty()
    } else if n == 1 {
        decimal_text(m[0].1) + " "@ + m[0].0@
    } else {
        margin_text(m, n - 1) + ", "@ + decimal_text(m[n - 1].1) + " "@ + m[n - 1].0@
    }
}

/// Why a balance assertion failed: what was accumulated ("zero" for no
/// positions), and the margin.
pub open spec fn failure_reason(accumulated: Seq<Position>, margin: Seq<(String, Dec)>) -> Seq<char> {
    "accumulated "@ + (if accumulated.len() == 0 {
        "zero"@
    } else {
        positions_text(accumulated, accumulated.len() as int)
    }) + ", error "@ + margin_text(margin, margin.len() as int)
}

/// The reason a balance assertion failed, where `time` holds the date of
/// each cost accumulated.
pub fn balance_failure_reason(accumulated: &Positions, margin: &Vec<(String, Dec)>) -> (r: Option<String>)
    ensures
        r is Some <==> cost_dates_valid(accumulated@),
        r matches Some(t) ==> t@ == failure_reason(accumulated@, margin@),
{
    let held = if accumulated.is_empty() {
        String::from_str("zero")
    } else {
        match accumulated.to_text() {
            Some(t) => t,
            None => {
                return None;
            },
        }
    };
    let mut r = String::from_str("accumulated ");
    r.append(held.as_str());
    r.append(", error ");
    let ghost prefix = r@;
    let mut i: usize = 0;
    while i < margin.len()
        invariant
            i <= margin@.len(),
            r@ == prefix + margin_text(margin@, i as int),
        decreases margin@.len() - i,
    {
        if i > 0 {
            r.append(", ");
        }
        r.append(margin[i].1.to_text().as_str());
        r.append(" ");
        r.append(margin[i].0.as_str());
        proof {
            if i == 0 {
                assert(r@ =~= prefix + margin_text(margin@, i + 1));
            } else {
                assert(r@ =~= prefix + margin_text(margin@, i + 1));
            }
        }
        i = i + 1;
    }
    assert(r@ =~= failure_reason(accumulated@, margin@));
    Some(r)
}

} // verus!
