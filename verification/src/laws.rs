//! What holds of loading across directives.
use vstd::prelude::*;

use crate::collections::{inventory_map, origins_map, Origin};
use crate::decimal::Dec;
use crate::loader::{
    account_issue, auto_opened, balance_outcome, close_outcome, open_outcome, unused_pad_issue, unused_pads_upto, LoadIssue,
    Loader,
};
use crate::types::{supported_method, Booking, CostSpec, Date, Position, PostingSpec};
use crate::decimal::{decimal_checked_mul, lemma_value_sign};
use crate::internal::{AnnotatedPosting, Interpolated};
use crate::interpolate::{annotated_error, annotated_interpolated};
use crate::reductions::{lemma_matched, matched, position_matches, potential_reduction};
use crate::tolerance::{min_nonzero_scale, residual_of, values_sum};

verus! {

/// An account is opened only once: opening it again, after opening it
/// succeeded, fails with where it was first opened.
pub proof fn law_open_once(
    s0: Loader,
    s1: Loader,
    s2: Loader,
    first: usize,
    second: usize,
    account: String,
    currencies1: Seq<String>,
    currencies2: Seq<String>,
    booking1: Option<Booking>,
    booking2: Option<Booking>,
    r: Result<(), LoadIssue>,
)
    requires
        open_outcome(s0, s1, Ok(()), first, account, currencies1, booking1),
        open_outcome(s1, s2, r, second, account, currencies2, booking2),
    ensures
        r == Err::<(), LoadIssue>(LoadIssue::AccountAlreadyOpened(Origin::Directive(first))),
{
}

/// Once closed, an account may no longer be used: it is reported as closed,
/// where it was closed.
pub proof fn law_closed_account_unusable(s0: Loader, s1: Loader, parsed: usize, account: String)
    requires
        close_outcome(s0, s1, Ok(()), parsed, account),
    ensures
        account_issue(origins_map(s1.open_accounts), origins_map(s1.closed_accounts), account@) == Some(
            LoadIssue::AccountWasClosed(Origin::Directive(parsed)),
        ),
{
}

/// The source account of the pad pending for the account, if that pad is a
/// loaded pad directive.
pub open spec fn pad_source_of(s: Loader, account: Seq<char>) -> Option<Seq<char>> {
    if s.pads@.contains_key(account) {
        let idx = s.pads@[account];
        if idx < s.directives@.len() && s.directives@[idx as int].loaded is Pad {
            Some(s.directives@[idx as int].loaded->Pad_source@)
        } else {
            None
        }
    } else {
        None
    }
}

/// A balance assertion, padded or not, changes the positions of no account
/// but the one asserted and the source of its pad: padding is only ever
/// performed on the account asserted, never on its subaccounts.
pub proof fn law_balance_changes_only_asserted_and_pad_source(
    s0: Loader,
    s1: Loader,
    r: Result<(), LoadIssue>,
    parsed: usize,
    date: Date,
    account: String,
    units: Dec,
    currency: String,
    tolerance: Option<Dec>,
    other: Seq<char>,
)
    requires
        balance_outcome(s0, s1, r, parsed, date, account, units, currency, tolerance),
        other != account@,
        pad_source_of(s0, account@) != Some(other),
    ensures
        inventory_map(s1.inventory).contains_key(other) == inventory_map(s0.inventory).contains_key(other),
        inventory_map(s1.inventory).contains_key(other) ==> inventory_map(s1.inventory)[other] == inventory_map(
            s0.inventory,
        )[other],
{
}

/// With the auto-accounts plugin, every account posted to has been built
/// once its transaction's accounts are opened, and each that was not built
/// before is then open.
pub proof fn law_auto_accounts_cover_postings(s0: Loader, s1: Loader, parsed: usize, ps: Seq<PostingSpec>, auto: Seq<String>)
    requires
        auto_opened(s0, s1, parsed, ps, auto),
        s0.plugins.auto_accounts,
    ensures
        forall|i: int|
            0 <= i < ps.len() ==> s1.allowed_currencies@.contains_key(#[trigger] ps[i].account@) && (
            !s0.allowed_currencies@.contains_key(ps[i].account@) ==> origins_map(s1.open_accounts).contains_key(
                ps[i].account@,
            )),
{
    let new = crate::loader::auto_set(s0, ps, ps.len() as int);
    assert forall|i: int| 0 <= i < ps.len() implies s1.allowed_currencies@.contains_key(#[trigger] ps[i].account@) && (
    !s0.allowed_currencies@.contains_key(ps[i].account@) ==> origins_map(s1.open_accounts).contains_key(
        ps[i].account@,
    )) by {
        let a = ps[i].account@;
        assert(crate::loader::posted(ps, a, ps.len() as int));
        if new.contains(a) {
            assert(crate::loader::auto_built(s0, s1, parsed, ps, a));
        } else {
            assert(s1.allowed_currencies@.remove_keys(new).contains_key(a));
        }
    }
}

/// Every pad still pending when loading ends is reported, as unused (see
/// [unused_pad_issue]).
pub proof fn law_pending_pads_reported(s: Loader, account: Seq<char>)
    requires
        s.wf(),
        s.pads@.contains_key(account),
    ensures
        exists|k: int|
            0 <= k < unused_pads_upto(s, s.account_names@.len() as int).len() && {
                let issue = (#[trigger] unused_pads_upto(s, s.account_names@.len() as int)[k]).issue;
                issue == unused_pad_issue(s, s.pads@[account])
            },
{
    let names = s.account_names@;
    assert(s.allowed_currencies@.contains_key(account));
    let nv = names.map_values(|n: String| n@);
    assert(nv.contains(account));
    let j = choose|j: int| 0 <= j < nv.len() && #[trigger] nv[j] == account;
    assert(names[j]@ == account);
    lemma_pad_listed(s, j, names.len() as int);
}

proof fn lemma_pad_listed(s: Loader, j: int, n: int)
    requires
        0 <= j < n <= s.account_names@.len(),
        s.pads@.contains_key(s.account_names@[j]@),
    ensures
        exists|k: int|
            0 <= k < unused_pads_upto(s, n).len() && {
                let issue = (#[trigger] unused_pads_upto(s, n)[k]).issue;
                let idx = s.pads@[s.account_names@[j]@];
                issue == unused_pad_issue(s, idx)
            },
    decreases n,
{
    if j < n - 1 {
        lemma_pad_listed(s, j, n - 1);
        let k = choose|k: int|
            0 <= k < unused_pads_upto(s, n - 1).len() && {
                let issue = (#[trigger] unused_pads_upto(s, n - 1)[k]).issue;
                let idx = s.pads@[s.account_names@[j]@];
                issue == unused_pad_issue(s, idx)
            };
        assert(unused_pads_upto(s, n)[k] == unused_pads_upto(s, n - 1)[k]);
    } else {
        let k = unused_pads_upto(s, n - 1).len() as int;
        assert(unused_pads_upto(s, n)[k].issue == unused_pad_issue(s, s.pads@[s.account_names@[j]@]));
    }
}

/// A held lot is matched by a posting's cost spec exactly when it is in the
/// posting's currency, is held at cost, and agrees with every field that the
/// spec gives: the date, the currency, the per-unit value and the label.  A
/// lot whose label differs from the spec's is never matched.
pub proof fn law_matched_lots_agree_with_cost_spec(currency: Seq<char>, spec: CostSpec, ps: Seq<Position>, i: int)
    requires
        0 <= i < ps.len(),
        ps.len() <= usize::MAX,
    ensures
        matched(currency, spec, ps).contains(i as usize) <==> {
            &&& ps[i].currency@ == currency
            &&& ps[i].cost is Some
            &&& (spec.date matches Some(d) ==> d == ps[i].cost.unwrap().date)
            &&& (spec.currency matches Some(c) ==> c@ == ps[i].cost.unwrap().currency@)
            &&& (spec.per_unit matches Some(u) ==> u.value() == ps[i].cost.unwrap().per_unit.value())
            &&& (spec.label matches Some(l) ==> (ps[i].cost.unwrap().label matches Some(cl) && cl@ == l@))
        },
{
    let n = ps.len() as int;
    lemma_matched(currency, spec, ps, n);
    let m = matched(currency, spec, ps);
    if m.contains(i as usize) {
        let k = choose|k: int| 0 <= k < m.len() && m[k] == i as usize;
        assert(m[k] == i as usize);
        assert(position_matches(ps[m[k] as int], currency, spec));
        assert(position_matches(ps[i], currency, spec));
    }
    if position_matches(ps[i], currency, spec) {
        assert(m.contains(i as usize));
    }
}

/// A posting at cost is a potential reduction exactly when it has units and
/// some position in its currency holds units of the opposite sign: a posting
/// of the same sign as every position of its currency augments.
pub proof fn law_potential_reduction_needs_opposite_sign(units: Dec, currency: Seq<char>, ps: Seq<Position>)
    ensures
        potential_reduction(units, currency, ps) <==> exists|i: int|
            0 <= i < ps.len() && (#[trigger] ps[i]).currency@ == currency && ((ps[i].units.value() > 0 && units.value() < 0)
                || (ps[i].units.value() < 0 && units.value() > 0)),
{
    lemma_value_sign(units);
    if potential_reduction(units, currency, ps) {
        let i = choose|i: int|
            0 <= i < ps.len() && (#[trigger] ps[i]).currency@ == currency && crate::decimal::sign_of(ps[i].units) is Some
                && crate::decimal::sign_of(ps[i].units) != crate::decimal::sign_of(units);
        lemma_value_sign(ps[i].units);
    }
    if exists|i: int|
        0 <= i < ps.len() && (#[trigger] ps[i]).currency@ == currency && ((ps[i].units.value() > 0 && units.value() < 0)
            || (ps[i].units.value() < 0 && units.value() > 0)) {
        let i = choose|i: int|
            0 <= i < ps.len() && (#[trigger] ps[i]).currency@ == currency && ((ps[i].units.value() > 0 && units.value() < 0)
                || (ps[i].units.value() < 0 && units.value() > 0));
        lemma_value_sign(ps[i].units);
        assert(ps[i].currency@ == currency);
    }
}

/// A posting interpolated at cost (where interpolation finds no error)
/// carries a single posting cost, with the label and merge flag of its cost
/// spec, dated by the cost spec where it gives a date and by the transaction
/// only where it does not; the per-unit and total numbers the spec gives,
/// and the units the posting gives, are kept.
pub proof fn law_interpolated_cost_dated_by_spec(
    i: Interpolated,
    date: Date,
    currency: String,
    weight: Dec,
    a: AnnotatedPosting,
    p: PostingSpec,
)
    requires
        annotated_error(weight, a, p) is None,
        annotated_interpolated(i, date, currency, weight, a, p),
        p.cost is Some,
    ensures
        i.cost is Some,
        i.cost.unwrap().adjustments@.len() == 1,
        p.cost.unwrap().date is Some ==> i.cost.unwrap().adjustments@[0].date == p.cost.unwrap().date->0,
        p.cost.unwrap().date is None ==> i.cost.unwrap().adjustments@[0].date == date,
        i.cost.unwrap().adjustments@[0].label == p.cost.unwrap().label,
        i.cost.unwrap().adjustments@[0].merge == p.cost.unwrap().merge,
        p.cost.unwrap().per_unit is Some ==> i.cost.unwrap().adjustments@[0].per_unit == p.cost.unwrap().per_unit->0,
        p.cost.unwrap().total is Some ==> i.cost.unwrap().adjustments@[0].total == p.cost.unwrap().total->0,
        p.units is Some ==> i.units == p.units->0 && i.cost.unwrap().adjustments@[0].units == p.units->0,
        i.currency == a.currency.unwrap(),
        i.cost.unwrap().cost_currency == a.cost_currency.unwrap(),
        i.price is None,
{
}

/// The multiplier that the tolerance sets is the one used: for values whose
/// smallest nonzero scale is `s`, where ten to the `-s` times the multiplier
/// is `t`, the sum is kept as a residual exactly when its magnitude reaches
/// `t`.
pub proof fn law_tolerance_uses_its_multiplier(default: Option<Dec>, multiplier: Dec, vs: Seq<Dec>, s: nat, sum: Dec, t: Dec)
    requires
        min_nonzero_scale(vs) == Some(s),
        values_sum(vs) == Some(sum),
        decimal_checked_mul(Dec::of_parts(1, s), multiplier) == Some(t),
    ensures
        residual_of(default, Some(multiplier), vs) == Some(
            if sum.value() >= t.value() || -sum.value() >= t.value() {
                Some(sum)
            } else {
                None
            },
        ),
{
}

/// An account opened without a booking method takes the loader's default
/// (Strict where the default is not supported); one opened with a supported
/// method takes that method.
pub proof fn law_open_takes_default_booking(
    s0: Loader,
    s1: Loader,
    r: Result<(), LoadIssue>,
    parsed: usize,
    account: String,
    currencies: Seq<String>,
    booking: Option<Booking>,
)
    requires
        open_outcome(s0, s1, r, parsed, account, currencies, booking),
        !origins_map(s0.open_accounts).contains_key(account@),
        !origins_map(s0.closed_accounts).contains_key(account@),
    ensures
        r is Ok,
        booking is None && supported_method(s0.default_booking) ==> s1.methods.spec_method(account@) == s0.default_booking,
        booking is None && !supported_method(s0.default_booking) ==> s1.methods.spec_method(account@) == Booking::Strict,
        booking is Some && supported_method(booking->0) ==> s1.methods.spec_method(account@) == booking->0,
        booking is Some && !supported_method(booking->0) ==> s1.methods.spec_method(account@) == Booking::Strict,
        forall|other: Seq<char>| other != account@ ==> #[trigger] s1.methods.spec_method(other) == s0.methods.spec_method(other),
{
}

} // verus!
