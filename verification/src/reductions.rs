//! Reductions: postings at cost that reduce positions held at cost, matched
//! against those positions by their cost specs.
use vstd::prelude::*;

use crate::decimal::{
    abs_value, add_is_exact, dec_neg, sub_is_exact, decimal_checked_add, decimal_checked_sub, sign_of, Dec, Number,
};
use crate::errors::{BookingError, PostingBookingError};
use crate::internal::{AnnotatedPosting, BookedOrUnbookedPosting, Interpolated};
use crate::collections::{index_set_view, inventory_map, string_set_view, IndexSet, Inventory, StringSet};
use crate::order::{copy_opt_str, opt_str_same};
use crate::tolerance::{lemma_sum_none_stays, residual_of, tolerance_residual, values_sum, Tolerance};
use crate::positions::{currency_units_total, lemma_total_update, Positions};
use crate::types::{
    compare_date, date_order, Booking, BookingMethods, CostSpec, Date, Position, PostingCost, PostingCosts, PostingSpec,
};

verus! {

broadcast use crate::decimal::Dec::lemma_of_parts, crate::decimal::Dec::lemma_ext;

/// Some position in the posting's currency has units of the sign opposite to
/// the posting's.
pub open spec fn potential_reduction(units: Dec, currency: Seq<char>, ps: Seq<Position>) -> bool {
    &&& sign_of(units) is Some
    &&& exists|i: int|
        0 <= i < ps.len() && (#[trigger] ps[i]).currency@ == currency && sign_of(ps[i].units) is Some
            && sign_of(ps[i].units) != sign_of(units)
}

/// Do any positions in this currency have a sign opposite to ours?
pub fn is_potential_reduction(posting_units: Dec, posting_currency: &String, positions: &Positions) -> (r: bool)
    ensures
        r == potential_reduction(posting_units, posting_currency@, positions@),
{
    let ann_sign = posting_units.sign();
    match ann_sign {
        None => false,
        Some(s) => {
            let ps = positions.as_vec();
            let mut i: usize = 0;
            while i < ps.len()
                invariant
                    ps@ == positions@,
                    i <= ps@.len(),
                    sign_of(posting_units) == Some(s),
                    forall|j: int|
                        0 <= j < i ==> !((#[trigger] ps@[j]).currency@ == posting_currency@ && sign_of(ps@[j].units) is Some
                            && sign_of(ps@[j].units) != sign_of(posting_units)),
                decreases ps@.len() - i,
            {
                if ps[i].currency.eq(posting_currency) {
                    match ps[i].units.sign() {
                        Some(t) => {
                            if t != s {
                                return true;
                            }
                        },
                        None => {},
                    }
                }
                i = i + 1;
            }
            false
        },
    }
}

/// A cost matches a cost spec where every field the spec gives agrees.
pub open spec fn cost_matches(cost: crate::types::Cost, spec: CostSpec) -> bool {
    &&& spec.date matches Some(d) ==> d == cost.date
    &&& spec.currency matches Some(c) ==> c@ == cost.currency@
    &&& spec.per_unit matches Some(u) ==> u.value() == cost.per_unit.value()
    &&& spec.label matches Some(l) ==> opt_str_same(cost.label, Some(l))
}

fn cost_matches_spec(cost: &crate::types::Cost, cost_spec: &CostSpec) -> (r: bool)
    ensures
        r == cost_matches(*cost, *cost_spec),
{
    let date_differs = match &cost_spec.date {
        Some(d) => *d != cost.date,
        None => false,
    };
    let currency_differs = match &cost_spec.currency {
        Some(c) => !c.eq(&cost.currency),
        None => false,
    };
    let per_unit_differs = match &cost_spec.per_unit {
        Some(u) => !u.num_eq(&cost.per_unit),
        None => false,
    };
    let label_differs = match &cost_spec.label {
        Some(l) => match &cost.label {
            Some(cl) => !cl.eq(l),
            None => true,
        },
        None => false,
    };
    !(date_differs || currency_differs || per_unit_differs || currency_differs || label_differs)
}

/// The position is in the currency, at a cost that matches the spec.
pub open spec fn position_matches(p: Position, currency: Seq<char>, spec: CostSpec) -> bool {
    &&& p.currency@ == currency
    &&& p.cost matches Some(c) && cost_matches(c, spec)
}

/// The indices of the first `n` positions that match, in order.
pub open spec fn matched_upto(currency: Seq<char>, spec: CostSpec, ps: Seq<Position>, n: int) -> Seq<usize>
    decreases n,
{
    if n <= 0 {
        Seq::empty()
    } else {
        let m = matched_upto(currency, spec, ps, n - 1);
        if position_matches(ps[n - 1], currency, spec) {
            m.push((n - 1) as usize)
        } else {
            m
        }
    }
}

/// The indices of the positions that match, in order.
pub open spec fn matched(currency: Seq<char>, spec: CostSpec, ps: Seq<Position>) -> Seq<usize> {
    matched_upto(currency, spec, ps, ps.len() as int)
}

/// The matched indices are increasing indices of matching positions, and
/// every matching position is among them.
pub proof fn lemma_matched(currency: Seq<char>, spec: CostSpec, ps: Seq<Position>, n: int)
    requires
        0 <= n <= ps.len(),
        ps.len() <= usize::MAX,
    ensures
        forall|k: int| 0 <= k < matched_upto(currency, spec, ps, n).len() ==> {
            let i = #[trigger] matched_upto(currency, spec, ps, n)[k];
            &&& 0 <= i < n
            &&& position_matches(ps[i as int], currency, spec)
        },
        forall|k: int, l: int| 0 <= k < l < matched_upto(currency, spec, ps, n).len() ==> #[trigger] matched_upto(currency, spec, ps, n)[k] < #[trigger] matched_upto(currency, spec, ps, n)[l],
        forall|i: int| 0 <= i < n && #[trigger] position_matches(ps[i], currency, spec) ==> matched_upto(currency, spec, ps, n).contains(i as usize),
    decreases n,
{
    if n > 0 {
        lemma_matched(currency, spec, ps, n - 1);
        let m = matched_upto(currency, spec, ps, n - 1);
        let mm = matched_upto(currency, spec, ps, n);
        assert forall|k: int| 0 <= k < mm.len() implies {
            let i = #[trigger] mm[k];
            &&& 0 <= i < n
            &&& position_matches(ps[i as int], currency, spec)
        } by {
            if k < m.len() {
                assert(mm[k] == m[k]);
            }
        }
        assert forall|k: int, l: int| 0 <= k < l < mm.len() implies #[trigger] mm[k] < #[trigger] mm[l] by {
            if l < m.len() {
                assert(mm[k] == m[k] && mm[l] == m[l]);
            } else {
                assert(mm[k] == m[k]);
            }
        }
        assert forall|i: int| 0 <= i < n && #[trigger] position_matches(ps[i], currency, spec) implies matched_upto(currency, spec, ps, n).contains(i as usize) by {
            if i < n - 1 {
                let k = choose|k: int| 0 <= k < m.len() && m[k] == i as usize;
                assert(matched_upto(currency, spec, ps, n)[k] == i as usize);
            } else {
                assert(matched_upto(currency, spec, ps, n).last() == i as usize);
            }
        }
    }
}

/// Find positions whose costs match what we have.
pub fn match_positions(posting_currency: &String, cost_spec: &CostSpec, positions: &Positions) -> (r: Vec<usize>)
    ensures
        r@ == matched(posting_currency@, *cost_spec, positions@),
{
    let ps = positions.as_vec();
    let mut r: Vec<usize> = Vec::new();
    let mut i: usize = 0;
    while i < ps.len()
        invariant
            ps@ == positions@,
            i <= ps@.len(),
            r@ == matched_upto(posting_currency@, *cost_spec, ps@, i as int),
        decreases ps@.len() - i,
    {
        if ps[i].currency.eq(posting_currency) {
            match &ps[i].cost {
                Some(c) => {
                    if cost_matches_spec(c, cost_spec) {
                        r.push(i);
                    }
                },
                None => {},
            }
        }
        i = i + 1;
    }
    r
}

/// The posting cost that reducing a lot at `cost` by `units` books.
pub open spec fn lot_posting_cost(cost: crate::types::Cost, units: Dec) -> PostingCost {
    PostingCost {
        date: cost.date,
        units,
        per_unit: cost.per_unit,
        total: cost.total,
        label: cost.label,
        merge: cost.merge,
    }
}

/// A booked posting in a currency for its units, at the given posting costs
/// in a cost currency, without price.
pub open spec fn booked_at(i: Interpolated, idx: usize, units: Dec, currency: Seq<char>, cost_currency: Seq<char>, adjustments: Seq<PostingCost>) -> bool {
    &&& i.idx == idx
    &&& i.units == units
    &&& i.currency@ == currency
    &&& i.price is None
    &&& i.cost matches Some(pcs) && pcs.cost_currency@ == cost_currency && pcs.adjustments@ == adjustments
}

/// The positions after reducing the matched one by `units`: its units
/// updated, or the position gone where they come to zero.
pub open spec fn reduced_positions(ps: Seq<Position>, m: int, u: Dec) -> Seq<Position> {
    if u.value() == 0 {
        ps.remove(m)
    } else {
        ps.update(m, Position { units: u, ..ps[m] })
    }
}

/// What a reduction books: the positions after it, the cost currency, and
/// the posting costs of the lots it reduced.
pub type Reduction = (Seq<Position>, Seq<char>, Seq<PostingCost>);

/// Reducing the single matched position `m` by the posting's units: too many
/// units fail; else the position takes them (an overflow fails), at its cost.
pub open spec fn matched_reduction(units: Dec, idx: usize, ps: Seq<Position>, m: int) -> Result<Reduction, BookingError> {
    if abs_value(units) > abs_value(ps[m].units) {
        Err(BookingError::Posting(idx, PostingBookingError::NotEnoughLotsToReduce))
    } else {
        match decimal_checked_add(ps[m].units, units) {
            None => Err(BookingError::Posting(idx, PostingBookingError::NumberOverflow)),
            Some(u) => Ok(
                (
                    reduced_positions(ps, m, u),
                    ps[m].cost.unwrap().currency@,
                    seq![lot_posting_cost(ps[m].cost.unwrap(), units)],
                ),
            ),
        }
    }
}

/// A reduction's outcome is as expected: the same error, or the expected
/// positions with the posting booked for its units and currency at the
/// expected posting costs.
pub open spec fn booked_reduction(
    r: Result<(Interpolated, Positions), BookingError>,
    expected: Result<Reduction, BookingError>,
    idx: usize,
    units: Dec,
    currency: Seq<char>,
) -> bool {
    match expected {
        Err(e) => r == Err::<(Interpolated, Positions), BookingError>(e),
        Ok((ups, cc, adjustments)) => r matches Ok((i, up)) && up@ == ups && booked_at(i, idx, units, currency, cc, adjustments),
    }
}

/// Reduce the single matched position.
pub fn reduce_matched_position(
    posting_units: Dec,
    posting_currency: &String,
    posting_idx: usize,
    previous_positions: &Positions,
    matched_position_idx: usize,
) -> (r: Result<(Interpolated, Positions), BookingError>)
    requires
        matched_position_idx < previous_positions@.len(),
        previous_positions@[matched_position_idx as int].cost is Some,
    ensures
        booked_reduction(
            r,
            matched_reduction(posting_units, posting_idx, previous_positions@, matched_position_idx as int),
            posting_idx,
            posting_units,
            posting_currency@,
        ),
{
    let ps = previous_positions.as_vec();
    let matched = &ps[matched_position_idx];
    if matched.units.abs().num_lt(&posting_units.abs()) {
        return Err(BookingError::Posting(posting_idx, PostingBookingError::NotEnoughLotsToReduce));
    }
    let matched_cost = match &matched.cost {
        Some(c) => c,
        None => {
            return Err(BookingError::Posting(posting_idx, PostingBookingError::NotEnoughLotsToReduce));
        },
    };
    let updated = match matched.with_accumulated(posting_units) {
        Some(p) => p,
        None => {
            return Err(BookingError::Posting(posting_idx, PostingBookingError::NumberOverflow));
        },
    };
    let ghost u = updated.units;
    let mut v: Vec<Position> = Vec::new();
    let mut i: usize = 0;
    while i < ps.len()
        invariant
            ps@ == previous_positions@,
            matched_position_idx < ps@.len(),
            updated == (Position { units: u, ..ps@[matched_position_idx as int] }),
            i <= ps@.len(),
            i <= matched_position_idx ==> v@ == ps@.take(i as int),
            i > matched_position_idx ==> v@ == reduced_positions(ps@.take(i as int), matched_position_idx as int, u),
        decreases ps@.len() - i,
    {
        if i == matched_position_idx {
            if !updated.units.is_zero() {
                v.push(updated.duplicate());
            }
        } else {
            v.push(ps[i].duplicate());
        }
        i = i + 1;
        proof {
            if i <= matched_position_idx {
                assert(v@ =~= ps@.take(i as int));
            } else if i == matched_position_idx + 1 {
                assert(v@ =~= reduced_positions(ps@.take(i as int), matched_position_idx as int, u));
            } else {
                assert(v@ =~= reduced_positions(ps@.take(i as int), matched_position_idx as int, u));
            }
        }
    }
    assert(ps@.take(i as int) =~= ps@);
    let mut adjustments: Vec<PostingCost> = Vec::new();
    adjustments.push(
        PostingCost {
            date: matched_cost.date,
            units: posting_units,
            per_unit: matched_cost.per_unit,
            total: matched_cost.total,
            label: copy_opt_str(&matched_cost.label),
            merge: matched_cost.merge,
        },
    );
    assert(adjustments@ =~= seq![lot_posting_cost(*matched_cost, posting_units)]);
    Ok(
        (
            Interpolated {
                idx: posting_idx,
                units: posting_units,
                currency: posting_currency.clone(),
                cost: Some(PostingCosts { cost_currency: matched_cost.currency.clone(), adjustments }),
                price: None,
            },
            Positions::from_previous(v),
        ),
    )
}

/// The matched indices are positions at cost.
pub open spec fn valid_matched(ps: Seq<Position>, matched: Seq<usize>) -> bool {
    forall|k: int| 0 <= k < matched.len() ==> (#[trigger] matched[k]) < ps.len() && ps[matched[k] as int].cost is Some
}

/// The units of the matched positions, in order.
pub open spec fn matched_units(ps: Seq<Position>, matched: Seq<usize>) -> Seq<Dec> {
    Seq::new(matched.len(), |k: int| ps[matched[k] as int].units)
}

/// The matched positions hold enough units for the posting: their sum (an
/// overflow fails) is at least the posting's units.
pub open spec fn sufficiency(units: Dec, idx: usize, ps: Seq<Position>, matched: Seq<usize>) -> Result<(), BookingError> {
    match values_sum(matched_units(ps, matched)) {
        None => Err(BookingError::Posting(idx, PostingBookingError::NumberOverflow)),
        Some(total) => if units.value() <= total.value() {
            Ok(())
        } else {
            Err(BookingError::Posting(idx, PostingBookingError::NotEnoughLotsToReduce))
        },
    }
}

/// Check that the matched positions hold enough units for the posting.
fn check_sufficient_matched_units(
    posting_units: Dec,
    posting_idx: usize,
    positions: &Positions,
    matched: &Vec<usize>,
) -> (r: Result<(), BookingError>)
    requires
        valid_matched(positions@, matched@),
    ensures
        r == sufficiency(posting_units, posting_idx, positions@, matched@),
{
    let ps = positions.as_vec();
    let ghost us = matched_units(ps@, matched@);
    let mut total: Dec = <Dec as Number>::zero();
    let mut k: usize = 0;
    while k < matched.len()
        invariant
            ps@ == positions@,
            us == matched_units(ps@, matched@),
            valid_matched(ps@, matched@),
            k <= matched@.len(),
            values_sum(us.take(k as int)) == Some(total),
        decreases matched@.len() - k,
    {
        assert(us.take(k + 1).drop_last() =~= us.take(k as int));
        match total.checked_add(&ps[matched[k]].units) {
            Some(t) => {
                total = t;
            },
            None => {
                proof {
                    lemma_sum_none_stays(us, k + 1);
                }
                return Err(BookingError::Posting(posting_idx, PostingBookingError::NumberOverflow));
            },
        }
        k = k + 1;
    }
    assert(us.take(k as int) =~= us);
    if posting_units.num_le(&total) {
        Ok(())
    } else {
        Err(BookingError::Posting(posting_idx, PostingBookingError::NotEnoughLotsToReduce))
    }
}

/// The cost currency of a matched position.
pub open spec fn cost_currency_at(ps: Seq<Position>, i: usize) -> Seq<char> {
    ps[i as int].cost.unwrap().currency@
}

/// The cost currency that all the matched positions share, if there are some
/// and they do.
pub open spec fn unique_cost_currency(ps: Seq<Position>, matched: Seq<usize>) -> Option<Seq<char>> {
    if matched.len() > 0 && forall|k: int| 0 <= k < matched.len() ==> cost_currency_at(ps, #[trigger] matched[k]) == cost_currency_at(ps, matched[0]) {
        Some(cost_currency_at(ps, matched[0]))
    } else {
        None
    }
}

/// The cost currency of the matched positions, which must be the same for all.
fn get_unique_cost_currency(posting_idx: usize, positions: &Positions, matched: &Vec<usize>) -> (r: Result<String, BookingError>)
    requires
        valid_matched(positions@, matched@),
    ensures
        match unique_cost_currency(positions@, matched@) {
            Some(c) => r matches Ok(s) && s@ == c,
            None => r == Err::<String, BookingError>(BookingError::Posting(posting_idx, PostingBookingError::MultipleCostCurrenciesMatch)),
        },
{
    let ps = positions.as_vec();
    let mut currencies = StringSet::empty();
    let mut k: usize = 0;
    while k < matched.len()
        invariant
            ps@ == positions@,
            valid_matched(ps@, matched@),
            k <= matched@.len(),
            string_set_view(currencies).finite(),
            forall|c: Seq<char>| #[trigger] string_set_view(currencies).contains(c) <==> exists|j: int| 0 <= j < k && cost_currency_at(ps@, matched@[j]) == c,
        decreases matched@.len() - k,
    {
        let i = matched[k];
        match &ps[i].cost {
            Some(c) => {
                currencies.insert(c.currency.clone());
                proof {
                    assert forall|c: Seq<char>| #[trigger] string_set_view(currencies).contains(c) <==> exists|j: int| 0 <= j < k + 1 && cost_currency_at(ps@, matched@[j]) == c by {
                        if c == cost_currency_at(ps@, matched@[k as int]) {
                            assert(0 <= k < k + 1 && cost_currency_at(ps@, matched@[k as int]) == c);
                        }
                    }
                }
            },
            None => {
                assert(false);
            },
        }
        k = k + 1;
    }
    let ghost view = string_set_view(currencies);
    if currencies.len() == 1 {
        match currencies.first() {
            Some(c) => {
                proof {
                    let c0 = cost_currency_at(ps@, matched@[0]);
                    assert(view.contains(c@));
                    assert(matched@.len() > 0);
                    assert(view.contains(c0));
                    assert forall|k: int| 0 <= k < matched@.len() implies cost_currency_at(ps@, #[trigger] matched@[k]) == c0 by {
                        let ck = cost_currency_at(ps@, matched@[k]);
                        assert(view.contains(ck));
                        if ck != c0 {
                            assert(view.remove(c0).contains(ck));
                            assert(view.remove(c0).len() != 0);
                            assert(view.len() == view.remove(c0).len() + 1);
                        }
                    }
                    if c@ != c0 {
                        assert(view.remove(c0).contains(c@));
                        assert(view.remove(c0).len() != 0);
                    }
                }
                Ok(c)
            },
            None => {
                assert(view.len() == 0);
                Err(BookingError::Posting(posting_idx, PostingBookingError::MultipleCostCurrenciesMatch))
            },
        }
    } else {
        proof {
            if matched@.len() > 0 && forall|k: int| 0 <= k < matched@.len() ==> cost_currency_at(ps@, #[trigger] matched@[k]) == cost_currency_at(ps@, matched@[0]) {
                let c0 = cost_currency_at(ps@, matched@[0]);
                assert(view =~= Set::<Seq<char>>::empty().insert(c0));
                assert(Set::<Seq<char>>::empty().insert(c0).len() == 1);
            }
        }
        Err(BookingError::Posting(posting_idx, PostingBookingError::MultipleCostCurrenciesMatch))
    }
}

/// The first `n` positions but those matched, in order.
pub open spec fn unmatched_upto(ps: Seq<Position>, matched: Seq<usize>, n: int) -> Seq<Position>
    decreases n,
{
    if n <= 0 {
        Seq::empty()
    } else {
        let r = unmatched_upto(ps, matched, n - 1);
        if matched.contains((n - 1) as usize) {
            r
        } else {
            r.push(ps[n - 1])
        }
    }
}

/// The posting costs of selling each matched lot whole, in order.
pub open spec fn sold_adjustments(ps: Seq<Position>, matched: Seq<usize>) -> Seq<PostingCost> {
    Seq::new(matched.len(), |k: int| lot_posting_cost(ps[matched[k] as int].cost.unwrap(), dec_neg(ps[matched[k] as int].units)))
}

/// Selling all the matched lots: they go, each sold whole at its cost, all
/// in their one cost currency (else this fails).
pub open spec fn all_sold_reduction(idx: usize, ps: Seq<Position>, matched: Seq<usize>) -> Result<Reduction, BookingError> {
    match unique_cost_currency(ps, matched) {
        None => Err(BookingError::Posting(idx, PostingBookingError::MultipleCostCurrenciesMatch)),
        Some(cc) => Ok((unmatched_upto(ps, matched, ps.len() as int), cc, sold_adjustments(ps, matched))),
    }
}

/// Reduce all the matched positions, the posting selling them all.
fn reduce_all_sold_at_cost(
    posting_units: Dec,
    posting_currency: &String,
    posting_idx: usize,
    positions: &Positions,
    matched: Vec<usize>,
) -> (r: Result<(Interpolated, Positions), BookingError>)
    requires
        valid_matched(positions@, matched@),
    ensures
        booked_reduction(r, all_sold_reduction(posting_idx, positions@, matched@), posting_idx, posting_units, posting_currency@),
{
    let cost_currency = get_unique_cost_currency(posting_idx, positions, &matched)?;
    let ps = positions.as_vec();
    let mut matched_set = IndexSet::empty();
    let mut k: usize = 0;
    while k < matched.len()
        invariant
            k <= matched@.len(),
            forall|x: usize| #[trigger] index_set_view(matched_set).contains(x) <==> matched@.take(k as int).contains(x),
        decreases matched@.len() - k,
    {
        matched_set.insert(matched[k]);
        proof {
            let t = matched@.take(k as int);
            assert(matched@.take(k + 1) =~= t.push(matched@[k as int]));
            assert forall|x: usize| #[trigger] index_set_view(matched_set).contains(x) <==> matched@.take(k + 1).contains(x) by {
                if x == matched@[k as int] {
                    assert(matched@.take(k + 1)[k as int] == x);
                }
                if t.contains(x) {
                    let j = choose|j: int| 0 <= j < t.len() && t[j] == x;
                    assert(matched@.take(k + 1)[j] == x);
                }
                if matched@.take(k + 1).contains(x) && x != matched@[k as int] {
                    let tk = matched@.take(k + 1);
                    let j = choose|j: int| 0 <= j < tk.len() && tk[j] == x;
                    assert(t[j] == x);
                }
            }
        }
        k = k + 1;
    }
    assert(matched@.take(k as int) =~= matched@);
    let mut kept: Vec<Position> = Vec::new();
    let mut i: usize = 0;
    while i < ps.len()
        invariant
            ps@ == positions@,
            forall|x: usize| #[trigger] index_set_view(matched_set).contains(x) <==> matched@.contains(x),
            i <= ps@.len(),
            kept@ == unmatched_upto(ps@, matched@, i as int),
        decreases ps@.len() - i,
    {
        if !matched_set.contains(i) {
            kept.push(ps[i].duplicate());
        }
        i = i + 1;
    }
    let mut adjustments: Vec<PostingCost> = Vec::new();
    let mut k: usize = 0;
    while k < matched.len()
        invariant
            ps@ == positions@,
            valid_matched(ps@, matched@),
            k <= matched@.len(),
            adjustments@ == sold_adjustments(ps@, matched@).take(k as int),
        decreases matched@.len() - k,
    {
        let matched_position = &ps[matched[k]];
        match &matched_position.cost {
            Some(c) => {
                adjustments.push(
                    PostingCost {
                        date: c.date,
                        units: matched_position.units.neg(),
                        per_unit: c.per_unit,
                        total: c.total,
                        label: copy_opt_str(&c.label),
                        merge: c.merge,
                    },
                );
            },
            None => {
                assert(false);
            },
        }
        k = k + 1;
        assert(adjustments@ =~= sold_adjustments(ps@, matched@).take(k as int));
    }
    assert(sold_adjustments(ps@, matched@).take(k as int) =~= sold_adjustments(ps@, matched@));
    Ok(
        (
            Interpolated {
                idx: posting_idx,
                units: posting_units,
                currency: posting_currency.clone(),
                cost: Some(PostingCosts { cost_currency, adjustments }),
                price: None,
            },
            Positions::from_previous(kept),
        ),
    )
}

/// Whether the posting sells everything that matches: the matched units
/// together with the posting's sum to zero, within tolerance; `None` where
/// the arithmetic overflows.
pub open spec fn sells_all(default: Option<Dec>, multiplier: Option<Dec>, units: Dec, ps: Seq<Position>, matched: Seq<usize>) -> Option<bool> {
    match residual_of(default, multiplier, matched_units(ps, matched).push(units)) {
        None => None,
        Some(res) => Some(res is None),
    }
}

/// Is this "sell everything that matches"?  That is, do the matched positions
/// together with this posting sum to zero-ish?
fn is_sell_all_at_cost<T: Tolerance>(
    posting_units: Dec,
    posting_currency: &String,
    positions: &Positions,
    matched: &Vec<usize>,
    tolerance: &T,
) -> (r: Option<bool>)
    requires
        valid_matched(positions@, matched@),
    ensures
        r == sells_all(tolerance.spec_default(posting_currency@), tolerance.spec_multiplier(), posting_units, positions@, matched@),
{
    let ps = positions.as_vec();
    let mut units: Vec<Dec> = Vec::new();
    let mut k: usize = 0;
    while k < matched.len()
        invariant
            ps@ == positions@,
            valid_matched(ps@, matched@),
            k <= matched@.len(),
            units@ == matched_units(ps@, matched@).take(k as int),
        decreases matched@.len() - k,
    {
        units.push(ps[matched[k]].units);
        k = k + 1;
        assert(units@ =~= matched_units(ps@, matched@).take(k as int));
    }
    units.push(posting_units);
    assert(units@ =~= matched_units(ps@, matched@).push(posting_units));
    match tolerance_residual(tolerance, &units, posting_currency) {
        None => None,
        Some(residual) => Some(residual.is_none()),
    }
}

/// The state of reducing lots in turn: the units still to book, the units of
/// each position, the posting costs so far, and whether all units are booked.
pub type OrderedState = (Dec, Seq<Dec>, Seq<PostingCost>, bool);

/// What the lot at `i` takes of the units still to book: all of them where
/// it holds as many, else all it holds.
pub open spec fn ordered_consumed(s: OrderedState, i: int) -> Dec {
    if abs_value(s.0) <= abs_value(s.1[i]) {
        s.0
    } else {
        dec_neg(s.1[i])
    }
}

/// Reducing the lot at `i`: it takes as many of the units still to book as
/// it holds (an overflow gives `None`).
pub open spec fn ordered_step(s: OrderedState, ps: Seq<Position>, i: int) -> Option<OrderedState> {
    let consumed = ordered_consumed(s, i);
    match decimal_checked_add(s.1[i], consumed) {
        None => None,
        Some(u) => match decimal_checked_sub(s.0, consumed) {
            None => None,
            Some(rem) => Some(
                (rem, s.1.update(i, u), s.2.push(lot_posting_cost(ps[i].cost.unwrap(), consumed)), rem.value() == 0),
            ),
        },
    }
}

/// The state after reducing the first `n` lots of the order, stopping once
/// all units are booked.
pub open spec fn ordered_upto(units: Dec, ps: Seq<Position>, order: Seq<usize>, n: int) -> Option<OrderedState>
    decreases n,
{
    if n <= 0 {
        Some((units, Seq::new(ps.len(), |i: int| ps[i].units), Seq::empty(), false))
    } else {
        match ordered_upto(units, ps, order, n - 1) {
            None => None,
            Some(s) => if s.3 {
                Some(s)
            } else {
                ordered_step(s, ps, order[n - 1] as int)
            },
        }
    }
}

/// The positions among the first `n` whose units are not zero, with those
/// units, each in its own currency and at its own cost.
pub open spec fn survivors_upto(ps: Seq<Position>, us: Seq<Dec>, n: int) -> Seq<Position>
    decreases n,
{
    if n <= 0 {
        Seq::empty()
    } else {
        let r = survivors_upto(ps, us, n - 1);
        if us[n - 1].value() != 0 {
            r.push(Position { units: us[n - 1], currency: ps[n - 1].currency, cost: ps[n - 1].cost })
        } else {
            r
        }
    }
}

/// Reducing lots in the given order until the posting's units are booked:
/// units left over fail, as does an overflow; the positions left with units
/// stay.
pub open spec fn ordered_reduction(
    units: Dec,
    currency: String,
    cost_currency: Seq<char>,
    idx: usize,
    ps: Seq<Position>,
    order: Seq<usize>,
) -> Result<Reduction, BookingError> {
    match ordered_upto(units, ps, order, order.len() as int) {
        None => Err(BookingError::Posting(idx, PostingBookingError::NumberOverflow)),
        Some(s) => if s.0.value() != 0 {
            Err(BookingError::Posting(idx, PostingBookingError::NotEnoughLotsToReduce))
        } else {
            Ok((survivors_upto(ps, s.1, ps.len() as int), cost_currency, s.2))
        },
    }
}

/// Every sum and difference taken in reducing the first `n` lots of the
/// order is exact.
pub open spec fn ordered_exact(units: Dec, ps: Seq<Position>, order: Seq<usize>, n: int) -> bool
    decreases n,
{
    if n <= 0 {
        true
    } else {
        &&& ordered_exact(units, ps, order, n - 1)
        &&& match ordered_upto(units, ps, order, n - 1) {
            None => true,
            Some(s) => s.3 || {
                let i = order[n - 1] as int;
                let consumed = ordered_consumed(s, i);
                add_is_exact(s.1[i], consumed) && sub_is_exact(s.0, consumed)
            },
        }
    }
}

/// The positions with the units `us` in place of their own.
pub open spec fn with_units(ps: Seq<Position>, us: Seq<Dec>) -> Seq<Position> {
    Seq::new(ps.len(), |j: int| Position { units: us[j], ..ps[j] })
}

proof fn lemma_ordered_exact_prefix(units: Dec, ps: Seq<Position>, order: Seq<usize>, k: int, n: int)
    requires
        0 <= k <= n,
        ordered_exact(units, ps, order, n),
    ensures
        ordered_exact(units, ps, order, k),
    decreases n - k,
{
    if k < n {
        lemma_ordered_exact_prefix(units, ps, order, k, n - 1);
    }
}

proof fn lemma_survivors_total(ps: Seq<Position>, us: Seq<Dec>, n: int, c: Seq<char>)
    requires
        0 <= n <= ps.len(),
        us.len() == ps.len(),
    ensures
        currency_units_total(survivors_upto(ps, us, n), c) == currency_units_total(with_units(ps, us).take(n), c),
    decreases n,
{
    if n > 0 {
        lemma_survivors_total(ps, us, n - 1, c);
        let w = with_units(ps, us);
        assert(w.take(n).drop_last() =~= w.take(n - 1));
        let r = survivors_upto(ps, us, n - 1);
        if us[n - 1].value() != 0 {
            let p = Position { units: us[n - 1], currency: ps[n - 1].currency, cost: ps[n - 1].cost };
            assert(r.push(p).drop_last() =~= r);
        }
    } else {
        assert(with_units(ps, us).take(n) =~= Seq::<Position>::empty());
    }
}

proof fn lemma_ordered_done_stays(units: Dec, ps: Seq<Position>, order: Seq<usize>, k: int, n: int)
    requires
        0 <= k <= n,
        ordered_upto(units, ps, order, k) matches Some(s) && s.3,
    ensures
        ordered_upto(units, ps, order, n) == ordered_upto(units, ps, order, k),
    decreases n - k,
{
    if k < n {
        assert(ordered_upto(units, ps, order, k + 1) == ordered_upto(units, ps, order, k));
        lemma_ordered_done_stays(units, ps, order, k + 1, n);
    }
}

proof fn lemma_ordered_none_stays(units: Dec, ps: Seq<Position>, order: Seq<usize>, k: int, n: int)
    requires
        0 <= k <= n,
        ordered_upto(units, ps, order, k) is None,
    ensures
        ordered_upto(units, ps, order, n) is None,
    decreases n - k,
{
    if k < n {
        lemma_ordered_none_stays(units, ps, order, k + 1, n);
    }
}

/// Reduce the lots in the given order, each taking what it can, until the
/// posting's units are all booked.  Where every sum and difference taken is
/// exact and the lots are in the posting's currency, the positions' total of
/// that currency changes by the posting's units, and no other total changes.
fn reduce_ordered_positions(
    posting_units: Dec,
    posting_currency: String,
    cost_currency: String,
    posting_idx: usize,
    positions: &Positions,
    matched: &Vec<usize>,
) -> (r: Result<(Interpolated, Positions), BookingError>)
    requires
        valid_matched(positions@, matched@),
    ensures
        booked_reduction(
            r,
            ordered_reduction(posting_units, posting_currency, cost_currency@, posting_idx, positions@, matched@),
            posting_idx,
            posting_units,
            posting_currency@,
        ),
        r is Ok && ordered_exact(posting_units, positions@, matched@, matched@.len() as int)
            && (forall|k: int| 0 <= k < matched@.len() ==> positions@[#[trigger] matched@[k] as int].currency@ == posting_currency@)
            ==> forall|c: Seq<char>| #[trigger] currency_units_total(r->Ok_0.1@, c) == currency_units_total(positions@, c)
                + if c == posting_currency@ { posting_units.value() } else { 0 },
{
    let ps = positions.as_vec();
    let ghost n = matched@.len() as int;
    let ghost same_currency = forall|k: int| 0 <= k < matched@.len() ==> positions@[#[trigger] matched@[k] as int].currency@ == posting_currency@;
    let mut updated: Vec<Dec> = Vec::new();
    let mut i: usize = 0;
    while i < ps.len()
        invariant
            i <= ps@.len(),
            updated@ == Seq::new(i as nat, |j: int| ps@[j].units),
        decreases ps@.len() - i,
    {
        updated.push(ps[i].units);
        i = i + 1;
        assert(updated@ =~= Seq::new(i as nat, |j: int| ps@[j].units));
    }
    assert(with_units(ps@, updated@) =~= ps@);
    let mut remaining = posting_units;
    let mut adjustments: Vec<PostingCost> = Vec::new();
    let mut done = false;
    let mut k: usize = 0;
    while k < matched.len() && !done
        invariant
            ps@ == positions@,
            valid_matched(ps@, matched@),
            n == matched@.len(),
            k <= n,
            updated@.len() == ps@.len(),
            ordered_upto(posting_units, ps@, matched@, k as int) == Some((remaining, updated@, adjustments@, done)),
            same_currency == forall|k: int| 0 <= k < matched@.len() ==> ps@[#[trigger] matched@[k] as int].currency@ == posting_currency@,
            ordered_exact(posting_units, ps@, matched@, k as int) && same_currency ==> forall|c: Seq<char>|
                #[trigger] currency_units_total(with_units(ps@, updated@), c) + (if c == posting_currency@ { remaining.value() } else { 0 })
                == currency_units_total(ps@, c) + if c == posting_currency@ { posting_units.value() } else { 0 },
        decreases n - k,
    {
        let i = matched[k];
        let ghost old_updated = updated@;
        let ghost old_remaining = remaining;
        let cost_i = match &ps[i].cost {
            Some(c) => c,
            None => {
                assert(false);
                return Err(BookingError::Posting(posting_idx, PostingBookingError::NotEnoughLotsToReduce));
            },
        };
        let consumed = if remaining.abs().num_le(&updated[i].abs()) {
            remaining
        } else {
            updated[i].neg()
        };
        match updated[i].checked_add(&consumed) {
            Some(u) => {
                updated.set(i, u);
            },
            None => {
                proof {
                    lemma_ordered_none_stays(posting_units, ps@, matched@, k + 1, n);
                }
                return Err(BookingError::Posting(posting_idx, PostingBookingError::NumberOverflow));
            },
        }
        match remaining.checked_sub(&consumed) {
            Some(rm) => {
                remaining = rm;
            },
            None => {
                proof {
                    lemma_ordered_none_stays(posting_units, ps@, matched@, k + 1, n);
                }
                return Err(BookingError::Posting(posting_idx, PostingBookingError::NumberOverflow));
            },
        }
        adjustments.push(
            PostingCost {
                date: cost_i.date,
                units: consumed,
                per_unit: cost_i.per_unit,
                total: cost_i.total,
                label: copy_opt_str(&cost_i.label),
                merge: cost_i.merge,
            },
        );
        proof {
            if ordered_exact(posting_units, ps@, matched@, k + 1) && same_currency {
                let w = with_units(ps@, old_updated);
                let np = Position { units: updated@[i as int], ..ps@[i as int] };
                assert(with_units(ps@, updated@) =~= w.update(i as int, np));
                assert(ps@[matched@[k as int] as int].currency@ == posting_currency@);
                assert forall|c: Seq<char>| #[trigger] currency_units_total(with_units(ps@, updated@), c) + (if c == posting_currency@ { remaining.value() } else { 0 })
                    == currency_units_total(ps@, c) + if c == posting_currency@ { posting_units.value() } else { 0 } by {
                    lemma_total_update(w, i as int, np, c);
                    assert(currency_units_total(w, c) + (if c == posting_currency@ { old_remaining.value() } else { 0 })
                        == currency_units_total(ps@, c) + if c == posting_currency@ { posting_units.value() } else { 0 });
                }
            }
        }
        done = remaining.is_zero();
        k = k + 1;
    }
    proof {
        if k < n {
            lemma_ordered_done_stays(posting_units, ps@, matched@, k as int, n);
        }
    }
    if !remaining.is_zero() {
        return Err(BookingError::Posting(posting_idx, PostingBookingError::NotEnoughLotsToReduce));
    }
    let mut survivors: Vec<Position> = Vec::new();
    let mut i: usize = 0;
    while i < ps.len()
        invariant
            ps@ == positions@,
            updated@.len() == ps@.len(),
            i <= ps@.len(),
            survivors@ == survivors_upto(ps@, updated@, i as int),
        decreases ps@.len() - i,
    {
        if !updated[i].is_zero() {
            survivors.push(
                Position {
                    units: updated[i],
                    currency: ps[i].currency.clone(),
                    cost: match &ps[i].cost {
                        None => None,
                        Some(c) => Some(c.duplicate()),
                    },
                },
            );
        }
        i = i + 1;
    }
    proof {
        if ordered_exact(posting_units, ps@, matched@, n) && same_currency {
            lemma_ordered_exact_prefix(posting_units, ps@, matched@, k as int, n);
            assert(with_units(ps@, updated@).take(ps@.len() as int) =~= with_units(ps@, updated@));
            assert forall|c: Seq<char>| #[trigger] currency_units_total(survivors@, c) == currency_units_total(ps@, c)
                + if c == posting_currency@ { posting_units.value() } else { 0 } by {
                lemma_survivors_total(ps@, updated@, ps@.len() as int, c);
            }
        }
    }
    Ok(
        (
            Interpolated {
                idx: posting_idx,
                units: posting_units,
                currency: posting_currency,
                cost: Some(PostingCosts { cost_currency, adjustments }),
                price: None,
            },
            Positions::from_previous(survivors),
        ),
    )
}

/// The matched indices are strictly increasing.
pub open spec fn increasing(matched: Seq<usize>) -> bool {
    forall|k: int, l: int| 0 <= k < l < matched.len() ==> #[trigger] matched[k] < #[trigger] matched[l]
}

/// The per-unit cost of a matched position.
pub open spec fn per_unit_at(ps: Seq<Position>, i: usize) -> int {
    ps[i as int].cost.unwrap().per_unit.value()
}

/// In highest-in-first-out order a lot comes before one of lower per-unit
/// cost, lots of the same per-unit cost keeping the order of their positions.
pub open spec fn hifo_before(ps: Seq<Position>, i: usize, j: usize) -> bool {
    per_unit_at(ps, i) > per_unit_at(ps, j) || (per_unit_at(ps, i) == per_unit_at(ps, j) && i < j)
}

/// `s` holds the matched indices in highest-in-first-out order.
pub open spec fn is_hifo_order(ps: Seq<Position>, matched: Seq<usize>, s: Seq<usize>) -> bool {
    &&& s.len() == matched.len()
    &&& forall|x: usize| s.contains(x) <==> matched.contains(x)
    &&& forall|k: int, l: int| 0 <= k < l < s.len() ==> hifo_before(ps, #[trigger] s[k], #[trigger] s[l])
}

/// The matched indices in highest-in-first-out order.
pub open spec fn hifo_order(ps: Seq<Position>, matched: Seq<usize>) -> Seq<usize> {
    choose|s: Seq<usize>| is_hifo_order(ps, matched, s)
}

/// Two sequences in highest-in-first-out order that hold the same indices
/// are the same.
proof fn lemma_hifo_unique(ps: Seq<Position>, s1: Seq<usize>, s2: Seq<usize>)
    requires
        s1.len() == s2.len(),
        forall|x: usize| s1.contains(x) <==> s2.contains(x),
        forall|k: int, l: int| 0 <= k < l < s1.len() ==> hifo_before(ps, #[trigger] s1[k], #[trigger] s1[l]),
        forall|k: int, l: int| 0 <= k < l < s2.len() ==> hifo_before(ps, #[trigger] s2[k], #[trigger] s2[l]),
    ensures
        s1 == s2,
    decreases s1.len(),
{
    if s1.len() > 0 {
        let a = s1[0];
        let b = s2[0];
        assert(s1.contains(a));
        let j = choose|j: int| 0 <= j < s2.len() && s2[j] == a;
        assert(s2.contains(b));
        let i = choose|i: int| 0 <= i < s1.len() && s1[i] == b;
        if j > 0 {
            assert(hifo_before(ps, s2[0], s2[j]));
            if i > 0 {
                assert(hifo_before(ps, s1[0], s1[i]));
            }
        }
        assert(a == b);
        let t1 = s1.drop_first();
        let t2 = s2.drop_first();
        assert forall|x: usize| t1.contains(x) <==> t2.contains(x) by {
            if t1.contains(x) {
                let p = choose|p: int| 0 <= p < t1.len() && t1[p] == x;
                assert(s1[p + 1] == x);
                assert(hifo_before(ps, s1[0], s1[p + 1]));
                assert(s2.contains(x));
                let q = choose|q: int| 0 <= q < s2.len() && s2[q] == x;
                assert(q != 0);
                assert(t2[q - 1] == x);
            }
            if t2.contains(x) {
                let p = choose|p: int| 0 <= p < t2.len() && t2[p] == x;
                assert(s2[p + 1] == x);
                assert(hifo_before(ps, s2[0], s2[p + 1]));
                assert(s1.contains(x));
                let q = choose|q: int| 0 <= q < s1.len() && s1[q] == x;
                assert(q != 0);
                assert(t1[q - 1] == x);
            }
        }
        assert forall|k: int, l: int| 0 <= k < l < t1.len() implies hifo_before(ps, #[trigger] t1[k], #[trigger] t1[l]) by {
            assert(t1[k] == s1[k + 1] && t1[l] == s1[l + 1]);
        }
        assert forall|k: int, l: int| 0 <= k < l < t2.len() implies hifo_before(ps, #[trigger] t2[k], #[trigger] t2[l]) by {
            assert(t2[k] == s2[k + 1] && t2[l] == s2[l + 1]);
        }
        lemma_hifo_unique(ps, t1, t2);
        assert(s1 =~= s2) by {
            assert forall|k: int| 0 <= k < s1.len() implies s1[k] == s2[k] by {
                if k > 0 {
                    assert(s1[k] == t1[k - 1] && s2[k] == t2[k - 1]);
                }
            }
        }
    }
}

/// Whether one matched lot comes before another in highest-in-first-out order.
fn is_hifo_before(ps: &Vec<Position>, i: usize, j: usize) -> (r: bool)
    requires
        i < ps@.len(),
        j < ps@.len(),
        ps@[i as int].cost is Some,
        ps@[j as int].cost is Some,
    ensures
        r == hifo_before(ps@, i, j),
{
    match (&ps[i].cost, &ps[j].cost) {
        (Some(a), Some(b)) => {
            if b.per_unit.num_lt(&a.per_unit) {
                true
            } else if a.per_unit.num_eq(&b.per_unit) {
                i < j
            } else {
                false
            }
        },
        _ => false,
    }
}

/// The matched indices sorted by per-unit cost, highest first, lots of the
/// same per-unit cost keeping their order.
fn hifo_sorted(positions: &Positions, matched: &Vec<usize>) -> (r: Vec<usize>)
    requires
        valid_matched(positions@, matched@),
        increasing(matched@),
    ensures
        r@ == hifo_order(positions@, matched@),
        is_hifo_order(positions@, matched@, r@),
{
    let ps = positions.as_vec();
    let mut r: Vec<usize> = Vec::new();
    let mut k: usize = 0;
    while k < matched.len()
        invariant
            ps@ == positions@,
            valid_matched(ps@, matched@),
            increasing(matched@),
            k <= matched@.len(),
            r@.len() == k,
            valid_matched(ps@, r@),
            forall|x: usize| r@.contains(x) <==> matched@.take(k as int).contains(x),
            forall|a: int, b: int| 0 <= a < b < r@.len() ==> hifo_before(ps@, #[trigger] r@[a], #[trigger] r@[b]),
        decreases matched@.len() - k,
    {
        let x = matched[k];
        let mut p: usize = 0;
        while p < r.len() && is_hifo_before(ps, r[p], x)
            invariant
                ps@ == positions@,
                valid_matched(ps@, matched@),
                x == matched@[k as int],
                k < matched@.len(),
                p <= r@.len(),
                valid_matched(ps@, r@),
                forall|x: usize| r@.contains(x) <==> matched@.take(k as int).contains(x),
                forall|q: int| 0 <= q < p ==> hifo_before(ps@, #[trigger] r@[q], x),
            decreases r@.len() - p,
        {
            proof {
                assert(r@.contains(r@[p as int]));
                let j = choose|j: int| 0 <= j < k && matched@[j] == r@[p as int];
            }
            p = p + 1;
        }
        proof {
            assert forall|q: int| p <= q < r@.len() implies hifo_before(ps@, x, #[trigger] r@[q]) by {
                assert(r@.contains(r@[q]));
                let t = matched@.take(k as int);
                assert(t.contains(r@[q]));
                let j = choose|j: int| 0 <= j < t.len() && t[j] == r@[q];
                assert(matched@[j] < matched@[k as int]);
                assert(r@.contains(r@[p as int]));
                assert(t.contains(r@[p as int]));
                let jp = choose|j: int| 0 <= j < t.len() && t[j] == r@[p as int];
                assert(matched@[jp] < matched@[k as int]);
                assert(!hifo_before(ps@, r@[p as int], x));
                if q > p {
                    assert(hifo_before(ps@, r@[p as int], r@[q]));
                }
            }
        }
        let ghost old_r = r@;
        r.insert(p, x);
        proof {
            assert(r@ == old_r.insert(p as int, x));
            assert forall|q: int| 0 <= q < r@.len() implies (#[trigger] r@[q]) < ps@.len() && ps@[r@[q] as int].cost is Some by {
                if q < p {
                    assert(r@[q] == old_r[q]);
                } else if q > p {
                    assert(r@[q] == old_r[q - 1]);
                }
            }
            assert forall|a: int, b: int| 0 <= a < b < r@.len() implies hifo_before(ps@, #[trigger] r@[a], #[trigger] r@[b]) by {
                if b < p {
                    assert(r@[a] == old_r[a] && r@[b] == old_r[b]);
                } else if b == p {
                    assert(r@[a] == old_r[a]);
                } else if a == p {
                    assert(r@[b] == old_r[b - 1]);
                } else if a < p {
                    assert(r@[a] == old_r[a] && r@[b] == old_r[b - 1]);
                    assert(hifo_before(ps@, old_r[a], x));
                    assert(hifo_before(ps@, x, old_r[b - 1]));
                } else {
                    assert(r@[a] == old_r[a - 1] && r@[b] == old_r[b - 1]);
                }
            }
            assert(matched@.take(k + 1) =~= matched@.take(k as int).push(x));
            assert forall|y: usize| r@.contains(y) <==> matched@.take(k + 1).contains(y) by {
                let t = matched@.take(k as int);
                let t1 = matched@.take(k + 1);
                if r@.contains(y) {
                    let i = choose|i: int| 0 <= i < r@.len() && r@[i] == y;
                    if i < p {
                        assert(old_r[i] == y);
                        assert(old_r.contains(y));
                    } else if i > p {
                        assert(old_r[i - 1] == y);
                        assert(old_r.contains(y));
                    }
                    if y != x {
                        assert(t.contains(y));
                        let j = choose|j: int| 0 <= j < t.len() && t[j] == y;
                        assert(t1[j] == y);
                    } else {
                        assert(t1[k as int] == y);
                    }
                }
                if t1.contains(y) {
                    let j = choose|j: int| 0 <= j < t1.len() && t1[j] == y;
                    if j == k {
                        assert(r@[p as int] == y);
                    } else {
                        assert(t[j] == y);
                        assert(old_r.contains(y));
                        let i = choose|i: int| 0 <= i < old_r.len() && old_r[i] == y;
                        if i < p {
                            assert(r@[i] == y);
                        } else {
                            assert(r@[i + 1] == y);
                        }
                    }
                }
            }
        }
        k = k + 1;
    }
    proof {
        assert(matched@.take(k as int) =~= matched@);
        assert(is_hifo_order(ps@, matched@, r@));
        lemma_hifo_unique(ps@, r@, hifo_order(ps@, matched@));
    }
    r
}

/// The matched indices in reverse order.
fn reversed(matched: &Vec<usize>) -> (r: Vec<usize>)
    ensures
        r@ == matched@.reverse(),
{
    let n = matched.len();
    let mut r: Vec<usize> = Vec::new();
    let mut k: usize = 0;
    while k < n
        invariant
            n == matched@.len(),
            k <= n,
            r@.len() == k,
            forall|j: int| 0 <= j < k ==> #[trigger] r@[j] == matched@[n - 1 - j],
        decreases n - k,
    {
        r.push(matched[n - 1 - k]);
        k = k + 1;
    }
    assert(r@ =~= matched@.reverse());
    r
}

/// Those of the first `n` matched lots whose units are exactly what the
/// posting reduces, in order.
pub open spec fn sized_upto(units: Dec, ps: Seq<Position>, matched: Seq<usize>, n: int) -> Seq<usize>
    decreases n,
{
    if n <= 0 {
        Seq::empty()
    } else {
        let r = sized_upto(units, ps, matched, n - 1);
        if ps[matched[n - 1] as int].units.value() == -units.value() {
            r.push(matched[n - 1])
        } else {
            r
        }
    }
}

/// The matched lots whose units are exactly what the posting reduces.
pub open spec fn sized(units: Dec, ps: Seq<Position>, matched: Seq<usize>) -> Seq<usize> {
    sized_upto(units, ps, matched, matched.len() as int)
}

/// The cost date of a matched position.
pub open spec fn date_at(ps: Seq<Position>, i: usize) -> Date {
    ps[i as int].cost.unwrap().date
}

/// The lot at `k` of `ws` is the first of those with the earliest cost date.
pub open spec fn earliest_at(ps: Seq<Position>, ws: Seq<usize>, k: int) -> bool {
    &&& 0 <= k < ws.len()
    &&& forall|j: int| 0 <= j < k ==> date_order(date_at(ps, #[trigger] ws[j]), date_at(ps, ws[k])) > 0
    &&& forall|j: int| k < j < ws.len() ==> date_order(date_at(ps, #[trigger] ws[j]), date_at(ps, ws[k])) >= 0
}

/// Where in `ws` the first lot with the earliest cost date is.
pub open spec fn earliest(ps: Seq<Position>, ws: Seq<usize>) -> int {
    choose|k: int| earliest_at(ps, ws, k)
}

proof fn lemma_date_order(a: Date, b: Date, c: Date)
    ensures
        date_order(a, b) == -date_order(b, a),
        date_order(a, b) <= 0 && date_order(b, c) <= 0 ==> date_order(a, c) <= 0,
        date_order(a, b) < 0 && date_order(b, c) <= 0 ==> date_order(a, c) < 0,
        date_order(a, b) <= 0 && date_order(b, c) < 0 ==> date_order(a, c) < 0,
{
}

/// The place in `ws` of the first lot with the earliest cost date.
fn earliest_index(ps: &Vec<Position>, ws: &Vec<usize>) -> (r: usize)
    requires
        ws@.len() > 0,
        valid_matched(ps@, ws@),
    ensures
        r == earliest(ps@, ws@),
        earliest_at(ps@, ws@, r as int),
{
    let mut best: usize = 0;
    let mut j: usize = 1;
    while j < ws.len()
        invariant
            valid_matched(ps@, ws@),
            1 <= j <= ws@.len(),
            best < j,
            forall|q: int| 0 <= q < best ==> date_order(date_at(ps@, #[trigger] ws@[q]), date_at(ps@, ws@[best as int])) > 0,
            forall|q: int| best < q < j ==> date_order(date_at(ps@, #[trigger] ws@[q]), date_at(ps@, ws@[best as int])) >= 0,
        decreases ws@.len() - j,
    {
        let dj = match &ps[ws[j]].cost {
            Some(c) => c.date,
            None => {
                assert(false);
                return 0;
            },
        };
        let db = match &ps[ws[best]].cost {
            Some(c) => c.date,
            None => {
                assert(false);
                return 0;
            },
        };
        if compare_date(&dj, &db) < 0 {
            proof {
                assert forall|q: int| 0 <= q < j implies date_order(date_at(ps@, #[trigger] ws@[q]), dj) > 0 by {
                    lemma_date_order(date_at(ps@, ws@[q]), db, dj);
                    lemma_date_order(dj, db, date_at(ps@, ws@[q]));
                }
            }
            best = j;
        }
        j = j + 1;
    }
    proof {
        assert forall|k: int| earliest_at(ps@, ws@, k) implies k == best by {
            if k < best {
                lemma_date_order(date_at(ps@, ws@[k]), date_at(ps@, ws@[best as int]), date_at(ps@, ws@[k]));
            } else if k > best {
                lemma_date_order(date_at(ps@, ws@[k]), date_at(ps@, ws@[best as int]), date_at(ps@, ws@[k]));
            }
        }
        assert(earliest_at(ps@, ws@, best as int));
    }
    best
}

/// Reducing one of several matched lots by the booking method: first-in,
/// last-in and highest-cost-in first-out take lots in their order until the
/// posting is booked, once the lots are known to hold enough units in a
/// single cost currency; strict with size takes the earliest of the lots
/// whose units are exactly those reduced; any other method finds the
/// matches ambiguous.
pub open spec fn multiple_reduction(
    units: Dec,
    currency: String,
    idx: usize,
    ps: Seq<Position>,
    matched: Seq<usize>,
    method: Booking,
) -> Result<Reduction, BookingError> {
    if method == Booking::Fifo || method == Booking::Lifo || method == Booking::Hifo {
        match sufficiency(units, idx, ps, matched) {
            Err(e) => Err(e),
            Ok(_) => match unique_cost_currency(ps, matched) {
                None => Err(BookingError::Posting(idx, PostingBookingError::MultipleCostCurrenciesMatch)),
                Some(cc) => ordered_reduction(
                    units,
                    currency,
                    cc,
                    idx,
                    ps,
                    if method == Booking::Lifo {
                        matched.reverse()
                    } else if method == Booking::Hifo {
                        hifo_order(ps, matched)
                    } else {
                        matched
                    },
                ),
            },
        }
    } else if method == Booking::StrictWithSize {
        let ws = sized(units, ps, matched);
        if ws.len() == 0 {
            Err(BookingError::Posting(idx, PostingBookingError::AmbiguousMatches))
        } else {
            matched_reduction(units, idx, ps, ws[earliest(ps, ws)] as int)
        }
    } else {
        Err(BookingError::Posting(idx, PostingBookingError::AmbiguousMatches))
    }
}

/// Reduce one of several matched lots, as the booking method chooses.
fn reduce_multiple_positions(
    posting_units: Dec,
    posting_currency: &String,
    posting_idx: usize,
    positions: &Positions,
    matched: Vec<usize>,
    method: Booking,
) -> (r: Result<(Interpolated, Positions), BookingError>)
    requires
        valid_matched(positions@, matched@),
        increasing(matched@),
    ensures
        booked_reduction(
            r,
            multiple_reduction(posting_units, *posting_currency, posting_idx, positions@, matched@, method),
            posting_idx,
            posting_units,
            posting_currency@,
        ),
{
    match method {
        Booking::Fifo | Booking::Lifo | Booking::Hifo => {
            check_sufficient_matched_units(posting_units, posting_idx, positions, &matched)?;
            let cost_currency = get_unique_cost_currency(posting_idx, positions, &matched)?;
            // all that differs between the [FLH]ifo methods is the order in
            // which matched lots are selected for reduction
            let order = if method == Booking::Lifo {
                reversed(&matched)
            } else if method == Booking::Hifo {
                hifo_sorted(positions, &matched)
            } else {
                matched
            };
            proof {
                assert forall|k: int| 0 <= k < order@.len() implies (#[trigger] order@[k]) < positions@.len()
                    && positions@[order@[k] as int].cost is Some by {
                    if method == Booking::Lifo {
                        assert(order@[k] == matched@[matched@.len() - 1 - k]);
                    } else if method == Booking::Hifo {
                        assert(order@.contains(order@[k]));
                        let j = choose|j: int| 0 <= j < matched@.len() && matched@[j] == order@[k];
                    }
                }
            }
            reduce_ordered_positions(
                posting_units,
                posting_currency.clone(),
                cost_currency,
                posting_idx,
                positions,
                &order,
            )
        },
        Booking::StrictWithSize => {
            // not only do we filter to positions which match the posting
            // units, but we take the oldest by cost date
            let ps = positions.as_vec();
            let target = posting_units.neg();
            let mut with_size: Vec<usize> = Vec::new();
            let mut k: usize = 0;
            while k < matched.len()
                invariant
                    ps@ == positions@,
                    valid_matched(ps@, matched@),
                    target.value() == -posting_units.value(),
                    k <= matched@.len(),
                    with_size@ == sized_upto(posting_units, ps@, matched@, k as int),
                    valid_matched(ps@, with_size@),
                decreases matched@.len() - k,
            {
                if ps[matched[k]].units.num_eq(&target) {
                    with_size.push(matched[k]);
                }
                k = k + 1;
            }
            if with_size.len() > 0 {
                let e = earliest_index(ps, &with_size);
                reduce_matched_position(posting_units, posting_currency, posting_idx, positions, with_size[e])
            } else {
                Err(BookingError::Posting(posting_idx, PostingBookingError::AmbiguousMatches))
            }
        },
        _ => Err(BookingError::Posting(posting_idx, PostingBookingError::AmbiguousMatches)),
    }
}

/// The view of optional positions.
pub open spec fn opt_positions(o: Option<Positions>) -> Option<Seq<Position>> {
    match o {
        Some(p) => Some(p@),
        None => None,
    }
}

/// The view of optionally borrowed positions.
pub open spec fn opt_positions_ref(o: Option<&Positions>) -> Option<Seq<Position>> {
    match o {
        Some(p) => Some(p@),
        None => None,
    }
}

/// A posting reduces positions where the account is not booked by method
/// `NoneBooking`, the posting has currency, units and cost, the account has
/// positions, and some position in the currency has units of the opposite sign.
pub open spec fn reduction_applies(a: AnnotatedPosting, p: PostingSpec, method: Booking, prev: Option<Seq<Position>>) -> bool {
    &&& method != Booking::NoneBooking
    &&& a.currency is Some
    &&& p.units is Some
    &&& p.cost is Some
    &&& prev is Some
    &&& potential_reduction(p.units.unwrap(), a.currency.unwrap()@, prev.unwrap())
}

/// The reduction a posting makes of the account's positions: the positions
/// matching its cost spec are reduced, none failing; a single one on its own;
/// several all at once where the posting sells them all (within tolerance),
/// else as the booking method chooses.
pub open spec fn reduction_of<T: Tolerance>(a: AnnotatedPosting, p: PostingSpec, tol: T, method: Booking, ps: Seq<Position>) -> Result<Reduction, BookingError> {
    let units = p.units.unwrap();
    let currency = a.currency.unwrap();
    let m = matched(currency@, p.cost.unwrap(), ps);
    if m.len() == 0 {
        Err(BookingError::Posting(a.idx, PostingBookingError::NoPositionMatches))
    } else if m.len() == 1 {
        matched_reduction(units, a.idx, ps, m[0] as int)
    } else {
        match sells_all(tol.spec_default(currency@), tol.spec_multiplier(), units, ps, m) {
            None => Err(BookingError::Posting(a.idx, PostingBookingError::NumberOverflow)),
            Some(true) => all_sold_reduction(a.idx, ps, m),
            Some(false) => multiple_reduction(units, currency, a.idx, ps, m, method),
        }
    }
}

/// What booking a posting against the account's previous positions does to
/// them: fails, changes them, or (`None`) leaves them.
pub open spec fn step_outcome<T: Tolerance>(a: AnnotatedPosting, p: PostingSpec, tol: T, method: Booking, prev: Option<Seq<Position>>) -> Result<Option<Seq<Position>>, BookingError> {
    if reduction_applies(a, p, method, prev) {
        match reduction_of(a, p, tol, method, prev.unwrap()) {
            Err(e) => Err(e),
            Ok((ups, _, _)) => Ok(Some(ups)),
        }
    } else {
        Ok(None)
    }
}

/// The posting, as booking it against the account's previous positions
/// leaves it: booked at the posting costs of its reduction, or unbooked.
pub open spec fn costed_as<T: Tolerance>(c: BookedOrUnbookedPosting, a: AnnotatedPosting, p: PostingSpec, tol: T, method: Booking, prev: Option<Seq<Position>>) -> bool {
    if reduction_applies(a, p, method, prev) {
        match reduction_of(a, p, tol, method, prev.unwrap()) {
            Ok((_, cc, adjustments)) => c matches BookedOrUnbookedPosting::Booked(i) && booked_at(
                i,
                a.idx,
                p.units.unwrap(),
                a.currency.unwrap()@,
                cc,
                adjustments,
            ),
            Err(_) => false,
        }
    } else {
        c == BookedOrUnbookedPosting::Unbooked(a)
    }
}

/// A posting, booked or not, with the account's positions after it, if it
/// changed them.
pub struct Reduced {
    pub reducing_posting: BookedOrUnbookedPosting,
    pub updated_positions: Option<Positions>,
}

/// Book a posting against the account's previous positions, where it reduces them.
fn reduce<T: Tolerance>(
    annotated: AnnotatedPosting,
    posting: &PostingSpec,
    tolerance: &T,
    method: Booking,
    previous_positions: Option<&Positions>,
) -> (r: Result<Reduced, BookingError>)
    ensures
        match step_outcome(annotated, *posting, *tolerance, method, opt_positions_ref(previous_positions)) {
            Err(e) => r == Err::<Reduced, BookingError>(e),
            Ok(u) => r matches Ok(rd) && opt_positions(rd.updated_positions) == u
                && costed_as(rd.reducing_posting, annotated, *posting, *tolerance, method, opt_positions_ref(previous_positions)),
        },
{
    if method != Booking::NoneBooking {
        match (&annotated.currency, posting.units, &posting.cost, previous_positions) {
            (Some(currency), Some(units), Some(cost_spec), Some(positions)) => {
                if is_potential_reduction(units, currency, positions) {
                    // find positions whose costs match what we have
                    let matched = match_positions(currency, cost_spec, positions);
                    proof {
                        positions.lemma_len_bound();
                        lemma_matched(currency@, *cost_spec, positions@, positions@.len() as int);
                        assert(valid_matched(positions@, matched@));
                    }
                    let idx = annotated.idx;
                    if matched.len() == 0 {
                        return Err(BookingError::Posting(idx, PostingBookingError::NoPositionMatches));
                    } else if matched.len() == 1 {
                        let (booked, updated) = reduce_matched_position(units, currency, idx, positions, matched[0])?;
                        return Ok(Reduced { reducing_posting: BookedOrUnbookedPosting::Booked(booked), updated_positions: Some(updated) });
                    } else {
                        let (booked, updated) = match is_sell_all_at_cost(units, currency, positions, &matched, tolerance) {
                            None => {
                                return Err(BookingError::Posting(idx, PostingBookingError::NumberOverflow));
                            },
                            Some(true) => reduce_all_sold_at_cost(units, currency, idx, positions, matched)?,
                            Some(false) => reduce_multiple_positions(units, currency, idx, positions, matched, method)?,
                        };
                        return Ok(Reduced { reducing_posting: BookedOrUnbookedPosting::Booked(booked), updated_positions: Some(updated) });
                    }
                }
            },
            _ => {},
        }
    }
    Ok(Reduced { reducing_posting: BookedOrUnbookedPosting::Unbooked(annotated), updated_positions: None })
}

/// The positions of an account before a posting: as this group's reductions
/// left them, else as earlier groups left them, else as they were.
pub open spec fn previous_positions(
    local: Map<Seq<char>, Seq<Position>>,
    accumulated: Map<Seq<char>, Seq<Position>>,
    base: Map<Seq<char>, Seq<Position>>,
    account: Seq<char>,
) -> Option<Seq<Position>> {
    if local.contains_key(account) {
        Some(local[account])
    } else if accumulated.contains_key(account) {
        Some(accumulated[account])
    } else if base.contains_key(account) {
        Some(base[account])
    } else {
        None
    }
}

/// The positions of the accounts that the first `n` postings of a group
/// reduced, each posting booked against those the earlier ones left; the
/// first failure fails.
pub open spec fn reductions_upto<T: Tolerance>(
    annotateds: Seq<AnnotatedPosting>,
    ps: Seq<PostingSpec>,
    tol: T,
    methods: BookingMethods,
    accumulated: Map<Seq<char>, Seq<Position>>,
    base: Map<Seq<char>, Seq<Position>>,
    n: int,
) -> Result<Map<Seq<char>, Seq<Position>>, BookingError>
    decreases n,
{
    if n <= 0 {
        Ok(Map::empty())
    } else {
        match reductions_upto(annotateds, ps, tol, methods, accumulated, base, n - 1) {
            Err(e) => Err(e),
            Ok(local) => {
                let a = annotateds[n - 1];
                let account = ps[a.idx as int].account@;
                match step_outcome(
                    a,
                    ps[a.idx as int],
                    tol,
                    methods.spec_method(account),
                    previous_positions(local, accumulated, base, account),
                ) {
                    Err(e) => Err(e),
                    Ok(Some(ups)) => Ok(local.insert(account, ups)),
                    Ok(None) => Ok(local),
                }
            },
        }
    }
}

/// The `k`-th posting of a group, as its reduction leaves it.
pub open spec fn costed_at<T: Tolerance>(
    c: BookedOrUnbookedPosting,
    annotateds: Seq<AnnotatedPosting>,
    ps: Seq<PostingSpec>,
    tol: T,
    methods: BookingMethods,
    accumulated: Map<Seq<char>, Seq<Position>>,
    base: Map<Seq<char>, Seq<Position>>,
    k: int,
) -> bool {
    let a = annotateds[k];
    let account = ps[a.idx as int].account@;
    costed_as(
        c,
        a,
        ps[a.idx as int],
        tol,
        methods.spec_method(account),
        previous_positions(reductions_upto(annotateds, ps, tol, methods, accumulated, base, k).unwrap(), accumulated, base, account),
    )
}

/// The positions of the accounts that reductions changed, and each posting
/// of the group, booked or not.
pub struct Reductions {
    pub updated_inventory: Inventory,
    pub postings: Vec<BookedOrUnbookedPosting>,
}

proof fn lemma_reductions_err_stays<T: Tolerance>(
    annotateds: Seq<AnnotatedPosting>,
    ps: Seq<PostingSpec>,
    tol: T,
    methods: BookingMethods,
    accumulated: Map<Seq<char>, Seq<Position>>,
    base: Map<Seq<char>, Seq<Position>>,
    k: int,
    n: int,
)
    requires
        0 <= k <= n,
        reductions_upto(annotateds, ps, tol, methods, accumulated, base, k) is Err,
    ensures
        reductions_upto(annotateds, ps, tol, methods, accumulated, base, n) == reductions_upto(annotateds, ps, tol, methods, accumulated, base, k),
    decreases n - k,
{
    if k < n {
        lemma_reductions_err_stays(annotateds, ps, tol, methods, accumulated, base, k + 1, n);
    }
}

/// Book the reductions of the postings of a group, in turn, against the
/// positions that earlier groups left (`accumulated`), else those held before
/// (`inventory`).
pub(crate) fn book_reductions<T: Tolerance>(
    annotateds: Vec<AnnotatedPosting>,
    postings: &Vec<PostingSpec>,
    tolerance: &T,
    accumulated: &Inventory,
    inventory: &Inventory,
    methods: &BookingMethods,
) -> (r: Result<Reductions, BookingError>)
    requires
        forall|k: int| 0 <= k < annotateds@.len() ==> (#[trigger] annotateds@[k]).idx < postings@.len(),
    ensures
        match reductions_upto(
            annotateds@,
            postings@,
            *tolerance,
            *methods,
            inventory_map(*accumulated),
            inventory_map(*inventory),
            annotateds@.len() as int,
        ) {
            Err(e) => r == Err::<Reductions, BookingError>(e),
            Ok(m) => r matches Ok(rd) && inventory_map(rd.updated_inventory) == m && rd.postings@.len() == annotateds@.len()
                && forall|k: int| 0 <= k < annotateds@.len() ==> costed_at(
                    #[trigger] rd.postings@[k],
                    annotateds@,
                    postings@,
                    *tolerance,
                    *methods,
                    inventory_map(*accumulated),
                    inventory_map(*inventory),
                    k,
                ),
        },
{
    let ghost acc = inventory_map(*accumulated);
    let ghost base = inventory_map(*inventory);
    let ghost n = annotateds@.len() as int;
    let mut updated_inventory = Inventory::empty();
    let mut costed_postings: Vec<BookedOrUnbookedPosting> = Vec::new();
    let mut k: usize = 0;
    while k < annotateds.len()
        invariant
            n == annotateds@.len(),
            acc == inventory_map(*accumulated),
            base == inventory_map(*inventory),
            forall|j: int| 0 <= j < n ==> (#[trigger] annotateds@[j]).idx < postings@.len(),
            k <= n,
            reductions_upto(annotateds@, postings@, *tolerance, *methods, acc, base, k as int) == Ok::<Map<Seq<char>, Seq<Position>>, BookingError>(inventory_map(updated_inventory)),
            costed_postings@.len() == k,
            forall|j: int| 0 <= j < k ==> costed_at(#[trigger] costed_postings@[j], annotateds@, postings@, *tolerance, *methods, acc, base, j),
        decreases n - k,
    {
        let annotated = annotateds[k].duplicate();
        let posting = &postings[annotated.idx];
        let account = &posting.account;
        let previous = match updated_inventory.get(account) {
            Some(p) => Some(p),
            None => match accumulated.get(account) {
                Some(p) => Some(p),
                None => inventory.get(account),
            },
        };
        let account_method = methods.method(account);
        let ghost local = inventory_map(updated_inventory);
        let ghost prev = previous_positions(local, acc, base, account@);
        assert(opt_positions_ref(previous) == prev);
        let ghost a = annotateds@[k as int];
        assert(annotated == a);
        assert(reductions_upto(annotateds@, postings@, *tolerance, *methods, acc, base, k + 1) == match step_outcome(
            a,
            postings@[a.idx as int],
            *tolerance,
            methods.spec_method(account@),
            prev,
        ) {
            Err(e) => Err(e),
            Ok(Some(ups)) => Ok(local.insert(account@, ups)),
            Ok(None) => Ok(local),
        });
        let result = reduce(annotated, posting, tolerance, account_method, previous);
        match result {
            Err(e) => {
                proof {
                    lemma_reductions_err_stays(annotateds@, postings@, *tolerance, *methods, acc, base, k + 1, n);
                }
                return Err(e);
            },
            Ok(Reduced { reducing_posting, updated_positions }) => {
                costed_postings.push(reducing_posting);
                match updated_positions {
                    Some(up) => {
                        updated_inventory.insert(account.clone(), up);
                    },
                    None => {},
                }
            },
        }
        k = k + 1;
    }
    Ok(Reductions { updated_inventory, postings: costed_postings })
}

} // verus!
