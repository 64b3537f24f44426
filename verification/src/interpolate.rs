//! Interpolation: completing each posting of a currency group with whatever
//! it left out, from the weights of the others.
use vstd::prelude::*;

use crate::decimal::{
    dec_abs, dec_neg, decimal_checked_div, decimal_checked_mul, decimal_rescaled, Dec, Number,
};
use crate::errors::{BookingError, PostingBookingError, TransactionBookingError};
use crate::internal::{
    costed_idx, weight_of, AnnotatedPosting, BookedOrUnbookedPosting, Interpolated,
};
use crate::order::copy_opt_str;
use crate::tolerance::{residual_of, tolerance_residual, Tolerance};
use crate::types::{CostSpec, Date, PostingCost, PostingCosts, PostingSpec, Price, PriceSpec};

verus! {

broadcast use crate::decimal::Dec::lemma_of_parts, crate::decimal::Dec::lemma_ext;

/// A per-unit value and the total it comes to.
#[derive(Clone, Copy, Debug)]
pub struct Conversion {
    pub per_unit: Dec,
    pub total: Dec,
}

/// Units, with the conversion to a cost or price currency where known.
#[derive(Clone, Copy, Debug)]
pub struct UnitsAndConversion {
    pub units: Dec,
    pub conversion: Option<Conversion>,
}

/// Units with the per-unit value that divides the total among them (taken
/// without sign), where the division is possible.
pub open spec fn inferred_per_unit(total: Dec, units: Dec) -> UnitsAndConversion {
    UnitsAndConversion {
        units,
        conversion: match decimal_checked_div(total, units) {
            Some(q) => Some(Conversion { per_unit: dec_abs(q), total }),
            None => None,
        },
    }
}

/// The units of a posting with a cost or price, from its own units, its
/// per-unit and total values, and the weight it must carry: `Err` where a
/// product overflows.
pub open spec fn units_from_conversion(
    posting_units: Option<Dec>,
    weight: Dec,
    per_unit: Option<Dec>,
    total: Option<Dec>,
) -> Result<Option<UnitsAndConversion>, ()> {
    match (posting_units, per_unit, total) {
        (Some(u), Some(pu), t) => match decimal_checked_mul(u, pu) {
            None => Err(()),
            Some(prod) => Ok(
                Some(
                    UnitsAndConversion {
                        units: u,
                        conversion: Some(
                            Conversion {
                                per_unit: pu,
                                total: match t {
                                    Some(x) => x,
                                    None => prod,
                                },
                            },
                        ),
                    },
                ),
            ),
        },
        (None, Some(pu), t) => match decimal_checked_div(weight, pu) {
            Some(q) => {
                let units = decimal_rescaled(q, weight.s() as u32);
                match decimal_checked_mul(units, pu) {
                    None => Err(()),
                    Some(prod) => Ok(
                        Some(
                            UnitsAndConversion {
                                units,
                                conversion: Some(
                                    Conversion {
                                        per_unit: pu,
                                        total: match t {
                                            Some(x) => x,
                                            None => prod,
                                        },
                                    },
                                ),
                            },
                        ),
                    ),
                }
            },
            None => Ok(None),
        },
        (Some(u), None, Some(t)) => Ok(Some(inferred_per_unit(t, u))),
        (Some(u), None, None) => Ok(Some(inferred_per_unit(weight, u))),
        (None, None, _) => Ok(None),
    }
}

/// The units of a posting once its weight is known.
pub open spec fn units_of(p: PostingSpec, weight: Dec) -> Result<Option<UnitsAndConversion>, ()> {
    match p.cost {
        Some(cs) => units_from_conversion(p.units, weight, cs.per_unit, cs.total),
        None => match p.price {
            Some(ps) => units_from_conversion(p.units, weight, ps.per_unit, ps.total),
            None => Ok(
                match p.units {
                    Some(u) => Some(UnitsAndConversion { units: u, conversion: None }),
                    None => None,
                },
            ),
        },
    }
}

/// A price specification infers a posting's units and conversion exactly
/// as a cost specification with the same numbers does.
pub proof fn law_price_spec_units_as_cost_spec(
    account: String,
    units: Option<Dec>,
    currency: Option<String>,
    cs: CostSpec,
    ps: PriceSpec,
    weight: Dec,
)
    requires
        ps.per_unit == cs.per_unit,
        ps.total == cs.total,
    ensures
        units_of(PostingSpec { account, units, currency, cost: None, price: Some(ps) }, weight) == units_of(
            PostingSpec { account, units, currency, cost: Some(cs), price: None },
            weight,
        ),
{
}

fn infer_per_unit(total: Dec, units: Dec) -> (r: UnitsAndConversion)
    ensures
        r == inferred_per_unit(total, units),
{
    let conversion = match total.checked_div(units) {
        Some(q) => Some(Conversion { per_unit: q.abs(), total }),
        None => None,
    };
    UnitsAndConversion { units, conversion }
}

fn units_from_conversion_exec(
    posting_units: Option<Dec>,
    weight: Dec,
    per_unit: Option<Dec>,
    total: Option<Dec>,
) -> (r: Result<Option<UnitsAndConversion>, ()>)
    ensures
        r == units_from_conversion(posting_units, weight, per_unit, total),
{
    match (posting_units, per_unit, total) {
        (Some(u), Some(pu), t) => match u.checked_mul(&pu) {
            None => Err(()),
            Some(prod) => {
                let total = match t {
                    Some(x) => x,
                    None => prod,
                };
                Ok(Some(UnitsAndConversion { units: u, conversion: Some(Conversion { per_unit: pu, total }) }))
            },
        },
        (None, Some(pu), t) => match weight.checked_div(pu) {
            Some(q) => {
                let units = q.rescaled(weight.scale());
                match units.checked_mul(&pu) {
                    None => Err(()),
                    Some(prod) => {
                        let total = match t {
                            Some(x) => x,
                            None => prod,
                        };
                        Ok(
                            Some(
                                UnitsAndConversion {
                                    units,
                                    conversion: Some(Conversion { per_unit: pu, total }),
                                },
                            ),
                        )
                    },
                }
            },
            None => Ok(None),
        },
        (Some(u), None, Some(t)) => Ok(Some(infer_per_unit(t, u))),
        (Some(u), None, None) => Ok(Some(infer_per_unit(weight, u))),
        (None, None, _) => Ok(None),
    }
}

/// The units of a posting with a cost specification, from its per-unit and
/// total numbers.
pub fn units_from_cost_spec(posting_units: Option<Dec>, weight: Dec, cost_spec: &CostSpec) -> (r: Result<Option<UnitsAndConversion>, ()>)
    ensures
        r == units_from_conversion(posting_units, weight, cost_spec.per_unit, cost_spec.total),
{
    units_from_conversion_exec(posting_units, weight, cost_spec.per_unit, cost_spec.total)
}

/// The units of a posting with a price specification, from its per-unit and
/// total numbers, as for a cost specification.
pub fn units_from_price_spec(posting_units: Option<Dec>, weight: Dec, price_spec: &PriceSpec) -> (r: Result<Option<UnitsAndConversion>, ()>)
    ensures
        r == units_from_conversion(posting_units, weight, price_spec.per_unit, price_spec.total),
{
    units_from_conversion_exec(posting_units, weight, price_spec.per_unit, price_spec.total)
}

/// A price specification gives the units and conversion that a cost
/// specification with the same numbers gives, whatever the posting's units
/// and weight: [units_from_price_spec] and [units_from_cost_spec] then
/// return the same.
pub proof fn law_units_from_price_spec_as_cost_spec(
    posting_units: Option<Dec>,
    weight: Dec,
    cost_spec: CostSpec,
    price_spec: PriceSpec,
)
    requires
        price_spec.per_unit == cost_spec.per_unit,
        price_spec.total == cost_spec.total,
    ensures
        units_from_conversion(posting_units, weight, price_spec.per_unit, price_spec.total)
            == units_from_conversion(posting_units, weight, cost_spec.per_unit, cost_spec.total),
{
}

/// Infer the units once we know the weight.
fn units(posting: &PostingSpec, weight: Dec) -> (r: Result<Option<UnitsAndConversion>, ()>)
    ensures
        r == units_of(*posting, weight),
{
    match &posting.cost {
        Some(cs) => units_from_cost_spec(posting.units, weight, cs),
        None => match &posting.price {
            Some(ps) => units_from_price_spec(posting.units, weight, ps),
            None => Ok(
                match posting.units {
                    Some(u) => Some(UnitsAndConversion { units: u, conversion: None }),
                    None => None,
                },
            ),
        },
    }
}

/// The error, if any, in interpolating an annotated posting of the group of
/// `currency` that must carry `weight`.
pub open spec fn annotated_error(weight: Dec, a: AnnotatedPosting, p: PostingSpec) -> Option<PostingBookingError> {
    match units_of(p, weight) {
        Err(()) => Some(PostingBookingError::NumberOverflow),
        Ok(u) => if p.cost is None && p.price is None {
            None
        } else {
            match (u, a.currency) {
                (None, Some(_)) => Some(PostingBookingError::CannotInferUnits),
                (Some(_), None) => Some(PostingBookingError::CannotInferCurrency),
                (None, None) => Some(PostingBookingError::CannotInferAnything),
                (Some(uac), Some(_)) => if p.cost is Some {
                    match (a.cost_currency, uac.conversion) {
                        (Some(_), Some(_)) => None,
                        (None, Some(_)) => Some(PostingBookingError::CannotInferCurrency),
                        (Some(_), None) => Some(PostingBookingError::CannotInferUnits),
                        (None, None) => Some(PostingBookingError::CannotInferAnything),
                    }
                } else {
                    match (uac.conversion, a.price_currency) {
                        (Some(_), Some(_)) => None,
                        (None, Some(_)) => Some(PostingBookingError::CannotInferPricePerUnit),
                        (Some(_), None) => Some(PostingBookingError::CannotInferPriceCurrency),
                        (None, None) => Some(PostingBookingError::CannotInferPrice),
                    }
                },
            }
        },
    }
}

/// The interpolated posting that an annotated posting of the group of
/// `currency`, carrying `weight`, becomes, where that has no error: with
/// neither cost nor price, the weight in the group's currency; at cost, its
/// units and currency with a single posting cost, dated by the cost spec or
/// else the transaction; at a price, its units and currency with the price.
pub open spec fn annotated_interpolated(i: Interpolated, date: Date, currency: String, weight: Dec, a: AnnotatedPosting, p: PostingSpec) -> bool {
    &&& i.idx == a.idx
    &&& if p.cost is None && p.price is None {
        &&& i.units == weight
        &&& i.currency == currency
        &&& i.cost is None
        &&& i.price is None
    } else {
        let uac = units_of(p, weight).unwrap().unwrap();
        &&& i.units == uac.units
        &&& i.currency == a.currency.unwrap()
        &&& i.price is None <==> p.cost is Some
        &&& match p.cost {
            Some(cost) => i.cost matches Some(pcs) && pcs.cost_currency == a.cost_currency.unwrap()
                && pcs.adjustments@ == seq![
                PostingCost {
                    date: match cost.date {
                        Some(d) => d,
                        None => date,
                    },
                    units: uac.units,
                    per_unit: uac.conversion.unwrap().per_unit,
                    total: uac.conversion.unwrap().total,
                    label: cost.label,
                    merge: cost.merge,
                },
            ],
            None => i.cost is None && i.price == Some(
                Price {
                    per_unit: uac.conversion.unwrap().per_unit,
                    total: Some(uac.conversion.unwrap().total),
                    currency: a.price_currency.unwrap(),
                },
            ),
        }
    }
}

/// Interpolate an annotated posting of the group of `currency`, given the
/// weight it must carry.
pub fn interpolate_from_annotated(
    date: Date,
    currency: &String,
    weight: Dec,
    annotated: AnnotatedPosting,
    posting: &PostingSpec,
) -> (r: Result<(Interpolated, bool), BookingError>)
    ensures
        match annotated_error(weight, annotated, *posting) {
            Some(e) => r == Err::<(Interpolated, bool), BookingError>(BookingError::Posting(annotated.idx, e)),
            None => r matches Ok((i, booked)) && !booked && annotated_interpolated(i, date, *currency, weight, annotated, *posting),
        },
{
    let idx = annotated.idx;
    let u = match units(posting, weight) {
        Ok(u) => u,
        Err(()) => {
            return Err(BookingError::Posting(idx, PostingBookingError::NumberOverflow));
        },
    };
    if posting.cost.is_none() && posting.price.is_none() {
        return Ok((Interpolated { idx, units: weight, currency: currency.clone(), cost: None, price: None }, false));
    }
    match (u, annotated.currency) {
        (None, Some(_)) => Err(BookingError::Posting(idx, PostingBookingError::CannotInferUnits)),
        (Some(_), None) => Err(BookingError::Posting(idx, PostingBookingError::CannotInferCurrency)),
        (None, None) => Err(BookingError::Posting(idx, PostingBookingError::CannotInferAnything)),
        (Some(uac), Some(cur)) => {
            match &posting.cost {
                Some(cost) => match (annotated.cost_currency, uac.conversion) {
                    (Some(cost_currency), Some(conversion)) => {
                        let mut adjustments: Vec<PostingCost> = Vec::new();
                        adjustments.push(
                            PostingCost {
                                date: match cost.date {
                                    Some(d) => d,
                                    None => date,
                                },
                                units: uac.units,
                                per_unit: conversion.per_unit,
                                total: conversion.total,
                                label: copy_opt_str(&cost.label),
                                merge: cost.merge,
                            },
                        );
                        proof {
                            assert(adjustments@ =~= seq![adjustments@[0]]);
                        }
                        Ok(
                            (
                                Interpolated {
                                    idx,
                                    units: uac.units,
                                    currency: cur,
                                    cost: Some(PostingCosts { cost_currency, adjustments }),
                                    price: None,
                                },
                                false,
                            ),
                        )
                    },
                    (None, Some(_)) => Err(BookingError::Posting(idx, PostingBookingError::CannotInferCurrency)),
                    (Some(_), None) => Err(BookingError::Posting(idx, PostingBookingError::CannotInferUnits)),
                    (None, None) => Err(BookingError::Posting(idx, PostingBookingError::CannotInferAnything)),
                },
                None => match (uac.conversion, annotated.price_currency) {
                    (Some(conversion), Some(price_currency)) => Ok(
                        (
                            Interpolated {
                                idx,
                                units: uac.units,
                                currency: cur,
                                cost: None,
                                price: Some(
                                    Price {
                                        per_unit: conversion.per_unit,
                                        total: Some(conversion.total),
                                        currency: price_currency,
                                    },
                                ),
                            },
                            false,
                        ),
                    ),
                    (None, Some(_)) => Err(BookingError::Posting(idx, PostingBookingError::CannotInferPricePerUnit)),
                    (Some(_), None) => Err(BookingError::Posting(idx, PostingBookingError::CannotInferPriceCurrency)),
                    (None, None) => Err(BookingError::Posting(idx, PostingBookingError::CannotInferPrice)),
                },
            }
        },
    }
}

/// The weights of the postings of a group, each `Err` where it overflows.
pub open spec fn costed_weights(cs: Seq<BookedOrUnbookedPosting>, ps: Seq<PostingSpec>) -> Seq<Result<Option<Dec>, ()>> {
    Seq::new(cs.len(), |i: int| weight_of(cs[i], ps[costed_idx(cs[i]) as int]))
}

/// The first of the first `n` results that is an error, if any.
pub open spec fn first_err_upto<A>(ws: Seq<Result<A, ()>>, n: int) -> Option<int>
    decreases n,
{
    if n <= 0 {
        None
    } else {
        match first_err_upto(ws, n - 1) {
            Some(k) => Some(k),
            None => if ws[n - 1] is Err {
                Some(n - 1)
            } else {
                None
            },
        }
    }
}

/// The weights once none overflowed.
pub open spec fn ok_weights(ws: Seq<Result<Option<Dec>, ()>>) -> Seq<Option<Dec>> {
    ws.map_values(|w: Result<Option<Dec>, ()>| w.unwrap())
}

/// The known weights, in order.
pub open spec fn known_weights(ws: Seq<Option<Dec>>) -> Seq<Dec>
    decreases ws.len(),
{
    if ws.len() == 0 {
        Seq::empty()
    } else {
        let k = known_weights(ws.drop_last());
        match ws.last() {
            Some(w) => k.push(w),
            None => k,
        }
    }
}

/// The indices of the unknown weights, in order.
pub open spec fn unknown_weights(ws: Seq<Option<Dec>>) -> Seq<int>
    decreases ws.len(),
{
    if ws.len() == 0 {
        Seq::empty()
    } else {
        let k = unknown_weights(ws.drop_last());
        match ws.last() {
            Some(_) => k,
            None => k.push(ws.len() - 1),
        }
    }
}

/// The weights with a single unknown one filled in to balance the residual.
pub open spec fn filled_weights(ws: Seq<Option<Dec>>, residual: Option<Dec>) -> Seq<Option<Dec>> {
    if unknown_weights(ws).len() == 1 {
        ws.update(
            unknown_weights(ws)[0],
            Some(
                dec_neg(
                    match residual {
                        Some(r) => r,
                        None => Dec::of_parts(0, 0),
                    },
                ),
            ),
        )
    } else {
        ws
    }
}

/// The error of a posting of a group, given its (filled in) weight.
pub open spec fn costed_error(c: BookedOrUnbookedPosting, w: Option<Dec>, ps: Seq<PostingSpec>) -> Option<BookingError> {
    match c {
        BookedOrUnbookedPosting::Booked(_) => None,
        BookedOrUnbookedPosting::Unbooked(a) => match annotated_error(w.unwrap(), a, ps[a.idx as int]) {
            Some(e) => Some(BookingError::Posting(a.idx, e)),
            None => None,
        },
    }
}

/// The first error among the first `n` postings of a group.
pub open spec fn first_costed_error(cs: Seq<BookedOrUnbookedPosting>, ws: Seq<Option<Dec>>, ps: Seq<PostingSpec>, n: int) -> Option<BookingError>
    decreases n,
{
    if n <= 0 {
        None
    } else {
        match first_costed_error(cs, ws, ps, n - 1) {
            Some(e) => Some(e),
            None => costed_error(cs[n - 1], ws[n - 1], ps),
        }
    }
}

/// What a posting of a group becomes: a booked one stays as it is; an
/// unbooked one is interpolated with its weight.
pub open spec fn costed_result(
    out: (Interpolated, bool),
    c: BookedOrUnbookedPosting,
    w: Option<Dec>,
    date: Date,
    currency: String,
    ps: Seq<PostingSpec>,
) -> bool {
    match c {
        BookedOrUnbookedPosting::Booked(b) => out.1 && crate::internal::interpolated_same(out.0, b),
        BookedOrUnbookedPosting::Unbooked(a) => !out.1 && annotated_interpolated(out.0, date, currency, w.unwrap(), a, ps[a.idx as int]),
    }
}

/// The interpolated postings of a group, each with whether it was booked
/// against existing positions, and the residual of the group that the
/// tolerance does not absorb.
#[derive(Debug)]
pub struct Interpolation {
    pub booked_and_unbooked_postings: Vec<(Interpolated, bool)>,
    pub residual: Option<Dec>,
}

/// Interpolation of the postings of a group is what `r` holds: the first
/// overflowing weight fails; then the residual of the known weights (an
/// overflow fails); more than one unknown weight fails; a single unknown
/// weight is set to balance the residual, which then goes; then each posting
/// is interpolated in turn, the first error failing.
pub open spec fn interpolation_outcome<T: Tolerance>(
    r: Result<Interpolation, BookingError>,
    date: Date,
    currency: String,
    cs: Seq<BookedOrUnbookedPosting>,
    ps: Seq<PostingSpec>,
    tol: T,
) -> bool {
    let ws = costed_weights(cs, ps);
    match first_err_upto(ws, ws.len() as int) {
        Some(k) => r == Err::<Interpolation, BookingError>(BookingError::Posting(costed_idx(cs[k]), PostingBookingError::NumberOverflow)),
        None => {
            let ow = ok_weights(ws);
            match residual_of(tol.spec_default(currency@), tol.spec_multiplier(), known_weights(ow)) {
                None => r == Err::<Interpolation, BookingError>(BookingError::Transaction(TransactionBookingError::NumberOverflow)),
                Some(res) => if unknown_weights(ow).len() > 1 {
                    r == Err::<Interpolation, BookingError>(BookingError::Transaction(TransactionBookingError::TooManyMissingNumbers))
                } else {
                    let fw = filled_weights(ow, res);
                    match first_costed_error(cs, fw, ps, cs.len() as int) {
                        Some(e) => r == Err::<Interpolation, BookingError>(e),
                        None => r matches Ok(interp) && interp.residual == (if unknown_weights(ow).len() == 1 { None } else { res })
                            && interp.booked_and_unbooked_postings@.len() == cs.len()
                            && forall|i: int| 0 <= i < cs.len() ==> costed_result(#[trigger] interp.booked_and_unbooked_postings@[i], cs[i], fw[i], date, currency, ps),
                    }
                },
            }
        },
    }
}

/// Interpolate the postings of the group of `currency`, once reductions are
/// booked.
pub fn interpolate_from_costed<T: Tolerance>(
    date: Date,
    currency: &String,
    costeds: &Vec<BookedOrUnbookedPosting>,
    postings: &Vec<PostingSpec>,
    tolerance: &T,
) -> (r: Result<Interpolation, BookingError>)
    requires
        forall|i: int| 0 <= i < costeds@.len() ==> costed_idx(#[trigger] costeds@[i]) < postings@.len(),
    ensures
        interpolation_outcome(r, date, *currency, costeds@, postings@, *tolerance),
{
    let ghost cs = costeds@;
    let ghost ps = postings@;
    let ghost ws = costed_weights(cs, ps);
    let mut weights: Vec<Option<Dec>> = Vec::new();
    let mut i: usize = 0;
    while i < costeds.len()
        invariant
            cs == costeds@,
            ps == postings@,
            ws == costed_weights(cs, ps),
            forall|j: int| 0 <= j < cs.len() ==> costed_idx(#[trigger] cs[j]) < ps.len(),
            i <= cs.len(),
            first_err_upto(ws, i as int) is None,
            weights@ == ok_weights(ws).take(i as int),
            forall|j: int| 0 <= j < i ==> ws[j] is Ok,
        decreases cs.len() - i,
    {
        let idx = costeds[i].idx();
        match costeds[i].weight(&postings[idx]) {
            Ok(w) => {
                weights.push(w);
            },
            Err(()) => {
                proof {
                    lemma_first_err_found(ws, i as int);
                }
                return Err(BookingError::Posting(idx, PostingBookingError::NumberOverflow));
            },
        }
        i = i + 1;
        proof {
            assert(weights@ =~= ok_weights(ws).take(i as int));
        }
    }
    assert(ok_weights(ws).take(i as int) =~= ok_weights(ws));
    let ghost ow = weights@;
    // the known weights, and the indices of the unknown ones
    let mut known: Vec<Dec> = Vec::new();
    let mut unknown: Vec<usize> = Vec::new();
    let mut j: usize = 0;
    while j < weights.len()
        invariant
            ow == weights@,
            j <= ow.len(),
            known@ == known_weights(ow.take(j as int)),
            unknown@.map_values(|x: usize| x as int) == unknown_weights(ow.take(j as int)),
        decreases ow.len() - j,
    {
        assert(ow.take(j + 1).drop_last() =~= ow.take(j as int));
        match weights[j] {
            Some(w) => {
                known.push(w);
            },
            None => {
                unknown.push(j);
            },
        }
        j = j + 1;
        proof {
            assert(unknown@.map_values(|x: usize| x as int) =~= unknown_weights(ow.take(j as int)));
        }
    }
    assert(ow.take(j as int) =~= ow);
    let mut residual = match tolerance_residual(tolerance, &known, currency) {
        Some(res) => res,
        None => {
            return Err(BookingError::Transaction(TransactionBookingError::NumberOverflow));
        },
    };
    let ghost res = residual;
    proof {
        lemma_unknown_weights(ow);
    }
    if unknown.len() == 1 {
        let k = unknown[0];
        assert(unknown@.map_values(|x: usize| x as int)[0] == k);
        let balance = match residual {
            Some(x) => x,
            None => <Dec as Number>::zero(),
        };
        weights.set(k, Some(balance.neg()));
        residual = None;
    } else if unknown.len() > 1 {
        return Err(BookingError::Transaction(TransactionBookingError::TooManyMissingNumbers));
    }
    let ghost fw = filled_weights(ow, res);
    assert(weights@ =~= fw);
    assert forall|j: int| 0 <= j < cs.len() implies (#[trigger] fw[j]) is Some by {
        if ow[j] is None {
            assert(unknown_weights(ow).contains(j));
            let x = choose|x: int| 0 <= x < unknown_weights(ow).len() && unknown_weights(ow)[x] == j;
            assert(unknown_weights(ow).len() == 1);
            assert(x == 0);
        }
    }
    let mut results: Vec<(Interpolated, bool)> = Vec::new();
    let mut k: usize = 0;
    while k < costeds.len()
        invariant
            cs == costeds@,
            ps == postings@,
            fw == weights@,
            fw.len() == cs.len(),
            ws == costed_weights(cs, ps),
            first_err_upto(ws, ws.len() as int) is None,
            ow == ok_weights(ws),
            residual_of(tolerance.spec_default(currency@), tolerance.spec_multiplier(), known_weights(ow)) == Some(res),
            unknown_weights(ow).len() <= 1,
            fw == filled_weights(ow, res),
            residual == (if unknown_weights(ow).len() == 1 { None } else { res }),
            forall|j: int| 0 <= j < cs.len() ==> costed_idx(#[trigger] cs[j]) < ps.len(),
            forall|j: int| 0 <= j < cs.len() ==> (#[trigger] fw[j]) is Some,
            k <= cs.len(),
            first_costed_error(cs, fw, ps, k as int) is None,
            results@.len() == k,
            forall|j: int| 0 <= j < k ==> costed_result(#[trigger] results@[j], cs[j], fw[j], date, *currency, ps),
        decreases cs.len() - k,
    {
        match &costeds[k] {
            BookedOrUnbookedPosting::Unbooked(a) => {
                let w = match weights[k] {
                    Some(w) => w,
                    None => {
                        proof {
                            assert(false);
                        }
                        <Dec as Number>::zero()
                    },
                };
                match interpolate_from_annotated(date, currency, w, a.duplicate(), &postings[a.idx]) {
                    Ok(out) => {
                        results.push(out);
                    },
                    Err(e) => {
                        proof {
                            assert(w == fw[k as int].unwrap());
                            lemma_first_costed_error_found(cs, fw, ps, k as int);
                        }
                        return Err(e);
                    },
                }
            },
            BookedOrUnbookedPosting::Booked(b) => {
                results.push((b.duplicate(), true));
            },
        }
        k = k + 1;
    }
    Ok(Interpolation { booked_and_unbooked_postings: results, residual })
}

/// The unknown weights are exactly the indices without a weight, in order.
proof fn lemma_unknown_weights(ws: Seq<Option<Dec>>)
    ensures
        forall|k: int| 0 <= k < unknown_weights(ws).len() ==> 0 <= #[trigger] unknown_weights(ws)[k] < ws.len() && ws[unknown_weights(ws)[k]] is None,
        forall|i: int| 0 <= i < ws.len() && ws[i] is None ==> unknown_weights(ws).contains(i),
    decreases ws.len(),
{
    if ws.len() > 0 {
        lemma_unknown_weights(ws.drop_last());
        assert forall|i: int| 0 <= i < ws.len() && ws[i] is None implies unknown_weights(ws).contains(i) by {
            if i < ws.len() - 1 {
                assert(ws.drop_last()[i] == ws[i]);
                assert(unknown_weights(ws.drop_last()).contains(i));
                let k = choose|k: int| 0 <= k < unknown_weights(ws.drop_last()).len() && unknown_weights(ws.drop_last())[k] == i;
                assert(unknown_weights(ws)[k] == i);
            } else {
                assert(unknown_weights(ws).last() == i);
            }
        }
    }
}

proof fn lemma_first_err_found<A>(ws: Seq<Result<A, ()>>, i: int)
    requires
        0 <= i < ws.len(),
        first_err_upto(ws, i) is None,
        ws[i] is Err,
    ensures
        first_err_upto(ws, ws.len() as int) == Some(i),
    decreases ws.len() - i,
{
    lemma_first_err_stays(ws, i + 1, ws.len() as int);
}

proof fn lemma_first_err_stays<A>(ws: Seq<Result<A, ()>>, n: int, m: int)
    requires
        0 <= n <= m <= ws.len(),
        first_err_upto(ws, n) is Some,
    ensures
        first_err_upto(ws, m) == first_err_upto(ws, n),
    decreases m - n,
{
    if m > n {
        lemma_first_err_stays(ws, n, m - 1);
    }
}

proof fn lemma_first_costed_error_found(cs: Seq<BookedOrUnbookedPosting>, ws: Seq<Option<Dec>>, ps: Seq<PostingSpec>, k: int)
    requires
        0 <= k < cs.len(),
        first_costed_error(cs, ws, ps, k) is None,
        costed_error(cs[k], ws[k], ps) is Some,
    ensures
        first_costed_error(cs, ws, ps, cs.len() as int) == costed_error(cs[k], ws[k], ps),
{
    lemma_first_costed_error_stays(cs, ws, ps, k + 1, cs.len() as int);
}

proof fn lemma_first_costed_error_stays(cs: Seq<BookedOrUnbookedPosting>, ws: Seq<Option<Dec>>, ps: Seq<PostingSpec>, n: int, m: int)
    requires
        0 <= n <= m <= cs.len(),
        first_costed_error(cs, ws, ps, n) is Some,
    ensures
        first_costed_error(cs, ws, ps, m) == first_costed_error(cs, ws, ps, n),
    decreases m - n,
{
    if m > n {
        lemma_first_costed_error_stays(cs, ws, ps, n, m - 1);
    }
}

} // verus!
