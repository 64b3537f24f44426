//! Postings on their way through booking: annotated with the currencies
//! inferred for them, then booked or interpolated.
use vstd::prelude::*;

use crate::decimal::{decimal_checked_add, decimal_checked_mul, Dec, Number};
use crate::order::copy_opt_str;
use crate::types::{CostSpec, PostingCost, PostingCosts, PostingSpec, Price, PriceSpec};

verus! {

/// A copy of an optional string.
pub open spec fn or_opt(a: Option<String>, b: Option<String>) -> Option<String> {
    match a {
        Some(x) => Some(x),
        None => b,
    }
}

/// The currency of a posting's cost spec, if any.
pub open spec fn cost_spec_currency(p: PostingSpec) -> Option<String> {
    match p.cost {
        Some(c) => c.currency,
        None => None,
    }
}

/// The currency of a posting's price spec, if any.
pub open spec fn price_spec_currency(p: PostingSpec) -> Option<String> {
    match p.price {
        Some(c) => c.currency,
        None => None,
    }
}

/// A posting, by its index, with the currencies known or inferred for it.
#[derive(Debug)]
pub struct AnnotatedPosting {
    pub idx: usize,
    pub currency: Option<String>,
    pub cost_currency: Option<String>,
    pub price_currency: Option<String>,
}

/// The annotation of a posting: its own currency, and its cost and price
/// currencies, each standing in for the other where only one is given.
pub open spec fn annotation(p: PostingSpec, idx: usize) -> AnnotatedPosting {
    AnnotatedPosting {
        idx,
        currency: p.currency,
        cost_currency: or_opt(cost_spec_currency(p), price_spec_currency(p)),
        price_currency: or_opt(price_spec_currency(p), cost_spec_currency(p)),
    }
}

/// The currency used for balancing weights during inference (not the currency
/// booked to): the cost currency, else the price currency, else the posting's
/// own currency where it has neither cost nor price.
pub open spec fn bucket_of(a: AnnotatedPosting, p: PostingSpec) -> Option<String> {
    match a.cost_currency {
        Some(c) => Some(c),
        None => match a.price_currency {
            Some(c) => Some(c),
            None => if p.cost is None && p.price is None {
                a.currency
            } else {
                None
            },
        },
    }
}

impl AnnotatedPosting {
    /// A copy of the annotation.
    pub fn duplicate(&self) -> (r: AnnotatedPosting)
        ensures
            r == *self,
    {
        AnnotatedPosting {
            idx: self.idx,
            currency: copy_opt_str(&self.currency),
            cost_currency: copy_opt_str(&self.cost_currency),
            price_currency: copy_opt_str(&self.price_currency),
        }
    }

    /// The bucket of the annotated posting, given the posting itself.
    pub fn bucket(&self, posting: &PostingSpec) -> (r: Option<String>)
        ensures
            r == bucket_of(*self, *posting),
    {
        match &self.cost_currency {
            Some(c) => Some(c.clone()),
            None => match &self.price_currency {
                Some(c) => Some(c.clone()),
                None => if posting.cost.is_none() && posting.price.is_none() {
                    copy_opt_str(&self.currency)
                } else {
                    None
                },
            },
        }
    }
}

/// The currency of a cost spec, as written.
fn cost_currency_of(p: &PostingSpec) -> (r: Option<String>)
    ensures
        r == cost_spec_currency(*p),
{
    match &p.cost {
        Some(c) => copy_opt_str(&c.currency),
        None => None,
    }
}

/// The currency of a price spec, as written.
fn price_currency_of(p: &PostingSpec) -> (r: Option<String>)
    ensures
        r == price_spec_currency(*p),
{
    match &p.price {
        Some(c) => copy_opt_str(&c.currency),
        None => None,
    }
}

/// Annotate a posting along with its index in the list of postings.
pub fn annotate(posting: &PostingSpec, idx: usize) -> (r: AnnotatedPosting)
    ensures
        r == annotation(*posting, idx),
{
    let pcc = cost_currency_of(posting);
    let ppc = price_currency_of(posting);
    let cost_currency = match &pcc {
        Some(c) => Some(c.clone()),
        None => copy_opt_str(&ppc),
    };
    let price_currency = match ppc {
        Some(c) => Some(c),
        None => pcc,
    };
    AnnotatedPosting { idx, currency: copy_opt_str(&posting.currency), cost_currency, price_currency }
}

/// An interpolated posting is one complete with any fields which were missing
/// from its [PostingSpec]; `idx` is the index of that posting.
#[derive(Clone, Debug)]
pub struct Interpolated {
    pub idx: usize,
    pub units: Dec,
    pub currency: String,
    pub cost: Option<PostingCosts>,
    pub price: Option<Price>,
}

/// Interpolated postings are alike where their fields are, the posting costs
/// by the lists they hold.
pub open spec fn interpolated_same(a: Interpolated, b: Interpolated) -> bool {
    &&& a.idx == b.idx
    &&& a.units == b.units
    &&& a.currency == b.currency
    &&& a.price == b.price
    &&& match (a.cost, b.cost) {
        (None, None) => true,
        (Some(x), Some(y)) => x.cost_currency == y.cost_currency && x.adjustments@ == y.adjustments@,
        _ => false,
    }
}

impl Interpolated {
    /// A copy of the interpolated posting.
    pub fn duplicate(&self) -> (r: Interpolated)
        ensures
            interpolated_same(r, *self),
    {
        Interpolated {
            idx: self.idx,
            units: self.units,
            currency: self.currency.clone(),
            cost: match &self.cost {
                None => None,
                Some(c) => Some(c.duplicate()),
            },
            price: match &self.price {
                None => None,
                Some(p) => Some(p.duplicate()),
            },
        }
    }
}

/// A posting either booked against existing positions, or still to be
/// interpolated.
#[derive(Debug)]
pub enum BookedOrUnbookedPosting {
    Booked(Interpolated),
    Unbooked(AnnotatedPosting),
}

/// The index of the posting.
pub open spec fn costed_idx(c: BookedOrUnbookedPosting) -> usize {
    match c {
        BookedOrUnbookedPosting::Booked(b) => b.idx,
        BookedOrUnbookedPosting::Unbooked(u) => u.idx,
    }
}

/// The weight from a cost or price: its total if given, else per-unit times
/// units, else unknown; `Err` where the product overflows.
pub open spec fn conversion_weight(total: Option<Dec>, per_unit: Option<Dec>, units: Option<Dec>) -> Result<Option<Dec>, ()> {
    match (total, per_unit, units) {
        (Some(t), _, _) => Ok(Some(t)),
        (None, Some(pu), Some(u)) => match decimal_checked_mul(pu, u) {
            Some(w) => Ok(Some(w)),
            None => Err(()),
        },
        _ => Ok(None),
    }
}

/// The cost of the first `n` lots that a booked posting took: the sum of
/// their units times their per-unit costs; `None` where a product or a sum
/// overflows.
pub open spec fn adjustments_weight(adjustments: Seq<PostingCost>, n: int) -> Option<Dec>
    decreases n,
{
    if n <= 0 {
        Some(Dec::of_parts(0, 0))
    } else {
        match adjustments_weight(adjustments, n - 1) {
            None => None,
            Some(sum) => match decimal_checked_mul(adjustments[n - 1].units, adjustments[n - 1].per_unit) {
                None => None,
                Some(w) => decimal_checked_add(sum, w),
            },
        }
    }
}

/// The weight of a posting, as the balancing rule defines it
/// (<https://beancount.github.io/docs/beancount_language_syntax.html#balancing-rule-the-weight-of-postings>):
/// of a booked posting, the cost of the lots it took (its units where it took
/// none at cost); of an unbooked one at cost, its cost, else its price, else
/// its units; `Err` where a product or a sum overflows.
pub open spec fn weight_of(c: BookedOrUnbookedPosting, p: PostingSpec) -> Result<Option<Dec>, ()> {
    match c {
        BookedOrUnbookedPosting::Booked(b) => match b.cost {
            Some(pc) => match adjustments_weight(pc.adjustments@, pc.adjustments@.len() as int) {
                Some(w) => Ok(Some(w)),
                None => Err(()),
            },
            None => Ok(Some(b.units)),
        },
        BookedOrUnbookedPosting::Unbooked(_) => match p.cost {
            Some(cs) => conversion_weight(cs.total, cs.per_unit, p.units),
            None => match p.price {
                Some(ps) => conversion_weight(ps.total, ps.per_unit, p.units),
                None => Ok(p.units),
            },
        },
    }
}

fn conversion_weight_exec(total: Option<Dec>, per_unit: Option<Dec>, units: Option<Dec>) -> (r: Result<Option<Dec>, ()>)
    ensures
        r == conversion_weight(total, per_unit, units),
{
    match (total, per_unit, units) {
        (Some(t), _, _) => Ok(Some(t)),
        (None, Some(pu), Some(u)) => match pu.checked_mul(&u) {
            Some(w) => Ok(Some(w)),
            None => Err(()),
        },
        _ => Ok(None),
    }
}

/// The cost of the lots that a booked posting took.
fn adjustments_weight_exec(adjustments: &Vec<PostingCost>) -> (r: Option<Dec>)
    ensures
        r == adjustments_weight(adjustments@, adjustments@.len() as int),
{
    let mut sum = Dec::zero();
    let mut i: usize = 0;
    while i < adjustments.len()
        invariant
            i <= adjustments@.len(),
            adjustments_weight(adjustments@, i as int) == Some(sum),
        decreases adjustments@.len() - i,
    {
        let w = match adjustments[i].units.checked_mul(&adjustments[i].per_unit) {
            Some(w) => w,
            None => {
                proof {
                    lemma_adjustments_none_stays(adjustments@, i + 1, adjustments@.len() as int);
                }
                return None;
            },
        };
        sum = match sum.checked_add(&w) {
            Some(x) => x,
            None => {
                proof {
                    lemma_adjustments_none_stays(adjustments@, i + 1, adjustments@.len() as int);
                }
                return None;
            },
        };
        i = i + 1;
    }
    Some(sum)
}

proof fn lemma_adjustments_none_stays(adjustments: Seq<PostingCost>, k: int, n: int)
    requires
        0 <= k <= n,
        adjustments_weight(adjustments, k) is None,
    ensures
        adjustments_weight(adjustments, n) is None,
    decreases n - k,
{
    if k < n {
        lemma_adjustments_none_stays(adjustments, k + 1, n);
    }
}

impl BookedOrUnbookedPosting {
    /// Determine the weight of a posting, given the posting itself.
    pub fn weight(&self, posting: &PostingSpec) -> (r: Result<Option<Dec>, ()>)
        ensures
            r == weight_of(*self, *posting),
    {
        match self {
            BookedOrUnbookedPosting::Booked(b) => match &b.cost {
                Some(pc) => match adjustments_weight_exec(&pc.adjustments) {
                    Some(w) => Ok(Some(w)),
                    None => Err(()),
                },
                None => Ok(Some(b.units)),
            },
            BookedOrUnbookedPosting::Unbooked(_) => match &posting.cost {
                Some(cs) => conversion_weight_exec(cs.total, cs.per_unit, posting.units),
                None => match &posting.price {
                    Some(ps) => conversion_weight_exec(ps.total, ps.per_unit, posting.units),
                    None => Ok(posting.units),
                },
            },
        }
    }

    /// The index of the posting.
    pub fn idx(&self) -> (r: usize)
        ensures
            r == costed_idx(*self),
    {
        match self {
            BookedOrUnbookedPosting::Booked(b) => b.idx,
            BookedOrUnbookedPosting::Unbooked(u) => u.idx,
        }
    }
}

} // verus!
