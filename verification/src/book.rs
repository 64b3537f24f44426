//! Booking the postings of a transaction: categorize them by currency, then
//! for each group book its reductions, interpolate what is missing, and add
//! its augmentations to the inventory.
use vstd::prelude::*;

use crate::categorize::{categorize_by_currency, categorized_as, in_groups};
use crate::collections::{
    currency_group_keys, currency_groups_map, currency_numbers_map, entries_match, group_entries_match,
    inventory_map, no_currency_numbers, CurrencyGroups, CurrencyNumbers, Inventory,
};
use crate::decimal::{dec_neg, decimal_text, Dec};
use crate::order::{compare_str, lemma_str_order_props, lemma_str_order_trans, str_order};
use crate::errors::{BookingError, PostingBookingError, TransactionBookingError};
use crate::internal::{costed_idx, AnnotatedPosting, BookedOrUnbookedPosting, Interpolated};
use crate::interpolate::{interpolate_from_costed, interpolation_outcome, Interpolation};
use crate::positions::{accumulate_outcome, Positions};
use crate::reductions::{book_reductions, costed_at, previous_positions, reductions_upto, Reductions};
use crate::tolerance::Tolerance;
use crate::types::{cost_of_posting_cost, BookingMethods, Cost, Date, Position, PostingCost, PostingSpec};

verus! {

/// The positions of the first `n` entries, by account.
pub open spec fn positions_entries_upto(es: Seq<(String, Positions)>, n: int) -> Map<Seq<char>, Seq<Position>>
    decreases n,
{
    if n <= 0 {
        Map::empty()
    } else {
        positions_entries_upto(es, n - 1).insert(es[n - 1].0@, es[n - 1].1@)
    }
}

proof fn lemma_positions_entries_upto(es: Seq<(String, Positions)>, n: int)
    requires
        0 <= n <= es.len(),
        forall|j: int, l: int| 0 <= j < l < es.len() ==> (#[trigger] es[j].0)@ != (#[trigger] es[l].0)@,
    ensures
        forall|k: Seq<char>| #[trigger] positions_entries_upto(es, n).contains_key(k) <==> exists|j: int| 0 <= j < n && es[j].0@ == k,
        forall|j: int| 0 <= j < n ==> #[trigger] positions_entries_upto(es, n)[es[j].0@] == es[j].1@,
    decreases n,
{
    if n > 0 {
        lemma_positions_entries_upto(es, n - 1);
        let m = positions_entries_upto(es, n - 1);
        assert forall|k: Seq<char>| #[trigger] positions_entries_upto(es, n).contains_key(k) <==> exists|j: int| 0 <= j < n && es[j].0@ == k by {
            if k == es[n - 1].0@ {
                assert(0 <= n - 1 < n && es[n - 1].0@ == k);
            } else if m.contains_key(k) {
                let j = choose|j: int| 0 <= j < n - 1 && es[j].0@ == k;
                assert(0 <= j < n && es[j].0@ == k);
            } else if exists|j: int| 0 <= j < n && es[j].0@ == k {
                let j = choose|j: int| 0 <= j < n && es[j].0@ == k;
                assert(0 <= j < n - 1 && es[j].0@ == k);
            }
        }
        assert forall|j: int| 0 <= j < n implies #[trigger] positions_entries_upto(es, n)[es[j].0@] == es[j].1@ by {
            if j < n - 1 {
                assert(es[j].0@ != es[n - 1].0@);
                assert(m[es[j].0@] == es[j].1@);
            }
        }
    }
}

impl Inventory {
    /// An inventory of the given accounts with their positions, a later
    /// entry for an account replacing an earlier.
    pub fn from_entries(entries: Vec<(String, Positions)>) -> (r: Inventory)
        ensures
            inventory_map(r) == positions_entries_upto(entries@, entries@.len() as int),
    {
        let mut inventory = Inventory::empty();
        let mut i: usize = 0;
        while i < entries.len()
            invariant
                i <= entries@.len(),
                inventory_map(inventory) == positions_entries_upto(entries@, i as int),
            decreases entries@.len() - i,
        {
            inventory.insert(entries[i].0.clone(), entries[i].1.duplicate());
            i = i + 1;
        }
        inventory
    }
}

/// Replace the positions of the accounts that were updated.
fn incorporate_inventory_updates(updates: Inventory, inventory: &mut Inventory)
    ensures
        inventory_map(*final(inventory)) == inventory_map(*old(inventory)).union_prefer_right(inventory_map(updates)),
{
    let ghost m0 = inventory_map(*inventory);
    let ghost um = inventory_map(updates);
    let entries = updates.into_entries();
    let n = entries.len();
    let mut i: usize = 0;
    while i < n
        invariant
            n == entries@.len(),
            i <= n,
            forall|j: int, l: int| 0 <= j < l < entries@.len() ==> (#[trigger] entries@[j].0)@ != (#[trigger] entries@[l].0)@,
            inventory_map(*inventory) == m0.union_prefer_right(positions_entries_upto(entries@, i as int)),
        decreases n - i,
    {
        let account = entries[i].0.clone();
        let positions = entries[i].1.duplicate();
        inventory.insert(account, positions);
        proof {
            assert(inventory_map(*inventory) =~= m0.union_prefer_right(positions_entries_upto(entries@, i + 1)));
        }
        i = i + 1;
    }
    proof {
        lemma_positions_entries_upto(entries@, n as int);
        let em = positions_entries_upto(entries@, n as int);
        assert(em =~= um) by {
            assert forall|k: Seq<char>| #[trigger] um.contains_key(k) implies em.contains_key(k) by {
                let j = choose|j: int| 0 <= j < entries@.len() && entries@[j].0@ == k;
            }
            assert forall|k: Seq<char>| #[trigger] em.contains_key(k) implies um.contains_key(k) && em[k] == um[k] by {
                let j = choose|j: int| 0 <= j < n && entries@[j].0@ == k;
                assert(em[entries@[j].0@] == entries@[j].1@);
            }
        }
    }
}

/// The costs at which an augmenting posting adds to positions: one for each
/// of its posting costs, else none.
pub open spec fn augmentation_costs(it: Interpolated) -> Seq<Option<Cost>> {
    match it.cost {
        Some(pcs) => pcs.adjustments@.map_values(|c: PostingCost| Some(cost_of_posting_cost(pcs.cost_currency, c))),
        None => seq![None],
    }
}

/// The positions after adding the posting's units at the first `n` of its
/// costs in turn; an overflow fails.
pub open spec fn accumulated_upto(ps: Seq<Position>, it: Interpolated, method: crate::types::Booking, n: int) -> Result<Seq<Position>, BookingError>
    decreases n,
{
    if n <= 0 {
        Ok(ps)
    } else {
        match accumulated_upto(ps, it, method, n - 1) {
            Err(e) => Err(e),
            Ok(q) => match accumulate_outcome(q, it.units, it.currency, augmentation_costs(it)[n - 1], method) {
                Ok(q2) => Ok(q2),
                Err(e) => Err(BookingError::Posting(it.idx, e)),
            },
        }
    }
}

/// The positions of the accounts that the first `n` augmenting postings
/// change, each added to what the earlier ones left, else to what earlier
/// groups left, else to what was held before.
pub open spec fn augmentations_upto(
    its: Seq<Interpolated>,
    ps: Seq<PostingSpec>,
    methods: BookingMethods,
    accumulated: Map<Seq<char>, Seq<Position>>,
    base: Map<Seq<char>, Seq<Position>>,
    n: int,
) -> Result<Map<Seq<char>, Seq<Position>>, BookingError>
    decreases n,
{
    if n <= 0 {
        Ok(Map::empty())
    } else {
        match augmentations_upto(its, ps, methods, accumulated, base, n - 1) {
            Err(e) => Err(e),
            Ok(local) => {
                let it = its[n - 1];
                let account = ps[it.idx as int].account@;
                let prev = match previous_positions(local, accumulated, base, account) {
                    Some(q) => q,
                    None => Seq::empty(),
                };
                match accumulated_upto(prev, it, methods.spec_method(account), augmentation_costs(it).len() as int) {
                    Err(e) => Err(e),
                    Ok(q) => Ok(local.insert(account, q)),
                }
            },
        }
    }
}

/// The postings that were not booked against existing positions.
pub open spec fn unbooked_of(ps: Seq<(Interpolated, bool)>) -> Seq<Interpolated>
    decreases ps.len(),
{
    if ps.len() == 0 {
        Seq::empty()
    } else {
        let r = unbooked_of(ps.drop_last());
        if ps.last().1 {
            r
        } else {
            r.push(ps.last().0)
        }
    }
}

proof fn lemma_accumulated_err_stays(ps: Seq<Position>, it: Interpolated, method: crate::types::Booking, k: int, n: int)
    requires
        0 <= k <= n,
        accumulated_upto(ps, it, method, k) is Err,
    ensures
        accumulated_upto(ps, it, method, n) == accumulated_upto(ps, it, method, k),
    decreases n - k,
{
    if k < n {
        lemma_accumulated_err_stays(ps, it, method, k + 1, n);
    }
}

proof fn lemma_augmentations_err_stays(
    its: Seq<Interpolated>,
    ps: Seq<PostingSpec>,
    methods: BookingMethods,
    accumulated: Map<Seq<char>, Seq<Position>>,
    base: Map<Seq<char>, Seq<Position>>,
    k: int,
    n: int,
)
    requires
        0 <= k <= n,
        augmentations_upto(its, ps, methods, accumulated, base, k) is Err,
    ensures
        augmentations_upto(its, ps, methods, accumulated, base, n) == augmentations_upto(its, ps, methods, accumulated, base, k),
    decreases n - k,
{
    if k < n {
        lemma_augmentations_err_stays(its, ps, methods, accumulated, base, k + 1, n);
    }
}

/// Add the posting's units to the positions at each of its costs in turn.
fn accumulate_augmentation(positions: &mut Positions, it: &Interpolated, method: crate::types::Booking) -> (r: Result<(), BookingError>)
    requires
        method != crate::types::Booking::Average,
    ensures
        match accumulated_upto(old(positions)@, *it, method, augmentation_costs(*it).len() as int) {
            Ok(q) => r is Ok && final(positions)@ == q,
            Err(e) => r == Err::<(), BookingError>(e),
        },
{
    let ghost p0 = positions@;
    match &it.cost {
        Some(posting_costs) => {
            let costs = posting_costs.iter();
            let n = costs.len();
            let mut k: usize = 0;
            while k < n
                invariant
                    n == costs@.len(),
                    p0 == old(positions)@,
                    n == augmentation_costs(*it).len(),
                    it.cost == Some(*posting_costs),
                    method != crate::types::Booking::Average,
                    forall|j: int| 0 <= j < costs@.len() ==> #[trigger] costs@[j] == (posting_costs.cost_currency, posting_costs.adjustments@[j]),
                    k <= n,
                    accumulated_upto(p0, *it, method, k as int) == Ok::<Seq<Position>, BookingError>(positions@),
                decreases n - k,
            {
                let cost = Cost::from_posting_cost(costs[k].0.clone(), costs[k].1.duplicate());
                assert(augmentation_costs(*it)[k as int] == Some(cost));
                match positions.accumulate(it.units, it.currency.clone(), Some(cost), method) {
                    Ok(()) => {},
                    Err(e) => {
                        proof {
                            lemma_accumulated_err_stays(p0, *it, method, k + 1, n as int);
                        }
                        return Err(BookingError::Posting(it.idx, e));
                    },
                }
                k = k + 1;
            }
            Ok(())
        },
        None => {
            assert(augmentation_costs(*it).len() == 1);
            assert(augmentation_costs(*it)[0] == None::<Cost>);
            assert(accumulated_upto(p0, *it, method, 0) == Ok::<Seq<Position>, BookingError>(p0));
            match positions.accumulate(it.units, it.currency.clone(), None, method) {
                Ok(()) => Ok(()),
                Err(e) => Err(BookingError::Posting(it.idx, e)),
            }
        },
    }
}

/// Add the postings not booked against existing positions to the positions
/// of their accounts, as their accounts' booking methods do.
fn book_augmentations(
    interpolateds: &Vec<(Interpolated, bool)>,
    postings: &Vec<PostingSpec>,
    accumulated: &Inventory,
    inventory: &Inventory,
    methods: &BookingMethods,
) -> (r: Result<Inventory, BookingError>)
    requires
        forall|k: int| 0 <= k < interpolateds@.len() ==> (#[trigger] interpolateds@[k]).0.idx < postings@.len(),
    ensures
        match augmentations_upto(
            unbooked_of(interpolateds@),
            postings@,
            *methods,
            inventory_map(*accumulated),
            inventory_map(*inventory),
            unbooked_of(interpolateds@).len() as int,
        ) {
            Ok(m) => r matches Ok(inv) && inventory_map(inv) == m,
            Err(e) => r == Err::<Inventory, BookingError>(e),
        },
{
    let ghost acc = inventory_map(*accumulated);
    let ghost base = inventory_map(*inventory);
    let mut updated_inventory = Inventory::empty();
    let n = interpolateds.len();
    let mut k: usize = 0;
    while k < n
        invariant
            n == interpolateds@.len(),
            k <= n,
            acc == inventory_map(*accumulated),
            base == inventory_map(*inventory),
            forall|j: int| 0 <= j < interpolateds@.len() ==> (#[trigger] interpolateds@[j]).0.idx < postings@.len(),
            augmentations_upto(
                unbooked_of(interpolateds@.take(k as int)),
                postings@,
                *methods,
                acc,
                base,
                unbooked_of(interpolateds@.take(k as int)).len() as int,
            ) == Ok::<Map<Seq<char>, Seq<Position>>, BookingError>(inventory_map(updated_inventory)),
        decreases n - k,
    {
        proof {
            assert(interpolateds@.take(k + 1).drop_last() =~= interpolateds@.take(k as int));
        }
        let ghost its0 = unbooked_of(interpolateds@.take(k as int));
        let ghost its1 = unbooked_of(interpolateds@.take(k + 1));
        if !interpolateds[k].1 {
            let interpolated = &interpolateds[k].0;
            let account = &postings[interpolated.idx].account;
            let account_method = methods.method(account);
            let mut positions = match updated_inventory.get(account) {
                Some(p) => p.duplicate(),
                None => match accumulated.get(account) {
                    Some(p) => p.duplicate(),
                    None => match inventory.get(account) {
                        Some(p) => p.duplicate(),
                        None => Positions::default(),
                    },
                },
            };
            proof {
                assert(its1 == its0.push(*interpolated));
                lemma_augmentations_prefix(its0, its1, postings@, *methods, acc, base, its0.len() as int);
            }
            match accumulate_augmentation(&mut positions, interpolated, account_method) {
                Ok(()) => {
                    updated_inventory.insert(account.clone(), positions);
                },
                Err(e) => {
                    proof {
                        let all = unbooked_of(interpolateds@);
                        assert(interpolateds@.take(n as int) =~= interpolateds@);
                        lemma_unbooked_prefix(interpolateds@, k + 1, n as int);
                        lemma_augmentations_prefix(its1, all, postings@, *methods, acc, base, its1.len() as int);
                        lemma_augmentations_err_stays(all, postings@, *methods, acc, base, its1.len() as int, all.len() as int);
                    }
                    return Err(e);
                },
            }
        } else {
            assert(its1 == its0);
        }
        k = k + 1;
    }
    assert(interpolateds@.take(n as int) =~= interpolateds@);
    Ok(updated_inventory)
}

proof fn lemma_augmentations_prefix(
    s: Seq<Interpolated>,
    t: Seq<Interpolated>,
    ps: Seq<PostingSpec>,
    methods: BookingMethods,
    accumulated: Map<Seq<char>, Seq<Position>>,
    base: Map<Seq<char>, Seq<Position>>,
    n: int,
)
    requires
        0 <= n <= s.len(),
        n <= t.len(),
        forall|j: int| 0 <= j < n ==> s[j] == t[j],
    ensures
        augmentations_upto(s, ps, methods, accumulated, base, n) == augmentations_upto(t, ps, methods, accumulated, base, n),
    decreases n,
{
    if n > 0 {
        lemma_augmentations_prefix(s, t, ps, methods, accumulated, base, n - 1);
    }
}

proof fn lemma_unbooked_prefix(ps: Seq<(Interpolated, bool)>, m: int, n: int)
    requires
        0 <= m <= n <= ps.len(),
    ensures
        unbooked_of(ps.take(m)).len() <= unbooked_of(ps.take(n)).len(),
        forall|j: int| 0 <= j < unbooked_of(ps.take(m)).len() ==> unbooked_of(ps.take(m))[j] == unbooked_of(ps.take(n))[j],
    decreases n,
{
    if m < n {
        lemma_unbooked_prefix(ps, m, n - 1);
        assert(ps.take(n).drop_last() =~= ps.take(n - 1));
    }
}

/// The posting of a group keeps the index of its annotation.
proof fn lemma_costed_idx<T: Tolerance>(
    c: BookedOrUnbookedPosting,
    annotateds: Seq<AnnotatedPosting>,
    ps: Seq<PostingSpec>,
    tol: T,
    methods: BookingMethods,
    accumulated: Map<Seq<char>, Seq<Position>>,
    base: Map<Seq<char>, Seq<Position>>,
    k: int,
)
    requires
        costed_at(c, annotateds, ps, tol, methods, accumulated, base, k),
    ensures
        costed_idx(c) == annotateds[k].idx,
{
}

/// Booking a group of postings in `cur`, given the positions that earlier
/// groups left (`inv0`) and the residuals so far (`res0`), succeeds: its
/// reductions are booked, then its postings interpolated, the residual the
/// tolerance does not absorb kept for `cur`, and the postings not booked
/// added to the positions of their accounts.  `out` holds each posting of
/// the group, interpolated, with whether it was booked against existing
/// positions; `inv1` and `res1` are the positions and residuals after.
pub open spec fn group_succeeded<T: Tolerance>(
    date: Date,
    cur: String,
    annotateds: Seq<AnnotatedPosting>,
    ps: Seq<PostingSpec>,
    tol: T,
    methods: BookingMethods,
    base: Map<Seq<char>, Seq<Position>>,
    inv0: Map<Seq<char>, Seq<Position>>,
    res0: Map<Seq<char>, Dec>,
    out: Seq<(Interpolated, bool)>,
    inv1: Map<Seq<char>, Seq<Position>>,
    res1: Map<Seq<char>, Dec>,
) -> bool {
    match reductions_upto(annotateds, ps, tol, methods, inv0, base, annotateds.len() as int) {
        Err(e) => false,
        Ok(local) => {
            let inv_r = inv0.union_prefer_right(local);
            exists|costed: Seq<BookedOrUnbookedPosting>, interp: Interpolation|
                #![trigger interpolation_outcome(Ok(interp), date, cur, costed, ps, tol)]
                {
                    &&& costed.len() == annotateds.len()
                    &&& forall|k: int| 0 <= k < annotateds.len() ==> costed_at(#[trigger] costed[k], annotateds, ps, tol, methods, inv0, base, k)
                    &&& interpolation_outcome(Ok(interp), date, cur, costed, ps, tol)
                    &&& interp.booked_and_unbooked_postings@ == out
                    &&& res1 == (match interp.residual {
                        Some(x) => res0.insert(cur@, x),
                        None => res0,
                    })
                    &&& augmentations_upto(unbooked_of(out), ps, methods, inv_r, base, unbooked_of(out).len() as int) matches Ok(aug)
                        && inv1 == inv_r.union_prefer_right(aug)
                }
        },
    }
}

/// Booking a group of postings in `cur`, as [group_succeeded] describes,
/// fails with `e`: its reductions, its interpolation or its augmentations do.
pub open spec fn group_failed<T: Tolerance>(
    date: Date,
    cur: String,
    annotateds: Seq<AnnotatedPosting>,
    ps: Seq<PostingSpec>,
    tol: T,
    methods: BookingMethods,
    base: Map<Seq<char>, Seq<Position>>,
    inv0: Map<Seq<char>, Seq<Position>>,
    e: BookingError,
) -> bool {
    match reductions_upto(annotateds, ps, tol, methods, inv0, base, annotateds.len() as int) {
        Err(e1) => e1 == e,
        Ok(local) => {
            let inv_r = inv0.union_prefer_right(local);
            exists|costed: Seq<BookedOrUnbookedPosting>|
                #![trigger costed.len()]
                {
                    &&& costed.len() == annotateds.len()
                    &&& forall|k: int| 0 <= k < annotateds.len() ==> costed_at(#[trigger] costed[k], annotateds, ps, tol, methods, inv0, base, k)
                    &&& interpolation_outcome(Err(e), date, cur, costed, ps, tol) || exists|interp: Interpolation|
                        #![trigger interpolation_outcome(Ok(interp), date, cur, costed, ps, tol)]
                        {
                            &&& interpolation_outcome(Ok(interp), date, cur, costed, ps, tol)
                            &&& augmentations_upto(
                                unbooked_of(interp.booked_and_unbooked_postings@),
                                ps,
                                methods,
                                inv_r,
                                base,
                                unbooked_of(interp.booked_and_unbooked_postings@).len() as int,
                            ) == Err::<Map<Seq<char>, Seq<Position>>, BookingError>(e)
                        }
                }
        },
    }
}

/// Book the postings of the group of `cur`.
fn book_currency_group<T: Tolerance>(
    date: Date,
    cur: &String,
    annotated_postings: Vec<AnnotatedPosting>,
    postings: &Vec<PostingSpec>,
    tolerance: &T,
    inventory: &Inventory,
    methods: &BookingMethods,
    updated_inventory: &mut Inventory,
    residuals: &mut CurrencyNumbers,
) -> (r: Result<Vec<(Interpolated, bool)>, BookingError>)
    requires
        forall|k: int| 0 <= k < annotated_postings@.len() ==> (#[trigger] annotated_postings@[k]).idx < postings@.len(),
    ensures
        match r {
            Ok(v) => group_succeeded(
                date,
                *cur,
                annotated_postings@,
                postings@,
                *tolerance,
                *methods,
                inventory_map(*inventory),
                inventory_map(*old(updated_inventory)),
                currency_numbers_map(*old(residuals)),
                v@,
                inventory_map(*final(updated_inventory)),
                currency_numbers_map(*final(residuals)),
            ),
            Err(e) => group_failed(
                date,
                *cur,
                annotated_postings@,
                postings@,
                *tolerance,
                *methods,
                inventory_map(*inventory),
                inventory_map(*old(updated_inventory)),
                e,
            ),
        },
        r matches Ok(v) ==> v@.len() == annotated_postings@.len()
            && forall|k: int| 0 <= k < v@.len() ==> (#[trigger] v@[k]).0.idx == annotated_postings@[k].idx,
{
    let ghost anns = annotated_postings@;
    let ghost base = inventory_map(*inventory);
    let ghost inv0 = inventory_map(*updated_inventory);
    let ghost res0 = currency_numbers_map(*residuals);
    let Reductions { updated_inventory: updated_for_cur, postings: costed_postings } = book_reductions(
        annotated_postings,
        postings,
        tolerance,
        updated_inventory,
        inventory,
        methods,
    )?;
    let ghost local = inventory_map(updated_for_cur);
    let ghost costed = costed_postings@;
    incorporate_inventory_updates(updated_for_cur, updated_inventory);
    let ghost inv_r = inventory_map(*updated_inventory);
    proof {
        assert forall|i: int| 0 <= i < costed.len() implies costed_idx(#[trigger] costed[i]) < postings@.len() by {
            lemma_costed_idx(costed[i], anns, postings@, *tolerance, *methods, inv0, base, i);
        }
    }
    let result = interpolate_from_costed(date, cur, &costed_postings, postings, tolerance);
    match result {
        Err(e) => {
            proof {
                assert(costed.len() == anns.len());
            }
            Err(e)
        },
        Ok(interpolation) => {
            let ghost interp = interpolation;
            proof {
                assert forall|k: int| 0 <= k < interp.booked_and_unbooked_postings@.len() implies (#[trigger] interp.booked_and_unbooked_postings@[k]).0.idx == anns[k].idx by {
                    lemma_costed_idx(costed[k], anns, postings@, *tolerance, *methods, inv0, base, k);
                }
            }
            let Interpolation { booked_and_unbooked_postings, residual } = interpolation;
            match residual {
                Some(x) => {
                    residuals.insert(cur.clone(), x);
                },
                None => {},
            }
            let augmented = book_augmentations(&booked_and_unbooked_postings, postings, updated_inventory, inventory, methods);
            match augmented {
                Err(e) => Err(e),
                Ok(aug) => {
                    let ghost am = inventory_map(aug);
                    incorporate_inventory_updates(aug, updated_inventory);
                    Ok(booked_and_unbooked_postings)
                },
            }
        },
    }
}

/// The interpolated postings and updated inventory after booking all postings
/// in a transaction.
pub struct Bookings {
    pub interpolated_postings: Vec<Interpolated>,
    pub updated_inventory: Inventory,
}

/// The bookings, and the residual of each currency group that its tolerance
/// does not absorb.
pub struct BookingsAndResiduals {
    pub bookings: Bookings,
    pub residuals: CurrencyNumbers,
}

/// The positions updated so far, and the residuals so far.
pub type BookState = (Map<Seq<char>, Seq<Position>>, Map<Seq<char>, Dec>);

/// The first `k` groups booked in turn, from no updates and no residuals:
/// `hist` holds the state before each group (and after the last), `outs` the
/// booked postings of each.
pub open spec fn groups_booked_upto<T: Tolerance>(
    groups: Seq<(String, Vec<AnnotatedPosting>)>,
    date: Date,
    ps: Seq<PostingSpec>,
    tol: T,
    methods: BookingMethods,
    base: Map<Seq<char>, Seq<Position>>,
    hist: Seq<BookState>,
    outs: Seq<Seq<(Interpolated, bool)>>,
    k: int,
) -> bool {
    &&& 0 <= k <= groups.len()
    &&& hist.len() == k + 1
    &&& outs.len() == k
    &&& hist[0] == (Map::<Seq<char>, Seq<Position>>::empty(), Map::<Seq<char>, Dec>::empty())
    &&& forall|g: int|
        0 <= g < k ==> group_succeeded(
            date,
            (#[trigger] groups[g]).0,
            groups[g].1@,
            ps,
            tol,
            methods,
            base,
            hist[g].0,
            hist[g].1,
            outs[g],
            hist[g + 1].0,
            hist[g + 1].1,
        )
}

/// Booking the groups in the given order: each in turn, the first failure
/// failing; on success the positions and residuals after the last, and for
/// each posting of the transaction, by index, its booked posting.
pub open spec fn book_groups_outcome<T: Tolerance>(
    r: Result<BookingsAndResiduals, BookingError>,
    groups: Seq<(String, Vec<AnnotatedPosting>)>,
    date: Date,
    ps: Seq<PostingSpec>,
    tol: T,
    methods: BookingMethods,
    base: Map<Seq<char>, Seq<Position>>,
) -> bool {
    match r {
        Ok(br) => exists|hist: Seq<BookState>, outs: Seq<Seq<(Interpolated, bool)>>|
            {
                &&& #[trigger] groups_booked_upto(groups, date, ps, tol, methods, base, hist, outs, groups.len() as int)
                &&& inventory_map(br.bookings.updated_inventory) == hist[groups.len() as int].0
                &&& currency_numbers_map(br.residuals) == hist[groups.len() as int].1
                &&& br.bookings.interpolated_postings@.len() == ps.len()
                &&& forall|i: int| 0 <= i < ps.len() ==> (#[trigger] br.bookings.interpolated_postings@[i]).idx == i
                    && exists|g: int, j: int| 0 <= g < outs.len() && 0 <= j < outs[g].len() && (#[trigger] outs[g][j]).0 == br.bookings.interpolated_postings@[i]
            },
        Err(e) => exists|hist: Seq<BookState>, outs: Seq<Seq<(Interpolated, bool)>>, k: int|
            {
                &&& #[trigger] groups_booked_upto(groups, date, ps, tol, methods, base, hist, outs, k)
                &&& k < groups.len()
                &&& group_failed(date, groups[k].0, groups[k].1@, ps, tol, methods, base, hist[k].0, e)
            },
    }
}

/// Some group holds the posting of index `i`.
pub open spec fn listed(gs: Seq<(String, Vec<AnnotatedPosting>)>, i: usize) -> bool {
    exists|g: int, j: int| 0 <= g < gs.len() && 0 <= j < gs[g].1@.len() && (#[trigger] gs[g].1@[j]).idx == i
}

/// Book the groups in the given order.
fn book_groups<T: Tolerance>(
    groups: Vec<(String, Vec<AnnotatedPosting>)>,
    date: Date,
    postings: &Vec<PostingSpec>,
    tolerance: &T,
    inventory: &Inventory,
    methods: &BookingMethods,
) -> (r: Result<BookingsAndResiduals, BookingError>)
    requires
        forall|g: int, j: int| 0 <= g < groups@.len() && 0 <= j < groups@[g].1@.len() ==> (#[trigger] groups@[g].1@[j]).idx < postings@.len(),
        forall|i: usize| 0 <= i < postings@.len() ==> #[trigger] listed(groups@, i),
    ensures
        book_groups_outcome(r, groups@, date, postings@, *tolerance, *methods, inventory_map(*inventory)),
{
    let ghost gs = groups@;
    let ghost base = inventory_map(*inventory);
    let n = postings.len();
    let mut slots: Vec<Option<Interpolated>> = Vec::new();
    let mut i: usize = 0;
    while i < n
        invariant
            i <= n,
            slots@.len() == i,
            forall|j: int| 0 <= j < i ==> (#[trigger] slots@[j]) is None,
        decreases n - i,
    {
        slots.push(None);
        i = i + 1;
    }
    let mut updated_inventory = Inventory::empty();
    let mut residuals = CurrencyNumbers::empty();
    let ghost mut hist: Seq<BookState> = seq![(Map::<Seq<char>, Seq<Position>>::empty(), Map::<Seq<char>, Dec>::empty())];
    let ghost mut outs: Seq<Seq<(Interpolated, bool)>> = Seq::empty();
    let mut pending = groups;
    let ng = pending.len();
    let mut g: usize = 0;
    while g < ng
        invariant
            ng == gs.len(),
            n == postings@.len(),
            g <= ng,
            base == inventory_map(*inventory),
            gs == groups@,
            pending@ == gs.skip(g as int),
            forall|g: int, j: int| 0 <= g < gs.len() && 0 <= j < gs[g].1@.len() ==> (#[trigger] gs[g].1@[j]).idx < postings@.len(),
            slots@.len() == n,
            groups_booked_upto(gs, date, postings@, *tolerance, *methods, base, hist, outs, g as int),
            hist[g as int] == (inventory_map(updated_inventory), currency_numbers_map(residuals)),
            forall|i: int| 0 <= i < n && (#[trigger] slots@[i]) is Some ==> slots@[i].unwrap().idx == i
                && exists|g: int, j: int| 0 <= g < outs.len() && 0 <= j < outs[g].len() && (#[trigger] outs[g][j]).0 == slots@[i].unwrap(),
            forall|h: int, j: int| 0 <= h < g && 0 <= j < gs[h].1@.len() ==> (#[trigger] slots@[gs[h].1@[j].idx as int]) is Some,
        decreases ng - g,
    {
        let (cur, annotated_postings) = pending.remove(0);
        proof {
            assert(cur == gs[g as int].0 && annotated_postings == gs[g as int].1);
        }
        let ghost inv0 = inventory_map(updated_inventory);
        let ghost res0 = currency_numbers_map(residuals);
        let result = book_currency_group(
            date,
            &cur,
            annotated_postings,
            postings,
            tolerance,
            inventory,
            methods,
            &mut updated_inventory,
            &mut residuals,
        );
        match result {
            Err(e) => {
                proof {
                    assert(groups_booked_upto(gs, date, postings@, *tolerance, *methods, base, hist, outs, g as int));
                    assert(group_failed(date, gs[g as int].0, gs[g as int].1@, postings@, *tolerance, *methods, base, hist[g as int].0, e));
                }
                return Err(e);
            },
            Ok(v) => {
                let ghost out = v@;
                let ghost old_outs = outs;
                proof {
                    hist = hist.push((inventory_map(updated_inventory), currency_numbers_map(residuals)));
                    outs = outs.push(out);
                    assert forall|h: int| 0 <= h < g + 1 implies group_succeeded(
                        date,
                        (#[trigger] gs[h]).0,
                        gs[h].1@,
                        postings@,
                        *tolerance,
                        *methods,
                        base,
                        hist[h].0,
                        hist[h].1,
                        outs[h],
                        hist[h + 1].0,
                        hist[h + 1].1,
                    ) by {
                        if h < g {
                            assert(hist[h] == hist.drop_last()[h]);
                        }
                    }
                }
                proof {
                    assert forall|i: int| 0 <= i < n && (#[trigger] slots@[i]) is Some implies slots@[i].unwrap().idx == i
                        && exists|g: int, j: int| 0 <= g < outs.len() && 0 <= j < outs[g].len() && (#[trigger] outs[g][j]).0 == slots@[i].unwrap() by {
                        let (h, j) = choose|h: int, j: int| 0 <= h < old_outs.len() && 0 <= j < old_outs[h].len() && (#[trigger] old_outs[h][j]).0 == slots@[i].unwrap();
                        assert(outs[h] == old_outs[h]);
                        assert(outs[h][j] == old_outs[h][j]);
                    }
                }
                let mut v = v;
                let nv = v.len();
                let mut k: usize = 0;
                while k < nv
                    invariant
                        nv == out.len(),
                        g < gs.len(),
                        k <= nv,
                        n == postings@.len(),
                        v@ == out.skip(k as int),
                        outs.len() == g + 1,
                        outs[g as int] == out,
                        out.len() == gs[g as int].1@.len(),
                        forall|j: int| 0 <= j < out.len() ==> (#[trigger] out[j]).0.idx == gs[g as int].1@[j].idx,
                        forall|g: int, j: int| 0 <= g < gs.len() && 0 <= j < gs[g].1@.len() ==> (#[trigger] gs[g].1@[j]).idx < postings@.len(),
                        slots@.len() == n,
                        forall|i: int| 0 <= i < n && (#[trigger] slots@[i]) is Some ==> slots@[i].unwrap().idx == i
                            && exists|g: int, j: int| 0 <= g < outs.len() && 0 <= j < outs[g].len() && (#[trigger] outs[g][j]).0 == slots@[i].unwrap(),
                        forall|h: int, j: int| 0 <= h < g && 0 <= j < gs[h].1@.len() ==> (#[trigger] slots@[gs[h].1@[j].idx as int]) is Some,
                        forall|j: int| 0 <= j < k ==> (#[trigger] slots@[gs[g as int].1@[j].idx as int]) is Some,
                    decreases nv - k,
                {
                    let (p, _booked) = v.remove(0);
                    proof {
                        assert(p == out[k as int].0);
                        assert(p.idx == gs[g as int].1@[k as int].idx);
                        assert(gs[g as int].1@[k as int].idx < postings@.len());
                    }
                    let idx = p.idx;
                    let ghost old_slots = slots@;
                    slots.set(idx, Some(p));
                    proof {
                        assert forall|x: int| 0 <= x < n && x != idx implies slots@[x] == old_slots[x] by {}
                        assert forall|h: int, j: int| 0 <= h < g && 0 <= j < gs[h].1@.len() implies (#[trigger] slots@[gs[h].1@[j].idx as int]) is Some by {
                            if gs[h].1@[j].idx != idx {
                                assert(slots@[gs[h].1@[j].idx as int] == old_slots[gs[h].1@[j].idx as int]);
                            }
                        }
                        assert forall|j: int| 0 <= j < k + 1 implies (#[trigger] slots@[gs[g as int].1@[j].idx as int]) is Some by {
                            if gs[g as int].1@[j].idx != idx {
                                assert(slots@[gs[g as int].1@[j].idx as int] == old_slots[gs[g as int].1@[j].idx as int]);
                            }
                        }
                        assert forall|i: int| 0 <= i < n && (#[trigger] slots@[i]) is Some implies slots@[i].unwrap().idx == i
                            && exists|g: int, j: int| 0 <= g < outs.len() && 0 <= j < outs[g].len() && (#[trigger] outs[g][j]).0 == slots@[i].unwrap() by {
                            if i == idx {
                                assert(outs[g as int][k as int] == out[k as int]);
                                assert(outs[g as int][k as int].0 == slots@[i].unwrap());
                            }
                        }
                        assert(v@ =~= out.skip(k + 1));
                    }
                    k = k + 1;
                }
            },
        }
        g = g + 1;
        proof {
            assert(pending@ =~= gs.skip(g as int));
        }
    }
    // every posting is in some group, so every slot is filled
    let mut interpolated_postings: Vec<Interpolated> = Vec::new();
    let mut i: usize = 0;
    while i < n
        invariant
            n == postings@.len(),
            ng == gs.len(),
            i <= n,
            slots@.len() == n - i,
            interpolated_postings@.len() == i,
            forall|j: int| 0 <= j < i ==> (#[trigger] interpolated_postings@[j]).idx == j
                && exists|g: int, l: int| 0 <= g < outs.len() && 0 <= l < outs[g].len() && (#[trigger] outs[g][l]).0 == interpolated_postings@[j],
            forall|j: int| 0 <= j < n - i && (#[trigger] slots@[j]) is Some ==> slots@[j].unwrap().idx == j + i
                && exists|g: int, l: int| 0 <= g < outs.len() && 0 <= l < outs[g].len() && (#[trigger] outs[g][l]).0 == slots@[j].unwrap(),
            forall|h: int, j: int| 0 <= h < ng && 0 <= j < gs[h].1@.len() && gs[h].1@[j].idx >= i ==> (#[trigger] slots@[gs[h].1@[j].idx - i]) is Some,
            forall|g: int, j: int| 0 <= g < gs.len() && 0 <= j < gs[g].1@.len() ==> (#[trigger] gs[g].1@[j]).idx < postings@.len(),
            forall|i: usize| 0 <= i < postings@.len() ==> #[trigger] listed(gs, i),
        decreases n - i,
    {
        let ghost s0 = slots@;
        let slot = slots.remove(0);
        proof {
            assert(listed(gs, i));
            let (h, j) = choose|h: int, j: int| 0 <= h < gs.len() && 0 <= j < gs[h].1@.len() && (#[trigger] gs[h].1@[j]).idx == i;
            assert(s0[gs[h].1@[j].idx - i] is Some);
        }
        match slot {
            Some(p) => {
                interpolated_postings.push(p);
            },
            None => {
                assert(false);
                return Err(BookingError::Transaction(crate::errors::TransactionBookingError::TooManyMissingNumbers));
            },
        }
        proof {
            assert forall|h: int, j: int| 0 <= h < ng && 0 <= j < gs[h].1@.len() && gs[h].1@[j].idx >= i + 1 implies (#[trigger] slots@[gs[h].1@[j].idx - (i + 1)]) is Some by {
                assert(s0[gs[h].1@[j].idx - i] is Some);
                assert(slots@[gs[h].1@[j].idx - (i + 1)] == s0[gs[h].1@[j].idx - i]);
            }
            assert forall|j: int| 0 <= j < n - (i + 1) && (#[trigger] slots@[j]) is Some implies slots@[j].unwrap().idx == j + i + 1
                && exists|g: int, l: int| 0 <= g < outs.len() && 0 <= l < outs[g].len() && (#[trigger] outs[g][l]).0 == slots@[j].unwrap() by {
                assert(slots@[j] == s0[j + 1]);
            }
        }
        i = i + 1;
    }
    Ok(BookingsAndResiduals { bookings: Bookings { interpolated_postings, updated_inventory }, residuals })
}

/// The text of the residual of a currency: the amount that would balance it
/// and the currency.
pub open spec fn residual_text(cur: Seq<char>, residual: Dec) -> Seq<char> {
    decimal_text(dec_neg(residual)) + " "@ + cur
}

/// The texts of the residuals of the currencies, in order, separated by commas.
pub open spec fn residual_texts(m: Map<Seq<char>, Dec>, cs: Seq<Seq<char>>) -> Seq<char>
    decreases cs.len(),
{
    if cs.len() == 0 {
        Seq::empty()
    } else if cs.len() == 1 {
        residual_text(cs[0], m[cs[0]])
    } else {
        residual_texts(m, cs.drop_last()) + ", "@ + residual_text(cs.last(), m[cs.last()])
    }
}

/// `cs` lists the currencies of the map in order, each once.
pub open spec fn sorted_listing(cs: Seq<Seq<char>>, m: Map<Seq<char>, Dec>) -> bool {
    &&& forall|x: Seq<char>| #![trigger cs.contains(x)] #![trigger m.contains_key(x)] cs.contains(x) <==> m.contains_key(x)
    &&& forall|i: int, j: int| 0 <= i < j < cs.len() ==> str_order(#[trigger] cs[i], #[trigger] cs[j]) < 0
}

/// The entries are in strictly increasing order of currency.
pub open spec fn entries_sorted(es: Seq<(String, Dec)>) -> bool {
    forall|a: int, b: int| 0 <= a < b < es.len() ==> str_order((#[trigger] es[a]).0@, (#[trigger] es[b]).0@) < 0
}

/// Insert an entry in order into entries in order of currency, none with its currency.
fn insert_sorted(sorted: &mut Vec<(String, Dec)>, e: (String, Dec))
    requires
        entries_sorted(old(sorted)@),
        forall|i: int| 0 <= i < old(sorted)@.len() ==> (#[trigger] old(sorted)@[i]).0@ != e.0@,
    ensures
        entries_sorted(final(sorted)@),
        exists|p: int| 0 <= p <= old(sorted)@.len() && final(sorted)@ == old(sorted)@.insert(p, e),
{
    let mut p: usize = 0;
    while p < sorted.len() && compare_str(sorted[p].0.as_str(), e.0.as_str()) < 0
        invariant
            p <= sorted@.len(),
            forall|q: int| 0 <= q < p ==> str_order((#[trigger] sorted@[q]).0@, e.0@) < 0,
        decreases sorted@.len() - p,
    {
        p = p + 1;
    }
    proof {
        assert forall|q: int| p <= q < sorted@.len() implies str_order(e.0@, (#[trigger] sorted@[q]).0@) < 0 by {
            lemma_str_order_props(sorted@[p as int].0@, e.0@);
            lemma_str_order_props(sorted@[q].0@, e.0@);
            if q > p {
                lemma_str_order_trans(e.0@, sorted@[p as int].0@, sorted@[q].0@);
            }
        }
    }
    let ghost old_sorted = sorted@;
    sorted.insert(p, e);
    proof {
        assert forall|a: int, b: int| 0 <= a < b < sorted@.len() implies str_order((#[trigger] sorted@[a]).0@, (#[trigger] sorted@[b]).0@) < 0 by {
            if b < p {
                assert(sorted@[a] == old_sorted[a] && sorted@[b] == old_sorted[b]);
            } else if b == p {
                assert(sorted@[a] == old_sorted[a]);
            } else if a == p {
                assert(sorted@[b] == old_sorted[b - 1]);
            } else if a < p {
                assert(sorted@[a] == old_sorted[a] && sorted@[b] == old_sorted[b - 1]);
                lemma_str_order_trans(old_sorted[a].0@, e.0@, old_sorted[b - 1].0@);
            } else {
                assert(sorted@[a] == old_sorted[a - 1] && sorted@[b] == old_sorted[b - 1]);
            }
        }
    }
}

/// The currencies of the map, in order.
pub open spec fn sorted_currencies(m: Map<Seq<char>, Dec>) -> Seq<Seq<char>> {
    choose|cs: Seq<Seq<char>>| sorted_listing(cs, m)
}

/// What an unbalanced transaction reports: the residual of each currency, in
/// order of currency.
pub open spec fn unbalanced_message(m: Map<Seq<char>, Dec>) -> Seq<char> {
    residual_texts(m, sorted_currencies(m))
}

/// There is one listing of a map's currencies in order.
proof fn lemma_sorted_listing_unique(s1: Seq<Seq<char>>, s2: Seq<Seq<char>>, m: Map<Seq<char>, Dec>)
    requires
        sorted_listing(s1, m),
        sorted_listing(s2, m),
    ensures
        s1 == s2,
    decreases s1.len(),
{
    if s1.len() == 0 {
        if s2.len() > 0 {
            assert(s2.contains(s2[0]));
        }
        assert(s1 =~= s2);
    } else {
        let a = s1[0];
        assert(s1.contains(a));
        assert(s2.contains(a));
        let j = choose|j: int| 0 <= j < s2.len() && s2[j] == a;
        let b = s2[0];
        assert(s2.contains(b));
        let i = choose|i: int| 0 <= i < s1.len() && s1[i] == b;
        lemma_str_order_props(a, b);
        if j > 0 {
            assert(str_order(s2[0], s2[j]) < 0);
            if i > 0 {
                assert(str_order(s1[0], s1[i]) < 0);
            }
        }
        assert(a == b);
        let t1 = s1.drop_first();
        let t2 = s2.drop_first();
        let m1 = m.remove(a);
        assert forall|x: Seq<char>| t1.contains(x) <==> m1.contains_key(x) by {
            if t1.contains(x) {
                let p = choose|p: int| 0 <= p < t1.len() && t1[p] == x;
                assert(s1[p + 1] == x);
                assert(str_order(s1[0], s1[p + 1]) < 0);
                lemma_str_order_props(a, x);
                assert(s1.contains(x));
            }
            if m1.contains_key(x) {
                assert(s1.contains(x));
                let q = choose|q: int| 0 <= q < s1.len() && s1[q] == x;
                assert(q != 0);
                assert(t1[q - 1] == x);
            }
        }
        assert forall|x: Seq<char>| t2.contains(x) <==> m1.contains_key(x) by {
            if t2.contains(x) {
                let p = choose|p: int| 0 <= p < t2.len() && t2[p] == x;
                assert(s2[p + 1] == x);
                assert(str_order(s2[0], s2[p + 1]) < 0);
                lemma_str_order_props(a, x);
                assert(s2.contains(x));
            }
            if m1.contains_key(x) {
                assert(s2.contains(x));
                let q = choose|q: int| 0 <= q < s2.len() && s2[q] == x;
                assert(q != 0);
                assert(t2[q - 1] == x);
            }
        }
        assert forall|k: int, l: int| 0 <= k < l < t1.len() implies str_order(#[trigger] t1[k], #[trigger] t1[l]) < 0 by {
            assert(t1[k] == s1[k + 1] && t1[l] == s1[l + 1]);
        }
        assert forall|k: int, l: int| 0 <= k < l < t2.len() implies str_order(#[trigger] t2[k], #[trigger] t2[l]) < 0 by {
            assert(t2[k] == s2[k + 1] && t2[l] == s2[l + 1]);
        }
        lemma_sorted_listing_unique(t1, t2, m1);
        assert(s1 =~= s2) by {
            assert forall|k: int| 0 <= k < s1.len() implies s1[k] == s2[k] by {
                if k > 0 {
                    assert(s1[k] == t1[k - 1] && s2[k] == t2[k - 1]);
                }
            }
        }
    }
}

/// The message of an unbalanced transaction, from its residuals.
fn unbalanced(residuals: CurrencyNumbers) -> (r: String)
    ensures
        r@ == unbalanced_message(currency_numbers_map(residuals)),
{
    let ghost m = currency_numbers_map(residuals);
    let entries = residuals.into_entries();
    // sort by currency
    let mut sorted: Vec<(String, Dec)> = Vec::new();
    let mut k: usize = 0;
    assert(entries@.take(0) =~= Seq::<(String, Dec)>::empty());
    while k < entries.len()
        invariant
            k <= entries@.len(),
            entries_match(entries@, m),
            sorted@.len() == k,
            entries_sorted(sorted@),
            sorted@.to_multiset() == entries@.take(k as int).to_multiset(),
        decreases entries@.len() - k,
    {
        let e = (entries[k].0.clone(), entries[k].1);
        proof {
            sorted@.to_multiset_ensures();
            entries@.take(k as int).to_multiset_ensures();
            assert forall|i: int| 0 <= i < sorted@.len() implies (#[trigger] sorted@[i]).0@ != e.0@ by {
                assert(sorted@.contains(sorted@[i]));
                assert(sorted@.to_multiset().count(sorted@[i]) > 0);
                assert(entries@.take(k as int).to_multiset().count(sorted@[i]) > 0);
                assert(entries@.take(k as int).contains(sorted@[i]));
                let t = entries@.take(k as int);
                let j = choose|j: int| 0 <= j < t.len() && t[j] == sorted@[i];
                assert(entries@[j] == sorted@[i]);
            }
        }
        let ghost old_sorted = sorted@;
        insert_sorted(&mut sorted, e);
        proof {
            let p = choose|p: int| 0 <= p <= old_sorted.len() && sorted@ == old_sorted.insert(p, e);
            assert(entries@.take(k + 1) =~= entries@.take(k as int).push(entries@[k as int]));
            vstd::seq_lib::to_multiset_insert(old_sorted, p, e);
            entries@.take(k as int).to_multiset_ensures();
            assert(e == entries@[k as int]);
        }
        k = k + 1;
    }
    assert(entries@.take(k as int) =~= entries@);
    let ghost cs = sorted@.map_values(|e: (String, Dec)| e.0@);
    proof {
        sorted@.to_multiset_ensures();
        entries@.to_multiset_ensures();
        assert forall|i: int| 0 <= i < sorted@.len() implies entries@.contains(#[trigger] sorted@[i]) by {
            assert(sorted@.contains(sorted@[i]));
            assert(sorted@.to_multiset().count(sorted@[i]) > 0);
            assert(entries@.to_multiset().count(sorted@[i]) > 0);
        }
        assert forall|x: Seq<char>| cs.contains(x) <==> m.contains_key(x) by {
            if cs.contains(x) {
                let i = choose|i: int| 0 <= i < cs.len() && cs[i] == x;
                assert(entries@.contains(sorted@[i]));
                let j = choose|j: int| 0 <= j < entries@.len() && entries@[j] == sorted@[i];
                assert(m.contains_key(entries@[j].0@));
            }
            if m.contains_key(x) {
                let j = choose|j: int| 0 <= j < entries@.len() && entries@[j].0@ == x;
                assert(entries@.contains(entries@[j]));
                assert(entries@.to_multiset().count(entries@[j]) > 0);
                assert(sorted@.to_multiset().count(entries@[j]) > 0);
                assert(sorted@.contains(entries@[j]));
                let i = choose|i: int| 0 <= i < sorted@.len() && sorted@[i] == entries@[j];
                assert(cs[i] == x);
            }
        }
        assert forall|i: int, j: int| 0 <= i < j < cs.len() implies str_order(#[trigger] cs[i], #[trigger] cs[j]) < 0 by {
            assert(cs[i] == sorted@[i].0@ && cs[j] == sorted@[j].0@);
        }
        assert(sorted_listing(cs, m));
        lemma_sorted_listing_unique(cs, sorted_currencies(m), m);
    }
    let mut message = String::new();
    let mut i: usize = 0;
    while i < sorted.len()
        invariant
            i <= sorted@.len(),
            cs == sorted@.map_values(|e: (String, Dec)| e.0@),
            forall|i: int| 0 <= i < sorted@.len() ==> entries@.contains(#[trigger] sorted@[i]),
            entries_match(entries@, m),
            message@ == residual_texts(m, cs.take(i as int)),
        decreases sorted@.len() - i,
    {
        proof {
            assert(cs.take(i + 1).drop_last() =~= cs.take(i as int));
            assert(entries@.contains(sorted@[i as int]));
            let j = choose|j: int| 0 <= j < entries@.len() && entries@[j] == sorted@[i as int];
            assert(m.contains_key(entries@[j].0@));
            assert(m[entries@[j].0@] == entries@[j].1);
        }
        if i > 0 {
            message.append(", ");
        }
        let text = sorted[i].1.neg().to_text();
        message.append(text.as_str());
        message.append(" ");
        message.append(sorted[i].0.as_str());
        proof {
            assert(cs.take(i + 1).last() == sorted@[i as int].0@);
            if i == 0 {
                assert(message@ =~= residual_texts(m, cs.take(i + 1)));
            } else {
                assert(message@ =~= residual_texts(m, cs.take(i + 1)));
            }
        }
        i = i + 1;
    }
    assert(cs.take(i as int) =~= cs);
    message
}

/// Booking with the residuals: the postings categorized by currency (as
/// [categorized_as] says), then the groups booked in the order that the map
/// of groups gives.
pub open spec fn booked_with_residuals<T: Tolerance>(
    r: Result<BookingsAndResiduals, BookingError>,
    date: Date,
    ps: Seq<PostingSpec>,
    tol: T,
    methods: BookingMethods,
    base: Map<Seq<char>, Seq<Position>>,
) -> bool {
    exists|cat: Result<CurrencyGroups, BookingError>|
        #![trigger categorized_as(cat, ps, base)]
        {
            &&& categorized_as(cat, ps, base)
            &&& match cat {
                Err(e) => r == Err::<BookingsAndResiduals, BookingError>(e),
                Ok(cg) => exists|es: Seq<(String, Vec<AnnotatedPosting>)>|
                    #![trigger group_entries_match(es, currency_groups_map(cg), currency_group_keys(cg))]
                    {
                        &&& group_entries_match(es, currency_groups_map(cg), currency_group_keys(cg))
                        &&& book_groups_outcome(r, es, date, ps, tol, methods, base)
                    },
            }
        }
}

/// Book the postings, keeping the residuals of unbalanced currencies.
pub(crate) fn book_with_residuals<T: Tolerance>(
    date: Date,
    postings: &Vec<PostingSpec>,
    tolerance: &T,
    inventory: &Inventory,
    methods: &BookingMethods,
) -> (r: Result<BookingsAndResiduals, BookingError>)
    ensures
        booked_with_residuals(r, date, postings@, *tolerance, *methods, inventory_map(*inventory)),
{
    let categorized = categorize_by_currency(postings, inventory);
    let ghost cat = categorized;
    match categorized {
        Err(e) => {
            assert(categorized_as(cat, postings@, inventory_map(*inventory)));
            Err(e)
        },
        Ok(currency_groups) => {
            let ghost g = currency_groups_map(currency_groups);
            let ghost keys = currency_group_keys(currency_groups);
            let entries = currency_groups.into_entries();
            proof {
                let n = postings@.len();
                assert forall|h: int, j: int| 0 <= h < entries@.len() && 0 <= j < entries@[h].1@.len() implies (#[trigger] entries@[h].1@[j]).idx < postings@.len() by {
                    assert(g.contains_key(entries@[h].0@));
                    assert(g[entries@[h].0@][j] == entries@[h].1@[j]);
                }
                assert forall|i: usize| 0 <= i < postings@.len() implies #[trigger] listed(entries@, i) by {
                    assert(in_groups(g, i));
                    let (k, j) = choose|k: Seq<char>, j: int| g.contains_key(k) && 0 <= j < g[k].len() && (#[trigger] g[k][j]).idx == i;
                    let h = choose|h: int| 0 <= h < entries@.len() && entries@[h].0@ == k;
                    assert(entries@[h].1@[j] == g[k][j]);
                }
            }
            let r = book_groups(entries, date, postings, tolerance, inventory, methods);
            proof {
                assert(categorized_as(cat, postings@, inventory_map(*inventory)));
                assert(group_entries_match(entries@, g, keys));
            }
            r
        },
    }
}

/// Booking: as [booked_with_residuals], with a transaction that leaves any
/// residual failing as unbalanced, reporting the residuals.
pub open spec fn booked<T: Tolerance>(
    r: Result<Bookings, BookingError>,
    date: Date,
    ps: Seq<PostingSpec>,
    tol: T,
    methods: BookingMethods,
    base: Map<Seq<char>, Seq<Position>>,
) -> bool {
    exists|rr: Result<BookingsAndResiduals, BookingError>|
        #![trigger booked_with_residuals(rr, date, ps, tol, methods, base)]
        {
            &&& booked_with_residuals(rr, date, ps, tol, methods, base)
            &&& match rr {
                Err(e) => r == Err::<Bookings, BookingError>(e),
                Ok(br) => if currency_numbers_map(br.residuals) == no_currency_numbers() {
                    r == Ok::<Bookings, BookingError>(br.bookings)
                } else {
                    r matches Err(BookingError::Transaction(TransactionBookingError::Unbalanced(msg)))
                        && msg@ == unbalanced_message(currency_numbers_map(br.residuals))
                },
            }
        }
}

/// Book the postings for the given date, returning the updated inventory and
/// interpolated postings.  The interpolated postings are aligned with the
/// postings given: the one at each index is that posting's.
pub fn book<T: Tolerance>(
    date: Date,
    postings: &Vec<PostingSpec>,
    tolerance: &T,
    inventory: &Inventory,
    methods: &BookingMethods,
) -> (r: Result<Bookings, BookingError>)
    ensures
        booked(r, date, postings@, *tolerance, *methods, inventory_map(*inventory)),
        r matches Ok(b) ==> b.interpolated_postings@.len() == postings@.len()
            && forall|i: int| 0 <= i < postings@.len() ==> (#[trigger] b.interpolated_postings@[i]).idx == i,
{
    let result = book_with_residuals(date, postings, tolerance, inventory, methods);
    let ghost rr = result;
    match result {
        Err(e) => {
            assert(booked_with_residuals(rr, date, postings@, *tolerance, *methods, inventory_map(*inventory)));
            Err(e)
        },
        Ok(BookingsAndResiduals { bookings, residuals }) => {
            proof {
                assert(booked_with_residuals(rr, date, postings@, *tolerance, *methods, inventory_map(*inventory)));
                let cat = choose|cat: Result<CurrencyGroups, BookingError>| #![trigger categorized_as(cat, postings@, inventory_map(*inventory))] {
                    &&& categorized_as(cat, postings@, inventory_map(*inventory))
                    &&& match cat {
                        Err(e) => rr == Err::<BookingsAndResiduals, BookingError>(e),
                        Ok(cg) => exists|es: Seq<(String, Vec<AnnotatedPosting>)>|
                            #![trigger group_entries_match(es, currency_groups_map(cg), currency_group_keys(cg))]
                            {
                                &&& group_entries_match(es, currency_groups_map(cg), currency_group_keys(cg))
                                &&& book_groups_outcome(rr, es, date, postings@, *tolerance, *methods, inventory_map(*inventory))
                            },
                    }
                };
            }
            if residuals.is_empty() {
                Ok(bookings)
            } else {
                let message = unbalanced(residuals);
                Err(BookingError::Transaction(TransactionBookingError::Unbalanced(message)))
            }
        },
    }
}

} // verus!
