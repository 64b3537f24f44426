//! The positions held in an account, and how a posting accumulates into them.
use vstd::prelude::*;

use crate::collections::{currency_numbers_map, CurrencyNumbers};
use crate::decimal::{add_is_exact, decimal_checked_add, Dec};
use crate::errors::PostingBookingError;
use crate::order::{compare_str, lemma_str_order_props, lemma_str_order_trans, str_order};
use crate::types::{
    compare_cost, cost_order, lemma_cost_order_props, lemma_cost_order_trans, Booking, Cost,
    Position,
};

verus! {

/// Where a position of `p_currency` and `p_cost` sorts relative to a target of
/// `currency` and `cost`, for booking `method`: by currency, then without cost
/// before with cost; costs are ordered among themselves, except for method
/// `NoneBooking`, which puts every new cost after every existing one.
pub open spec fn key_order(
    method: Booking,
    p_currency: Seq<char>,
    p_cost: Option<Cost>,
    currency: Seq<char>,
    cost: Option<Cost>,
) -> int {
    let c = str_order(p_currency, currency);
    if c != 0 {
        c
    } else {
        match (p_cost, cost) {
            (None, None) => 0,
            (Some(_), None) => 1,
            (None, Some(_)) => -1,
            (Some(a), Some(b)) => if method == Booking::NoneBooking {
                -1
            } else {
                cost_order(a, b)
            },
        }
    }
}

/// Where a position sorts relative to another, for `method`.
pub open spec fn position_order(method: Booking, p: Position, q: Position) -> int {
    key_order(method, p.currency@, p.cost, q.currency@, q.cost)
}

/// Positions are in the order that accumulating with `method` keeps: each
/// sorts strictly before every later one.  For every method this means sorted
/// by currency, with at most one position without cost per currency, placed
/// before those with cost; for the methods other than `NoneBooking`, positions
/// with cost are also sorted by cost, no two with the same cost.
pub open spec fn sorted_for(method: Booking, ps: Seq<Position>) -> bool {
    forall|i: int, j: int| 0 <= i < j < ps.len() ==> position_order(method, #[trigger] ps[i], #[trigger] ps[j]) < 0
}

/// The position with `units` added at index `i`.
pub open spec fn merged_at(old: Seq<Position>, new: Seq<Position>, i: int, units: Dec) -> bool {
    &&& 0 <= i < old.len()
    &&& decimal_checked_add(old[i].units, units) is Some
    &&& new == old.update(i, Position { units: decimal_checked_add(old[i].units, units).unwrap(), ..old[i] })
}

/// If `p` sorts before `q` and `q` not after the target, then `p` sorts before
/// the target; and if `p` sorts before `q` and not before the target, then
/// `q` sorts after the target.
proof fn lemma_key_order_trans(method: Booking, p: Position, q: Position, currency: Seq<char>, cost: Option<Cost>)
    requires
        position_order(method, p, q) < 0,
    ensures
        key_order(method, q.currency@, q.cost, currency, cost) <= 0 ==> key_order(
            method,
            p.currency@,
            p.cost,
            currency,
            cost,
        ) < 0,
        key_order(method, p.currency@, p.cost, currency, cost) >= 0 ==> key_order(
            method,
            q.currency@,
            q.cost,
            currency,
            cost,
        ) > 0,
{
    lemma_str_order_props(p.currency@, q.currency@);
    lemma_str_order_props(q.currency@, currency);
    lemma_str_order_props(p.currency@, currency);
    if str_order(p.currency@, q.currency@) <= 0 && str_order(q.currency@, currency) <= 0 {
        lemma_str_order_trans(p.currency@, q.currency@, currency);
    }
    if str_order(currency, p.currency@) <= 0 && str_order(p.currency@, q.currency@) <= 0 {
        lemma_str_order_trans(currency, p.currency@, q.currency@);
    }
    if let (Some(a), Some(b), Some(c)) = (p.cost, q.cost, cost) {
        lemma_cost_order_props(a, b);
        lemma_cost_order_props(b, c);
        lemma_cost_order_props(a, c);
        if cost_order(a, b) <= 0 && cost_order(b, c) <= 0 {
            lemma_cost_order_trans(a, b, c);
        }
        if cost_order(c, a) <= 0 && cost_order(a, b) <= 0 {
            lemma_cost_order_trans(c, a, b);
        }
    }
}

/// Where a binary search of the positions between `lo` and `hi` for a target
/// ends: `Ok` at a position with the target's key, or `Err` where the target
/// would go.  On positions sorted for `method` this is the position with the
/// key if there is one, else the place before every position that sorts after
/// the target.
pub open spec fn search_outcome(
    ps: Seq<Position>,
    method: Booking,
    currency: Seq<char>,
    cost: Option<Cost>,
    lo: int,
    hi: int,
) -> Result<int, int>
    decreases hi - lo,
{
    if lo >= hi {
        Err(lo)
    } else {
        let mid = lo + (hi - lo) / 2;
        let c = key_order(method, ps[mid].currency@, ps[mid].cost, currency, cost);
        if c == 0 {
            Ok(mid)
        } else if c < 0 {
            search_outcome(ps, method, currency, cost, mid + 1, hi)
        } else {
            search_outcome(ps, method, currency, cost, lo, mid)
        }
    }
}

/// What accumulating `units` of `currency` at `cost` into the positions
/// gives: the units added to the position found with the same key (an
/// overflow fails), or a new position where the search ends.
pub open spec fn accumulate_outcome(
    ps: Seq<Position>,
    units: Dec,
    currency: String,
    cost: Option<Cost>,
    method: Booking,
) -> Result<Seq<Position>, PostingBookingError> {
    match search_outcome(ps, method, currency@, cost, 0, ps.len() as int) {
        Ok(i) => match decimal_checked_add(ps[i].units, units) {
            Some(u) => Ok(ps.update(i, Position { units: u, ..ps[i] })),
            None => Err(PostingBookingError::NumberOverflow),
        },
        Err(i) => Ok(ps.insert(i, Position { units, currency, cost })),
    }
}

/// The total units of each currency among the first `n` positions, by
/// currency; `None` where a sum overflows.
pub open spec fn units_upto(ps: Seq<Position>, n: int) -> Option<Map<Seq<char>, Dec>>
    decreases n,
{
    if n <= 0 {
        Some(Map::empty())
    } else {
        match units_upto(ps, n - 1) {
            None => None,
            Some(m) => {
                let p = ps[n - 1];
                if m.contains_key(p.currency@) {
                    match decimal_checked_add(m[p.currency@], p.units) {
                        Some(u) => Some(m.insert(p.currency@, u)),
                        None => None,
                    }
                } else {
                    Some(m.insert(p.currency@, p.units))
                }
            },
        }
    }
}

proof fn lemma_units_none_stays(ps: Seq<Position>, k: int, n: int)
    requires
        0 <= k <= n,
        units_upto(ps, k) is None,
    ensures
        units_upto(ps, n) is None,
    decreases n - k,
{
    if k < n {
        lemma_units_none_stays(ps, k + 1, n);
    }
}

/// The sum of the values of the units of the positions in `currency`.
pub open spec fn currency_units_total(ps: Seq<Position>, currency: Seq<char>) -> int
    decreases ps.len(),
{
    if ps.len() == 0 {
        0
    } else {
        currency_units_total(ps.drop_last(), currency) + units_in(ps.last(), currency)
    }
}

/// The value of a position's units if it is in `currency`, else zero.
pub open spec fn units_in(p: Position, currency: Seq<char>) -> int {
    if p.currency@ == currency {
        p.units.value()
    } else {
        0
    }
}

pub(crate) proof fn lemma_total_insert(ps: Seq<Position>, i: int, p: Position, c: Seq<char>)
    requires
        0 <= i <= ps.len(),
    ensures
        currency_units_total(ps.insert(i, p), c) == currency_units_total(ps, c) + units_in(p, c),
    decreases ps.len(),
{
    if i == ps.len() {
        assert(ps.insert(i, p).drop_last() =~= ps);
    } else {
        lemma_total_insert(ps.drop_last(), i, p, c);
        assert(ps.insert(i, p).drop_last() =~= ps.drop_last().insert(i, p));
    }
}

pub(crate) proof fn lemma_total_update(ps: Seq<Position>, i: int, p: Position, c: Seq<char>)
    requires
        0 <= i < ps.len(),
    ensures
        currency_units_total(ps.update(i, p), c) == currency_units_total(ps, c) - units_in(ps[i], c)
            + units_in(p, c),
    decreases ps.len(),
{
    if i == ps.len() - 1 {
        assert(ps.update(i, p).drop_last() =~= ps.drop_last());
    } else {
        lemma_total_update(ps.drop_last(), i, p, c);
        assert(ps.update(i, p).drop_last() =~= ps.drop_last().update(i, p));
    }
}

/// Three-way comparison of a position with a target, for `method`.
fn compare_key(method: Booking, p: &Position, currency: &String, cost: &Option<Cost>) -> (r: i8)
    ensures
        r == key_order(method, p.currency@, p.cost, currency@, *cost),
{
    let c = compare_str(p.currency.as_str(), currency.as_str());
    if c != 0 {
        return c;
    }
    match (&p.cost, cost) {
        (None, None) => 0,
        (Some(_), None) => 1,
        (None, Some(_)) => -1,
        (Some(a), Some(b)) => {
            if method == Booking::NoneBooking {
                -1
            } else {
                compare_cost(a, b)
            }
        },
    }
}

/// The list of positions for an account.
#[derive(Clone, Debug)]
pub struct Positions(Vec<Position>);

impl View for Positions {
    type V = Seq<Position>;

    closed spec fn view(&self) -> Seq<Position> {
        self.0@
    }
}

impl Default for Positions {
    fn default() -> (r: Positions)
        ensures
            r@ == Seq::<Position>::empty(),
    {
        Positions(Vec::new())
    }
}

impl Positions {
    /// Positions as given; they keep whatever order they have.
    pub(crate) fn from_previous(positions: Vec<Position>) -> (r: Positions)
        ensures
            r@ == positions@,
    {
        Positions(positions)
    }

    /// The positions, in order.
    pub fn as_vec(&self) -> (r: &Vec<Position>)
        ensures
            r@ == self@,
    {
        &self.0
    }

    /// The positions, in order, consuming the list.
    pub fn into_vec(self) -> (r: Vec<Position>)
        ensures
            r@ == self@,
    {
        self.0
    }

    /// There are no more positions than a `usize` counts.
    pub proof fn lemma_len_bound(&self)
        ensures
            self@.len() <= usize::MAX,
    {
        assert(self.0@.len() == self.0.len());
    }

    /// The total units of each currency; `None` where a sum overflows.
    pub fn units(&self) -> (r: Option<CurrencyNumbers>)
        ensures
            match units_upto(self@, self@.len() as int) {
                None => r is None,
                Some(m) => r matches Some(c) && currency_numbers_map(c) == m,
            },
    {
        let mut units_by_currency = CurrencyNumbers::empty();
        let mut i: usize = 0;
        while i < self.0.len()
            invariant
                i <= self.0@.len(),
                units_upto(self.0@, i as int) == Some(currency_numbers_map(units_by_currency)),
            decreases self.0@.len() - i,
        {
            let p = &self.0[i];
            match units_by_currency.get(&p.currency) {
                Some(u) => {
                    match u.checked_add(&p.units) {
                        Some(sum) => {
                            units_by_currency.insert(p.currency.clone(), sum);
                        },
                        None => {
                            proof {
                                lemma_units_none_stays(self.0@, i + 1, self.0@.len() as int);
                            }
                            return None;
                        },
                    }
                },
                None => {
                    units_by_currency.insert(p.currency.clone(), p.units);
                },
            }
            i = i + 1;
        }
        Some(units_by_currency)
    }

    /// The number of positions.
    pub fn len(&self) -> (r: usize)
        ensures
            r == self@.len(),
    {
        self.0.len()
    }

    /// Whether there are no positions.
    pub fn is_empty(&self) -> (r: bool)
        ensures
            r == (self@.len() == 0),
    {
        self.0.len() == 0
    }

    /// A copy of the list.
    pub fn duplicate(&self) -> (r: Positions)
        ensures
            r@ == self@,
    {
        let mut v: Vec<Position> = Vec::new();
        let mut i: usize = 0;
        while i < self.0.len()
            invariant
                i <= self.0@.len(),
                v@ == self.0@.subrange(0, i as int),
            decreases self.0@.len() - i,
        {
            v.push(self.0[i].duplicate());
            i = i + 1;
            assert(v@ =~= self.0@.subrange(0, i as int));
        }
        assert(v@ =~= self.0@);
        Positions(v)
    }

    /// Search the positions for a target key, as a binary search does: `Ok`
    /// with an index whose key equals the target's, or `Err` with where the
    /// target would go.
    fn search(&self, method: Booking, currency: &String, cost: &Option<Cost>) -> (r: Result<usize, usize>)
        ensures
            match (r, search_outcome(self@, method, currency@, *cost, 0, self@.len() as int)) {
                (Ok(i), Ok(j)) => i == j,
                (Err(i), Err(j)) => i == j,
                _ => false,
            },
            match r {
                Ok(i) => i < self@.len() && key_order(method, self@[i as int].currency@, self@[i as int].cost, currency@, *cost) == 0,
                Err(i) => i <= self@.len(),
            },
            sorted_for(method, self@) ==> match r {
                Ok(i) => true,
                Err(i) => {
                    &&& forall|j: int| 0 <= j < i ==> key_order(method, #[trigger] self@[j].currency@, self@[j].cost, currency@, *cost) < 0
                    &&& forall|j: int| i <= j < self@.len() ==> key_order(method, #[trigger] self@[j].currency@, self@[j].cost, currency@, *cost) > 0
                },
            },
    {
        let ghost ps = self@;
        let mut lo: usize = 0;
        let mut hi: usize = self.0.len();
        while lo < hi
            invariant
                ps == self.0@,
                lo <= hi <= ps.len(),
                search_outcome(ps, method, currency@, *cost, lo as int, hi as int) == search_outcome(ps, method, currency@, *cost, 0, ps.len() as int),
                sorted_for(method, ps) ==> forall|j: int| 0 <= j < lo ==> key_order(method, #[trigger] ps[j].currency@, ps[j].cost, currency@, *cost) < 0,
                sorted_for(method, ps) ==> forall|j: int| hi <= j < ps.len() ==> key_order(method, #[trigger] ps[j].currency@, ps[j].cost, currency@, *cost) > 0,
            decreases hi - lo,
        {
            let mid = lo + (hi - lo) / 2;
            let c = compare_key(method, &self.0[mid], currency, cost);
            if c == 0 {
                return Ok(mid);
            } else if c < 0 {
                proof {
                    if sorted_for(method, ps) {
                        assert forall|j: int| 0 <= j < mid + 1 implies key_order(method, #[trigger] ps[j].currency@, ps[j].cost, currency@, *cost) < 0 by {
                            if j < mid {
                                lemma_key_order_trans(method, ps[j], ps[mid as int], currency@, *cost);
                            }
                        }
                    }
                }
                lo = mid + 1;
            } else {
                proof {
                    if sorted_for(method, ps) {
                        assert forall|j: int| mid <= j < ps.len() implies key_order(method, #[trigger] ps[j].currency@, ps[j].cost, currency@, *cost) > 0 by {
                            if j > mid {
                                lemma_key_order_trans(method, ps[mid as int], ps[j], currency@, *cost);
                            }
                        }
                    }
                }
                hi = mid;
            }
        }
        Err(lo)
    }

    /// Accumulate `units` of `currency` at `cost` into the positions, as
    /// booking method `method` does: into the position with the same
    /// currency and cost if there is one, else as a new position where its
    /// order puts it.  Fails, leaving the positions as they were, only where
    /// the sum of units does not fit in a decimal.  Where the sum is exact,
    /// the total units of `currency` grow by `units` and those of every other
    /// currency stay as they were.
    pub fn accumulate(&mut self, units: Dec, currency: String, cost: Option<Cost>, method: Booking) -> (r: Result<(), PostingBookingError>)
        requires
            method != Booking::Average,
        ensures
            match accumulate_outcome(old(self)@, units, currency, cost, method) {
                Ok(ps) => r is Ok && final(self)@ == ps,
                Err(e) => r == Err::<(), PostingBookingError>(e) && final(self)@ == old(self)@,
            },
            r is Err ==> r == Err::<(), PostingBookingError>(PostingBookingError::NumberOverflow) && final(self)@ == old(self)@
                && exists|i: int| 0 <= i < old(self)@.len() && key_order(method, old(self)@[i].currency@, old(self)@[i].cost, currency@, cost) == 0
                    && decimal_checked_add(old(self)@[i].units, units) is None,
            r is Ok ==> (exists|i: int| key_order(method, old(self)@[i].currency@, old(self)@[i].cost, currency@, cost) == 0
                && merged_at(old(self)@, final(self)@, i, units))
                || (exists|i: int| 0 <= i <= old(self)@.len() && final(self)@ == old(self)@.insert(i, Position { units, currency, cost })),
            sorted_for(method, old(self)@) ==> {
                &&& forall|i: int| 0 <= i < old(self)@.len() && key_order(method, old(self)@[i].currency@, old(self)@[i].cost, currency@, cost) == 0
                    ==> (decimal_checked_add(old(self)@[i].units, units) is Some <==> r is Ok)
                    && (r is Ok ==> merged_at(old(self)@, final(self)@, i, units))
                &&& (forall|i: int| 0 <= i < old(self)@.len() ==> key_order(method, old(self)@[i].currency@, old(self)@[i].cost, currency@, cost) != 0)
                    ==> r is Ok && exists|i: int| 0 <= i <= old(self)@.len() && final(self)@ == old(self)@.insert(i, Position { units, currency, cost })
                        && (forall|j: int| 0 <= j < i ==> key_order(method, old(self)@[j].currency@, old(self)@[j].cost, currency@, cost) < 0)
                        && (forall|j: int| i <= j < old(self)@.len() ==> key_order(method, old(self)@[j].currency@, old(self)@[j].cost, currency@, cost) > 0)
                &&& r is Ok ==> sorted_for(method, final(self)@)
            },
            r is Ok && (forall|i: int| 0 <= i < old(self)@.len() && key_order(method, old(self)@[i].currency@, old(self)@[i].cost, currency@, cost) == 0
                ==> add_is_exact(old(self)@[i].units, units))
                ==> forall|c: Seq<char>| #[trigger] currency_units_total(final(self)@, c) == currency_units_total(old(self)@, c)
                    + if c == currency@ { units.value() } else { 0 },
    {
        let ghost ps = self@;
        match self.search(method, &currency, &cost) {
            Ok(i) => {
                let p = self.0[i].with_accumulated(units);
                match p {
                    Some(p) => {
                        self.0.set(i, p);
                        proof {
                            assert(self.0@ =~= ps.update(i as int, Position { units: decimal_checked_add(ps[i as int].units, units).unwrap(), ..ps[i as int] }));
                            assert(merged_at(ps, self@, i as int, units));
                            assert(key_order(method, ps[i as int].currency@, ps[i as int].cost, currency@, cost) == 0);
                            lemma_str_order_props(ps[i as int].currency@, currency@);
                            assert forall|c: Seq<char>| #[trigger] currency_units_total(self@, c) == currency_units_total(ps, c)
                                + units_in(p, c) - units_in(ps[i as int], c) by {
                                lemma_total_update(ps, i as int, p, c);
                            }
                            if sorted_for(method, ps) {
                                lemma_unique_key(method, ps, i as int, currency@, cost);
                                assert forall|a: int, b: int| 0 <= a < b < self.0@.len() implies position_order(method, #[trigger] self.0@[a], #[trigger] self.0@[b]) < 0 by {
                                    assert(position_order(method, ps[a], ps[b]) < 0);
                                }
                            }
                        }
                        Ok(())
                    },
                    None => {
                        proof {
                            if sorted_for(method, ps) {
                                lemma_unique_key(method, ps, i as int, currency@, cost);
                            }
                        }
                        Err(PostingBookingError::NumberOverflow)
                    },
                }
            },
            Err(i) => {
                let ghost new_pos = Position { units, currency, cost };
                self.0.insert(i, Position { units, currency, cost });
                proof {
                    assert(self.0@ == ps.insert(i as int, new_pos));
                    assert forall|c: Seq<char>| #[trigger] currency_units_total(self@, c) == currency_units_total(ps, c)
                        + units_in(new_pos, c) by {
                        lemma_total_insert(ps, i as int, new_pos, c);
                    }
                    if sorted_for(method, ps) {
                        assert forall|a: int, b: int| 0 <= a < b < self.0@.len() implies position_order(method, #[trigger] self.0@[a], #[trigger] self.0@[b]) < 0 by {
                            if b < i {
                                assert(self.0@[a] == ps[a] && self.0@[b] == ps[b]);
                            } else if b == i {
                                assert(self.0@[a] == ps[a]);
                            } else if a == i {
                                assert(self.0@[b] == ps[b - 1]);
                                lemma_key_order_flip(method, ps[b - 1], new_pos);
                            } else if a < i {
                                assert(self.0@[a] == ps[a] && self.0@[b] == ps[b - 1]);
                            } else {
                                assert(self.0@[a] == ps[a - 1] && self.0@[b] == ps[b - 1]);
                            }
                        }
                    }
                }
                Ok(())
            },
        }
    }
}

/// In positions sorted for `method`, at most one has a given key.
proof fn lemma_unique_key(method: Booking, ps: Seq<Position>, i: int, currency: Seq<char>, cost: Option<Cost>)
    requires
        sorted_for(method, ps),
        0 <= i < ps.len(),
        key_order(method, ps[i].currency@, ps[i].cost, currency, cost) == 0,
    ensures
        forall|j: int| 0 <= j < ps.len() && key_order(method, ps[j].currency@, ps[j].cost, currency, cost) == 0 ==> j == i,
{
    assert forall|j: int| 0 <= j < ps.len() && key_order(method, ps[j].currency@, ps[j].cost, currency, cost) == 0 implies j == i by {
        if j < i {
            lemma_key_order_trans(method, ps[j], ps[i], currency, cost);
        } else if j > i {
            lemma_key_order_trans(method, ps[i], ps[j], currency, cost);
        }
    }
}

/// A position that sorts after a target sorts after the position the target makes.
proof fn lemma_key_order_flip(method: Booking, p: Position, t: Position)
    requires
        key_order(method, p.currency@, p.cost, t.currency@, t.cost) > 0,
    ensures
        position_order(method, t, p) < 0,
{
    lemma_str_order_props(p.currency@, t.currency@);
    if let (Some(a), Some(b)) = (p.cost, t.cost) {
        lemma_cost_order_props(a, b);
    }
}

} // verus!
