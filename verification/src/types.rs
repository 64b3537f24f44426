//! The public types of booking: dates, costs, prices, positions and the
//! specifications of postings.
use vstd::hash_map::StringHashMap;
use vstd::prelude::*;

use crate::decimal::{Dec, Number};
use crate::order::{
    compare_opt_str, compare_str, copy_opt_str, lemma_opt_str_order_props, lemma_opt_str_order_trans,
    lemma_str_order_props, lemma_str_order_trans, opt_str_order, opt_str_same, same_opt_str,
    str_order,
};

verus! {

/// Three-way order on integers.
pub open spec fn int_order(x: int, y: int) -> int {
    if x < y {
        -1
    } else if x > y {
        1
    } else {
        0
    }
}

/// Three-way order on booleans, `false` first.
pub open spec fn bool_order(x: bool, y: bool) -> int {
    if x == y {
        0
    } else if !x {
        -1
    } else {
        1
    }
}

/// A calendar date.
#[derive(Clone, Copy, Debug, PartialEq, Eq, Structural)]
pub struct Date {
    pub year: i32,
    pub month: u8,
    pub day: u8,
}

/// Dates are ordered by year, then month, then day.
pub open spec fn date_order(a: Date, b: Date) -> int {
    if a.year != b.year {
        int_order(a.year as int, b.year as int)
    } else if a.month != b.month {
        int_order(a.month as int, b.month as int)
    } else {
        int_order(a.day as int, b.day as int)
    }
}

/// Three-way comparison of dates.
pub fn compare_date(a: &Date, b: &Date) -> (r: i8)
    ensures
        r == date_order(*a, *b),
{
    if a.year != b.year {
        if a.year < b.year {
            -1
        } else {
            1
        }
    } else if a.month != b.month {
        if a.month < b.month {
            -1
        } else {
            1
        }
    } else if a.day < b.day {
        -1
    } else if a.day > b.day {
        1
    } else {
        0
    }
}

/// The booking method for an account.
#[derive(PartialEq, Eq, Clone, Copy, Debug, Structural)]
pub enum Booking {
    Strict,
    StrictWithSize,
    NoneBooking,
    Average,
    Fifo,
    Lifo,
    Hifo,
}

impl Default for Booking {
    fn default() -> (r: Booking)
        ensures
            r == Booking::Strict,
    {
        Booking::Strict
    }
}

impl Booking {
    /// The name of the method.
    pub fn name(&self) -> (r: String)
        ensures
            r@ == booking_name(*self),
    {
        match self {
            Booking::Strict => String::from_str("Strict"),
            Booking::StrictWithSize => String::from_str("StrictWithSize"),
            Booking::NoneBooking => String::from_str("None"),
            Booking::Average => String::from_str("Average"),
            Booking::Fifo => String::from_str("Fifo"),
            Booking::Lifo => String::from_str("Lifo"),
            Booking::Hifo => String::from_str("Hifo"),
        }
    }
}

/// The name of a booking method.
pub open spec fn booking_name(b: Booking) -> Seq<char> {
    match b {
        Booking::Strict => "Strict"@,
        Booking::StrictWithSize => "StrictWithSize"@,
        Booking::NoneBooking => "None"@,
        Booking::Average => "Average"@,
        Booking::Fifo => "Fifo"@,
        Booking::Lifo => "Lifo"@,
        Booking::Hifo => "Hifo"@,
    }
}

/// Whether a booking method is supported: every method but `Average`.
pub open spec fn supported_method(method: Booking) -> bool {
    method != Booking::Average
}

/// Whether the given booking method is supported by this crate.
pub fn is_supported_method(method: Booking) -> (r: bool)
    ensures
        r == supported_method(method),
{
    match method {
        Booking::Strict => true,
        Booking::StrictWithSize => true,
        Booking::NoneBooking => true,
        Booking::Average => false,
        Booking::Fifo => true,
        Booking::Lifo => true,
        Booking::Hifo => true,
    }
}

/// The booking method of each account, by name, with a default for accounts
/// not named; every method held is supported.
pub struct BookingMethods {
    methods: StringHashMap<Booking>,
    default: Booking,
}

impl BookingMethods {
    #[verifier::type_invariant]
    spec fn all_supported(self) -> bool {
        &&& supported_method(self.default)
        &&& forall|a: Seq<char>| #[trigger] self.methods@.contains_key(a) ==> supported_method(self.methods@[a])
    }

    /// The booking method of an account.
    pub closed spec fn spec_method(self, account: Seq<char>) -> Booking {
        if self.methods@.contains_key(account) {
            self.methods@[account]
        } else {
            self.default
        }
    }

    /// Every account booked by the default method.
    pub fn new(default: Booking) -> (r: BookingMethods)
        requires
            supported_method(default),
        ensures
            forall|a: Seq<char>| #[trigger] r.spec_method(a) == default,
    {
        BookingMethods { methods: StringHashMap::new(), default }
    }

    /// The methods, with the account booked by the given method.
    pub fn with_method(self, account: String, method: Booking) -> (r: BookingMethods)
        requires
            supported_method(method),
        ensures
            forall|a: Seq<char>| #[trigger] r.spec_method(a) == (if a == account@ {
                method
            } else {
                self.spec_method(a)
            }),
    {
        proof {
            use_type_invariant(&self);
        }
        let BookingMethods { mut methods, default } = self;
        methods.insert(account, method);
        BookingMethods { methods, default }
    }

    /// The booking method of the account, which is supported.
    pub fn method(&self, account: &String) -> (r: Booking)
        ensures
            r == self.spec_method(account@),
            supported_method(r),
    {
        proof {
            use_type_invariant(self);
        }
        match self.methods.get(account.as_str()) {
            Some(m) => *m,
            None => self.default,
        }
    }
}

/// A cost complete with any fields which were missing from its [CostSpec].
///
/// In addition to `per_unit` which is the natural representation, the `total`
/// is also exposed, since this may be what the user originally specified, and
/// ought to be preserved at its original precision.
#[derive(Clone, Debug)]
pub struct Cost {
    pub date: Date,
    pub per_unit: Dec,
    pub total: Dec,
    pub currency: String,
    pub label: Option<String>,
    pub merge: bool,
}

/// Costs are ordered by date, then currency, then per-unit value, then label,
/// then merge; the total plays no part.
pub open spec fn cost_order(a: Cost, b: Cost) -> int {
    let d = date_order(a.date, b.date);
    let c = str_order(a.currency@, b.currency@);
    let p = int_order(a.per_unit.value(), b.per_unit.value());
    let l = opt_str_order(a.label, b.label);
    if d != 0 {
        d
    } else if c != 0 {
        c
    } else if p != 0 {
        p
    } else if l != 0 {
        l
    } else {
        bool_order(a.merge, b.merge)
    }
}

/// Costs are the same where all but their totals agree.
pub open spec fn cost_same(a: Cost, b: Cost) -> bool {
    &&& a.date == b.date
    &&& a.currency@ == b.currency@
    &&& a.per_unit.value() == b.per_unit.value()
    &&& opt_str_same(a.label, b.label)
    &&& a.merge == b.merge
}

pub proof fn lemma_cost_order_props(a: Cost, b: Cost)
    ensures
        -1 <= cost_order(a, b) <= 1,
        cost_order(a, b) == -cost_order(b, a),
        cost_order(a, b) == 0 <==> cost_same(a, b),
{
    lemma_str_order_props(a.currency@, b.currency@);
    lemma_opt_str_order_props(a.label, b.label);
}

pub proof fn lemma_cost_order_trans(a: Cost, b: Cost, c: Cost)
    requires
        cost_order(a, b) <= 0,
        cost_order(b, c) <= 0,
    ensures
        cost_order(a, c) <= 0,
        cost_order(a, b) < 0 || cost_order(b, c) < 0 ==> cost_order(a, c) < 0,
{
    lemma_cost_order_props(a, b);
    lemma_cost_order_props(b, c);
    lemma_cost_order_props(a, c);
    lemma_str_order_props(a.currency@, b.currency@);
    lemma_str_order_props(b.currency@, c.currency@);
    lemma_str_order_props(a.currency@, c.currency@);
    lemma_opt_str_order_props(a.label, b.label);
    lemma_opt_str_order_props(b.label, c.label);
    lemma_opt_str_order_props(a.label, c.label);
    if date_order(a.date, b.date) == 0 && date_order(b.date, c.date) == 0 {
        if str_order(a.currency@, b.currency@) <= 0 && str_order(b.currency@, c.currency@) <= 0 {
            lemma_str_order_trans(a.currency@, b.currency@, c.currency@);
        }
        if a.currency@ == b.currency@ && b.currency@ == c.currency@ {
            if a.per_unit.value() == b.per_unit.value() && b.per_unit.value()
                == c.per_unit.value() {
                if opt_str_order(a.label, b.label) <= 0 && opt_str_order(b.label, c.label) <= 0 {
                    lemma_opt_str_order_trans(a.label, b.label, c.label);
                }
            }
        }
    }
}

/// Three-way comparison of costs.
pub fn compare_cost(a: &Cost, b: &Cost) -> (r: i8)
    ensures
        r == cost_order(*a, *b),
{
    let d = compare_date(&a.date, &b.date);
    if d != 0 {
        return d;
    }
    let c = compare_str(a.currency.as_str(), b.currency.as_str());
    if c != 0 {
        return c;
    }
    if a.per_unit.num_lt(&b.per_unit) {
        return -1;
    }
    if b.per_unit.num_lt(&a.per_unit) {
        return 1;
    }
    let l = compare_opt_str(&a.label, &b.label);
    if l != 0 {
        return l;
    }
    if a.merge == b.merge {
        0
    } else if !a.merge {
        -1
    } else {
        1
    }
}

impl Cost {
    /// A copy of the cost.
    pub fn duplicate(&self) -> (r: Cost)
        ensures
            r == *self,
    {
        Cost {
            date: self.date,
            per_unit: self.per_unit,
            total: self.total,
            currency: self.currency.clone(),
            label: copy_opt_str(&self.label),
            merge: self.merge,
        }
    }

    /// The cost of one of the lots of a posting, in the given cost currency.
    pub fn from_posting_cost(currency: String, cost: PostingCost) -> (r: Cost)
        ensures
            r == cost_of_posting_cost(currency, cost),
    {
        Cost {
            date: cost.date,
            per_unit: cost.per_unit,
            total: cost.total,
            currency,
            label: cost.label,
            merge: cost.merge,
        }
    }
}

/// The cost that a posting cost stands for, in the given currency.
pub open spec fn cost_of_posting_cost(currency: String, cost: PostingCost) -> Cost {
    Cost {
        date: cost.date,
        per_unit: cost.per_unit,
        total: cost.total,
        currency,
        label: cost.label,
        merge: cost.merge,
    }
}

impl PartialEq for Cost {
    fn eq(&self, other: &Cost) -> (r: bool) {
        self.date == other.date && self.per_unit.num_eq(&other.per_unit) && self.currency.eq(
            &other.currency,
        ) && same_opt_str(&self.label, &other.label) && self.merge == other.merge
    }
}

impl vstd::std_specs::cmp::PartialEqSpecImpl for Cost {
    open spec fn obeys_eq_spec() -> bool {
        true
    }

    open spec fn eq_spec(&self, other: &Cost) -> bool {
        cost_same(*self, *other)
    }
}

/// One of potentially a number of posting costs for an [Interpolated] posting.
#[derive(Clone, Debug)]
pub struct PostingCost {
    pub date: Date,
    pub units: Dec,
    pub per_unit: Dec,
    pub total: Dec,
    pub label: Option<String>,
    pub merge: bool,
}

impl PostingCost {
    /// A copy of the posting cost.
    pub fn duplicate(&self) -> (r: PostingCost)
        ensures
            r == *self,
    {
        PostingCost {
            date: self.date,
            units: self.units,
            per_unit: self.per_unit,
            total: self.total,
            label: copy_opt_str(&self.label),
            merge: self.merge,
        }
    }
}

/// The list of posting costs for an [Interpolated] posting.
///
/// Multiple different lots may be reduced by a single posting, but only for a
/// single cost currency.
#[derive(Clone, Debug)]
pub struct PostingCosts {
    pub cost_currency: String,
    pub adjustments: Vec<PostingCost>,
}

impl PostingCosts {
    /// A copy of the list.
    pub fn duplicate(&self) -> (r: PostingCosts)
        ensures
            r.cost_currency == self.cost_currency,
            r.adjustments@ == self.adjustments@,
    {
        let mut adjustments: Vec<PostingCost> = Vec::new();
        let mut i: usize = 0;
        while i < self.adjustments.len()
            invariant
                i <= self.adjustments@.len(),
                adjustments@ == self.adjustments@.take(i as int),
            decreases self.adjustments@.len() - i,
        {
            adjustments.push(self.adjustments[i].duplicate());
            i = i + 1;
            assert(adjustments@ =~= self.adjustments@.take(i as int));
        }
        assert(self.adjustments@.take(i as int) =~= self.adjustments@);
        PostingCosts { cost_currency: self.cost_currency.clone(), adjustments }
    }

    /// Each posting cost paired with the cost currency.
    pub fn iter(&self) -> (r: Vec<(String, PostingCost)>)
        ensures
            r@.len() == self.adjustments@.len(),
            forall|i: int|
                0 <= i < r@.len() ==> #[trigger] r@[i] == (self.cost_currency, self.adjustments@[i]),
    {
        let mut r: Vec<(String, PostingCost)> = Vec::new();
        let mut i: usize = 0;
        while i < self.adjustments.len()
            invariant
                i <= self.adjustments@.len(),
                r@.len() == i,
                forall|j: int|
                    0 <= j < i ==> #[trigger] r@[j] == (self.cost_currency, self.adjustments@[j]),
            decreases self.adjustments@.len() - i,
        {
            r.push((self.cost_currency.clone(), self.adjustments[i].duplicate()));
            i = i + 1;
        }
        r
    }

    /// Each posting cost paired with the cost currency, consuming the list.
    pub fn into_currency_costs(self) -> (r: Vec<(String, PostingCost)>)
        ensures
            r@.len() == self.adjustments@.len(),
            forall|i: int|
                0 <= i < r@.len() ==> #[trigger] r@[i] == (self.cost_currency, self.adjustments@[i]),
    {
        self.iter()
    }
}

/// A price complete with any fields which were missing from its [PriceSpec].
#[derive(Clone, Debug)]
pub struct Price {
    pub per_unit: Dec,
    pub total: Option<Dec>,
    pub currency: String,
}

impl Price {
    /// A copy of the price.
    pub fn duplicate(&self) -> (r: Price)
        ensures
            r == *self,
    {
        Price { per_unit: self.per_unit, total: self.total, currency: self.currency.clone() }
    }
}

/// Three-way order on optional numbers, by value, none first.
pub open spec fn opt_number_order(a: Option<Dec>, b: Option<Dec>) -> int {
    match (a, b) {
        (None, None) => 0,
        (None, Some(_)) => -1,
        (Some(_), None) => 1,
        (Some(x), Some(y)) => int_order(x.value(), y.value()),
    }
}

/// Prices are ordered by currency, then per-unit value, then total.
pub open spec fn price_order(a: Price, b: Price) -> int {
    let c = str_order(a.currency@, b.currency@);
    let p = int_order(a.per_unit.value(), b.per_unit.value());
    if c != 0 {
        c
    } else if p != 0 {
        p
    } else {
        opt_number_order(a.total, b.total)
    }
}

/// Three-way comparison of prices.
pub fn compare_price(a: &Price, b: &Price) -> (r: i8)
    ensures
        r == price_order(*a, *b),
{
    let c = compare_str(a.currency.as_str(), b.currency.as_str());
    if c != 0 {
        return c;
    }
    if a.per_unit.num_lt(&b.per_unit) {
        return -1;
    }
    if b.per_unit.num_lt(&a.per_unit) {
        return 1;
    }
    match (&a.total, &b.total) {
        (None, None) => 0,
        (None, Some(_)) => -1,
        (Some(_), None) => 1,
        (Some(x), Some(y)) => if x.num_lt(y) {
            -1
        } else if y.num_lt(x) {
            1
        } else {
            0
        },
    }
}

/// A cost specification, which may be rather loosely specified.
///
/// After booking, the process of interpolation turns each cost spec into a [Cost].
#[derive(Clone, Debug)]
pub struct CostSpec {
    pub date: Option<Date>,
    pub per_unit: Option<Dec>,
    pub total: Option<Dec>,
    pub currency: Option<String>,
    pub label: Option<String>,
    pub merge: bool,
}

/// A price specification, which may be rather loosely specified.
///
/// After booking, the process of interpolation turns each price spec into a [Price].
#[derive(Clone, Debug)]
pub struct PriceSpec {
    pub per_unit: Option<Dec>,
    pub total: Option<Dec>,
    pub currency: Option<String>,
}

/// A posting as written, which booking completes: its account, and whichever
/// of units, currency, cost and price were given.
#[derive(Clone, Debug)]
pub struct PostingSpec {
    pub account: String,
    pub units: Option<Dec>,
    pub currency: Option<String>,
    pub cost: Option<CostSpec>,
    pub price: Option<PriceSpec>,
}

/// A single position in a currency, optionally at given cost.
///
/// Lots held at cost are split into separate positions, each with a unique
/// combination of cost attributes, with at most one position having no cost.
#[derive(Clone, Debug)]
pub struct Position {
    pub units: Dec,
    pub currency: String,
    pub cost: Option<Cost>,
}

impl Position {
    /// A position without cost.
    pub fn from_units(units: Dec, currency: String) -> (r: Position)
        ensures
            r == (Position { units, currency, cost: None }),
    {
        Position { units, currency, cost: None }
    }

    /// A copy of the position.
    pub fn duplicate(&self) -> (r: Position)
        ensures
            r == *self,
    {
        Position {
            units: self.units,
            currency: self.currency.clone(),
            cost: match &self.cost {
                None => None,
                Some(c) => Some(c.duplicate()),
            },
        }
    }

    /// The position with `units` added, `None` where the sum overflows.
    pub fn with_accumulated(&self, units: Dec) -> (r: Option<Position>)
        ensures
            r == (match crate::decimal::decimal_checked_add(self.units, units) {
                Some(u) => Some(Position { units: u, ..*self }),
                None => None,
            }),
            crate::decimal::add_is_exact(self.units, units) ==> (r is Some && r.unwrap().units.value()
                == self.units.value() + units.value()),
    {
        match self.units.checked_add(&units) {
            Some(u) => Some(
                Position {
                    units: u,
                    currency: self.currency.clone(),
                    cost: match &self.cost {
                        None => None,
                        Some(c) => Some(c.duplicate()),
                    },
                },
            ),
            None => None,
        }
    }
}

} // verus!
