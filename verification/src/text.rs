//! How dates, prices, costs and positions are written out.
use vstd::prelude::*;
use vstd::string::StringExecFns;

use crate::decimal::decimal_text;
use crate::positions::Positions;
use crate::types::{Cost, Date, Position, Price};

verus! {

/// Whether the year is a leap year in the proleptic Gregorian calendar.
pub open spec fn is_leap_year(year: int) -> bool {
    (year % 4 == 0 && year % 100 != 0) || year % 400 == 0
}

/// The number of days in the month of the year.
pub open spec fn days_in_month(year: int, month: int) -> int {
    if month == 2 {
        if is_leap_year(year) {
            29
        } else {
            28
        }
    } else if month == 4 || month == 6 || month == 9 || month == 11 {
        30
    } else {
        31
    }
}

/// A date that `time` holds: a year of at most four digits, a month, and a
/// day of that month.
pub open spec fn valid_date(d: Date) -> bool {
    &&& -9999 <= d.year <= 9999
    &&& 1 <= d.month <= 12
    &&& 1 <= d.day <= days_in_month(d.year as int, d.month as int)
}

/// The decimal digit.
pub open spec fn digit_char(n: int) -> char {
    (48 + n) as char
}

/// The last `width` decimal digits of `n`, zero-padded.
pub open spec fn padded_digits(n: int, width: nat) -> Seq<char>
    decreases width,
{
    if width == 0 {
        Seq::empty()
    } else {
        padded_digits(n / 10, (width - 1) as nat).push(digit_char(n % 10))
    }
}

/// The text of a date, as `time` displays it: a minus sign for a year before
/// year zero, the year's magnitude in four digits, then the month and the day
/// in two each, with dashes between.
pub open spec fn date_text(d: Date) -> Seq<char> {
    let sign = if d.year < 0 {
        seq!['-']
    } else {
        Seq::empty()
    };
    let magnitude = if d.year < 0 {
        -d.year
    } else {
        d.year as int
    };
    sign + padded_digits(magnitude, 4) + seq!['-'] + padded_digits(d.month as int, 2) + seq!['-'] + padded_digits(
        d.day as int,
        2,
    )
}

/// Calls `time::Date::from_calendar_date` and writes the date with `time`'s
/// `Display`; `None` where `time` refuses the date.
#[verifier::external_body]
fn time_date_text(d: &Date) -> (r: Option<String>)
    ensures
        r is Some <==> valid_date(*d),
        r matches Some(t) ==> t@ == date_text(*d),
{
    let month = match time::Month::try_from(d.month) {
        Ok(m) => m,
        Err(_) => return None,
    };
    match time::Date::from_calendar_date(d.year, month, d.day) {
        Ok(date) => Some(format!("{date}")),
        Err(_) => None,
    }
}

/// The text of a date, where `time` holds it.
pub fn format_date(d: &Date) -> (r: Option<String>)
    ensures
        r is Some <==> valid_date(*d),
        r matches Some(t) ==> t@ == date_text(*d),
{
    time_date_text(d)
}

/// The text of a price: `@`, its number per unit, and its currency.
pub open spec fn price_text(p: Price) -> Seq<char> {
    "@ "@ + decimal_text(p.per_unit) + " "@ + p.currency@
}

/// A label, quoted after a comma; nothing without one.
pub open spec fn label_part(label: Option<String>) -> Seq<char> {
    match label {
        Some(l) => ", \""@ + l@ + "\""@,
        None => Seq::empty(),
    }
}

/// A star after a comma, for a cost that merges; else nothing.
pub open spec fn merge_part(merge: bool) -> Seq<char> {
    if merge {
        ", *"@
    } else {
        Seq::empty()
    }
}

/// The text of a cost, in braces: its date, its number per unit and
/// currency, its label quoted if any, and a star if it merges.
pub open spec fn cost_text(c: Cost) -> Seq<char> {
    "{"@ + date_text(c.date) + ", "@ + decimal_text(c.per_unit) + " "@ + c.currency@ + label_part(c.label) + merge_part(c.merge) + "}"@
}

/// A cost after a space; nothing without one.
pub open spec fn cost_part(cost: Option<Cost>) -> Seq<char> {
    match cost {
        Some(c) => " "@ + cost_text(c),
        None => Seq::empty(),
    }
}

/// The text of a position: its currency, its units, and its cost if any.
pub open spec fn position_text(p: Position) -> Seq<char> {
    p.currency@ + " "@ + decimal_text(p.units) + cost_part(p.cost)
}

/// The texts of the first `n` positions, separated by commas.
pub open spec fn positions_text(ps: Seq<Position>, n: int) -> Seq<char>
    decreases n,
{
    if n <= 0 {
        Seq::empty()
    } else if n == 1 {
        position_text(ps[0])
    } else {
        positions_text(ps, n - 1) + ", "@ + position_text(ps[n - 1])
    }
}

/// Whether each of the positions with a cost has a date that `time` holds.
pub open spec fn cost_dates_valid(ps: Seq<Position>) -> bool {
    forall|i: int| 0 <= i < ps.len() ==> ((#[trigger] ps[i]).cost matches Some(c) ==> valid_date(c.date))
}

impl Price {
    /// The price written out.
    pub fn to_text(&self) -> (r: String)
        ensures
            r@ == price_text(*self),
    {
        let mut r = String::from_str("@ ");
        r.append(self.per_unit.to_text().as_str());
        r.append(" ");
        r.append(self.currency.as_str());
        r
    }
}

impl Cost {
    /// The cost written out, where `time` holds its date.
    pub fn to_text(&self) -> (r: Option<String>)
        ensures
            r is Some <==> valid_date(self.date),
            r matches Some(t) ==> t@ == cost_text(*self),
    {
        let date = match format_date(&self.date) {
            Some(t) => t,
            None => return None,
        };
        let mut r = String::from_str("{");
        r.append(date.as_str());
        r.append(", ");
        r.append(self.per_unit.to_text().as_str());
        r.append(" ");
        r.append(self.currency.as_str());
        let ghost before_label = r@;
        match &self.label {
            Some(l) => {
                r.append(", \"");
                r.append(l.as_str());
                r.append("\"");
            },
            None => {},
        }
        let ghost before_merge = r@;
        if self.merge {
            r.append(", *");
        }
        let ghost before_close = r@;
        r.append("}");
        proof {
            assert(before_merge =~= before_label + label_part(self.label));
            assert(before_close =~= before_label + label_part(self.label) + merge_part(self.merge));
            assert(r@ =~= cost_text(*self));
        }
        Some(r)
    }
}

impl Position {
    /// The position written out, where `time` holds its cost's date.
    pub fn to_text(&self) -> (r: Option<String>)
        ensures
            r is Some <==> (self.cost matches Some(c) ==> valid_date(c.date)),
            r matches Some(t) ==> t@ == position_text(*self),
    {
        let mut r = self.currency.clone();
        r.append(" ");
        r.append(self.units.to_text().as_str());
        let ghost before_cost = r@;
        match &self.cost {
            Some(c) => {
                let t = match c.to_text() {
                    Some(t) => t,
                    None => return None,
                };
                r.append(" ");
                r.append(t.as_str());
            },
            None => {},
        }
        proof {
            assert(r@ =~= before_cost + cost_part(self.cost));
            assert(r@ =~= position_text(*self));
        }
        Some(r)
    }
}

impl Positions {
    /// The positions written out, separated by commas, where `time` holds
    /// the date of each cost.
    pub fn to_text(&self) -> (r: Option<String>)
        ensures
            r is Some <==> cost_dates_valid(self@),
            r matches Some(t) ==> t@ == positions_text(self@, self@.len() as int),
    {
        let ps = self.as_vec();
        let mut r = String::new();
        let mut i: usize = 0;
        while i < ps.len()
            invariant
                ps@ == self@,
                i <= ps@.len(),
                r@ == positions_text(ps@, i as int),
                forall|j: int| 0 <= j < i ==> ((#[trigger] ps@[j]).cost matches Some(c) ==> valid_date(c.date)),
            decreases ps@.len() - i,
        {
            let t = match ps[i].to_text() {
                Some(t) => t,
                None => {
                    return None;
                },
            };
            if i > 0 {
                r.append(", ");
            }
            r.append(t.as_str());
            i = i + 1;
        }
        Some(r)
    }
}

} // verus!
