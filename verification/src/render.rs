//! Booked postings written out, as Beancount and as EDN values.
use vstd::prelude::*;

use crate::decimal::{decimal_text, Dec};
use crate::loader::Posting;
use crate::text::{cost_part, date_text, format_date, price_text, valid_date};
use crate::types::{Cost, Price};
use vstd::string::StringExecFns;
use vstd::string::StrSliceExecFns;

verus! {

/// A character as it stands inside an EDN string: a quote, a backslash and
/// a newline escaped by a backslash, any other as it is.
pub open spec fn edn_char(c: char) -> Seq<char> {
    if c == '"' {
        seq!['\\', '"']
    } else if c == '\\' {
        seq!['\\', '\\']
    } else if c == '\n' {
        seq!['\\', 'n']
    } else {
        seq![c]
    }
}

/// The characters of `s`, each as it stands inside an EDN string.
pub open spec fn edn_escaped(s: Seq<char>) -> Seq<char>
    decreases s.len(),
{
    if s.len() == 0 {
        Seq::empty()
    } else {
        edn_escaped(s.drop_last()) + edn_char(s.last())
    }
}

/// `s` as an EDN string: escaped, between quotes.
pub open spec fn edn_quoted(s: Seq<char>) -> Seq<char> {
    seq!['"'] + edn_escaped(s) + seq!['"']
}

/// A string written as EDN.
pub fn edn_string(s: &str) -> (r: String)
    ensures
        r@ == edn_quoted(s@),
{
    let n = s.unicode_len();
    let mut r = String::from_str("\"");
    proof {
        reveal_strlit("\"");
        assert(s@.take(0) =~= Seq::<char>::empty());
    }
    let mut i: usize = 0;
    while i < n
        invariant
            n == s@.len(),
            i <= n,
            r@ == seq!['"'] + edn_escaped(s@.take(i as int)),
        decreases n - i,
    {
        let c = s.get_char(i);
        let ghost before = r@;
        if c == '"' {
            r.append("\\\"");
            proof {
                reveal_strlit("\\\"");
            }
        } else if c == '\\' {
            r.append("\\\\");
            proof {
                reveal_strlit("\\\\");
            }
        } else if c == '\n' {
            r.append("\\n");
            proof {
                reveal_strlit("\\n");
            }
        } else {
            r.append(s.substring_char(i, i + 1));
            assert(s@.subrange(i as int, i + 1) =~= seq![c]);
        }
        proof {
            assert(s@.take(i + 1).drop_last() =~= s@.take(i as int));
            assert(s@.take(i + 1).last() == c);
            assert(r@ =~= before + edn_char(c));
        }
        i = i + 1;
    }
    r.append("\"");
    proof {
        assert(s@.take(n as int) =~= s@);
    }
    r
}

/// A number as an EDN big decimal: its text and `M`.
pub open spec fn edn_number_text(d: Dec) -> Seq<char> {
    decimal_text(d) + seq!['M']
}

/// A string as EDN, or `nil` without one.
pub open spec fn edn_opt_text(o: Option<String>) -> Seq<char> {
    match o {
        Some(s) => edn_quoted(s@),
        None => "nil"@,
    }
}

/// `true` or `false`.
pub open spec fn edn_bool_text(b: bool) -> Seq<char> {
    if b {
        "true"@
    } else {
        "false"@
    }
}

/// A price as an EDN map of its number per unit and its currency.
pub open spec fn edn_price_text(p: Price) -> Seq<char> {
    "{:per-unit "@ + edn_number_text(p.per_unit) + " :currency "@ + edn_quoted(p.currency@) + "}"@
}

/// A cost as an EDN map of its date, number per unit, currency, label and
/// whether it merges.
pub open spec fn edn_cost_text(c: Cost) -> Seq<char> {
    "{:date "@ + edn_quoted(date_text(c.date)) + " :per-unit "@ + edn_number_text(c.per_unit) + " :currency "@
        + edn_quoted(c.currency@) + " :label "@ + edn_opt_text(c.label) + " :merge "@ + edn_bool_text(c.merge) + "}"@
}

/// A booked posting as an EDN map: its flag, account, units, currency, cost
/// and price, `nil` for what it lacks.
pub open spec fn edn_posting_text(flag: Option<String>, p: Posting) -> Seq<char> {
    "{:flag "@ + edn_opt_text(flag) + " :account "@ + edn_quoted(p.account@) + " :units "@ + edn_number_text(p.units)
        + " :currency "@ + edn_quoted(p.currency@) + " :cost "@ + (match p.cost {
        Some(c) => edn_cost_text(c),
        None => "nil"@,
    }) + " :price "@ + (match p.price {
        Some(pr) => edn_price_text(pr),
        None => "nil"@,
    }) + "}"@
}

/// A booked posting as a line of a Beancount transaction, without its line
/// end: indented, its flag if any, then account, units, currency, cost and
/// price.
pub open spec fn posting_line_text(flag: Option<String>, p: Posting) -> Seq<char> {
    "  "@ + (match flag {
        Some(f) => f@ + " "@,
        None => Seq::empty(),
    }) + p.account@ + " "@ + decimal_text(p.units) + " "@ + p.currency@ + cost_part(p.cost) + (match p.price {
        Some(pr) => " "@ + price_text(pr),
        None => Seq::empty(),
    })
}

/// Whether `time` holds the date of the posting's cost, if it has one.
pub open spec fn posting_dates_valid(p: Posting) -> bool {
    p.cost matches Some(c) ==> valid_date(c.date)
}

/// A number written as an EDN big decimal.
pub fn edn_number(d: Dec) -> (r: String)
    ensures
        r@ == edn_number_text(d),
{
    let mut r = d.to_text();
    r.append("M");
    proof {
        reveal_strlit("M");
    }
    r
}

/// A string written as EDN, or `nil` without one.
pub fn edn_opt_string(o: &Option<String>) -> (r: String)
    ensures
        r@ == edn_opt_text(*o),
{
    match o {
        Some(s) => edn_string(s.as_str()),
        None => String::from_str("nil"),
    }
}

/// A price written as an EDN map.
pub fn edn_price(p: &Price) -> (r: String)
    ensures
        r@ == edn_price_text(*p),
{
    let mut r = String::from_str("{:per-unit ");
    r.append(edn_number(p.per_unit).as_str());
    r.append(" :currency ");
    r.append(edn_string(p.currency.as_str()).as_str());
    r.append("}");
    r
}

/// A cost written as an EDN map, where `time` holds its date.
pub fn edn_cost(c: &Cost) -> (r: Option<String>)
    ensures
        r is Some <==> valid_date(c.date),
        r matches Some(t) ==> t@ == edn_cost_text(*c),
{
    let date = match format_date(&c.date) {
        Some(t) => t,
        None => return None,
    };
    let mut r = String::from_str("{:date ");
    r.append(edn_string(date.as_str()).as_str());
    r.append(" :per-unit ");
    r.append(edn_number(c.per_unit).as_str());
    r.append(" :currency ");
    r.append(edn_string(c.currency.as_str()).as_str());
    r.append(" :label ");
    r.append(edn_opt_string(&c.label).as_str());
    r.append(" :merge ");
    if c.merge {
        r.append("true");
    } else {
        r.append("false");
    }
    r.append("}");
    Some(r)
}

/// A booked posting written as an EDN map, where `time` holds the date of
/// its cost.
pub fn edn_posting(flag: &Option<String>, p: &Posting) -> (r: Option<String>)
    ensures
        r is Some <==> posting_dates_valid(*p),
        r matches Some(t) ==> t@ == edn_posting_text(*flag, *p),
{
    let cost = match &p.cost {
        Some(c) => match edn_cost(c) {
            Some(t) => t,
            None => return None,
        },
        None => String::from_str("nil"),
    };
    let price = match &p.price {
        Some(pr) => edn_price(pr),
        None => String::from_str("nil"),
    };
    let mut r = String::from_str("{:flag ");
    r.append(edn_opt_string(flag).as_str());
    r.append(" :account ");
    r.append(edn_string(p.account.as_str()).as_str());
    r.append(" :units ");
    r.append(edn_number(p.units).as_str());
    r.append(" :currency ");
    r.append(edn_string(p.currency.as_str()).as_str());
    r.append(" :cost ");
    r.append(cost.as_str());
    r.append(" :price ");
    r.append(price.as_str());
    r.append("}");
    Some(r)
}

/// A booked posting written as a line of a Beancount transaction, without
/// its line end, where `time` holds the date of its cost.
pub fn posting_line(flag: &Option<String>, p: &Posting) -> (r: Option<String>)
    ensures
        r is Some <==> posting_dates_valid(*p),
        r matches Some(t) ==> t@ == posting_line_text(*flag, *p),
{
    let mut r = String::from_str("  ");
    let ghost indent = r@;
    match flag {
        Some(f) => {
            r.append(f.as_str());
            r.append(" ");
        },
        None => {},
    }
    let ghost with_flag = r@;
    r.append(p.account.as_str());
    r.append(" ");
    r.append(p.units.to_text().as_str());
    r.append(" ");
    r.append(p.currency.as_str());
    let ghost before_cost = r@;
    match &p.cost {
        Some(c) => {
            let t = match c.to_text() {
                Some(t) => t,
                None => return None,
            };
            r.append(" ");
            r.append(t.as_str());
        },
        None => {},
    }
    let ghost before_price = r@;
    match &p.price {
        Some(pr) => {
            r.append(" ");
            r.append(pr.to_text().as_str());
        },
        None => {},
    }
    proof {
        assert(with_flag =~= indent + (match *flag {
            Some(f) => f@ + " "@,
            None => Seq::empty(),
        }));
        assert(before_price =~= before_cost + cost_part(p.cost));
        assert(r@ =~= posting_line_text(*flag, *p));
    }
    Some(r)
}

} // verus!
