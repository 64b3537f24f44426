//! Tolerances: how far from zero the weights of a transaction may sum
//! (see Beancount's "Precision & Tolerances").
use vstd::hash_map::StringHashMap;
use vstd::prelude::*;

use crate::decimal::{abs_value, decimal_checked_add, decimal_checked_mul, pow10, Dec, Number, MAX_SCALE};

verus! {

broadcast use crate::decimal::Dec::lemma_of_parts, crate::decimal::Dec::lemma_ext;

/// The inferred tolerances for a ledger.
pub trait Tolerance {
    /// The default tolerance for a currency.
    spec fn spec_default(&self, currency: Seq<char>) -> Option<Dec>;

    /// The multiplier for tolerances inferred from precision.
    spec fn spec_multiplier(&self) -> Option<Dec>;

    /// The default tolerance for a given currency, returning the fallback
    /// value if that particular currency was not specified.
    fn inferred_tolerance_default(&self, currency: &String) -> (r: Option<Dec>)
        ensures
            r == self.spec_default(currency@),
    ;

    fn inferred_tolerance_multiplier(&self) -> (r: Option<Dec>)
        ensures
            r == self.spec_multiplier(),
    ;
}

/// Tolerances by currency name, with a fallback for currencies not named,
/// and an optional multiplier.
pub struct LimaTolerance {
    default: StringHashMap<Dec>,
    default_fallback: Option<Dec>,
    multiplier: Option<Dec>,
}

/// The tolerances by currency that a list of defaults sets, each later one
/// for a currency replacing an earlier.
pub open spec fn defaults_map(defaults: Seq<(Option<String>, Dec)>) -> Map<Seq<char>, Dec>
    decreases defaults.len(),
{
    if defaults.len() == 0 {
        Map::empty()
    } else {
        let m = defaults_map(defaults.drop_last());
        match defaults.last().0 {
            Some(c) => m.insert(c@, defaults.last().1),
            None => m,
        }
    }
}

/// The fallback tolerance that a list of defaults sets: the last without a currency.
pub open spec fn defaults_fallback(defaults: Seq<(Option<String>, Dec)>) -> Option<Dec>
    decreases defaults.len(),
{
    if defaults.len() == 0 {
        None
    } else {
        match defaults.last().0 {
            Some(_) => defaults_fallback(defaults.drop_last()),
            None => Some(defaults.last().1),
        }
    }
}

/// The tolerances given by the defaults (each for a currency, or without
/// one the fallback) and the multiplier.
pub open spec fn tolerance_from(t: LimaTolerance, defaults: Seq<(Option<String>, Dec)>, multiplier: Option<Dec>) -> bool {
    &&& forall|c: Seq<char>| #[trigger] t.spec_default(c) == (if defaults_map(defaults).contains_key(c) {
        Some(defaults_map(defaults)[c])
    } else {
        defaults_fallback(defaults)
    })
    &&& t.spec_multiplier() == multiplier
}

impl LimaTolerance {
    /// Tolerances from the defaults given in a ledger's options, each for a
    /// currency or, without one, as the fallback, and the multiplier.
    pub fn new(defaults: Vec<(Option<String>, Dec)>, multiplier: Option<Dec>) -> (r: LimaTolerance)
        ensures
            tolerance_from(r, defaults@, multiplier),
    {
        let mut default: StringHashMap<Dec> = StringHashMap::new();
        let mut default_fallback: Option<Dec> = None;
        let mut i: usize = 0;
        while i < defaults.len()
            invariant
                i <= defaults@.len(),
                default@ == defaults_map(defaults@.take(i as int)),
                default_fallback == defaults_fallback(defaults@.take(i as int)),
            decreases defaults@.len() - i,
        {
            assert(defaults@.take(i + 1).drop_last() =~= defaults@.take(i as int));
            match &defaults[i].0 {
                Some(c) => {
                    default.insert(c.clone(), defaults[i].1);
                },
                None => {
                    default_fallback = Some(defaults[i].1);
                },
            }
            i = i + 1;
        }
        assert(defaults@.take(defaults@.len() as int) =~= defaults@);
        LimaTolerance { default, default_fallback, multiplier }
    }
}

impl Tolerance for LimaTolerance {
    closed spec fn spec_default(&self, currency: Seq<char>) -> Option<Dec> {
        if self.default@.contains_key(currency) {
            Some(self.default@[currency])
        } else {
            self.default_fallback
        }
    }

    closed spec fn spec_multiplier(&self) -> Option<Dec> {
        self.multiplier
    }

    fn inferred_tolerance_default(&self, currency: &String) -> (r: Option<Dec>) {
        match self.default.get(currency.as_str()) {
            Some(t) => Some(*t),
            None => self.default_fallback,
        }
    }

    fn inferred_tolerance_multiplier(&self) -> (r: Option<Dec>) {
        self.multiplier
    }
}

/// The tolerance multiplier used where none is set: 0.5.
pub open spec fn default_multiplier() -> Dec {
    Dec::of_parts(5, 1)
}

/// The default inferred tolerance multiplier, 0.5.
pub fn default_inferred_tolerance_multiplier() -> (r: Dec)
    ensures
        r == default_multiplier(),
{
    <Dec as Number>::new(5, 1)
}

/// The sum of values from zero, adding each in turn; `None` where a sum
/// overflows.
pub open spec fn values_sum(vs: Seq<Dec>) -> Option<Dec>
    decreases vs.len(),
{
    if vs.len() == 0 {
        Some(Dec::of_parts(0, 0))
    } else {
        match values_sum(vs.drop_last()) {
            Some(s) => decimal_checked_add(s, vs.last()),
            None => None,
        }
    }
}

/// The smallest scale among the values with a scale above zero.
pub open spec fn min_nonzero_scale(vs: Seq<Dec>) -> Option<nat>
    decreases vs.len(),
{
    if vs.len() == 0 {
        None
    } else {
        let m = min_nonzero_scale(vs.drop_last());
        let s = vs.last().s();
        if s > 0 {
            match m {
                None => Some(s),
                Some(t) => if s < t {
                    Some(s)
                } else {
                    Some(t)
                },
            }
        } else {
            m
        }
    }
}

/// The residual of values that the tolerance does not absorb: their sum,
/// where its magnitude reaches the precision of the values times the
/// multiplier, or (for integer values) exceeds the currency's default
/// tolerance, or, without one, is not zero.  The outer `None` is an overflow.
pub open spec fn residual_of(default: Option<Dec>, multiplier: Option<Dec>, vs: Seq<Dec>) -> Option<Option<Dec>> {
    let mult = match multiplier {
        Some(m) => m,
        None => default_multiplier(),
    };
    match values_sum(vs) {
        None => None,
        Some(sum) => {
            let abs = if sum.value() < 0 { -sum.value() } else { sum.value() };
            match min_nonzero_scale(vs) {
                Some(s) => match decimal_checked_mul(Dec::of_parts(1, s), mult) {
                    None => None,
                    Some(t) => Some(
                        if abs >= t.value() {
                            Some(sum)
                        } else {
                            None
                        },
                    ),
                },
                None => match default {
                    Some(t) => Some(
                        if abs > t.value() {
                            Some(sum)
                        } else {
                            None
                        },
                    ),
                    None => Some(
                        if sum.value() != 0 {
                            Some(sum)
                        } else {
                            None
                        },
                    ),
                },
            }
        },
    }
}

/// The residual of values in a currency under a tolerance; `None` where the
/// arithmetic overflows.
pub fn tolerance_residual<T: Tolerance>(tol: &T, values: &Vec<Dec>, cur: &String) -> (r: Option<Option<Dec>>)
    ensures
        r == residual_of(tol.spec_default(cur@), tol.spec_multiplier(), values@),
        ({
            let m = match tol.spec_multiplier() {
                Some(m) => m,
                None => default_multiplier(),
            };
            let s = min_nonzero_scale(values@)->0;
            min_nonzero_scale(values@) is Some && s + m.s() <= MAX_SCALE && values_sum(values@) is Some
                ==> r == Some(
                if abs_value(values_sum(values@)->0) >= m.m() * pow10((MAX_SCALE - s - m.s()) as nat) {
                    Some(values_sum(values@)->0)
                } else {
                    None
                },
            )
        }),
        min_nonzero_scale(values@) is None && values_sum(values@) is Some ==> r == Some(
            match tol.spec_default(cur@) {
                Some(t) => if abs_value(values_sum(values@)->0) > t.value() {
                    Some(values_sum(values@)->0)
                } else {
                    None
                },
                None => if values_sum(values@)->0.value() != 0 {
                    Some(values_sum(values@)->0)
                } else {
                    None
                },
            },
        ),
        values_sum(values@) is None ==> r is None,
{
    let multiplier = match tol.inferred_tolerance_multiplier() {
        Some(m) => m,
        None => default_inferred_tolerance_multiplier(),
    };
    let mut sum: Dec = <Dec as Number>::zero();
    let mut min_scale: Option<u32> = None;
    let mut i: usize = 0;
    while i < values.len()
        invariant
            i <= values@.len(),
            values_sum(values@.take(i as int)) == Some(sum),
            match min_nonzero_scale(values@.take(i as int)) {
                Some(s) => min_scale == Some(s as u32) && s <= 28,
                None => min_scale is None,
            },
        decreases values@.len() - i,
    {
        assert(values@.take(i + 1).drop_last() =~= values@.take(i as int));
        let v = values[i];
        match sum.checked_add(&v) {
            Some(s) => {
                sum = s;
            },
            None => {
                proof {
                    lemma_sum_none_stays(values@, i as int + 1);
                    assert(values@.take(values@.len() as int) =~= values@);
                }
                return None;
            },
        }
        let sc = v.scale();
        if sc > 0 {
            match min_scale {
                None => {
                    min_scale = Some(sc);
                },
                Some(m) => {
                    if sc < m {
                        min_scale = Some(sc);
                    }
                },
            }
        }
        i = i + 1;
    }
    assert(values@.take(values@.len() as int) =~= values@);
    let abs_residual = sum.abs();
    match min_scale {
        Some(s) => {
            let one = <Dec as Number>::new(1, s);
            let prod = one.checked_mul(&multiplier);
            let multiplier_mantissa: i128 = multiplier.mantissa();
            proof {
                assert(multiplier_mantissa == multiplier.m());
                let ms = (MAX_SCALE - s - multiplier.s()) as nat;
                if s + multiplier.s() <= MAX_SCALE {
                    assert(1 * multiplier.m() == multiplier.m());
                    let t = prod->0;
                    if multiplier.m() != 0 {
                        assert(t.m() == multiplier.m() && t.s() == s + multiplier.s());
                        assert(t.value() == multiplier.m() * pow10(ms));
                    } else {
                        assert(t.value() == 0);
                        assert(multiplier.m() * pow10(ms) == 0);
                    }
                }
            }
            match prod {
                Some(t) => {
                    if t.num_le(&abs_residual) {
                        Some(Some(sum))
                    } else {
                        Some(None)
                    }
                },
                None => {
                    None
                },
            }
        },
        None => match tol.inferred_tolerance_default(cur) {
            Some(t) => {
                if t.num_lt(&abs_residual) {
                    Some(Some(sum))
                } else {
                    Some(None)
                }
            },
            None => {
                if sum.is_zero() {
                    Some(None)
                } else {
                    Some(Some(sum))
                }
            },
        },
    }
}

/// Once a sum overflows, every longer sum does.
pub proof fn lemma_sum_none_stays(vs: Seq<Dec>, n: int)
    requires
        0 <= n <= vs.len(),
        values_sum(vs.take(n)) is None,
    ensures
        values_sum(vs) is None,
    decreases vs.len() - n,
{
    if n < vs.len() {
        assert(vs.take(n + 1).drop_last() =~= vs.take(n));
        lemma_sum_none_stays(vs, n + 1);
    } else {
        assert(vs.take(n) =~= vs);
    }
}

} // verus!
