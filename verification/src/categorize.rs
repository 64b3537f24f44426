//! Categorizing the postings of a transaction by currency, so that each group
//! can be balanced on its own (as Beancount's `categorize_by_currency` does).
use vstd::prelude::*;

use crate::collections::{
    account_currencies_map, auto_postings_map, currency_group_keys, currency_groups_map, group_of,
    groups_wf, inventory_map, keys_after_push, no_autos, no_groups, no_strings, opt_view, string_set_map, AccountCurrencies,
    AutoPostings, CurrencyGroups, Inventory, StringSet,
};
use crate::errors::{BookingError, PostingBookingError, TransactionBookingError};
use crate::internal::{annotate, annotation, bucket_of, AnnotatedPosting};
use crate::order::copy_opt_str;
use crate::types::{Position, PostingSpec};

verus! {

/// The currency of an account's positions, where there are some and all
/// are in one currency: the first position's currency.
pub open spec fn account_currency_of(base: Map<Seq<char>, Seq<Position>>, account: Seq<char>) -> Option<String> {
    if base.contains_key(account) {
        let ps = base[account];
        if ps.len() > 0 && forall|i: int| 0 <= i < ps.len() ==> (#[trigger] ps[i]).currency@ == ps[0].currency@ {
            Some(ps[0].currency)
        } else {
            None
        }
    } else {
        None
    }
}

/// Every account looked up has the currency inferred from its positions.
pub open spec fn lookups_agree(m: Map<Seq<char>, Option<String>>, base: Map<Seq<char>, Seq<Position>>) -> bool {
    forall|k: Seq<char>| #[trigger] m.contains_key(k) ==> m[k] == account_currency_of(base, k)
}

/// Look up the currency of an account with memoization.
fn account_currency(account: &String, inventory: &Inventory, lookups: &mut AccountCurrencies) -> (r: Option<String>)
    requires
        lookups_agree(account_currencies_map(*old(lookups)), inventory_map(*inventory)),
    ensures
        r == account_currency_of(inventory_map(*inventory), account@),
        lookups_agree(account_currencies_map(*final(lookups)), inventory_map(*inventory)),
{
    match lookups.get(account) {
        Some(currency) => currency,
        None => {
            let currency = match inventory.get(account) {
                Some(positions) => {
                    let ps = positions.as_vec();
                    let mut currencies = StringSet::empty();
                    let mut i: usize = 0;
                    while i < ps.len()
                        invariant
                            i <= ps@.len(),
                            string_set_map(currencies).dom().finite(),
                            i > 0 ==> string_set_map(currencies).contains_key(ps@[0].currency@)
                                && string_set_map(currencies)[ps@[0].currency@] == ps@[0].currency,
                            forall|c: Seq<char>| #[trigger] string_set_map(currencies).contains_key(c) <==> exists|j: int| 0 <= j < i && ps@[j].currency@ == c,
                        decreases ps@.len() - i,
                    {
                        currencies.insert(ps[i].currency.clone());
                        proof {
                            assert forall|c: Seq<char>| #[trigger] string_set_map(currencies).contains_key(c) <==> exists|j: int| 0 <= j < i + 1 && ps@[j].currency@ == c by {
                                if c == ps@[i as int].currency@ {
                                    assert(0 <= i < i + 1 && ps@[i as int].currency@ == c);
                                }
                            }
                        }
                        i = i + 1;
                    }
                    let ghost set = string_set_map(currencies).dom();
                    let ghost all_same = ps@.len() > 0 && forall|i: int| 0 <= i < ps@.len() ==> (#[trigger] ps@[i]).currency@ == ps@[0].currency@;
                    if currencies.len() == 1 {
                        let c = currencies.first();
                        proof {
                            let c0 = ps@[0].currency@;
                            assert(set.contains(c0));
                            assert forall|i: int| 0 <= i < ps@.len() implies (#[trigger] ps@[i]).currency@ == c0 by {
                                let ci = ps@[i].currency@;
                                assert(set.contains(ci));
                                if ci != c0 {
                                    assert(set.remove(c0).contains(ci));
                                    assert(set.remove(c0).len() != 0);
                                    assert(set.len() == set.remove(c0).len() + 1);
                                }
                            }
                            if c is None {
                                assert(set.contains(c0));
                            } else if c.unwrap()@ != c0 {
                                assert(set.remove(c0).contains(c.unwrap()@));
                                assert(set.remove(c0).len() != 0);
                            }
                        }
                        c
                    } else {
                        proof {
                            if all_same {
                                let c0 = ps@[0].currency@;
                                assert(set =~= Set::<Seq<char>>::empty().insert(c0));
                                assert(Set::<Seq<char>>::empty().insert(c0).len() == 1);
                            }
                        }
                        None
                    }
                },
                None => None,
            };
            lookups.insert(account.clone(), copy_opt_str(&currency));
            currency
        },
    }
}

/// The groups with their currency strings, the auto-postings by bucket, and
/// the postings whose bucket is not known.
pub type Categories = (
    Map<Seq<char>, Seq<AnnotatedPosting>>,
    Map<Seq<char>, String>,
    Map<Option<Seq<char>>, (Option<String>, AnnotatedPosting)>,
    Seq<AnnotatedPosting>,
);

/// Categorizing the first `n` postings: one without units or currency is an
/// auto-posting, two in the same bucket failing; one with a known bucket joins
/// its group; any other is unknown.
pub open spec fn categorized_upto(ps: Seq<PostingSpec>, n: int) -> Result<Categories, BookingError>
    decreases n,
{
    if n <= 0 {
        Ok((Map::empty(), Map::empty(), Map::empty(), Seq::empty()))
    } else {
        match categorized_upto(ps, n - 1) {
            Err(e) => Err(e),
            Ok((g, keys, autos, unknown)) => {
                let p = ps[n - 1];
                let a = annotation(p, (n - 1) as usize);
                let bucket = bucket_of(a, p);
                if p.units is None && p.currency is None {
                    if autos.contains_key(opt_view(bucket)) {
                        Err(BookingError::Posting((n - 1) as usize, PostingBookingError::AmbiguousAutoPost))
                    } else {
                        Ok((g, keys, autos.insert(opt_view(bucket), (bucket, a)), unknown))
                    }
                } else {
                    match bucket {
                        Some(b) => Ok((g.insert(b@, group_of(g, b@).push(a)), keys_after_push(keys, b), autos, unknown)),
                        None => Ok((g, keys, autos, unknown.push(a))),
                    }
                }
            },
        }
    }
}

proof fn lemma_categorized_err_stays(ps: Seq<PostingSpec>, k: int, n: int)
    requires
        0 <= k <= n,
        categorized_upto(ps, k) is Err,
    ensures
        categorized_upto(ps, n) == categorized_upto(ps, k),
    decreases n - k,
{
    if k < n {
        lemma_categorized_err_stays(ps, k + 1, n);
    }
}

/// Sort the postings into groups by bucket, auto-postings by bucket, and
/// postings of unknown bucket.
fn categorize_with_auto_postings_and_unknowns(
    postings: &Vec<PostingSpec>,
    currency_groups: &mut CurrencyGroups,
    auto_postings: &mut AutoPostings,
    unknown: &mut Vec<AnnotatedPosting>,
) -> (r: Result<(), BookingError>)
    requires
        currency_groups_map(*old(currency_groups)) == no_groups(),
        currency_group_keys(*old(currency_groups)) == no_strings(),
        auto_postings_map(*old(auto_postings)) == no_autos(),
        old(unknown)@ == Seq::<AnnotatedPosting>::empty(),
    ensures
        groups_wf(*final(currency_groups)),
        match categorized_upto(postings@, postings@.len() as int) {
            Err(e) => r == Err::<(), BookingError>(e),
            Ok((g, keys, autos, u)) => r is Ok && currency_groups_map(*final(currency_groups)) == g
                && currency_group_keys(*final(currency_groups)) == keys && auto_postings_map(*final(auto_postings)) == autos
                && final(unknown)@ == u,
        },
{
    let n = postings.len();
    let mut idx: usize = 0;
    while idx < n
        invariant
            n == postings@.len(),
            idx <= n,
            groups_wf(*currency_groups),
            categorized_upto(postings@, idx as int) == Ok::<Categories, BookingError>(
                (
                    currency_groups_map(*currency_groups),
                    currency_group_keys(*currency_groups),
                    auto_postings_map(*auto_postings),
                    unknown@,
                ),
            ),
        decreases n - idx,
    {
        let posting = &postings[idx];
        let annotated = annotate(posting, idx);
        let bucket = annotated.bucket(posting);
        if posting.units.is_none() && posting.currency.is_none() {
            if auto_postings.contains_key(&bucket) {
                proof {
                    lemma_categorized_err_stays(postings@, idx + 1, n as int);
                }
                return Err(BookingError::Posting(idx, PostingBookingError::AmbiguousAutoPost));
            }
            auto_postings.insert(bucket, annotated);
        } else {
            match bucket {
                Some(b) => {
                    currency_groups.push_or_insert(b, annotated);
                },
                None => {
                    unknown.push(annotated);
                },
            }
        }
        idx = idx + 1;
    }
    Ok(())
}

/// The unknown posting with its missing currencies inferred from the only
/// bucket: its own currency only where it has neither cost nor price.
pub open spec fn inferred_from_bucket(a: AnnotatedPosting, p: PostingSpec, bucket: String) -> AnnotatedPosting {
    AnnotatedPosting {
        idx: a.idx,
        currency: match a.currency {
            Some(c) => Some(c),
            None => if p.price is None && p.cost is None {
                Some(bucket)
            } else {
                None
            },
        },
        cost_currency: match a.cost_currency {
            Some(c) => Some(c),
            None => Some(bucket),
        },
        price_currency: match a.price_currency {
            Some(c) => Some(c),
            None => Some(bucket),
        },
    }
}

/// The only currency of groups that have one.
pub open spec fn only_key(g: Map<Seq<char>, Seq<AnnotatedPosting>>) -> Seq<char> {
    choose|k: Seq<char>| g.contains_key(k)
}

/// Infer the unknown posting's currencies from the single group there is,
/// and add it to that group.
fn infer_unknown_from_single_currency_group(
    unknown: AnnotatedPosting,
    posting: &PostingSpec,
    currency_groups: &mut CurrencyGroups,
)
    requires
        groups_wf(*old(currency_groups)),
        currency_groups_map(*old(currency_groups)).dom().finite(),
        currency_groups_map(*old(currency_groups)).len() == 1,
    ensures
        groups_wf(*final(currency_groups)),
        ({
            let g = currency_groups_map(*old(currency_groups));
            let keys = currency_group_keys(*old(currency_groups));
            let k = only_key(g);
            &&& currency_groups_map(*final(currency_groups)) == g.insert(k, g[k].push(inferred_from_bucket(unknown, *posting, keys[k])))
            &&& currency_group_keys(*final(currency_groups)) == keys
        }),
{
    let ghost g = currency_groups_map(*currency_groups);
    let ghost keys = currency_group_keys(*currency_groups);
    let all = currency_groups.keys();
    proof {
        assert(g.dom().contains(g.dom().choose()));
        let k = only_key(g);
        assert(g.contains_key(k));
        let i = choose|i: int| 0 <= i < all@.len() && all@[i]@ == k;
        assert(all@.len() > 0);
        if all@[0]@ != k {
            assert(g.dom().contains(all@[0]@));
            assert(g.dom().remove(k).contains(all@[0]@));
            assert(g.dom().remove(k).len() != 0);
        }
    }
    let only_bucket = all[0].clone();
    let currency = match unknown.currency {
        Some(c) => Some(c),
        None => if posting.price.is_none() && posting.cost.is_none() {
            Some(only_bucket.clone())
        } else {
            None
        },
    };
    let inferred = AnnotatedPosting {
        idx: unknown.idx,
        currency,
        cost_currency: match unknown.cost_currency {
            Some(c) => Some(c),
            None => Some(only_bucket.clone()),
        },
        price_currency: match unknown.price_currency {
            Some(c) => Some(c),
            None => Some(only_bucket.clone()),
        },
    };
    currency_groups.push_or_insert(only_bucket, inferred);
}

/// Adding the first `n` unknown postings to the group of the currency that
/// their account's positions are in; one whose account gives no currency fails.
pub open spec fn inferred_upto(
    unknown: Seq<AnnotatedPosting>,
    ps: Seq<PostingSpec>,
    base: Map<Seq<char>, Seq<Position>>,
    g: Map<Seq<char>, Seq<AnnotatedPosting>>,
    keys: Map<Seq<char>, String>,
    n: int,
) -> Result<(Map<Seq<char>, Seq<AnnotatedPosting>>, Map<Seq<char>, String>), BookingError>
    decreases n,
{
    if n <= 0 {
        Ok((g, keys))
    } else {
        match inferred_upto(unknown, ps, base, g, keys, n - 1) {
            Err(e) => Err(e),
            Ok((g1, k1)) => {
                let u = unknown[n - 1];
                match account_currency_of(base, ps[u.idx as int].account@) {
                    Some(b) => Ok((g1.insert(b@, group_of(g1, b@).push(u)), keys_after_push(k1, b))),
                    None => Err(BookingError::Posting(u.idx, PostingBookingError::CannotInferAnything)),
                }
            },
        }
    }
}

proof fn lemma_inferred_err_stays(
    unknown: Seq<AnnotatedPosting>,
    ps: Seq<PostingSpec>,
    base: Map<Seq<char>, Seq<Position>>,
    g: Map<Seq<char>, Seq<AnnotatedPosting>>,
    keys: Map<Seq<char>, String>,
    k: int,
    n: int,
)
    requires
        0 <= k <= n,
        inferred_upto(unknown, ps, base, g, keys, k) is Err,
    ensures
        inferred_upto(unknown, ps, base, g, keys, n) == inferred_upto(unknown, ps, base, g, keys, k),
    decreases n - k,
{
    if k < n {
        lemma_inferred_err_stays(unknown, ps, base, g, keys, k + 1, n);
    }
}

/// Infer the currencies of the unknown postings from their accounts.
fn infer_unknowns_from_account_inference(
    unknown: Vec<AnnotatedPosting>,
    postings: &Vec<PostingSpec>,
    inventory: &Inventory,
    currency_groups: &mut CurrencyGroups,
) -> (r: Result<(), BookingError>)
    requires
        groups_wf(*old(currency_groups)),
        forall|j: int| 0 <= j < unknown@.len() ==> (#[trigger] unknown@[j]).idx < postings@.len(),
    ensures
        groups_wf(*final(currency_groups)),
        match inferred_upto(
            unknown@,
            postings@,
            inventory_map(*inventory),
            currency_groups_map(*old(currency_groups)),
            currency_group_keys(*old(currency_groups)),
            unknown@.len() as int,
        ) {
            Err(e) => r == Err::<(), BookingError>(e),
            Ok((g, keys)) => r is Ok && currency_groups_map(*final(currency_groups)) == g && currency_group_keys(*final(currency_groups)) == keys,
        },
{
    let ghost g0 = currency_groups_map(*currency_groups);
    let ghost k0 = currency_group_keys(*currency_groups);
    let mut lookups = AccountCurrencies::empty();
    let n = unknown.len();
    let mut j: usize = 0;
    while j < n
        invariant
            n == unknown@.len(),
            j <= n,
            g0 == currency_groups_map(*old(currency_groups)),
            k0 == currency_group_keys(*old(currency_groups)),
            forall|j: int| 0 <= j < unknown@.len() ==> (#[trigger] unknown@[j]).idx < postings@.len(),
            groups_wf(*currency_groups),
            lookups_agree(account_currencies_map(lookups), inventory_map(*inventory)),
            inferred_upto(unknown@, postings@, inventory_map(*inventory), g0, k0, j as int) == Ok::<(Map<Seq<char>, Seq<AnnotatedPosting>>, Map<Seq<char>, String>), BookingError>(
                (currency_groups_map(*currency_groups), currency_group_keys(*currency_groups)),
            ),
        decreases n - j,
    {
        let u = unknown[j].duplicate();
        let account = &postings[u.idx].account;
        match account_currency(account, inventory, &mut lookups) {
            Some(bucket) => {
                currency_groups.push_or_insert(bucket, u);
            },
            None => {
                proof {
                    assert(u == unknown@[j as int]);
                    assert(inferred_upto(unknown@, postings@, inventory_map(*inventory), g0, k0, j + 1)
                        == Err::<(Map<Seq<char>, Seq<AnnotatedPosting>>, Map<Seq<char>, String>), BookingError>(
                        BookingError::Posting(u.idx, PostingBookingError::CannotInferAnything),
                    ));
                    lemma_inferred_err_stays(unknown@, postings@, inventory_map(*inventory), g0, k0, j + 1, n as int);
                }
                return Err(BookingError::Posting(u.idx, PostingBookingError::CannotInferAnything));
            },
        }
        j = j + 1;
    }
    Ok(())
}

/// The groups with each auto-posting added to the group of its bucket.
pub open spec fn with_autos(
    g: Map<Seq<char>, Seq<AnnotatedPosting>>,
    autos: Map<Option<Seq<char>>, (Option<String>, AnnotatedPosting)>,
) -> Map<Seq<char>, Seq<AnnotatedPosting>> {
    Map::new(
        |k: Seq<char>| g.contains_key(k) || autos.contains_key(Some(k)),
        |k: Seq<char>|
            if autos.contains_key(Some(k)) {
                group_of(g, k).push(autos[Some(k)].1)
            } else {
                g[k]
            },
    )
}

/// The currency strings of the groups once the auto-postings are added: a
/// new group takes its bucket as the auto-postings hold it.
pub open spec fn keys_with_autos(
    keys: Map<Seq<char>, String>,
    autos: Map<Option<Seq<char>>, (Option<String>, AnnotatedPosting)>,
) -> Map<Seq<char>, String> {
    Map::new(
        |k: Seq<char>| keys.contains_key(k) || autos.contains_key(Some(k)),
        |k: Seq<char>|
            if keys.contains_key(k) {
                keys[k]
            } else {
                autos[Some(k)].0.unwrap()
            },
    )
}

/// `v` lists the currency strings of the groups, each once.
pub open spec fn lists_keys(v: Seq<String>, keys: Map<Seq<char>, String>) -> bool {
    &&& forall|i: int| 0 <= i < v.len() ==> #[trigger] keys.contains_key(v[i]@) && keys[v[i]@] == v[i]
    &&& forall|i: int, j: int| 0 <= i < j < v.len() ==> (#[trigger] v[i])@ != (#[trigger] v[j])@
    &&& forall|k: Seq<char>| #[trigger] keys.contains_key(k) ==> exists|i: int| 0 <= i < v.len() && v[i]@ == k
}

/// Placing the auto-postings: one without a bucket must be the only
/// auto-posting and goes to the only group there is (no group, or several,
/// fail); otherwise each goes to the group of its bucket.
pub open spec fn autos_outcome(
    r: Result<(), BookingError>,
    autos: Map<Option<Seq<char>>, (Option<String>, AnnotatedPosting)>,
    g0: Map<Seq<char>, Seq<AnnotatedPosting>>,
    keys0: Map<Seq<char>, String>,
    g1: Map<Seq<char>, Seq<AnnotatedPosting>>,
    keys1: Map<Seq<char>, String>,
) -> bool {
    if autos.contains_key(None) {
        let a = autos[None].1;
        if autos.remove(None).dom() != Set::<Option<Seq<char>>>::empty() {
            r == Err::<(), BookingError>(BookingError::Posting(a.idx, PostingBookingError::AmbiguousAutoPost))
        } else if g0.dom() == Set::<Seq<char>>::empty() {
            r == Err::<(), BookingError>(BookingError::Transaction(TransactionBookingError::CannotDetermineCurrencyForBalancing))
        } else if g0.dom() == Set::<Seq<char>>::empty().insert(only_key(g0)) {
            r is Ok && g1 == g0.insert(only_key(g0), g0[only_key(g0)].push(a)) && keys1 == keys0
        } else {
            r matches Err(BookingError::Transaction(TransactionBookingError::AutoPostMultipleBuckets(v))) && lists_keys(v@, keys0)
        }
    } else {
        r is Ok && g1 == with_autos(g0, autos) && keys1 == keys_with_autos(keys0, autos)
    }
}

/// The auto-postings of the first `n` entries, by bucket.
pub open spec fn entries_upto(es: Seq<(Option<String>, AnnotatedPosting)>, n: int) -> Map<Option<Seq<char>>, (Option<String>, AnnotatedPosting)>
    decreases n,
{
    if n <= 0 {
        Map::empty()
    } else {
        entries_upto(es, n - 1).insert(opt_view(es[n - 1].0), es[n - 1])
    }
}

/// Place the auto-postings into the groups.
fn categorize_auto_postings(auto_postings: AutoPostings, currency_groups: &mut CurrencyGroups) -> (r: Result<(), BookingError>)
    requires
        groups_wf(*old(currency_groups)),
        forall|b: Option<Seq<char>>| #[trigger] auto_postings_map(auto_postings).contains_key(b)
            ==> opt_view(auto_postings_map(auto_postings)[b].0) == b,
    ensures
        r is Ok ==> groups_wf(*final(currency_groups)),
        autos_outcome(
            r,
            auto_postings_map(auto_postings),
            currency_groups_map(*old(currency_groups)),
            currency_group_keys(*old(currency_groups)),
            currency_groups_map(*final(currency_groups)),
            currency_group_keys(*final(currency_groups)),
        ),
{
    let ghost autos = auto_postings_map(auto_postings);
    let ghost g0 = currency_groups_map(*currency_groups);
    let ghost k0 = currency_group_keys(*currency_groups);
    let mut auto_postings = auto_postings;
    match auto_postings.remove(&None) {
        Some(auto_posting) => {
            if !auto_postings.is_empty() {
                return Err(BookingError::Posting(auto_posting.idx, PostingBookingError::AmbiguousAutoPost));
            }
            // can only have a currency-ambiguous auto-post if there's a single bucket
            let all_buckets = currency_groups.keys();
            if all_buckets.len() == 0 {
                proof {
                    assert forall|k: Seq<char>| !g0.dom().contains(k) by {
                        if g0.contains_key(k) {
                            let i = choose|i: int| 0 <= i < all_buckets@.len() && all_buckets@[i]@ == k;
                        }
                    }
                    assert(g0.dom() =~= Set::<Seq<char>>::empty());
                }
                Err(BookingError::Transaction(TransactionBookingError::CannotDetermineCurrencyForBalancing))
            } else if all_buckets.len() == 1 {
                let sole_bucket = all_buckets[0].clone();
                proof {
                    let k = all_buckets@[0]@;
                    assert(g0.dom() =~= Set::<Seq<char>>::empty().insert(k)) by {
                        assert forall|x: Seq<char>| g0.dom().contains(x) implies x == k by {
                            assert(g0.contains_key(x));
                        }
                    }
                    assert(g0.contains_key(only_key(g0)));
                    assert(only_key(g0) == k);
                    assert(k0.contains_key(k));
                }
                currency_groups.push_or_insert(sole_bucket, auto_posting);
                Ok(())
            } else {
                proof {
                    let a = all_buckets@[0]@;
                    let b = all_buckets@[1]@;
                    assert(g0.contains_key(a) && g0.contains_key(b) && a != b);
                    if g0.dom() == Set::<Seq<char>>::empty().insert(only_key(g0)) {
                        assert(g0.dom().contains(a) && g0.dom().contains(b));
                    }
                    assert(!g0.dom().is_empty()) by {
                        assert(g0.dom().contains(a));
                    }
                    assert(g0.dom() != Set::<Seq<char>>::empty()) by {
                        assert(g0.dom().contains(a));
                    }
                }
                Err(BookingError::Transaction(TransactionBookingError::AutoPostMultipleBuckets(all_buckets)))
            }
        },
        None => {
            assert(auto_postings_map(auto_postings) =~= autos);
            let entries = auto_postings.into_entries();
            let n = entries.len();
            let mut i: usize = 0;
            while i < n
                invariant
                    n == entries@.len(),
                    i <= n,
                    !autos.contains_key(None),
                    forall|b: Option<Seq<char>>| #[trigger] autos.contains_key(b) ==> opt_view(autos[b].0) == b,
                    forall|j: int| 0 <= j < entries@.len() ==> #[trigger] autos.contains_key(opt_view(entries@[j].0)) && autos[opt_view(entries@[j].0)] == entries@[j],
                    forall|j: int, l: int| 0 <= j < l < entries@.len() ==> opt_view((#[trigger] entries@[j]).0) != opt_view((#[trigger] entries@[l]).0),
                    groups_wf(*currency_groups),
                    currency_groups_map(*currency_groups) == with_autos(g0, entries_upto(entries@, i as int)),
                    currency_group_keys(*currency_groups) == keys_with_autos(k0, entries_upto(entries@, i as int)),
                decreases n - i,
            {
                let bucket = copy_opt_str(&entries[i].0);
                let auto_posting = entries[i].1.duplicate();
                let ghost e = entries@[i as int];
                let ghost m = entries_upto(entries@, i as int);
                proof {
                    assert(autos.contains_key(opt_view(e.0)));
                    assert(!m.contains_key(opt_view(e.0))) by {
                        lemma_entries_upto_keys(entries@, i as int);
                    }
                }
                match bucket {
                    Some(b) => {
                        currency_groups.push_or_insert(b, auto_posting);
                    },
                    None => {
                        assert(false);
                    },
                }
                proof {
                    let m1 = entries_upto(entries@, i + 1);
                    let k = opt_view(e.0).unwrap();
                    assert(currency_groups_map(*currency_groups) =~= with_autos(g0, m1));
                    assert(currency_group_keys(*currency_groups) =~= keys_with_autos(k0, m1));
                }
                i = i + 1;
            }
            proof {
                lemma_entries_upto_keys(entries@, n as int);
                let em = entries_upto(entries@, n as int);
                assert(em =~= autos) by {
                    assert forall|b: Option<Seq<char>>| #[trigger] autos.contains_key(b) implies em.contains_key(b) by {
                        let j = choose|j: int| 0 <= j < entries@.len() && opt_view(entries@[j].0) == b;
                    }
                    assert forall|b: Option<Seq<char>>| #[trigger] em.contains_key(b) implies autos.contains_key(b) && em[b] == autos[b] by {
                        let j = choose|j: int| 0 <= j < n && opt_view(entries@[j].0) == b;
                        assert(em[opt_view(entries@[j].0)] == entries@[j]);
                        assert(autos.contains_key(opt_view(entries@[j].0)));
                    }
                }
            }
            Ok(())
        },
    }
}

/// The keys of the auto-postings of the first `n` entries are theirs, and
/// each is that of its entry.
proof fn lemma_entries_upto_keys(es: Seq<(Option<String>, AnnotatedPosting)>, n: int)
    requires
        0 <= n <= es.len(),
        forall|j: int, l: int| 0 <= j < l < es.len() ==> opt_view((#[trigger] es[j]).0) != opt_view((#[trigger] es[l]).0),
    ensures
        forall|b: Option<Seq<char>>| #[trigger] entries_upto(es, n).contains_key(b) <==> exists|j: int| 0 <= j < n && opt_view(es[j].0) == b,
        forall|j: int| 0 <= j < n ==> #[trigger] entries_upto(es, n)[opt_view(es[j].0)] == es[j],
    decreases n,
{
    if n > 0 {
        lemma_entries_upto_keys(es, n - 1);
        let m = entries_upto(es, n - 1);
        assert(entries_upto(es, n) == m.insert(opt_view(es[n - 1].0), es[n - 1]));
        assert forall|b: Option<Seq<char>>| #[trigger] entries_upto(es, n).contains_key(b) <==> exists|j: int| 0 <= j < n && opt_view(es[j].0) == b by {
            if b == opt_view(es[n - 1].0) {
                assert(0 <= n - 1 < n && opt_view(es[n - 1].0) == b);
            } else if m.contains_key(b) {
                let j = choose|j: int| 0 <= j < n - 1 && opt_view(es[j].0) == b;
                assert(0 <= j < n && opt_view(es[j].0) == b);
            } else if exists|j: int| 0 <= j < n && opt_view(es[j].0) == b {
                let j = choose|j: int| 0 <= j < n && opt_view(es[j].0) == b;
                assert(j != n - 1);
                assert(0 <= j < n - 1 && opt_view(es[j].0) == b);
            }
        }
        assert forall|j: int| 0 <= j < n implies #[trigger] entries_upto(es, n)[opt_view(es[j].0)] == es[j] by {
            if j < n - 1 {
                assert(opt_view(es[j].0) != opt_view(es[n - 1].0));
                assert(m[opt_view(es[j].0)] == es[j]);
            }
        }
    }
}

/// Some group holds the posting of index `i`.
pub open spec fn in_groups(g: Map<Seq<char>, Seq<AnnotatedPosting>>, i: usize) -> bool {
    exists|k: Seq<char>, j: int| g.contains_key(k) && 0 <= j < g[k].len() && (#[trigger] g[k][j]).idx == i
}

/// Every posting that the groups hold has an index below `n`.
pub open spec fn groups_within(g: Map<Seq<char>, Seq<AnnotatedPosting>>, n: int) -> bool {
    forall|k: Seq<char>, j: int| g.contains_key(k) && 0 <= j < g[k].len() ==> (#[trigger] g[k][j]).idx < n
}

/// The groups hold the postings of every index below `n`, and no other.
pub open spec fn groups_cover(g: Map<Seq<char>, Seq<AnnotatedPosting>>, n: int) -> bool {
    &&& groups_within(g, n)
    &&& forall|i: usize| 0 <= i < n ==> #[trigger] in_groups(g, i)
}

proof fn lemma_push_groups(g: Map<Seq<char>, Seq<AnnotatedPosting>>, b: Seq<char>, a: AnnotatedPosting, n: int)
    ensures
        forall|i: usize| #[trigger] in_groups(g, i) ==> in_groups(g.insert(b, group_of(g, b).push(a)), i),
        in_groups(g.insert(b, group_of(g, b).push(a)), a.idx),
        groups_within(g, n) && a.idx < n ==> groups_within(g.insert(b, group_of(g, b).push(a)), n),
{
    let g1 = g.insert(b, group_of(g, b).push(a));
    assert forall|i: usize| #[trigger] in_groups(g, i) implies in_groups(g1, i) by {
        let (k, j) = choose|k: Seq<char>, j: int| g.contains_key(k) && 0 <= j < g[k].len() && (#[trigger] g[k][j]).idx == i;
        assert(g1.contains_key(k) && g1[k][j] == g[k][j]);
    }
    assert(g1[b][group_of(g, b).len() as int] == a);
    if groups_within(g, n) && a.idx < n {
        assert forall|k: Seq<char>, j: int| g1.contains_key(k) && 0 <= j < g1[k].len() implies (#[trigger] g1[k][j]).idx < n by {
            if k == b && j < group_of(g, b).len() {
                assert(g1[k][j] == g[k][j]);
            } else if k != b {
                assert(g1[k][j] == g[k][j]);
            }
        }
    }
}

/// The postings so far categorized: the groups hold finitely many
/// currencies, each auto-posting is under its own bucket, and every posting
/// is in a group, among the auto-postings or unknown, each with its index.
proof fn lemma_categorized_props(ps: Seq<PostingSpec>, n: int)
    requires
        0 <= n <= ps.len(),
        n <= usize::MAX,
    ensures
        categorized_upto(ps, n) matches Ok((g, keys, autos, u)) ==> {
            &&& g.dom().finite()
            &&& forall|b: Option<Seq<char>>| #[trigger] autos.contains_key(b) ==> opt_view(autos[b].0) == b && autos[b].1.idx < n
            &&& forall|j: int| 0 <= j < u.len() ==> (#[trigger] u[j]).idx < n
            &&& groups_within(g, n)
            &&& forall|i: usize| 0 <= i < n ==> #[trigger] in_groups(g, i)
                || (exists|b: Option<Seq<char>>| #[trigger] autos.contains_key(b) && autos[b].1.idx == i)
                || (exists|j: int| 0 <= j < u.len() && (#[trigger] u[j]).idx == i)
        },
    decreases n,
{
    if n > 0 {
        lemma_categorized_props(ps, n - 1);
        if let Ok((g0, k0, a0, u0)) = categorized_upto(ps, n - 1) {
            let p = ps[n - 1];
            let a = annotation(p, (n - 1) as usize);
            let bucket = bucket_of(a, p);
            if let Ok((g, keys, autos, u)) = categorized_upto(ps, n) {
                if p.units is None && p.currency is None {
                    assert forall|i: usize| 0 <= i < n implies #[trigger] in_groups(g, i)
                        || (exists|b: Option<Seq<char>>| #[trigger] autos.contains_key(b) && autos[b].1.idx == i)
                        || (exists|j: int| 0 <= j < u.len() && (#[trigger] u[j]).idx == i) by {
                        if i == n - 1 {
                            assert(autos.contains_key(opt_view(bucket)) && autos[opt_view(bucket)].1.idx == i);
                        } else if exists|b: Option<Seq<char>>| #[trigger] a0.contains_key(b) && a0[b].1.idx == i {
                            let b = choose|b: Option<Seq<char>>| #[trigger] a0.contains_key(b) && a0[b].1.idx == i;
                            assert(autos.contains_key(b) && autos[b].1.idx == i);
                        }
                    }
                } else if let Some(b) = bucket {
                    lemma_push_groups(g0, b@, a, n);
                    assert(g.dom() == g0.dom().insert(b@));
                    assert forall|i: usize| 0 <= i < n implies #[trigger] in_groups(g, i)
                        || (exists|b: Option<Seq<char>>| #[trigger] autos.contains_key(b) && autos[b].1.idx == i)
                        || (exists|j: int| 0 <= j < u.len() && (#[trigger] u[j]).idx == i) by {
                        if i < n - 1 && in_groups(g0, i) {
                            assert(in_groups(g, i));
                        }
                    }
                } else {
                    assert forall|i: usize| 0 <= i < n implies #[trigger] in_groups(g, i)
                        || (exists|b: Option<Seq<char>>| #[trigger] autos.contains_key(b) && autos[b].1.idx == i)
                        || (exists|j: int| 0 <= j < u.len() && (#[trigger] u[j]).idx == i) by {
                        if i == n - 1 {
                            assert(u[u.len() - 1].idx == i);
                        } else if exists|j: int| 0 <= j < u0.len() && (#[trigger] u0[j]).idx == i {
                            let j = choose|j: int| 0 <= j < u0.len() && (#[trigger] u0[j]).idx == i;
                            assert(u[j] == u0[j]);
                        }
                    }
                }
            }
        }
    }
}

proof fn lemma_inferred_props(
    unknown: Seq<AnnotatedPosting>,
    ps: Seq<PostingSpec>,
    base: Map<Seq<char>, Seq<Position>>,
    g: Map<Seq<char>, Seq<AnnotatedPosting>>,
    keys: Map<Seq<char>, String>,
    n: int,
    total: int,
)
    requires
        0 <= n <= unknown.len(),
        groups_within(g, total),
        forall|j: int| 0 <= j < unknown.len() ==> (#[trigger] unknown[j]).idx < total,
    ensures
        inferred_upto(unknown, ps, base, g, keys, n) matches Ok((g1, k1)) ==> {
            &&& groups_within(g1, total)
            &&& forall|i: usize| #[trigger] in_groups(g, i) ==> in_groups(g1, i)
            &&& forall|j: int| 0 <= j < n ==> in_groups(g1, (#[trigger] unknown[j]).idx)
        },
    decreases n,
{
    if n > 0 {
        lemma_inferred_props(unknown, ps, base, g, keys, n - 1, total);
        if let Ok((g0, k0)) = inferred_upto(unknown, ps, base, g, keys, n - 1) {
            let u = unknown[n - 1];
            if let Some(b) = account_currency_of(base, ps[u.idx as int].account@) {
                lemma_push_groups(g0, b@, u, total);
                let g1 = g0.insert(b@, group_of(g0, b@).push(u));
                assert forall|j: int| 0 <= j < n implies in_groups(g1, (#[trigger] unknown[j]).idx) by {
                    if j < n - 1 {
                        assert(in_groups(g0, unknown[j].idx));
                    }
                }
            }
        }
    }
}

proof fn lemma_autos_props(
    autos: Map<Option<Seq<char>>, (Option<String>, AnnotatedPosting)>,
    g: Map<Seq<char>, Seq<AnnotatedPosting>>,
    keys: Map<Seq<char>, String>,
    g1: Map<Seq<char>, Seq<AnnotatedPosting>>,
    keys1: Map<Seq<char>, String>,
    total: int,
)
    requires
        autos_outcome(Ok(()), autos, g, keys, g1, keys1),
        groups_within(g, total),
        forall|b: Option<Seq<char>>| #[trigger] autos.contains_key(b) ==> autos[b].1.idx < total,
    ensures
        groups_within(g1, total),
        forall|i: usize| #[trigger] in_groups(g, i) ==> in_groups(g1, i),
        forall|b: Option<Seq<char>>| #[trigger] autos.contains_key(b) ==> in_groups(g1, autos[b].1.idx),
{
    if autos.contains_key(None) {
        let a = autos[None].1;
        let k = only_key(g);
        assert(g.dom().contains(k)) by {
            assert(g.dom() == Set::<Seq<char>>::empty().insert(only_key(g)));
        }
        lemma_push_groups(g, k, a, total);
        assert(group_of(g, k) == g[k]);
        assert forall|b: Option<Seq<char>>| #[trigger] autos.contains_key(b) implies in_groups(g1, autos[b].1.idx) by {
            if b != None::<Seq<char>> {
                assert(autos.remove(None).dom().contains(b));
            }
        }
    } else {
        assert forall|i: usize| #[trigger] in_groups(g, i) implies in_groups(g1, i) by {
            let (k, j) = choose|k: Seq<char>, j: int| g.contains_key(k) && 0 <= j < g[k].len() && (#[trigger] g[k][j]).idx == i;
            assert(g1.contains_key(k) && g1[k][j] == g[k][j]);
        }
        assert forall|b: Option<Seq<char>>| #[trigger] autos.contains_key(b) implies in_groups(g1, autos[b].1.idx) by {
            let k = b.unwrap();
            assert(g1.contains_key(k));
            assert(g1[k][g1[k].len() - 1] == autos[b].1);
        }
        assert forall|k: Seq<char>, j: int| g1.contains_key(k) && 0 <= j < g1[k].len() implies (#[trigger] g1[k][j]).idx < total by {
            if autos.contains_key(Some(k)) {
                if j < group_of(g, k).len() {
                    assert(g1[k][j] == g[k][j]);
                }
            } else {
                assert(g1[k][j] == g[k][j]);
            }
        }
    }
}

/// No two places in the groups hold postings of the same index.
pub open spec fn groups_distinct(g: Map<Seq<char>, Seq<AnnotatedPosting>>) -> bool {
    forall|k1: Seq<char>, j1: int, k2: Seq<char>, j2: int|
        g.contains_key(k1) && 0 <= j1 < g[k1].len() && g.contains_key(k2) && 0 <= j2 < g[k2].len()
            && (#[trigger] g[k1][j1]).idx == (#[trigger] g[k2][j2]).idx ==> k1 == k2 && j1 == j2
}

/// The auto-postings and the unknown postings hold no index twice, and none
/// that the groups hold.
pub open spec fn placed_once(
    g: Map<Seq<char>, Seq<AnnotatedPosting>>,
    autos: Map<Option<Seq<char>>, (Option<String>, AnnotatedPosting)>,
    u: Seq<AnnotatedPosting>,
) -> bool {
    &&& groups_distinct(g)
    &&& forall|b: Option<Seq<char>>| #[trigger] autos.contains_key(b) ==> !in_groups(g, autos[b].1.idx)
    &&& forall|j: int| 0 <= j < u.len() ==> !in_groups(g, (#[trigger] u[j]).idx)
    &&& forall|b1: Option<Seq<char>>, b2: Option<Seq<char>>| #[trigger] autos.contains_key(b1) && #[trigger] autos.contains_key(b2)
        && autos[b1].1.idx == autos[b2].1.idx ==> b1 == b2
    &&& forall|j1: int, j2: int| 0 <= j1 < u.len() && 0 <= j2 < u.len() && (#[trigger] u[j1]).idx == (#[trigger] u[j2]).idx ==> j1 == j2
    &&& forall|b: Option<Seq<char>>, j: int| #[trigger] autos.contains_key(b) && 0 <= j < u.len() ==> autos[b].1.idx != (#[trigger] u[j]).idx
}

proof fn lemma_push_distinct(g: Map<Seq<char>, Seq<AnnotatedPosting>>, b: Seq<char>, a: AnnotatedPosting)
    requires
        groups_distinct(g),
        !in_groups(g, a.idx),
    ensures
        groups_distinct(g.insert(b, group_of(g, b).push(a))),
        forall|i: usize| #[trigger] in_groups(g.insert(b, group_of(g, b).push(a)), i) ==> in_groups(g, i) || i == a.idx,
{
    let g1 = g.insert(b, group_of(g, b).push(a));
    let last = group_of(g, b).len() as int;
    assert forall|k: Seq<char>, j: int| g1.contains_key(k) && 0 <= j < g1[k].len() && !(k == b && j == last)
        implies g.contains_key(k) && 0 <= j < g[k].len() && g1[k][j] == g[k][j] by {
    }
    assert forall|k1: Seq<char>, j1: int, k2: Seq<char>, j2: int|
        g1.contains_key(k1) && 0 <= j1 < g1[k1].len() && g1.contains_key(k2) && 0 <= j2 < g1[k2].len()
            && (#[trigger] g1[k1][j1]).idx == (#[trigger] g1[k2][j2]).idx implies k1 == k2 && j1 == j2 by {
        let first = k1 == b && j1 == last;
        let second = k2 == b && j2 == last;
        if first && !second {
            assert(g1[k2][j2] == g[k2][j2]);
            assert(in_groups(g, a.idx));
        } else if !first && second {
            assert(g1[k1][j1] == g[k1][j1]);
            assert(in_groups(g, a.idx));
        } else if !first && !second {
            assert(g1[k1][j1] == g[k1][j1] && g1[k2][j2] == g[k2][j2]);
        }
    }
    assert forall|i: usize| #[trigger] in_groups(g1, i) implies in_groups(g, i) || i == a.idx by {
        let (k, j) = choose|k: Seq<char>, j: int| g1.contains_key(k) && 0 <= j < g1[k].len() && (#[trigger] g1[k][j]).idx == i;
        if !(k == b && j == last) {
            assert(g.contains_key(k) && 0 <= j < g[k].len() && g[k][j].idx == i);
        }
    }
}

/// Categorizing the postings places each of them once.
proof fn lemma_categorized_distinct(ps: Seq<PostingSpec>, n: int)
    requires
        0 <= n <= ps.len(),
        n <= usize::MAX,
    ensures
        categorized_upto(ps, n) matches Ok((g, keys, autos, u)) ==> placed_once(g, autos, u),
    decreases n,
{
    if n > 0 {
        lemma_categorized_distinct(ps, n - 1);
        lemma_categorized_props(ps, n - 1);
        if let Ok((g0, k0, a0, u0)) = categorized_upto(ps, n - 1) {
            let p = ps[n - 1];
            let a = annotation(p, (n - 1) as usize);
            let bucket = bucket_of(a, p);
            assert(a.idx == n - 1);
            assert(!in_groups(g0, a.idx)) by {
                if in_groups(g0, a.idx) {
                    let (k, j) = choose|k: Seq<char>, j: int| g0.contains_key(k) && 0 <= j < g0[k].len() && (#[trigger] g0[k][j]).idx == a.idx;
                }
            }
            if let Ok((g, keys, autos, u)) = categorized_upto(ps, n) {
                if p.units is None && p.currency is None {
                    assert(autos == a0.insert(opt_view(bucket), (bucket, a)));
                    assert(placed_once(g, autos, u));
                } else if let Some(b) = bucket {
                    lemma_push_distinct(g0, b@, a);
                    assert(placed_once(g, autos, u));
                } else {
                    assert(u == u0.push(a));
                    assert(placed_once(g, autos, u));
                }
            }
        }
    }
}

proof fn lemma_inferred_distinct(
    unknown: Seq<AnnotatedPosting>,
    ps: Seq<PostingSpec>,
    base: Map<Seq<char>, Seq<Position>>,
    g: Map<Seq<char>, Seq<AnnotatedPosting>>,
    keys: Map<Seq<char>, String>,
    n: int,
)
    requires
        0 <= n <= unknown.len(),
        groups_distinct(g),
        forall|j: int| 0 <= j < unknown.len() ==> !in_groups(g, (#[trigger] unknown[j]).idx),
        forall|j1: int, j2: int| 0 <= j1 < unknown.len() && 0 <= j2 < unknown.len() && (#[trigger] unknown[j1]).idx == (#[trigger] unknown[j2]).idx ==> j1 == j2,
    ensures
        inferred_upto(unknown, ps, base, g, keys, n) matches Ok((g1, k1)) ==> {
            &&& groups_distinct(g1)
            &&& forall|i: usize| #[trigger] in_groups(g1, i) ==> in_groups(g, i) || exists|j: int| 0 <= j < n && (#[trigger] unknown[j]).idx == i
        },
    decreases n,
{
    if n > 0 {
        lemma_inferred_distinct(unknown, ps, base, g, keys, n - 1);
        if let Ok((g0, k0)) = inferred_upto(unknown, ps, base, g, keys, n - 1) {
            let u = unknown[n - 1];
            if let Some(b) = account_currency_of(base, ps[u.idx as int].account@) {
                assert(!in_groups(g0, u.idx)) by {
                    if in_groups(g0, u.idx) {
                        assert(!in_groups(g, unknown[n - 1].idx));
                        let j = choose|j: int| 0 <= j < n - 1 && (#[trigger] unknown[j]).idx == u.idx;
                    }
                }
                lemma_push_distinct(g0, b@, u);
                let g1 = g0.insert(b@, group_of(g0, b@).push(u));
                assert forall|i: usize| #[trigger] in_groups(g1, i) implies in_groups(g, i) || exists|j: int| 0 <= j < n && (#[trigger] unknown[j]).idx == i by {
                    if in_groups(g0, i) {
                        if !in_groups(g, i) {
                            let j = choose|j: int| 0 <= j < n - 1 && (#[trigger] unknown[j]).idx == i;
                            assert(0 <= j < n && unknown[j].idx == i);
                        }
                    } else {
                        assert(unknown[n - 1].idx == i);
                    }
                }
            }
        }
    }
}

proof fn lemma_autos_distinct(
    autos: Map<Option<Seq<char>>, (Option<String>, AnnotatedPosting)>,
    g: Map<Seq<char>, Seq<AnnotatedPosting>>,
    keys: Map<Seq<char>, String>,
    g1: Map<Seq<char>, Seq<AnnotatedPosting>>,
    keys1: Map<Seq<char>, String>,
)
    requires
        autos_outcome(Ok(()), autos, g, keys, g1, keys1),
        groups_distinct(g),
        forall|b: Option<Seq<char>>| #[trigger] autos.contains_key(b) ==> !in_groups(g, autos[b].1.idx),
        forall|b1: Option<Seq<char>>, b2: Option<Seq<char>>| #[trigger] autos.contains_key(b1) && #[trigger] autos.contains_key(b2)
            && autos[b1].1.idx == autos[b2].1.idx ==> b1 == b2,
    ensures
        groups_distinct(g1),
{
    if autos.contains_key(None) {
        let a = autos[None].1;
        let k = only_key(g);
        assert(g.dom().contains(k)) by {
            assert(g.dom() == Set::<Seq<char>>::empty().insert(only_key(g)));
        }
        assert(group_of(g, k) == g[k]);
        lemma_push_distinct(g, k, a);
    } else {
        assert forall|k1: Seq<char>, j1: int, k2: Seq<char>, j2: int|
            g1.contains_key(k1) && 0 <= j1 < g1[k1].len() && g1.contains_key(k2) && 0 <= j2 < g1[k2].len()
                && (#[trigger] g1[k1][j1]).idx == (#[trigger] g1[k2][j2]).idx implies k1 == k2 && j1 == j2 by {
            let first = autos.contains_key(Some(k1)) && j1 == group_of(g, k1).len();
            let second = autos.contains_key(Some(k2)) && j2 == group_of(g, k2).len();
            if !first {
                assert(g.contains_key(k1) && 0 <= j1 < g[k1].len() && g1[k1][j1] == g[k1][j1]);
            }
            if !second {
                assert(g.contains_key(k2) && 0 <= j2 < g[k2].len() && g1[k2][j2] == g[k2][j2]);
            }
            if first && second {
                assert(autos[Some(k1)].1.idx == autos[Some(k2)].1.idx);
            } else if first {
                assert(g1[k1][j1] == autos[Some(k1)].1);
                assert(in_groups(g, autos[Some(k1)].1.idx));
            } else if second {
                assert(g1[k2][j2] == autos[Some(k2)].1);
                assert(in_groups(g, autos[Some(k2)].1.idx));
            }
        }
    }
}

/// The postings of a transaction categorized by currency: sorted into groups,
/// auto-postings and unknown; a single unknown posting where there is a
/// single group is inferred from it; other unknowns from their accounts'
/// positions in the inventory; then the auto-postings placed.
pub open spec fn categorized_as(r: Result<CurrencyGroups, BookingError>, ps: Seq<PostingSpec>, base: Map<Seq<char>, Seq<Position>>) -> bool {
    match categorized_upto(ps, ps.len() as int) {
        Err(e) => r == Err::<CurrencyGroups, BookingError>(e),
        Ok((g1, k1, autos, unknown)) => {
            let single = unknown.len() == 1 && g1.len() == 1;
            let g2 = if single {
                g1.insert(only_key(g1), g1[only_key(g1)].push(inferred_from_bucket(unknown[0], ps[unknown[0].idx as int], k1[only_key(g1)])))
            } else {
                g1
            };
            let unknown2 = if single {
                Seq::<AnnotatedPosting>::empty()
            } else {
                unknown
            };
            match inferred_upto(unknown2, ps, base, g2, k1, unknown2.len() as int) {
                Err(e) => r == Err::<CurrencyGroups, BookingError>(e),
                Ok((g3, k3)) => match r {
                    Ok(cg) => autos_outcome(Ok(()), autos, g3, k3, currency_groups_map(cg), currency_group_keys(cg)),
                    Err(e) => autos_outcome(Err(e), autos, g3, k3, g3, k3),
                },
            }
        },
    }
}

/// Categorize the postings by currency: each posting lands in exactly one
/// place of one group.
pub fn categorize_by_currency(postings: &Vec<PostingSpec>, inventory: &Inventory) -> (r: Result<CurrencyGroups, BookingError>)
    ensures
        categorized_as(r, postings@, inventory_map(*inventory)),
        r matches Ok(cg) ==> groups_wf(cg) && groups_cover(currency_groups_map(cg), postings@.len() as int)
            && groups_distinct(currency_groups_map(cg)),
{
    let ghost ps = postings@;
    let len = postings.len();
    let ghost n = len as int;
    let mut currency_groups = CurrencyGroups::empty();
    let mut auto_postings = AutoPostings::empty();
    let mut unknown: Vec<AnnotatedPosting> = Vec::new();
    categorize_with_auto_postings_and_unknowns(postings, &mut currency_groups, &mut auto_postings, &mut unknown)?;
    proof {
        lemma_categorized_props(ps, n);
        lemma_categorized_distinct(ps, n);
    }
    let ghost g1 = currency_groups_map(currency_groups);
    let ghost k1 = currency_group_keys(currency_groups);
    let ghost autos = auto_postings_map(auto_postings);
    let ghost unknown1 = unknown@;
    // if we have a single unknown posting and all others are of the same
    // currency, infer that for the unknown
    if unknown.len() == 1 && currency_groups.len() == 1 {
        let u = unknown.pop().unwrap();
        assert(u == unknown1[0]);
        let ghost gu = u;
        let uidx = u.idx;
        infer_unknown_from_single_currency_group(u, &postings[uidx], &mut currency_groups);
        proof {
            let u = gu;
            let k = only_key(g1);
            assert(g1.dom().contains(g1.dom().choose()));
            assert(g1.contains_key(k));
            lemma_push_groups(g1, k, inferred_from_bucket(u, ps[u.idx as int], k1[k]), n);
            assert(group_of(g1, k) == g1[k]);
            assert(unknown@ == Seq::<AnnotatedPosting>::empty());
        }
    }
    let ghost g2 = currency_groups_map(currency_groups);
    let ghost k2 = currency_group_keys(currency_groups);
    let ghost unknown2 = unknown@;
    proof {
        if unknown1.len() == 1 && g1.len() == 1 {
            let u = unknown1[0];
            let k = only_key(g1);
            let inferred = inferred_from_bucket(u, ps[u.idx as int], k1[k]);
            assert(g1.dom().contains(g1.dom().choose()));
            assert(group_of(g1, k) == g1[k]);
            assert(!in_groups(g1, inferred.idx));
            lemma_push_distinct(g1, k, inferred);
            assert(unknown2 == Seq::<AnnotatedPosting>::empty());
            assert forall|b: Option<Seq<char>>| #[trigger] autos.contains_key(b) implies !in_groups(g2, autos[b].1.idx) by {
                assert(autos[b].1.idx != unknown1[0].idx);
            }
        }
        assert(placed_once(g2, autos, unknown2));
    }
    proof {
        assert(groups_within(g2, n));
        assert forall|i: usize| 0 <= i < n implies #[trigger] in_groups(g2, i)
            || (exists|b: Option<Seq<char>>| #[trigger] autos.contains_key(b) && autos[b].1.idx == i)
            || (exists|j: int| 0 <= j < unknown2.len() && (#[trigger] unknown2[j]).idx == i) by {
            if unknown1.len() == 1 && g1.len() == 1 {
                if in_groups(g1, i) {
                    assert(in_groups(g2, i));
                } else if exists|j: int| 0 <= j < unknown1.len() && (#[trigger] unknown1[j]).idx == i {
                    assert(unknown1[0].idx == i);
                    assert(in_groups(g2, inferred_from_bucket(unknown1[0], ps[unknown1[0].idx as int], k1[only_key(g1)]).idx));
                }
            }
        }
    }
    // infer all other unknown postings from account inference
    infer_unknowns_from_account_inference(unknown, postings, inventory, &mut currency_groups)?;
    let ghost g3 = currency_groups_map(currency_groups);
    proof {
        lemma_inferred_props(unknown2, ps, inventory_map(*inventory), g2, k2, unknown2.len() as int, n);
        lemma_inferred_distinct(unknown2, ps, inventory_map(*inventory), g2, k2, unknown2.len() as int);
        assert forall|b: Option<Seq<char>>| #[trigger] autos.contains_key(b) implies !in_groups(g3, autos[b].1.idx) by {
            if in_groups(g3, autos[b].1.idx) && !in_groups(g2, autos[b].1.idx) {
                let j = choose|j: int| 0 <= j < unknown2.len() && (#[trigger] unknown2[j]).idx == autos[b].1.idx;
            }
        }
    }
    let ghost k3 = currency_group_keys(currency_groups);
    let result = categorize_auto_postings(auto_postings, &mut currency_groups);
    match result {
        Ok(()) => {
            proof {
                lemma_autos_props(autos, g3, k3, currency_groups_map(currency_groups), currency_group_keys(currency_groups), n);
                lemma_autos_distinct(autos, g3, k3, currency_groups_map(currency_groups), currency_group_keys(currency_groups));
                let g4 = currency_groups_map(currency_groups);
                assert forall|i: usize| 0 <= i < n implies #[trigger] in_groups(g4, i) by {
                    if in_groups(g2, i) {
                        assert(in_groups(g3, i));
                    } else if exists|b: Option<Seq<char>>| #[trigger] autos.contains_key(b) && autos[b].1.idx == i {
                        let b = choose|b: Option<Seq<char>>| #[trigger] autos.contains_key(b) && autos[b].1.idx == i;
                        assert(in_groups(g4, autos[b].1.idx));
                    } else {
                        let j = choose|j: int| 0 <= j < unknown2.len() && (#[trigger] unknown2[j]).idx == i;
                        assert(in_groups(g3, unknown2[j].idx));
                    }
                }
            }
            Ok(currency_groups)
        },
        Err(e) => Err(e),
    }
}

} // verus!
