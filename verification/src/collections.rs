//! The hash maps and sets of booking, each a `hashbrown` collection held in a
//! struct of its own, with what it holds given a name.
use vstd::prelude::*;

use crate::decimal::Dec;
use crate::internal::AnnotatedPosting;
use crate::positions::Positions;
use crate::types::Position;

verus! {

/// The view of an optional string.
pub open spec fn opt_view(o: Option<String>) -> Option<Seq<char>> {
    match o {
        Some(s) => Some(s@),
        None => None,
    }
}

/// A list of string-keyed entries holds exactly the entries of a map, each key once.
pub open spec fn entries_match<V>(es: Seq<(String, V)>, m: Map<Seq<char>, V>) -> bool {
    &&& forall|i: int| 0 <= i < es.len() ==> #[trigger] m.contains_key(es[i].0@) && m[es[i].0@] == es[i].1
    &&& forall|i: int, j: int| 0 <= i < j < es.len() ==> (#[trigger] es[i].0)@ != (#[trigger] es[j].0)@
    &&& forall|k: Seq<char>| #[trigger] m.contains_key(k) ==> exists|i: int| 0 <= i < es.len() && es[i].0@ == k
}

/// A list of accounts with their positions holds exactly the entries of a
/// map, each account once.
pub open spec fn positions_entries_match(es: Seq<(String, Positions)>, m: Map<Seq<char>, Seq<Position>>) -> bool {
    &&& forall|i: int| 0 <= i < es.len() ==> #[trigger] m.contains_key(es[i].0@) && m[es[i].0@] == es[i].1@
    &&& forall|i: int, j: int| 0 <= i < j < es.len() ==> (#[trigger] es[i].0)@ != (#[trigger] es[j].0)@
    &&& forall|k: Seq<char>| #[trigger] m.contains_key(k) ==> exists|i: int| 0 <= i < es.len() && es[i].0@ == k
}

/// No accounts.
pub open spec fn no_accounts() -> Map<Seq<char>, Seq<Position>> {
    Map::empty()
}

/// No currency numbers.
pub open spec fn no_currency_numbers() -> Map<Seq<char>, Dec> {
    Map::empty()
}

/// No groups.
pub open spec fn no_groups() -> Map<Seq<char>, Seq<AnnotatedPosting>> {
    Map::empty()
}

/// All account positions: for each account, by name, its positions.
#[verifier::external_body]
pub struct Inventory {
    value: hashbrown::HashMap<String, Positions>,
}

/// What an inventory holds: the positions of each account, by name.
pub uninterp spec fn inventory_map(inv: Inventory) -> Map<Seq<char>, Seq<Position>>;

impl Inventory {
    /// Makes an empty `hashbrown::HashMap`.
    #[verifier::external_body]
    pub(crate) fn empty() -> (r: Inventory)
        ensures
            inventory_map(r) == no_accounts(),
    {
        Inventory { value: hashbrown::HashMap::new() }
    }

    /// Calls `hashbrown::HashMap::get`: the positions of the account, if any.
    #[verifier::external_body]
    pub fn get(&self, account: &String) -> (r: Option<&Positions>)
        ensures
            r is Some == inventory_map(*self).contains_key(account@),
            r is Some ==> r.unwrap()@ == inventory_map(*self)[account@],
    {
        self.value.get(account)
    }

    /// Calls `hashbrown::HashMap::insert`: the account now has the positions.
    #[verifier::external_body]
    pub(crate) fn insert(&mut self, account: String, positions: Positions)
        ensures
            inventory_map(*final(self)) == inventory_map(*old(self)).insert(account@, positions@),
    {
        self.value.insert(account, positions);
    }

    /// Calls `hashbrown::HashMap::into_iter`: every account with its
    /// positions, each once, in the map's own order.
    #[verifier::external_body]
    pub fn into_entries(self) -> (r: Vec<(String, Positions)>)
        ensures
            positions_entries_match(r@, inventory_map(self)),
    {
        self.value.into_iter().collect()
    }

    /// Calls `hashbrown::HashMap::len`: the number of accounts.
    #[verifier::external_body]
    pub fn len(&self) -> (r: usize)
        ensures
            r == inventory_map(*self).len(),
    {
        self.value.len()
    }
}

impl Default for Inventory {
    fn default() -> (r: Inventory)
        ensures
            inventory_map(r) == no_accounts(),
    {
        Inventory::empty()
    }
}

/// A number for each currency, by name.
#[verifier::external_body]
pub struct CurrencyNumbers {
    value: hashbrown::HashMap<String, Dec>,
}

/// What a map of currency numbers holds.
pub uninterp spec fn currency_numbers_map(m: CurrencyNumbers) -> Map<Seq<char>, Dec>;

impl CurrencyNumbers {
    /// Makes an empty `hashbrown::HashMap`.
    #[verifier::external_body]
    pub(crate) fn empty() -> (r: CurrencyNumbers)
        ensures
            currency_numbers_map(r) == no_currency_numbers(),
    {
        CurrencyNumbers { value: hashbrown::HashMap::new() }
    }

    /// Calls `hashbrown::HashMap::get`: the number of the currency, if any.
    #[verifier::external_body]
    pub fn get(&self, currency: &String) -> (r: Option<Dec>)
        ensures
            r is Some == currency_numbers_map(*self).contains_key(currency@),
            r is Some ==> r.unwrap() == currency_numbers_map(*self)[currency@],
    {
        self.value.get(currency).copied()
    }

    /// Calls `hashbrown::HashMap::insert`: the currency now has the number.
    #[verifier::external_body]
    pub(crate) fn insert(&mut self, currency: String, number: Dec)
        ensures
            currency_numbers_map(*final(self)) == currency_numbers_map(*old(self)).insert(currency@, number),
    {
        self.value.insert(currency, number);
    }

    /// Calls `hashbrown::HashMap::into_iter`: every currency with its number,
    /// each once, in the map's own order.
    #[verifier::external_body]
    pub fn into_entries(self) -> (r: Vec<(String, Dec)>)
        ensures
            entries_match(r@, currency_numbers_map(self)),
    {
        self.value.into_iter().collect()
    }

    /// Calls `hashbrown::HashMap::is_empty`.
    #[verifier::external_body]
    pub fn is_empty(&self) -> (r: bool)
        ensures
            r == (currency_numbers_map(*self) == no_currency_numbers()),
    {
        self.value.is_empty()
    }
}

/// Annotated postings grouped by currency.
#[verifier::external_body]
pub struct CurrencyGroups {
    value: hashbrown::HashMap<String, Vec<AnnotatedPosting>>,
}

/// What the groups hold: for each currency, the postings in it, in the order added.
pub uninterp spec fn currency_groups_map(m: CurrencyGroups) -> Map<Seq<char>, Seq<AnnotatedPosting>>;

/// The currency of each group, as the map holds it: the string with which the
/// group was first made.
pub uninterp spec fn currency_group_keys(m: CurrencyGroups) -> Map<Seq<char>, String>;

/// The group of a currency in a map of groups, empty if there is none.
pub open spec fn group_of(m: Map<Seq<char>, Seq<AnnotatedPosting>>, k: Seq<char>) -> Seq<AnnotatedPosting> {
    if m.contains_key(k) {
        m[k]
    } else {
        Seq::empty()
    }
}

/// The groups and their currency strings are held for the same currencies,
/// each string being of its currency.
pub open spec fn groups_wf(m: CurrencyGroups) -> bool {
    &&& currency_group_keys(m).dom() == currency_groups_map(m).dom()
    &&& forall|k: Seq<char>| #[trigger] currency_group_keys(m).contains_key(k) ==> currency_group_keys(m)[k]@ == k
}

/// The currency strings of groups after a posting is added to the group of
/// `currency`: a new group takes the string given.
pub open spec fn keys_after_push(keys: Map<Seq<char>, String>, currency: String) -> Map<Seq<char>, String> {
    if keys.contains_key(currency@) {
        keys
    } else {
        keys.insert(currency@, currency)
    }
}

/// A list of groups holds exactly the groups of a map, each currency once,
/// with the currency strings the map holds.
pub open spec fn group_entries_match(
    es: Seq<(String, Vec<AnnotatedPosting>)>,
    m: Map<Seq<char>, Seq<AnnotatedPosting>>,
    keys: Map<Seq<char>, String>,
) -> bool {
    &&& forall|i: int| 0 <= i < es.len() ==> #[trigger] m.contains_key(es[i].0@) && m[es[i].0@] == es[i].1@ && keys.contains_key(es[i].0@) && keys[es[i].0@] == es[i].0
    &&& forall|i: int, j: int| 0 <= i < j < es.len() ==> (#[trigger] es[i].0)@ != (#[trigger] es[j].0)@
    &&& forall|k: Seq<char>| #[trigger] m.contains_key(k) ==> exists|i: int| 0 <= i < es.len() && es[i].0@ == k
}

impl CurrencyGroups {
    /// Makes an empty `hashbrown::HashMap`.
    #[verifier::external_body]
    pub(crate) fn empty() -> (r: CurrencyGroups)
        ensures
            currency_groups_map(r) == no_groups(),
            currency_group_keys(r) == no_strings(),
    {
        CurrencyGroups { value: hashbrown::HashMap::new() }
    }

    /// Calls `hashbrown::HashMap::remove_entry`: takes the group, with its
    /// currency string, out of the map.
    #[verifier::external_body]
    fn remove_entry(&mut self, currency: &String) -> (r: Option<(String, Vec<AnnotatedPosting>)>)
        ensures
            r is Some == currency_groups_map(*old(self)).contains_key(currency@),
            r is Some ==> r.unwrap().1@ == currency_groups_map(*old(self))[currency@] && r.unwrap().0 == currency_group_keys(*old(self))[currency@],
            currency_groups_map(*final(self)) == currency_groups_map(*old(self)).remove(currency@),
            currency_group_keys(*final(self)) == currency_group_keys(*old(self)).remove(currency@),
    {
        self.value.remove_entry(currency)
    }

    /// Calls `hashbrown::HashMap::insert`: the currency now has the group; a
    /// currency string already held stays.
    #[verifier::external_body]
    fn insert(&mut self, currency: String, group: Vec<AnnotatedPosting>)
        ensures
            currency_groups_map(*final(self)) == currency_groups_map(*old(self)).insert(currency@, group@),
            currency_group_keys(*final(self)) == keys_after_push(currency_group_keys(*old(self)), currency),
    {
        self.value.insert(currency, group);
    }

    /// Calls `hashbrown::HashMap::len`: the number of groups.
    #[verifier::external_body]
    pub(crate) fn len(&self) -> (r: usize)
        ensures
            r == currency_groups_map(*self).len(),
    {
        self.value.len()
    }

    /// Calls `hashbrown::HashMap::keys`: the currency string of every group,
    /// each once, in the map's own order.
    #[verifier::external_body]
    pub(crate) fn keys(&self) -> (r: Vec<String>)
        ensures
            forall|i: int| 0 <= i < r@.len() ==> #[trigger] currency_groups_map(*self).contains_key(r@[i]@)
                && currency_group_keys(*self).contains_key(r@[i]@) && currency_group_keys(*self)[r@[i]@] == r@[i],
            forall|i: int, j: int| 0 <= i < j < r@.len() ==> (#[trigger] r@[i])@ != (#[trigger] r@[j])@,
            forall|k: Seq<char>| #[trigger] currency_groups_map(*self).contains_key(k) ==> exists|i: int| 0 <= i < r@.len() && r@[i]@ == k,
    {
        self.value.keys().cloned().collect()
    }

    /// Calls `hashbrown::HashMap::into_iter`: every group with its currency
    /// string, each once, in the map's own order.
    #[verifier::external_body]
    pub(crate) fn into_entries(self) -> (r: Vec<(String, Vec<AnnotatedPosting>)>)
        ensures
            group_entries_match(r@, currency_groups_map(self), currency_group_keys(self)),
    {
        self.value.into_iter().collect()
    }

    /// Adds a posting to the end of the group of a currency, starting the
    /// group if there is none.
    pub(crate) fn push_or_insert(&mut self, currency: String, posting: AnnotatedPosting)
        requires
            groups_wf(*old(self)),
        ensures
            groups_wf(*final(self)),
            currency_groups_map(*final(self)) == currency_groups_map(*old(self)).insert(
                currency@,
                group_of(currency_groups_map(*old(self)), currency@).push(posting),
            ),
            currency_group_keys(*final(self)) == keys_after_push(currency_group_keys(*old(self)), currency),
    {
        let ghost m = currency_groups_map(*self);
        let ghost keys = currency_group_keys(*self);
        match self.remove_entry(&currency) {
            Some((key, mut group)) => {
                group.push(posting);
                self.insert(key, group);
                proof {
                    assert(keys.remove(currency@).insert(currency@, keys[currency@]) =~= keys);
                }
                assert(currency_group_keys(*self) =~= keys);
            },
            None => {
                let mut group = Vec::new();
                group.push(posting);
                self.insert(currency, group);
            },
        }
        assert(currency_group_keys(*self).dom() =~= currency_groups_map(*self).dom());
        proof {
            assert(m.remove(currency@).insert(currency@, group_of(m, currency@).push(posting))
                =~= m.insert(currency@, group_of(m, currency@).push(posting)));
        }
    }
}

/// No strings.
pub open spec fn no_strings() -> Map<Seq<char>, String> {
    Map::empty()
}

/// A set of strings.
#[verifier::external_body]
pub struct StringSet {
    value: hashbrown::HashSet<String>,
}

/// What a set of strings holds: for the characters of each string held, the
/// string itself, as it was first inserted.
pub uninterp spec fn string_set_map(s: StringSet) -> Map<Seq<char>, String>;

/// The strings of a set, by their characters.
pub open spec fn string_set_view(s: StringSet) -> Set<Seq<char>> {
    string_set_map(s).dom()
}

impl StringSet {
    /// Makes an empty `hashbrown::HashSet`.
    #[verifier::external_body]
    pub(crate) fn empty() -> (r: StringSet)
        ensures
            string_set_map(r) == no_strings(),
    {
        StringSet { value: hashbrown::HashSet::new() }
    }

    /// Calls `hashbrown::HashSet::insert`: the set now holds the string,
    /// unless it held an equal one, which it keeps.
    #[verifier::external_body]
    pub(crate) fn insert(&mut self, s: String)
        ensures
            string_set_map(*final(self)) == (if string_set_map(*old(self)).contains_key(s@) {
                string_set_map(*old(self))
            } else {
                string_set_map(*old(self)).insert(s@, s)
            }),
    {
        self.value.insert(s);
    }

    /// Calls `hashbrown::HashSet::len`: the number of strings held.
    #[verifier::external_body]
    pub(crate) fn len(&self) -> (r: usize)
        ensures
            r == string_set_map(*self).dom().len(),
    {
        self.value.len()
    }

    /// Calls `hashbrown::HashSet::iter` for its first string, in the set's
    /// own order: a copy of one of the strings held, `None` only if there is none.
    #[verifier::external_body]
    pub(crate) fn first(&self) -> (r: Option<String>)
        ensures
            r is None ==> string_set_map(*self).dom() == Set::<Seq<char>>::empty(),
            r is Some ==> string_set_map(*self).contains_key(r.unwrap()@) && string_set_map(*self)[r.unwrap()@] == r.unwrap(),
    {
        self.value.iter().next().cloned()
    }
}

/// A set of indices.
#[verifier::external_body]
pub struct IndexSet {
    value: hashbrown::HashSet<usize>,
}

/// What a set of indices holds.
pub uninterp spec fn index_set_view(s: IndexSet) -> Set<usize>;

impl IndexSet {
    /// Makes an empty `hashbrown::HashSet`.
    #[verifier::external_body]
    pub(crate) fn empty() -> (r: IndexSet)
        ensures
            index_set_view(r) == Set::<usize>::empty(),
    {
        IndexSet { value: hashbrown::HashSet::new() }
    }

    /// Calls `hashbrown::HashSet::insert`: the set now holds the index.
    #[verifier::external_body]
    pub(crate) fn insert(&mut self, i: usize)
        ensures
            index_set_view(*final(self)) == index_set_view(*old(self)).insert(i),
    {
        self.value.insert(i);
    }

    /// Calls `hashbrown::HashSet::contains`: whether the set holds the index.
    #[verifier::external_body]
    pub(crate) fn contains(&self, i: usize) -> (r: bool)
        ensures
            r == index_set_view(*self).contains(i),
    {
        self.value.contains(&i)
    }
}

/// The auto-postings of a transaction (those without units or currency), by
/// the currency of their bucket, if any.
#[verifier::external_body]
pub struct AutoPostings {
    value: hashbrown::HashMap<Option<String>, AnnotatedPosting>,
}

/// What the auto-postings hold: for each bucket, by its characters, the
/// bucket as the map holds it and the auto-posting.
pub uninterp spec fn auto_postings_map(m: AutoPostings) -> Map<Option<Seq<char>>, (Option<String>, AnnotatedPosting)>;

/// No auto-postings.
pub open spec fn no_autos() -> Map<Option<Seq<char>>, (Option<String>, AnnotatedPosting)> {
    Map::empty()
}

impl AutoPostings {
    /// Makes an empty `hashbrown::HashMap`.
    #[verifier::external_body]
    pub(crate) fn empty() -> (r: AutoPostings)
        ensures
            auto_postings_map(r) == no_autos(),
    {
        AutoPostings { value: hashbrown::HashMap::new() }
    }

    /// Calls `hashbrown::HashMap::contains_key`: whether the bucket has an auto-posting.
    #[verifier::external_body]
    pub(crate) fn contains_key(&self, bucket: &Option<String>) -> (r: bool)
        ensures
            r == auto_postings_map(*self).contains_key(opt_view(*bucket)),
    {
        self.value.contains_key(bucket)
    }

    /// Calls `hashbrown::HashMap::insert`: the bucket now has the auto-posting;
    /// a bucket already held stays.
    #[verifier::external_body]
    pub(crate) fn insert(&mut self, bucket: Option<String>, posting: AnnotatedPosting)
        ensures
            auto_postings_map(*final(self)) == auto_postings_map(*old(self)).insert(
                opt_view(bucket),
                (
                    if auto_postings_map(*old(self)).contains_key(opt_view(bucket)) {
                        auto_postings_map(*old(self))[opt_view(bucket)].0
                    } else {
                        bucket
                    },
                    posting,
                ),
            ),
    {
        self.value.insert(bucket, posting);
    }

    /// Calls `hashbrown::HashMap::remove`: takes the auto-posting of the bucket out.
    #[verifier::external_body]
    pub(crate) fn remove(&mut self, bucket: &Option<String>) -> (r: Option<AnnotatedPosting>)
        ensures
            r is Some == auto_postings_map(*old(self)).contains_key(opt_view(*bucket)),
            r is Some ==> r.unwrap() == auto_postings_map(*old(self))[opt_view(*bucket)].1,
            auto_postings_map(*final(self)) == auto_postings_map(*old(self)).remove(opt_view(*bucket)),
    {
        self.value.remove(bucket)
    }

    /// Calls `hashbrown::HashMap::is_empty`.
    #[verifier::external_body]
    pub(crate) fn is_empty(&self) -> (r: bool)
        ensures
            r == (auto_postings_map(*self).dom() == Set::<Option<Seq<char>>>::empty()),
    {
        self.value.is_empty()
    }

    /// Calls `hashbrown::HashMap::into_iter`: every bucket with its
    /// auto-posting, each once, in the map's own order.
    #[verifier::external_body]
    pub(crate) fn into_entries(self) -> (r: Vec<(Option<String>, AnnotatedPosting)>)
        ensures
            forall|i: int| 0 <= i < r@.len() ==> #[trigger] auto_postings_map(self).contains_key(opt_view(r@[i].0))
                && auto_postings_map(self)[opt_view(r@[i].0)] == r@[i],
            forall|i: int, j: int| 0 <= i < j < r@.len() ==> opt_view((#[trigger] r@[i]).0) != opt_view((#[trigger] r@[j]).0),
            forall|k: Option<Seq<char>>| #[trigger] auto_postings_map(self).contains_key(k) ==> exists|i: int| 0 <= i < r@.len() && opt_view(r@[i].0) == k,
    {
        self.value.into_iter().collect()
    }
}

/// The currency inferred for each account looked up so far, if one could be.
#[verifier::external_body]
pub struct AccountCurrencies {
    value: hashbrown::HashMap<String, Option<String>>,
}

/// What the lookups hold: for each account, by name, its inferred currency.
pub uninterp spec fn account_currencies_map(m: AccountCurrencies) -> Map<Seq<char>, Option<String>>;

/// No lookups.
pub open spec fn no_lookups() -> Map<Seq<char>, Option<String>> {
    Map::empty()
}

impl AccountCurrencies {
    /// Makes an empty `hashbrown::HashMap`.
    #[verifier::external_body]
    pub(crate) fn empty() -> (r: AccountCurrencies)
        ensures
            account_currencies_map(r) == no_lookups(),
    {
        AccountCurrencies { value: hashbrown::HashMap::new() }
    }

    /// Calls `hashbrown::HashMap::get`: a copy of the account's currency, if
    /// it was looked up.
    #[verifier::external_body]
    pub(crate) fn get(&self, account: &String) -> (r: Option<Option<String>>)
        ensures
            r is Some == account_currencies_map(*self).contains_key(account@),
            r is Some ==> r.unwrap() == account_currencies_map(*self)[account@],
    {
        self.value.get(account).cloned()
    }

    /// Calls `hashbrown::HashMap::insert`: the account now has the currency.
    #[verifier::external_body]
    pub(crate) fn insert(&mut self, account: String, currency: Option<String>)
        ensures
            account_currencies_map(*final(self)) == account_currencies_map(*old(self)).insert(account@, currency),
    {
        self.value.insert(account, currency);
    }
}

/// Where an account was opened or closed: by a directive, or by the account
/// of a posting of a transaction (a directive's index and the posting's).
#[derive(Clone, Copy, Debug, PartialEq, Eq, Structural)]
pub enum Origin {
    Directive(usize),
    PostingAccount(usize, usize),
}

/// The origin of each account, by name.
#[verifier::external_body]
pub struct AccountOrigins {
    value: hashbrown::HashMap<String, Origin>,
}

/// What the origins hold: the origin of each account, by name.
pub uninterp spec fn origins_map(m: AccountOrigins) -> Map<Seq<char>, Origin>;

/// No origins.
pub open spec fn no_origins() -> Map<Seq<char>, Origin> {
    Map::empty()
}

impl AccountOrigins {
    /// Makes an empty `hashbrown::HashMap`.
    #[verifier::external_body]
    pub(crate) fn empty() -> (r: AccountOrigins)
        ensures
            origins_map(r) == no_origins(),
    {
        AccountOrigins { value: hashbrown::HashMap::new() }
    }

    /// Calls `hashbrown::HashMap::get`: the origin of the account, if any.
    #[verifier::external_body]
    pub(crate) fn get(&self, account: &String) -> (r: Option<Origin>)
        ensures
            r is Some == origins_map(*self).contains_key(account@),
            r is Some ==> r.unwrap() == origins_map(*self)[account@],
    {
        self.value.get(account).copied()
    }

    /// Calls `hashbrown::HashMap::insert`: the account now has the origin.
    #[verifier::external_body]
    pub(crate) fn insert(&mut self, account: String, origin: Origin)
        ensures
            origins_map(*final(self)) == origins_map(*old(self)).insert(account@, origin),
    {
        self.value.insert(account, origin);
    }

    /// Calls `hashbrown::HashMap::remove`: the account no longer has an origin.
    #[verifier::external_body]
    pub(crate) fn remove(&mut self, account: &String)
        ensures
            origins_map(*final(self)) == origins_map(*old(self)).remove(account@),
    {
        self.value.remove(account);
    }
}

} // verus!
