//! Counters kept in a `dashmap::DashMap`.
use vstd::prelude::*;

use dashmap::DashMap;

use crate::counters::{braced_text, count_of, entries_map, names_distinct, pairs_text, pairs_view};

verus! {

#[verifier::external_type_specification]
#[verifier::external_body]
#[verifier::reject_recursive_types(K)]
#[verifier::reject_recursive_types(V)]
#[verifier::reject_recursive_types(S)]
pub struct ExDashMap<K, V, S>(DashMap<K, V, S>);

/// A map from counter names to counts.
pub type CountMap = DashMap<String, i64>;

/// The counts that a `CountMap` holds, by name.
pub uninterp spec fn dash_counts(m: CountMap) -> Map<Seq<char>, i64>;

/// Relies on `DashMap::new`: the map starts empty.
#[verifier::external_body]
fn dash_new() -> (r: CountMap)
    ensures
        dash_counts(r).dom() == Set::<Seq<char>>::empty(),
{
    DashMap::new()
}

/// Relies on `DashMap::get`: the value stored under `key`, if any.
#[verifier::external_body]
fn dash_get(m: &CountMap, key: &str) -> (r: Option<i64>)
    ensures
        r == (if dash_counts(*m).contains_key(key@) {
            Some(dash_counts(*m)[key@])
        } else {
            None::<i64>
        }),
{
    match m.get(key) {
        Some(v) => Some(*v),
        None => None,
    }
}

/// Relies on `DashMap::insert`: `key` is then mapped to `v`, the other keys
/// are untouched.
#[verifier::external_body]
fn dash_insert(m: &mut CountMap, key: String, v: i64)
    ensures
        dash_counts(*final(m)) == dash_counts(*old(m)).insert(key@, v),
{
    m.insert(key, v);
}

/// Relies on `DashMap::iter`: each entry once, as name and value, in an order
/// that the map does not fix.
#[verifier::external_body]
fn dash_entries(m: &CountMap) -> (r: Vec<(String, i64)>)
    ensures
        names_distinct(pairs_view(r@)),
        entries_map(pairs_view(r@)) == dash_counts(*m),
{
    m.iter().map(|e| (e.key().clone(), *e.value())).collect()
}

/// Counters that come into being, at zero, when first raised or lowered,
/// kept in a concurrent hash map.
pub struct DashMapMetrix {
    data: CountMap,
}

impl DashMapMetrix {
    /// Each name's count.
    pub closed spec fn counts(&self) -> Map<Seq<char>, i64> {
        dash_counts(self.data)
    }

    /// No counters.
    pub fn new() -> (r: DashMapMetrix)
        ensures
            r.counts() == Map::<Seq<char>, i64>::empty(),
    {
        let data = dash_new();
        proof {
            assert(dash_counts(data) =~= Map::<Seq<char>, i64>::empty());
        }
        DashMapMetrix { data }
    }

    /// The count of `key`, if it has one.
    pub fn get(&self, key: &str) -> (r: Option<i64>)
        ensures
            r == (if self.counts().contains_key(key@) {
                Some(self.counts()[key@])
            } else {
                None::<i64>
            }),
    {
        dash_get(&self.data, key)
    }

    /// Adds one to the count of `key`, which starts at zero.
    pub fn inc(&mut self, key: &str)
        requires
            count_of(old(self).counts(), key@) < i64::MAX,
        ensures
            final(self).counts() == old(self).counts().insert(key@, (count_of(old(self).counts(), key@) + 1) as i64),
    {
        let c: i64 = match dash_get(&self.data, key) {
            Some(c) => c,
            None => 0,
        };
        dash_insert(&mut self.data, String::from_str(key), c + 1);
    }

    /// Takes one from the count of `key`, which starts at zero.
    pub fn dec(&mut self, key: &str)
        requires
            count_of(old(self).counts(), key@) > i64::MIN,
        ensures
            final(self).counts() == old(self).counts().insert(key@, (count_of(old(self).counts(), key@) - 1) as i64),
    {
        let c: i64 = match dash_get(&self.data, key) {
            Some(c) => c,
            None => 0,
        };
        dash_insert(&mut self.data, String::from_str(key), c - 1);
    }

    /// The counters in braces, `{a: 1, b: -2}`, in the map's own order.
    pub fn to_string(&self) -> (r: String)
        ensures
            exists|es: Seq<(Seq<char>, i64)>|
                names_distinct(es) && entries_map(es) == self.counts() && r@ == braced_text(es),
    {
        let v = dash_entries(&self.data);
        pairs_text(&v)
    }
}

} // verus!
