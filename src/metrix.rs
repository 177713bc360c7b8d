//! Named counters that are raised and lowered one step at a time.
use vstd::prelude::*;

use crate::counters::{braced_text, count_of, entries_map, names_distinct, pairs_view, put_entries, Counters};

pub mod atomic;
pub mod dash_map;

verus! {

/// Why a counter could not be changed.
#[derive(Debug, Clone, Copy, PartialEq, Eq, Structural)]
pub enum MetrixError {
    /// The counter was not declared.
    KeyNotFound,
}

/// Counters that come into being, at zero, when first raised or lowered.
#[derive(Debug, Clone)]
pub struct Metrix {
    data: Counters,
}

impl Metrix {
    /// The counters, name and count, in the order their names first came.
    pub closed spec fn entries_spec(&self) -> Seq<(Seq<char>, i64)> {
        self.data.entries_spec()
    }

    /// No name occurs twice.
    pub open spec fn wf(&self) -> bool {
        names_distinct(self.entries_spec())
    }

    /// Each name's count.
    pub open spec fn counts(&self) -> Map<Seq<char>, i64> {
        entries_map(self.entries_spec())
    }

    /// No counters.
    pub fn new() -> (r: Metrix)
        ensures
            r.wf(),
            r.entries_spec() == Seq::<(Seq<char>, i64)>::empty(),
            r.counts() == Map::<Seq<char>, i64>::empty(),
    {
        Metrix { data: Counters::new() }
    }

    /// The count of `key`, if it has one.
    pub fn get(&self, key: &str) -> (r: Option<i64>)
        requires
            self.wf(),
        ensures
            r == (if self.counts().contains_key(key@) {
                Some(self.counts()[key@])
            } else {
                None::<i64>
            }),
    {
        self.data.get(key)
    }

    /// Adds one to the count of `key`, which starts at zero.
    pub fn inc(&mut self, key: &str)
        requires
            old(self).wf(),
            count_of(old(self).counts(), key@) < i64::MAX,
        ensures
            final(self).wf(),
            final(self).counts() == old(self).counts().insert(key@, (count_of(old(self).counts(), key@) + 1) as i64),
            final(self).entries_spec() == put_entries(
                old(self).entries_spec(),
                key@,
                (count_of(old(self).counts(), key@) + 1) as i64,
            ),
    {
        let c: i64 = match self.data.get(key) {
            Some(c) => c,
            None => 0,
        };
        self.data.put(key, c + 1);
    }

    /// Takes one from the count of `key`, which starts at zero.
    pub fn dec(&mut self, key: &str)
        requires
            old(self).wf(),
            count_of(old(self).counts(), key@) > i64::MIN,
        ensures
            final(self).wf(),
            final(self).counts() == old(self).counts().insert(key@, (count_of(old(self).counts(), key@) - 1) as i64),
            final(self).entries_spec() == put_entries(
                old(self).entries_spec(),
                key@,
                (count_of(old(self).counts(), key@) - 1) as i64,
            ),
    {
        let c: i64 = match self.data.get(key) {
            Some(c) => c,
            None => 0,
        };
        self.data.put(key, c - 1);
    }

    /// A copy of every counter, name and count, in the order their names
    /// first came.
    pub fn snapshot(&self) -> (r: Vec<(String, i64)>)
        ensures
            pairs_view(r@) == self.entries_spec(),
    {
        self.data.entries()
    }

    /// The counters in braces, then a line break: `{a: 1, b: -2}\n`.
    pub fn to_string(&self) -> (r: String)
        ensures
            r@ == braced_text(self.entries_spec()) + seq!['\n'],
    {
        let mut s = self.data.to_text();
        proof {
            reveal_strlit("\n");
        }
        s.append("\n");
        s
    }
}

} // verus!
