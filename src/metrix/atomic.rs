//! Counters over a set of names fixed when they are made.
use vstd::prelude::*;

use crate::counters::{braced_text, count_of, entries_map, names_distinct, put_entries, Counters};
use crate::metrix::MetrixError;

verus! {

/// The entries of the first `n` names, each at zero, in the order in which
/// each name first occurs.
pub open spec fn initial_entries(names: Seq<&str>, n: nat) -> Seq<(Seq<char>, i64)>
    decreases n,
{
    if n == 0 {
        Seq::empty()
    } else {
        put_entries(initial_entries(names, (n - 1) as nat), names[n - 1]@, 0)
    }
}

/// Counters over the names given at construction; any other name is refused.
#[derive(Debug, Clone)]
pub struct AtomicMetrix {
    data: Counters,
}

impl AtomicMetrix {
    /// The counters, name and count, in the order the names were given.
    pub closed spec fn entries_spec(&self) -> Seq<(Seq<char>, i64)> {
        self.data.entries_spec()
    }

    /// No name occurs twice.
    pub open spec fn wf(&self) -> bool {
        names_distinct(self.entries_spec())
    }

    /// Each name's count.
    pub open spec fn counts(&self) -> Map<Seq<char>, i64> {
        entries_map(self.entries_spec())
    }

    /// One counter at zero for each of `metrixs`, a repeated name counted once.
    pub fn new(metrixs: &[&'static str]) -> (r: AtomicMetrix)
        ensures
            r.wf(),
            r.entries_spec() == initial_entries(metrixs@, metrixs@.len()),
    {
        let mut data = Counters::new();
        let mut i: usize = 0;
        while i < metrixs.len()
            invariant
                i <= metrixs@.len(),
                data.wf(),
                data.entries_spec() == initial_entries(metrixs@, i as nat),
            decreases metrixs@.len() - i,
        {
            data.put(metrixs[i], 0);
            i = i + 1;
        }
        AtomicMetrix { data }
    }

    /// The count of `key`, if it has one.
    pub fn get(&self, key: &str) -> (r: Option<i64>)
        requires
            self.wf(),
        ensures
            r == (if self.counts().contains_key(key@) {
                Some(self.counts()[key@])
            } else {
                None::<i64>
            }),
    {
        self.data.get(key)
    }

    /// Adds one to the count of `key`; an error, with nothing changed, exactly
    /// when `key` is not one of the names.
    pub fn inc(&mut self, key: &'static str) -> (r: Result<(), MetrixError>)
        requires
            old(self).wf(),
            count_of(old(self).counts(), key@) < i64::MAX,
        ensures
            final(self).wf(),
            r is Err <==> !old(self).counts().contains_key(key@),
            r matches Err(e) ==> e == MetrixError::KeyNotFound && final(self).entries_spec() == old(self).entries_spec(),
            r is Ok ==> final(self).entries_spec() == put_entries(
                old(self).entries_spec(),
                key@,
                (old(self).counts()[key@] + 1) as i64,
            ),
    {
        match self.data.get(key) {
            Some(c) => {
                self.data.put(key, c + 1);
                Ok(())
            },
            None => Err(MetrixError::KeyNotFound),
        }
    }

    /// Takes one from the count of `key`; an error, with nothing changed,
    /// exactly when `key` is not one of the names.
    pub fn dec(&mut self, key: &'static str) -> (r: Result<(), MetrixError>)
        requires
            old(self).wf(),
            count_of(old(self).counts(), key@) > i64::MIN,
        ensures
            final(self).wf(),
            r is Err <==> !old(self).counts().contains_key(key@),
            r matches Err(e) ==> e == MetrixError::KeyNotFound && final(self).entries_spec() == old(self).entries_spec(),
            r is Ok ==> final(self).entries_spec() == put_entries(
                old(self).entries_spec(),
                key@,
                (old(self).counts()[key@] - 1) as i64,
            ),
    {
        match self.data.get(key) {
            Some(c) => {
                self.data.put(key, c - 1);
                Ok(())
            },
            None => Err(MetrixError::KeyNotFound),
        }
    }

    /// The counters in braces, then a line break: `{a: 1, b: -2}\n`.
    pub fn to_string(&self) -> (r: String)
        ensures
            r@ == braced_text(self.entries_spec()) + seq!['\n'],
    {
        let mut s = self.data.to_text();
        proof {
            reveal_strlit("\n");
        }
        s.append("\n");
        s
    }
}

} // verus!
