//! A table of named counters: the state behind the metric types.
use vstd::prelude::*;

use crate::decimal::{decimal, push_decimal};

verus! {

/// The map that a list of entries with distinct names stands for.
pub open spec fn entries_map(es: Seq<(Seq<char>, i64)>) -> Map<Seq<char>, i64>
    decreases es.len(),
{
    if es.len() == 0 {
        Map::empty()
    } else {
        entries_map(es.drop_last()).insert(es.last().0, es.last().1)
    }
}

/// No two entries share a name.
pub open spec fn names_distinct(es: Seq<(Seq<char>, i64)>) -> bool {
    forall|i: int, j: int| 0 <= i < j < es.len() ==> (#[trigger] es[i]).0 != (#[trigger] es[j]).0
}

/// `name: value`.
pub open spec fn entry_text(e: (Seq<char>, i64)) -> Seq<char> {
    e.0 + seq![':', ' '] + decimal(e.1 as int)
}

/// The first `n` entries as text, separated by `, `.
pub open spec fn entries_text(es: Seq<(Seq<char>, i64)>, n: nat) -> Seq<char>
    decreases n,
{
    if n == 0 {
        Seq::empty()
    } else if n == 1 {
        entry_text(es[0])
    } else {
        entries_text(es, (n - 1) as nat) + seq![',', ' '] + entry_text(es[n - 1])
    }
}

/// The entries in braces: `{a: 1, b: -2}`.
pub open spec fn braced_text(es: Seq<(Seq<char>, i64)>) -> Seq<char> {
    seq!['{'] + entries_text(es, es.len()) + seq!['}']
}

/// The entries after setting the count of `k` to `v`: in place where `k` is
/// already named, else appended.
pub open spec fn put_entries(es: Seq<(Seq<char>, i64)>, k: Seq<char>, v: i64) -> Seq<(Seq<char>, i64)> {
    if entries_map(es).contains_key(k) {
        es.map_values(|e: (Seq<char>, i64)| if e.0 == k { (k, v) } else { e })
    } else {
        es.push((k, v))
    }
}

/// The count of `k` in `m`, zero where `m` has none.
pub open spec fn count_of(m: Map<Seq<char>, i64>, k: Seq<char>) -> int {
    if m.contains_key(k) {
        m[k] as int
    } else {
        0
    }
}

/// The entries as names and counts.
pub open spec fn pairs_view(v: Seq<(String, i64)>) -> Seq<(Seq<char>, i64)> {
    Seq::new(v.len(), |i: int| (v[i].0@, v[i].1))
}

/// An entry's name in `entries_map` is mapped to the entry's value.
pub proof fn lemma_entries_map_get(es: Seq<(Seq<char>, i64)>, i: int)
    requires
        names_distinct(es),
        0 <= i < es.len(),
    ensures
        entries_map(es).contains_key(es[i].0),
        entries_map(es)[es[i].0] == es[i].1,
    decreases es.len(),
{
    if i < es.len() - 1 {
        let init = es.drop_last();
        assert(init[i] == es[i]);
        lemma_entries_map_get(init, i);
        assert(es[i].0 != es[es.len() - 1].0);
    }
}

/// A name that no entry has is not in `entries_map`.
pub proof fn lemma_entries_map_absent(es: Seq<(Seq<char>, i64)>, k: Seq<char>)
    requires
        forall|i: int| 0 <= i < es.len() ==> (#[trigger] es[i]).0 != k,
    ensures
        !entries_map(es).contains_key(k),
    decreases es.len(),
{
    if es.len() > 0 {
        let init = es.drop_last();
        assert forall|i: int| 0 <= i < init.len() implies (#[trigger] init[i]).0 != k by {
            assert(init[i] == es[i]);
        }
        lemma_entries_map_absent(init, k);
        assert(es[es.len() - 1].0 != k);
    }
}

/// Changing the value of one entry changes only its name in `entries_map`.
pub proof fn lemma_entries_map_update(es: Seq<(Seq<char>, i64)>, i: int, v: i64)
    requires
        names_distinct(es),
        0 <= i < es.len(),
    ensures
        entries_map(es.update(i, (es[i].0, v))) == entries_map(es).insert(es[i].0, v),
    decreases es.len(),
{
    let es2 = es.update(i, (es[i].0, v));
    let init = es.drop_last();
    if i == es.len() - 1 {
        assert(es2.drop_last() =~= init);
        assert(entries_map(es2) =~= entries_map(es).insert(es[i].0, v));
    } else {
        assert(es2.drop_last() =~= init.update(i, (es[i].0, v)));
        assert(init[i] == es[i]);
        lemma_entries_map_update(init, i, v);
        assert(es[i].0 != es[es.len() - 1].0);
        assert(entries_map(es2) =~= entries_map(es).insert(es[i].0, v));
    }
}

/// Named counters, in the order in which each name was first seen.
#[derive(Debug, Clone)]
pub struct Counters {
    entries: Vec<(String, i64)>,
}

impl Counters {
    /// The entries, each name as its characters.
    pub closed spec fn entries_spec(&self) -> Seq<(Seq<char>, i64)> {
        pairs_view(self.entries@)
    }

    /// No name occurs twice.
    pub open spec fn wf(&self) -> bool {
        names_distinct(self.entries_spec())
    }

    /// Each name's count.
    pub open spec fn map(&self) -> Map<Seq<char>, i64> {
        entries_map(self.entries_spec())
    }

    /// No counters.
    pub fn new() -> (r: Counters)
        ensures
            r.wf(),
            r.map() == Map::<Seq<char>, i64>::empty(),
            r.entries_spec().len() == 0,
    {
        let r = Counters { entries: Vec::new() };
        proof {
            assert(r.entries_spec() =~= Seq::<(Seq<char>, i64)>::empty());
        }
        r
    }

    /// The place of the entry named `key`, if there is one.
    pub fn find(&self, key: &str) -> (r: Option<usize>)
        requires
            self.wf(),
        ensures
            r is None <==> !self.map().contains_key(key@),
            r matches Some(i) ==> i < self.entries_spec().len() && self.entries_spec()[i as int].0 == key@,
    {
        let k = String::from_str(key);
        let mut i: usize = 0;
        while i < self.entries.len()
            invariant
                self.wf(),
                k@ == key@,
                i <= self.entries@.len(),
                forall|j: int| 0 <= j < i ==> (#[trigger] self.entries_spec()[j]).0 != key@,
            decreases self.entries@.len() - i,
        {
            if self.entries[i].0 == k {
                proof {
                    lemma_entries_map_get(self.entries_spec(), i as int);
                }
                return Some(i);
            }
            i = i + 1;
        }
        proof {
            lemma_entries_map_absent(self.entries_spec(), key@);
        }
        None
    }

    /// The count of `key`.
    pub fn get(&self, key: &str) -> (r: Option<i64>)
        requires
            self.wf(),
        ensures
            r == (if self.map().contains_key(key@) {
                Some(self.map()[key@])
            } else {
                None::<i64>
            }),
    {
        match self.find(key) {
            Some(i) => {
                proof {
                    lemma_entries_map_get(self.entries_spec(), i as int);
                }
                Some(self.entries[i].1)
            },
            None => None,
        }
    }

    /// Sets the count of `key` to `v`, adding `key` after the others if it is
    /// new.
    pub fn put(&mut self, key: &str, v: i64)
        requires
            old(self).wf(),
        ensures
            final(self).wf(),
            final(self).map() == old(self).map().insert(key@, v),
            final(self).entries_spec() == put_entries(old(self).entries_spec(), key@, v),
    {
        match self.find(key) {
            Some(i) => {
                let ghost es = self.entries_spec();
                let name = self.entries[i].0.clone();
                self.entries.set(i, (name, v));
                proof {
                    lemma_entries_map_update(es, i as int, v);
                    let es2 = es.update(i as int, (es[i as int].0, v));
                    assert(self.entries_spec() =~= es2);
                    lemma_entries_map_get(es, i as int);
                    assert(es2 =~= put_entries(es, key@, v));
                    assert forall|a: int, b: int| 0 <= a < b < es2.len() implies (#[trigger] es2[a]).0
                        != (#[trigger] es2[b]).0 by {
                        assert(es2[a].0 == es[a].0 && es2[b].0 == es[b].0);
                    }
                }
            },
            None => {
                let ghost es = self.entries_spec();
                self.entries.push((String::from_str(key), v));
                proof {
                    assert(self.entries_spec().drop_last() =~= es);
                    assert(self.entries_spec() =~= put_entries(es, key@, v));
                    assert forall|i: int| 0 <= i < es.len() implies (#[trigger] es[i]).0 != key@ by {
                        if es[i].0 == key@ {
                            lemma_entries_map_get(es, i);
                        }
                    }
                    let es2 = self.entries_spec();
                    assert forall|a: int, b: int| 0 <= a < b < es2.len() implies (#[trigger] es2[a]).0
                        != (#[trigger] es2[b]).0 by {
                        if b < es.len() {
                            assert(es2[a] == es[a] && es2[b] == es[b]);
                        } else {
                            assert(es2[a] == es[a]);
                        }
                    }
                }
            },
        }
    }

    /// The entries, name and count, in table order.
    pub fn entries(&self) -> (r: Vec<(String, i64)>)
        ensures
            pairs_view(r@) == self.entries_spec(),
    {
        let mut r: Vec<(String, i64)> = Vec::new();
        let mut i: usize = 0;
        while i < self.entries.len()
            invariant
                i <= self.entries@.len(),
                r@.len() == i,
                forall|j: int|
                    0 <= j < i ==> (#[trigger] r@[j]).0@ == self.entries_spec()[j].0 && r@[j].1
                        == self.entries_spec()[j].1,
            decreases self.entries@.len() - i,
        {
            let name = self.entries[i].0.clone();
            r.push((name, self.entries[i].1));
            i = i + 1;
        }
        proof {
            assert(pairs_view(r@) =~= self.entries_spec());
        }
        r
    }

    /// The entries in braces, in table order: `{a: 1, b: -2}`.
    pub fn to_text(&self) -> (r: String)
        ensures
            r@ == braced_text(self.entries_spec()),
    {
        pairs_text(&self.entries)
    }
}

/// The pairs in braces, in order: `{a: 1, b: -2}`.
pub fn pairs_text(v: &Vec<(String, i64)>) -> (r: String)
    ensures
        r@ == braced_text(pairs_view(v@)),
{
    proof {
        reveal_strlit("{");
        reveal_strlit("}");
    }
    let ghost es = pairs_view(v@);
    let mut s = String::from_str("{");
    let mut i: usize = 0;
    while i < v.len()
        invariant
            es == pairs_view(v@),
            i <= es.len(),
            s@ == seq!['{'] + entries_text(es, i as nat),
        decreases v@.len() - i,
    {
        proof {
            reveal_strlit(", ");
            reveal_strlit(": ");
        }
        if i > 0 {
            s.append(", ");
        }
        s.append(v[i].0.as_str());
        s.append(": ");
        push_decimal(&mut s, v[i].1);
        proof {
            assert(s@ =~= seq!['{'] + entries_text(es, (i + 1) as nat));
        }
        i = i + 1;
    }
    s.append("}");
    s
}

} // verus!
