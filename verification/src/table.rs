//! The records of a store, kept in a vector in which no key occurs twice.

use vstd::prelude::*;
use crate::model::{
    distinct_keys, has_key, lemma_pairs_map_distinct, lemma_pairs_map_is,
    pairs_map, purge, expired, Entry,
};
use crate::text::str_eq;
use crate::types::Value;

verus! {

/// A finite map from keys to records. New keys are appended, so the records
/// stay in the order in which their keys first came.
pub struct Table {
    entries: Vec<(String, Value)>,
}

impl View for Table {
    type V = Map<Seq<char>, Entry>;

    closed spec fn view(&self) -> Map<Seq<char>, Entry> {
        pairs_map(self.entries@)
    }
}

impl Table {
    #[verifier::type_invariant]
    spec fn keys_are_distinct(self) -> bool {
        distinct_keys(self.entries@)
    }

    /// The empty table.
    pub fn new() -> (table: Self)
        ensures
            table@ == Map::<Seq<char>, Entry>::empty(),
    {
        Table { entries: Vec::new() }
    }

    /// The index of the pair with the key `key`.
    fn position(&self, key: &str) -> (at: Option<usize>)
        ensures
            match at {
                Some(i) => i < self.entries@.len() && self.entries@[i as int].0@ == key@,
                None => !has_key(self.entries@, key@),
            },
    {
        let mut i: usize = 0;
        while i < self.entries.len()
            invariant
                i <= self.entries@.len(),
                forall|j: int| 0 <= j < i ==> (#[trigger] self.entries@[j]).0@ != key@,
            decreases self.entries@.len() - i,
        {
            if str_eq(self.entries[i].0.as_str(), key) {
                return Some(i);
            }
            i += 1;
        }
        None
    }

    /// The record stored under `key`, lapsed or not.
    pub fn get(&self, key: &str) -> (found: Option<&Value>)
        ensures
            match found {
                Some(value) => self@.dom().contains(key@) && value@ == self@[key@],
                None => !self@.dom().contains(key@),
            },
    {
        proof {
            use_type_invariant(self);
            lemma_pairs_map_distinct(self.entries@);
        }
        match self.position(key) {
            Some(i) => {
                assert(self.entries@[i as int].0@ == key@);
                Some(&self.entries[i].1)
            },
            None => None,
        }
    }

    /// Stores `value` under `key`, in place of whatever was stored there.
    pub fn insert(&mut self, key: String, value: Value)
        ensures
            final(self)@ == old(self)@.insert(key@, value@),
    {
        proof {
            use_type_invariant(&*self);
        }
        let at = self.position(key.as_str());
        let mut entries: Vec<(String, Value)> = Vec::new();
        std::mem::swap(&mut entries, &mut self.entries);
        let ghost before = entries@;
        let ghost target = pairs_map(before).insert(key@, value@);
        match at {
            Some(i) => {
                entries.set(i, (key, value));
                proof {
                    lemma_pairs_map_distinct(before);
                    assert forall|j: int| 0 <= j < entries@.len() implies (#[trigger] entries@[j]).0@
                        == before[j].0@ by {}
                    assert forall|j: int| 0 <= j < entries@.len() implies target.dom().contains(
                        (#[trigger] entries@[j]).0@,
                    ) && target[entries@[j].0@] == entries@[j].1@ by {
                        if j != i {
                            assert(entries@[j] == before[j]);
                            assert(before[j].0@ != before[i as int].0@);
                        }
                    }
                    assert forall|k: Seq<char>| #[trigger] target.dom().contains(k) implies has_key(
                        entries@,
                        k,
                    ) by {
                        if k == before[i as int].0@ {
                            assert(entries@[i as int].0@ == k);
                        } else {
                            let j = choose|j: int|
                                0 <= j < before.len() && (#[trigger] before[j]).0@ == k;
                            assert(entries@[j].0@ == k);
                        }
                    }
                    lemma_pairs_map_is(entries@, target);
                }
            },
            None => {
                entries.push((key, value));
                proof {
                    assert(entries@.drop_last() =~= before);
                    assert forall|a: int, b: int| 0 <= a < b < entries@.len() implies (
                    #[trigger] entries@[a]).0@ != (#[trigger] entries@[b]).0@ by {
                        assert(entries@[a] == before[a]);
                        if b < before.len() {
                            assert(entries@[b] == before[b]);
                        }
                    }
                }
            },
        }
        self.entries = entries;
    }

    /// Takes out the record stored under `key`, lapsed or not.
    pub fn remove(&mut self, key: &str) -> (removed: Option<Value>)
        ensures
            final(self)@ == old(self)@.remove(key@),
            match removed {
                Some(value) => old(self)@.dom().contains(key@) && value@ == old(self)@[key@],
                None => !old(self)@.dom().contains(key@),
            },
    {
        proof {
            use_type_invariant(&*self);
            lemma_pairs_map_distinct(self.entries@);
        }
        match self.position(key) {
            Some(i) => {
                let mut entries: Vec<(String, Value)> = Vec::new();
                std::mem::swap(&mut entries, &mut self.entries);
                let ghost before = entries@;
                let ghost target = pairs_map(before).remove(key@);
                let pair = entries.remove(i);
                proof {
                    assert(before[i as int].0@ == key@);
                    assert forall|j: int| 0 <= j < entries@.len() implies (#[trigger] entries@[j])
                        == before[if j < i { j } else { j + 1 }] by {}
                    assert forall|a: int, b: int| 0 <= a < b < entries@.len() implies (
                    #[trigger] entries@[a]).0@ != (#[trigger] entries@[b]).0@ by {
                        assert(entries@[a] == before[if a < i { a } else { a + 1 }]);
                        assert(entries@[b] == before[if b < i { b } else { b + 1 }]);
                    }
                    assert forall|j: int| 0 <= j < entries@.len() implies target.dom().contains(
                        (#[trigger] entries@[j]).0@,
                    ) && target[entries@[j].0@] == entries@[j].1@ by {
                        let from = if j < i { j } else { j + 1 };
                        assert(entries@[j] == before[from]);
                        assert(before[from].0@ != before[i as int].0@);
                    }
                    assert forall|k: Seq<char>| #[trigger] target.dom().contains(k) implies has_key(
                        entries@,
                        k,
                    ) by {
                        let j = choose|j: int|
                            0 <= j < before.len() && (#[trigger] before[j]).0@ == k;
                        let to = if j < i { j } else { j - 1 };
                        assert(entries@[to].0@ == k);
                    }
                    lemma_pairs_map_is(entries@, target);
                }
                self.entries = entries;
                Some(pair.1)
            },
            None => {
                assert(self@.remove(key@) =~= self@);
                None
            },
        }
    }

    /// Drops every record that has lapsed at `now`, and says how many went.
    pub fn purge(&mut self, now: u64) -> (dropped: usize)
        ensures
            final(self)@ == purge(old(self)@, now),
            old(self)@.dom().finite(),
            dropped == old(self)@.dom().len() - final(self)@.dom().len(),
    {
        proof {
            use_type_invariant(&*self);
        }
        let mut all: Vec<(String, Value)> = Vec::new();
        std::mem::swap(&mut all, &mut self.entries);
        let ghost before = all@;
        let total = all.len();
        let mut kept: Vec<(String, Value)> = Vec::new();
        let mut dropped: usize = 0;
        for pair in it: all
            invariant
                it.seq() == before,
                before.len() == total,
                distinct_keys(before),
                distinct_keys(kept@),
                dropped + kept@.len() == it.index(),
                keeps_live(before, it.index() as int, kept@, now),
        {
            proof {
                lemma_keeps_live_step(before, it.index() as int, kept@, now);
            }
            if pair.1.is_expired(now) {
                dropped += 1;
            } else {
                kept.push(pair);
            }
        }
        proof {
            lemma_keeps_live_done(before, kept@, now);
            lemma_pairs_map_distinct(before);
            lemma_pairs_map_distinct(kept@);
        }
        self.entries = kept;
        dropped
    }

    /// The number of records, lapsed ones included.
    pub fn len(&self) -> (count: usize)
        ensures
            self@.dom().finite(),
            count == self@.dom().len(),
    {
        proof {
            use_type_invariant(self);
            lemma_pairs_map_distinct(self.entries@);
        }
        self.entries.len()
    }

    /// Whether the table holds no record at all.
    pub fn is_empty(&self) -> (empty: bool)
        ensures
            empty == (self@ == Map::<Seq<char>, Entry>::empty()),
    {
        proof {
            use_type_invariant(self);
            lemma_pairs_map_distinct(self.entries@);
            if self.entries@.len() > 0 {
                assert(self@.dom().contains(self.entries@[0].0@));
            } else {
                assert(self@ =~= Map::<Seq<char>, Entry>::empty());
            }
        }
        self.entries.len() == 0
    }

    /// A copy of every record, lapsed ones included, each key once.
    pub fn pairs(&self) -> (all: Vec<(String, Value)>)
        ensures
            distinct_keys(all@),
            pairs_map(all@) == self@,
    {
        proof {
            use_type_invariant(self);
        }
        let mut all: Vec<(String, Value)> = Vec::new();
        let mut i: usize = 0;
        while i < self.entries.len()
            invariant
                i <= self.entries@.len(),
                all@ == self.entries@.take(i as int),
            decreases self.entries@.len() - i,
        {
            let pair = &self.entries[i];
            all.push((pair.0.clone(), pair.1.clone()));
            i += 1;
            assert(all@ =~= self.entries@.take(i as int));
        }
        assert(all@ =~= self.entries@);
        all
    }

    /// A copy of every record that is live at `now`, each key once.
    pub fn live_pairs(&self, now: u64) -> (live: Vec<(String, Value)>)
        ensures
            distinct_keys(live@),
            pairs_map(live@) == purge(self@, now),
    {
        proof {
            use_type_invariant(self);
        }
        let mut live: Vec<(String, Value)> = Vec::new();
        let mut i: usize = 0;
        while i < self.entries.len()
            invariant
                i <= self.entries@.len(),
                distinct_keys(self.entries@),
                distinct_keys(live@),
                keeps_live(self.entries@, i as int, live@, now),
            decreases self.entries@.len() - i,
        {
            let pair = &self.entries[i];
            proof {
                lemma_keeps_live_step(self.entries@, i as int, live@, now);
            }
            if !pair.1.is_expired(now) {
                live.push((pair.0.clone(), pair.1.clone()));
                assert(live@.last() == self.entries@[i as int]);
            }
            i += 1;
        }
        proof {
            lemma_keeps_live_done(self.entries@, live@, now);
        }
        live
    }

    /// The table that writing the pairs one after the other gives.
    pub fn from_pairs(pairs: Vec<(String, Value)>) -> (table: Self)
        ensures
            table@ == pairs_map(pairs@),
    {
        let ghost given = pairs@;
        let mut table = Table::new();
        for pair in it: pairs
            invariant
                it.seq() == given,
                table@ == pairs_map(given.take(it.index() as int)),
        {
            proof {
                let upto = it.index() as int;
                assert(given.take(upto + 1).drop_last() =~= given.take(upto));
                assert(given.take(upto + 1).last() == pair);
            }
            table.insert(pair.0, pair.1);
        }
        assert(given.take(given.len() as int) =~= given);
        table
    }
}

/// The pair of `all` at `at` has not lapsed at `now`.
spec fn stays(all: Seq<(String, Value)>, at: int, now: u64) -> bool {
    !expired(all[at].1.expires_at, now)
}

/// `kept` holds the pairs among the first `upto` of `all` that are live at
/// `now`, and no others.
spec fn keeps_live(
    all: Seq<(String, Value)>,
    upto: int,
    kept: Seq<(String, Value)>,
    now: u64,
) -> bool {
    &&& forall|a: int|
        0 <= a < kept.len() ==> !expired((#[trigger] kept[a]).1.expires_at, now) && exists|b: int|
            0 <= b < upto && #[trigger] all[b] == kept[a]
    &&& forall|b: int|
        0 <= b < upto && #[trigger] stays(all, b, now) ==> exists|a: int|
            0 <= a < kept.len() && #[trigger] kept[a] == all[b]
}

/// One more pair of `all` is taken into account: kept if it is live, left out
/// if it has lapsed.
proof fn lemma_keeps_live_step(
    all: Seq<(String, Value)>,
    upto: int,
    kept: Seq<(String, Value)>,
    now: u64,
)
    requires
        0 <= upto < all.len(),
        distinct_keys(all),
        distinct_keys(kept),
        keeps_live(all, upto, kept, now),
    ensures
        expired(all[upto].1.expires_at, now) ==> keeps_live(all, upto + 1, kept, now),
        !expired(all[upto].1.expires_at, now) ==> keeps_live(
            all,
            upto + 1,
            kept.push(all[upto]),
            now,
        ) && distinct_keys(kept.push(all[upto])),
{
    if expired(all[upto].1.expires_at, now) {
        assert forall|a: int| 0 <= a < kept.len() implies !expired(
            (#[trigger] kept[a]).1.expires_at,
            now,
        ) && exists|b: int| 0 <= b < upto + 1 && #[trigger] all[b] == kept[a] by {
            let from = choose|from: int| 0 <= from < upto && #[trigger] all[from] == kept[a];
            assert(all[from] == kept[a]);
        }
        assert forall|b: int| 0 <= b < upto + 1 && #[trigger] stays(all, b, now) implies exists|
            a: int,
        | 0 <= a < kept.len() && #[trigger] kept[a] == all[b] by {
            assert(b < upto);
        }
    } else {
        let more = kept.push(all[upto]);
        assert forall|a: int| 0 <= a < more.len() implies !expired(
            (#[trigger] more[a]).1.expires_at,
            now,
        ) && exists|b: int| 0 <= b < upto + 1 && #[trigger] all[b] == more[a] by {
            if a < kept.len() {
                assert(more[a] == kept[a]);
                let from = choose|from: int| 0 <= from < upto && #[trigger] all[from] == kept[a];
                assert(all[from] == more[a]);
            } else {
                assert(all[upto] == more[a]);
            }
        }
        assert forall|b: int| 0 <= b < upto + 1 && #[trigger] stays(all, b, now) implies exists|
            a: int,
        | 0 <= a < more.len() && #[trigger] more[a] == all[b] by {
            if b < upto {
                let to = choose|to: int| 0 <= to < kept.len() && #[trigger] kept[to] == all[b];
                assert(more[to] == all[b]);
            } else {
                assert(more[kept.len() as int] == all[b]);
            }
        }
        assert forall|a: int, b: int| 0 <= a < b < more.len() implies (#[trigger] more[a]).0@ != (
        #[trigger] more[b]).0@ by {
            assert(more[a] == kept[a]);
            let from = choose|from: int| 0 <= from < upto && #[trigger] all[from] == kept[a];
            assert(all[from] == kept[a]);
            if b < kept.len() {
                assert(more[b] == kept[b]);
            } else {
                assert(more[b] == all[upto]);
            }
        }
    }
}

/// Once every pair of `all` is taken into account, `kept` is `all` without
/// what has lapsed.
proof fn lemma_keeps_live_done(all: Seq<(String, Value)>, kept: Seq<(String, Value)>, now: u64)
    requires
        distinct_keys(all),
        distinct_keys(kept),
        keeps_live(all, all.len() as int, kept, now),
    ensures
        pairs_map(kept) == purge(pairs_map(all), now),
{
    let whole = pairs_map(all);
    let target = purge(whole, now);
    lemma_pairs_map_distinct(all);
    assert forall|a: int| 0 <= a < kept.len() implies target.dom().contains(
        (#[trigger] kept[a]).0@,
    ) && target[kept[a].0@] == kept[a].1@ by {
        let from = choose|from: int| 0 <= from < all.len() && #[trigger] all[from] == kept[a];
        assert(whole[all[from].0@] == all[from].1@);
    }
    assert forall|k: Seq<char>| #[trigger] target.dom().contains(k) implies has_key(kept, k) by {
        let from = choose|from: int| 0 <= from < all.len() && (#[trigger] all[from]).0@ == k;
        assert(whole[all[from].0@] == all[from].1@);
        assert(stays(all, from, now));
        let to = choose|to: int| 0 <= to < kept.len() && #[trigger] kept[to] == all[from];
        assert(kept[to].0@ == k);
    }
    lemma_pairs_map_is(kept, target);
}

} // verus!
