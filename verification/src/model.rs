//! The mathematical model of a store: a map from keys to entries, and what
//! reading, writing and expiry mean on it.

use vstd::prelude::*;
use vstd::set_lib::{lemma_len_subset, lemma_subset_equality};
use crate::types::Value;

verus! {

/// What is stored under a key: the payload and the deadline, if there is one.
pub struct Entry {
    pub payload: Seq<char>,
    pub expires_at: Option<u64>,
}

/// An entry has lapsed at `now` iff it has a deadline and the deadline is not
/// after `now`: it lapses in the very second of its deadline.
pub open spec fn expired(expires_at: Option<u64>, now: u64) -> bool {
    match expires_at {
        Some(deadline) => deadline <= now,
        None => false,
    }
}

/// The deadline of an entry written at `now` with the given time-to-live:
/// `now + ttl`, held at the largest representable second.
pub open spec fn deadline(now: u64, ttl: Option<u64>) -> Option<u64> {
    match ttl {
        Some(seconds) => Some(
            if now + seconds > u64::MAX {
                u64::MAX
            } else {
                (now + seconds) as u64
            },
        ),
        None => None,
    }
}

/// The key is present and its entry has not lapsed at `now`.
pub open spec fn is_live(m: Map<Seq<char>, Entry>, key: Seq<char>, now: u64) -> bool {
    m.dom().contains(key) && !expired(m[key].expires_at, now)
}

/// What a read of `key` at `now` yields.
pub open spec fn lookup(m: Map<Seq<char>, Entry>, key: Seq<char>, now: u64) -> Option<Seq<char>> {
    if is_live(m, key, now) {
        Some(m[key].payload)
    } else {
        None
    }
}

/// The seconds left at `now` to a live entry with a deadline.
pub open spec fn remaining(m: Map<Seq<char>, Entry>, key: Seq<char>, now: u64) -> Option<u64> {
    if is_live(m, key, now) {
        match m[key].expires_at {
            Some(deadline) => Some((deadline - now) as u64),
            None => None,
        }
    } else {
        None
    }
}

/// The map after `key` was written at `now`: whatever was there is replaced.
pub open spec fn put(
    m: Map<Seq<char>, Entry>,
    key: Seq<char>,
    payload: Seq<char>,
    ttl: Option<u64>,
    now: u64,
) -> Map<Seq<char>, Entry> {
    m.insert(key, Entry { payload, expires_at: deadline(now, ttl) })
}

/// The map without the entries that have lapsed at `now`.
pub open spec fn purge(m: Map<Seq<char>, Entry>, now: u64) -> Map<Seq<char>, Entry> {
    m.restrict(Set::new(|key: Seq<char>| is_live(m, key, now)))
}

/// Some pair of `pairs` has the key `key`.
pub open spec fn has_key(pairs: Seq<(String, Value)>, key: Seq<char>) -> bool {
    exists|i: int| 0 <= i < pairs.len() && (#[trigger] pairs[i]).0@ == key
}

/// No two pairs of `pairs` have the same key.
pub open spec fn distinct_keys(pairs: Seq<(String, Value)>) -> bool {
    forall|i: int, j: int|
        0 <= i < j < pairs.len() ==> (#[trigger] pairs[i]).0@ != (#[trigger] pairs[j]).0@
}

/// The map that writing the pairs one after the other gives: of two pairs with
/// the same key, the later one stays.
pub open spec fn pairs_map(pairs: Seq<(String, Value)>) -> Map<Seq<char>, Entry>
    decreases pairs.len(),
{
    if pairs.len() == 0 {
        Map::empty()
    } else {
        pairs_map(pairs.drop_last()).insert(pairs.last().0@, pairs.last().1@)
    }
}

/// `listing` holds every entry of `m` that is live at `now` exactly once, with
/// its payload, and nothing else. The order is left open.
pub open spec fn is_listing(
    m: Map<Seq<char>, Entry>,
    now: u64,
    listing: Seq<(String, String)>,
) -> bool {
    &&& forall|i: int|
        0 <= i < listing.len() ==> lookup(m, (#[trigger] listing[i]).0@, now) == Some(
            listing[i].1@,
        )
    &&& forall|key: Seq<char>| #[trigger]
        is_live(m, key, now) ==> exists|i: int|
            0 <= i < listing.len() && (#[trigger] listing[i]).0@ == key
    &&& forall|i: int, j: int|
        0 <= i < j < listing.len() ==> (#[trigger] listing[i]).0@ != (#[trigger] listing[j]).0@
}

/// The key of every pair is a key of the map of the pairs.
pub proof fn lemma_pairs_map_has(pairs: Seq<(String, Value)>, at: int)
    requires
        0 <= at < pairs.len(),
    ensures
        pairs_map(pairs).dom().contains(pairs[at].0@),
    decreases pairs.len(),
{
    if at < pairs.len() - 1 {
        lemma_pairs_map_has(pairs.drop_last(), at);
        assert(pairs.drop_last()[at] == pairs[at]);
    }
}

/// In a sequence whose keys are distinct, the map holds exactly the pairs, and
/// as many entries as there are pairs.
pub proof fn lemma_pairs_map_distinct(pairs: Seq<(String, Value)>)
    requires
        distinct_keys(pairs),
    ensures
        forall|i: int|
            0 <= i < pairs.len() ==> pairs_map(pairs).dom().contains((#[trigger] pairs[i]).0@)
                && pairs_map(pairs)[pairs[i].0@] == pairs[i].1@,
        forall|key: Seq<char>| #[trigger]
            pairs_map(pairs).dom().contains(key) ==> has_key(pairs, key),
        pairs_map(pairs).dom().finite(),
        pairs_map(pairs).dom().len() == pairs.len(),
    decreases pairs.len(),
{
    if pairs.len() > 0 {
        let init = pairs.drop_last();
        let last = pairs.last();
        assert(distinct_keys(init)) by {
            assert forall|i: int, j: int| 0 <= i < j < init.len() implies (#[trigger] init[i]).0@
                != (#[trigger] init[j]).0@ by {
                assert(init[i] == pairs[i] && init[j] == pairs[j]);
            }
        }
        lemma_pairs_map_distinct(init);
        assert(!pairs_map(init).dom().contains(last.0@)) by {
            if pairs_map(init).dom().contains(last.0@) {
                let i = choose|i: int| 0 <= i < init.len() && (#[trigger] init[i]).0@ == last.0@;
                assert(init[i] == pairs[i]);
                assert(pairs[pairs.len() - 1] == last);
            }
        }
        assert forall|i: int| 0 <= i < pairs.len() implies pairs_map(pairs).dom().contains(
            (#[trigger] pairs[i]).0@,
        ) && pairs_map(pairs)[pairs[i].0@] == pairs[i].1@ by {
            if i < init.len() {
                assert(init[i] == pairs[i]);
            }
        }
        assert forall|key: Seq<char>| #[trigger]
            pairs_map(pairs).dom().contains(key) implies has_key(pairs, key) by {
            if key == last.0@ {
                assert(pairs[pairs.len() - 1].0@ == key);
            } else {
                let i = choose|i: int| 0 <= i < init.len() && (#[trigger] init[i]).0@ == key;
                assert(pairs[i] == init[i]);
            }
        }
    }
}

/// A map that holds exactly the pairs of a sequence with distinct keys is the
/// map of that sequence.
pub proof fn lemma_pairs_map_is(pairs: Seq<(String, Value)>, m: Map<Seq<char>, Entry>)
    requires
        distinct_keys(pairs),
        forall|i: int|
            0 <= i < pairs.len() ==> m.dom().contains((#[trigger] pairs[i]).0@) && m[pairs[i].0@]
                == pairs[i].1@,
        forall|key: Seq<char>| #[trigger] m.dom().contains(key) ==> has_key(pairs, key),
    ensures
        pairs_map(pairs) == m,
{
    let built = pairs_map(pairs);
    lemma_pairs_map_distinct(pairs);
    assert forall|key: Seq<char>| built.dom().contains(key) <==> m.dom().contains(key) by {
        if built.dom().contains(key) || m.dom().contains(key) {
            let i = choose|i: int| 0 <= i < pairs.len() && (#[trigger] pairs[i]).0@ == key;
            assert(pairs[i].0@ == key);
        }
    }
    assert forall|key: Seq<char>| built.dom().contains(key) implies built[key] == m[key] by {
        let i = choose|i: int| 0 <= i < pairs.len() && (#[trigger] pairs[i]).0@ == key;
        assert(pairs[i].0@ == key);
    }
    assert(built =~= m);
}

/// What a result that may hold text says, as characters.
pub open spec fn text(found: Option<String>) -> Option<Seq<char>> {
    match found {
        Some(payload) => Some(payload@),
        None => None,
    }
}

/// Some entry of `m` has lapsed at `now`.
pub open spec fn has_lapsed(m: Map<Seq<char>, Entry>, now: u64) -> bool {
    exists|key: Seq<char>| m.dom().contains(key) && expired(#[trigger] m[key].expires_at, now)
}

/// The map that a snapshot stands for; none at all stands for the empty map.
pub open spec fn loaded(snapshot: Option<Vec<(String, Value)>>) -> Map<Seq<char>, Entry> {
    match snapshot {
        Some(pairs) => pairs_map(pairs@),
        None => Map::empty(),
    }
}

/// Purging a finite map takes entries away exactly when one has lapsed.
pub proof fn lemma_purge_len(m: Map<Seq<char>, Entry>, now: u64)
    requires
        m.dom().finite(),
    ensures
        purge(m, now).dom().finite(),
        purge(m, now).dom().len() <= m.dom().len(),
        purge(m, now).dom().len() < m.dom().len() <==> has_lapsed(m, now),
        purge(m, now) == m <==> !has_lapsed(m, now),
{
    let rest = purge(m, now);
    lemma_len_subset(rest.dom(), m.dom());
    if has_lapsed(m, now) {
        let key = choose|key: Seq<char>|
            m.dom().contains(key) && expired(#[trigger] m[key].expires_at, now);
        assert(!rest.dom().contains(key));
        if rest.dom().len() == m.dom().len() {
            lemma_subset_equality(rest.dom(), m.dom());
        }
    } else {
        assert forall|key: Seq<char>| m.dom().contains(key) implies rest.dom().contains(key) by {
            assert(!expired(m[key].expires_at, now));
        }
        assert(rest =~= m);
    }
}

/// The keys and payloads of the pairs that are live in `m` make a listing of `m`.
pub proof fn lemma_listing_from_pairs(
    m: Map<Seq<char>, Entry>,
    now: u64,
    live: Seq<(String, Value)>,
    listing: Seq<(String, String)>,
)
    requires
        distinct_keys(live),
        pairs_map(live) == purge(m, now),
        listing.len() == live.len(),
        forall|i: int|
            0 <= i < live.len() ==> (#[trigger] listing[i]).0@ == live[i].0@ && listing[i].1@
                == live[i].1.data@,
    ensures
        is_listing(m, now, listing),
{
    lemma_pairs_map_distinct(live);
    assert forall|i: int| 0 <= i < listing.len() implies lookup(
        m,
        (#[trigger] listing[i]).0@,
        now,
    ) == Some(listing[i].1@) by {
        assert(purge(m, now).dom().contains(live[i].0@));
        assert(purge(m, now)[live[i].0@] == live[i].1@);
    }
    assert forall|key: Seq<char>| #[trigger] is_live(m, key, now) implies exists|i: int|
        0 <= i < listing.len() && (#[trigger] listing[i]).0@ == key by {
        assert(purge(m, now).dom().contains(key));
        let i = choose|i: int| 0 <= i < live.len() && (#[trigger] live[i]).0@ == key;
        assert(listing[i].0@ == key);
    }
    assert forall|i: int, j: int| 0 <= i < j < listing.len() implies (#[trigger] listing[i]).0@
        != (#[trigger] listing[j]).0@ by {
        assert(live[i].0@ != live[j].0@);
    }
}

} // verus!
