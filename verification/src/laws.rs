//! What holds of every store, stated over the model and proved.

use vstd::prelude::*;
use crate::model::{
    deadline, expired, has_key, has_lapsed, is_listing, is_live, lemma_pairs_map_has, loaded,
    lookup, pairs_map, purge, put, remaining, Entry,
};
use crate::types::Value;

verus! {

/// Dropping what had lapsed at an earlier time changes no later read: not
/// what a key yields, not the seconds left to it, not which keys are live,
/// and not what a later purge leaves.
pub proof fn lemma_purge_unobservable(m: Map<Seq<char>, Entry>, earlier: u64, now: u64)
    requires
        earlier <= now,
    ensures
        forall|key: Seq<char>| #[trigger]
            lookup(purge(m, earlier), key, now) == lookup(m, key, now),
        forall|key: Seq<char>| #[trigger]
            remaining(purge(m, earlier), key, now) == remaining(m, key, now),
        forall|key: Seq<char>| #[trigger]
            is_live(purge(m, earlier), key, now) == is_live(m, key, now),
        purge(purge(m, earlier), now) == purge(m, now),
{
    let rest = purge(m, earlier);
    assert forall|key: Seq<char>| #[trigger]
        is_live(rest, key, now) == is_live(m, key, now) by {
        if is_live(m, key, now) {
            assert(is_live(m, key, earlier));
        }
    }
    assert forall|key: Seq<char>| #[trigger] lookup(rest, key, now) == lookup(m, key, now) by {
        assert(is_live(rest, key, now) == is_live(m, key, now));
    }
    assert forall|key: Seq<char>| #[trigger]
        remaining(rest, key, now) == remaining(m, key, now) by {
        assert(is_live(rest, key, now) == is_live(m, key, now));
    }
    assert(purge(rest, now) =~= purge(m, now)) by {
        assert forall|key: Seq<char>|
            purge(rest, now).dom().contains(key) == purge(m, now).dom().contains(key) by {
            assert(is_live(rest, key, now) == is_live(m, key, now));
        }
    }
}

/// Dropping what had lapsed at an earlier time changes no later listing.
pub proof fn lemma_purge_keeps_listings(
    m: Map<Seq<char>, Entry>,
    earlier: u64,
    now: u64,
    listing: Seq<(String, String)>,
)
    requires
        earlier <= now,
    ensures
        is_listing(purge(m, earlier), now, listing) == is_listing(m, now, listing),
{
    let rest = purge(m, earlier);
    lemma_purge_unobservable(m, earlier, now);
    if is_listing(m, now, listing) {
        assert forall|i: int| 0 <= i < listing.len() implies lookup(
            rest,
            (#[trigger] listing[i]).0@,
            now,
        ) == Some(listing[i].1@) by {
            assert(lookup(rest, listing[i].0@, now) == lookup(m, listing[i].0@, now));
        }
        assert forall|key: Seq<char>| #[trigger] is_live(rest, key, now) implies exists|i: int|
            0 <= i < listing.len() && (#[trigger] listing[i]).0@ == key by {
            assert(is_live(m, key, now));
        }
        assert(is_listing(rest, now, listing));
    }
    if is_listing(rest, now, listing) {
        assert forall|i: int| 0 <= i < listing.len() implies lookup(
            m,
            (#[trigger] listing[i]).0@,
            now,
        ) == Some(listing[i].1@) by {
            assert(lookup(rest, listing[i].0@, now) == lookup(m, listing[i].0@, now));
        }
        assert forall|key: Seq<char>| #[trigger] is_live(m, key, now) implies exists|i: int|
            0 <= i < listing.len() && (#[trigger] listing[i]).0@ == key by {
            assert(is_live(rest, key, now));
        }
        assert(is_listing(m, now, listing));
    }
}

/// A store that is written out and started again reads as it read before:
/// where `snapshot` holds the content `m` and the store is started from it at
/// `restart`, every key yields at any later time what it would yield without
/// the restart, with the same seconds left.
pub proof fn lemma_restart_round_trip(
    m: Map<Seq<char>, Entry>,
    snapshot: Vec<(String, Value)>,
    restart: u64,
    now: u64,
    key: Seq<char>,
)
    requires
        pairs_map(snapshot@) == m,
        restart <= now,
    ensures
        lookup(purge(loaded(Some(snapshot)), restart), key, now) == lookup(m, key, now),
        remaining(purge(loaded(Some(snapshot)), restart), key, now) == remaining(m, key, now),
{
    lemma_purge_unobservable(m, restart, now);
}

/// An entry written with a time-to-live is read as written at every time
/// before its deadline, and is absent from that second on: no read yields it,
/// and no listing holds it. Read in the second of the write it is there,
/// unless the time-to-live is zero or the clock stands at its last second.
pub proof fn lemma_expiry_boundary(
    m: Map<Seq<char>, Entry>,
    key: Seq<char>,
    payload: Seq<char>,
    ttl: u64,
    now: u64,
    at: u64,
    listing: Seq<(String, String)>,
)
    requires
        is_listing(put(m, key, payload, Some(ttl), now), at, listing),
    ensures
        at < deadline(now, Some(ttl))->0 ==> lookup(put(m, key, payload, Some(ttl), now), key, at)
            == Some(payload),
        at >= deadline(now, Some(ttl))->0 ==> lookup(put(m, key, payload, Some(ttl), now), key, at)
            is None,
        at >= deadline(now, Some(ttl))->0 ==> forall|i: int|
            0 <= i < listing.len() ==> (#[trigger] listing[i]).0@ != key,
        ttl > 0 && now < u64::MAX ==> lookup(put(m, key, payload, Some(ttl), now), key, now)
            == Some(payload),
{
    let after = put(m, key, payload, Some(ttl), now);
    assert(after[key].expires_at == deadline(now, Some(ttl)));
    if at >= deadline(now, Some(ttl))->0 {
        assert forall|i: int| 0 <= i < listing.len() implies (#[trigger] listing[i]).0@ != key by {
            assert(lookup(after, listing[i].0@, at) is Some);
        }
    }
}

/// A write replaces whatever an earlier write left under the key, payload and
/// deadline alike: the store is as if the earlier write had not been made.
pub proof fn lemma_overwrite(
    m: Map<Seq<char>, Entry>,
    key: Seq<char>,
    first: Seq<char>,
    first_ttl: Option<u64>,
    first_now: u64,
    second: Seq<char>,
    second_ttl: Option<u64>,
    now: u64,
)
    ensures
        put(put(m, key, first, first_ttl, first_now), key, second, second_ttl, now) == put(
            m,
            key,
            second,
            second_ttl,
            now,
        ),
        second_ttl is None ==> lookup(put(m, key, second, second_ttl, now), key, now) == Some(
            second,
        ) && remaining(put(m, key, second, second_ttl, now), key, now) is None,
        second_ttl matches Some(seconds) && seconds > 0 && now + seconds <= u64::MAX ==> lookup(
            put(m, key, second, second_ttl, now),
            key,
            now,
        ) == Some(second) && remaining(put(m, key, second, second_ttl, now), key, now)
            == second_ttl,
{
    assert(put(put(m, key, first, first_ttl, first_now), key, second, second_ttl, now) =~= put(
        m,
        key,
        second,
        second_ttl,
        now,
    ));
}

/// Once a key is removed it is absent: a read yields nothing, and removing it
/// again yields nothing and changes nothing. Removing a key that was never
/// there changes nothing either.
pub proof fn lemma_delete_idempotent(m: Map<Seq<char>, Entry>, key: Seq<char>, now: u64)
    ensures
        lookup(m.remove(key), key, now) is None,
        m.remove(key).remove(key) == m.remove(key),
        !m.dom().contains(key) ==> m.remove(key) == m && lookup(m, key, now) is None,
{
    assert(m.remove(key).remove(key) =~= m.remove(key));
    if !m.dom().contains(key) {
        assert(m.remove(key) =~= m);
    }
}

/// An entry without a deadline never lapses: whatever time has gone by, it
/// is read as written, has no seconds left to count, and stays through a
/// purge.
pub proof fn lemma_no_deadline_never_lapses(
    m: Map<Seq<char>, Entry>,
    key: Seq<char>,
    payload: Seq<char>,
    now: u64,
    later: u64,
)
    ensures
        !expired(None, later),
        lookup(put(m, key, payload, None, now), key, later) == Some(payload),
        remaining(put(m, key, payload, None, now), key, later) is None,
        purge(put(m, key, payload, None, now), later).dom().contains(key),
        purge(put(m, key, payload, None, now), later)[key] == (Entry { payload, expires_at: None }),
{
}

/// An entry that has lapsed never comes to light, purged or not: where the
/// content of a snapshot holds one, no read yields it or seconds left to it,
/// no listing holds it, and it is not among the live pairs.
pub proof fn lemma_lapsed_never_surfaces(
    snapshot: Option<Vec<(String, Value)>>,
    key: Seq<char>,
    now: u64,
    listing: Seq<(String, String)>,
    live: Seq<(String, Value)>,
)
    requires
        loaded(snapshot).dom().contains(key),
        expired(loaded(snapshot)[key].expires_at, now),
        is_listing(loaded(snapshot), now, listing),
        pairs_map(live) == purge(loaded(snapshot), now),
    ensures
        lookup(loaded(snapshot), key, now) is None,
        remaining(loaded(snapshot), key, now) is None,
        forall|i: int| 0 <= i < listing.len() ==> (#[trigger] listing[i]).0@ != key,
        !has_key(live, key),
        !purge(loaded(snapshot), now).dom().contains(key),
{
    let m = loaded(snapshot);
    assert forall|i: int| 0 <= i < listing.len() implies (#[trigger] listing[i]).0@ != key by {
        assert(lookup(m, listing[i].0@, now) is Some);
    }
    if has_key(live, key) {
        let i = choose|i: int| 0 <= i < live.len() && (#[trigger] live[i]).0@ == key;
        lemma_pairs_map_has(live, i);
    }
}

/// No snapshot, as where the file is missing or cannot be parsed, stands for
/// the empty store: nothing is read from it at any time.
pub proof fn lemma_no_snapshot_is_empty(now: u64, key: Seq<char>)
    ensures
        purge(loaded(None), now) == Map::<Seq<char>, Entry>::empty(),
        lookup(purge(loaded(None), now), key, now) is None,
        !has_lapsed(loaded(None), now),
{
    assert(purge(loaded(None), now) =~= Map::<Seq<char>, Entry>::empty());
}

} // verus!
