//! The store whose payloads are text, kept and returned as they were given.

use vstd::prelude::*;
use crate::model::{
    distinct_keys, has_lapsed, is_listing, lemma_listing_from_pairs, lemma_purge_len, loaded,
    lookup, pairs_map, purge, put, remaining, text, Entry,
};
use crate::table::Table;
use crate::types::{StorageConfig, Value};

verus! {

/// A key-value store with an optional time-to-live on each entry.
///
/// An entry whose deadline has come is absent to every read, whether or not it
/// is still held. Nothing here reads a clock or touches a file: the caller
/// passes the time, writes [`KvStore::snapshot`] to [`KvStore::file_path`]
/// after each change, and hands what it read there to [`KvStore::new`]. A
/// change stays in memory whether or not the caller then manages to write it.
pub struct KvStore {
    file_path: String,
    store: Table,
}

impl View for KvStore {
    type V = Map<Seq<char>, Entry>;

    closed spec fn view(&self) -> Map<Seq<char>, Entry> {
        self.store@
    }
}

impl KvStore {
    /// The path of the file that holds the snapshot.
    pub closed spec fn path(&self) -> Seq<char> {
        self.file_path@
    }

    /// Starts a store from what the snapshot file held at `now`.
    ///
    /// `snapshot` is `None` where there was no file or it could not be parsed:
    /// the store then starts empty. Entries that have lapsed are dropped at
    /// once; the flag says whether there were any, that is whether the file
    /// has to be written anew.
    pub fn new(
        config: &StorageConfig,
        snapshot: Option<Vec<(String, Value)>>,
        now: u64,
    ) -> (started: (Self, bool))
        ensures
            started.0@ == purge(loaded(snapshot), now),
            started.0.path() == config.snapshot_file(),
            started.1 == has_lapsed(loaded(snapshot), now),
    {
        let table = match snapshot {
            Some(pairs) => Table::from_pairs(pairs),
            None => Table::new(),
        };
        let mut store = KvStore { file_path: config.snapshot_path(), store: table };
        let rewrite = store.cleanup_expired(now);
        (store, rewrite)
    }

    /// The path of the file that holds the snapshot.
    pub fn file_path(&self) -> (path: &str)
        ensures
            path@ == self.path(),
    {
        self.file_path.as_str()
    }

    /// The payload stored under `key`, unless it has lapsed at `now`.
    pub fn get(&self, key: &str, now: u64) -> (found: Option<String>)
        ensures
            text(found) == lookup(self@, key@, now),
    {
        match self.store.get(key) {
            Some(value) => {
                if value.is_expired(now) {
                    None
                } else {
                    Some(value.data.clone())
                }
            },
            None => None,
        }
    }

    /// Stores `value` under `key` for good, in place of whatever was there.
    pub fn set(&mut self, key: String, value: String)
        ensures
            final(self)@ == old(self)@.insert(key@, (Entry { payload: value@, expires_at: None })),
            final(self).path() == old(self).path(),
    {
        self.store.insert(key, Value { data: value, expires_at: None });
    }

    /// Stores `value` under `key`, in place of whatever was there. With a
    /// time-to-live the entry lapses `ttl_seconds` after `now`, or at the
    /// largest second there is where that sum is beyond it; without one it
    /// never does.
    pub fn set_with_ttl(&mut self, key: String, value: String, ttl_seconds: Option<u64>, now: u64)
        ensures
            final(self)@ == put(old(self)@, key@, value@, ttl_seconds, now),
            final(self).path() == old(self).path(),
    {
        let expires_at = match ttl_seconds {
            Some(seconds) => Some(now.saturating_add(seconds)),
            None => None,
        };
        self.store.insert(key, Value { data: value, expires_at });
    }

    /// Removes the entry of `key`, lapsed or not, and returns its payload
    /// unless it had lapsed at `now`.
    pub fn delete(&mut self, key: &str, now: u64) -> (removed: Option<String>)
        ensures
            final(self)@ == old(self)@.remove(key@),
            final(self).path() == old(self).path(),
            text(removed) == lookup(old(self)@, key@, now),
    {
        match self.store.remove(key) {
            Some(value) => {
                if value.is_expired(now) {
                    None
                } else {
                    Some(value.data)
                }
            },
            None => None,
        }
    }

    /// The key and payload of every entry that is live at `now`.
    pub fn list(&self, now: u64) -> (listing: Vec<(String, String)>)
        ensures
            is_listing(self@, now, listing@),
    {
        let live = self.store.live_pairs(now);
        let ghost pairs = live@;
        let mut listing: Vec<(String, String)> = Vec::new();
        for pair in it: live
            invariant
                it.seq() == pairs,
                listing@.len() == it.index(),
                forall|i: int|
                    0 <= i < listing@.len() ==> (#[trigger] listing@[i]).0@ == pairs[i].0@
                        && listing@[i].1@ == pairs[i].1.data@,
        {
            listing.push((pair.0, pair.1.data));
        }
        proof {
            lemma_listing_from_pairs(self@, now, pairs, listing@);
        }
        listing
    }

    /// Drops every entry that has lapsed at `now`, and says whether there was
    /// one: only then has the snapshot to be written anew.
    pub fn cleanup_expired(&mut self, now: u64) -> (rewrite: bool)
        ensures
            final(self)@ == purge(old(self)@, now),
            final(self).path() == old(self).path(),
            rewrite == has_lapsed(old(self)@, now),
    {
        let dropped = self.store.purge(now);
        proof {
            lemma_purge_len(old(self)@, now);
        }
        dropped > 0
    }

    /// The seconds left at `now` to the entry of `key`, where it is live and
    /// has a deadline.
    pub fn get_ttl(&self, key: &str, now: u64) -> (left: Option<u64>)
        ensures
            left == remaining(self@, key@, now),
    {
        match self.store.get(key) {
            Some(value) => {
                match value.expires_at {
                    Some(deadline) => {
                        if deadline <= now {
                            None
                        } else {
                            Some(deadline.saturating_sub(now))
                        }
                    },
                    None => None,
                }
            },
            None => None,
        }
    }

    /// A copy of every entry that is live at `now`, each key once.
    pub fn get_all(&self, now: u64) -> (live: Vec<(String, Value)>)
        ensures
            distinct_keys(live@),
            pairs_map(live@) == purge(self@, now),
    {
        self.store.live_pairs(now)
    }

    /// A copy of every entry held, lapsed or not, each key once: what a
    /// snapshot file has to hold.
    pub fn snapshot(&self) -> (all: Vec<(String, Value)>)
        ensures
            distinct_keys(all@),
            pairs_map(all@) == self@,
    {
        self.store.pairs()
    }

    /// Whether no entry is held, lapsed ones included.
    pub fn is_empty(&self) -> (empty: bool)
        ensures
            empty == (self@ == Map::<Seq<char>, Entry>::empty()),
    {
        self.store.is_empty()
    }

    /// The number of entries held, lapsed ones included.
    pub fn len(&self) -> (count: usize)
        ensures
            self@.dom().finite(),
            count == self@.dom().len(),
    {
        self.store.len()
    }
}

} // verus!
