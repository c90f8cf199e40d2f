//! The store whose payloads are JSON values, kept as compact JSON text.

use vstd::prelude::*;
use crate::json::{stored_form, to_stored_form};
use crate::model::{distinct_keys, lookup, pairs_map, purge, put, text, Entry};
use crate::table::Table;
use crate::types::Value;

verus! {

/// A key-value store with an optional time-to-live on each entry, which drops
/// what has lapsed whenever it is read.
///
/// A payload that is JSON text is kept as that JSON value, any other payload
/// as a JSON string; a read returns the compact JSON text of what is kept.
/// Nothing here reads a clock or touches a file: the caller passes the time,
/// and after each call that may change the store writes
/// [`KvStore::get_all`] to [`KvStore::file_path`], where there is one.
pub struct KvStore {
    data: Table,
    file_path: Option<String>,
}

impl View for KvStore {
    type V = Map<Seq<char>, Entry>;

    closed spec fn view(&self) -> Map<Seq<char>, Entry> {
        self.data@
    }
}

impl KvStore {
    /// The path of the file that holds the snapshot, if the store has one.
    pub closed spec fn path(&self) -> Option<Seq<char>> {
        match self.file_path {
            Some(path) => Some(path@),
            None => None,
        }
    }

    /// An empty store whose snapshot is the file `kv_store.json`.
    pub fn new() -> (store: Self)
        ensures
            store@ == Map::<Seq<char>, Entry>::empty(),
            store.path() == Some("kv_store.json"@),
    {
        KvStore { data: Table::new(), file_path: Some("kv_store.json".to_owned()) }
    }

    /// An empty store whose snapshot is the file at `path`.
    pub fn with_path(path: &str) -> (store: Self)
        ensures
            store@ == Map::<Seq<char>, Entry>::empty(),
            store.path() == Some(path@),
    {
        KvStore { data: Table::new(), file_path: Some(path.to_owned()) }
    }

    /// An empty store without a snapshot.
    pub fn in_memory() -> (store: Self)
        ensures
            store@ == Map::<Seq<char>, Entry>::empty(),
            store.path() is None,
    {
        KvStore { data: Table::new(), file_path: None }
    }

    /// The path of the file that holds the snapshot, if the store has one.
    pub fn file_path(&self) -> (path: Option<&str>)
        ensures
            match path {
                Some(path) => self.path() == Some(path@),
                None => self.path() is None,
            },
    {
        match &self.file_path {
            Some(path) => Some(path.as_str()),
            None => None,
        }
    }

    /// Stores `value` under `key`, in place of whatever was there, in the form
    /// that [`stored_form`] gives it. With a time-to-live the entry lapses
    /// `ttl` seconds after `now`, or at the largest second there is where that
    /// sum is beyond it. Never fails.
    pub fn set(&mut self, key: String, value: String, ttl: Option<u64>, now: u64) -> (done: Result<
        (),
        String,
    >)
        ensures
            done is Ok,
            final(self)@ == put(old(self)@, key@, stored_form(value@), ttl, now),
            final(self).path() == old(self).path(),
    {
        let data = to_stored_form(value);
        self.put(key, data, ttl, now);
        Ok(())
    }

    /// Stores `data` under `key` as it is, in place of whatever was there.
    pub fn put(&mut self, key: String, data: String, ttl: Option<u64>, now: u64)
        ensures
            final(self)@ == put(old(self)@, key@, data@, ttl, now),
            final(self).path() == old(self).path(),
    {
        let expires_at = match ttl {
            Some(seconds) => Some(now.saturating_add(seconds)),
            None => None,
        };
        self.data.insert(key, Value { data, expires_at });
    }

    /// Drops what has lapsed at `now`, and returns the text kept under `key`
    /// if there is any left.
    pub fn get(&mut self, key: &str, now: u64) -> (found: Option<String>)
        ensures
            final(self)@ == purge(old(self)@, now),
            final(self).path() == old(self).path(),
            text(found) == lookup(old(self)@, key@, now),
    {
        self.remove_expired(now);
        match self.data.get(key) {
            Some(value) => Some(value.data.clone()),
            None => None,
        }
    }

    /// Drops what has lapsed at `now`, then removes the entry of `key` and
    /// returns the text that was kept under it, if there was any left.
    pub fn delete(&mut self, key: &str, now: u64) -> (removed: Option<String>)
        ensures
            final(self)@ == purge(old(self)@, now).remove(key@),
            final(self).path() == old(self).path(),
            text(removed) == lookup(old(self)@, key@, now),
    {
        self.remove_expired(now);
        match self.data.remove(key) {
            Some(value) => Some(value.data),
            None => None,
        }
    }

    /// A copy of every entry held, lapsed or not, each key once: what a
    /// snapshot file has to hold.
    pub fn get_all(&self) -> (all: Vec<(String, Value)>)
        ensures
            distinct_keys(all@),
            pairs_map(all@) == self@,
    {
        self.data.pairs()
    }

    /// Whether no entry is held, lapsed ones included.
    pub fn is_empty(&self) -> (empty: bool)
        ensures
            empty == (self@ == Map::<Seq<char>, Entry>::empty()),
    {
        self.data.is_empty()
    }

    /// The number of entries held, lapsed ones included.
    pub fn len(&self) -> (count: usize)
        ensures
            self@.dom().finite(),
            count == self@.dom().len(),
    {
        self.data.len()
    }

    /// Drops every entry that has lapsed at `now`.
    pub fn remove_expired(&mut self, now: u64)
        ensures
            final(self)@ == purge(old(self)@, now),
            final(self).path() == old(self).path(),
    {
        let _ = self.data.purge(now);
    }

    /// Takes the content of a snapshot in place of what is held. Without one,
    /// where the file could not be read or parsed, the store stays as it is.
    pub fn restore(&mut self, snapshot: Option<Vec<(String, Value)>>)
        ensures
            final(self)@ == match snapshot {
                Some(pairs) => pairs_map(pairs@),
                None => old(self)@,
            },
            final(self).path() == old(self).path(),
    {
        match snapshot {
            Some(pairs) => {
                self.data = Table::from_pairs(pairs);
            },
            None => {},
        }
    }
}

impl Default for KvStore {
    /// The store that [`KvStore::new`] gives.
    fn default() -> (store: Self)
        ensures
            store@ == Map::<Seq<char>, Entry>::empty(),
            store.path() == Some("kv_store.json"@),
    {
        KvStore::new()
    }
}

} // verus!
