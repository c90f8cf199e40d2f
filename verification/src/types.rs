//! The record stored under a key, and the storage configuration.

use vstd::prelude::*;
use crate::model::{expired, Entry};

verus! {

/// One stored record: an opaque payload, returned exactly as it was given, and
/// the absolute Unix time in seconds at which it lapses, if it ever does.
#[derive(Debug)]
pub struct Value {
    pub data: String,
    pub expires_at: Option<u64>,
}

impl View for Value {
    type V = Entry;

    open spec fn view(&self) -> Entry {
        Entry { payload: self.data@, expires_at: self.expires_at }
    }
}

impl Clone for Value {
    fn clone(&self) -> (copy: Self)
        ensures
            copy == *self,
    {
        Value { data: self.data.clone(), expires_at: self.expires_at }
    }
}

impl Value {
    /// Whether the record has lapsed at `now`: it has a deadline, and the
    /// deadline is `now` or earlier.
    pub fn is_expired(&self, now: u64) -> (lapsed: bool)
        ensures
            lapsed == expired(self.expires_at, now),
    {
        match self.expires_at {
            Some(deadline) => deadline <= now,
            None => false,
        }
    }
}

/// Where the snapshot of a store lives.
#[derive(Debug)]
pub struct StorageConfig {
    pub directory: String,
}

impl StorageConfig {
    /// The path of the snapshot: the file `kv_store.json` in the directory.
    pub open spec fn snapshot_file(&self) -> Seq<char> {
        self.directory@ + "/"@ + "kv_store.json"@
    }

    /// The path of the snapshot, see [`StorageConfig::snapshot_file`].
    pub fn snapshot_path(&self) -> (path: String)
        ensures
            path@ == self.snapshot_file(),
    {
        let mut path = self.directory.clone();
        path.append("/");
        path.append("kv_store.json");
        path
    }
}

impl Clone for StorageConfig {
    fn clone(&self) -> (copy: Self)
        ensures
            copy == *self,
    {
        StorageConfig { directory: self.directory.clone() }
    }
}

impl Default for StorageConfig {
    /// The directory `storage`, relative to the working directory.
    fn default() -> (config: Self)
        ensures
            config.directory@ == "storage"@,
    {
        StorageConfig { directory: "storage".to_owned() }
    }
}

} // verus!
