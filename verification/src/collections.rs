//! Hash tables of the `hashbrown` crate, held behind small trusted wrappers.
//! Each table names its contents as a mathematical map; every method states
//! what it does to that map.

use vstd::prelude::*;
use crate::engine::buff::Buff;
use crate::engine::trace::{BuffMetadata, MetaView};

verus! {

/// Skill id to a time in milliseconds, held in a `hashbrown::HashMap<u32, u64>`.
#[verifier::external_body]
pub struct TimeTable {
    entries: hashbrown::HashMap<u32, u64>,
}

/// The entries that a `TimeTable` holds.
pub uninterp spec fn times(table: TimeTable) -> Map<u32, u64>;

impl TimeTable {
    /// Calls `hashbrown::HashMap::new`: the table starts empty.
    #[verifier::external_body]
    pub fn new() -> (fresh: Self)
        ensures
            times(fresh).dom() == Set::<u32>::empty(),
    {
        TimeTable { entries: hashbrown::HashMap::new() }
    }

    /// Calls `hashbrown::HashMap::get`: the value stored under `key`, if any.
    #[verifier::external_body]
    pub fn get(&self, key: u32) -> (value: Option<u64>)
        ensures
            value == (if times(*self).contains_key(key) { Some(times(*self)[key]) } else { None::<u64> }),
    {
        self.entries.get(&key).copied()
    }

    /// Calls `hashbrown::HashMap::insert`: `key` now maps to `value`, the rest is kept.
    #[verifier::external_body]
    pub fn insert(&mut self, key: u32, value: u64)
        ensures
            times(*final(self)) == times(*old(self)).insert(key, value),
    {
        self.entries.insert(key, value);
    }

    /// Calls `hashbrown::HashMap::remove`: `key` is gone and its old value is returned.
    #[verifier::external_body]
    pub fn remove(&mut self, key: u32) -> (value: Option<u64>)
        ensures
            times(*final(self)) == times(*old(self)).remove(key),
            value == (if times(*old(self)).contains_key(key) { Some(times(*old(self))[key]) } else { None::<u64> }),
    {
        self.entries.remove(&key)
    }
}

/// Skill id to a count (charges, uses, phases), held in a `hashbrown::HashMap<u32, u32>`.
#[verifier::external_body]
pub struct CountTable {
    entries: hashbrown::HashMap<u32, u32>,
}

/// The entries that a `CountTable` holds.
pub uninterp spec fn counts(table: CountTable) -> Map<u32, u32>;

impl CountTable {
    /// Calls `hashbrown::HashMap::new`: the table starts empty.
    #[verifier::external_body]
    pub fn new() -> (fresh: Self)
        ensures
            counts(fresh).dom() == Set::<u32>::empty(),
    {
        CountTable { entries: hashbrown::HashMap::new() }
    }

    /// Calls `hashbrown::HashMap::get`: the value stored under `key`, if any.
    #[verifier::external_body]
    pub fn get(&self, key: u32) -> (value: Option<u32>)
        ensures
            value == (if counts(*self).contains_key(key) { Some(counts(*self)[key]) } else { None::<u32> }),
    {
        self.entries.get(&key).copied()
    }

    /// Calls `hashbrown::HashMap::insert`: `key` now maps to `value`, the rest is kept.
    #[verifier::external_body]
    pub fn insert(&mut self, key: u32, value: u32)
        ensures
            counts(*final(self)) == counts(*old(self)).insert(key, value),
    {
        self.entries.insert(key, value);
    }

    /// Calls `hashbrown::HashMap::remove`: `key` is gone and its old value is returned.
    #[verifier::external_body]
    pub fn remove(&mut self, key: u32) -> (value: Option<u32>)
        ensures
            counts(*final(self)) == counts(*old(self)).remove(key),
            value == (if counts(*old(self)).contains_key(key) { Some(counts(*old(self))[key]) } else { None::<u32> }),
    {
        self.entries.remove(&key)
    }
}

/// Buff id to the buff, held in a `hashbrown::HashMap<String, Buff>`.
#[verifier::external_body]
pub struct BuffTable {
    entries: hashbrown::HashMap<String, Buff>,
}

/// The entries that a `BuffTable` holds, keyed by the text of the id.
pub uninterp spec fn buff_entries(table: BuffTable) -> Map<Seq<char>, Buff>;

impl BuffTable {
    /// Calls `hashbrown::HashMap::new`: the table starts empty.
    #[verifier::external_body]
    pub fn new() -> (fresh: Self)
        ensures
            buff_entries(fresh).dom() == Set::<Seq<char>>::empty(),
    {
        BuffTable { entries: hashbrown::HashMap::new() }
    }

    /// Calls `hashbrown::HashMap::get`: the buff stored under `key`, if any.
    #[verifier::external_body]
    pub fn get(&self, key: &str) -> (found: Option<&Buff>)
        ensures
            found is Some == buff_entries(*self).contains_key(key@),
            found matches Some(b) ==> *b == buff_entries(*self)[key@],
    {
        self.entries.get(key)
    }

    /// Calls `hashbrown::HashMap::insert`: `key` now maps to `value`, the rest is kept.
    #[verifier::external_body]
    pub fn insert(&mut self, key: String, value: Buff)
        ensures
            buff_entries(*final(self)) == buff_entries(*old(self)).insert(key@, value),
    {
        self.entries.insert(key, value);
    }

    /// Calls `hashbrown::HashMap::remove`: `key` is gone.
    #[verifier::external_body]
    pub fn remove(&mut self, key: &str)
        ensures
            buff_entries(*final(self)) == buff_entries(*old(self)).remove(key@),
    {
        self.entries.remove(key);
    }

    /// Calls `hashbrown::HashMap::keys` and copies each key: every key once, in the
    /// table's own order, which nothing here fixes.
    #[verifier::external_body]
    pub fn keys(&self) -> (ids: Vec<String>)
        ensures
            forall|i: int| 0 <= i < ids@.len() ==> buff_entries(*self).contains_key(#[trigger] ids@[i]@),
            forall|k: Seq<char>| buff_entries(*self).contains_key(k) ==> exists|i: int| 0 <= i < ids@.len() && #[trigger] ids@[i]@ == k,
            forall|i: int, j: int| 0 <= i < j < ids@.len() ==> #[trigger] ids@[i]@ != #[trigger] ids@[j]@,
    {
        self.entries.keys().cloned().collect()
    }
}

/// Name to id, held in a `hashbrown::HashMap<String, u32>`.
#[verifier::external_body]
pub struct NameTable {
    entries: hashbrown::HashMap<String, u32>,
}

/// The entries that a `NameTable` holds, keyed by the text of the name.
pub uninterp spec fn name_entries(table: NameTable) -> Map<Seq<char>, u32>;

impl NameTable {
    /// Calls `hashbrown::HashMap::new`: the table starts empty.
    #[verifier::external_body]
    pub fn new() -> (fresh: Self)
        ensures
            name_entries(fresh).dom() == Set::<Seq<char>>::empty(),
    {
        NameTable { entries: hashbrown::HashMap::new() }
    }

    /// Calls `hashbrown::HashMap::get`: the id stored under `key`, if any.
    #[verifier::external_body]
    pub fn get(&self, key: &str) -> (id: Option<u32>)
        ensures
            id == (if name_entries(*self).contains_key(key@) { Some(name_entries(*self)[key@]) } else { None::<u32> }),
    {
        self.entries.get(key).copied()
    }

    /// Calls `hashbrown::HashMap::insert`: `key` now maps to `id`, the rest is kept.
    #[verifier::external_body]
    pub fn insert(&mut self, key: String, id: u32)
        ensures
            name_entries(*final(self)) == name_entries(*old(self)).insert(key@, id),
    {
        self.entries.insert(key, id);
    }
}

/// Name to a position in a list, held in a `hashbrown::HashMap<String, usize>`.
#[verifier::external_body]
pub struct IndexTable {
    entries: hashbrown::HashMap<String, usize>,
}

/// The entries that an `IndexTable` holds, keyed by the text of the name.
pub uninterp spec fn index_entries(table: IndexTable) -> Map<Seq<char>, usize>;

impl IndexTable {
    /// Calls `hashbrown::HashMap::new`: the table starts empty.
    #[verifier::external_body]
    pub fn new() -> (fresh: Self)
        ensures
            index_entries(fresh).dom() == Set::<Seq<char>>::empty(),
    {
        IndexTable { entries: hashbrown::HashMap::new() }
    }

    /// Calls `hashbrown::HashMap::get`: the position stored under `key`, if any.
    #[verifier::external_body]
    pub fn get(&self, key: &str) -> (at: Option<usize>)
        ensures
            at == (if index_entries(*self).contains_key(key@) { Some(index_entries(*self)[key@]) } else { None::<usize> }),
    {
        self.entries.get(key).copied()
    }

    /// Calls `hashbrown::HashMap::insert`: `key` now maps to `at`, the rest is kept.
    #[verifier::external_body]
    pub fn insert(&mut self, key: String, at: usize)
        ensures
            index_entries(*final(self)) == index_entries(*old(self)).insert(key@, at),
    {
        self.entries.insert(key, at);
    }
}

/// Buff id to its display data, held in a `hashbrown::HashMap<String, BuffMetadata>`.
#[verifier::external_body]
pub struct MetadataTable {
    entries: hashbrown::HashMap<String, BuffMetadata>,
}

/// The entries that a `MetadataTable` holds, keyed by the text of the id.
pub uninterp spec fn metadata_entries(table: MetadataTable) -> Map<Seq<char>, MetaView>;

impl MetadataTable {
    /// Calls `hashbrown::HashMap::new`: the table starts empty.
    #[verifier::external_body]
    pub fn new() -> (fresh: Self)
        ensures
            metadata_entries(fresh).dom() == Set::<Seq<char>>::empty(),
    {
        MetadataTable { entries: hashbrown::HashMap::new() }
    }

    /// Calls `hashbrown::HashMap::get`: the data stored under `key`, if any.
    #[verifier::external_body]
    pub fn get(&self, key: &str) -> (found: Option<&BuffMetadata>)
        ensures
            found is Some == metadata_entries(*self).contains_key(key@),
            found matches Some(m) ==> m@ == metadata_entries(*self)[key@],
    {
        self.entries.get(key)
    }

    /// Calls `hashbrown::HashMap::insert`: `key` now maps to `value`, the rest is kept.
    #[verifier::external_body]
    pub fn insert(&mut self, key: String, value: BuffMetadata)
        ensures
            metadata_entries(*final(self)) == metadata_entries(*old(self)).insert(key@, value@),
    {
        self.entries.insert(key, value);
    }
}

/// Card id to the card's name, held in a `hashbrown::HashMap<u32, String>`.
#[verifier::external_body]
pub struct CardNameTable {
    entries: hashbrown::HashMap<u32, String>,
}

/// The entries that a `CardNameTable` holds, each name by its text.
pub uninterp spec fn card_names(table: CardNameTable) -> Map<u32, Seq<char>>;

impl CardNameTable {
    /// Calls `hashbrown::HashMap::new`: the table starts empty.
    #[verifier::external_body]
    pub fn new() -> (fresh: Self)
        ensures
            card_names(fresh).dom() == Set::<u32>::empty(),
    {
        CardNameTable { entries: hashbrown::HashMap::new() }
    }

    /// Calls `hashbrown::HashMap::get`: the name stored under `key`, if any.
    #[verifier::external_body]
    pub fn get(&self, key: u32) -> (found: Option<&String>)
        ensures
            found is Some == card_names(*self).contains_key(key),
            found matches Some(n) ==> n@ == card_names(*self)[key],
    {
        self.entries.get(&key)
    }

    /// Calls `hashbrown::HashMap::insert`: `key` now maps to `name`, the rest is kept.
    #[verifier::external_body]
    pub fn insert(&mut self, key: u32, name: String)
        ensures
            card_names(*final(self)) == card_names(*old(self)).insert(key, name@),
    {
        self.entries.insert(key, name);
    }
}

} // verus!
