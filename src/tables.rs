//! The label and initial-value tables, kept in ahash maps.

use vstd::prelude::*;

verus! {

/// A map from label text to a memory address.
#[verifier::external_body]
pub struct LabelTable {
    map: ahash::HashMap<String, u8>,
}

/// What a label table holds.
pub uninterp spec fn label_entries(t: LabelTable) -> Map<Seq<char>, u8>;

impl LabelTable {
    /// Relies on ahash's `HashMapExt::new`: a map with no entries.
    #[verifier::external_body]
    pub(crate) fn new() -> (r: LabelTable)
        ensures
            label_entries(r) =~= Map::empty(),
    {
        LabelTable { map: <ahash::HashMap<String, u8> as ahash::HashMapExt>::new() }
    }

    /// Relies on `HashMap::insert`: the key now maps to the value, replacing
    /// any earlier one, and no other entry changes.
    #[verifier::external_body]
    pub(crate) fn insert(&mut self, key: &Vec<char>, address: u8)
        ensures
            label_entries(*final(self)) == label_entries(*old(self)).insert(key@, address),
    {
        self.map.insert(key.iter().collect::<String>(), address);
    }

    /// Relies on `HashMap::get`: the value of the key, if it has one.
    #[verifier::external_body]
    pub(crate) fn get(&self, key: &Vec<char>) -> (r: Option<u8>)
        ensures
            r == (if label_entries(*self).contains_key(key@) {
                Some(label_entries(*self)[key@])
            } else {
                None
            }),
    {
        self.map.get(&key.iter().collect::<String>()).copied()
    }
}

/// A map from a memory address to the value that a data line puts there.
#[verifier::external_body]
pub struct ValueTable {
    map: ahash::HashMap<u8, i32>,
}

/// What a value table holds.
pub uninterp spec fn value_entries(t: ValueTable) -> Map<u8, i32>;

impl ValueTable {
    /// Relies on ahash's `HashMapExt::new`: a map with no entries.
    #[verifier::external_body]
    pub(crate) fn new() -> (r: ValueTable)
        ensures
            value_entries(r) =~= Map::empty(),
    {
        ValueTable { map: <ahash::HashMap<u8, i32> as ahash::HashMapExt>::new() }
    }

    /// Relies on `HashMap::insert`: the key now maps to the value, replacing
    /// any earlier one, and no other entry changes.
    #[verifier::external_body]
    pub(crate) fn insert(&mut self, address: u8, value: i32)
        ensures
            value_entries(*final(self)) == value_entries(*old(self)).insert(address, value),
    {
        self.map.insert(address, value);
    }

    /// Relies on `HashMap::get`: the value of the key, if it has one.
    #[verifier::external_body]
    pub(crate) fn get(&self, address: u8) -> (r: Option<i32>)
        ensures
            r == (if value_entries(*self).contains_key(address) {
                Some(value_entries(*self)[address])
            } else {
                None
            }),
    {
        self.map.get(&address).copied()
    }
}

} // verus!
