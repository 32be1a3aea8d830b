//! The block index of the rolling-hash strategy: Rabin hash to the blocks
//! of the base that have it, held in a `hashbrown::HashMap`.
use vstd::prelude::*;

verus! {

/// The blocks of the base indexed by their Rabin hash. Each entry is a
/// block number and the block's strong hash, in the order they were added.
#[verifier::external_body]
pub struct BlockIndex {
    map: hashbrown::HashMap<u64, Vec<(usize, u64)>>,
}

/// What the index holds: for each Rabin hash present, its entries in order.
pub uninterp spec fn index_entries(index: BlockIndex) -> Map<u64, Seq<(usize, u64)>>;

/// The entries under `key`, or none.
pub open spec fn entries_under(m: Map<u64, Seq<(usize, u64)>>, key: u64) -> Seq<(usize, u64)> {
    if m.contains_key(key) {
        m[key]
    } else {
        Seq::empty()
    }
}

/// The contents of an empty index.
pub open spec fn no_entries() -> Map<u64, Seq<(usize, u64)>> {
    Map::empty()
}

impl BlockIndex {
    /// Calls `hashbrown::HashMap::new`: the index starts empty.
    #[verifier::external_body]
    pub(crate) fn new() -> (r: BlockIndex)
        ensures
            index_entries(r) == no_entries(),
    {
        BlockIndex { map: hashbrown::HashMap::new() }
    }

    /// Calls `entry(key).or_default()` on the map and pushes `entry` onto
    /// the vector found or inserted there: the entries under `key` gain
    /// `entry` at the end, and nothing else changes.
    #[verifier::external_body]
    pub(crate) fn append(&mut self, key: u64, entry: (usize, u64))
        ensures
            index_entries(*final(self)) == index_entries(*old(self)).insert(
                key,
                entries_under(index_entries(*old(self)), key).push(entry),
            ),
    {
        self.map.entry(key).or_default().push(entry);
    }

    /// Calls `get(&key)` on the map: the entries under `key`, if the key
    /// is present.
    #[verifier::external_body]
    pub(crate) fn get(&self, key: u64) -> (r: Option<&Vec<(usize, u64)>>)
        ensures
            match r {
                Some(v) => index_entries(*self).contains_key(key) && v@ == index_entries(
                    *self,
                )[key],
                None => !index_entries(*self).contains_key(key),
            },
    {
        self.map.get(&key)
    }
}

} // verus!
