//! The asset store: a read-mostly mapping from asset key to content,
//! filled once before the first request.

use crate::text::same_text;
use vstd::prelude::*;

verus! {

/// One stored asset.
struct AssetEntry {
    key: String,
    data: Vec<u8>,
}

/// The mapping that a list of entries stands for: a later entry replaces
/// an earlier one with the same key.
spec fn entries_map(entries: Seq<AssetEntry>) -> Map<Seq<char>, Seq<u8>>
    decreases entries.len(),
{
    if entries.len() == 0 {
        Map::empty()
    } else {
        entries_map(entries.drop_last()).insert(entries.last().key@, entries.last().data@)
    }
}

/// Entries that hold none of the keys among `entries[from..]` decide what
/// the whole list maps any other key to.
proof fn lemma_later_entries_miss(entries: Seq<AssetEntry>, from: int, key: Seq<char>)
    requires
        0 <= from <= entries.len(),
        forall|k: int| from <= k < entries.len() ==> entries[k].key@ != key,
    ensures
        entries_map(entries).contains_key(key) == entries_map(entries.take(from)).contains_key(
            key,
        ),
        entries_map(entries).contains_key(key) ==> entries_map(entries)[key] == entries_map(
            entries.take(from),
        )[key],
    decreases entries.len() - from,
{
    if from == entries.len() {
        assert(entries.take(from) =~= entries);
    } else {
        let shorter = entries.drop_last();
        assert(shorter.take(from) =~= entries.take(from));
        lemma_later_entries_miss(shorter, from, key);
    }
}

/// A mapping from asset key to content.
pub struct AssetStore {
    entries: Vec<AssetEntry>,
}

impl View for AssetStore {
    type V = Map<Seq<char>, Seq<u8>>;

    closed spec fn view(&self) -> Map<Seq<char>, Seq<u8>> {
        entries_map(self.entries@)
    }
}

impl AssetStore {
    /// A store without assets.
    pub fn new() -> (store: AssetStore)
        ensures
            store@ == Map::<Seq<char>, Seq<u8>>::empty(),
    {
        AssetStore { entries: Vec::new() }
    }

    /// Stores `data` under `key`, in place of what was stored there.
    pub fn insert(&mut self, key: &str, data: Vec<u8>)
        ensures
            final(self)@ == old(self)@.insert(key@, data@),
    {
        self.entries.push(AssetEntry { key: key.to_owned(), data });
        assert(self.entries@.drop_last() =~= old(self).entries@);
    }

    /// The content stored under `key`, if any.
    pub fn get(&self, key: &str) -> (found: Option<&[u8]>)
        ensures
            match found {
                Some(data) => self@.contains_key(key@) && data@ == self@[key@],
                None => !self@.contains_key(key@),
            },
    {
        let mut i: usize = self.entries.len();
        while i > 0
            invariant
                i <= self.entries@.len(),
                forall|k: int| i <= k < self.entries@.len() ==> self.entries@[k].key@ != key@,
            decreases i,
        {
            i -= 1;
            if same_text(self.entries[i].key.as_str(), key) {
                proof {
                    lemma_later_entries_miss(self.entries@, i + 1, key@);
                    assert(self.entries@.take(i + 1).drop_last() =~= self.entries@.take(i as int));
                }
                return Some(self.entries[i].data.as_slice());
            }
        }
        proof {
            lemma_later_entries_miss(self.entries@, 0, key@);
            assert(self.entries@.take(0) =~= Seq::<AssetEntry>::empty());
        }
        None
    }
}

} // verus!
