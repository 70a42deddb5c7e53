//! Content-addressed text store.
//!
//! Files are keyed by a 20-byte content id.  The store is an in-memory
//! snapshot of the decodable text blobs of one revision; the service
//! layer fills it from the repository it tracks and the resolution
//! engine only reads it.  Later entries for the same id shadow earlier
//! ones.

use vstd::prelude::*;

verus! {

/// A 20-byte content-addressed identifier of a file's bytes.
#[derive(Clone, Copy, Debug, PartialEq, Eq, Hash)]
pub struct ContentId {
    pub bytes: [u8; 20],
}

impl View for ContentId {
    type V = Seq<u8>;

    open spec fn view(&self) -> Seq<u8> {
        self.bytes@
    }
}

impl ContentId {
    /// Byte-wise comparison.
    pub fn same(&self, other: &ContentId) -> (r: bool)
        ensures
            r == (self@ == other@),
    {
        let mut i: usize = 0;
        while i < 20
            invariant
                0 <= i <= 20,
                forall|k: int| 0 <= k < i ==> self.bytes@[k] == other.bytes@[k],
            decreases 20 - i,
        {
            if self.bytes[i] != other.bytes[i] {
                return false;
            }
            i = i + 1;
        }
        proof {
            assert(self.bytes@ =~= other.bytes@);
        }
        true
    }
}

/// An in-memory map from content id to decoded text.
pub struct ContentStore {
    pub entries: Vec<(ContentId, String)>,
}

/// The text stored under `id`: the last entry with that id wins.
pub open spec fn store_lookup(entries: Seq<(ContentId, String)>, id: Seq<u8>) -> Option<Seq<char>>
    decreases entries.len(),
{
    if entries.len() == 0 {
        None
    } else if entries.last().0@ == id {
        Some(entries.last().1@)
    } else {
        store_lookup(entries.drop_last(), id)
    }
}

impl ContentStore {
    /// An empty store.
    pub fn new() -> (s: ContentStore)
        ensures
            s.entries@.len() == 0,
    {
        ContentStore { entries: Vec::new() }
    }

    /// Records `text` as the content of `id`, shadowing any earlier
    /// entry for the same id.
    pub fn insert(&mut self, id: ContentId, text: String)
        ensures
            store_lookup(final(self).entries@, id@) == Some(text@),
            forall|other: Seq<u8>|
                other != id@ ==> #[trigger] store_lookup(final(self).entries@, other)
                    == store_lookup(old(self).entries@, other),
    {
        self.entries.push((id, text));
        proof {
            assert(self.entries@.last() == (id, text));
            assert(self.entries@.drop_last() =~= old(self).entries@);
        }
    }

    /// The text stored under `id`, if any.
    pub fn read(&self, id: &ContentId) -> (r: Option<&String>)
        ensures
            match r {
                Some(s) => store_lookup(self.entries@, id@) == Some(s@),
                None => store_lookup(self.entries@, id@) is None,
            },
    {
        let n = self.entries.len();
        proof {
            assert(self.entries@.take(n as int) =~= self.entries@);
        }
        let mut i: usize = n;
        while i > 0
            invariant
                0 <= i <= n,
                n == self.entries@.len(),
                store_lookup(self.entries@, id@) == store_lookup(
                    self.entries@.take(i as int),
                    id@,
                ),
            decreases i,
        {
            i = i - 1;
            proof {
                assert(self.entries@.take(i + 1).drop_last() =~= self.entries@.take(i as int));
                assert(self.entries@.take(i + 1).last() == self.entries@[i as int]);
            }
            if self.entries[i].0.same(id) {
                return Some(&self.entries[i].1);
            }
        }
        proof {
            assert(self.entries@.take(0) =~= Seq::<(ContentId, String)>::empty());
        }
        None
    }
}

} // verus!
