use vstd::prelude::*;

use crate::ephemeris::Ephemeris;
use crate::errors::{AniseError, IntegrityErrorKind};

verus! {

/// A lookup table: the hash of each identifier beside the catalog index of its
/// record, sorted by hash.
pub struct LookupTable {
    pub hashes: Vec<u32>,
    pub indexes: Vec<u32>,
}

/// Whether `s` is strictly increasing, hence free of duplicates.
pub open spec fn strictly_sorted(s: Seq<u32>) -> bool {
    forall|i: int, j: int| 0 <= i < j < s.len() ==> s[i] < s[j]
}

/// Entry `k` names record `indexes[k]` of `records`, whose hash is `hashes[k]`.
pub open spec fn entries_point_at(hashes: Seq<u32>, indexes: Seq<u32>, records: Seq<Ephemeris>) -> bool {
    forall|k: int|
        0 <= k < indexes.len() ==> (#[trigger] indexes[k]) < records.len() && records[indexes[k] as int].hash
            == hashes[k]
}

impl LookupTable {
    /// Both columns have one entry per identifier, and the hashes are sorted and unique.
    pub open spec fn wf(&self) -> bool {
        &&& self.hashes@.len() == self.indexes@.len()
        &&& strictly_sorted(self.hashes@)
    }

    /// Every entry points at a record of `records` that carries the entry's hash.
    pub open spec fn points_at(&self, records: Seq<Ephemeris>) -> bool {
        entries_point_at(self.hashes@, self.indexes@, records)
    }

    /// Whether some entry has hash `h`.
    pub open spec fn contains(&self, h: u32) -> bool {
        exists|k: int| 0 <= k < self.hashes@.len() && self.hashes@[k] == h
    }

    /// The catalog index that the table gives for `h`, if any.
    pub open spec fn lookup(&self, h: u32) -> Option<u32> {
        if self.contains(h) {
            let k = choose|k: int| 0 <= k < self.hashes@.len() && self.hashes@[k] == h;
            Some(self.indexes@[k])
        } else {
            None
        }
    }

    /// A table that points at its records finds each hash at a record of that hash.
    pub proof fn lemma_lookup_hash(&self, records: Seq<Ephemeris>, h: u32)
        requires
            self.wf(),
            self.points_at(records),
        ensures
            self.lookup(h) matches Some(i) ==> i < records.len() && records[i as int].hash == h,
    {
        if self.contains(h) {
            let k = choose|k: int| 0 <= k < self.hashes@.len() && self.hashes@[k] == h;
            assert(self.indexes@[k] < records.len());
        }
    }

    /// In a well-formed table the entry of a hash is the only one with it.
    pub proof fn lemma_lookup_at(&self, k: int)
        requires
            self.wf(),
            0 <= k < self.hashes@.len(),
        ensures
            self.lookup(self.hashes@[k]) == Some(self.indexes@[k]),
    {
        let h = self.hashes@[k];
        assert(self.contains(h));
        let c = choose|c: int| 0 <= c < self.hashes@.len() && self.hashes@[c] == h;
        if c < k {
            assert(self.hashes@[c] < self.hashes@[k]);
        } else if k < c {
            assert(self.hashes@[k] < self.hashes@[c]);
        }
    }

    /// Checks the two columns against the catalog `records` and builds the table;
    /// a table that is unsorted, holds a duplicate hash, points past the catalog,
    /// or points at a record of another hash is refused.
    pub fn try_new(hashes: Vec<u32>, indexes: Vec<u32>, records: &Vec<Ephemeris>) -> (r: Result<
        LookupTable,
        AniseError,
    >)
        ensures
            match r {
                Ok(t) => t.hashes@ == hashes@ && t.indexes@ == indexes@ && t.wf() && t.points_at(
                    records@,
                ),
                Err(e) => e == AniseError::IntegrityError(IntegrityErrorKind::LookupTable),
            },
            r.is_ok() <==> (hashes@.len() == indexes@.len() && strictly_sorted(hashes@)
                && entries_point_at(hashes@, indexes@, records@)),
    {
        if hashes.len() != indexes.len() {
            return Err(AniseError::IntegrityError(IntegrityErrorKind::LookupTable));
        }
        let n = hashes.len();
        let mut i: usize = 0;
        while i < n
            invariant
                n == hashes@.len(),
                n == indexes@.len(),
                i <= n,
                strictly_sorted(hashes@.subrange(0, i as int)),
                forall|k: int|
                    0 <= k < i ==> (#[trigger] indexes@[k]) < records@.len() && records@[indexes@[k] as int].hash
                        == hashes@[k],
            decreases n - i,
        {
            if indexes[i] as usize >= records.len() || records[indexes[i] as usize].hash != hashes[i] {
                return Err(AniseError::IntegrityError(IntegrityErrorKind::LookupTable));
            }
            if i > 0 && hashes[i - 1] >= hashes[i] {
                assert(!strictly_sorted(hashes@));
                return Err(AniseError::IntegrityError(IntegrityErrorKind::LookupTable));
            }
            proof {
                let s = hashes@.subrange(0, i as int + 1);
                assert forall|a: int, b: int| 0 <= a < b < s.len() implies s[a] < s[b] by {
                    if b < i {
                        assert(s[a] == hashes@.subrange(0, i as int)[a]);
                        assert(s[b] == hashes@.subrange(0, i as int)[b]);
                    } else if a < i - 1 {
                        assert(hashes@.subrange(0, i as int)[a] < hashes@.subrange(
                            0,
                            i as int,
                        )[i - 1]);
                    }
                }
            }
            i = i + 1;
        }
        assert(hashes@.subrange(0, n as int) =~= hashes@);
        Ok(LookupTable { hashes, indexes })
    }

    /// Binary search for `hash`: its catalog index, or `ItemNotFound`.
    pub fn index_for_hash(&self, hash: &u32) -> (r: Result<u32, AniseError>)
        requires
            self.wf(),
        ensures
            match self.lookup(*hash) {
                Some(i) => r == Ok::<u32, AniseError>(i),
                None => r == Err::<u32, AniseError>(AniseError::ItemNotFound),
            },
    {
        let mut lo: usize = 0;
        let mut hi: usize = self.hashes.len();
        while lo < hi
            invariant
                self.wf(),
                lo <= hi <= self.hashes@.len(),
                forall|k: int| 0 <= k < lo ==> self.hashes@[k] < *hash,
                forall|k: int| hi <= k < self.hashes@.len() ==> self.hashes@[k] > *hash,
            decreases hi - lo,
        {
            let mid = lo + (hi - lo) / 2;
            let h = self.hashes[mid];
            if h == *hash {
                proof {
                    self.lemma_lookup_at(mid as int);
                }
                return Ok(self.indexes[mid]);
            } else if h < *hash {
                lo = mid + 1;
            } else {
                hi = mid;
            }
        }
        proof {
            if self.contains(*hash) {
                let k = choose|k: int| 0 <= k < self.hashes@.len() && self.hashes@[k] == *hash;
                assert(self.hashes@[k] == *hash);
            }
        }
        Err(AniseError::ItemNotFound)
    }
}

} // verus!
