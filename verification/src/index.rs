//! The two ways to find the record of an address: through the sorted
//! start addresses of the memory index, and through the upper directory
//! and a block of records in the image.

use crate::format::{record_at, record_width, Database, Record};
use crate::region::unknown;
use crate::searcher::{CzdbError, SearchMode};
use vstd::prelude::*;

verus! {

/// The last position of `keys` that holds a key not above `x`, or -1
/// where every key is above `x`.
pub open spec fn floor_index(keys: Seq<nat>, x: nat) -> int
    decreases keys.len(),
{
    if keys.len() == 0 {
        -1
    } else if keys.last() <= x {
        keys.len() - 1
    } else {
        floor_index(keys.drop_last(), x)
    }
}

/// The keys of an IPv4 index as numbers.
pub open spec fn keys_of_u32(s: Seq<u32>) -> Seq<nat> {
    Seq::new(s.len(), |i: int| s[i] as nat)
}

/// The keys of an IPv6 index as numbers.
pub open spec fn keys_of_u128(s: Seq<u128>) -> Seq<nat> {
    Seq::new(s.len(), |i: int| s[i] as nat)
}

/// `floor_index` is the one position that has a key not above `x` and
/// only keys above `x` behind it.
pub proof fn lemma_floor_index(keys: Seq<nat>, x: nat)
    ensures
        -1 <= floor_index(keys, x) < keys.len(),
        floor_index(keys, x) >= 0 ==> keys[floor_index(keys, x)] <= x,
        forall|j: int| floor_index(keys, x) < j < keys.len() ==> keys[j] > x,
    decreases keys.len(),
{
    if keys.len() > 0 && keys.last() > x {
        let rest = keys.drop_last();
        lemma_floor_index(rest, x);
        assert forall|j: int| floor_index(keys, x) < j < keys.len() implies keys[j] > x by {
            if j < rest.len() {
                assert(rest[j] == keys[j]);
            }
        }
    }
}

/// A position that has a key not above `x` and only keys above `x`
/// behind it is `floor_index`.
pub proof fn lemma_floor_index_unique(keys: Seq<nat>, x: nat, i: int)
    requires
        -1 <= i < keys.len(),
        i >= 0 ==> keys[i] <= x,
        forall|j: int| i < j < keys.len() ==> keys[j] > x,
    ensures
        floor_index(keys, x) == i,
{
    lemma_floor_index(keys, x);
}

/// What the search of the upper directory ends with.
pub enum Probe {
    /// The address is the one of this entry.
    Exact(int),
    /// The address is none of the entries'; the search ended at this
    /// position.
    Between(int),
}

impl Database {
    /// The record that the memory index has for `x`: the last one that
    /// starts at or below `x`, where `x` is not beyond its end.
    pub open spec fn memory_hit(self, x: nat) -> Option<int> {
        let i = floor_index(self.keys(), x);
        if i >= 0 && x <= self.record(i).end_ip {
            Some(i)
        } else {
            None
        }
    }

    /// The answer of the memory index for `x`.
    pub open spec fn memory_lookup(self, x: nat) -> Result<Seq<char>, CzdbError> {
        match self.memory_hit(x) {
            Some(i) => self.region_text(self.record(i).data_ptr, self.record(i).data_len),
            None => Ok(unknown()),
        }
    }

    /// The three-way binary search for `x` among entries `lo` to `hi` of
    /// the upper directory, the midpoint rounded down.
    pub open spec fn upper_search(self, x: nat, lo: int, hi: int) -> Probe
        decreases hi - lo + 1,
    {
        if lo > hi {
            Probe::Between(lo)
        } else {
            let m = (lo + hi) / 2;
            if x < self.pivot(m) {
                self.upper_search(x, lo, m - 1)
            } else if x > self.pivot(m) {
                self.upper_search(x, m + 1, hi)
            } else {
                Probe::Exact(m)
            }
        }
    }

    /// The block of records in which `x` is looked for: where it starts
    /// and where it ends, relative to the super block. There is none
    /// where `x` is below every entry of the directory.
    pub open spec fn block_bounds(self, x: nat) -> Option<(nat, nat)> {
        let n = self.entry_count() as int;
        match self.upper_search(x, 0, n - 1) {
            Probe::Exact(m) => Some(
                (
                    self.entry_ptr(
                        if m > 0 {
                            m - 1
                        } else {
                            0
                        },
                    ),
                    self.entry_ptr(m),
                ),
            ),
            Probe::Between(l) => if l == 0 {
                None
            } else if l < n {
                Some((self.entry_ptr(l - 1), self.entry_ptr(l)))
            } else {
                Some(
                    (self.entry_ptr(n - 1), self.entry_ptr(n - 1) + record_width(self.ip_type)),
                )
            },
        }
    }

    /// The three-way binary search for a record that covers `x` among
    /// records `lo` to `hi` of the block that starts at `base` in the
    /// image, the midpoint rounded down. A record that does not lie in
    /// the image ends the search with an error.
    pub open spec fn lower_search(self, base: nat, x: nat, lo: int, hi: int) -> Result<
        Option<Record>,
        CzdbError,
    >
        decreases hi - lo + 1,
    {
        if lo > hi {
            Ok(None)
        } else {
            let m = (lo + hi) / 2;
            let off = base + m * record_width(self.ip_type);
            if off + record_width(self.ip_type) > self.data.len() {
                Err(CzdbError::InvalidFormat)
            } else {
                let r = record_at(self.data, self.ip_type, off);
                if r.covers(x) {
                    Ok(Some(r))
                } else if x < r.start_ip {
                    self.lower_search(base, x, lo, m - 1)
                } else {
                    self.lower_search(base, x, m + 1, hi)
                }
            }
        }
    }

    /// The answer of the upper directory and the blocks for `x`.
    pub open spec fn btree_lookup(self, x: nat) -> Result<Seq<char>, CzdbError> {
        match self.block_bounds(x) {
            None => Ok(unknown()),
            Some((sptr, eptr)) => if eptr < sptr {
                Err(CzdbError::InvalidFormat)
            } else {
                let count = (eptr - sptr) / record_width(self.ip_type) as int;
                match self.lower_search(self.start_offset + sptr, x, 0, count - 1) {
                    Err(e) => Err(e),
                    Ok(None) => Ok(unknown()),
                    Ok(Some(r)) => if r.data_ptr == 0 {
                        Ok(unknown())
                    } else {
                        self.region_text(r.data_ptr, r.data_len)
                    },
                }
            },
        }
    }

    /// The answer of the database for `x` in the given mode.
    pub open spec fn lookup(self, mode: SearchMode, x: nat) -> Result<Seq<char>, CzdbError> {
        match mode {
            SearchMode::Memory => self.memory_lookup(x),
            SearchMode::BTree => self.btree_lookup(x),
        }
    }
}

} // verus!
