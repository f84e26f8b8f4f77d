//! What holds of every database and every address: the index that was
//! built is sorted, a record that is found covers the address, the two
//! modes agree on a database that keeps the invariants of the format, and
//! both ends of a range have the range's region.

use crate::format::{opened, record_at, record_width, strictly_increasing, Database, Record};
use crate::index::{floor_index, lemma_floor_index, Probe};
use crate::msgpack::int_read;
use crate::region::{other_text, unknown};
use crate::searcher::{search_result, text_of, CzdbError, IpAddress, SearchMode};
use vstd::prelude::*;

verus! {

impl Database {
    /// The invariants of the format on the index records: no range ends
    /// before it starts, and each range ends before the next one starts.
    pub open spec fn records_ordered(self) -> bool {
        &&& forall|i: int|
            0 <= i < self.record_count() ==> (#[trigger] self.record(i)).start_ip <= self.record(
                i,
            ).end_ip
        &&& forall|i: int, j: int|
            0 <= i < j < self.record_count() ==> (#[trigger] self.record(i)).end_ip < (
            #[trigger] self.record(j)).start_ip
    }

    /// Record `m` of the block that starts at `base` in the image.
    pub open spec fn block_record(self, base: nat, m: int) -> Record {
        record_at(self.data, self.ip_type, base + m * record_width(self.ip_type))
    }

    /// The index record at which the block of directory entry `j` starts.
    pub open spec fn entry_record(self, j: int) -> int {
        (self.entry_ptr(j) - self.index_start) / record_width(self.ip_type) as int
    }

    /// The invariants of the format that tie the upper directory to the
    /// index records:
    /// the index is a whole number of records and the record behind its
    /// end lies in the image; no record points at the super block; the
    /// directory has an entry, its addresses are strictly increasing, and
    /// its pointers address records of the index in ascending order, the
    /// first of them the first record; and the address of an entry parts
    /// the records before its block, which end at or below it, from the
    /// records of its block and behind, which start above it.
    pub open spec fn directory_consistent(self) -> bool {
        let n = self.record_count() as int;
        let d = self.entry_count() as int;
        let rl = record_width(self.ip_type) as int;
        &&& self.records_ordered()
        &&& self.index_start <= self.index_end
        &&& (self.index_end - self.index_start) % rl == 0
        &&& self.start_offset + self.index_end + rl <= self.data.len()
        &&& forall|i: int| 0 <= i < n ==> (#[trigger] self.record(i)).data_ptr != 0
        &&& d >= 1
        &&& self.entry_ptr(0) == self.index_start
        &&& forall|a: int, b: int| 0 <= a < b < d ==> self.pivot(a) < self.pivot(b)
        &&& forall|j: int|
            0 <= j < d ==> self.index_start <= #[trigger] self.entry_ptr(j) <= self.index_end && (
            self.entry_ptr(j) - self.index_start) % rl == 0
        &&& forall|a: int, b: int| 0 <= a <= b < d ==> self.entry_ptr(a) <= self.entry_ptr(b)
        &&& forall|j: int, i: int|
            0 <= j < d && 0 <= i < n ==> if i < self.entry_record(j) {
                (#[trigger] self.record(i)).end_ip <= #[trigger] self.pivot(j)
            } else {
                self.record(i).start_ip > self.pivot(j)
            }
    }

    /// The record that is probed for an address above every address of
    /// the directory: the one that the last entry points at.
    pub open spec fn tail_record(self) -> Record {
        record_at(
            self.data,
            self.ip_type,
            (self.start_offset + self.entry_ptr(self.entry_count() - 1)) as int,
        )
    }

    /// Whether the two modes look at the same record for `x`: `x` is not
    /// above the last address of the directory; or the last entry points
    /// at the last record of the index; or it points behind the index, at
    /// a record that has no region for `x`.
    pub open spec fn tail_agrees(self, x: nat) -> bool {
        let last = self.entry_count() - 1;
        ||| x <= self.pivot(last)
        ||| self.entry_record(last) == self.record_count() - 1
        ||| (self.entry_record(last) == self.record_count() && !(self.tail_record().covers(x)
            && self.tail_record().data_ptr != 0))
    }
}

/// The memory index of a database that opened in Memory mode is strictly
/// increasing.
pub proof fn lemma_opened_keys_increasing(data: Seq<u8>, key: Seq<char>)
    ensures
        opened(data, key, SearchMode::Memory) matches Ok(db) ==> strictly_increasing(db.keys()),
{
}

/// The record that the memory index finds for an address covers it.
pub proof fn lemma_memory_hit_covers(db: Database, x: nat)
    ensures
        db.memory_hit(x) matches Some(i) ==> 0 <= i < db.record_count() && db.record(i).covers(x),
{
    lemma_floor_index(db.keys(), x);
}

/// The record that the search of a block finds for an address covers it,
/// and it is one of the records of the block that were to be searched.
pub proof fn lemma_lower_search_covers(db: Database, base: nat, x: nat, lo: int, hi: int)
    ensures
        db.lower_search(base, x, lo, hi) matches Ok(Some(r)) ==> r.covers(x) && exists|m: int|
            lo <= m <= hi && r == #[trigger] db.block_record(base, m),
    decreases hi - lo + 1,
{
    if lo <= hi {
        let m = (lo + hi) / 2;
        lemma_lower_search_covers(db, base, x, lo, m - 1);
        lemma_lower_search_covers(db, base, x, m + 1, hi);
        match db.lower_search(base, x, lo, hi) {
            Ok(Some(r)) => {
                if r == db.block_record(base, m) {
                } else if x < db.block_record(base, m).start_ip {
                    let k = choose|k: int| lo <= k <= m - 1 && r == #[trigger] db.block_record(base, k);
                    assert(lo <= k <= hi && r == db.block_record(base, k));
                } else {
                    let k = choose|k: int| m + 1 <= k <= hi && r == #[trigger] db.block_record(base, k);
                    assert(lo <= k <= hi && r == db.block_record(base, k));
                }
            },
            _ => {},
        }
    }
}

/// On ordered records the memory index finds the one record that covers
/// an address, and none where no record covers it.
pub proof fn lemma_memory_hit_ordered(db: Database, x: nat)
    requires
        db.records_ordered(),
    ensures
        match db.memory_hit(x) {
            Some(i) => 0 <= i < db.record_count() && db.record(i).covers(x),
            None => forall|i: int|
                0 <= i < db.record_count() ==> !(#[trigger] db.record(i)).covers(x),
        },
        forall|i: int|
            0 <= i < db.record_count() && (#[trigger] db.record(i)).covers(x) ==> db.memory_hit(x)
                == Some(i),
{
    let keys = db.keys();
    let f = floor_index(keys, x);
    lemma_floor_index(keys, x);
    assert forall|i: int| 0 <= i < db.record_count() && (#[trigger] db.record(i)).covers(
        x,
    ) implies f == i && db.memory_hit(x) == Some(i) by {
        assert(keys[i] == db.record(i).start_ip);
        if f < i {
            assert(keys[i] > x);
        } else if f > i {
            assert(keys[f] == db.record(f).start_ip);
        }
    }
    if db.memory_hit(x) is None {
        assert forall|i: int| 0 <= i < db.record_count() implies !(#[trigger] db.record(
            i,
        )).covers(x) by {
            if db.record(i).covers(x) {
                assert(db.memory_hit(x) == Some(i));
            }
        }
    }
}

/// On strictly increasing addresses the search of the upper directory
/// ends at the entry that holds the address, or else at the position
/// that parts the addresses below it from those above it.
pub proof fn lemma_upper_search_sorted(db: Database, x: nat, lo: int, hi: int)
    requires
        forall|a: int, b: int| 0 <= a < b < db.entry_count() ==> db.pivot(a) < db.pivot(b),
        0 <= lo <= hi + 1 <= db.entry_count(),
        forall|j: int| 0 <= j < lo ==> db.pivot(j) < x,
        forall|j: int| hi < j < db.entry_count() ==> db.pivot(j) > x,
    ensures
        match db.upper_search(x, lo, hi) {
            Probe::Exact(m) => lo <= m <= hi && db.pivot(m) == x,
            Probe::Between(l) => {
                &&& lo <= l <= hi + 1
                &&& forall|j: int| 0 <= j < l ==> db.pivot(j) < x
                &&& forall|j: int| l <= j < db.entry_count() ==> db.pivot(j) > x
            },
        },
    decreases hi - lo + 1,
{
    if lo <= hi {
        let m = (lo + hi) / 2;
        if x < db.pivot(m) {
            assert forall|j: int| m - 1 < j < db.entry_count() implies db.pivot(j) > x by {
                if j > m {
                    assert(db.pivot(m) < db.pivot(j));
                }
            }
            lemma_upper_search_sorted(db, x, lo, m - 1);
        } else if x > db.pivot(m) {
            assert forall|j: int| 0 <= j < m + 1 implies db.pivot(j) < x by {
                if j < m {
                    assert(db.pivot(j) < db.pivot(m));
                }
            }
            lemma_upper_search_sorted(db, x, m + 1, hi);
        }
    }
}

/// Every record of an index that ends in the image lies in the image.
proof fn lemma_record_in_image(db: Database, i: int)
    requires
        db.index_start <= db.index_end,
        db.start_offset + db.index_end <= db.data.len(),
        0 <= i < db.record_count(),
    ensures
        db.record_offset(i) + record_width(db.ip_type) <= db.start_offset + db.index_end,
{
    let rl = record_width(db.ip_type) as int;
    let span = db.index_end - db.index_start;
    let n = db.record_count() as int;
    assert(n * rl <= span) by (nonlinear_arith)
        requires
            n == span / rl,
            rl > 0,
            span >= 0,
    ;
    assert(i * rl + rl <= n * rl) by (nonlinear_arith)
        requires
            i + 1 <= n,
            rl > 0,
    ;
}

/// Record `m` of the block that starts at record `a` is record `a + m`.
proof fn lemma_block_record(db: Database, a: int, m: int)
    ensures
        db.record_offset(a) + m * record_width(db.ip_type) == db.record_offset(a + m),
{
    let rl = record_width(db.ip_type) as int;
    assert((a + m) * rl == a * rl + m * rl) by (nonlinear_arith);
}

/// The search of a block of ordered records finds the record that covers
/// the address.
proof fn lemma_lower_search_finds(db: Database, a: int, x: nat, lo: int, hi: int, i: int)
    requires
        db.records_ordered(),
        db.index_start <= db.index_end,
        db.start_offset + db.index_end <= db.data.len(),
        0 <= a,
        0 <= lo,
        a + hi < db.record_count(),
        a + lo <= i <= a + hi,
        db.record(i).covers(x),
    ensures
        db.lower_search(db.record_offset(a) as nat, x, lo, hi) == Ok::<Option<Record>, CzdbError>(
            Some(db.record(i)),
        ),
    decreases hi - lo + 1,
{
    let m = (lo + hi) / 2;
    lemma_block_record(db, a, m);
    lemma_record_in_image(db, a + m);
    let r = db.record(a + m);
    if a + m < i {
        assert(r.end_ip < db.record(i).start_ip);
        lemma_lower_search_finds(db, a, x, m + 1, hi, i);
    } else if a + m > i {
        assert(db.record(i).end_ip < r.start_ip);
        lemma_lower_search_finds(db, a, x, lo, m - 1, i);
    }
}

/// The search of a block in which no record covers the address finds
/// none.
proof fn lemma_lower_search_misses(db: Database, a: int, x: nat, lo: int, hi: int)
    requires
        db.index_start <= db.index_end,
        db.start_offset + db.index_end <= db.data.len(),
        0 <= a,
        0 <= lo,
        a + hi < db.record_count(),
        forall|i: int| a + lo <= i <= a + hi ==> !(#[trigger] db.record(i)).covers(x),
    ensures
        db.lower_search(db.record_offset(a) as nat, x, lo, hi) == Ok::<Option<Record>, CzdbError>(
            None,
        ),
    decreases hi - lo + 1,
{
    if lo <= hi {
        let m = (lo + hi) / 2;
        lemma_block_record(db, a, m);
        lemma_record_in_image(db, a + m);
        assert(!db.record(a + m).covers(x));
        lemma_lower_search_misses(db, a, x, lo, m - 1);
        lemma_lower_search_misses(db, a, x, m + 1, hi);
    }
}

/// The pointer of a directory entry, in records: it addresses the record
/// `entry_record`, which is one of the index or the one behind its end.
proof fn lemma_entry_record(db: Database, j: int)
    requires
        db.directory_consistent(),
        0 <= j < db.entry_count(),
    ensures
        0 <= db.entry_record(j) <= db.record_count(),
        db.entry_ptr(j) == db.index_start + db.entry_record(j) * record_width(db.ip_type),
        db.start_offset + db.entry_ptr(j) == db.record_offset(db.entry_record(j)),
        db.index_end == db.index_start + db.record_count() * record_width(db.ip_type),
{
    let rl = record_width(db.ip_type) as int;
    let q = db.entry_ptr(j) - db.index_start;
    let span = db.index_end - db.index_start;
    assert(q == (q / rl) * rl && span == (span / rl) * rl && 0 <= q / rl <= span / rl)
        by (nonlinear_arith)
        requires
            rl > 0,
            0 <= q <= span,
            q % rl == 0,
            span % rl == 0,
    ;
}

/// The blocks of two directory entries in ascending order start at
/// records in ascending order.
proof fn lemma_entry_records_ascend(db: Database, a: int, b: int)
    requires
        db.directory_consistent(),
        0 <= a <= b < db.entry_count(),
    ensures
        db.entry_record(a) <= db.entry_record(b),
        (db.entry_ptr(b) - db.entry_ptr(a)) / record_width(db.ip_type) as int == db.entry_record(b)
            - db.entry_record(a),
{
    let rl = record_width(db.ip_type) as int;
    lemma_entry_record(db, a);
    lemma_entry_record(db, b);
    let ra = db.entry_record(a);
    let rb = db.entry_record(b);
    assert(db.entry_ptr(a) <= db.entry_ptr(b));
    assert(ra <= rb && (rb * rl - ra * rl) / rl == rb - ra) by (nonlinear_arith)
        requires
            rl > 0,
            ra * rl <= rb * rl,
    ;
}

/// The block between two neighbouring directory entries answers as the
/// memory index does, for an address that no record outside the block
/// covers.
proof fn lemma_block_agrees(db: Database, x: nat, j: int)
    requires
        db.directory_consistent(),
        1 <= j < db.entry_count(),
        db.block_bounds(x) == Some((db.entry_ptr(j - 1), db.entry_ptr(j))),
        forall|i: int|
            0 <= i < db.record_count() && (#[trigger] db.record(i)).covers(x) ==> db.entry_record(
                j - 1,
            ) <= i < db.entry_record(j),
    ensures
        db.btree_lookup(x) == db.memory_lookup(x),
{
    let rl = record_width(db.ip_type) as int;
    let a = db.entry_record(j - 1);
    let b = db.entry_record(j);
    lemma_entry_record(db, j - 1);
    lemma_entry_record(db, j);
    lemma_entry_records_ascend(db, j - 1, j);
    lemma_memory_hit_ordered(db, x);
    let count = (db.entry_ptr(j) - db.entry_ptr(j - 1)) / rl;
    assert(count == b - a);
    assert((db.start_offset + db.entry_ptr(j - 1)) as nat == db.record_offset(a) as nat);
    match db.memory_hit(x) {
        Some(i) => {
            assert(db.record(i).covers(x));
            lemma_lower_search_finds(db, a, x, 0, count - 1, i);
        },
        None => {
            lemma_lower_search_misses(db, a, x, 0, count - 1);
        },
    }
}

/// No record covers an address at or below the first address of the
/// directory.
proof fn lemma_below_first(db: Database, x: nat)
    requires
        db.directory_consistent(),
        x <= db.pivot(0),
    ensures
        db.memory_lookup(x) == Ok::<Seq<char>, CzdbError>(unknown()),
{
    let rl = record_width(db.ip_type) as int;
    lemma_memory_hit_ordered(db, x);
    lemma_entry_record(db, 0);
    assert(db.entry_record(0) == 0) by (nonlinear_arith)
        requires
            db.entry_record(0) * rl == 0,
            rl > 0,
    ;
    assert forall|i: int| 0 <= i < db.record_count() implies !(#[trigger] db.record(i)).covers(
        x,
    ) by {
        assert(db.record(i).start_ip > db.pivot(0));
    }
}

/// A record that covers an address between two neighbouring addresses of
/// the directory, the upper one included, lies in the block between them.
proof fn lemma_covering_record_in_block(db: Database, x: nat, j: int)
    requires
        db.directory_consistent(),
        1 <= j < db.entry_count(),
        db.pivot(j - 1) < x <= db.pivot(j),
    ensures
        forall|i: int|
            0 <= i < db.record_count() && (#[trigger] db.record(i)).covers(x) ==> db.entry_record(
                j - 1,
            ) <= i < db.entry_record(j),
{
    assert forall|i: int| 0 <= i < db.record_count() && (#[trigger] db.record(i)).covers(
        x,
    ) implies db.entry_record(j - 1) <= i < db.entry_record(j) by {
        if i < db.entry_record(j - 1) {
            assert(db.record(i).end_ip <= db.pivot(j - 1));
        }
        if i >= db.entry_record(j) {
            assert(db.record(i).start_ip > db.pivot(j));
        }
    }
}

/// The probe of the record that the last directory entry points at
/// answers as the memory index does, where both look at the same record.
proof fn lemma_tail_probe_agrees(db: Database, x: nat)
    requires
        db.directory_consistent(),
        db.tail_agrees(x),
        x > db.pivot(db.entry_count() - 1),
        db.block_bounds(x) == Some(
            (
                db.entry_ptr(db.entry_count() - 1),
                db.entry_ptr(db.entry_count() - 1) + record_width(db.ip_type),
            ),
        ),
    ensures
        db.btree_lookup(x) == db.memory_lookup(x),
{
    let n = db.record_count() as int;
    let rl = record_width(db.ip_type) as int;
    let last = db.entry_count() - 1;
    let b = db.entry_record(last);
    lemma_memory_hit_ordered(db, x);
    lemma_entry_record(db, last);
    assert((db.entry_ptr(last) + rl - db.entry_ptr(last)) / rl == 1);
    let base = (db.start_offset + db.entry_ptr(last)) as nat;
    assert(base + 0 * rl + rl <= db.data.len()) by (nonlinear_arith)
        requires
            base == db.start_offset + db.index_start + b * rl,
            db.index_end == db.index_start + n * rl,
            db.start_offset + db.index_end + rl <= db.data.len(),
            b <= n,
            rl > 0,
    ;
    assert(db.tail_record() == record_at(db.data, db.ip_type, base + 0 * rl));
    assert(db.lower_search(base, x, 0, -1) == Ok::<Option<Record>, CzdbError>(None));
    assert(db.lower_search(base, x, 1, 0) == Ok::<Option<Record>, CzdbError>(None));
    assert forall|i: int| 0 <= i < n && (#[trigger] db.record(i)).covers(x) implies i >= b by {
        if i < b {
            assert(db.record(i).end_ip <= db.pivot(last));
        }
    }
    if b == n - 1 {
        assert(db.tail_record() == db.record(b));
        assert(db.record(b).data_ptr != 0);
    }
}

/// Mode equivalence: on a database that keeps the invariants of the
/// format, the upper directory and the memory index answer alike for
/// every address for which both look at the same record.
pub proof fn lemma_modes_agree(db: Database, x: nat)
    requires
        db.directory_consistent(),
        db.tail_agrees(x),
    ensures
        db.lookup(SearchMode::BTree, x) == db.lookup(SearchMode::Memory, x),
{
    let d = db.entry_count() as int;
    lemma_upper_search_sorted(db, x, 0, d - 1);
    match db.upper_search(x, 0, d - 1) {
        Probe::Exact(m) => {
            if m == 0 {
                lemma_below_first(db, x);
                assert(db.lower_search((db.start_offset + db.entry_ptr(0)) as nat, x, 0, -1) == Ok::<
                    Option<Record>,
                    CzdbError,
                >(None));
            } else {
                assert(db.pivot(m - 1) < db.pivot(m));
                lemma_covering_record_in_block(db, x, m);
                lemma_block_agrees(db, x, m);
            }
        },
        Probe::Between(l) => {
            if l == 0 {
                assert(db.pivot(0) > x);
                lemma_below_first(db, x);
            } else if l < d {
                assert(db.pivot(l - 1) < x);
                assert(db.pivot(l) > x);
                lemma_covering_record_in_block(db, x, l);
                lemma_block_agrees(db, x, l);
            } else {
                assert(db.pivot(d - 1) < x);
                lemma_tail_probe_agrees(db, x);
            }
        },
    }
}

/// Mode equivalence for searches: under the conditions of
/// `lemma_modes_agree`, a search answers alike in both modes, for an
/// address of either family.
pub proof fn lemma_search_modes_agree(db: Database, ip: IpAddress)
    requires
        db.directory_consistent(),
        db.tail_agrees(ip.number()),
    ensures
        search_result(db, SearchMode::BTree, ip) == search_result(db, SearchMode::Memory, ip),
{
    lemma_modes_agree(db, ip.number());
}

/// An image that opens in both modes opens to one database.
pub proof fn lemma_opened_alike(data: Seq<u8>, key: Seq<char>)
    ensures
        opened(data, key, SearchMode::Memory) matches Ok(m) ==> (opened(
            data,
            key,
            SearchMode::BTree,
        ) matches Ok(b) ==> m == b),
{
}

/// Idempotence: two searches of one searcher for one address, each
/// answering as `search` promises, answer alike.
pub proof fn lemma_search_idempotent(
    db: Database,
    mode: SearchMode,
    ip: IpAddress,
    first: Result<String, CzdbError>,
    second: Result<String, CzdbError>,
)
    requires
        text_of(first) == search_result(db, mode, ip),
        text_of(second) == search_result(db, mode, ip),
    ensures
        text_of(first) == text_of(second),
{
}

/// Family gating: an address of the other family is answered with
/// `InvalidIpType`, in either mode.
pub proof fn lemma_family_gating(db: Database, mode: SearchMode, ip: IpAddress)
    requires
        ip.family() != db.ip_type,
    ensures
        search_result(db, mode, ip) == Err::<Seq<char>, CzdbError>(CzdbError::InvalidIpType),
{
}

/// Round trip on the boundaries: on ordered records, the first and the
/// last address of a range are both answered with the region of the
/// range. For the upper directory this holds on a database that keeps
/// the invariants of the format, where both modes look at the same
/// record for the two addresses.
pub proof fn lemma_range_ends_share_region(db: Database, mode: SearchMode, i: int)
    requires
        db.records_ordered(),
        0 <= i < db.record_count(),
        mode is BTree ==> db.directory_consistent() && db.tail_agrees(db.record(i).start_ip)
            && db.tail_agrees(db.record(i).end_ip),
    ensures
        db.lookup(mode, db.record(i).start_ip) == db.region_text(
            db.record(i).data_ptr,
            db.record(i).data_len,
        ),
        db.lookup(mode, db.record(i).end_ip) == db.region_text(
            db.record(i).data_ptr,
            db.record(i).data_len,
        ),
{
    let r = db.record(i);
    lemma_memory_hit_ordered(db, r.start_ip);
    lemma_memory_hit_ordered(db, r.end_ip);
    assert(r.covers(r.start_ip) && r.covers(r.end_ip));
    if mode is BTree {
        lemma_modes_agree(db, r.start_ip);
        lemma_modes_agree(db, r.end_ip);
    }
}

/// An address that no record covers is answered with `"Unknown"`: by
/// the memory index on ordered records, and by the upper directory on a
/// database that keeps the invariants of the format, where both modes
/// look at the same record for the address.
pub proof fn lemma_uncovered_is_unknown(db: Database, mode: SearchMode, x: nat)
    requires
        db.records_ordered(),
        forall|i: int| 0 <= i < db.record_count() ==> !(#[trigger] db.record(i)).covers(x),
        mode is BTree ==> db.directory_consistent() && db.tail_agrees(x),
    ensures
        db.lookup(mode, x) == Ok::<Seq<char>, CzdbError>(unknown()),
{
    lemma_memory_hit_ordered(db, x);
    if mode is BTree {
        lemma_modes_agree(db, x);
    }
}

/// An address below the start of the first range is answered with
/// `"Unknown"`.
pub proof fn lemma_below_first_range_is_unknown(db: Database, mode: SearchMode, x: nat)
    requires
        db.records_ordered(),
        db.record_count() > 0 ==> x < db.record(0).start_ip,
        mode is BTree ==> db.directory_consistent() && db.tail_agrees(x),
    ensures
        db.lookup(mode, x) == Ok::<Seq<char>, CzdbError>(unknown()),
{
    assert forall|i: int| 0 <= i < db.record_count() implies !(#[trigger] db.record(i)).covers(
        x,
    ) by {
        if i > 0 {
            assert(db.record(0).end_ip < db.record(i).start_ip);
        }
    }
    lemma_uncovered_is_unknown(db, mode, x);
}

/// An address above the end of the last range is answered with
/// `"Unknown"`.
pub proof fn lemma_above_last_range_is_unknown(db: Database, mode: SearchMode, x: nat)
    requires
        db.records_ordered(),
        db.record_count() > 0 ==> x > db.record(db.record_count() - 1).end_ip,
        mode is BTree ==> db.directory_consistent() && db.tail_agrees(x),
    ensures
        db.lookup(mode, x) == Ok::<Seq<char>, CzdbError>(unknown()),
{
    let last = db.record_count() - 1;
    assert forall|i: int| 0 <= i < db.record_count() implies !(#[trigger] db.record(i)).covers(
        x,
    ) by {
        if i < last {
            assert(db.record(i).end_ip < db.record(last).start_ip);
            assert(db.record(last).start_ip <= db.record(last).end_ip);
        }
    }
    lemma_uncovered_is_unknown(db, mode, x);
}

/// With a column mask of zero no dictionary is loaded, and the region of
/// a record is the text that follows its first integer, and nothing else.
pub proof fn lemma_zero_mask_leaves_other_text(
    data: Seq<u8>,
    key: Seq<char>,
    mode: SearchMode,
    ptr: nat,
    len: nat,
)
    ensures
        opened(data, key, mode) matches Ok(db) ==> (db.column_mask == 0 ==> {
            let rec = data.subrange(
                (db.start_offset + ptr) as int,
                (db.start_offset + ptr + len) as int,
            );
            &&& db.column_dict is None
            &&& db.start_offset + ptr + len <= data.len() ==> db.region_text(ptr, len) == Ok::<
                Seq<char>,
                CzdbError,
            >(other_text(rec, int_read(rec).1))
        }),
{
    match opened(data, key, mode) {
        Ok(db) => {
            if db.column_mask == 0 && db.start_offset + ptr + len <= data.len() {
                let rec = data.subrange(
                    (db.start_offset + ptr) as int,
                    (db.start_offset + ptr + len) as int,
                );
                assert(Seq::<char>::empty() + other_text(rec, int_read(rec).1) =~= other_text(
                    rec,
                    int_read(rec).1,
                ));
            }
        },
        Err(_) => {},
    }
}

/// Without a dictionary the region of a record that lies in the image
/// is the text that follows its first integer, and nothing else.
pub proof fn lemma_no_dictionary_leaves_other_text(db: Database, ptr: nat, len: nat)
    requires
        db.column_dict is None,
        db.start_offset + ptr + len <= db.data.len(),
    ensures
        db.region_text(ptr, len) == Ok::<Seq<char>, CzdbError>(
            other_text(
                db.data.subrange(
                    (db.start_offset + ptr) as int,
                    (db.start_offset + ptr + len) as int,
                ),
                int_read(
                    db.data.subrange(
                        (db.start_offset + ptr) as int,
                        (db.start_offset + ptr + len) as int,
                    ),
                ).1,
            ),
        ),
{
    let rec = db.data.subrange(
        (db.start_offset + ptr) as int,
        (db.start_offset + ptr + len) as int,
    );
    assert(Seq::<char>::empty() + other_text(rec, int_read(rec).1) =~= other_text(
        rec,
        int_read(rec).1,
    ));
}

/// The memory index with strictly increasing keys answers `"Unknown"` for
/// an address below its first key, and for every address where it is
/// empty.
pub proof fn lemma_below_first_key_is_unknown(db: Database, x: nat)
    requires
        strictly_increasing(db.keys()),
        db.record_count() == 0 || x < db.record(0).start_ip,
    ensures
        db.memory_lookup(x) == Ok::<Seq<char>, CzdbError>(unknown()),
{
    let keys = db.keys();
    lemma_floor_index(keys, x);
    let f = floor_index(keys, x);
    if f >= 0 {
        assert(keys[0] == db.record(0).start_ip);
        if f > 0 {
            assert(keys[0] < keys[f]);
        }
    }
}

/// The upper directory with strictly increasing addresses answers
/// `"Unknown"` for an address below its first address, and for every
/// address where it is empty.
pub proof fn lemma_below_first_entry_is_unknown(db: Database, x: nat)
    requires
        forall|a: int, b: int| 0 <= a < b < db.entry_count() ==> db.pivot(a) < db.pivot(b),
        db.entry_count() == 0 || x < db.pivot(0),
    ensures
        db.btree_lookup(x) == Ok::<Seq<char>, CzdbError>(unknown()),
{
    let d = db.entry_count() as int;
    assert forall|j: int| -1 < j < d implies db.pivot(j) > x by {
        if j > 0 {
            assert(db.pivot(0) < db.pivot(j));
        }
    }
    lemma_upper_search_sorted(db, x, 0, d - 1);
    match db.upper_search(x, 0, d - 1) {
        Probe::Exact(m) => {},
        Probe::Between(l) => {
            if l > 0 {
                assert(db.pivot(0) < x);
            }
        },
    }
}

impl Database {
    /// Whether the region of every record of the index decodes.
    pub open spec fn regions_decode(self) -> bool {
        forall|i: int|
            0 <= i < self.record_count() ==> self.region_text(
                (#[trigger] self.record(i)).data_ptr,
                self.record(i).data_len,
            ) is Ok
    }
}

/// The memory index answers, with a region or with `"Unknown"`, where the
/// region of every record decodes.
pub proof fn lemma_memory_lookup_answers(db: Database, x: nat)
    requires
        db.regions_decode(),
    ensures
        db.memory_lookup(x) is Ok,
{
    lemma_floor_index(db.keys(), x);
    match db.memory_hit(x) {
        Some(i) => {
            assert(db.region_text(db.record(i).data_ptr, db.record(i).data_len) is Ok);
        },
        None => {},
    }
}

/// Mode equivalence with an answer: on a database that keeps the
/// invariants of the format and whose regions decode, both modes answer
/// an address, and they answer alike, where both look at the same record
/// for it.
pub proof fn lemma_modes_answer_alike(db: Database, x: nat)
    requires
        db.directory_consistent(),
        db.regions_decode(),
        db.tail_agrees(x),
    ensures
        db.lookup(SearchMode::Memory, x) is Ok,
        db.lookup(SearchMode::BTree, x) is Ok,
        db.lookup(SearchMode::BTree, x) == db.lookup(SearchMode::Memory, x),
{
    lemma_memory_lookup_answers(db, x);
    lemma_modes_agree(db, x);
}

/// Searches in both modes answer alike and without an error, for an
/// address of the database's family, under the conditions of
/// `lemma_modes_answer_alike`.
pub proof fn lemma_searches_answer_alike(db: Database, ip: IpAddress)
    requires
        db.directory_consistent(),
        db.regions_decode(),
        db.tail_agrees(ip.number()),
        ip.family() == db.ip_type,
    ensures
        search_result(db, SearchMode::Memory, ip) is Ok,
        search_result(db, SearchMode::BTree, ip) == search_result(db, SearchMode::Memory, ip),
{
    lemma_modes_answer_alike(db, ip.number());
}

} // verus!
