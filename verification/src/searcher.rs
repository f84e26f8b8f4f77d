//! The searcher: a database image opened with its key, and the lookups
//! that it answers in Memory or BTree mode.

use crate::bytes::{
    be_u128, be_u32, be_value, le_u32, le_u32_at, lemma_be_value_bound, lemma_be_value_first_difference,
    lemma_pow256_values, order_of,
};
use crate::decrypt::{base64_decoded, decrypt_aes_ecb, decrypt_xor, DecryptError};
use crate::format::{
    column_dictionary, directory_valid, entries_from, entry_ip, entry_ptr, header_parsed, ip_width,
    memory_index_valid, opened, record_width, start_keys, strictly_increasing, Database,
    DecryptedBlock, HyperHeaderBlock, Record,
};
use crate::index::{
    floor_index, keys_of_u128, keys_of_u32, lemma_floor_index_unique, Probe,
};
use crate::msgpack::{array_header, decode_utf8_lossy, read_array_len, read_int, read_str_len};
use crate::laws::{lemma_below_first_key_is_unknown, lemma_no_dictionary_leaves_other_text};
use crate::msgpack::int_read;
use crate::region::{columns_appended, geo_appended, other_text, unknown};
use vstd::prelude::*;
use vstd::slice::{slice_subrange, slice_to_vec};
use vstd::string::StringExecFns;

verus! {

/// Why a database could not be opened or an address not be looked up.
#[derive(Debug, Clone, Copy, PartialEq, Eq, Structural)]
pub enum CzdbError {
    /// The image could not be read; raised by callers that load it.
    IoError,
    /// The key was refused.
    DecryptError(DecryptError),
    /// A length or an offset in the image does not fit the image.
    InvalidFormat,
    /// Kept for callers that enforce the expiration date; nothing here
    /// returns it.
    Expired,
    /// The client identifier in the encrypted metadata is not the one in
    /// the clear.
    ClientIdMismatch,
    /// A text is not an IP address; raised by callers that parse one.
    IpParseError,
    /// A row of the column dictionary is not a MessagePack array of strings.
    MsgpackError,
    /// The address is not of the database's family.
    InvalidIpType,
    /// The index of the requested mode was not built.
    InvalidSearchMode,
}

impl CzdbError {
    /// The message shown for this error.
    pub fn message(&self) -> (r: &'static str)
        ensures
            r@ == match *self {
                CzdbError::IoError => "IO error"@,
                CzdbError::DecryptError(_) => "Decryption error"@,
                CzdbError::InvalidFormat => "Invalid database format"@,
                CzdbError::Expired => "Database expired"@,
                CzdbError::ClientIdMismatch => "Client ID mismatch"@,
                CzdbError::IpParseError => "IP parse error"@,
                CzdbError::MsgpackError => "Msgpack decode error"@,
                CzdbError::InvalidIpType => "Invalid IP Type"@,
                CzdbError::InvalidSearchMode => "Invalid search mode"@,
            },
    {
        match self {
            CzdbError::IoError => "IO error",
            CzdbError::DecryptError(_) => "Decryption error",
            CzdbError::InvalidFormat => "Invalid database format",
            CzdbError::Expired => "Database expired",
            CzdbError::ClientIdMismatch => "Client ID mismatch",
            CzdbError::IpParseError => "IP parse error",
            CzdbError::MsgpackError => "Msgpack decode error",
            CzdbError::InvalidIpType => "Invalid IP Type",
            CzdbError::InvalidSearchMode => "Invalid search mode",
        }
    }
}

/// The address family of a database.
#[derive(Debug, Clone, Copy, PartialEq, Eq, Structural)]
pub enum IpType {
    Ipv4,
    Ipv6,
}

/// How a searcher finds the record of an address.
#[derive(Debug, Clone, Copy, PartialEq, Eq, Structural)]
pub enum SearchMode {
    /// The index is copied out and searched through a sorted array of
    /// start addresses.
    Memory,
    /// The upper directory picks a block of records, which is searched in
    /// the image itself.
    BTree,
}

/// An IP address as its bytes in network order.
#[derive(Debug, Clone, Copy, PartialEq, Eq)]
pub enum IpAddress {
    V4([u8; 4]),
    V6([u8; 16]),
}

impl IpAddress {
    /// The family of the address.
    pub open spec fn family(self) -> IpType {
        match self {
            IpAddress::V4(_) => IpType::Ipv4,
            IpAddress::V6(_) => IpType::Ipv6,
        }
    }

    /// The address as a number.
    pub open spec fn number(self) -> nat {
        match self {
            IpAddress::V4(bytes) => be_value(bytes@),
            IpAddress::V6(bytes) => be_value(bytes@),
        }
    }
}

/// The answer of a database for an address: the region text of the
/// record that the mode finds for it, `"Unknown"` where it finds none,
/// and `InvalidIpType` for an address of the other family.
pub open spec fn search_result(db: Database, mode: SearchMode, ip: IpAddress) -> Result<
    Seq<char>,
    CzdbError,
> {
    if ip.family() == db.ip_type {
        db.lookup(mode, ip.number())
    } else {
        Err(CzdbError::InvalidIpType)
    }
}

/// The upper directory: the address and the block pointer of each entry
/// that stands before the first zero pointer.
pub struct BTreeHeader {
    /// The sixteen address bytes of each entry.
    pub header_sip: Vec<Vec<u8>>,
    /// The block pointer of each entry, relative to the super block.
    pub header_ptr: Vec<u32>,
}

impl BTreeHeader {
    /// Whether this is the upper directory of `size` bytes of an image
    /// whose super block stands at `start`: the directory can be read,
    /// and this holds the address and the pointer of each of its entries.
    pub open spec fn is_directory(&self, data: Seq<u8>, start: nat, size: nat) -> bool {
        let n = entries_from(data, start, size, 0);
        &&& directory_valid(data, start, size)
        &&& self.header_sip@.len() == n
        &&& self.header_ptr@.len() == n
        &&& forall|j: int|
            0 <= j < n ==> {
                &&& (#[trigger] self.header_sip@[j])@ == entry_ip(data, start, j)
                &&& self.header_sip@[j]@.len() == 16
            }
        &&& forall|j: int|
            0 <= j < n ==> {
                &&& #[trigger] self.header_ptr@[j] == entry_ptr(data, start, j)
                &&& self.header_ptr@[j] != 0
            }
    }

    /// Whether this is the upper directory of `db`.
    pub open spec fn is_directory_of(&self, db: Database) -> bool {
        self.is_directory(db.data, db.start_offset, db.header_block_size)
    }
}

/// A database image, opened with its key for lookups in one mode.
pub struct DbSearcher {
    data: Vec<u8>,
    start_offset: usize,
    index_start_ptr: u32,
    ip_type: IpType,
    ip_bytes_len: usize,
    column_selection: u32,
    geo_map_data: Option<Vec<u8>>,
    search_mode: SearchMode,
    index_data: Vec<u8>,
    index_v4_keys: Vec<u32>,
    index_v6_keys: Vec<u128>,
    record_len: usize,
    btree_header: Option<BTreeHeader>,
    end_index_ptr: u32,
    header_block_size: u32,
}

/// The result of a lookup, with the text in place of the string.
pub open spec fn text_of(r: Result<String, CzdbError>) -> Result<Seq<char>, CzdbError> {
    match r {
        Ok(s) => Ok(s@),
        Err(e) => Err(e),
    }
}

impl View for DbSearcher {
    type V = Database;

    closed spec fn view(&self) -> Database {
        Database {
            data: self.data@,
            start_offset: self.start_offset as nat,
            ip_type: self.ip_type,
            index_start: self.index_start_ptr as nat,
            index_end: self.end_index_ptr as nat,
            header_block_size: self.header_block_size as nat,
            column_mask: self.column_selection,
            column_dict: match self.geo_map_data {
                Some(d) => Some(d@),
                None => None,
            },
        }
    }
}

impl DbSearcher {
    /// The mode in which this searcher looks addresses up.
    pub closed spec fn mode(&self) -> SearchMode {
        self.search_mode
    }

    #[verifier::type_invariant]
    closed spec fn inv(&self) -> bool {
        &&& self.start_offset + 17 <= self.data@.len()
        &&& self.column_selection == 0 ==> self.geo_map_data is None
        &&& self.ip_bytes_len == ip_width(self.ip_type)
        &&& self.record_len == record_width(self.ip_type)
        &&& self.search_mode is Memory ==> {
            &&& self@.memory_index_valid()
            &&& self.index_data@ == self.data@.subrange(
                self.start_offset + self.index_start_ptr,
                self.start_offset + self.end_index_ptr,
            )
            &&& self.btree_header is None
            &&& match self.ip_type {
                IpType::Ipv4 => keys_of_u32(self.index_v4_keys@) == self@.keys()
                    && self.index_v6_keys@.len() == 0,
                IpType::Ipv6 => keys_of_u128(self.index_v6_keys@) == self@.keys()
                    && self.index_v4_keys@.len() == 0,
            }
        }
        &&& self.search_mode is BTree ==> {
            &&& self.btree_header matches Some(h) && h.is_directory_of(self@)
            &&& self.index_v4_keys@.len() == 0
            &&& self.index_v6_keys@.len() == 0
        }
    }

    /// Compares the first `len` bytes of two addresses: -1, 0 or 1 as the
    /// number that the first spells is below, equal to or above the
    /// number that the second spells.
    pub fn compare_ip_bytes(ip1: &[u8], ip2: &[u8], len: usize) -> (r: i32)
        requires
            len <= ip1@.len(),
            len <= ip2@.len(),
        ensures
            r == order_of(be_value(ip1@.take(len as int)), be_value(ip2@.take(len as int))),
    {
        let ghost a = ip1@.take(len as int);
        let ghost b = ip2@.take(len as int);
        let mut i: usize = 0;
        while i < len
            invariant
                i <= len,
                len <= ip1@.len(),
                len <= ip2@.len(),
                a == ip1@.take(len as int),
                b == ip2@.take(len as int),
                forall|j: int| 0 <= j < i ==> a[j] == b[j],
            decreases len - i,
        {
            if ip1[i] < ip2[i] {
                proof {
                    lemma_be_value_first_difference(a, b, i as int);
                }
                return -1;
            } else if ip1[i] > ip2[i] {
                proof {
                    lemma_be_value_first_difference(b, a, i as int);
                }
                return 1;
            }
            i = i + 1;
        }
        assert(a =~= b);
        0
    }

    /// Reads the address of family `t` that stands at `off`, as a number.
    fn read_ip(data: &[u8], t: IpType, off: usize) -> (r: u128)
        requires
            off + ip_width(t) <= data@.len(),
        ensures
            r == be_value(data@.subrange(off as int, off + ip_width(t))),
    {
        match t {
            IpType::Ipv4 => be_u32(data, off) as u128,
            IpType::Ipv6 => be_u128(data, off),
        }
    }

    /// Appends to `result` the selected columns of the dictionary row of
    /// `len` bytes at `ptr`, a TAB between any two of them. Where the row
    /// lies outside the dictionary or does not start with an array header,
    /// `result` is left as it was; on an error in a column it still starts
    /// with what it held, and may hold the columns before that one.
    pub fn append_geo_string(
        &self,
        geo_map_data: &[u8],
        ptr: usize,
        len: usize,
        result: &mut String,
    ) -> (r: Result<(), CzdbError>)
        ensures
            match geo_appended(
                geo_map_data@,
                self@.column_mask,
                ptr as nat,
                len as nat,
                old(result)@,
            ) {
                Ok(text) => r == Ok::<(), CzdbError>(()) && final(result)@ == text,
                Err(e) => r == Err::<(), CzdbError>(e) && old(result)@.is_prefix_of(final(result)@),
            },
            ptr + len > geo_map_data@.len() || array_header(
                geo_map_data@.subrange(ptr as int, ptr + len),
            ) is None ==> final(result)@ == old(result)@,
    {
        let total = geo_map_data.len();
        if ptr > total || len > total - ptr {
            return Err(CzdbError::InvalidFormat);
        }
        let data_row = slice_subrange(geo_map_data, ptr, ptr + len);
        let mask = self.column_selection;
        let (count, start) = match read_array_len(data_row) {
            Some(header) => header,
            None => {
                return Err(CzdbError::MsgpackError);
            },
        };
        let ghost goal = geo_appended(
            geo_map_data@,
            mask,
            ptr as nat,
            len as nat,
            old(result)@,
        );
        let mut pos: usize = start;
        let mut first = true;
        let mut i: u32 = 0;
        while i < count
            invariant
                i <= count,
                data_row@.len() == len,
                ptr + len <= geo_map_data@.len(),
                data_row@ == geo_map_data@.subrange(ptr as int, ptr + len),
                array_header(data_row@) is Some,
                mask == self@.column_mask,
                old(result)@.is_prefix_of(result@),
                goal == geo_appended(geo_map_data@, mask, ptr as nat, len as nat, old(result)@),
                goal == columns_appended(
                    data_row@,
                    mask,
                    i as nat,
                    count as nat,
                    pos as nat,
                    first,
                    result@,
                ),
            decreases count - i,
        {
            let selected = i < 31 && (mask >> (i + 1)) & 1 == 1;
            let (str_len, at) = match read_str_len(data_row, pos) {
                Some(header) => header,
                None => {
                    return Err(CzdbError::MsgpackError);
                },
            };
            if at > len || str_len as u64 > (len - at) as u64 {
                return Err(CzdbError::InvalidFormat);
            }
            let end = at + str_len as usize;
            if selected {
                if !first {
                    proof {
                        reveal_strlit("\t");
                    }
                    let ghost before = result@;
                    result.append("\t");
                    assert(result@ =~= before.push('\t'));
                }
                let column = decode_utf8_lossy(slice_subrange(data_row, at, end));
                result.append(column.as_str());
                first = false;
            }
            pos = end;
            i = i + 1;
        }
        Ok(())
    }

    /// Decodes the region of `len` bytes that stands at `ptr`, relative
    /// to the super block.
    pub fn get_region(&self, ptr: usize, len: usize) -> (r: Result<String, CzdbError>)
        ensures
            text_of(r) == self@.region_text(ptr as nat, len as nat),
            self@.column_mask == 0 && self@.start_offset + ptr + len <= self@.data.len() ==> text_of(
                r,
            ) == Ok::<Seq<char>, CzdbError>(
                other_text(
                    self@.data.subrange(
                        self@.start_offset + ptr,
                        self@.start_offset + ptr + len,
                    ),
                    int_read(
                        self@.data.subrange(
                            self@.start_offset + ptr,
                            self@.start_offset + ptr + len,
                        ),
                    ).1,
                ),
            ),
    {
        proof {
            use_type_invariant(self);
            if self@.column_mask == 0 && self@.start_offset + ptr + len <= self@.data.len() {
                lemma_no_dictionary_leaves_other_text(self@, ptr as nat, len as nat);
            }
        }
        let total = self.data.len();
        if ptr > total - self.start_offset || len > total - self.start_offset - ptr {
            return Err(CzdbError::InvalidFormat);
        }
        let offset = self.start_offset + ptr;
        let region_bytes = slice_subrange(self.data.as_slice(), offset, offset + len);
        let (value, pos) = read_int(region_bytes);
        let geo: u64 = match value {
            Some(v) => v,
            None => 0,
        };
        assert((geo >> 24) & 0xFF <= 0xFF && geo & 0x00FF_FFFF <= 0x00FF_FFFF) by (bit_vector);
        let row_len = ((geo >> 24) & 0xFF) as usize;
        let row_ptr = (geo & 0x00FF_FFFF) as usize;
        let mut result = String::new();
        if geo != 0 {
            match &self.geo_map_data {
                Some(dict) => {
                    match self.append_geo_string(dict.as_slice(), row_ptr, row_len, &mut result) {
                        Ok(()) => {},
                        Err(e) => {
                            return Err(e);
                        },
                    }
                },
                None => {},
            }
        }
        match read_str_len(region_bytes, pos) {
            Some((str_len, at)) => {
                if at <= len && str_len as u64 <= (len - at) as u64 {
                    let other = decode_utf8_lossy(
                        slice_subrange(region_bytes, at, at + str_len as usize),
                    );
                    result.append(other.as_str());
                }
            },
            None => {},
        }
        Ok(result)
    }

    /// The address that the bytes of `ip` spell, for an address of the
    /// family's length.
    fn ip_number(&self, ip: &[u8]) -> (r: u128)
        requires
            ip@.len() == ip_width(self@.ip_type),
        ensures
            r == be_value(ip@),
    {
        assert(ip@.subrange(0, ip@.len() as int) =~= ip@);
        Self::read_ip(ip, self.ip_type, 0)
    }

    /// The three-way binary search of the upper directory for `ip`: whether
    /// an entry holds `ip` itself, and the entry, or else the position at
    /// which the search ended.
    fn upper_search(&self, header: &BTreeHeader, ip: &[u8]) -> (r: (bool, usize))
        requires
            header.is_directory_of(self@),
            ip@.len() == ip_width(self@.ip_type),
        ensures
            r.1 <= self@.entry_count(),
            r.0 ==> r.1 < self@.entry_count(),
            self@.upper_search(be_value(ip@), 0, self@.entry_count() - 1) == (if r.0 {
                Probe::Exact(r.1 as int)
            } else {
                Probe::Between(r.1 as int)
            }),
    {
        proof {
            use_type_invariant(self);
        }
        let ghost db = self@;
        let ghost x = be_value(ip@);
        let n = header.header_sip.len();
        let mut lo: usize = 0;
        let mut hi: usize = n;
        while lo < hi
            invariant
                lo <= hi <= n,
                n == db.entry_count(),
                db == self@,
                x == be_value(ip@),
                header.is_directory_of(db),
                ip@.len() == ip_width(db.ip_type),
                self.ip_bytes_len == ip_width(db.ip_type),
                db.upper_search(x, 0, n - 1) == db.upper_search(x, lo as int, hi - 1),
            decreases hi - lo,
        {
            let m = lo + (hi - 1 - lo) / 2;
            assert(m == (lo + (hi - 1)) / 2);
            let pivot = header.header_sip[m].as_slice();
            assert(pivot@ == db.entry_ip(m as int));
            assert(ip@.take(self.ip_bytes_len as int) =~= ip@);
            let c = Self::compare_ip_bytes(ip, pivot, self.ip_bytes_len);
            if c < 0 {
                hi = m;
            } else if c > 0 {
                lo = m + 1;
            } else {
                return (true, m);
            }
        }
        (false, lo)
    }

    /// The three-way binary search for a record that covers `x` among the
    /// `count` records that start at `base` in the image: the pointer and
    /// the length of its region, or nothing where the search ends without
    /// one.
    fn lower_search(&self, base: usize, count: u64, x: u128) -> (r: Result<
        Option<(u32, u8)>,
        CzdbError,
    >)
        requires
            base <= self@.data.len(),
            count <= 0x1_0000_0000,
        ensures
            match self@.lower_search(base as nat, x as nat, 0, count - 1) {
                Err(e) => r == Err::<Option<(u32, u8)>, CzdbError>(e),
                Ok(None) => r == Ok::<Option<(u32, u8)>, CzdbError>(None),
                Ok(Some(rec)) => r matches Ok(Some(found)) && found.0 == rec.data_ptr && found.1
                    == rec.data_len,
            },
    {
        proof {
            use_type_invariant(self);
        }
        let ghost db = self@;
        let t = self.ip_type;
        let w = self.ip_bytes_len;
        let rl = self.record_len as u64;
        let data = self.data.as_slice();
        let room = (data.len() - base) as u64;
        let mut lo: u64 = 0;
        let mut hi: u64 = count;
        while lo < hi
            invariant
                lo <= hi <= count,
                count <= 0x1_0000_0000,
                db == self@,
                data@ == db.data,
                db.data.len() <= usize::MAX,
                base <= db.data.len(),
                room == db.data.len() - base,
                t == db.ip_type,
                w == ip_width(t),
                rl == record_width(t),
                db.lower_search(base as nat, x as nat, 0, count - 1) == db.lower_search(
                    base as nat,
                    x as nat,
                    lo as int,
                    hi - 1,
                ),
            decreases hi - lo,
        {
            let m = lo + (hi - 1 - lo) / 2;
            assert(m == (lo + (hi - 1)) / 2);
            assert(m * rl <= 0x1_0000_0000 * 37) by (nonlinear_arith)
                requires
                    m < 0x1_0000_0000,
                    rl <= 37,
            ;
            let rel = m * rl;
            if rel + rl > room {
                return Err(CzdbError::InvalidFormat);
            }
            let off = base + rel as usize;
            let start_ip = Self::read_ip(data, t, off);
            let end_ip = Self::read_ip(data, t, off + w);
            if x >= start_ip && x <= end_ip {
                let data_ptr = le_u32_at(data, off + 2 * w);
                let data_len = data[off + 2 * w + 4];
                return Ok(Some((data_ptr, data_len)));
            } else if x < start_ip {
                hi = m;
            } else {
                lo = m + 1;
            }
        }
        Ok(None)
    }

    /// The lookup of `ip` through the upper directory and a block of
    /// records in the image.
    fn btree_search(&self, ip: &[u8]) -> (r: Result<String, CzdbError>)
        requires
            ip@.len() == ip_width(self@.ip_type),
        ensures
            text_of(r) == match self.mode() {
                SearchMode::BTree => self@.btree_lookup(be_value(ip@)),
                SearchMode::Memory => Err(CzdbError::InvalidSearchMode),
            },
    {
        proof {
            use_type_invariant(self);
        }
        let header = match &self.btree_header {
            Some(h) => h,
            None => {
                return Err(CzdbError::InvalidSearchMode);
            },
        };
        let n = header.header_sip.len();
        let (exact, at) = self.upper_search(header, ip);
        let rl = self.record_len as u64;
        let sptr: u64;
        let eptr: u64;
        // A search that ends between two entries ends one position behind
        // its upper bound, so only three cases are left: before the first
        // entry, between two entries, and behind the last one.
        if exact {
            sptr = header.header_ptr[if at > 0 {
                at - 1
            } else {
                0
            }] as u64;
            eptr = header.header_ptr[at] as u64;
        } else if at == 0 {
            assert(self@.block_bounds(be_value(ip@)) is None);
            return Ok("Unknown".to_owned());
        } else if at < n {
            sptr = header.header_ptr[at - 1] as u64;
            eptr = header.header_ptr[at] as u64;
        } else {
            sptr = header.header_ptr[n - 1] as u64;
            eptr = sptr + rl;
        }
        assert(self@.block_bounds(be_value(ip@)) == Some((sptr as nat, eptr as nat)));
        if sptr == 0 {
            return Ok("Unknown".to_owned());
        }
        if eptr < sptr {
            return Err(CzdbError::InvalidFormat);
        }
        let count = (eptr - sptr) / rl;
        let x = self.ip_number(ip);
        if count == 0 {
            return Ok("Unknown".to_owned());
        }
        if sptr > (self.data.len() - self.start_offset) as u64 {
            proof {
                let m = (0 + (count - 1)) / 2;
                assert(m * rl >= 0) by (nonlinear_arith)
                    requires
                        m >= 0,
                        rl >= 0,
                ;
                assert(self@.lower_search(
                    (self.start_offset + sptr) as nat,
                    x as nat,
                    0,
                    count - 1,
                ) == Err::<Option<Record>, CzdbError>(CzdbError::InvalidFormat));
            }
            return Err(CzdbError::InvalidFormat);
        }
        let base = self.start_offset + sptr as usize;
        match self.lower_search(base, count, x) {
            Err(e) => Err(e),
            Ok(None) => Ok("Unknown".to_owned()),
            Ok(Some((data_ptr, data_len))) => {
                if data_ptr == 0 {
                    Ok("Unknown".to_owned())
                } else {
                    self.get_region(data_ptr as usize, data_len as usize)
                }
            },
        }
    }

    /// The lookup of an IPv4 address through the upper directory. A
    /// searcher in Memory mode holds no directory and answers with
    /// `InvalidSearchMode`; an IPv6 database answers with `InvalidIpType`.
    pub fn btree_search_ipv4(&self, ip: [u8; 4]) -> (r: Result<String, CzdbError>)
        ensures
            text_of(r) == match (self@.ip_type, self.mode()) {
                (IpType::Ipv6, _) => Err(CzdbError::InvalidIpType),
                (IpType::Ipv4, SearchMode::BTree) => self@.btree_lookup(be_value(ip@)),
                (IpType::Ipv4, SearchMode::Memory) => Err(CzdbError::InvalidSearchMode),
            },
    {
        match self.ip_type {
            IpType::Ipv4 => self.btree_search(ip.as_slice()),
            IpType::Ipv6 => Err(CzdbError::InvalidIpType),
        }
    }

    /// The lookup of an IPv6 address through the upper directory. A
    /// searcher in Memory mode holds no directory and answers with
    /// `InvalidSearchMode`; an IPv4 database answers with `InvalidIpType`.
    pub fn btree_search_ipv6(&self, ip: [u8; 16]) -> (r: Result<String, CzdbError>)
        ensures
            text_of(r) == match (self@.ip_type, self.mode()) {
                (IpType::Ipv4, _) => Err(CzdbError::InvalidIpType),
                (IpType::Ipv6, SearchMode::BTree) => self@.btree_lookup(be_value(ip@)),
                (IpType::Ipv6, SearchMode::Memory) => Err(CzdbError::InvalidSearchMode),
            },
    {
        match self.ip_type {
            IpType::Ipv6 => self.btree_search(ip.as_slice()),
            IpType::Ipv4 => Err(CzdbError::InvalidIpType),
        }
    }

    /// The region of record `idx` of the memory index where the record
    /// reaches up to `x`, and the answer for no record otherwise.
    fn memory_record(&self, idx: usize, x: u128) -> (r: Result<String, CzdbError>)
        requires
            self.mode() is Memory,
            idx < self@.record_count(),
        ensures
            text_of(r) == (if x <= self@.record(idx as int).end_ip {
                self@.region_text(
                    self@.record(idx as int).data_ptr,
                    self@.record(idx as int).data_len,
                )
            } else {
                Ok(unknown())
            }),
    {
        proof {
            use_type_invariant(self);
        }
        let ghost db = self@;
        let ghost first = self.start_offset + self.index_start_ptr;
        let w = self.ip_bytes_len;
        let index = self.index_data.as_slice();
        assert(db.memory_index_valid());
        assert(index@.len() == db.index_end - db.index_start);
        assert(self.record_len * (idx + 1) <= index@.len()) by {
            match self.ip_type {
                IpType::Ipv4 => {
                    assert(idx < (db.index_end - db.index_start) / 13);
                },
                IpType::Ipv6 => {
                    assert(idx < (db.index_end - db.index_start) / 37);
                },
            }
        }
        let offset = match self.ip_type {
            IpType::Ipv4 => idx * 13,
            IpType::Ipv6 => idx * 37,
        };
        assert(offset + self.record_len <= index@.len());
        assert(db.record_offset(idx as int) == first + offset);
        assert(index@.subrange(offset + w, offset + 2 * w) =~= db.data.subrange(
            first + offset + w,
            first + offset + 2 * w,
        ));
        assert(index@.subrange(offset + 2 * w, offset + 2 * w + 4) =~= db.data.subrange(
            first + offset + 2 * w,
            first + offset + 2 * w + 4,
        ));
        let end_ip = Self::read_ip(index, self.ip_type, offset + w);
        if x <= end_ip {
            let data_ptr = le_u32_at(index, offset + 2 * w);
            let data_len = index[offset + 2 * w + 4];
            return self.get_region(data_ptr as usize, data_len as usize);
        }
        Ok("Unknown".to_owned())
    }

    /// The lookup of an IPv4 address in the memory index. A searcher in
    /// BTree mode holds no memory index and answers with `"Unknown"`; an
    /// IPv6 database answers with `InvalidIpType`.
    pub fn memory_search_ipv4(&self, ip: u32) -> (r: Result<String, CzdbError>)
        ensures
            text_of(r) == match (self@.ip_type, self.mode()) {
                (IpType::Ipv6, _) => Err(CzdbError::InvalidIpType),
                (IpType::Ipv4, SearchMode::Memory) => self@.memory_lookup(ip as nat),
                (IpType::Ipv4, SearchMode::BTree) => Ok(unknown()),
            },
            self@.ip_type is Ipv4 && (self@.record_count() == 0 || ip < self@.record(
                0,
            ).start_ip) ==> text_of(r) == Ok::<Seq<char>, CzdbError>(unknown()),
    {
        match self.ip_type {
            IpType::Ipv4 => {},
            IpType::Ipv6 => {
                return Err(CzdbError::InvalidIpType);
            },
        }
        proof {
            use_type_invariant(self);
            if self.mode() is Memory && (self@.record_count() == 0 || ip < self@.record(
                0,
            ).start_ip) {
                lemma_below_first_key_is_unknown(self@, ip as nat);
            }
        }
        let idx = match floor_u32(&self.index_v4_keys, ip) {
            Some(i) => i,
            None => {
                return Ok("Unknown".to_owned());
            },
        };
        self.memory_record(idx, ip as u128)
    }

    /// The lookup of an IPv6 address in the memory index. A searcher in
    /// BTree mode holds no memory index and answers with `"Unknown"`; an
    /// IPv4 database answers with `InvalidIpType`.
    pub fn memory_search_ipv6(&self, ip: u128) -> (r: Result<String, CzdbError>)
        ensures
            text_of(r) == match (self@.ip_type, self.mode()) {
                (IpType::Ipv4, _) => Err(CzdbError::InvalidIpType),
                (IpType::Ipv6, SearchMode::Memory) => self@.memory_lookup(ip as nat),
                (IpType::Ipv6, SearchMode::BTree) => Ok(unknown()),
            },
            self@.ip_type is Ipv6 && (self@.record_count() == 0 || ip < self@.record(
                0,
            ).start_ip) ==> text_of(r) == Ok::<Seq<char>, CzdbError>(unknown()),
    {
        match self.ip_type {
            IpType::Ipv6 => {},
            IpType::Ipv4 => {
                return Err(CzdbError::InvalidIpType);
            },
        }
        proof {
            use_type_invariant(self);
            if self.mode() is Memory && (self@.record_count() == 0 || ip < self@.record(
                0,
            ).start_ip) {
                lemma_below_first_key_is_unknown(self@, ip as nat);
            }
        }
        let idx = match floor_u128(&self.index_v6_keys, ip) {
            Some(i) => i,
            None => {
                return Ok("Unknown".to_owned());
            },
        };
        self.memory_record(idx, ip)
    }

    /// Looks an address up: checks its family against the database's and
    /// hands it to the lookup of the searcher's mode.
    pub fn search(&self, ip: &IpAddress) -> (r: Result<String, CzdbError>)
        ensures
            text_of(r) == search_result(self@, self.mode(), *ip),
    {
        match ip {
            IpAddress::V4(bytes) => self.search_ipv4(*bytes),
            IpAddress::V6(bytes) => self.search_ipv6(*bytes),
        }
    }

    /// Looks an IPv4 address up, by the searcher's mode. An IPv6 database
    /// answers with `InvalidIpType`.
    pub fn search_ipv4(&self, ip: [u8; 4]) -> (r: Result<String, CzdbError>)
        ensures
            text_of(r) == match self@.ip_type {
                IpType::Ipv4 => self@.lookup(self.mode(), be_value(ip@)),
                IpType::Ipv6 => Err(CzdbError::InvalidIpType),
            },
    {
        match self.ip_type {
            IpType::Ipv4 => {},
            IpType::Ipv6 => {
                return Err(CzdbError::InvalidIpType);
            },
        }
        match self.search_mode {
            SearchMode::Memory => {
                assert(ip@.subrange(0, 4) =~= ip@);
                let ip_u32 = be_u32(ip.as_slice(), 0);
                self.memory_search_ipv4(ip_u32)
            },
            SearchMode::BTree => self.btree_search_ipv4(ip),
        }
    }

    /// Looks an IPv6 address up, by the searcher's mode. An IPv4 database
    /// answers with `InvalidIpType`.
    pub fn search_ipv6(&self, ip: [u8; 16]) -> (r: Result<String, CzdbError>)
        ensures
            text_of(r) == match self@.ip_type {
                IpType::Ipv6 => self@.lookup(self.mode(), be_value(ip@)),
                IpType::Ipv4 => Err(CzdbError::InvalidIpType),
            },
    {
        match self.ip_type {
            IpType::Ipv6 => {},
            IpType::Ipv4 => {
                return Err(CzdbError::InvalidIpType);
            },
        }
        match self.search_mode {
            SearchMode::Memory => {
                assert(ip@.subrange(0, 16) =~= ip@);
                let ip_u128 = be_u128(ip.as_slice(), 0);
                self.memory_search_ipv6(ip_u128)
            },
            SearchMode::BTree => self.btree_search_ipv6(ip),
        }
    }

    /// Opens an image with its key for lookups in Memory mode.
    pub fn new(data: Vec<u8>, key: &str) -> (r: Result<DbSearcher, CzdbError>)
        ensures
            match r {
                Ok(db) => opened(data@, key@, SearchMode::Memory) == Ok::<Database, CzdbError>(db@)
                    && db.mode() == SearchMode::Memory && strictly_increasing(db@.keys()),
                Err(e) => opened(data@, key@, SearchMode::Memory) == Err::<Database, CzdbError>(e),
            },
    {
        Self::with_mode(data, key, SearchMode::Memory)
    }

    /// Opens an image with its key for lookups in the given mode: parses
    /// the header, reads the super block, loads the column dictionary and
    /// builds the index of the mode.
    pub fn with_mode(data: Vec<u8>, key: &str, mode: SearchMode) -> (r: Result<
        DbSearcher,
        CzdbError,
    >)
        ensures
            match r {
                Ok(db) => opened(data@, key@, mode) == Ok::<Database, CzdbError>(db@) && db.mode()
                    == mode && (mode is Memory ==> strictly_increasing(db@.keys())),
                Err(e) => opened(data@, key@, mode) == Err::<Database, CzdbError>(e),
            },
    {
        let bytes = data.as_slice();
        let offset = match Self::parse_header(bytes, key) {
            Ok((_, offset)) => offset,
            Err(e) => {
                return Err(e);
            },
        };
        let total = bytes.len() as u64;
        if offset > total || total - offset < 17 {
            return Err(CzdbError::InvalidFormat);
        }
        let start = offset as usize;
        let ip_type = if bytes[start] & 1 == 0 {
            IpType::Ipv4
        } else {
            IpType::Ipv6
        };
        let start_index_ptr = le_u32_at(bytes, start + 5);
        let header_block_size = le_u32_at(bytes, start + 9);
        let end_index_ptr = le_u32_at(bytes, start + 13);
        let (ip_bytes_len, record_len): (usize, usize) = match ip_type {
            IpType::Ipv4 => (4, 13),
            IpType::Ipv6 => (16, 37),
        };
        let (column_selection, geo_map_data) = match Self::load_geo_mapping(
            key,
            bytes,
            start,
            end_index_ptr,
            ip_type,
        ) {
            Ok(loaded) => loaded,
            Err(e) => {
                return Err(e);
            },
        };
        match mode {
            SearchMode::Memory => {
                let (index_data, index_v4_keys, index_v6_keys) = match Self::build_memory_index(
                    bytes,
                    start,
                    start_index_ptr,
                    end_index_ptr,
                    ip_type,
                ) {
                    Ok(index) => index,
                    Err(e) => {
                        return Err(e);
                    },
                };
                Ok(
                    DbSearcher {
                        data,
                        start_offset: start,
                        index_start_ptr: start_index_ptr,
                        ip_type,
                        ip_bytes_len,
                        column_selection,
                        geo_map_data,
                        search_mode: mode,
                        index_data,
                        index_v4_keys,
                        index_v6_keys,
                        record_len,
                        btree_header: None,
                        end_index_ptr,
                        header_block_size,
                    },
                )
            },
            SearchMode::BTree => {
                let header = match Self::build_btree_index(bytes, start) {
                    Ok(header) => header,
                    Err(e) => {
                        return Err(e);
                    },
                };
                Ok(
                    DbSearcher {
                        data,
                        start_offset: start,
                        index_start_ptr: start_index_ptr,
                        ip_type,
                        ip_bytes_len,
                        column_selection,
                        geo_map_data,
                        search_mode: mode,
                        index_data: Vec::new(),
                        index_v4_keys: Vec::new(),
                        index_v6_keys: Vec::new(),
                        record_len,
                        btree_header: Some(header),
                        end_index_ptr,
                        header_block_size,
                    },
                )
            },
        }
    }

    /// Parses the clear prefix of an image, decrypts its metadata block
    /// and checks the client identifier. Returns the header and the
    /// offset of the super block.
    pub fn parse_header(data: &[u8], key: &str) -> (r: Result<(HyperHeaderBlock, u64), CzdbError>)
        ensures
            match r {
                Ok((header, offset)) => header_parsed(data@, key@) == Ok::<
                    (HyperHeaderBlock, nat),
                    CzdbError,
                >((header, offset as nat)),
                Err(e) => header_parsed(data@, key@) == Err::<(HyperHeaderBlock, nat), CzdbError>(
                    e,
                ),
            },
    {
        if data.len() < 12 {
            return Err(CzdbError::InvalidFormat);
        }
        let version = le_u32_at(data, 0);
        let client_id = le_u32_at(data, 4);
        let encrypted_block_size = le_u32_at(data, 8);
        if encrypted_block_size as u64 > (data.len() - 12) as u64 {
            return Err(CzdbError::InvalidFormat);
        }
        let end = 12 + encrypted_block_size as usize;
        let encrypted_bytes = slice_subrange(data, 12, end);
        let decrypted_bytes = match decrypt_aes_ecb(key, encrypted_bytes) {
            Ok(plain) => plain,
            Err(e) => {
                return Err(CzdbError::DecryptError(e));
            },
        };
        if decrypted_bytes.len() < 8 {
            return Err(CzdbError::InvalidFormat);
        }
        let first_u32 = le_u32_at(decrypted_bytes.as_slice(), 0);
        let random_size = le_u32_at(decrypted_bytes.as_slice(), 4);
        let decrypted_client_id = first_u32 >> 20;
        let expiration_date = first_u32 & 0xFFFFF;
        if decrypted_client_id != client_id {
            return Err(CzdbError::ClientIdMismatch);
        }
        let header_block = HyperHeaderBlock {
            version,
            client_id,
            encrypted_block_size,
            decrypted_block: DecryptedBlock {
                client_id: decrypted_client_id,
                expiration_date,
                random_size,
            },
        };
        Ok((header_block, 12 + encrypted_block_size as u64 + random_size as u64))
    }

    /// Reads the column mask behind the index and, where it is not zero,
    /// the column dictionary, which it decrypts.
    fn load_geo_mapping(
        key: &str,
        data: &[u8],
        start_offset: usize,
        end_index_ptr: u32,
        ip_type: IpType,
    ) -> (r: Result<(u32, Option<Vec<u8>>), CzdbError>)
        requires
            start_offset <= data@.len(),
            base64_decoded(key@) matches Some(k) ==> k.len() == 16,
        ensures
            match r {
                Ok((mask, dict)) => column_dictionary(
                    data@,
                    key@,
                    start_offset as nat,
                    end_index_ptr as nat,
                    ip_type,
                ) == Ok::<(u32, Option<Seq<u8>>), CzdbError>(
                    (
                        mask,
                        match dict {
                            Some(d) => Some(d@),
                            None => None,
                        },
                    ),
                ),
                Err(e) => column_dictionary(
                    data@,
                    key@,
                    start_offset as nat,
                    end_index_ptr as nat,
                    ip_type,
                ) == Err::<(u32, Option<Seq<u8>>), CzdbError>(e),
            },
    {
        let ip_bytes_len: u64 = match ip_type {
            IpType::Ipv4 => 4,
            IpType::Ipv6 => 16,
        };
        let room = (data.len() - start_offset) as u64;
        let rel = end_index_ptr as u64 + ip_bytes_len * 2 + 5;
        if rel > room || room - rel < 4 {
            return Err(CzdbError::InvalidFormat);
        }
        let column_selection_ptr = start_offset + rel as usize;
        let column_selection = le_u32_at(data, column_selection_ptr);
        if column_selection == 0 {
            return Ok((0, None));
        }
        if room - rel < 8 {
            return Err(CzdbError::InvalidFormat);
        }
        let geo_map_ptr = column_selection_ptr + 4;
        let geo_map_size = le_u32_at(data, geo_map_ptr);
        let geo_map_data_ptr = geo_map_ptr + 4;
        if geo_map_size as u64 > room - rel - 8 {
            return Err(CzdbError::InvalidFormat);
        }
        let mut geo_map_data = slice_to_vec(
            slice_subrange(data, geo_map_data_ptr, geo_map_data_ptr + geo_map_size as usize),
        );
        match decrypt_xor(key, geo_map_data.as_mut_slice()) {
            Ok(()) => {},
            Err(e) => {
                return Err(CzdbError::DecryptError(e));
            },
        }
        Ok((column_selection, Some(geo_map_data)))
    }

    /// Copies the index records out of the image and extracts their start
    /// addresses, which must be strictly increasing. Returns the copied
    /// records, the IPv4 keys and the IPv6 keys; the keys of the other
    /// family are empty.
    pub fn build_memory_index(
        data: &[u8],
        start_offset: usize,
        start_ptr: u32,
        end_ptr: u32,
        ip_type: IpType,
    ) -> (r: Result<(Vec<u8>, Vec<u32>, Vec<u128>), CzdbError>)
        requires
            start_offset <= data@.len(),
        ensures
            match r {
                Ok((index, v4, v6)) => {
                    &&& memory_index_valid(
                        data@,
                        ip_type,
                        start_offset as nat,
                        start_ptr as nat,
                        end_ptr as nat,
                    )
                    &&& index@ == data@.subrange(start_offset + start_ptr, start_offset + end_ptr)
                    &&& match ip_type {
                        IpType::Ipv4 => v6@.len() == 0 && keys_of_u32(v4@) == start_keys(
                            data@,
                            ip_type,
                            (start_offset + start_ptr) as nat,
                            ((end_ptr - start_ptr) / 13) as nat,
                        ),
                        IpType::Ipv6 => v4@.len() == 0 && keys_of_u128(v6@) == start_keys(
                            data@,
                            ip_type,
                            (start_offset + start_ptr) as nat,
                            ((end_ptr - start_ptr) / 37) as nat,
                        ),
                    }
                },
                Err(e) => e == CzdbError::InvalidFormat && !memory_index_valid(
                    data@,
                    ip_type,
                    start_offset as nat,
                    start_ptr as nat,
                    end_ptr as nat,
                ),
            },
    {
        if start_ptr > end_ptr || end_ptr as u64 > (data.len() - start_offset) as u64 {
            return Err(CzdbError::InvalidFormat);
        }
        let first = start_offset + start_ptr as usize;
        let index_data = slice_to_vec(
            slice_subrange(data, first, start_offset + end_ptr as usize),
        );
        let index = index_data.as_slice();
        let mut index_v4_keys: Vec<u32> = Vec::new();
        let mut index_v6_keys: Vec<u128> = Vec::new();
        let record_len: usize = match ip_type {
            IpType::Ipv4 => 13,
            IpType::Ipv6 => 37,
        };
        let ghost count = ((end_ptr - start_ptr) / record_width(ip_type) as int) as nat;
        let ghost keys = start_keys(data@, ip_type, first as nat, count);
        let mut ptr: usize = 0;
        let mut n: usize = 0;
        let mut last: u128 = 0;
        while index.len() - ptr >= record_len
            invariant
                ptr <= index@.len(),
                ptr == n * record_len,
                record_len == record_width(ip_type),
                n <= count,
                index@ == data@.subrange(first as int, start_offset + end_ptr),
                index@.len() == end_ptr - start_ptr,
                first == start_offset + start_ptr,
                start_offset + end_ptr <= data@.len(),
                count == ((end_ptr - start_ptr) / record_width(ip_type) as int) as nat,
                keys == start_keys(data@, ip_type, first as nat, count),
                n > 0 ==> last == keys[n - 1],
                forall|i: int, j: int| 0 <= i < j < n ==> keys[i] < keys[j],
                match ip_type {
                    IpType::Ipv4 => index_v6_keys@.len() == 0 && index_v4_keys@.len() == n
                        && forall|i: int| 0 <= i < n ==> index_v4_keys@[i] == keys[i],
                    IpType::Ipv6 => index_v4_keys@.len() == 0 && index_v6_keys@.len() == n
                        && forall|i: int| 0 <= i < n ==> index_v6_keys@[i] == keys[i],
                },
            decreases index@.len() - ptr,
        {
            let ghost w = ip_width(ip_type) as int;
            assert(n < count) by {
                match ip_type {
                    IpType::Ipv4 => {},
                    IpType::Ipv6 => {},
                }
            }
            assert(index@.subrange(ptr as int, ptr + w) =~= data@.subrange(
                first + ptr,
                first + ptr + w,
            ));
            let start_ip = Self::read_ip(index, ip_type, ptr);
            assert(start_ip == keys[n as int]);
            if n > 0 && start_ip <= last {
                return Err(CzdbError::InvalidFormat);
            }
            match ip_type {
                IpType::Ipv4 => {
                    proof {
                        lemma_be_value_bound(index@.subrange(ptr as int, ptr + 4));
                        lemma_pow256_values();
                    }
                    index_v4_keys.push(start_ip as u32);
                },
                IpType::Ipv6 => {
                    index_v6_keys.push(start_ip);
                },
            }
            last = start_ip;
            ptr = ptr + record_len;
            n = n + 1;
        }
        proof {
            assert(n == count) by {
                match ip_type {
                    IpType::Ipv4 => {},
                    IpType::Ipv6 => {},
                }
            }
            match ip_type {
                IpType::Ipv4 => {
                    assert(keys_of_u32(index_v4_keys@) =~= keys);
                },
                IpType::Ipv6 => {
                    assert(keys_of_u128(index_v6_keys@) =~= keys);
                },
            }
        }
        Ok((index_data, index_v4_keys, index_v6_keys))
    }

    /// Reads the upper directory behind the super block: the entries of
    /// 20 bytes up to the first one with a zero pointer.
    pub fn build_btree_index(data: &[u8], start_offset: usize) -> (r: Result<BTreeHeader, CzdbError>)
        requires
            start_offset + 17 <= data@.len(),
        ensures
            match r {
                Ok(header) => header.is_directory(
                    data@,
                    start_offset as nat,
                    le_u32(data@.subrange(start_offset + 9, start_offset + 13)),
                ),
                Err(e) => e == CzdbError::InvalidFormat && !directory_valid(
                    data@,
                    start_offset as nat,
                    le_u32(data@.subrange(start_offset + 9, start_offset + 13)),
                ),
            },
    {
        let total = data.len();
        let total_header_block_size = le_u32_at(data, start_offset + 9) as usize;
        let header_data_offset = start_offset + 17;
        if total_header_block_size > total - header_data_offset {
            return Err(CzdbError::InvalidFormat);
        }
        let ghost start = start_offset as nat;
        let ghost size = total_header_block_size as nat;
        let mut header_sip: Vec<Vec<u8>> = Vec::new();
        let mut header_ptr: Vec<u32> = Vec::new();
        let mut ptr: usize = 0;
        while ptr < total_header_block_size
            invariant
                ptr <= total_header_block_size,
                ptr == 20 * header_ptr@.len(),
                header_sip@.len() == header_ptr@.len(),
                header_data_offset == start_offset + 17,
                header_data_offset + total_header_block_size <= data@.len(),
                data@.len() == total,
                start == start_offset,
                size == total_header_block_size,
                size == le_u32(data@.subrange(start_offset + 9, start_offset + 13)),
                entries_from(data@, start, size, 0) == entries_from(
                    data@,
                    start,
                    size,
                    header_ptr@.len() as nat,
                ),
                forall|j: int|
                    0 <= j < header_sip@.len() ==> {
                        &&& (#[trigger] header_sip@[j])@ == entry_ip(data@, start, j)
                        &&& header_sip@[j]@.len() == 16
                    },
                forall|j: int|
                    0 <= j < header_ptr@.len() ==> {
                        &&& #[trigger] header_ptr@[j] == entry_ptr(data@, start, j)
                        &&& header_ptr@[j] != 0
                    },
            decreases total_header_block_size - ptr,
        {
            if total_header_block_size - ptr < 20 {
                return Err(CzdbError::InvalidFormat);
            }
            let at = header_data_offset + ptr;
            let data_ptr = le_u32_at(data, at + 16);
            if data_ptr == 0 {
                return Ok(BTreeHeader { header_sip, header_ptr });
            }
            let sip = slice_to_vec(slice_subrange(data, at, at + 16));
            header_sip.push(sip);
            header_ptr.push(data_ptr);
            ptr = ptr + 20;
        }
        Ok(BTreeHeader { header_sip, header_ptr })
    }

    /// The mode in which this searcher looks addresses up.
    pub fn search_mode(&self) -> (r: SearchMode)
        ensures
            r == self.mode(),
    {
        self.search_mode
    }

    /// The address family of the database.
    pub fn ip_type(&self) -> (r: IpType)
        ensures
            r == self@.ip_type,
    {
        self.ip_type
    }
}

/// The last position of strictly increasing IPv4 keys that holds a key
/// not above `x`.
fn floor_u32(keys: &Vec<u32>, x: u32) -> (r: Option<usize>)
    requires
        strictly_increasing(keys_of_u32(keys@)),
    ensures
        floor_index(keys_of_u32(keys@), x as nat) == match r {
            Some(i) => i as int,
            None => -1,
        },
        r matches Some(i) ==> i < keys@.len(),
{
    let ghost ks = keys_of_u32(keys@);
    let mut lo: usize = 0;
    let mut hi: usize = keys.len();
    while lo < hi
        invariant
            lo <= hi <= keys@.len(),
            ks == keys_of_u32(keys@),
            strictly_increasing(ks),
            forall|j: int| 0 <= j < lo ==> ks[j] <= x,
            forall|j: int| hi <= j < ks.len() ==> ks[j] > x,
        decreases hi - lo,
    {
        let m = lo + (hi - lo) / 2;
        assert(ks[m as int] == keys@[m as int]);
        if keys[m] <= x {
            lo = m + 1;
        } else {
            hi = m;
        }
    }
    proof {
        lemma_floor_index_unique(ks, x as nat, lo - 1);
    }
    if lo == 0 {
        None
    } else {
        Some(lo - 1)
    }
}

/// The last position of strictly increasing IPv6 keys that holds a key
/// not above `x`.
fn floor_u128(keys: &Vec<u128>, x: u128) -> (r: Option<usize>)
    requires
        strictly_increasing(keys_of_u128(keys@)),
    ensures
        floor_index(keys_of_u128(keys@), x as nat) == match r {
            Some(i) => i as int,
            None => -1,
        },
        r matches Some(i) ==> i < keys@.len(),
{
    let ghost ks = keys_of_u128(keys@);
    let mut lo: usize = 0;
    let mut hi: usize = keys.len();
    while lo < hi
        invariant
            lo <= hi <= keys@.len(),
            ks == keys_of_u128(keys@),
            strictly_increasing(ks),
            forall|j: int| 0 <= j < lo ==> ks[j] <= x,
            forall|j: int| hi <= j < ks.len() ==> ks[j] > x,
        decreases hi - lo,
    {
        let m = lo + (hi - lo) / 2;
        assert(ks[m as int] == keys@[m as int]);
        if keys[m] <= x {
            lo = m + 1;
        } else {
            hi = m;
        }
    }
    proof {
        lemma_floor_index_unique(ks, x as nat, lo - 1);
    }
    if lo == 0 {
        None
    } else {
        Some(lo - 1)
    }
}

} // verus!