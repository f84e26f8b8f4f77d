//! The layout of a database image, as a mathematical model: what the
//! header, the super block, the index records, the upper directory and
//! the column dictionary are, in terms of the bytes of the image.

use crate::bytes::{be_value, le_u32};
use crate::decrypt::{aes_ecb_plaintext, base64_decoded, xor_applied, DecryptError};
use crate::searcher::{CzdbError, IpType, SearchMode};
use vstd::prelude::*;

verus! {

/// The number of bytes of an address of family `t`.
pub open spec fn ip_width(t: IpType) -> nat {
    match t {
        IpType::Ipv4 => 4,
        IpType::Ipv6 => 16,
    }
}

/// The number of bytes of an index record of family `t`: two addresses, a
/// pointer of four bytes and a length of one.
pub open spec fn record_width(t: IpType) -> nat {
    match t {
        IpType::Ipv4 => 13,
        IpType::Ipv6 => 37,
    }
}

/// One range of the index.
pub struct Record {
    pub start_ip: nat,
    pub end_ip: nat,
    /// Where the region of the range stands, relative to the super block.
    pub data_ptr: nat,
    pub data_len: nat,
}

impl Record {
    pub open spec fn covers(self, x: nat) -> bool {
        self.start_ip <= x <= self.end_ip
    }
}

/// The record whose first byte is `data[off]`.
pub open spec fn record_at(data: Seq<u8>, t: IpType, off: int) -> Record {
    let w = ip_width(t) as int;
    Record {
        start_ip: be_value(data.subrange(off, off + w)),
        end_ip: be_value(data.subrange(off + w, off + 2 * w)),
        data_ptr: le_u32(data.subrange(off + 2 * w, off + 2 * w + 4)),
        data_len: data[off + 2 * w + 4] as nat,
    }
}

/// The clear prefix of an image together with what its encrypted metadata
/// holds.
#[derive(Debug, Clone, Copy, PartialEq, Eq, Structural)]
pub struct HyperHeaderBlock {
    pub version: u32,
    pub client_id: u32,
    pub encrypted_block_size: u32,
    pub decrypted_block: DecryptedBlock,
}

/// The decrypted metadata block.
#[derive(Debug, Clone, Copy, PartialEq, Eq, Structural)]
pub struct DecryptedBlock {
    pub client_id: u32,
    /// Parsed, and not enforced.
    pub expiration_date: u32,
    pub random_size: u32,
}

/// The header of an image under a key, and the offset of the super block;
/// or the reason for which the image or the key is refused.
pub open spec fn header_parsed(data: Seq<u8>, key: Seq<char>) -> Result<
    (HyperHeaderBlock, nat),
    CzdbError,
> {
    if data.len() < 12 {
        Err(CzdbError::InvalidFormat)
    } else {
        let version = le_u32(data.subrange(0, 4));
        let client_id = le_u32(data.subrange(4, 8));
        let size = le_u32(data.subrange(8, 12));
        let end = 12 + size as int;
        if data.len() < end {
            Err(CzdbError::InvalidFormat)
        } else {
            match aes_ecb_plaintext(key, data.subrange(12, end)) {
                Err(e) => Err(CzdbError::DecryptError(e)),
                Ok(plain) => if plain.len() < 8 {
                    Err(CzdbError::InvalidFormat)
                } else {
                    let first = le_u32(plain.subrange(0, 4)) as u32;
                    let random_size = le_u32(plain.subrange(4, 8));
                    if (first >> 20) != client_id {
                        Err(CzdbError::ClientIdMismatch)
                    } else {
                        Ok(
                            (
                                HyperHeaderBlock {
                                    version: version as u32,
                                    client_id: client_id as u32,
                                    encrypted_block_size: size as u32,
                                    decrypted_block: DecryptedBlock {
                                        client_id: first >> 20,
                                        expiration_date: first & 0xFFFFF,
                                        random_size: random_size as u32,
                                    },
                                },
                                (end + random_size) as nat,
                            ),
                        )
                    }
                },
            }
        }
    }
}

/// The column mask and the decrypted column dictionary of an image whose
/// super block stands at `start` and whose index ends at `index_end`.
pub open spec fn column_dictionary(
    data: Seq<u8>,
    key: Seq<char>,
    start: nat,
    index_end: nat,
    t: IpType,
) -> Result<(u32, Option<Seq<u8>>), CzdbError> {
    let p = (start + index_end + 2 * ip_width(t) + 5) as int;
    if data.len() < p + 4 {
        Err(CzdbError::InvalidFormat)
    } else {
        let mask = le_u32(data.subrange(p, p + 4)) as u32;
        if mask == 0 {
            Ok((0u32, None))
        } else if data.len() < p + 8 {
            Err(CzdbError::InvalidFormat)
        } else {
            let size = le_u32(data.subrange(p + 4, p + 8));
            if data.len() < p + 8 + size {
                Err(CzdbError::InvalidFormat)
            } else {
                match base64_decoded(key) {
                    None => Err(CzdbError::DecryptError(DecryptError::Base64Error)),
                    Some(k) => Ok((mask, Some(xor_applied(k, data.subrange(p + 8, p + 8 + size))))),
                }
            }
        }
    }
}

/// An opened database.
pub struct Database {
    /// The image.
    pub data: Seq<u8>,
    /// Where the super block stands in the image.
    pub start_offset: nat,
    pub ip_type: IpType,
    /// Where the index records start, relative to the super block.
    pub index_start: nat,
    /// Where the index records end, relative to the super block.
    pub index_end: nat,
    /// The length of the upper directory in bytes.
    pub header_block_size: nat,
    pub column_mask: u32,
    /// The decrypted column dictionary, where the mask is not zero.
    pub column_dict: Option<Seq<u8>>,
}

impl Database {
    /// The number of whole records between the start and the end of the
    /// index.
    pub open spec fn record_count(self) -> nat {
        if self.index_start <= self.index_end {
            ((self.index_end - self.index_start) / record_width(self.ip_type) as int) as nat
        } else {
            0
        }
    }

    /// Where record `i` of the index stands in the image.
    pub open spec fn record_offset(self, i: int) -> int {
        self.start_offset + self.index_start + i * record_width(self.ip_type)
    }

    /// Record `i` of the index.
    pub open spec fn record(self, i: int) -> Record {
        record_at(self.data, self.ip_type, self.record_offset(i))
    }

    /// The start addresses of the index records, in the order of the image.
    pub open spec fn keys(self) -> Seq<nat> {
        start_keys(
            self.data,
            self.ip_type,
            self.start_offset + self.index_start,
            self.record_count(),
        )
    }

    /// Where entry `j` of the upper directory stands in the image.
    pub open spec fn entry_offset(self, j: int) -> int {
        entry_offset(self.start_offset, j)
    }

    /// The sixteen bytes of the address in entry `j` of the upper directory.
    pub open spec fn entry_ip(self, j: int) -> Seq<u8> {
        entry_ip(self.data, self.start_offset, j)
    }

    /// The address in entry `j`, as a number: of its bytes, those that an
    /// address of the family has.
    pub open spec fn pivot(self, j: int) -> nat {
        be_value(self.entry_ip(j).take(ip_width(self.ip_type) as int))
    }

    /// The block pointer in entry `j`, relative to the super block.
    pub open spec fn entry_ptr(self, j: int) -> nat {
        entry_ptr(self.data, self.start_offset, j)
    }

    /// The number of entries of the upper directory.
    pub open spec fn entry_count(self) -> nat {
        entries_from(self.data, self.start_offset, self.header_block_size, 0)
    }

    /// Whether the memory index can be built.
    pub open spec fn memory_index_valid(self) -> bool {
        memory_index_valid(
            self.data,
            self.ip_type,
            self.start_offset,
            self.index_start,
            self.index_end,
        )
    }

    /// Whether the upper directory can be read.
    pub open spec fn directory_valid(self) -> bool {
        directory_valid(self.data, self.start_offset, self.header_block_size)
    }
}

/// The start addresses of the `count` records of family `t` that stand
/// one behind the other from `first` on.
pub open spec fn start_keys(data: Seq<u8>, t: IpType, first: nat, count: nat) -> Seq<nat> {
    Seq::new(count, |i: int| record_at(data, t, first + i * record_width(t)).start_ip)
}

/// Whether the memory index of an image can be built: the index lies in
/// the image, and the start addresses of its records are strictly
/// increasing.
pub open spec fn memory_index_valid(
    data: Seq<u8>,
    t: IpType,
    start: nat,
    index_start: nat,
    index_end: nat,
) -> bool {
    &&& index_start <= index_end
    &&& start + index_end <= data.len()
    &&& strictly_increasing(
        start_keys(
            data,
            t,
            start + index_start,
            ((index_end - index_start) / record_width(t) as int) as nat,
        ),
    )
}

/// Where entry `j` of the upper directory stands in an image whose super
/// block stands at `start`.
pub open spec fn entry_offset(start: nat, j: int) -> int {
    start + 17 + j * 20
}

/// The sixteen address bytes of entry `j` of the upper directory.
pub open spec fn entry_ip(data: Seq<u8>, start: nat, j: int) -> Seq<u8> {
    data.subrange(entry_offset(start, j), entry_offset(start, j) + 16)
}

/// The block pointer of entry `j` of the upper directory.
pub open spec fn entry_ptr(data: Seq<u8>, start: nat, j: int) -> nat {
    le_u32(data.subrange(entry_offset(start, j) + 16, entry_offset(start, j) + 20))
}

/// The position of the first entry from `j` on that has a zero pointer or
/// does not lie whole in the `size` bytes of the directory: the number of
/// entries, where `j` is 0.
pub open spec fn entries_from(data: Seq<u8>, start: nat, size: nat, j: nat) -> nat
    decreases size - 20 * j,
{
    if 20 * (j + 1) > size || entry_ptr(data, start, j as int) == 0 {
        j
    } else {
        entries_from(data, start, size, j + 1)
    }
}

/// Whether the upper directory of `size` bytes can be read: it lies in
/// the image, and it ends with a zero pointer or with its last whole
/// entry.
pub open spec fn directory_valid(data: Seq<u8>, start: nat, size: nat) -> bool {
    let n = entries_from(data, start, size, 0);
    &&& start + 17 + size <= data.len()
    &&& (20 * n == size || 20 * (n + 1) <= size)
}

pub open spec fn strictly_increasing(s: Seq<nat>) -> bool {
    forall|i: int, j: int| 0 <= i < j < s.len() ==> s[i] < s[j]
}

/// The database that an image opens to under a key, or the reason for
/// which it does not open in the given mode: each mode asks for its own
/// index.
pub open spec fn opened(data: Seq<u8>, key: Seq<char>, mode: SearchMode) -> Result<
    Database,
    CzdbError,
> {
    match header_parsed(data, key) {
        Err(e) => Err(e),
        Ok((_, start_offset)) => if data.len() < start_offset + 17 {
            Err(CzdbError::InvalidFormat)
        } else {
            let start = start_offset as int;
            let t = if data[start] & 1 == 0 {
                IpType::Ipv4
            } else {
                IpType::Ipv6
            };
            let index_start = le_u32(data.subrange(start + 5, start + 9));
            let header_block_size = le_u32(data.subrange(start + 9, start + 13));
            let index_end = le_u32(data.subrange(start + 13, start + 17));
            match column_dictionary(data, key, start_offset, index_end, t) {
                Err(e) => Err(e),
                Ok((mask, dict)) => {
                    let db = Database {
                        data,
                        start_offset,
                        ip_type: t,
                        index_start,
                        index_end,
                        header_block_size,
                        column_mask: mask,
                        column_dict: dict,
                    };
                    let valid = match mode {
                        SearchMode::Memory => db.memory_index_valid(),
                        SearchMode::BTree => db.directory_valid(),
                    };
                    if valid {
                        Ok(db)
                    } else {
                        Err(CzdbError::InvalidFormat)
                    }
                },
            }
        },
    }
}

} // verus!
