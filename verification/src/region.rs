//! The region of a record: a row of the column dictionary, cut down to
//! the selected columns, followed by the record's own text.

use crate::format::Database;
use crate::msgpack::{array_header, int_read, str_header, utf8_lossy};
use crate::searcher::CzdbError;
use vstd::prelude::*;

verus! {

/// The answer for an address that no record covers.
pub open spec fn unknown() -> Seq<char> {
    "Unknown"@
}

/// The length of the dictionary row that a record's first integer names:
/// its bits 24 to 31.
pub open spec fn geo_len(geo: u64) -> nat {
    ((geo >> 24) & 0xFF) as nat
}

/// The offset of the dictionary row that a record's first integer names:
/// its low 24 bits.
pub open spec fn geo_offset(geo: u64) -> nat {
    (geo & 0x00FF_FFFF) as nat
}

/// Whether the mask selects column `i` of a row: bit `i + 1` of the mask.
pub open spec fn column_selected(mask: u32, i: nat) -> bool {
    i < 31 && (mask >> ((i + 1) as u32)) & 1 == 1
}

/// `acc` with the selected columns among columns `i` to `n - 1` of `row`
/// appended, a TAB between any two of them. The header of column `i`
/// stands at `pos`; `first` says that no column has been appended yet.
pub open spec fn columns_appended(
    row: Seq<u8>,
    mask: u32,
    i: nat,
    n: nat,
    pos: nat,
    first: bool,
    acc: Seq<char>,
) -> Result<Seq<char>, CzdbError>
    decreases n - i,
{
    if i >= n {
        Ok(acc)
    } else {
        match str_header(row, pos) {
            None => Err(CzdbError::MsgpackError),
            Some((len, at)) => if at + len > row.len() {
                Err(CzdbError::InvalidFormat)
            } else if column_selected(mask, i) {
                let sep = if first {
                    acc
                } else {
                    acc.push('\t')
                };
                columns_appended(
                    row,
                    mask,
                    i + 1,
                    n,
                    (at + len) as nat,
                    false,
                    sep + utf8_lossy(row.subrange(at as int, (at + len) as int)),
                )
            } else {
                columns_appended(row, mask, i + 1, n, (at + len) as nat, first, acc)
            },
        }
    }
}

/// `acc` with the selected columns of the dictionary row at `ptr` of
/// length `len` appended.
pub open spec fn geo_appended(dict: Seq<u8>, mask: u32, ptr: nat, len: nat, acc: Seq<char>) -> Result<
    Seq<char>,
    CzdbError,
> {
    if ptr + len > dict.len() {
        Err(CzdbError::InvalidFormat)
    } else {
        let row = dict.subrange(ptr as int, (ptr + len) as int);
        match array_header(row) {
            None => Err(CzdbError::MsgpackError),
            Some((n, pos)) => columns_appended(row, mask, 0, n as nat, pos, true, acc),
        }
    }
}

/// The text of the MessagePack string whose header stands at `pos` in
/// `rec`; empty where no string stands there or it runs past `rec`.
pub open spec fn other_text(rec: Seq<u8>, pos: nat) -> Seq<char> {
    match str_header(rec, pos) {
        Some((len, at)) => if at + len <= rec.len() {
            utf8_lossy(rec.subrange(at as int, (at + len) as int))
        } else {
            Seq::empty()
        },
        None => Seq::empty(),
    }
}

/// The region text of a record whose bytes are `rec`: the selected
/// columns of the dictionary row that the record's first integer names,
/// where that integer is not zero and a dictionary is loaded, and behind
/// them the text of the string that follows the integer. An integer that
/// is absent counts as zero.
pub open spec fn record_text(rec: Seq<u8>, mask: u32, dict: Option<Seq<u8>>) -> Result<
    Seq<char>,
    CzdbError,
> {
    let (value, pos) = int_read(rec);
    let geo = match value {
        Some(v) => v,
        None => 0u64,
    };
    let prefix = match dict {
        Some(d) if geo != 0 => geo_appended(d, mask, geo_offset(geo), geo_len(geo), Seq::empty()),
        _ => Ok(Seq::empty()),
    };
    match prefix {
        Err(e) => Err(e),
        Ok(text) => Ok(text + other_text(rec, pos)),
    }
}

impl Database {
    /// The region text that stands at `ptr`, relative to the super block,
    /// in `len` bytes.
    pub open spec fn region_text(self, ptr: nat, len: nat) -> Result<Seq<char>, CzdbError> {
        let off = self.start_offset + ptr;
        if off + len > self.data.len() {
            Err(CzdbError::InvalidFormat)
        } else {
            record_text(self.data.subrange(off as int, (off + len) as int), self.column_mask, self.column_dict)
        }
    }
}

} // verus!
