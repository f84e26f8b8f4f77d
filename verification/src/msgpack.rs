//! The MessagePack primitives that region records and dictionary rows are
//! made of, and the lenient UTF-8 decoding of their strings.

use crate::bytes::{be_value, pow256};
use vstd::utf8::{decode_utf8, valid_utf8};
use std::io::Cursor;
use vstd::prelude::*;

verus! {

/// The number of data bytes behind the marker of a MessagePack integer:
/// none behind a marker up to 0x7f or from 0xe0 on, which is the integer
/// itself, and 1, 2, 4 or 8 behind the markers 0xcc to 0xcf of the
/// unsigned and 0xd0 to 0xd3 of the signed integers. There is none for
/// the marker of anything else.
pub open spec fn int_width(marker: u8) -> Option<nat> {
    if marker <= 0x7f || marker >= 0xe0 {
        Some(0)
    } else if marker == 0xcc || marker == 0xd0 {
        Some(1)
    } else if marker == 0xcd || marker == 0xd1 {
        Some(2)
    } else if marker == 0xce || marker == 0xd2 {
        Some(4)
    } else if marker == 0xcf || marker == 0xd3 {
        Some(8)
    } else {
        None
    }
}

/// The integer that the marker of a MessagePack integer and the data
/// bytes behind it spell: a marker up to 0x7f is the integer, a marker
/// from 0xe0 on is the integer from -32 to -1 with that low byte; the
/// data bytes are big-endian, unsigned behind the markers up to 0xcf and
/// in two's complement behind the others.
pub open spec fn int_value(marker: u8, data: Seq<u8>) -> int {
    if marker <= 0x7f {
        marker as int
    } else if marker >= 0xe0 {
        marker - 0x100
    } else if marker <= 0xcf || 2 * be_value(data) < pow256(data.len()) {
        be_value(data) as int
    } else {
        be_value(data) - pow256(data.len())
    }
}

/// Where the reader stands after it has met the marker of an integer
/// whose data bytes run past the end of `bytes`.
pub uninterp spec fn cut_int_position(bytes: Seq<u8>) -> nat;

/// Whether `bytes` start with the marker of an integer whose data bytes
/// run past their end.
pub open spec fn int_is_cut(bytes: Seq<u8>) -> bool {
    bytes.len() > 0 && (int_width(bytes[0]) matches Some(w) && 1 + w > bytes.len())
}

/// What reading a MessagePack integer as an unsigned number of 64 bits
/// makes of `bytes` from their start: the integer, or nothing where the
/// bytes hold no integer or a negative one, and in either case where the
/// reader stands afterwards: behind what it read, and at the start where
/// `bytes` are empty.
pub open spec fn int_read(bytes: Seq<u8>) -> (Option<u64>, nat) {
    if bytes.len() == 0 {
        (None, 0)
    } else {
        match int_width(bytes[0]) {
            None => (None, 1),
            Some(w) => if 1 + w > bytes.len() {
                (None, cut_int_position(bytes))
            } else {
                let v = int_value(bytes[0], bytes.subrange(1, 1 + w as int));
                (
                    if 0 <= v <= 0xffff_ffff_ffff_ffff {
                        Some(v as u64)
                    } else {
                        None
                    },
                    1 + w,
                )
            },
        }
    }
}

/// The MessagePack string header that stands at `pos` in `bytes`: the
/// length of the string and where its first byte stands. The length is
/// the low five bits of a marker from 0xa0 to 0xbf, or the one, two or
/// four big-endian bytes behind the marker 0xd9, 0xda or 0xdb. There is
/// none where another marker stands at `pos`, or the header does not lie
/// whole in `bytes`.
pub open spec fn str_header(bytes: Seq<u8>, pos: nat) -> Option<(u32, nat)> {
    let p = pos as int;
    if p >= bytes.len() {
        None
    } else if 0xa0 <= bytes[p] <= 0xbf {
        Some(((bytes[p] - 0xa0) as u32, pos + 1))
    } else if bytes[p] == 0xd9 && p + 2 <= bytes.len() {
        Some((bytes[p + 1] as u32, pos + 2))
    } else if bytes[p] == 0xda && p + 3 <= bytes.len() {
        Some((be_value(bytes.subrange(p + 1, p + 3)) as u32, pos + 3))
    } else if bytes[p] == 0xdb && p + 5 <= bytes.len() {
        Some((be_value(bytes.subrange(p + 1, p + 5)) as u32, pos + 5))
    } else {
        None
    }
}

/// The MessagePack array header at the start of `bytes`: the number of
/// elements and where the first one stands. The number is the low four
/// bits of a marker from 0x90 to 0x9f, or the two or four big-endian
/// bytes behind the marker 0xdc or 0xdd. There is none where `bytes`
/// start with another marker, or the header does not lie whole in
/// `bytes`.
pub open spec fn array_header(bytes: Seq<u8>) -> Option<(u32, nat)> {
    if bytes.len() == 0 {
        None
    } else if 0x90 <= bytes[0] <= 0x9f {
        Some(((bytes[0] - 0x90) as u32, 1))
    } else if bytes[0] == 0xdc && 3 <= bytes.len() {
        Some((be_value(bytes.subrange(1, 3)) as u32, 3))
    } else if bytes[0] == 0xdd && 5 <= bytes.len() {
        Some((be_value(bytes.subrange(1, 5)) as u32, 5))
    } else {
        None
    }
}

/// The text that `bytes` spell in UTF-8, with U+FFFD in place of what is
/// not valid UTF-8.
pub uninterp spec fn utf8_lossy(bytes: Seq<u8>) -> Seq<char>;

/// `rmp::decode::read_int::<u64, _>` on a cursor over `buf`, and the
/// cursor's position afterwards. The contract states the integers of
/// MessagePack and the range of a `u64`, which every integer but a
/// negative one fits; a marker of anything else is read and refused.
/// Where the cursor stands after an integer that is cut short is left to
/// the reader: that position is named, not stated.
#[verifier::external_body]
pub(crate) fn read_int(buf: &[u8]) -> (r: (Option<u64>, usize))
    ensures
        (r.0, r.1 as nat) == int_read(buf@),
        int_is_cut(buf@) ==> r.1 == cut_int_position(buf@),
{
    let mut cur = Cursor::new(buf);
    let value = rmp::decode::read_int::<u64, _>(&mut cur).ok();
    (value, cur.position() as usize)
}

/// `rmp::decode::read_str_len` on a cursor over `buf` that stands at
/// `pos`: on success the length and the cursor's position afterwards. The
/// contract states the string headers of MessagePack; it fails on any
/// other marker and where the cursor runs out of bytes.
#[verifier::external_body]
pub(crate) fn read_str_len(buf: &[u8], pos: usize) -> (r: Option<(u32, usize)>)
    ensures
        match r {
            Some((len, next)) => str_header(buf@, pos as nat) == Some((len, next as nat)),
            None => str_header(buf@, pos as nat) is None,
        },
{
    let mut cur = Cursor::new(buf);
    cur.set_position(pos as u64);
    match rmp::decode::read_str_len(&mut cur) {
        Ok(len) => Some((len, cur.position() as usize)),
        Err(_) => None,
    }
}

/// `rmp::decode::read_array_len` on a cursor over `buf`: on success the
/// element count and the cursor's position afterwards. The contract
/// states the array headers of MessagePack; it fails on any other marker
/// and where the cursor runs out of bytes.
#[verifier::external_body]
pub(crate) fn read_array_len(buf: &[u8]) -> (r: Option<(u32, usize)>)
    ensures
        match r {
            Some((len, next)) => array_header(buf@) == Some((len, next as nat)),
            None => array_header(buf@) is None,
        },
{
    let mut cur = Cursor::new(buf);
    match rmp::decode::read_array_len(&mut cur) {
        Ok(len) => Some((len, cur.position() as usize)),
        Err(_) => None,
    }
}

/// `String::from_utf8_lossy`, as an owned string. Of valid UTF-8 it is
/// the text that the bytes encode; what it makes of other bytes depends
/// on the bytes alone and is named, not stated.
#[verifier::external_body]
pub(crate) fn decode_utf8_lossy(bytes: &[u8]) -> (r: String)
    ensures
        r@ == utf8_lossy(bytes@),
        valid_utf8(bytes@) ==> r@ == decode_utf8(bytes@),
{
    String::from_utf8_lossy(bytes).into_owned()
}

} // verus!
