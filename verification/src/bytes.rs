//! Integers as they are laid out in a database image: pointers and sizes
//! little-endian, addresses big-endian.

use byteorder::ByteOrder;
use vstd::prelude::*;
use vstd::slice::slice_subrange;

verus! {

/// The number that a byte string spells when read big-endian.
pub open spec fn be_value(s: Seq<u8>) -> nat
    decreases s.len(),
{
    if s.len() == 0 {
        0
    } else {
        be_value(s.drop_last()) * 256 + s.last() as nat
    }
}

/// The number that the first four bytes of `s` spell when read little-endian.
pub open spec fn le_u32(s: Seq<u8>) -> nat {
    s[0] as nat + s[1] as nat * 0x100 + s[2] as nat * 0x1_0000 + s[3] as nat * 0x100_0000
}

/// 256 to the power `n`.
pub open spec fn pow256(n: nat) -> nat
    decreases n,
{
    if n == 0 {
        1
    } else {
        256 * pow256((n - 1) as nat)
    }
}

/// A big-endian number of `n` bytes is below `256^n`.
pub proof fn lemma_be_value_bound(s: Seq<u8>)
    ensures
        be_value(s) < pow256(s.len()),
    decreases s.len(),
{
    if s.len() > 0 {
        lemma_be_value_bound(s.drop_last());
    }
}

pub proof fn lemma_pow256_values()
    ensures
        pow256(4) == 0x1_0000_0000,
        pow256(15) == 0x100_0000_0000_0000_0000_0000_0000_0000,
        pow256(16) == 0x1_0000_0000_0000_0000_0000_0000_0000_0000,
{
    reveal_with_fuel(pow256, 17);
}

pub proof fn lemma_pow256_monotone(a: nat, b: nat)
    requires
        a <= b,
    ensures
        pow256(a) <= pow256(b),
    decreases b,
{
    if a < b {
        lemma_pow256_monotone(a, (b - 1) as nat);
    }
}

/// Of two byte strings of one length, the one with the smaller byte at
/// the first position where they differ spells the smaller number.
pub proof fn lemma_be_value_first_difference(a: Seq<u8>, b: Seq<u8>, i: int)
    requires
        a.len() == b.len(),
        0 <= i < a.len(),
        forall|j: int| 0 <= j < i ==> a[j] == b[j],
        a[i] < b[i],
    ensures
        be_value(a) < be_value(b),
    decreases a.len(),
{
    if i == a.len() - 1 {
        assert(a.drop_last() =~= b.drop_last());
    } else {
        lemma_be_value_first_difference(a.drop_last(), b.drop_last(), i);
    }
}

/// -1, 0 or 1 as `a` is below, equal to or above `b`.
pub open spec fn order_of(a: nat, b: nat) -> int {
    if a < b {
        -1
    } else if a > b {
        1
    } else {
        0
    }
}

/// `byteorder::LittleEndian::read_u32`: the first four bytes of `buf`,
/// read little-endian. It panics on fewer than four bytes, which the
/// precondition leaves out.
#[verifier::external_body]
fn read_u32_le(buf: &[u8]) -> (r: u32)
    requires
        buf@.len() >= 4,
    ensures
        r == le_u32(buf@),
{
    byteorder::LE::read_u32(buf)
}

/// Reads the four bytes at `at` as a little-endian number.
pub fn le_u32_at(buf: &[u8], at: usize) -> (r: u32)
    requires
        at + 4 <= buf.len(),
    ensures
        r == le_u32(buf@.subrange(at as int, at + 4)),
{
    read_u32_le(slice_subrange(buf, at, at + 4))
}

/// Reads the four bytes at `at` as a big-endian number.
pub fn be_u32(buf: &[u8], at: usize) -> (r: u32)
    requires
        at + 4 <= buf.len(),
    ensures
        r == be_value(buf@.subrange(at as int, at + 4)),
{
    let ghost s = buf@.subrange(at as int, at + 4);
    proof {
        reveal_with_fuel(be_value, 5);
        assert(s.drop_last().drop_last().drop_last().drop_last().len() == 0);
        assert(s.last() == buf@[at + 3]);
        assert(s.drop_last().last() == buf@[at + 2]);
        assert(s.drop_last().drop_last().last() == buf@[at + 1]);
        assert(s.drop_last().drop_last().drop_last().last() == buf@[at + 0]);
    }
    let b0: u32 = buf[at] as u32;
    let b1: u32 = buf[at + 1] as u32;
    let b2: u32 = buf[at + 2] as u32;
    let b3: u32 = buf[at + 3] as u32;
    ((b0 * 256 + b1) * 256 + b2) * 256 + b3
}

/// Reads the sixteen bytes at `at` as a big-endian number.
pub fn be_u128(buf: &[u8], at: usize) -> (r: u128)
    requires
        at + 16 <= buf.len(),
    ensures
        r == be_value(buf@.subrange(at as int, at + 16)),
{
    let mut acc: u128 = 0;
    let mut k: usize = 0;
    while k < 16
        invariant
            k <= 16,
            at + 16 <= buf.len(),
            acc == be_value(buf@.subrange(at as int, at + k)),
        decreases 16 - k,
    {
        let ghost prev = buf@.subrange(at as int, at + k);
        let ghost next = buf@.subrange(at as int, at + k + 1);
        proof {
            lemma_be_value_bound(prev);
            lemma_pow256_monotone(k as nat, 15);
            lemma_pow256_values();
            assert(next.drop_last() =~= prev);
            assert(next.last() == buf@[at + k]);
        }
        acc = acc * 256 + buf[at + k] as u128;
        k = k + 1;
    }
    acc
}

} // verus!
