//! The two ciphers of the format: AES-128 in ECB mode over the metadata
//! block, and a repeating-key XOR over the column dictionary.

use aes::cipher::generic_array::GenericArray;
use aes::cipher::{BlockDecrypt, KeyInit};
use base64::Engine;
use vstd::prelude::*;

verus! {

/// Why a key or a ciphertext was refused.
#[derive(Debug, Clone, Copy, PartialEq, Eq, Structural)]
pub enum DecryptError {
    /// The key text is not standard base64.
    Base64Error,
    /// The key text decodes to something other than 16 bytes.
    InvalidKeyLength,
    /// Kept for callers that match on it; nothing here returns it.
    DecryptionError,
}

impl DecryptError {
    /// The message shown for this error.
    pub fn message(&self) -> (r: &'static str)
        ensures
            r@ == match *self {
                DecryptError::Base64Error => "Base64 decode error"@,
                DecryptError::InvalidKeyLength => "Invalid key length"@,
                DecryptError::DecryptionError => "Decryption error"@,
            },
    {
        match self {
            DecryptError::Base64Error => "Base64 decode error",
            DecryptError::InvalidKeyLength => "Invalid key length",
            DecryptError::DecryptionError => "Decryption error",
        }
    }
}

/// `base64::DecodeError`, the reason for which a text is refused. It is
/// carried from the decoder to the place that turns it into
/// `DecryptError::Base64Error`; nothing is read from it.
#[verifier::external_type_specification]
#[verifier::external_body]
pub struct ExDecodeError(base64::DecodeError);

/// What the standard base64 alphabet with padding makes of a text: the
/// bytes it spells, or nothing where the text is not valid base64.
pub uninterp spec fn base64_decoded(text: Seq<char>) -> Option<Seq<u8>>;

/// One AES-128 block of 16 bytes, decrypted under a 16-byte key.
pub uninterp spec fn aes128_block_decrypted(key: Seq<u8>, block: Seq<u8>) -> Seq<u8>;

/// `Engine::decode` of `base64::engine::general_purpose::STANDARD`. The
/// outcome depends on the text alone; it is not proved here, only named.
#[verifier::external_body]
fn base64_decode(text: &str) -> (r: Result<Vec<u8>, base64::DecodeError>)
    ensures
        match r {
            Ok(bytes) => base64_decoded(text@) == Some(bytes@),
            Err(_) => base64_decoded(text@) is None,
        },
{
    base64::engine::general_purpose::STANDARD.decode(text)
}

/// `Aes128::new` followed by `BlockDecrypt::decrypt_block` on the 16 bytes
/// of `data` that start at `at`. The block is replaced in place by what the
/// cipher makes of it; the rest of `data` is untouched.
#[verifier::external_body]
fn aes128_decrypt_block_at(key: &[u8], data: &mut Vec<u8>, at: usize)
    requires
        key@.len() == 16,
        at + 16 <= old(data)@.len(),
    ensures
        final(data)@.len() == old(data)@.len(),
        final(data)@ == old(data)@.subrange(0, at as int) + aes128_block_decrypted(
            key@,
            old(data)@.subrange(at as int, at + 16),
        ) + old(data)@.subrange(at + 16, old(data)@.len() as int),
{
    let cipher = aes::Aes128::new(GenericArray::from_slice(key));
    cipher.decrypt_block(GenericArray::from_mut_slice(&mut data[at..at + 16]));
}

/// ECB decryption of `data` under `key`: every whole 16-byte block is
/// decrypted on its own, and a shorter tail is left as it is.
pub open spec fn ecb_decrypted(key: Seq<u8>, data: Seq<u8>) -> Seq<u8> {
    Seq::new(
        data.len(),
        |i: int|
            if (i / 16) * 16 + 16 <= data.len() {
                aes128_block_decrypted(key, data.subrange((i / 16) * 16, (i / 16) * 16 + 16))[i
                    % 16]
            } else {
                data[i]
            },
    )
}

/// The number of trailing bytes that form a PKCS#7 padding of `s`, or 0
/// where the last byte is not a valid padding length or the padding bytes
/// disagree with it.
pub open spec fn pkcs7_pad_len(s: Seq<u8>) -> nat {
    if s.len() == 0 {
        0
    } else {
        let p = s.last() as nat;
        if 1 <= p <= 16 && p <= s.len() && (forall|j: int|
            s.len() - p <= j < s.len() ==> s[j] == s.last()) {
            p
        } else {
            0
        }
    }
}

/// `s` without its PKCS#7 padding; `s` itself where the padding is not valid.
pub open spec fn pkcs7_stripped(s: Seq<u8>) -> Seq<u8> {
    s.take(s.len() - pkcs7_pad_len(s))
}

/// The plaintext of `data` under the key that `key` spells in base64.
pub open spec fn aes_ecb_plaintext(key: Seq<char>, data: Seq<u8>) -> Result<Seq<u8>, DecryptError> {
    match base64_decoded(key) {
        None => Err(DecryptError::Base64Error),
        Some(k) => if k.len() != 16 {
            Err(DecryptError::InvalidKeyLength)
        } else {
            Ok(pkcs7_stripped(ecb_decrypted(k, data)))
        },
    }
}

/// Repeating-key XOR with a window of 16 key bytes. An empty key changes
/// nothing.
pub open spec fn xor_applied(key: Seq<u8>, data: Seq<u8>) -> Seq<u8> {
    if key.len() == 0 {
        data
    } else {
        Seq::new(data.len(), |i: int| data[i] ^ key[i % 16])
    }
}

/// Whether `key` holds a byte for every position of the 16-byte window
/// that `n` bytes of data reach.
pub open spec fn xor_key_covers(key: Seq<u8>, n: nat) -> bool {
    key.len() == 0 || key.len() >= 16 || n <= key.len()
}

/// Decodes a base64 key text into its bytes.
pub fn decode_key(key: &str) -> (r: Result<Vec<u8>, DecryptError>)
    ensures
        match r {
            Ok(bytes) => base64_decoded(key@) == Some(bytes@),
            Err(e) => e == DecryptError::Base64Error && base64_decoded(key@) is None,
        },
{
    match base64_decode(key) {
        Ok(bytes) => Ok(bytes),
        Err(_) => Err(DecryptError::Base64Error),
    }
}

/// Decrypts every whole 16-byte block of `data` in place.
pub fn decrypt_ecb_blocks(key: &[u8], data: &mut Vec<u8>)
    requires
        key@.len() == 16,
    ensures
        final(data)@ == ecb_decrypted(key@, old(data)@),
{
    let n = data.len();
    let mut at: usize = 0;
    while n - at >= 16
        invariant
            key@.len() == 16,
            at <= n,
            at % 16 == 0,
            n == old(data)@.len(),
            data@.len() == n,
            forall|i: int| 0 <= i < at ==> data@[i] == ecb_decrypted(key@, old(data)@)[i],
            forall|i: int| at <= i < n ==> data@[i] == old(data)@[i],
        decreases n - at,
    {
        let ghost before = data@;
        aes128_decrypt_block_at(key, data, at);
        proof {
            assert(before.subrange(at as int, at + 16) =~= old(data)@.subrange(
                at as int,
                at + 16,
            ));
            assert forall|i: int| 0 <= i < at + 16 implies data@[i] == ecb_decrypted(
                key@,
                old(data)@,
            )[i] by {
                if i >= at {
                    assert(i / 16 == at as int / 16 && (i / 16) * 16 == at && i % 16 == i - at);
                }
            }
        }
        at = at + 16;
    }
    proof {
        assert forall|i: int| at <= i < n implies data@[i] == ecb_decrypted(key@, old(data)@)[i] by {
            assert((i / 16) * 16 >= at);
        }
        assert(data@ =~= ecb_decrypted(key@, old(data)@));
    }
}

/// Removes a valid PKCS#7 padding from the end of `data`; leaves `data` as
/// it is where the padding is not valid.
pub fn strip_pkcs7(data: &mut Vec<u8>)
    ensures
        final(data)@ == pkcs7_stripped(old(data)@),
{
    let n = data.len();
    if n == 0 {
        assert(data@ =~= pkcs7_stripped(data@));
        return ;
    }
    let pad = data[n - 1];
    let p = pad as usize;
    if p == 0 || p > 16 || p > n {
        assert(data@ =~= pkcs7_stripped(data@));
        return ;
    }
    let mut j: usize = n - p;
    while j < n
        invariant
            n - p <= j <= n,
            p <= n,
            n == data@.len(),
            pad == data@.last(),
            p == pad,
            data@ == old(data)@,
            forall|i: int| n - p <= i < j ==> data@[i] == pad,
        decreases n - j,
    {
        if data[j] != pad {
            assert(data@[j as int] != data@.last());
            assert(data@ =~= pkcs7_stripped(data@));
            return ;
        }
        j = j + 1;
    }
    assert(pkcs7_pad_len(data@) == p);
    data.truncate(n - p);
    assert(data@ =~= pkcs7_stripped(old(data)@));
}

/// AES-128-ECB decryption with the key given as base64 text, followed by
/// the removal of a valid PKCS#7 padding.
pub fn decrypt_aes_ecb(key: &str, data: &[u8]) -> (r: Result<Vec<u8>, DecryptError>)
    ensures
        match r {
            Ok(plain) => aes_ecb_plaintext(key@, data@) == Ok::<Seq<u8>, DecryptError>(plain@),
            Err(e) => aes_ecb_plaintext(key@, data@) == Err::<Seq<u8>, DecryptError>(e),
        },
{
    let key_bytes = match decode_key(key) {
        Ok(bytes) => bytes,
        Err(e) => {
            return Err(e);
        },
    };
    if key_bytes.len() != 16 {
        return Err(DecryptError::InvalidKeyLength);
    }
    let mut plain = vstd::slice::slice_to_vec(data);
    decrypt_ecb_blocks(key_bytes.as_slice(), &mut plain);
    strip_pkcs7(&mut plain);
    Ok(plain)
}

/// XORs `data` in place with the 16-byte window of `key`.
pub fn xor_in_place(key: &[u8], data: &mut [u8])
    requires
        xor_key_covers(key@, old(data)@.len()),
    ensures
        final(data)@ == xor_applied(key@, old(data)@),
{
    if key.len() == 0 {
        return ;
    }
    let n = data.len();
    let mut i: usize = 0;
    while i < n
        invariant
            i <= n,
            n == data@.len(),
            n == old(data)@.len(),
            key@.len() > 0,
            xor_key_covers(key@, n as nat),
            forall|j: int| 0 <= j < i ==> data@[j] == old(data)@[j] ^ key@[j % 16],
            forall|j: int| i <= j < n ==> data@[j] == old(data)@[j],
        decreases n - i,
    {
        let b = data[i] ^ key[i % 16];
        data[i] = b;
        i = i + 1;
    }
    assert(data@ =~= xor_applied(key@, old(data)@));
}

/// XOR decryption with the key given as base64 text.
///
/// The key must cover the window over `data`: it is empty, or at least 16
/// bytes long, or no shorter than `data`.
pub fn decrypt_xor(key: &str, data: &mut [u8]) -> (r: Result<(), DecryptError>)
    requires
        base64_decoded(key@) matches Some(k) ==> xor_key_covers(k, old(data)@.len()),
    ensures
        match base64_decoded(key@) {
            Some(k) => r == Ok::<(), DecryptError>(()) && final(data)@ == xor_applied(
                k,
                old(data)@,
            ),
            None => r == Err::<(), DecryptError>(DecryptError::Base64Error) && final(data)@
                == old(data)@,
        },
{
    let key_bytes = match decode_key(key) {
        Ok(bytes) => bytes,
        Err(e) => {
            return Err(e);
        },
    };
    xor_in_place(key_bytes.as_slice(), data);
    Ok(())
}

} // verus!
