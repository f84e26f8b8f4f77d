use base64::Engine;
use czdb_rs::bytes::{be_u128, be_u32, le_u32_at};
use czdb_rs::decrypt::{
    decode_key, decrypt_aes_ecb, decrypt_ecb_blocks, decrypt_xor, strip_pkcs7, xor_in_place, DecryptError,
};

fn b64(bytes: &[u8]) -> String {
    base64::engine::general_purpose::STANDARD.encode(bytes)
}

const FIPS_KEY: [u8; 16] = [
    0x00, 0x01, 0x02, 0x03, 0x04, 0x05, 0x06, 0x07, 0x08, 0x09, 0x0a, 0x0b, 0x0c, 0x0d, 0x0e, 0x0f,
];
const FIPS_PLAIN: [u8; 16] = [
    0x00, 0x11, 0x22, 0x33, 0x44, 0x55, 0x66, 0x77, 0x88, 0x99, 0xaa, 0xbb, 0xcc, 0xdd, 0xee, 0xff,
];
const FIPS_CIPHER: [u8; 16] = [
    0x69, 0xc4, 0xe0, 0xd8, 0x6a, 0x7b, 0x04, 0x30, 0xd8, 0xcd, 0xb7, 0x80, 0x70, 0xb4, 0xc5, 0x5a,
];

#[test]
fn little_endian_words_are_read_at_an_offset() {
    let buf = [0xffu8, 0x78, 0x56, 0x34, 0x12, 0xff];
    assert_eq!(le_u32_at(&buf, 1), 0x1234_5678);
    assert_eq!(le_u32_at(&buf, 0), 0x3456_78ff);
    assert_eq!(le_u32_at(&[0, 0, 0, 0x80], 0), 0x8000_0000);
    assert_eq!(le_u32_at(&[0xff; 4], 0), u32::MAX);
}

#[test]
fn big_endian_addresses_are_read_at_an_offset() {
    let buf = [0u8, 8, 8, 4, 4, 1];
    assert_eq!(be_u32(&buf, 1), 0x0808_0404);
    assert_eq!(be_u32(&[0xff; 4], 0), u32::MAX);
    let mut long = [0u8; 18];
    long[1] = 0x20;
    long[2] = 0x01;
    long[16] = 0x88;
    long[17] = 0x01;
    assert_eq!(be_u128(&long, 2), (0x01u128 << 120) | 0x8801);
    assert_eq!(be_u128(&long, 1), (0x2001u128 << 112) | 0x88);
    assert_eq!(be_u128(&long, 0), (0x20u128 << 112) | (0x01u128 << 104));
    assert_eq!(be_u128(&[0xff; 16], 0), u128::MAX);
}

#[test]
fn key_text_is_decoded_from_base64() {
    assert_eq!(decode_key("AAECAw=="), Ok(vec![0, 1, 2, 3]));
    assert_eq!(decode_key(""), Ok(vec![]));
    assert_eq!(decode_key(&b64(&FIPS_KEY)), Ok(FIPS_KEY.to_vec()));
    assert_eq!(decode_key("AAECAw"), Err(DecryptError::Base64Error));
    assert_eq!(decode_key("@@@@"), Err(DecryptError::Base64Error));
}

#[test]
fn aes_block_is_decrypted() {
    let mut data = FIPS_CIPHER.to_vec();
    decrypt_ecb_blocks(&FIPS_KEY, &mut data);
    assert_eq!(data, FIPS_PLAIN.to_vec());
}

#[test]
fn blocks_are_decrypted_one_by_one_and_a_short_tail_is_kept() {
    let mut data = FIPS_CIPHER.to_vec();
    data.extend_from_slice(&FIPS_CIPHER);
    data.extend_from_slice(&[1, 2, 3]);
    decrypt_ecb_blocks(&FIPS_KEY, &mut data);
    let mut expected = FIPS_PLAIN.to_vec();
    expected.extend_from_slice(&FIPS_PLAIN);
    expected.extend_from_slice(&[1, 2, 3]);
    assert_eq!(data, expected);
    let mut short = vec![9u8; 15];
    decrypt_ecb_blocks(&FIPS_KEY, &mut short);
    assert_eq!(short, vec![9u8; 15]);
    let mut empty: Vec<u8> = vec![];
    decrypt_ecb_blocks(&FIPS_KEY, &mut empty);
    assert!(empty.is_empty());
}

#[test]
fn valid_padding_is_stripped() {
    let mut data = vec![7u8, 7, 3, 3, 3];
    strip_pkcs7(&mut data);
    assert_eq!(data, vec![7u8, 7]);
    let mut data = vec![9u8, 1];
    strip_pkcs7(&mut data);
    assert_eq!(data, vec![9u8]);
    let mut data = vec![16u8; 16];
    strip_pkcs7(&mut data);
    assert!(data.is_empty());
    let mut data = vec![16u8; 20];
    strip_pkcs7(&mut data);
    assert_eq!(data, vec![16u8; 4]);
}

#[test]
fn invalid_padding_is_left_in_place() {
    for case in [
        vec![1u8, 2, 0],
        vec![1u8, 2, 17],
        vec![5u8, 5, 5],
        vec![1u8, 4, 3, 3],
        vec![2u8, 3, 3, 3, 1, 3, 3],
        vec![200u8],
    ] {
        let mut data = case.clone();
        strip_pkcs7(&mut data);
        assert_eq!(data, case);
    }
    let mut data: Vec<u8> = vec![];
    strip_pkcs7(&mut data);
    assert!(data.is_empty());
    let mut data = vec![17u8; 17];
    strip_pkcs7(&mut data);
    assert_eq!(data, vec![17u8; 17]);
}

#[test]
fn ecb_decryption_takes_the_key_as_text() {
    let plain = decrypt_aes_ecb(&b64(&FIPS_KEY), &FIPS_CIPHER);
    assert_eq!(plain, Ok(FIPS_PLAIN.to_vec()));
    assert_eq!(decrypt_aes_ecb(&b64(&FIPS_KEY), &[]), Ok(vec![]));
    assert_eq!(decrypt_aes_ecb(&b64(&FIPS_KEY), &[4, 4, 4, 4]), Ok(vec![]));
    assert_eq!(decrypt_aes_ecb(&b64(&FIPS_KEY), &[1, 2, 3]), Ok(vec![1, 2, 3]));
}

#[test]
fn ecb_decryption_refuses_bad_keys() {
    assert_eq!(decrypt_aes_ecb("%%%", &FIPS_CIPHER), Err(DecryptError::Base64Error));
    assert_eq!(decrypt_aes_ecb(&b64(&[1u8; 15]), &FIPS_CIPHER), Err(DecryptError::InvalidKeyLength));
    assert_eq!(decrypt_aes_ecb(&b64(&[1u8; 17]), &FIPS_CIPHER), Err(DecryptError::InvalidKeyLength));
    assert_eq!(decrypt_aes_ecb("", &FIPS_CIPHER), Err(DecryptError::InvalidKeyLength));
}

#[test]
fn xor_repeats_a_window_of_sixteen_key_bytes() {
    let key: Vec<u8> = (1..=16).collect();
    let mut data = vec![0u8; 35];
    xor_in_place(&key, &mut data);
    for (i, b) in data.iter().enumerate() {
        assert_eq!(*b, key[i % 16]);
    }
    xor_in_place(&key, &mut data);
    assert_eq!(data, vec![0u8; 35]);
}

#[test]
fn xor_uses_only_the_first_sixteen_bytes_of_a_longer_key() {
    let key: Vec<u8> = (1..=20).collect();
    let mut data = vec![0xf0u8; 40];
    xor_in_place(&key, &mut data);
    for (i, b) in data.iter().enumerate() {
        assert_eq!(*b, 0xf0 ^ key[i % 16]);
    }
}

#[test]
fn xor_with_an_empty_key_changes_nothing() {
    let mut data = vec![1u8, 2, 3];
    xor_in_place(&[], &mut data);
    assert_eq!(data, vec![1u8, 2, 3]);
    assert_eq!(decrypt_xor("", &mut data), Ok(()));
    assert_eq!(data, vec![1u8, 2, 3]);
}

#[test]
fn xor_with_a_short_key_covers_short_data() {
    let mut data = vec![0xffu8, 0xff, 0xff];
    xor_in_place(&[1, 2, 3, 4], &mut data);
    assert_eq!(data, vec![0xfeu8, 0xfd, 0xfc]);
}

#[test]
fn xor_decryption_takes_the_key_as_text() {
    let key: Vec<u8> = (100..116).collect();
    let mut data: Vec<u8> = (0..50).collect();
    assert_eq!(decrypt_xor(&b64(&key), &mut data), Ok(()));
    for (i, b) in data.iter().enumerate() {
        assert_eq!(*b, i as u8 ^ key[i % 16]);
    }
}

#[test]
fn xor_with_undecodable_key_is_rejected() {
    let mut data = vec![1u8, 2, 3];
    let r = decrypt_xor("***", &mut data);
    assert_eq!(r, Err(DecryptError::Base64Error));
    assert_eq!(data, vec![1u8, 2, 3]);
}
