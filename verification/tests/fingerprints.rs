use dir_diff::{fingerprint, hash_file, ContentHasher, FINGERPRINT_SEED, UNREADABLE_FINGERPRINT};
use std::hash::Hasher;

fn streamed(chunks: &[&[u8]]) -> u64 {
    let mut hasher = ContentHasher::new();
    for chunk in chunks {
        assert!(hasher.update(chunk));
    }
    hasher.finish()
}

#[test]
fn fingerprint_of_no_bytes() {
    assert_eq!(fingerprint(&[]), 0xef46_db37_51d8_e999);
    assert_eq!(ContentHasher::new().finish(), 0xef46_db37_51d8_e999);
}

#[test]
fn fingerprint_of_a_single_byte() {
    assert_eq!(fingerprint(&[42]), 0x0a9e_dece_beb0_3ae4);
}

#[test]
fn fingerprint_of_a_short_text() {
    assert_eq!(fingerprint(b"Hello, world!\0"), 0x7b06_c531_ea43_e89f);
}

#[test]
fn fingerprint_of_more_than_one_block() {
    let bytes: Vec<u8> = (0..100).collect();
    assert_eq!(fingerprint(&bytes), 0x6ac1_e580_3216_6597);
}

#[test]
fn fingerprint_differs_with_content() {
    assert_ne!(fingerprint(b"abc"), fingerprint(b"abd"));
    assert_ne!(fingerprint(b"abc"), fingerprint(b""));
    assert_ne!(fingerprint(b"abc"), fingerprint(b"abcabc"));
}

#[test]
fn same_bytes_give_the_same_fingerprint() {
    let bytes: Vec<u8> = (0..=255).cycle().take(10_000).collect();
    assert_eq!(fingerprint(&bytes), fingerprint(&bytes.clone()));
}

#[test]
fn chunking_does_not_change_the_fingerprint() {
    let bytes: Vec<u8> = (0..100).collect();
    let whole = fingerprint(&bytes);
    assert_eq!(whole, 0x6ac1_e580_3216_6597);
    assert_eq!(streamed(&[&bytes[..1], &bytes[1..]]), whole);
    assert_eq!(streamed(&[&bytes[..31], &bytes[31..33], &bytes[33..]]), whole);
    assert_eq!(streamed(&[&bytes[..32], &bytes[32..64], &bytes[64..]]), whole);
    assert_eq!(streamed(&[&bytes[..], &[]]), whole);
    assert_eq!(streamed(&[&[], &bytes[..50], &[], &bytes[50..]]), whole);
    let mut hasher = ContentHasher::new();
    for byte in &bytes {
        assert!(hasher.update(&[*byte]));
    }
    assert_eq!(hasher.finish(), whole);
}

#[test]
fn finish_can_be_asked_more_than_once() {
    let mut hasher = ContentHasher::new();
    assert!(hasher.update(b"Hello, "));
    let early = hasher.finish();
    assert_eq!(early, hasher.finish());
    assert_eq!(early, fingerprint(b"Hello, "));
    assert!(hasher.update(b"world!\0"));
    assert_eq!(hasher.finish(), 0x7b06_c531_ea43_e89f);
}

#[test]
fn fingerprint_is_that_of_the_hash_crate_with_the_fixed_seed() {
    assert_eq!(FINGERPRINT_SEED, 0);
    let bytes = b"the quick brown fox jumps over the lazy dog, twice over";
    let mut direct = twox_hash::XxHash64::with_seed(0);
    direct.write(bytes);
    assert_eq!(fingerprint(bytes), direct.finish());
    let mut seeded = twox_hash::XxHash64::with_seed(1);
    seeded.write(bytes);
    assert_ne!(fingerprint(bytes), seeded.finish());
}

#[test]
fn unreadable_file_gets_the_sentinel() {
    assert_eq!(UNREADABLE_FINGERPRINT, 0);
    assert_eq!(hash_file(None), 0);
}

#[test]
fn readable_file_gets_the_fingerprint_of_its_bytes() {
    let mut hasher = ContentHasher::new();
    assert!(hasher.update(b"Hello, "));
    assert!(hasher.update(b"world!\0"));
    assert_eq!(hash_file(Some(hasher)), 0x7b06_c531_ea43_e89f);
    assert_eq!(hash_file(Some(ContentHasher::new())), 0xef46_db37_51d8_e999);
}
