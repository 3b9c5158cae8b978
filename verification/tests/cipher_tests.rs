use arcfour::cipher::apply_cipher;
use arcfour::cipher::key_setup;
use arcfour::cipher::schedule;
use arcfour::cipher::stream_generation;
use arcfour::cipher::CipherError;

fn encrypt(key: &[u8], data: &[u8]) -> Vec<u8> {
    let key: Vec<u8> = key.to_vec();
    let mut s_box = schedule(&key).unwrap();
    let mut buf: Vec<u8> = data.to_vec();
    stream_generation(&mut buf, &mut s_box);
    buf
}

#[test]
fn known_answer() {
    // The published reference vector: key "Key", plaintext "Plaintext".
    let key = [0x4Bu8, 0x65, 0x79];
    let plaintext = [0x50u8, 0x6C, 0x61, 0x69, 0x6E, 0x74, 0x65, 0x78, 0x74];
    let expected = vec![0xBBu8, 0xF3, 0x16, 0xE8, 0xD9, 0x40, 0xAF, 0x0A, 0xD3];
    assert_eq!(encrypt(&key, &plaintext), expected);
}

#[test]
fn known_answer_via_apply_cipher() {
    let key = vec![0x4Bu8, 0x65, 0x79];
    let mut data = vec![0x50u8, 0x6C, 0x61, 0x69, 0x6E, 0x74, 0x65, 0x78, 0x74];
    let expected = vec![0xBBu8, 0xF3, 0x16, 0xE8, 0xD9, 0x40, 0xAF, 0x0A, 0xD3];
    assert_eq!(apply_cipher(&key, &mut data, 0), Ok(()));
    assert_eq!(data, expected);
}

#[test]
fn round_trip() {
    let key = [7u8, 0, 255, 31];
    let original: Vec<u8> = (0u8..=200).collect();
    let ciphertext = encrypt(&key, &original);
    assert_ne!(ciphertext, original);
    let recovered = encrypt(&key, &ciphertext);
    assert_eq!(recovered, original);
}

#[test]
fn empty_buffer_is_untouched() {
    let out = encrypt(&[1u8, 2, 3], &[]);
    assert_eq!(out, Vec::<u8>::new());
    let key = vec![1u8, 2, 3];
    let mut data: Vec<u8> = Vec::new();
    assert_eq!(apply_cipher(&key, &mut data, 0), Ok(()));
    assert_eq!(data, Vec::<u8>::new());
}

#[test]
fn length_is_preserved() {
    for len in [0usize, 1, 2, 17, 255, 256, 1000] {
        let data = vec![0xA5u8; len];
        assert_eq!(encrypt(&[9u8], &data).len(), len);
    }
}

#[test]
fn scheduled_state_is_a_permutation() {
    for key in [vec![0x4Bu8, 0x65, 0x79], vec![0u8], vec![255u8; 300]] {
        let s_box = schedule(&key).unwrap();
        assert_eq!(s_box.len(), 256);
        let mut seen = vec![false; 256];
        for &b in s_box.iter() {
            assert!(!seen[b as usize]);
            seen[b as usize] = true;
        }
        assert!(seen.iter().all(|&s| s));
    }
}

#[test]
fn scheduling_is_deterministic() {
    let key = vec![0xDEu8, 0xAD, 0xBE, 0xEF];
    assert_eq!(schedule(&key).unwrap(), schedule(&key).unwrap());
}

#[test]
fn transformation_is_deterministic() {
    let key = [0xDEu8, 0xAD, 0xBE, 0xEF];
    let data = [0u8, 1, 2, 3, 4, 5, 250];
    assert_eq!(encrypt(&key, &data), encrypt(&key, &data));
}

#[test]
fn key_setup_matches_schedule() {
    let key = vec![0x4Bu8, 0x65, 0x79];
    let mut s_box = vec![0u8; 256];
    key_setup(&key, &mut s_box);
    assert_eq!(s_box, schedule(&key).unwrap());
}

#[test]
fn skip_region_left_in_clear() {
    let key = vec![0x10u8, 0x20, 0x30];
    let original: Vec<u8> = (50u8..80).collect();
    let mut data = original.clone();
    assert_eq!(apply_cipher(&key, &mut data, 12), Ok(()));
    // The first 12 bytes pass through unmodified.
    assert_eq!(&data[..12], &original[..12]);
    // The rest is the suffix enciphered with a keystream started at the
    // boundary: the skipped bytes do not advance it.
    assert_eq!(&data[12..], &encrypt(&key, &original[12..])[..]);
}

#[test]
fn skip_equal_to_length_is_identity() {
    let key = vec![0x10u8];
    let original = vec![1u8, 2, 3];
    let mut data = original.clone();
    assert_eq!(apply_cipher(&key, &mut data, 3), Ok(()));
    assert_eq!(data, original);
}

#[test]
fn empty_key_is_invalid() {
    let empty: Vec<u8> = Vec::new();
    assert_eq!(schedule(&empty), Err(CipherError::InvalidKey));
    let original = vec![9u8, 8, 7];
    let mut data = original.clone();
    assert_eq!(apply_cipher(&empty, &mut data, 0), Err(CipherError::InvalidKey));
    assert_eq!(data, original);
    // An empty key is reported even when the skip count is out of range too.
    let mut data = original.clone();
    assert_eq!(apply_cipher(&empty, &mut data, 99), Err(CipherError::InvalidKey));
    assert_eq!(data, original);
}

#[test]
fn oversized_skip_is_invalid() {
    let key = vec![1u8, 2];
    let original = vec![9u8, 8, 7];
    let mut data = original.clone();
    assert_eq!(apply_cipher(&key, &mut data, 4), Err(CipherError::InvalidSkipCount));
    assert_eq!(data, original);
}
