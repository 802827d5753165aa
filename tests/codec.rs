use safer::codec::{check_written, decrypt_bytes, encrypt_bytes, Opener, Sealer, TransformError};
use safer::keygen::{derive_key_material, KeyMaterial};

fn material() -> KeyMaterial {
    derive_key_material("abcdefghijklmnopqrstuvwxyz012345").unwrap()
}

fn other_material() -> KeyMaterial {
    derive_key_material("bbcdefghijklmnopqrstuvwxyz012345").unwrap()
}

fn sample(len: usize) -> Vec<u8> {
    (0..len).map(|i| (i * 7 + 3) as u8).collect()
}

#[test]
fn empty_plaintext_known_answer() {
    let c = encrypt_bytes(&material(), &[]).unwrap();
    assert_eq!(
        c,
        vec![61, 32, 45, 33, 84, 129, 32, 167, 201, 85, 68, 223, 115, 78, 136, 160]
    );
}

#[test]
fn short_plaintext_known_answer() {
    let c = encrypt_bytes(&material(), b"abc").unwrap();
    assert_eq!(
        c,
        vec![180, 186, 58, 68, 176, 17, 179, 255, 12, 17, 131, 80, 55, 29, 248, 62, 149, 164, 181]
    );
}

#[test]
fn two_chunk_known_answer_tail() {
    let plain: Vec<u8> = (0..512).map(|i| (i % 256) as u8).collect();
    let c = encrypt_bytes(&material(), &plain).unwrap();
    assert_eq!(c.len(), 544);
    assert_eq!(
        c[516..].to_vec(),
        vec![
            185, 244, 159, 148, 43, 147, 226, 223, 6, 134, 123, 102, 9, 87, 176, 153, 170, 5, 241,
            219, 69, 40, 5, 19, 56, 64, 189, 8
        ]
    );
}

#[test]
fn ciphertext_is_not_the_plaintext() {
    let plain = sample(100);
    let c = encrypt_bytes(&material(), &plain).unwrap();
    assert_ne!(c[..100].to_vec(), plain);
}

#[test]
fn zero_byte_file_is_one_final_tag_only_chunk() {
    let m = material();
    let c = encrypt_bytes(&m, &[]).unwrap();
    assert_eq!(c.len(), 16);
    assert_eq!(decrypt_bytes(&m, &c).unwrap(), Vec::<u8>::new());
}

#[test]
fn exactly_one_chunk_ends_with_empty_final_chunk() {
    let m = material();
    let plain = sample(500);
    let c = encrypt_bytes(&m, &plain).unwrap();
    assert_eq!(c.len(), 516 + 16);
    assert_eq!(decrypt_bytes(&m, &c).unwrap(), plain);
}

#[test]
fn one_byte_over_a_chunk_makes_two_chunks() {
    let m = material();
    let plain = sample(501);
    let c = encrypt_bytes(&m, &plain).unwrap();
    assert_eq!(c.len(), 516 + 17);
    assert_eq!(decrypt_bytes(&m, &c).unwrap(), plain);
}

#[test]
fn round_trip_various_sizes() {
    let m = material();
    for len in [0usize, 1, 15, 16, 499, 500, 501, 999, 1000, 1001, 1500, 2345] {
        let plain = sample(len);
        let c = encrypt_bytes(&m, &plain).unwrap();
        assert_eq!(c.len(), (len / 500) * 516 + len % 500 + 16);
        assert_eq!(decrypt_bytes(&m, &c).unwrap(), plain, "length {}", len);
    }
}

#[test]
fn flipped_byte_fails_authentication() {
    let m = material();
    let plain = sample(1200);
    let c = encrypt_bytes(&m, &plain).unwrap();
    for at in [0usize, 10, 515, 516, 700, c.len() - 1] {
        let mut t = c.clone();
        t[at] ^= 0x01;
        assert_eq!(decrypt_bytes(&m, &t), Err(TransformError::Authentication), "byte {}", at);
    }
}

#[test]
fn truncation_mid_chunk_fails_authentication() {
    let m = material();
    let c = encrypt_bytes(&m, &sample(1200)).unwrap();
    for cut in [1usize, 100, 600, c.len() - 1] {
        assert_eq!(
            decrypt_bytes(&m, &c[..cut]),
            Err(TransformError::Authentication),
            "cut at {}",
            cut
        );
    }
}

#[test]
fn dropping_the_final_chunk_fails_authentication() {
    let m = material();
    let c = encrypt_bytes(&m, &sample(1200)).unwrap();
    assert_eq!(decrypt_bytes(&m, &c[..1032]), Err(TransformError::Authentication));
    assert_eq!(decrypt_bytes(&m, &c[..516]), Err(TransformError::Authentication));
}

#[test]
fn empty_ciphertext_fails_authentication() {
    assert_eq!(decrypt_bytes(&material(), &[]), Err(TransformError::Authentication));
}

#[test]
fn wrong_key_fails_authentication() {
    let c = encrypt_bytes(&material(), &sample(700)).unwrap();
    assert_eq!(decrypt_bytes(&other_material(), &c), Err(TransformError::Authentication));
    let c = encrypt_bytes(&material(), &sample(500)).unwrap();
    assert_eq!(decrypt_bytes(&other_material(), &c), Err(TransformError::Authentication));
}

#[test]
fn sealer_streams_the_same_bytes() {
    let m = material();
    let plain = sample(1100);
    let mut sealer = Sealer::new(material());
    let mut out = Vec::new();
    for block in [&plain[..500], &plain[500..1000], &plain[1000..]] {
        assert!(!sealer.finished);
        out.extend(sealer.seal_next(block).unwrap());
    }
    assert!(sealer.finished);
    assert_eq!(sealer.counter, 2);
    assert_eq!(out, encrypt_bytes(&m, &plain).unwrap());
}

#[test]
fn opener_streams_back_and_finishes_on_short_chunk() {
    let plain = sample(1000);
    let c = encrypt_bytes(&material(), &plain).unwrap();
    let mut opener = Opener::new(material());
    let mut out = Vec::new();
    out.extend(opener.open_next(&c[..516]).unwrap());
    out.extend(opener.open_next(&c[516..1032]).unwrap());
    assert!(!opener.finished);
    out.extend(opener.open_next(&c[1032..]).unwrap());
    assert!(opener.finished);
    assert_eq!(out, plain);
}

#[test]
fn opener_failure_leaves_state() {
    let c = encrypt_bytes(&material(), &sample(1000)).unwrap();
    let mut opener = Opener::new(material());
    assert_eq!(opener.open_next(&c[516..1032]), Err(TransformError::Authentication));
    assert_eq!(opener.counter, 0);
    assert!(!opener.finished);
}

#[test]
fn sealer_refuses_a_full_chunk_at_the_last_counter() {
    let mut sealer = Sealer::new(material());
    sealer.counter = u32::MAX;
    assert_eq!(sealer.seal_next(&[0u8; 500]), Err(TransformError::StreamTooLong));
    assert_eq!(sealer.counter, u32::MAX);
    assert!(sealer.seal_next(&[0u8; 3]).is_ok());
    assert!(sealer.finished);
}

#[test]
fn opener_refuses_a_full_chunk_at_the_last_counter() {
    let mut opener = Opener::new(material());
    opener.counter = u32::MAX;
    assert_eq!(opener.open_next(&[0u8; 516]), Err(TransformError::StreamTooLong));
}

#[test]
fn short_write_is_detected() {
    assert_eq!(check_written(516, 516), Ok(()));
    assert_eq!(check_written(100, 516), Err(TransformError::WriteIncomplete));
}
