use safer::keygen::{
    alphabet_symbol, derive_from_bytes, derive_key_material, generator, passphrase_from_indices,
    KeyError,
};

const PASSPHRASE: &str = "abcdefghijklmnopqrstuvwxyz012345";
const PASSPHRASE_NONCE: [u8; 19] = [
    101, 59, 177, 36, 94, 130, 143, 205, 164, 250, 83, 252, 213, 163, 222, 245, 189, 118, 84,
];

#[test]
fn generated_passphrase_is_32_alphanumerics() {
    let p = generator();
    assert_eq!(p.len(), 32);
    assert_eq!(p.chars().count(), 32);
    assert!(p.chars().all(|c| c.is_ascii_alphanumeric()));
}

#[test]
fn generated_passphrases_differ() {
    assert_ne!(generator(), generator());
}

#[test]
fn alphabet_symbols_in_order() {
    assert_eq!(alphabet_symbol(0), b'a');
    assert_eq!(alphabet_symbol(25), b'z');
    assert_eq!(alphabet_symbol(26), b'A');
    assert_eq!(alphabet_symbol(51), b'Z');
    assert_eq!(alphabet_symbol(52), b'0');
    assert_eq!(alphabet_symbol(61), b'9');
}

#[test]
fn passphrase_from_indices_maps_each_index() {
    assert_eq!(passphrase_from_indices(&vec![0, 27, 61, 7]), "aB9h");
    assert_eq!(passphrase_from_indices(&vec![]), "");
}

#[test]
fn key_is_first_32_bytes_and_nonce_a_digest_prefix() {
    let m = derive_key_material(PASSPHRASE).unwrap();
    assert_eq!(m.key, PASSPHRASE.as_bytes().to_vec());
    assert_eq!(m.nonce, PASSPHRASE_NONCE.to_vec());
}

#[test]
fn longer_passphrase_keeps_first_32_bytes_and_hashes_all() {
    let s = "ABCDEFGHIJKLMNOPQRSTUVWXYZabcdef-extra";
    let m = derive_key_material(s).unwrap();
    assert_eq!(m.key, s.as_bytes()[..32].to_vec());
    assert_eq!(
        m.nonce,
        vec![101, 217, 249, 128, 104, 199, 238, 163, 223, 30, 199, 115, 69, 105, 126, 51, 151, 248, 42]
    );
}

#[test]
fn derivation_is_deterministic() {
    let a = derive_key_material(PASSPHRASE).unwrap();
    let b = derive_key_material(PASSPHRASE).unwrap();
    assert_eq!(a.key, b.key);
    assert_eq!(a.nonce, b.nonce);
}

#[test]
fn short_passphrase_is_rejected() {
    assert_eq!(derive_key_material("short").unwrap_err(), KeyError::InvalidKeyLength);
    assert_eq!(derive_key_material("").unwrap_err(), KeyError::InvalidKeyLength);
    assert_eq!(derive_from_bytes(&[7u8; 31]).unwrap_err(), KeyError::InvalidKeyLength);
}

#[test]
fn exactly_32_bytes_is_accepted() {
    let m = derive_from_bytes(&[7u8; 32]).unwrap();
    assert_eq!(m.key, vec![7u8; 32]);
    assert_eq!(m.nonce.len(), 19);
}

#[test]
fn multibyte_characters_count_by_bytes() {
    // 16 two-byte characters make 32 bytes.
    let s = "éééééééééééééééé";
    let m = derive_key_material(s).unwrap();
    assert_eq!(m.key, s.as_bytes().to_vec());
    assert!(derive_key_material("ééééééééééééééé").is_err());
}
