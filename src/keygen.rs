//! Passphrases and the key material derived from them.
use rand::Rng;
use sha2::Digest;
use vstd::prelude::*;
use vstd::string::StringSliceAdditionalSpecFns;

verus! {

/// Number of bytes of the symmetric key.
pub const KEY_LEN: usize = 32;

/// Number of bytes of the stream nonce.
pub const NONCE_LEN: usize = 19;

/// Number of characters of a generated passphrase.
pub const PASSPHRASE_LEN: usize = 32;

/// Number of symbols of the alphanumeric alphabet.
pub const ALPHABET_LEN: usize = 62;

/// The SHA-256 digest of a byte sequence.
pub uninterp spec fn sha256_of(data: Seq<u8>) -> Seq<u8>;

/// The `i`-th symbol of the alphabet `a..z A..Z 0..9`, as an ASCII byte.
pub open spec fn alphabet_byte(i: int) -> u8 {
    if i < 26 {
        (97 + i) as u8
    } else if i < 52 {
        (65 + (i - 26)) as u8
    } else {
        (48 + (i - 52)) as u8
    }
}

pub open spec fn is_alphanumeric(c: char) -> bool {
    ('a' <= c && c <= 'z') || ('A' <= c && c <= 'Z') || ('0' <= c && c <= '9')
}

proof fn lemma_alphabet_byte(i: int)
    requires
        0 <= i < ALPHABET_LEN,
    ensures
        alphabet_byte(i) < 128,
        is_alphanumeric(alphabet_byte(i) as char),
{
}

/// Relies on `rand::thread_rng().gen_range(0..n)`: a number below `n`.
/// `gen_range` panics on an empty range, hence `n > 0`.
#[verifier::external_body]
fn random_below(n: usize) -> (r: usize)
    requires
        n > 0,
    ensures
        r < n,
{
    rand::thread_rng().gen_range(0..n)
}

/// Relies on `String::from_utf8`: ASCII bytes are valid UTF-8, one character each.
#[verifier::external_body]
fn ascii_string(bytes: Vec<u8>) -> (r: String)
    requires
        forall|i: int| 0 <= i < bytes@.len() ==> bytes@[i] < 128,
    ensures
        r@ == Seq::new(bytes@.len(), |i: int| bytes@[i] as char),
{
    match String::from_utf8(bytes) {
        Ok(s) => s,
        Err(_) => String::new(),
    }
}

/// Relies on `sha2::Sha256::digest`: the 32-byte SHA-256 digest of `data`.
#[verifier::external_body]
fn sha256(data: &[u8]) -> (r: Vec<u8>)
    ensures
        r@ == sha256_of(data@),
        r@.len() == 32,
{
    sha2::Sha256::digest(data).to_vec()
}

/// The `i`-th symbol of the alphanumeric alphabet.
pub fn alphabet_symbol(i: usize) -> (r: u8)
    requires
        i < ALPHABET_LEN,
    ensures
        r == alphabet_byte(i as int),
        r < 128,
        is_alphanumeric(r as char),
{
    if i < 26 {
        97 + i as u8
    } else if i < 52 {
        65 + (i - 26) as u8
    } else {
        48 + (i - 52) as u8
    }
}

/// The passphrase whose characters are the alphabet symbols at `indices`.
pub fn passphrase_from_indices(indices: &Vec<usize>) -> (r: String)
    requires
        forall|i: int| 0 <= i < indices@.len() ==> indices@[i] < ALPHABET_LEN,
    ensures
        r@ == Seq::new(indices@.len(), |i: int| alphabet_byte(indices@[i] as int) as char),
{
    let mut bytes: Vec<u8> = Vec::new();
    let mut k: usize = 0;
    while k < indices.len()
        invariant
            k <= indices@.len(),
            forall|i: int| 0 <= i < indices@.len() ==> indices@[i] < ALPHABET_LEN,
            bytes@.len() == k,
            forall|i: int| 0 <= i < k ==> bytes@[i] == alphabet_byte(indices@[i] as int),
            forall|i: int| 0 <= i < k ==> bytes@[i] < 128,
        decreases indices@.len() - k,
    {
        let b = alphabet_symbol(indices[k]);
        bytes.push(b);
        k += 1;
    }
    let r = ascii_string(bytes);
    assert(r@ =~= Seq::new(indices@.len(), |i: int| alphabet_byte(indices@[i] as int) as char));
    r
}

/// A fresh random passphrase: `PASSPHRASE_LEN` characters, each drawn
/// uniformly from the 62 alphanumeric symbols.
pub fn generator() -> (r: String)
    ensures
        r@.len() == PASSPHRASE_LEN,
        forall|i: int| 0 <= i < r@.len() ==> is_alphanumeric(#[trigger] r@[i]),
{
    let mut indices: Vec<usize> = Vec::new();
    while indices.len() < PASSPHRASE_LEN
        invariant
            indices@.len() <= PASSPHRASE_LEN,
            forall|i: int| 0 <= i < indices@.len() ==> indices@[i] < ALPHABET_LEN,
        decreases PASSPHRASE_LEN - indices@.len(),
    {
        let i = random_below(ALPHABET_LEN);
        indices.push(i);
    }
    let r = passphrase_from_indices(&indices);
    assert forall|i: int| 0 <= i < r@.len() implies is_alphanumeric(#[trigger] r@[i]) by {
        lemma_alphabet_byte(indices@[i] as int);
    }
    r
}

/// Why a passphrase cannot yield key material.
#[derive(Debug, Clone, Copy, PartialEq, Eq, Structural)]
pub enum KeyError {
    /// The passphrase encodes to fewer than `KEY_LEN` bytes.
    InvalidKeyLength,
}

/// The key and stream nonce shared by every file of a batch.
#[derive(Debug)]
pub struct KeyMaterial {
    pub key: Vec<u8>,
    pub nonce: Vec<u8>,
}

impl KeyMaterial {
    pub open spec fn wf(&self) -> bool {
        self.key@.len() == KEY_LEN && self.nonce@.len() == NONCE_LEN
    }

    /// A copy of the key and nonce.
    pub fn duplicate(&self) -> (r: KeyMaterial)
        ensures
            r.key@ == self.key@,
            r.nonce@ == self.nonce@,
    {
        let key = prefix(self.key.as_slice(), self.key.len());
        let nonce = prefix(self.nonce.as_slice(), self.nonce.len());
        assert(key@ =~= self.key@);
        assert(nonce@ =~= self.nonce@);
        KeyMaterial { key, nonce }
    }
}

/// The key derived from passphrase bytes: its first `KEY_LEN` bytes.
pub open spec fn derived_key(bytes: Seq<u8>) -> Seq<u8> {
    bytes.take(KEY_LEN as int)
}

/// The nonce derived from passphrase bytes: the first `NONCE_LEN` bytes of their digest.
pub open spec fn derived_nonce(bytes: Seq<u8>) -> Seq<u8> {
    sha256_of(bytes).take(NONCE_LEN as int)
}

/// The first `n` bytes of `b`, copied.
fn prefix(b: &[u8], n: usize) -> (r: Vec<u8>)
    requires
        n <= b@.len(),
    ensures
        r@ == b@.take(n as int),
{
    let mut r: Vec<u8> = Vec::new();
    let mut i: usize = 0;
    while i < n
        invariant
            i <= n <= b@.len(),
            r@ == b@.take(i as int),
        decreases n - i,
    {
        r.push(b[i]);
        i += 1;
        assert(r@ =~= b@.take(i as int));
    }
    r
}

/// Key material from raw passphrase bytes: the key is their first
/// `KEY_LEN` bytes, the nonce the first `NONCE_LEN` bytes of their SHA-256
/// digest. Fails when fewer than `KEY_LEN` bytes are given.
pub fn derive_from_bytes(bytes: &[u8]) -> (r: Result<KeyMaterial, KeyError>)
    ensures
        (bytes@.len() >= KEY_LEN) == r is Ok,
        r is Err ==> r == Err::<KeyMaterial, KeyError>(KeyError::InvalidKeyLength),
        r matches Ok(m) ==> m.wf() && m.key@ == derived_key(bytes@) && m.nonce@ == derived_nonce(
            bytes@,
        ),
{
    if bytes.len() < KEY_LEN {
        return Err(KeyError::InvalidKeyLength);
    }
    let key = prefix(bytes, KEY_LEN);
    let digest = sha256(bytes);
    let nonce = prefix(digest.as_slice(), NONCE_LEN);
    Ok(KeyMaterial { key, nonce })
}

/// Key material from a passphrase, over its UTF-8 encoding.
pub fn derive_key_material(passphrase: &str) -> (r: Result<KeyMaterial, KeyError>)
    ensures
        (passphrase.spec_bytes().len() >= KEY_LEN) == r is Ok,
        r is Err ==> r == Err::<KeyMaterial, KeyError>(KeyError::InvalidKeyLength),
        r matches Ok(m) ==> m.wf() && m.key@ == derived_key(passphrase.spec_bytes())
            && m.nonce@ == derived_nonce(passphrase.spec_bytes()),
{
    derive_from_bytes(passphrase.as_bytes())
}

} // verus!
