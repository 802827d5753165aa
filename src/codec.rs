//! The chunked authenticated stream: plaintext is cut into chunks of
//! `CHUNK_LEN` bytes, each sealed under the shared key and nonce with its
//! own counter; the last chunk, always shorter than `CHUNK_LEN`, carries the
//! final flag, so that a truncated stream fails to open.
use chacha20poly1305::aead::generic_array::GenericArray;
use chacha20poly1305::aead::stream::{NewStream, StreamBE32, StreamPrimitive};
use chacha20poly1305::{KeyInit, XChaCha20Poly1305};
use vstd::prelude::*;

use crate::keygen::{KeyMaterial, KEY_LEN, NONCE_LEN};

verus! {

/// Plaintext bytes per chunk.
pub const CHUNK_LEN: usize = 500;

/// Bytes of authentication tag added to each chunk.
pub const TAG_LEN: usize = 16;

/// Bytes of a sealed full chunk.
pub const SEALED_CHUNK_LEN: usize = 516;

/// Largest stream counter.
pub const COUNTER_MAX: u32 = 0xffff_ffff;

#[verifier::external_type_specification]
#[verifier::external_body]
pub struct ExAeadError(chacha20poly1305::Error);

/// XChaCha20-Poly1305 under the STREAM construction with a 32-bit
/// big-endian counter: the ciphertext and tag of `plain` sealed with `key`,
/// the base `nonce`, the chunk `counter` and the final-chunk flag `last`.
pub uninterp spec fn chunk_cipher(
    key: Seq<u8>,
    nonce: Seq<u8>,
    counter: nat,
    last: bool,
    plain: Seq<u8>,
) -> Seq<u8>;

/// `s` cut or padded with zeros to exactly `len` bytes.
pub open spec fn fit(s: Seq<u8>, len: nat) -> Seq<u8> {
    Seq::new(len, |i: int| if i < s.len() { s[i] } else { 0u8 })
}

/// One sealed chunk: the cipher output, which is `TAG_LEN` bytes longer than `plain`.
pub open spec fn sealed_chunk(
    key: Seq<u8>,
    nonce: Seq<u8>,
    counter: nat,
    last: bool,
    plain: Seq<u8>,
) -> Seq<u8> {
    fit(chunk_cipher(key, nonce, counter, last, plain), (plain.len() + TAG_LEN) as nat)
}

/// The sealed form of `plain` when its first chunk has counter `counter`:
/// full chunks sealed as non-final, then the shorter rest (possibly empty)
/// sealed as the final chunk.
pub open spec fn sealed_stream(key: Seq<u8>, nonce: Seq<u8>, plain: Seq<u8>, counter: nat) -> Seq<
    u8,
>
    decreases plain.len(),
{
    if plain.len() < CHUNK_LEN {
        sealed_chunk(key, nonce, counter, true, plain)
    } else {
        sealed_chunk(key, nonce, counter, false, plain.take(CHUNK_LEN as int)) + sealed_stream(
            key,
            nonce,
            plain.skip(CHUNK_LEN as int),
            counter + 1,
        )
    }
}

/// The sealed full chunks of `plain` (a whole number of chunks), all non-final.
pub open spec fn sealed_blocks(key: Seq<u8>, nonce: Seq<u8>, plain: Seq<u8>, counter: nat) -> Seq<
    u8,
>
    decreases plain.len(),
{
    if plain.len() < CHUNK_LEN {
        Seq::empty()
    } else {
        sealed_chunk(key, nonce, counter, false, plain.take(CHUNK_LEN as int)) + sealed_blocks(
            key,
            nonce,
            plain.skip(CHUNK_LEN as int),
            counter + 1,
        )
    }
}

/// The number of chunks whose counters a stream of `len` plaintext bytes
/// uses before its final chunk; the stream fits the counter when this is
/// at most `COUNTER_MAX`.
pub open spec fn full_chunks(len: nat) -> nat {
    len / (CHUNK_LEN as nat)
}

/// Whether a sealed chunk of `len` bytes is read as the final one.
pub open spec fn is_final_chunk(len: nat) -> bool {
    len < SEALED_CHUNK_LEN
}

/// Why one file's transform failed.
#[derive(Debug, Clone, Copy, PartialEq, Eq, Structural)]
pub enum TransformError {
    /// Opening, reading, writing or renaming a file failed.
    Io,
    /// A chunk did not authenticate: wrong key, or altered or cut ciphertext.
    Authentication,
    /// Fewer bytes were written than the chunk holds.
    WriteIncomplete,
    /// The stream needs more chunks than the counter can number.
    StreamTooLong,
}

/// Relies on `StreamBE32::encrypt` of the aead crate over chacha20poly1305's
/// `XChaCha20Poly1305`: the sealed chunk, `TAG_LEN` bytes longer than the
/// plaintext. The cipher refuses only messages of 2^32 blocks or more.
#[verifier::external_body]
fn seal_chunk(key: &[u8], nonce: &[u8], counter: u32, last: bool, plain: &[u8]) -> (r: Result<
    Vec<u8>,
    chacha20poly1305::Error,
>)
    requires
        key@.len() == KEY_LEN,
        nonce@.len() == NONCE_LEN,
    ensures
        r matches Ok(c) ==> c@ == fit(
            chunk_cipher(key@, nonce@, counter as nat, last, plain@),
            (plain@.len() + TAG_LEN) as nat,
        ),
        plain@.len() <= CHUNK_LEN ==> r is Ok,
{
    let cipher = XChaCha20Poly1305::new(GenericArray::from_slice(key));
    StreamBE32::from_aead(cipher, GenericArray::from_slice(nonce)).encrypt(counter, last, plain)
}

/// Relies on `StreamBE32::decrypt` of the aead crate over chacha20poly1305's
/// `XChaCha20Poly1305`: a chunk opens only to the plaintext that seals to it
/// under the same key, nonce, counter and flag, and a chunk so sealed opens.
#[verifier::external_body]
fn open_chunk(key: &[u8], nonce: &[u8], counter: u32, last: bool, sealed: &[u8]) -> (r: Result<
    Vec<u8>,
    chacha20poly1305::Error,
>)
    requires
        key@.len() == KEY_LEN,
        nonce@.len() == NONCE_LEN,
    ensures
        r matches Ok(p) ==> fit(
            chunk_cipher(key@, nonce@, counter as nat, last, p@),
            (p@.len() + TAG_LEN) as nat,
        ) == sealed@,
        forall|p: Seq<u8>|
            p.len() <= CHUNK_LEN && fit(
                #[trigger] chunk_cipher(key@, nonce@, counter as nat, last, p),
                (p.len() + TAG_LEN) as nat,
            ) == sealed@ ==> r is Ok && r->Ok_0@ == p,
{
    let cipher = XChaCha20Poly1305::new(GenericArray::from_slice(key));
    StreamBE32::from_aead(cipher, GenericArray::from_slice(nonce)).decrypt(counter, last, sealed)
}

/// The encrypting end of one stream: feeds on plaintext blocks in order.
pub struct Sealer {
    pub material: KeyMaterial,
    pub counter: u32,
    pub finished: bool,
}

impl Sealer {
    pub fn new(material: KeyMaterial) -> (s: Sealer)
        requires
            material.wf(),
        ensures
            s.material == material,
            s.counter == 0,
            !s.finished,
    {
        Sealer { material, counter: 0, finished: false }
    }

    /// Seals the next block: one of `CHUNK_LEN` bytes as a non-final chunk,
    /// a shorter one as the final chunk, which finishes the stream.
    pub fn seal_next(&mut self, block: &[u8]) -> (r: Result<Vec<u8>, TransformError>)
        requires
            old(self).material.wf(),
            !old(self).finished,
            block@.len() <= CHUNK_LEN,
        ensures
            final(self).material == old(self).material,
            (r is Ok) == (block@.len() < CHUNK_LEN || old(self).counter < COUNTER_MAX),
            r is Err ==> r == Err::<Vec<u8>, TransformError>(TransformError::StreamTooLong)
                && *final(self) == *old(self),
            r matches Ok(c) ==> {
                &&& c@ == sealed_chunk(
                    old(self).material.key@,
                    old(self).material.nonce@,
                    old(self).counter as nat,
                    block@.len() < CHUNK_LEN,
                    block@,
                )
                &&& final(self).finished == (block@.len() < CHUNK_LEN)
                &&& block@.len() == CHUNK_LEN ==> final(self).counter == old(self).counter + 1
                &&& block@.len() < CHUNK_LEN ==> final(self).counter == old(self).counter
            },
    {
        let last = block.len() < CHUNK_LEN;
        if !last && self.counter == COUNTER_MAX {
            return Err(TransformError::StreamTooLong);
        }
        let sealed = seal_chunk(
            self.material.key.as_slice(),
            self.material.nonce.as_slice(),
            self.counter,
            last,
            block,
        );
        match sealed {
            Ok(c) => {
                if last {
                    self.finished = true;
                } else {
                    self.counter = self.counter + 1;
                }
                Ok(c)
            },
            Err(_) => Err(TransformError::StreamTooLong),
        }
    }
}

/// The decrypting end of one stream: feeds on sealed chunks in order.
pub struct Opener {
    pub material: KeyMaterial,
    pub counter: u32,
    pub finished: bool,
}

impl Opener {
    pub fn new(material: KeyMaterial) -> (s: Opener)
        requires
            material.wf(),
        ensures
            s.material == material,
            s.counter == 0,
            !s.finished,
    {
        Opener { material, counter: 0, finished: false }
    }

    /// Opens the next sealed chunk: one of `SEALED_CHUNK_LEN` bytes as a
    /// non-final chunk, a shorter one (an empty one included) as the final
    /// chunk, which finishes the stream.
    pub fn open_next(&mut self, chunk: &[u8]) -> (r: Result<Vec<u8>, TransformError>)
        requires
            old(self).material.wf(),
            !old(self).finished,
            chunk@.len() <= SEALED_CHUNK_LEN,
        ensures
            final(self).material == old(self).material,
            r is Err ==> *final(self) == *old(self),
            chunk@.len() == SEALED_CHUNK_LEN && old(self).counter == COUNTER_MAX ==> r == Err::<
                Vec<u8>,
                TransformError,
            >(TransformError::StreamTooLong),
            !(chunk@.len() == SEALED_CHUNK_LEN && old(self).counter == COUNTER_MAX) && r is Err
                ==> r == Err::<Vec<u8>, TransformError>(TransformError::Authentication),
            r matches Ok(p) ==> {
                &&& sealed_chunk(
                    old(self).material.key@,
                    old(self).material.nonce@,
                    old(self).counter as nat,
                    chunk@.len() < SEALED_CHUNK_LEN,
                    p@,
                ) == chunk@
                &&& final(self).finished == (chunk@.len() < SEALED_CHUNK_LEN)
                &&& chunk@.len() == SEALED_CHUNK_LEN ==> final(self).counter == old(self).counter
                    + 1
                &&& chunk@.len() < SEALED_CHUNK_LEN ==> final(self).counter == old(self).counter
            },
            forall|p: Seq<u8>|
                p.len() <= CHUNK_LEN && !(chunk@.len() == SEALED_CHUNK_LEN && old(self).counter
                    == COUNTER_MAX) && #[trigger] sealed_chunk(
                    old(self).material.key@,
                    old(self).material.nonce@,
                    old(self).counter as nat,
                    is_final_chunk(chunk@.len()),
                    p,
                ) == chunk@ ==> r is Ok && r->Ok_0@ == p,
    {
        let last = chunk.len() < SEALED_CHUNK_LEN;
        if !last && self.counter == COUNTER_MAX {
            return Err(TransformError::StreamTooLong);
        }
        let opened = open_chunk(
            self.material.key.as_slice(),
            self.material.nonce.as_slice(),
            self.counter,
            last,
            chunk,
        );
        match opened {
            Ok(p) => {
                if last {
                    self.finished = true;
                } else {
                    self.counter = self.counter + 1;
                }
                Ok(p)
            },
            Err(_) => Err(TransformError::Authentication),
        }
    }
}

proof fn lemma_chunk_count(len: nat, counter: nat)
    requires
        CHUNK_LEN * counter <= len,
    ensures
        len - CHUNK_LEN * counter < CHUNK_LEN ==> full_chunks(len) == counter,
        len - CHUNK_LEN * counter >= CHUNK_LEN ==> full_chunks(len) >= counter + 1,
{
}

/// Splitting a stream after `j` full chunks: the first `j` chunks are sealed
/// as non-final blocks, and the rest is a stream whose counter starts `j` later.
proof fn lemma_stream_split(key: Seq<u8>, nonce: Seq<u8>, plain: Seq<u8>, counter: nat, j: nat)
    requires
        plain.len() >= CHUNK_LEN * j,
    ensures
        sealed_stream(key, nonce, plain, counter) == sealed_blocks(
            key,
            nonce,
            plain.take(CHUNK_LEN * j),
            counter,
        ) + sealed_stream(key, nonce, plain.skip(CHUNK_LEN * j), counter + j),
        sealed_blocks(key, nonce, plain.take(CHUNK_LEN * j), counter).len() == SEALED_CHUNK_LEN
            * j,
    decreases j,
{
    let c = CHUNK_LEN as int;
    if j == 0 {
        assert(plain.take(0) =~= Seq::<u8>::empty());
        assert(plain.skip(0) =~= plain);
        assert(sealed_blocks(key, nonce, Seq::<u8>::empty(), counter) =~= Seq::<u8>::empty());
        assert(Seq::<u8>::empty() + sealed_stream(key, nonce, plain, counter) =~= sealed_stream(
            key,
            nonce,
            plain,
            counter,
        ));
    } else {
        let rest = plain.skip(c);
        let jj = (j - 1) as nat;
        lemma_stream_split(key, nonce, rest, counter + 1, jj);
        let head = plain.take(CHUNK_LEN * j);
        assert(head.take(c) =~= plain.take(c));
        assert(head.skip(c) =~= rest.take(CHUNK_LEN * jj));
        assert(rest.skip(CHUNK_LEN * jj) =~= plain.skip(CHUNK_LEN * j));
        let first = sealed_chunk(key, nonce, counter, false, plain.take(c));
        let mid = sealed_blocks(key, nonce, rest.take(CHUNK_LEN * jj), counter + 1);
        let tail = sealed_stream(key, nonce, plain.skip(CHUNK_LEN * j), counter + j);
        assert(sealed_blocks(key, nonce, head, counter) == first + mid);
        assert(sealed_stream(key, nonce, plain, counter) == first + (mid + tail));
        assert(first + (mid + tail) =~= (first + mid) + tail);
    }
}

/// Appending one full chunk to a whole number of chunks appends its sealed block.
proof fn lemma_blocks_push(key: Seq<u8>, nonce: Seq<u8>, blocks: Seq<u8>, block: Seq<u8>, counter: nat)
    requires
        blocks.len() % (CHUNK_LEN as nat) == 0,
        block.len() == CHUNK_LEN,
    ensures
        sealed_blocks(key, nonce, blocks + block, counter) == sealed_blocks(
            key,
            nonce,
            blocks,
            counter,
        ) + sealed_chunk(key, nonce, counter + full_chunks(blocks.len()), false, block),
    decreases blocks.len(),
{
    let c = CHUNK_LEN as int;
    let last = sealed_chunk(key, nonce, counter + full_chunks(blocks.len()), false, block);
    if blocks.len() == 0 {
        assert(blocks + block =~= block);
        assert(block.take(c) =~= block);
        assert(block.skip(c) =~= Seq::<u8>::empty());
        assert(sealed_blocks(key, nonce, blocks, counter) =~= Seq::<u8>::empty());
        assert(sealed_blocks(key, nonce, Seq::<u8>::empty(), counter + 1) =~= Seq::<u8>::empty());
        assert(last + Seq::<u8>::empty() =~= last);
        assert(Seq::<u8>::empty() + last =~= last);
    } else {
        let rest = blocks.skip(c);
        lemma_blocks_push(key, nonce, rest, block, counter + 1);
        assert((blocks + block).take(c) =~= blocks.take(c));
        assert((blocks + block).skip(c) =~= rest + block);
        assert(full_chunks(rest.len()) + 1 == full_chunks(blocks.len()));
        let first = sealed_chunk(key, nonce, counter, false, blocks.take(c));
        let mid = sealed_blocks(key, nonce, rest, counter + 1);
        assert(first + (mid + last) =~= (first + mid) + last);
    }
}

/// The layout of a sealed stream: one `SEALED_CHUNK_LEN`-byte chunk per
/// full plaintext chunk, then a final chunk holding the shorter rest (empty
/// when the plaintext is a whole number of chunks, the empty plaintext
/// included) and its tag. A plaintext shorter than a chunk seals to that
/// final chunk alone.
pub proof fn lemma_stream_layout(key: Seq<u8>, nonce: Seq<u8>, plain: Seq<u8>, counter: nat)
    ensures
        sealed_stream(key, nonce, plain, counter).len() == SEALED_CHUNK_LEN * full_chunks(
            plain.len(),
        ) + plain.len() % (CHUNK_LEN as nat) + TAG_LEN,
        plain.len() < CHUNK_LEN ==> sealed_stream(key, nonce, plain, counter) == sealed_chunk(
            key,
            nonce,
            counter,
            true,
            plain,
        ),
    decreases plain.len(),
{
    if plain.len() >= CHUNK_LEN {
        let rest = plain.skip(CHUNK_LEN as int);
        lemma_stream_layout(key, nonce, rest, counter + 1);
        assert(full_chunks(plain.len()) == full_chunks(rest.len()) + 1);
        assert(plain.len() % (CHUNK_LEN as nat) == rest.len() % (CHUNK_LEN as nat));
    }
}

/// Bytes `start..end` of `b`, copied.
fn copy_range(b: &[u8], start: usize, end: usize) -> (r: Vec<u8>)
    requires
        start <= end <= b@.len(),
    ensures
        r@ == b@.subrange(start as int, end as int),
{
    let mut r: Vec<u8> = Vec::new();
    let mut i: usize = start;
    while i < end
        invariant
            start <= i <= end <= b@.len(),
            r@ == b@.subrange(start as int, i as int),
        decreases end - i,
    {
        r.push(b[i]);
        i += 1;
        assert(r@ =~= b@.subrange(start as int, i as int));
    }
    r
}

/// Encrypts a whole plaintext held in memory into its sealed stream.
/// Fails only when the stream needs more chunks than the counter numbers.
pub fn encrypt_bytes(material: &KeyMaterial, plain: &[u8]) -> (r: Result<Vec<u8>, TransformError>)
    requires
        material.wf(),
    ensures
        (r is Ok) == (full_chunks(plain@.len()) <= COUNTER_MAX),
        r is Err ==> r == Err::<Vec<u8>, TransformError>(TransformError::StreamTooLong),
        r matches Ok(c) ==> c@ == sealed_stream(material.key@, material.nonce@, plain@, 0),
{
    let ghost k = material.key@;
    let ghost n = material.nonce@;
    let mut sealer = Sealer::new(material.duplicate());
    let mut out: Vec<u8> = Vec::new();
    let mut pos: usize = 0;
    assert(plain@.skip(0) =~= plain@);
    assert(out@ + sealed_stream(k, n, plain@, 0) =~= sealed_stream(k, n, plain@, 0));
    loop
        invariant
            sealer.material.wf(),
            k == material.key@,
            n == material.nonce@,
            sealer.material.key@ == k,
            sealer.material.nonce@ == n,
            !sealer.finished,
            pos == CHUNK_LEN * sealer.counter,
            pos <= plain@.len(),
            out@ + sealed_stream(k, n, plain@.skip(pos as int), sealer.counter as nat)
                == sealed_stream(k, n, plain@, 0),
        decreases plain@.len() - pos,
    {
        let ghost rest = plain@.skip(pos as int);
        let ghost ctr = sealer.counter as nat;
        proof {
            lemma_chunk_count(plain@.len(), ctr);
        }
        let end = if plain.len() - pos >= CHUNK_LEN {
            pos + CHUNK_LEN
        } else {
            plain.len()
        };
        let block = copy_range(plain, pos, end);
        let sealed = sealer.seal_next(block.as_slice());
        match sealed {
            Err(e) => {
                return Err(e);
            },
            Ok(mut c) => {
                let ghost before = out@;
                let ghost cv = c@;
                if end - pos < CHUNK_LEN {
                    assert(block@ =~= rest);
                    assert(sealed_stream(k, n, rest, ctr) == sealed_chunk(k, n, ctr, true, rest));
                    out.append(&mut c);
                    assert(out@ =~= before + cv);
                    return Ok(out);
                }
                assert(block@ =~= rest.take(CHUNK_LEN as int));
                assert(rest.skip(CHUNK_LEN as int) =~= plain@.skip(end as int));
                out.append(&mut c);
                assert(before + (cv + sealed_stream(k, n, plain@.skip(end as int), ctr + 1))
                    =~= out@ + sealed_stream(k, n, plain@.skip(end as int), ctr + 1));
                pos = end;
            },
        }
    }
}

/// Decrypts a whole sealed stream held in memory. The result is the
/// plaintext that seals to `sealed`; when there is one, it comes back.
pub fn decrypt_bytes(material: &KeyMaterial, sealed: &[u8]) -> (r: Result<Vec<u8>, TransformError>)
    requires
        material.wf(),
    ensures
        r matches Ok(p) ==> sealed_stream(material.key@, material.nonce@, p@, 0) == sealed@,
        forall|p: Seq<u8>|
            full_chunks(p.len()) <= COUNTER_MAX && #[trigger] sealed_stream(
                material.key@,
                material.nonce@,
                p,
                0,
            ) == sealed@ ==> r is Ok && r->Ok_0@ == p,
        r is Err ==> r == Err::<Vec<u8>, TransformError>(TransformError::Authentication) || r
            == Err::<Vec<u8>, TransformError>(TransformError::StreamTooLong),
{
    let ghost k = material.key@;
    let ghost n = material.nonce@;
    let mut opener = Opener::new(material.duplicate());
    let mut out: Vec<u8> = Vec::new();
    let mut pos: usize = 0;
    loop
        invariant
            opener.material.wf(),
            k == material.key@,
            n == material.nonce@,
            opener.material.key@ == k,
            opener.material.nonce@ == n,
            !opener.finished,
            pos == SEALED_CHUNK_LEN * opener.counter,
            pos <= sealed@.len(),
            out@.len() == CHUNK_LEN * opener.counter,
            sealed@.take(pos as int) == sealed_blocks(k, n, out@, 0),
            forall|p: Seq<u8>|
                full_chunks(p.len()) <= COUNTER_MAX && #[trigger] sealed_stream(k, n, p, 0)
                    == sealed@ ==> p.len() >= CHUNK_LEN * opener.counter && p.take(
                    CHUNK_LEN * opener.counter,
                ) == out@,
        decreases sealed@.len() - pos,
    {
        let ghost ctr = opener.counter as nat;
        let end = if sealed.len() - pos >= SEALED_CHUNK_LEN {
            pos + SEALED_CHUNK_LEN
        } else {
            sealed.len()
        };
        let chunk = copy_range(sealed, pos, end);
        let last = end - pos < SEALED_CHUNK_LEN;
        assert forall|p: Seq<u8>|
            full_chunks(p.len()) <= COUNTER_MAX && #[trigger] sealed_stream(k, n, p, 0)
                == sealed@ implies {
                let rest = p.skip(CHUNK_LEN * ctr);
                &&& (last ==> rest.len() < CHUNK_LEN && sealed_chunk(
                    k,
                    n,
                    ctr,
                    is_final_chunk(chunk@.len()),
                    rest,
                ) == chunk@)
                &&& (!last ==> rest.len() >= CHUNK_LEN && ctr < COUNTER_MAX && sealed_chunk(
                    k,
                    n,
                    ctr,
                    is_final_chunk(chunk@.len()),
                    rest.take(CHUNK_LEN as int),
                ) == chunk@)
            } by {
            let rest = p.skip(CHUNK_LEN * ctr);
            lemma_stream_split(k, n, p, 0, ctr);
            assert(sealed@.skip(pos as int) =~= sealed_stream(k, n, rest, ctr));
            lemma_chunk_count(p.len(), ctr);
            if rest.len() < CHUNK_LEN {
                assert(chunk@ =~= sealed@.skip(pos as int));
            } else {
                let first = sealed_chunk(k, n, ctr, false, rest.take(CHUNK_LEN as int));
                assert(first.len() == SEALED_CHUNK_LEN);
                assert(chunk@ =~= sealed@.skip(pos as int).take(SEALED_CHUNK_LEN as int));
                assert(sealed@.skip(pos as int).take(SEALED_CHUNK_LEN as int) =~= first);
            }
        }
        let opened = opener.open_next(chunk.as_slice());
        assert forall|p: Seq<u8>|
            full_chunks(p.len()) <= COUNTER_MAX && #[trigger] sealed_stream(k, n, p, 0)
                == sealed@ implies opened is Ok && opened->Ok_0@ == (if last {
                p.skip(CHUNK_LEN * ctr)
            } else {
                p.skip(CHUNK_LEN * ctr).take(CHUNK_LEN as int)
            }) by {
            let rest = p.skip(CHUNK_LEN * ctr);
            if last {
                assert(sealed_chunk(k, n, ctr, is_final_chunk(chunk@.len()), rest) == chunk@);
            } else {
                assert(sealed_chunk(
                    k,
                    n,
                    ctr,
                    is_final_chunk(chunk@.len()),
                    rest.take(CHUNK_LEN as int),
                ) == chunk@);
            }
        }
        match opened {
            Err(e) => {
                assert forall|p: Seq<u8>|
                    full_chunks(p.len()) <= COUNTER_MAX && #[trigger] sealed_stream(k, n, p, 0)
                        == sealed@ implies false by {}
                return Err(e);
            },
            Ok(mut q) => {
                let ghost before = out@;
                let ghost qv = q@;
                out.append(&mut q);
                if last {
                    proof {
                        lemma_stream_split(k, n, out@, 0, ctr);
                        assert(out@.take(CHUNK_LEN * ctr) =~= before);
                        assert(out@.skip(CHUNK_LEN * ctr) =~= qv);
                        assert(sealed@ =~= sealed@.take(pos as int) + chunk@);
                        assert forall|p: Seq<u8>|
                            full_chunks(p.len()) <= COUNTER_MAX && #[trigger] sealed_stream(
                                k,
                                n,
                                p,
                                0,
                            ) == sealed@ implies out@ == p by {
                            assert(p =~= p.take(CHUNK_LEN * ctr) + p.skip(CHUNK_LEN * ctr));
                        }
                    }
                    return Ok(out);
                }
                proof {
                    lemma_blocks_push(k, n, before, qv, 0);
                    assert(sealed@.take(end as int) =~= sealed@.take(pos as int) + chunk@);
                    assert forall|p: Seq<u8>|
                        full_chunks(p.len()) <= COUNTER_MAX && #[trigger] sealed_stream(k, n, p, 0)
                            == sealed@ implies p.len() >= CHUNK_LEN * (ctr + 1) && p.take(
                        CHUNK_LEN * (ctr + 1),
                    ) == out@ by {
                        assert(p.take(CHUNK_LEN * (ctr + 1)) =~= p.take(CHUNK_LEN * ctr) + p.skip(
                            CHUNK_LEN * ctr,
                        ).take(CHUNK_LEN as int));
                    }
                }
                pos = end;
            },
        }
    }
}

/// Checks that a write took all `expected` bytes.
pub fn check_written(written: usize, expected: usize) -> (r: Result<(), TransformError>)
    ensures
        r is Ok <==> written == expected,
        r is Err ==> r == Err::<(), TransformError>(TransformError::WriteIncomplete),
{
    if written == expected {
        Ok(())
    } else {
        Err(TransformError::WriteIncomplete)
    }
}

} // verus!
