//! In-place authenticated encryption of file batches: key material derived
//! from a passphrase, a chunked AEAD stream codec, and the bookkeeping of a
//! batch run under a concurrency cap.
use vstd::prelude::*;

pub mod batch;
pub mod codec;
pub mod keygen;

verus! {

} // verus!
