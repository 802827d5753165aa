//! A batch run: the decisions taken before any file is touched, and the
//! bookkeeping that admits at most `capacity` file transforms at a time and
//! records every file's outcome.
use vstd::prelude::*;
use vstd::utf8::{encode_utf8, is_ascii_chars, is_ascii_chars_encode_utf8};

use crate::codec::TransformError;
use crate::keygen::{
    derive_key_material, derived_key, derived_nonce, generator, is_alphanumeric, KeyMaterial,
    KEY_LEN, PASSPHRASE_LEN,
};

verus! {

/// Number of concurrent transforms when none is configured.
pub const DEFAULT_WORKERS: usize = 256;

/// What the command line hands the batch.
#[derive(Debug, Clone)]
pub struct Args {
    /// Directory to process
    pub directory: String,
    /// Activate debug mode
    pub debug: bool,
    /// Key to use for decryption
    pub key: Option<String>,
    /// Decrypt files
    pub decrypt: bool,
    /// Encrypt files
    pub encrypt: bool,
    /// Disable progress bar
    pub progress: bool,
    /// Workers to use for encryption/decryption
    pub workers: usize,
}

/// Which way a batch transforms its files.
#[derive(Debug, Clone, Copy, PartialEq, Eq, Structural)]
pub enum Mode {
    Encrypt,
    Decrypt,
}

/// Why a batch does not start. Each is found before any file is touched.
#[derive(Debug, Clone, Copy, PartialEq, Eq, Structural)]
pub enum BatchError {
    /// Neither or both of encryption and decryption were asked for.
    Usage,
    /// A concurrency cap of zero would admit no transform.
    NoWorkers,
    /// Encryption found no file; nothing is to be done.
    NoFiles,
    /// Decryption was asked for without a key.
    MissingKey,
    /// The decryption key encodes to fewer than `KEY_LEN` bytes.
    InvalidKeyLength,
}

/// The mode that the flags select, if exactly one is set.
pub open spec fn mode_of(encrypt: bool, decrypt: bool) -> Option<Mode> {
    if encrypt && !decrypt {
        Some(Mode::Encrypt)
    } else if decrypt && !encrypt {
        Some(Mode::Decrypt)
    } else {
        None
    }
}

impl Args {
    /// The selected mode: exactly one of the two flags must be set.
    pub fn mode(&self) -> (r: Result<Mode, BatchError>)
        ensures
            mode_of(self.encrypt, self.decrypt) matches Some(m) ==> r == Ok::<Mode, BatchError>(m),
            mode_of(self.encrypt, self.decrypt) is None ==> r == Err::<Mode, BatchError>(
                BatchError::Usage,
            ),
    {
        if self.encrypt && !self.decrypt {
            Ok(Mode::Encrypt)
        } else if self.decrypt && !self.encrypt {
            Ok(Mode::Decrypt)
        } else {
            Err(BatchError::Usage)
        }
    }
}

/// Everything a batch run needs once its preconditions hold.
#[derive(Debug)]
pub struct BatchPlan {
    pub mode: Mode,
    pub material: KeyMaterial,
    /// The generated passphrase, on encryption: the only record of the key.
    pub passphrase: Option<String>,
    pub workers: usize,
}

/// The key material of a passphrase given for decryption.
pub fn prepare_decryption(key: &Option<String>) -> (r: Result<KeyMaterial, BatchError>)
    ensures
        key is None ==> r == Err::<KeyMaterial, BatchError>(BatchError::MissingKey),
        key matches Some(k) ==> {
            &&& (encode_utf8(k@).len() >= KEY_LEN) == r is Ok
            &&& r is Err ==> r == Err::<KeyMaterial, BatchError>(BatchError::InvalidKeyLength)
            &&& r matches Ok(m) ==> m.wf() && m.key@ == derived_key(encode_utf8(k@)) && m.nonce@
                == derived_nonce(encode_utf8(k@))
        },
{
    match key {
        None => Err(BatchError::MissingKey),
        Some(k) => match derive_key_material(k.as_str()) {
            Ok(m) => Ok(m),
            Err(_) => Err(BatchError::InvalidKeyLength),
        },
    }
}

/// A fresh passphrase and its key material, for encrypting `file_count`
/// files; with no file there is nothing to do.
pub fn prepare_encryption(file_count: usize) -> (r: Result<(String, KeyMaterial), BatchError>)
    ensures
        file_count == 0 ==> r == Err::<(String, KeyMaterial), BatchError>(BatchError::NoFiles),
        file_count > 0 ==> r is Ok,
        r matches Ok((s, m)) ==> {
            &&& s@.len() == PASSPHRASE_LEN
            &&& forall|i: int| 0 <= i < s@.len() ==> is_alphanumeric(#[trigger] s@[i])
            &&& m.wf()
            &&& m.key@ == derived_key(encode_utf8(s@))
            &&& m.nonce@ == derived_nonce(encode_utf8(s@))
        },
{
    if file_count == 0 {
        return Err(BatchError::NoFiles);
    }
    let passphrase = generator();
    proof {
        assert(is_ascii_chars(passphrase@));
        is_ascii_chars_encode_utf8(passphrase@);
    }
    match derive_key_material(passphrase.as_str()) {
        Ok(m) => Ok((passphrase, m)),
        Err(_) => Err(BatchError::InvalidKeyLength),
    }
}

/// Checks the batch's preconditions in order (mode, worker count, then the
/// mode's own) and derives its key material.
pub fn plan_batch(args: &Args, file_count: usize) -> (r: Result<BatchPlan, BatchError>)
    ensures
        mode_of(args.encrypt, args.decrypt) is None ==> r == Err::<BatchPlan, BatchError>(
            BatchError::Usage,
        ),
        mode_of(args.encrypt, args.decrypt) is Some && args.workers == 0 ==> r == Err::<
            BatchPlan,
            BatchError,
        >(BatchError::NoWorkers),
        mode_of(args.encrypt, args.decrypt) == Some(Mode::Encrypt) && args.workers > 0 ==> {
            &&& file_count == 0 ==> r == Err::<BatchPlan, BatchError>(BatchError::NoFiles)
            &&& file_count > 0 ==> r is Ok
        },
        mode_of(args.encrypt, args.decrypt) == Some(Mode::Decrypt) && args.workers > 0 ==> {
            &&& args.key is None ==> r == Err::<BatchPlan, BatchError>(BatchError::MissingKey)
            &&& args.key matches Some(k) ==> ((encode_utf8(k@).len() >= KEY_LEN) == r is Ok)
            &&& args.key is Some && r is Err ==> r == Err::<BatchPlan, BatchError>(
                BatchError::InvalidKeyLength,
            )
        },
        r matches Ok(p) ==> {
            &&& mode_of(args.encrypt, args.decrypt) == Some(p.mode)
            &&& p.workers == args.workers
            &&& p.material.wf()
            &&& p.mode == Mode::Encrypt ==> (p.passphrase matches Some(s) && s@.len()
                == PASSPHRASE_LEN && p.material.key@ == derived_key(encode_utf8(s@))
                && p.material.nonce@ == derived_nonce(encode_utf8(s@)))
            &&& p.mode == Mode::Decrypt ==> p.passphrase is None && (args.key matches Some(k)
                && p.material.key@ == derived_key(encode_utf8(k@)) && p.material.nonce@
                == derived_nonce(encode_utf8(k@)))
        },
{
    let mode = match args.mode() {
        Ok(m) => m,
        Err(e) => {
            return Err(e);
        },
    };
    if args.workers == 0 {
        return Err(BatchError::NoWorkers);
    }
    match mode {
        Mode::Encrypt => match prepare_encryption(file_count) {
            Ok((s, m)) => Ok(
                BatchPlan { mode, material: m, passphrase: Some(s), workers: args.workers },
            ),
            Err(e) => Err(e),
        },
        Mode::Decrypt => match prepare_decryption(&args.key) {
            Ok(m) => Ok(BatchPlan { mode, material: m, passphrase: None, workers: args.workers }),
            Err(e) => Err(e),
        },
    }
}

/// How one file's unit of work ended.
#[derive(Debug, Clone, Copy, PartialEq, Eq, Structural)]
pub enum UnitOutcome {
    /// The file was transformed and replaced.
    Succeeded,
    /// The transform failed; the file was left as it was.
    Failed(TransformError),
    /// The unit ended abnormally, without recording an outcome.
    Lost,
}

/// What the runner of a batch is to do next.
#[derive(Debug, Clone, Copy, PartialEq, Eq, Structural)]
pub enum Step {
    /// Take a permit and start the transform of the file at this index.
    Start(usize),
    /// Every permit is taken: wait for a running transform to end.
    Wait,
    /// Every file has been attempted once and every transform has ended.
    Done,
}

/// The state of a batch of `total` files run under a pool of `capacity`
/// permits. Files are started in index order, each exactly once; a
/// failure is counted and never stops the others.
#[derive(Debug, Clone, Copy)]
pub struct Batch {
    pub capacity: usize,
    pub total: usize,
    /// Files started so far: those with an index below `next`.
    pub next: usize,
    /// Transforms holding a permit.
    pub running: usize,
    pub succeeded: usize,
    pub failed: usize,
    /// Failures among `failed` that are authentication failures.
    pub rejected: usize,
    pub lost: usize,
}

impl Batch {
    /// At most `capacity` transforms hold a permit, and every started
    /// file is either running or counted once among the outcomes.
    pub open spec fn wf(&self) -> bool {
        &&& 0 < self.capacity
        &&& self.running <= self.capacity
        &&& self.next <= self.total
        &&& self.rejected <= self.failed
        &&& self.succeeded + self.failed + self.lost + self.running == self.next
    }

    pub open spec fn is_done(&self) -> bool {
        self.next == self.total && self.running == 0
    }

    pub fn new(total: usize, capacity: usize) -> (b: Batch)
        requires
            capacity > 0,
        ensures
            b.wf(),
            b.capacity == capacity,
            b.total == total,
            b.next == 0,
            b.running == 0,
            b.succeeded == 0,
            b.failed == 0,
            b.rejected == 0,
            b.lost == 0,
    {
        Batch {
            capacity,
            total,
            next: 0,
            running: 0,
            succeeded: 0,
            failed: 0,
            rejected: 0,
            lost: 0,
        }
    }

    /// The next step: start the next file while a permit is free, else wait
    /// while any transform runs, else the batch is done.
    pub fn next_step(&mut self) -> (s: Step)
        requires
            old(self).wf(),
        ensures
            final(self).wf(),
            final(self).capacity == old(self).capacity,
            final(self).total == old(self).total,
            final(self).succeeded == old(self).succeeded,
            final(self).failed == old(self).failed,
            final(self).rejected == old(self).rejected,
            final(self).lost == old(self).lost,
            old(self).running < old(self).capacity && old(self).next < old(self).total ==> {
                &&& s == Step::Start(old(self).next)
                &&& final(self).next == old(self).next + 1
                &&& final(self).running == old(self).running + 1
            },
            !(old(self).running < old(self).capacity && old(self).next < old(self).total) ==> {
                &&& *final(self) == *old(self)
                &&& old(self).running > 0 ==> s == Step::Wait
                &&& old(self).running == 0 ==> s == Step::Done && old(self).is_done()
            },
    {
        if self.running < self.capacity && self.next < self.total {
            let i = self.next;
            self.next = self.next + 1;
            self.running = self.running + 1;
            Step::Start(i)
        } else if self.running > 0 {
            Step::Wait
        } else {
            Step::Done
        }
    }

    /// Records the end of one running transform and frees its permit.
    pub fn complete(&mut self, outcome: UnitOutcome)
        requires
            old(self).wf(),
            old(self).running > 0,
        ensures
            final(self).wf(),
            final(self).capacity == old(self).capacity,
            final(self).total == old(self).total,
            final(self).next == old(self).next,
            final(self).running == old(self).running - 1,
            final(self).succeeded == old(self).succeeded + if outcome is Succeeded {
                1int
            } else {
                0
            },
            final(self).failed == old(self).failed + if outcome is Failed {
                1int
            } else {
                0
            },
            final(self).rejected == old(self).rejected + if outcome == UnitOutcome::Failed(
                TransformError::Authentication,
            ) {
                1int
            } else {
                0
            },
            final(self).lost == old(self).lost + if outcome is Lost {
                1int
            } else {
                0
            },
    {
        self.running = self.running - 1;
        match outcome {
            UnitOutcome::Succeeded => {
                self.succeeded = self.succeeded + 1;
            },
            UnitOutcome::Failed(e) => {
                self.failed = self.failed + 1;
                if e == TransformError::Authentication {
                    self.rejected = self.rejected + 1;
                }
            },
            UnitOutcome::Lost => {
                self.lost = self.lost + 1;
            },
        }
    }
}

/// A batch never has more transforms holding a permit than its capacity.
pub proof fn lemma_permits_bounded(b: Batch)
    requires
        b.wf(),
    ensures
        b.running <= b.capacity,
{
}

/// When a batch is done, every file has been attempted exactly once: each
/// is counted once as a success, a failure or a lost unit.
pub proof fn lemma_done_accounts_for_every_file(b: Batch)
    requires
        b.wf(),
        b.is_done(),
    ensures
        b.succeeded + b.failed + b.lost == b.total,
{
}

} // verus!
