use vstd::prelude::*;

use crate::constants::PROGRESS_SIZE;

verus! {

/// A running SHA3-224 computation, held opaque: what it has taken in is
/// `absorbed`, and its digest, once finished, is `sha3_224` of that.
#[verifier::external_body]
pub struct Sha3Hasher {
    inner: sha3::Sha3_224,
}

/// The bytes that a SHA3-224 hasher has taken in since it was made.
pub uninterp spec fn absorbed(hasher: Sha3Hasher) -> Seq<u8>;

/// The SHA3-224 digest of `data`.
pub uninterp spec fn sha3_224(data: Seq<u8>) -> Seq<u8>;

/// Relies on sha3::Sha3_224::new (digest::Digest::new): a fresh hasher has
/// taken in nothing.
#[verifier::external_body]
fn new_hasher() -> (r: Sha3Hasher)
    ensures
        absorbed(r) == Seq::<u8>::empty(),
{
    Sha3Hasher { inner: <sha3::Sha3_224 as sha3::Digest>::new() }
}

/// Relies on digest::Digest::update: the hasher takes in `data` after what it
/// held.
#[verifier::external_body]
fn hasher_update(hasher: &mut Sha3Hasher, data: &[u8])
    ensures
        absorbed(*final(hasher)) == absorbed(*old(hasher)) + data@,
{
    sha3::Digest::update(&mut hasher.inner, data);
}

/// Relies on digest::Digest::finalize: the SHA3-224 digest of what the hasher
/// took in.
#[verifier::external_body]
fn hasher_finalize(hasher: Sha3Hasher) -> (r: crate::digest::Hash)
    ensures
        r.0@ == sha3_224(absorbed(hasher)),
{
    crate::digest::Hash(sha3::Digest::finalize(hasher.inner).into())
}

/// What made a transfer fail its check.
#[derive(Debug, Clone)]
pub enum Mismatch {
    Hash { expected: crate::digest::Hash, computed: crate::digest::Hash },
    Size { expected: u64, computed: u64 },
}

/// Compares what a transfer produced with what was expected: the digest first,
/// then the size, each only where both are known.
pub fn check_integrity(
    computed_hash: Option<crate::digest::Hash>,
    expected_hash: Option<crate::digest::Hash>,
    computed_size: Option<u64>,
    expected_size: Option<u64>,
) -> (r: Result<(), Mismatch>)
    ensures
        match (computed_hash, expected_hash, computed_size, expected_size) {
            (Some(c), Some(e), _, _) if c.0@ != e.0@ => r == Err::<(), Mismatch>(
                Mismatch::Hash { expected: e, computed: c },
            ),
            (_, _, Some(c), Some(e)) if c != e => r == Err::<(), Mismatch>(
                Mismatch::Size { expected: e, computed: c },
            ),
            _ => r is Ok,
        },
{
    if let (Some(c), Some(e)) = (computed_hash, expected_hash) {
        if !c.same(&e) {
            return Err(Mismatch::Hash { expected: e, computed: c });
        }
    }
    if let (Some(c), Some(e)) = (computed_size, expected_size) {
        if c != e {
            return Err(Mismatch::Size { expected: e, computed: c });
        }
    }
    Ok(())
}

/// Running totals over the bytes of one download or decode: the digest and
/// the size of what came through, where they are wanted, and the bytes not yet
/// reported as progress.
pub struct Transfer {
    hasher: Option<Sha3Hasher>,
    size: Option<u64>,
    pending: u64,
    received: Ghost<Seq<u8>>,
}

impl Transfer {
    /// The bytes taken in so far.
    pub closed spec fn received(&self) -> Seq<u8> {
        self.received@
    }

    /// Whether a digest is computed.
    pub closed spec fn hashes(&self) -> bool {
        self.hasher is Some
    }

    /// Whether the size is counted.
    pub closed spec fn counts(&self) -> bool {
        self.size is Some
    }

    /// The bytes taken in and not yet reported as progress.
    pub closed spec fn pending(&self) -> nat {
        self.pending as nat
    }

    pub closed spec fn wf(&self) -> bool {
        &&& self.hasher is Some ==> absorbed(self.hasher->0) == self.received@
        &&& self.size is Some ==> self.size->0 == self.received@.len()
        &&& self.pending < PROGRESS_SIZE
    }

    /// A transfer that has taken in nothing.
    pub fn new(hashes: bool, counts: bool) -> (r: Transfer)
        ensures
            r.wf(),
            r.received() == Seq::<u8>::empty(),
            r.hashes() == hashes,
            r.counts() == counts,
            r.pending() == 0,
    {
        Transfer {
            hasher: if hashes {
                Some(new_hasher())
            } else {
                None
            },
            size: if counts {
                Some(0)
            } else {
                None
            },
            pending: 0,
            received: Ghost(Seq::empty()),
        }
    }

    /// Whether `length` more bytes can be taken in: the count stays within
    /// `u64` and progress within `i64`.
    pub fn fits(&self, length: usize) -> (r: bool)
        requires
            self.wf(),
        ensures
            r == ((!self.counts() || self.received().len() + length <= u64::MAX) && length
                + PROGRESS_SIZE <= i64::MAX),
    {
        (length as u64) < (i64::MAX as u64) - (PROGRESS_SIZE as u64) + 1 && match self.size {
            Some(size) => size <= u64::MAX - (length as u64),
            None => true,
        }
    }

    /// Takes in bytes that were transferred before, such as those of a partial
    /// download being resumed: they count toward the digest and the size, not
    /// toward progress.
    pub fn take_existing(&mut self, data: &[u8])
        requires
            old(self).wf(),
            !old(self).counts() || old(self).received().len() + data@.len() <= u64::MAX,
        ensures
            final(self).wf(),
            final(self).received() == old(self).received() + data@,
            final(self).hashes() == old(self).hashes(),
            final(self).counts() == old(self).counts(),
            final(self).pending() == old(self).pending(),
    {
        match &mut self.hasher {
            Some(hasher) => hasher_update(hasher, data),
            None => {},
        }
        self.size = match self.size {
            Some(size) => Some(size + data.len() as u64),
            None => None,
        };
        self.received = Ghost(self.received@ + data@);
    }

    /// Takes in a chunk. Returns the progress to report once the bytes not yet
    /// reported reach the progress threshold, and then starts counting anew.
    pub fn absorb(&mut self, chunk: &[u8]) -> (r: Option<i64>)
        requires
            old(self).wf(),
            !old(self).counts() || old(self).received().len() + chunk@.len() <= u64::MAX,
            chunk@.len() + PROGRESS_SIZE <= i64::MAX,
        ensures
            final(self).wf(),
            final(self).received() == old(self).received() + chunk@,
            final(self).hashes() == old(self).hashes(),
            final(self).counts() == old(self).counts(),
            old(self).pending() + chunk@.len() >= PROGRESS_SIZE ==> r == Some(
                (old(self).pending() + chunk@.len()) as i64,
            ) && final(self).pending() == 0,
            old(self).pending() + chunk@.len() < PROGRESS_SIZE ==> r is None && final(self).pending()
                == old(self).pending() + chunk@.len(),
    {
        self.take_existing(chunk);
        let total = self.pending + chunk.len() as u64;
        if total >= PROGRESS_SIZE as u64 {
            self.pending = 0;
            Some(total as i64)
        } else {
            self.pending = total;
            None
        }
    }

    /// The progress not yet reported, if any; nothing is pending afterwards.
    pub fn flush(&mut self) -> (r: Option<i64>)
        requires
            old(self).wf(),
        ensures
            final(self).wf(),
            final(self).received() == old(self).received(),
            final(self).hashes() == old(self).hashes(),
            final(self).counts() == old(self).counts(),
            final(self).pending() == 0,
            old(self).pending() > 0 ==> r == Some(old(self).pending() as i64),
            old(self).pending() == 0 ==> r is None,
    {
        let pending = self.pending;
        self.pending = 0;
        if pending > 0 {
            Some(pending as i64)
        } else {
            None
        }
    }

    /// Checks what came through against what was expected: the digest where
    /// both a digest is computed and one is expected, then the size where both
    /// are known.
    pub fn check(self, expected_hash: Option<crate::digest::Hash>, expected_size: Option<u64>) -> (r: Result<
        (),
        Mismatch,
    >)
        requires
            self.wf(),
        ensures
            self.counts() ==> self.received().len() <= u64::MAX,
            match (expected_hash, expected_size) {
                (Some(e), _) if self.hashes() && sha3_224(self.received()) != e.0@ => r matches Err(
                    Mismatch::Hash { expected, computed },
                ) && expected == e && computed.0@ == sha3_224(self.received()),
                (_, Some(e)) if self.counts() && self.received().len() != e => r == Err::<
                    (),
                    Mismatch,
                >(Mismatch::Size { expected: e, computed: self.received().len() as u64 }),
                _ => r is Ok,
            },
    {
        let computed_hash = match self.hasher {
            Some(hasher) => Some(hasher_finalize(hasher)),
            None => None,
        };
        check_integrity(computed_hash, expected_hash, self.size, expected_size)
    }
}

} // verus!
