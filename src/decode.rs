use vstd::prelude::*;

use crate::constants::PROGRESS_SIZE;
use crate::transfer::sha3_224;
use crate::transfer::Transfer;
use crate::types::DecodeProgress;
use crate::types::DecompressError;
use crate::types::Force;
use crate::types::PathId;

verus! {

/// A decode is skipped when not forcing and the raw file is present.
pub fn skip_decode(force: Force, raw_present: bool) -> (r: bool)
    ensures
        r == (!force.0 && raw_present),
{
    !force.0 && raw_present
}

/// The progress of `delta` more decoded bytes.
pub fn decode_chunk_progress(path_id: &PathId, delta: i64) -> (r: DecodeProgress)
    ensures
        r == (DecodeProgress {
            path_id: *path_id,
            initial_bytes: 0,
            current_bytes: delta,
            final_bytes: delta,
            complete: false,
        }),
{
    DecodeProgress {
        path_id: path_id.duplicate(),
        initial_bytes: 0,
        current_bytes: delta,
        final_bytes: delta,
        complete: false,
    }
}

/// Takes in one decoded chunk. When the action is no longer running, the
/// decode stops as interrupted and the chunk is not taken in; else the chunk
/// counts toward the digest and the size, and the progress to report, if any,
/// is returned.
pub fn decode_step(path_id: &PathId, transfer: &mut Transfer, running: bool, chunk: &[u8]) -> (r:
    Result<Option<DecodeProgress>, DecompressError>)
    requires
        old(transfer).wf(),
        !old(transfer).counts() || old(transfer).received().len() + chunk@.len() <= u64::MAX,
        chunk@.len() + PROGRESS_SIZE <= i64::MAX,
    ensures
        final(transfer).wf(),
        final(transfer).hashes() == old(transfer).hashes(),
        final(transfer).counts() == old(transfer).counts(),
        !running ==> (r matches Err(DecompressError::Interrupted) && *final(transfer) == *old(transfer)),
        running ==> r is Ok && final(transfer).received() == old(transfer).received() + chunk@,
        running && old(transfer).pending() + chunk@.len() >= PROGRESS_SIZE ==> r == Ok::<
            Option<DecodeProgress>,
            DecompressError,
        >(
            Some(
                DecodeProgress {
                    path_id: *path_id,
                    initial_bytes: 0,
                    current_bytes: (old(transfer).pending() + chunk@.len()) as i64,
                    final_bytes: (old(transfer).pending() + chunk@.len()) as i64,
                    complete: false,
                },
            ),
        ) && final(transfer).pending() == 0,
        running && old(transfer).pending() + chunk@.len() < PROGRESS_SIZE ==> r == Ok::<
            Option<DecodeProgress>,
            DecompressError,
        >(None) && final(transfer).pending() == old(transfer).pending() + chunk@.len(),
{
    if !running {
        return Err(DecompressError::Interrupted);
    }
    match transfer.absorb(chunk) {
        Some(delta) => Ok(Some(decode_chunk_progress(path_id, delta))),
        None => Ok(None),
    }
}

/// Checks a finished decode against the expected digest, then the expected
/// size. On success, returns the terminal progress to send once the raw file
/// is renamed into place.
pub fn finish_decode(
    path_id: &PathId,
    transfer: Transfer,
    expected_size: u64,
    expected_hash: crate::digest::Hash,
) -> (r: Result<DecodeProgress, DecompressError>)
    requires
        transfer.wf(),
        transfer.hashes(),
        transfer.counts(),
    ensures
        sha3_224(transfer.received()) != expected_hash.0@ ==> (r matches Err(
            DecompressError::Hash { path_id: p, expected, downloaded },
        ) && p == *path_id && expected == expected_hash && downloaded.0@ == sha3_224(
            transfer.received(),
        )),
        sha3_224(transfer.received()) == expected_hash.0@ && transfer.received().len()
            != expected_size ==> (r matches Err(DecompressError::Size { path_id: p, expected, downloaded })
            && p == *path_id && expected == expected_size && downloaded == transfer.received().len()),
        sha3_224(transfer.received()) == expected_hash.0@ && transfer.received().len()
            == expected_size ==> r == Ok::<DecodeProgress, DecompressError>(
            DecodeProgress {
                path_id: *path_id,
                initial_bytes: 0,
                current_bytes: 0,
                final_bytes: 0,
                complete: true,
            },
        ),
{
    match transfer.check(Some(expected_hash), Some(expected_size)) {
        Ok(()) => Ok(
            DecodeProgress {
                path_id: path_id.duplicate(),
                initial_bytes: 0,
                current_bytes: 0,
                final_bytes: 0,
                complete: true,
            },
        ),
        Err(crate::transfer::Mismatch::Hash { expected, computed }) => Err(
            DecompressError::Hash { path_id: path_id.duplicate(), expected, downloaded: computed },
        ),
        Err(crate::transfer::Mismatch::Size { expected, computed }) => Err(
            DecompressError::Size { path_id: path_id.duplicate(), expected, downloaded: computed },
        ),
    }
}

} // verus!
