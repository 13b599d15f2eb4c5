use vstd::prelude::*;

verus! {

/// How many bytes a decoder reads at a time.
pub const DECOMPRESS_CHUNK_SIZE: usize = 65536;

/// How many bytes a transfer takes in before it reports progress.
pub const PROGRESS_SIZE: i64 = 131072;

/// The connect timeout of a dataset that sets none, in milliseconds.
pub const DEFAULT_TIMEOUT_MILLISECONDS: i64 = 60000;

} // verus!
