//! Size-probing of raw brotli streams: running the decompressor only to
//! count the bytes it would emit, discarding the output itself.
use vstd::prelude::*;

verus! {

/// The number of bytes the brotli stream `s` inflates to under the probing
/// decompressor, a function of the stream bytes alone; a stream the
/// decompressor rejects counts as 0.
pub uninterp spec fn brotli_decompressed_size_of(s: Seq<u8>) -> u64;

/// Relies on brotli_decompressor::Decompressor, driven through
/// std::io::copy into std::io::sink: decompression is deterministic, so the
/// count of emitted bytes depends on the input bytes alone; on a stream the
/// decompressor rejects the count reads as 0.
#[verifier::external_body]
pub fn brotli_calculate_decompressed_size(buf: &[u8]) -> (r: u64)
    ensures
        r == brotli_decompressed_size_of(buf@),
{
    let mut decompressor = brotli_decompressor::Decompressor::new(buf, 4096);
    match std::io::copy(&mut decompressor, &mut std::io::sink()) {
        Ok(count) => count,
        Err(_) => 0,
    }
}

} // verus!
