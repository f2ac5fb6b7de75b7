//! The outside capabilities the protocol is built on: a true randomness source, secure erasure
//! of byte buffers, and a resettable digest.
use vstd::prelude::*;
use zeroize::Zeroize;

verus! {

/// Relies on `rand_core::RngCore::try_fill_bytes`: fills the whole of `dest` with random bytes,
/// or reports that the source failed, which is how a source reports failure instead of
/// panicking. Returns whether it succeeded. Nothing is known of the bytes themselves; the slice
/// keeps its length.
#[verifier::external_body]
pub(crate) fn draw_into<R: rand_core::RngCore>(rng: &mut R, dest: &mut [u8]) -> (ok: bool)
    ensures
        final(dest)@.len() == old(dest)@.len(),
{
    rng.try_fill_bytes(dest).is_ok()
}

/// Relies on `zeroize::Zeroize` for `Vec<u8>`: overwrites the elements and the spare capacity
/// with zeros, then clears the vector.
#[verifier::external_body]
pub(crate) fn erase(buf: &mut Vec<u8>)
    ensures
        final(buf)@ == Seq::<u8>::empty(),
{
    buf.zeroize()
}

/// Relies on `digest::Digest::update`: feeds `data` into the hasher's running state.
#[verifier::external_body]
pub(crate) fn digest_update<H: digest::Digest>(hasher: &mut H, data: &[u8]) {
    digest::Digest::update(hasher, data)
}

/// Relies on `digest::FixedOutputReset::finalize_fixed_reset`: returns the digest of what was
/// fed in since the last reset and resets the hasher to its initial state.
#[verifier::external_body]
pub(crate) fn digest_finalize_reset<H: digest::FixedOutputReset>(hasher: &mut H) -> Vec<u8> {
    hasher.finalize_fixed_reset().to_vec()
}

} // verus!
