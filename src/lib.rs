//! The Benaloh challenge (interactive device challenge): a commit/reveal protocol that lets a
//! separate, trusted device check that an untrusted computation, deterministic except for the
//! randomness it draws, was run honestly, without the randomness of a kept (cast) result ever
//! being revealed.
//!
//! The randomness boundary is [`RecordingRng`], which records every byte it hands out, and
//! [`PlaybackRng`], which serves a fixed sequence of bytes back. [`Challenge`] sequences
//! commit, then challenge or cast, and erases secret buffers on every transition;
//! [`check_commitment`] re-runs the computation against revealed randomness.
use vstd::prelude::*;

mod capability;
pub mod challenge;
pub mod le_bytes;
pub mod rng;

pub use challenge::{check_commitment, commitment_matches, Challenge};
pub use rng::{PlaybackRng, RecordingRng};

verus! {

/// The recoverable failures: of a commitment check, and of drawing from the true source.
#[derive(Debug, Clone, Copy, PartialEq, Eq, Structural)]
pub enum Error {
    /// The commitment recomputed from the revealed randomness differs from the one received.
    VerificationFailed,
    /// The replayed computation asked for more randomness than was revealed.
    InsufficientRandomness,
    /// The true randomness source behind a recording source reported a failure.
    RandomnessUnavailable,
}

} // verus!
