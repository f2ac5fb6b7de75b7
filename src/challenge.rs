//! The commit/reveal state machine on the device under challenge, and the check that the
//! verifying device runs on what was revealed.
use vstd::prelude::*;

use crate::capability::{digest_finalize_reset, digest_update, erase};
use crate::rng::{PlaybackRng, RecordingRng};
use crate::Error;

verus! {

/// A Benaloh challenge around an untrusted computation, which draws all its randomness from a
/// recording source. It is committed between `commit` and the `challenge` or `into_results`
/// that follows.
pub struct Challenge<'a, R, C> {
    rng: RecordingRng<'a, R>,
    computation: C,
    result: Vec<u8>,
    cached_random: Vec<u8>,
    committed: bool,
}

impl<'a, R, C> Challenge<'a, R, C> {
    /// Whether a commitment was issued and not yet consumed.
    pub closed spec fn committed(&self) -> bool {
        self.committed
    }

    /// The result of the latest commit, as the challenge still holds it.
    pub closed spec fn result(&self) -> Seq<u8> {
        self.result@
    }

    /// The randomness that the latest commit drew, as the challenge still holds it.
    pub closed spec fn cached_random(&self) -> Seq<u8> {
        self.cached_random@
    }

    /// The untrusted computation.
    pub closed spec fn computation(&self) -> C {
        self.computation
    }

    /// The recording source that the computation draws from.
    pub closed spec fn source(&self) -> RecordingRng<'a, R> {
        self.rng
    }
}

impl<'a, R, C> Challenge<'a, R, C> where
    R: rand_core::RngCore + rand_core::CryptoRng,
    C: Fn(&mut RecordingRng<'a, R>) -> Vec<u8>,
 {
    /// The state invariant: the computation can run on any recording source, the source's
    /// record is empty between calls, and nothing is held while uncommitted.
    pub closed spec fn wf(&self) -> bool {
        &&& forall|s: &mut RecordingRng<'a, R>| self.computation.requires((s,))
        &&& self.rng@ == Seq::<u8>::empty()
        &&& !self.committed ==> self.result@.len() == 0 && self.cached_random@.len() == 0
    }

    /// A challenge, uncommitted, around `rng` and `untrusted_computation`.
    pub fn new(rng: &'a mut R, untrusted_computation: C) -> (r: Self)
        requires
            forall|s: &mut RecordingRng<'a, R>| untrusted_computation.requires((s,)),
        ensures
            r.wf(),
            !r.committed(),
            r.computation() == untrusted_computation,
    {
        let recording_rng = RecordingRng::new(rng);
        Challenge {
            rng: recording_rng,
            computation: untrusted_computation,
            result: Vec::new(),
            cached_random: Vec::new(),
            committed: false,
        }
    }

    /// Runs the computation once against the recording source, keeps its result and the
    /// randomness it drew, and returns the digest of the result; the hasher is reset after.
    /// The result and the randomness kept are those of one run of the computation, started on
    /// a source whose record was empty, so nothing of an earlier round is mixed in.
    pub fn commit<H: digest::Digest + digest::FixedOutputReset>(&mut self, hasher: &mut H) -> (r:
        Vec<u8>)
        requires
            old(self).wf(),
        ensures
            final(self).wf(),
            final(self).committed(),
            final(self).computation() == old(self).computation(),
            old(self).source()@ == Seq::<u8>::empty(),
            final(self).source()@ == Seq::<u8>::empty(),
            exists|s: &mut RecordingRng<'a, R>, out: Vec<u8>|
                {
                    &&& *s == old(self).source()
                    &&& #[trigger] old(self).computation().ensures((s,), out)
                    &&& out@ == final(self).result()
                    &&& (*final(s))@ == final(self).cached_random()
                },
    {
        let ghost before = self.rng;
        let ghost comp = self.computation;
        let result = (self.computation)(&mut self.rng);
        let ghost after = self.rng;
        let ghost run = result;
        assert(exists|s: &mut RecordingRng<'a, R>, out: Vec<u8>|
            *s == before && #[trigger] comp.ensures((s,), out) && out == run && *final(s) == after);
        let drawn = self.rng.fetch_recorded();
        digest_update(hasher, result.as_slice());
        let commitment = digest_finalize_reset(hasher);
        self.result = result;
        self.cached_random = drawn;
        self.committed = true;
        // The run above witnesses the postcondition.
        proof {
            let (s, out) = choose|s: &mut RecordingRng<'a, R>, out: Vec<u8>|
                *s == before && #[trigger] comp.ensures((s,), out) && out == run && *final(s)
                    == after;
            assert(*s == old(self).source());
            assert(old(self).computation().ensures((s,), out));
            assert(out@ == self.result());
            assert((*final(s))@ == self.cached_random());
        }
        commitment
    }

    /// Reveals the randomness of the latest commit, erasing the result and keeping no copy of
    /// the randomness; the challenge is uncommitted after. Called while uncommitted, it aborts.
    pub fn challenge(&mut self) -> (r: Vec<u8>)
        requires
            old(self).wf(),
            old(self).committed(),
        ensures
            final(self).wf(),
            !final(self).committed(),
            r@ == old(self).cached_random(),
            final(self).result() == Seq::<u8>::empty(),
            final(self).cached_random() == Seq::<u8>::empty(),
            final(self).computation() == old(self).computation(),
    {
        vstd::pervasive::runtime_assert(self.committed);
        erase(&mut self.result);
        let mut cached_random = Vec::new();
        std::mem::swap(&mut cached_random, &mut self.cached_random);
        self.committed = false;
        cached_random
    }

    /// Casts: returns the result of the latest commit and erases its randomness. Called while
    /// uncommitted, it aborts.
    pub fn into_results(self) -> (r: Vec<u8>)
        requires
            self.wf(),
            self.committed(),
        ensures
            r@ == self.result(),
    {
        vstd::pervasive::runtime_assert(self.committed);
        let mut this = self;
        erase(&mut this.cached_random);
        this.result
    }

    /// Whether a commitment was issued and not yet consumed.
    pub fn is_committed(&self) -> (r: bool)
        ensures
            r == self.committed(),
    {
        self.committed
    }

    /// The result buffer as the challenge holds it.
    pub fn retained_result(&self) -> (r: &[u8])
        ensures
            r@ == self.result(),
    {
        self.result.as_slice()
    }
}

/// A well-formed challenge that is not committed, fresh or just revealed, keeps nothing of an
/// earlier round: the source's record, the result and the randomness it holds are all empty.
/// A `commit` made from such a state (its precondition is `wf`) therefore runs on a clean
/// record and supersedes nothing.
pub proof fn lemma_uncommitted_keeps_nothing<'a, R, C>(c: Challenge<'a, R, C>) where
    R: rand_core::RngCore + rand_core::CryptoRng,
    C: Fn(&mut RecordingRng<'a, R>) -> Vec<u8>,

    requires
        c.wf(),
        !c.committed(),
    ensures
        c.source()@ == Seq::<u8>::empty(),
        c.result() == Seq::<u8>::empty(),
        c.cached_random() == Seq::<u8>::empty(),
{
    assert(c.result() =~= Seq::<u8>::empty());
    assert(c.cached_random() =~= Seq::<u8>::empty());
}

/// Compares a recomputed commitment with the one received, over their full length.
pub fn commitment_matches(recomputed: &[u8], commitment: &[u8]) -> (r: Result<(), Error>)
    ensures
        r == if recomputed@ == commitment@ {
            Ok::<(), Error>(())
        } else {
            Err::<(), Error>(Error::VerificationFailed)
        },
{
    if recomputed.len() != commitment.len() {
        return Err(Error::VerificationFailed);
    }
    let mut equal = true;
    let mut i: usize = 0;
    while i < recomputed.len()
        invariant
            recomputed@.len() == commitment@.len(),
            i <= recomputed@.len(),
            equal <==> forall|j: int| 0 <= j < i ==> recomputed@[j] == commitment@[j],
        decreases recomputed@.len() - i,
    {
        if recomputed[i] != commitment[i] {
            equal = false;
        }
        i = i + 1;
    }
    assert(equal ==> recomputed@ =~= commitment@);
    if equal {
        Ok(())
    } else {
        Err(Error::VerificationFailed)
    }
}

/// Re-runs the computation against a replay of `revealed_random` and checks the digest of its
/// result against `commitment`. Fails with `InsufficientRandomness` exactly when the computation
/// asked for more randomness than was revealed; otherwise the digest comparison decides.
pub fn check_commitment<H: digest::Digest + digest::FixedOutputReset, C>(
    hasher: &mut H,
    commitment: &[u8],
    revealed_random: &[u8],
    untrusted_computation: C,
) -> (r: Result<(), Error>) where C: Fn(&mut PlaybackRng) -> Vec<u8>
    requires
        forall|p: &mut PlaybackRng| #[trigger] untrusted_computation.requires((p,)),
    ensures
        exists|p: &mut PlaybackRng, out: Vec<u8>|
            {
                &&& (*p)@ == revealed_random@
                &&& !(*p).overrun()
                &&& #[trigger] untrusted_computation.ensures((p,), out)
                &&& ((*final(p)).overrun() <==> r == Err::<(), Error>(Error::InsufficientRandomness))
                &&& !(*final(p)).overrun() ==> (r == Ok::<(), Error>(()) || r == Err::<(), Error>(
                    Error::VerificationFailed,
                ))
            },
{
    let mut playback = PlaybackRng::new(revealed_random);
    let result = untrusted_computation(&mut playback);
    if playback.has_overrun() {
        return Err(Error::InsufficientRandomness);
    }
    digest_update(hasher, result.as_slice());
    let recomputed = digest_finalize_reset(hasher);
    commitment_matches(recomputed.as_slice(), commitment)
}

} // verus!
