//! The randomness boundary: a source that records every byte it hands out, and a source that
//! serves a fixed sequence of bytes back, front first.
use vstd::prelude::*;

use crate::capability::{draw_into, erase};
use crate::le_bytes::{le_value, lemma_le_value_bound, pow256, u64_from_le};
use crate::Error;

verus! {

/// Wraps a true randomness source, borrowed for its lifetime, and records every byte drawn
/// through it, in draw order. Its view is the record accumulated since the last drain.
pub struct RecordingRng<'a, R> {
    inner: &'a mut R,
    recorded: Vec<u8>,
}

impl<'a, R> View for RecordingRng<'a, R> {
    type V = Seq<u8>;

    closed spec fn view(&self) -> Seq<u8> {
        self.recorded@
    }
}

impl<'a, R: rand_core::RngCore> RecordingRng<'a, R> {
    /// Wraps `rng`, with an empty record.
    pub fn new(rng: &'a mut R) -> (r: Self)
        ensures
            r@ == Seq::<u8>::empty(),
    {
        RecordingRng { inner: rng, recorded: Vec::new() }
    }

    /// Fills `dest` from the wrapped source and appends exactly those bytes to the record. When
    /// the source reports a failure, fails with `RandomnessUnavailable` and leaves the record as
    /// it was.
    pub fn try_fill_bytes(&mut self, dest: &mut [u8]) -> (r: Result<(), Error>)
        ensures
            final(dest)@.len() == old(dest)@.len(),
            r == Ok::<(), Error>(()) || r == Err::<(), Error>(Error::RandomnessUnavailable),
            r == Ok::<(), Error>(()) ==> final(self)@ == old(self)@ + final(dest)@,
            r != Ok::<(), Error>(()) ==> final(self)@ == old(self)@,
    {
        if draw_into(self.inner, dest) {
            self.recorded.extend_from_slice(dest);
            Ok(())
        } else {
            Err(Error::RandomnessUnavailable)
        }
    }

    /// Draws four bytes and reads them as a little-endian `u32`, or fails as `try_fill_bytes`
    /// does.
    pub fn next_u32(&mut self) -> (r: Result<u32, Error>)
        ensures
            r is Ok ==> {
                &&& final(self)@.len() == old(self)@.len() + 4
                &&& final(self)@.subrange(0, old(self)@.len() as int) == old(self)@
                &&& r->Ok_0 as nat == le_value(final(self)@.skip(old(self)@.len() as int))
            },
            r is Err ==> r == Err::<u32, Error>(Error::RandomnessUnavailable) && final(self)@
                == old(self)@,
    {
        let mut buf: Vec<u8> = vec![0u8; 4];
        match self.try_fill_bytes(buf.as_mut_slice()) {
            Ok(()) => {
                let ghost drawn = buf@;
                assert(self@.skip(old(self)@.len() as int) =~= drawn);
                assert(self@.subrange(0, old(self)@.len() as int) =~= old(self)@);
                proof {
                    lemma_le_value_bound(drawn);
                    reveal_with_fuel(pow256, 5);
                }
                Ok(u64_from_le(buf.as_slice()) as u32)
            },
            Err(e) => Err(e),
        }
    }

    /// Draws eight bytes and reads them as a little-endian `u64`, or fails as `try_fill_bytes`
    /// does.
    pub fn next_u64(&mut self) -> (r: Result<u64, Error>)
        ensures
            r is Ok ==> {
                &&& final(self)@.len() == old(self)@.len() + 8
                &&& final(self)@.subrange(0, old(self)@.len() as int) == old(self)@
                &&& r->Ok_0 as nat == le_value(final(self)@.skip(old(self)@.len() as int))
            },
            r is Err ==> r == Err::<u64, Error>(Error::RandomnessUnavailable) && final(self)@
                == old(self)@,
    {
        let mut buf: Vec<u8> = vec![0u8; 8];
        match self.try_fill_bytes(buf.as_mut_slice()) {
            Ok(()) => {
                let ghost drawn = buf@;
                assert(self@.skip(old(self)@.len() as int) =~= drawn);
                assert(self@.subrange(0, old(self)@.len() as int) =~= old(self)@);
                Ok(u64_from_le(buf.as_slice()))
            },
            Err(e) => Err(e),
        }
    }

    /// Hands out the record and empties it, erasing the internal buffer.
    pub fn fetch_recorded(&mut self) -> (r: Vec<u8>)
        ensures
            r@ == old(self)@,
            final(self)@ == Seq::<u8>::empty(),
    {
        let recorded = self.recorded.clone();
        erase(&mut self.recorded);
        assert(recorded@ =~= old(self)@);
        recorded
    }

    /// Ends the recording and gives a source that replays the record.
    pub fn into_playback(self) -> (r: PlaybackRng)
        ensures
            r@ == self@,
            !r.overrun(),
    {
        PlaybackRng { recorded: self.recorded, overrun: false }
    }
}

/// A fixed sequence of bytes that poses as a randomness source, serving it front first.
/// It remembers whether a request ever asked for more than was left.
pub struct PlaybackRng {
    recorded: Vec<u8>,
    overrun: bool,
}

impl View for PlaybackRng {
    type V = Seq<u8>;

    /// The bytes not served yet.
    closed spec fn view(&self) -> Seq<u8> {
        self.recorded@
    }
}

/// The bytes served for a request of `n` bytes: the first `n` of `remaining`, padded with
/// zeros where `remaining` is shorter.
pub open spec fn served(remaining: Seq<u8>, n: nat) -> Seq<u8> {
    Seq::new(n, |i: int| if i < remaining.len() { remaining[i] } else { 0u8 })
}

/// What is left of `remaining` after a request of `n` bytes.
pub open spec fn left_after(remaining: Seq<u8>, n: nat) -> Seq<u8> {
    if n <= remaining.len() {
        remaining.skip(n as int)
    } else {
        Seq::empty()
    }
}

impl PlaybackRng {
    /// Whether some request asked for more bytes than were left.
    pub closed spec fn overrun(&self) -> bool {
        self.overrun
    }

    /// A source that will serve the bytes of `recorded`.
    pub fn new(recorded: &[u8]) -> (r: Self)
        ensures
            r@ == recorded@,
            !r.overrun(),
    {
        PlaybackRng { recorded: vstd::slice::slice_to_vec(recorded), overrun: false }
    }

    /// Whether some request asked for more bytes than were left.
    pub fn has_overrun(&self) -> (r: bool)
        ensures
            r == self.overrun(),
    {
        self.overrun
    }

    /// Serves `dest.len()` bytes from the front; a shortfall is filled with zeros and leaves the
    /// source empty and marked as overrun.
    pub fn fill_bytes(&mut self, dest: &mut [u8])
        ensures
            final(dest)@ == served(old(self)@, old(dest)@.len()),
            final(self)@ == left_after(old(self)@, old(dest)@.len()),
            final(self).overrun() == (old(self).overrun() || old(dest)@.len() > old(self)@.len()),
    {
        let n = dest.len();
        let have = self.recorded.len();
        let mut i: usize = 0;
        while i < n
            invariant
                n == dest@.len(),
                n == old(dest)@.len(),
                have == self.recorded@.len(),
                *self == *old(self),
                i <= n,
                forall|j: int| 0 <= j < i ==> dest@[j] == served(self.recorded@, n as nat)[j],
            decreases n - i,
        {
            if i < have {
                dest[i] = self.recorded[i];
            } else {
                dest[i] = 0u8;
            }
            i = i + 1;
        }
        assert(dest@ =~= served(old(self)@, n as nat));
        if n <= have {
            let rest = self.recorded.split_off(n);
            self.recorded = rest;
            assert(self.recorded@ =~= old(self)@.skip(n as int));
        } else {
            self.recorded = Vec::new();
            self.overrun = true;
            assert(self.recorded@ =~= Seq::<u8>::empty());
        }
    }

    /// Serves `dest.len()` bytes from the front, or fails with `InsufficientRandomness`, leaving
    /// `dest` and the remaining bytes as they were, where fewer are left.
    pub fn try_fill_bytes(&mut self, dest: &mut [u8]) -> (r: Result<(), Error>)
        ensures
            old(dest)@.len() <= old(self)@.len() ==> {
                &&& r == Ok::<(), Error>(())
                &&& final(dest)@ == old(self)@.take(old(dest)@.len() as int)
                &&& final(self)@ == old(self)@.skip(old(dest)@.len() as int)
                &&& final(self).overrun() == old(self).overrun()
            },
            old(dest)@.len() > old(self)@.len() ==> {
                &&& r == Err::<(), Error>(Error::InsufficientRandomness)
                &&& final(dest)@ == old(dest)@
                &&& final(self)@ == old(self)@
                &&& final(self).overrun()
            },
    {
        if self.recorded.len() < dest.len() {
            self.overrun = true;
            Err(Error::InsufficientRandomness)
        } else {
            self.fill_bytes(dest);
            assert(served(old(self)@, old(dest)@.len()) =~= old(self)@.take(old(dest)@.len() as int));
            Ok(())
        }
    }

    /// Serves four bytes, as `fill_bytes` does, and reads them as a little-endian `u32`.
    pub fn next_u32(&mut self) -> (r: u32)
        ensures
            r as nat == le_value(served(old(self)@, 4)),
            final(self)@ == left_after(old(self)@, 4),
            final(self).overrun() == (old(self).overrun() || old(self)@.len() < 4),
    {
        let mut buf: Vec<u8> = vec![0u8; 4];
        self.fill_bytes(buf.as_mut_slice());
        proof {
            lemma_le_value_bound(buf@);
            reveal_with_fuel(pow256, 5);
        }
        u64_from_le(buf.as_slice()) as u32
    }

    /// Serves eight bytes, as `fill_bytes` does, and reads them as a little-endian `u64`.
    pub fn next_u64(&mut self) -> (r: u64)
        ensures
            r as nat == le_value(served(old(self)@, 8)),
            final(self)@ == left_after(old(self)@, 8),
            final(self).overrun() == (old(self).overrun() || old(self)@.len() < 8),
    {
        let mut buf: Vec<u8> = vec![0u8; 8];
        self.fill_bytes(buf.as_mut_slice());
        u64_from_le(buf.as_slice())
    }
}

/// The chunks served by successive requests of the given sizes, starting from `remaining`.
pub open spec fn replay(remaining: Seq<u8>, sizes: Seq<nat>) -> Seq<Seq<u8>>
    decreases sizes.len(),
{
    if sizes.len() == 0 {
        Seq::empty()
    } else {
        seq![served(remaining, sizes[0])] + replay(
            left_after(remaining, sizes[0]),
            sizes.drop_first(),
        )
    }
}

/// Whether one of successive requests of the given sizes asks for more than is left.
pub open spec fn replay_overruns(remaining: Seq<u8>, sizes: Seq<nat>) -> bool
    decreases sizes.len(),
{
    if sizes.len() == 0 {
        false
    } else {
        sizes[0] > remaining.len() || replay_overruns(
            left_after(remaining, sizes[0]),
            sizes.drop_first(),
        )
    }
}

/// The sizes of the chunks, in order.
pub open spec fn chunk_sizes(chunks: Seq<Seq<u8>>) -> Seq<nat> {
    chunks.map_values(|c: Seq<u8>| c.len())
}

/// The sum of the sizes.
pub open spec fn total(sizes: Seq<nat>) -> nat
    decreases sizes.len(),
{
    if sizes.len() == 0 {
        0
    } else {
        sizes[0] + total(sizes.drop_first())
    }
}

/// Randomness recorded chunk by chunk (the record is the chunks joined in draw order), replayed
/// with requests of the same sizes, is served back exactly, chunk by chunk, whatever follows
/// it, and no request runs short. Replaying the same bytes to the same requests thus always
/// serves the same chunks.
pub proof fn lemma_replay_of_record(chunks: Seq<Seq<u8>>, rest: Seq<u8>)
    ensures
        replay(chunks.flatten() + rest, chunk_sizes(chunks)) == chunks,
        !replay_overruns(chunks.flatten() + rest, chunk_sizes(chunks)),
    decreases chunks.len(),
{
    if chunks.len() == 0 {
        assert(replay(chunks.flatten() + rest, chunk_sizes(chunks)) =~= chunks);
    } else {
        let first = chunks[0];
        let others = chunks.drop_first();
        let all = chunks.flatten() + rest;
        lemma_replay_of_record(others, rest);
        assert(chunks.flatten() == first + others.flatten());
        assert(all =~= first + (others.flatten() + rest));
        assert(served(all, first.len()) =~= first);
        assert(left_after(all, first.len()) =~= others.flatten() + rest);
        assert(chunk_sizes(chunks).drop_first() =~= chunk_sizes(others));
        assert(replay(all, chunk_sizes(chunks)) =~= chunks);
    }
}

/// Requests that ask in total for more bytes than were revealed run short at some point.
pub proof fn lemma_short_revelation_overruns(remaining: Seq<u8>, sizes: Seq<nat>)
    requires
        total(sizes) > remaining.len(),
    ensures
        replay_overruns(remaining, sizes),
    decreases sizes.len(),
{
    if sizes.len() > 0 && sizes[0] <= remaining.len() {
        lemma_short_revelation_overruns(left_after(remaining, sizes[0]), sizes.drop_first());
    }
}

} // verus!
