use benaloh_challenge::{check_commitment, commitment_matches, Challenge, Error, PlaybackRng, RecordingRng};
use core::num::NonZeroU32;
use rand::{CryptoRng, Rng, RngCore};
use rsa::{PaddingScheme, PublicKey, RsaPrivateKey};
use sha2::{Digest, Sha256};

/// Lets code written against `rand` draw from a recording source.
struct Recorder<'b, 'a, R: RngCore>(&'b mut RecordingRng<'a, R>);

impl<'b, 'a, R: RngCore> RngCore for Recorder<'b, 'a, R> {
    fn next_u32(&mut self) -> u32 {
        self.0.next_u32().expect("randomness source failed")
    }

    fn next_u64(&mut self) -> u64 {
        self.0.next_u64().expect("randomness source failed")
    }

    fn fill_bytes(&mut self, dest: &mut [u8]) {
        self.0.try_fill_bytes(dest).expect("randomness source failed")
    }

    fn try_fill_bytes(&mut self, dest: &mut [u8]) -> Result<(), rand_core::Error> {
        self.0
            .try_fill_bytes(dest)
            .map_err(|_| rand_core::Error::from(NonZeroU32::new(rand_core::Error::CUSTOM_START).unwrap()))
    }
}

impl<'b, 'a, R: RngCore> CryptoRng for Recorder<'b, 'a, R> {}

/// Lets code written against `rand` draw from a playback source.
struct Player<'b>(&'b mut PlaybackRng);

impl<'b> RngCore for Player<'b> {
    fn next_u32(&mut self) -> u32 {
        self.0.next_u32()
    }

    fn next_u64(&mut self) -> u64 {
        self.0.next_u64()
    }

    fn fill_bytes(&mut self, dest: &mut [u8]) {
        self.0.fill_bytes(dest)
    }

    fn try_fill_bytes(&mut self, dest: &mut [u8]) -> Result<(), rand_core::Error> {
        self.0
            .try_fill_bytes(dest)
            .map_err(|_| rand_core::Error::from(NonZeroU32::new(rand_core::Error::CUSTOM_START).unwrap()))
    }
}

impl<'b> CryptoRng for Player<'b> {}

fn draw_eight<R: Rng>(rng: &mut R, _foo: i32) -> Vec<u8> {
    let mut bytes = vec![0; 8];
    rng.fill_bytes(&mut bytes);
    bytes.to_vec()
}

fn draw_eight_plain<R: Rng>(rng: &mut R) -> Vec<u8> {
    let mut bytes = vec![0; 8];
    rng.fill_bytes(&mut bytes);
    bytes.to_vec()
}

fn draw_sixteen_checked<R: Rng>(rng: &mut R) -> Vec<u8> {
    let mut bytes = vec![0; 16];
    let _ = rng.try_fill_bytes(&mut bytes);
    bytes
}

fn encrypt<R: RngCore + CryptoRng, K: PublicKey>(rng: &mut R, public_key: &K, message: &[u8]) -> Vec<u8> {
    public_key.encrypt(rng, PaddingScheme::PKCS1v15Encrypt, message).unwrap()
}

fn sha256(bytes: &[u8]) -> Vec<u8> {
    let mut hasher = Sha256::new();
    hasher.update(bytes);
    hasher.finalize().to_vec()
}

#[test]
fn copy_rng_test() -> Result<(), Error> {
    let mut rng = rand::thread_rng();
    let mut hasher = Sha256::new();
    let some_foo = 123;

    let mut challenge = Challenge::new(&mut rng, |rng: &mut RecordingRng<_>| {
        draw_eight(&mut Recorder(rng), some_foo)
    });
    let commitment = challenge.commit(&mut hasher);
    let revealed = challenge.challenge();

    // Check the challenge on a different (trusted) device.
    check_commitment(&mut hasher, &commitment, &revealed, |rng: &mut PlaybackRng| {
        draw_eight(&mut Player(rng), some_foo)
    })?;

    challenge.commit(&mut hasher);

    let _results = challenge.into_results();

    Ok(())
}

#[test]
fn rsa_test() -> Result<(), Error> {
    let mut rng = rand::thread_rng();
    let mut hasher = Sha256::new();
    let key = RsaPrivateKey::new(&mut rng, 512).unwrap();
    let public_key = key.to_public_key();
    let message = b"Barak Obama";

    let mut challenge = Challenge::new(&mut rng, |rng: &mut RecordingRng<_>| {
        encrypt(&mut Recorder(rng), &public_key, message)
    });

    // Get the commitment
    let commitment = challenge.commit(&mut hasher);

    // Reveal the secret random factors used in the encryption
    let revealed = challenge.challenge();

    // Check the challenge on a different (trusted) device.
    check_commitment(&mut hasher, &commitment, &revealed, |rng: &mut PlaybackRng| {
        encrypt(&mut Player(rng), &public_key, message)
    })?;

    // Get the real results, discarding the random factors.
    challenge.commit(&mut hasher);
    let _ciphertext = challenge.into_results();

    Ok(())
}

#[test]
fn cheat_test() -> Result<(), Error> {
    let incrementing = vec![0, 1, 2, 3, 4, 5, 6, 7, 8, 9, 10, 11, 12, 13, 14, 15];
    let mut playback = PlaybackRng::new(&incrementing);
    let mut rng = Player(&mut playback);
    let mut hasher = Sha256::new();

    let mut challenge = Challenge::new(&mut rng, |rng: &mut RecordingRng<_>| draw_eight_plain(&mut Recorder(rng)));
    let commitment = challenge.commit(&mut hasher);
    let _revealed = challenge.challenge();

    // Cheat!  Replace revealed with out cheat values.
    let revealed = vec![0, 0, 0, 0, 0, 0, 0, 0, 0];

    // Check the challenge on a different (trusted) device.
    let ok = check_commitment(&mut hasher, &commitment, &revealed, |rng: &mut PlaybackRng| {
        draw_eight_plain(&mut Player(rng))
    });

    assert!(ok.is_err());
    Ok(())
}

#[test]
fn honest_round_trip_with_fixed_randomness() {
    let fixed: Vec<u8> = vec![0, 1, 2, 3, 4, 5, 6, 7];
    let mut source = PlaybackRng::new(&fixed);
    let mut rng = Player(&mut source);
    let mut hasher = Sha256::new();

    let mut challenge = Challenge::new(&mut rng, |rng: &mut RecordingRng<_>| draw_eight_plain(&mut Recorder(rng)));
    let commitment = challenge.commit(&mut hasher);
    assert_eq!(commitment, sha256(&[0, 1, 2, 3, 4, 5, 6, 7]));
    let revealed = challenge.challenge();
    assert_eq!(revealed, vec![0, 1, 2, 3, 4, 5, 6, 7]);

    let verdict = check_commitment(&mut hasher, &commitment, &revealed, |rng: &mut PlaybackRng| {
        draw_eight_plain(&mut Player(rng))
    });
    assert_eq!(verdict, Ok(()));
}

#[test]
fn tampered_revelation_fails_verification() {
    let fixed: Vec<u8> = vec![0, 1, 2, 3, 4, 5, 6, 7];
    let mut source = PlaybackRng::new(&fixed);
    let mut rng = Player(&mut source);
    let mut hasher = Sha256::new();

    let mut challenge = Challenge::new(&mut rng, |rng: &mut RecordingRng<_>| draw_eight_plain(&mut Recorder(rng)));
    let commitment = challenge.commit(&mut hasher);
    let _revealed = challenge.challenge();

    let tampered: Vec<u8> = vec![0, 0, 0, 0, 0, 0, 0, 0];
    let verdict = check_commitment(&mut hasher, &commitment, &tampered, |rng: &mut PlaybackRng| {
        draw_eight_plain(&mut Player(rng))
    });
    assert_eq!(verdict, Err(Error::VerificationFailed));
}

#[test]
fn short_revelation_is_insufficient_randomness() {
    let mut rng = rand::thread_rng();
    let mut hasher = Sha256::new();

    let mut challenge = Challenge::new(&mut rng, |rng: &mut RecordingRng<_>| draw_sixteen_checked(&mut Recorder(rng)));
    let commitment = challenge.commit(&mut hasher);
    let revealed = challenge.challenge();
    assert_eq!(revealed.len(), 16);

    let short = &revealed[..9];
    let verdict = check_commitment(&mut hasher, &commitment, short, |rng: &mut PlaybackRng| {
        draw_sixteen_checked(&mut Player(rng))
    });
    assert_eq!(verdict, Err(Error::InsufficientRandomness));

    // The full revelation still checks out with the same hasher.
    let verdict = check_commitment(&mut hasher, &commitment, &revealed, |rng: &mut PlaybackRng| {
        draw_sixteen_checked(&mut Player(rng))
    });
    assert_eq!(verdict, Ok(()));
}

#[test]
fn short_revelation_is_caught_with_unchecked_draws() {
    let revealed: Vec<u8> = vec![1, 2, 3, 4, 5, 6, 7, 8, 9];
    let mut hasher = Sha256::new();
    let commitment = sha256(&[1, 2, 3, 4, 5, 6, 7, 8, 9, 0, 0, 0, 0, 0, 0, 0]);
    let verdict = check_commitment(&mut hasher, &commitment, &revealed, |rng: &mut PlaybackRng| {
        let mut bytes = vec![0u8; 16];
        rng.fill_bytes(&mut bytes);
        bytes
    });
    assert_eq!(verdict, Err(Error::InsufficientRandomness));
}

#[test]
fn fresh_challenge_is_not_committed() {
    let mut rng = rand::thread_rng();
    let challenge = Challenge::new(&mut rng, |rng: &mut RecordingRng<_>| draw_eight_plain(&mut Recorder(rng)));
    assert!(!challenge.is_committed());
    assert!(challenge.retained_result().is_empty());
}

#[test]
fn challenge_erases_the_result() {
    let fixed: Vec<u8> = vec![10, 20, 30, 40, 50, 60, 70, 80];
    let mut source = PlaybackRng::new(&fixed);
    let mut rng = Player(&mut source);
    let mut hasher = Sha256::new();

    let mut challenge = Challenge::new(&mut rng, |rng: &mut RecordingRng<_>| draw_eight_plain(&mut Recorder(rng)));
    challenge.commit(&mut hasher);
    assert!(challenge.is_committed());
    assert_eq!(challenge.retained_result(), &[10, 20, 30, 40, 50, 60, 70, 80]);
    let revealed = challenge.challenge();
    assert_eq!(revealed, fixed);
    assert!(!challenge.is_committed());
    assert!(challenge.retained_result().iter().all(|b| *b == 0));
}

#[test]
fn recommit_after_challenge_uses_fresh_randomness() {
    let fixed: Vec<u8> = (0u8..16).collect();
    let mut source = PlaybackRng::new(&fixed);
    let mut rng = Player(&mut source);
    let mut hasher = Sha256::new();

    let mut challenge = Challenge::new(&mut rng, |rng: &mut RecordingRng<_>| draw_eight_plain(&mut Recorder(rng)));
    let first = challenge.commit(&mut hasher);
    let first_revealed = challenge.challenge();
    assert_eq!(first_revealed, vec![0, 1, 2, 3, 4, 5, 6, 7]);

    let second = challenge.commit(&mut hasher);
    assert!(challenge.is_committed());
    assert_eq!(second, sha256(&[8, 9, 10, 11, 12, 13, 14, 15]));
    assert_ne!(first, second);
    let second_revealed = challenge.challenge();
    assert_eq!(second_revealed, vec![8, 9, 10, 11, 12, 13, 14, 15]);
}

#[test]
fn cast_returns_the_committed_result() {
    let fixed: Vec<u8> = vec![3, 1, 4, 1, 5, 9, 2, 6];
    let mut source = PlaybackRng::new(&fixed);
    let mut rng = Player(&mut source);
    let mut hasher = Sha256::new();

    let mut challenge = Challenge::new(&mut rng, |rng: &mut RecordingRng<_>| draw_eight_plain(&mut Recorder(rng)));
    let commitment = challenge.commit(&mut hasher);
    assert_eq!(commitment, sha256(&fixed));
    assert_eq!(challenge.into_results(), fixed);
}

#[test]
fn commitment_comparison_is_exact() {
    assert_eq!(commitment_matches(&[1, 2, 3], &[1, 2, 3]), Ok(()));
    assert_eq!(commitment_matches(&[1, 2, 3], &[1, 2, 4]), Err(Error::VerificationFailed));
    assert_eq!(commitment_matches(&[1, 2, 3], &[1, 2]), Err(Error::VerificationFailed));
    assert_eq!(commitment_matches(&[], &[]), Ok(()));
}
