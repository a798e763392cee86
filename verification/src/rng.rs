//! A deterministic stream of random bytes.
use rand_core::{RngCore, SeedableRng};
use vstd::prelude::*;

use crate::bytes;

verus! {

/// The number of 32-bit words after which the ChaCha stream repeats.
pub const PERIOD_WORDS: u128 = 0x10_0000_0000_0000_0000;

/// What `ChaCha20Rng::fill_bytes` writes into a buffer of `len` bytes, for the
/// generator seeded with `seed` and moved to word `pos` of its stream.
pub uninterp spec fn chacha20_bytes(seed: Seq<u8>, pos: nat, len: nat) -> Seq<u8>;

/// Calls `ChaCha20Rng::from_seed`, `set_word_pos` and `fill_bytes`: the bytes are
/// a function of the seed, the position and the length, and there are `len` of them.
#[verifier::external_body]
fn chacha20_fill(seed: &[u8; 32], pos: u128, len: usize) -> (r: Vec<u8>)
    requires
        pos < PERIOD_WORDS,
    ensures
        r@ == chacha20_bytes(seed@, pos as nat, len as nat),
        r@.len() == len,
{
    let mut generator = rand_chacha::ChaCha20Rng::from_seed(*seed);
    generator.set_word_pos(pos);
    let mut out = vec![0u8; len];
    generator.fill_bytes(&mut out);
    out
}

/// A place in the ChaCha20 stream of a seed.
#[verifier::ext_equal]
pub struct RngState {
    pub seed: Seq<u8>,
    pub pos: nat,
}

impl RngState {
    /// The stream of `seed` from its beginning.
    pub open spec fn start(seed: Seq<u8>) -> RngState {
        RngState { seed, pos: 0 }
    }

    /// The next `len` bytes.
    pub open spec fn bytes(self, len: nat) -> Seq<u8> {
        chacha20_bytes(self.seed, self.pos, len)
    }

    /// The place after `len` bytes were taken: whole words are used up, and the
    /// stream starts again after its period.
    pub open spec fn skip(self, len: nat) -> RngState {
        RngState { seed: self.seed, pos: (self.pos + (len + 3) / 4) % (PERIOD_WORDS as nat) }
    }
}

/// A generator whose output is fixed by a 32-byte seed.
pub struct Rng {
    seed: [u8; 32],
    pos: u128,
}

impl View for Rng {
    type V = RngState;

    closed spec fn view(&self) -> RngState {
        RngState { seed: self.seed@, pos: self.pos as nat }
    }
}

impl Rng {
    #[verifier::type_invariant]
    pub open spec fn in_period(self) -> bool {
        self@.pos < PERIOD_WORDS && self@.seed.len() == 32
    }

    /// The generator at the beginning of the stream of `seed`.
    pub fn from_seed(seed: [u8; 32]) -> (r: Rng)
        ensures
            r@ == RngState::start(seed@),
    {
        Rng { seed, pos: 0 }
    }

    /// The seed, and the word at which the stream stands.
    pub fn place(&self) -> (r: ([u8; 32], u128))
        ensures
            r.0@ == self@.seed,
            r.1 == self@.pos,
            r.1 < PERIOD_WORDS,
    {
        proof {
            use_type_invariant(self);
        }
        (self.seed, self.pos)
    }

    /// Moves to a word of the stream.
    pub fn move_to(&mut self, pos: u128)
        requires
            pos < PERIOD_WORDS,
        ensures
            final(self)@ == (RngState { seed: old(self)@.seed, pos: pos as nat }),
    {
        proof {
            use_type_invariant(&*self);
        }
        self.pos = pos;
    }

    /// Takes the next `len` bytes.
    pub fn take(&mut self, len: usize) -> (r: Vec<u8>)
        ensures
            r@ == old(self)@.bytes(len as nat),
            r@.len() == len,
            final(self)@ == old(self)@.skip(len as nat),
    {
        proof {
            use_type_invariant(&*self);
        }
        let r = chacha20_fill(&self.seed, self.pos, len);
        let words: u128 = (len as u128 + 3) / 4;
        self.pos = (self.pos + words) % PERIOD_WORDS;
        r
    }

    /// Takes the next `N` bytes as an array.
    pub fn take_array<const N: usize>(&mut self) -> (r: [u8; N])
        ensures
            r@ == old(self)@.bytes(N as nat),
            final(self)@ == old(self)@.skip(N as nat),
    {
        let v = self.take(N);
        bytes::to_array::<N>(v.as_slice())
    }

    /// Takes eight bytes as a little-endian number.
    pub fn next_u64(&mut self) -> (r: u64)
        ensures
            r == bytes::u64_of_le(old(self)@.bytes(8)),
            final(self)@ == old(self)@.skip(8),
    {
        let v = self.take(8);
        bytes::u64_from_le(v.as_slice())
    }
}

} // verus!
