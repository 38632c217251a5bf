//! The ChaCha20 generator of `rand_chacha`, drawn through `rand`.
//!
//! A seeded ChaCha20 generator is deterministic: what a draw returns depends
//! only on the seed and on the draws served before it. `KeyedStream` keeps,
//! for proofs, that seed and that list of earlier draws next to the generator.
use vstd::prelude::*;

use rand::Rng;
use rand::SeedableRng;
use rand_chacha::ChaCha20Rng;

verus! {

/// The ChaCha20 generator; its state is not visible to proofs.
#[verifier::external_type_specification]
#[verifier::external_body]
pub struct ExChaCha20Rng(ChaCha20Rng);

/// The value that `Rng::gen_range(0..=hi)` (with `u64` bounds) returns from a
/// `ChaCha20Rng` made by `from_seed(seed)` that has already served the draws
/// listed in `served` (`Some(h)`: a range draw up to `h`; `None`: a fair coin).
pub uninterp spec fn chacha_range_draw(seed: Seq<u8>, served: Seq<Option<u64>>, hi: u64) -> u64;

/// The value that `Rng::gen_ratio(1, 2)` returns from a `ChaCha20Rng` made by
/// `from_seed(seed)` that has already served the draws listed in `served`.
pub uninterp spec fn chacha_coin(seed: Seq<u8>, served: Seq<Option<u64>>) -> bool;

/// A ChaCha20 generator with the seed it was made from and the draws it has
/// served so far.
pub struct KeyedStream {
    rng: ChaCha20Rng,
    seed: Ghost<Seq<u8>>,
    served: Ghost<Seq<Option<u64>>>,
}

impl View for KeyedStream {
    type V = (Seq<u8>, Seq<Option<u64>>);

    closed spec fn view(&self) -> (Seq<u8>, Seq<Option<u64>>) {
        (self.seed@, self.served@)
    }
}

/// `ChaCha20Rng::from_seed`: a generator keyed by the 32-byte seed, which has
/// served no draw yet.
#[verifier::external_body]
pub(crate) fn keyed_stream(seed: [u8; 32]) -> (s: KeyedStream)
    ensures
        s@ == (seed@, Seq::<Option<u64>>::empty()),
{
    KeyedStream { rng: ChaCha20Rng::from_seed(seed), seed: Ghost(seed@), served: Ghost(Seq::empty()) }
}

/// `Rng::gen_range(0..=hi)` on `u64` bounds, so that the draw is the same on
/// every target (on 64-bit targets it is the very draw that `usize` bounds
/// make): a draw from the inclusive range `0..=hi`, which is never empty, so
/// the call does not panic. The value is
/// the one the generator's seed and earlier draws determine, and the draw is
/// added to the list of those served.
#[verifier::external_body]
pub(crate) fn draw_up_to(s: &mut KeyedStream, hi: usize) -> (j: usize)
    ensures
        j <= hi,
        j == chacha_range_draw(old(s)@.0, old(s)@.1, hi as u64),
        final(s)@ == (old(s)@.0, old(s)@.1.push(Some(hi as u64))),
{
    s.served = Ghost(s.served@.push(Some(hi as u64)));
    s.rng.gen_range(0..=hi as u64) as usize
}

/// `Rng::gen_ratio(1, 2)`: a fair coin (the same draw as `gen_bool` with
/// probability one half: one `u64` compared with 2^63). The value is the one
/// the generator's seed and earlier draws determine, and the draw is added to
/// the list of those served.
#[verifier::external_body]
pub(crate) fn draw_coin(s: &mut KeyedStream) -> (b: bool)
    ensures
        b == chacha_coin(old(s)@.0, old(s)@.1),
        final(s)@ == (old(s)@.0, old(s)@.1.push(None::<u64>)),
{
    s.served = Ghost(s.served@.push(None));
    s.rng.gen_ratio(1, 2)
}

} // verus!
