use vstd::prelude::*;

verus! {

#[verifier::external_type_specification]
#[verifier::external_body]
pub struct ExChaCha12Rng(chacha20::ChaCha12Rng);

/// What one bounded draw from the seeded stream returns. A ChaCha12 stream is
/// a pure function of its seed, and uniform integer sampling consumes the
/// stream deterministically, so a draw is a pure function of the seed and of
/// the bounds of every draw made before it.
pub uninterp spec fn draw_of(seed: u64, history: Seq<(u64, u64)>, lo: u64, hi: u64) -> u64;

/// A seeded pseudo-random source for the dungeon generator. The ghost fields
/// record the seed and the bounds of the draws made so far, so that contracts
/// can speak of each draw as a pure function of the two.
pub struct DungeonRng {
    inner: chacha20::ChaCha12Rng,
    seed: Ghost<u64>,
    history: Ghost<Seq<(u64, u64)>>,
}

impl DungeonRng {
    pub closed spec fn seed(self) -> u64 {
        self.seed@
    }

    pub closed spec fn history(self) -> Seq<(u64, u64)> {
        self.history@
    }

    /// A fresh source with nothing drawn yet.
    pub fn new(seed: u64) -> (r: DungeonRng)
        ensures
            r.seed() == seed,
            r.history() == Seq::<(u64, u64)>::empty(),
    {
        let inner = seeded_stream(seed);
        DungeonRng { inner, seed: Ghost(seed), history: Ghost(Seq::empty()) }
    }

    /// A uniform draw in `[lo, hi)`.
    pub fn roll(&mut self, lo: u64, hi: u64) -> (r: u64)
        requires
            lo < hi,
        ensures
            lo <= r < hi,
            r == draw_of(old(self).seed(), old(self).history(), lo, hi),
            final(self).seed() == old(self).seed(),
            final(self).history() == old(self).history().push((lo, hi)),
    {
        draw_inner(self, lo, hi)
    }
}

/// Relies on chacha20::ChaCha12Rng::seed_from_u64 (rand_core::SeedableRng):
/// a ChaCha12 stream is reproducible, so a fixed seed yields the same stream
/// on every run and architecture.
#[verifier::external_body]
fn seeded_stream(seed: u64) -> (r: chacha20::ChaCha12Rng) {
    <chacha20::ChaCha12Rng as rand::SeedableRng>::seed_from_u64(seed)
}

/// Relies on rand::RngExt::random_range over a ChaCha12 stream: the result is
/// uniform in `[lo, hi)` (the call panics only on an empty range), and it is
/// a pure function of the stream's seed and of the bounds drawn so far.
#[verifier::external_body]
fn draw_inner(rng: &mut DungeonRng, lo: u64, hi: u64) -> (r: u64)
    requires
        lo < hi,
    ensures
        lo <= r < hi,
        r == draw_of(old(rng).seed(), old(rng).history(), lo, hi),
        final(rng).seed() == old(rng).seed(),
        final(rng).history() == old(rng).history().push((lo, hi)),
{
    rand::RngExt::random_range(&mut rng.inner, lo..hi)
}

} // verus!
