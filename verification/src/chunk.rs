//! Deterministic per-chunk star generation.
//!
//! A chunk's contents are a pure function of its integer coordinate: the
//! coordinate is hashed into a 64-bit seed, the seed drives a pseudorandom
//! generator, and the generator yields a star count below five together with
//! three raw 32-bit words per star.  Each word is a star's fractional offset
//! along one axis, in units of `1 / 2^32` of a chunk side; turning it into a
//! world position is the renderer's concern, not this module's.

use vstd::prelude::*;

use crate::vector3::{ChunkVector, Vector3};

use rand::Rng;
use rand::SeedableRng;

verus! {

/// Multiplier folding the y coordinate into the chunk seed.
pub const SEED_FACTOR_Y: i64 = 889438532;

/// Multiplier folding the z coordinate into the chunk seed.
pub const SEED_FACTOR_Z: i64 = 374324760;

/// The chunk seed: `x + y * SEED_FACTOR_Y + z * SEED_FACTOR_Z` in signed
/// 64-bit arithmetic, reinterpreted as an unsigned 64-bit value by adding
/// `2^64` to a negative total (a two's-complement bitcast).
pub open spec fn spec_seed(pos: ChunkVector) -> u64 {
    let t = pos.x + pos.y * SEED_FACTOR_Y + pos.z * SEED_FACTOR_Z;
    if t >= 0 {
        t as u64
    } else {
        (t + 0x1_0000_0000_0000_0000) as u64
    }
}

/// The star count the pseudorandom generator yields for a seed; always
/// below five.
pub uninterp spec fn star_count_of(seed: u64) -> u32;

/// The twelve raw words the pseudorandom generator yields for a seed after
/// the star-count draw; star `i` reads words `3*i .. 3*i + 3`.
pub uninterp spec fn star_words_of(seed: u64) -> Seq<u32>;

/// Relies on rand 0.8: `StdRng::seed_from_u64` builds a generator whose
/// output stream is a fixed, platform-independent function of the seed
/// (`StdRng` is the ChaCha12 core); `Rng::gen_range(0..5)` draws a value
/// below five from that stream; `Rng::fill` on a `[u32]` buffer then fills
/// it with the stream's next words (`fill_bytes` plus a to-little-endian
/// pass, so the words too depend on the seed alone).
#[verifier::external_body]
fn sample_chunk(seed: u64) -> (r: (u32, Vec<u32>))
    ensures
        r.0 == star_count_of(seed),
        r.0 < 5,
        r.1@ == star_words_of(seed),
        r.1@.len() == 12,
{
    let mut rng = rand::rngs::StdRng::seed_from_u64(seed);
    let count: u32 = rng.gen_range(0..5);
    let mut words: Vec<u32> = vec![0; 12];
    rng.fill(&mut words[..]);
    (count, words)
}

/// The star sequence of the chunk at `pos`: one entry per star, holding the
/// star's three fractional-offset words.
pub open spec fn spec_stars(pos: ChunkVector) -> Seq<Vector3<u32>> {
    let seed = spec_seed(pos);
    Seq::new(
        star_count_of(seed) as nat,
        |i: int|
            Vector3 {
                x: star_words_of(seed)[3 * i],
                y: star_words_of(seed)[3 * i + 1],
                z: star_words_of(seed)[3 * i + 2],
            },
    )
}

/// A cubic region of world space at chunk coordinate `pos`, holding the
/// fractional offsets of its zero to four stars.
#[derive(Debug, PartialEq, Eq)]
pub struct Chunk {
    pub pos: ChunkVector,
    pub stars: Vec<Vector3<u32>>,
}

impl Chunk {
    /// Generate the chunk at `chunk`.  The result is pinned to
    /// `spec_stars(chunk)`, so two calls with the same coordinate yield the
    /// same chunk.
    pub fn populate(chunk: ChunkVector) -> (c: Chunk)
        ensures
            c.pos == chunk,
            c.stars@ == spec_stars(chunk),
            c.stars@.len() < 5,
    {
        let seed = Self::gen_seed(chunk);
        let (num_stars, words) = sample_chunk(seed);
        let mut stars: Vec<Vector3<u32>> = Vec::new();
        let mut i: usize = 0;
        while i < num_stars as usize
            invariant
                num_stars == star_count_of(seed),
                num_stars < 5,
                words@ == star_words_of(seed),
                words@.len() == 12,
                seed == spec_seed(chunk),
                i <= num_stars,
                stars@.len() == i,
                forall|k: int| 0 <= k < i ==> stars@[k] == spec_stars(chunk)[k],
            decreases num_stars - i,
        {
            let star = Vector3 { x: words[3 * i], y: words[3 * i + 1], z: words[3 * i + 2] };
            stars.push(star);
            i = i + 1;
        }
        proof {
            assert(stars@ =~= spec_stars(chunk));
        }
        Chunk { pos: chunk, stars }
    }

    /// Derive the 64-bit seed of the chunk at `coords`.
    fn gen_seed(coords: ChunkVector) -> (s: u64)
        ensures
            s == spec_seed(coords),
    {
        let p = coords.x as i64;
        let q = (coords.y as i64) * SEED_FACTOR_Y;
        let r = (coords.z as i64) * SEED_FACTOR_Z;
        let total: i64 = p + q + r;
        if total >= 0 {
            total as u64
        } else {
            ((total - i64::MIN) as u64) + 0x8000_0000_0000_0000u64
        }
    }
}

/// Law: generation is deterministic.  Two chunks whose contents both match
/// the generation function at one coordinate are equal in coordinate and in
/// every star.
pub proof fn lemma_populate_deterministic(a: Chunk, b: Chunk, coord: ChunkVector)
    requires
        a.pos == coord,
        a.stars@ == spec_stars(coord),
        b.pos == coord,
        b.stars@ == spec_stars(coord),
    ensures
        a.pos == b.pos,
        a.stars@ == b.stars@,
{
}

} // verus!
