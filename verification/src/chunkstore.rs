//! The windowed chunk store.
//!
//! The store holds exactly one generated chunk for every integer coordinate
//! inside an axis-aligned window `lo <= c < hi`, kept in lexicographic
//! (x, then y, then z) order.  When the window moves, the store is rebuilt
//! by a single merge pass over the old sequence and the new window, so a
//! chunk whose coordinate lies in both windows is carried over instead of
//! being regenerated, and the whole update costs one traversal of each.

use vstd::arithmetic::div_mod::lemma_fundamental_div_mod;
use vstd::arithmetic::div_mod::lemma_fundamental_div_mod_converse;
use vstd::arithmetic::div_mod::lemma_mod_pos_bound;
use vstd::prelude::*;

use crate::chunk::Chunk;
use crate::chunk::spec_stars;
use crate::vector3::{ChunkVector, Vector3};

verus! {

/// Magnitude limit on the chunk coordinates handed to `get_gen_bounds`,
/// so that the exclusive upper bound and the window extent still fit in
/// `i32`.
pub const GEN_COORD_LIMIT: i32 = 0x2000_0000;

/// Shorthand for a chunk coordinate built from its three components.
pub open spec fn cv(x: i32, y: i32, z: i32) -> ChunkVector {
    Vector3 { x, y, z }
}

/// Lexicographic order on chunk coordinates: by x, then y, then z.
pub open spec fn lex_lt(a: ChunkVector, b: ChunkVector) -> bool {
    ||| a.x < b.x
    ||| (a.x == b.x && a.y < b.y)
    ||| (a.x == b.x && a.y == b.y && a.z < b.z)
}

/// The window is non-empty on every axis.
pub open spec fn valid_window(lo: ChunkVector, hi: ChunkVector) -> bool {
    lo.x < hi.x && lo.y < hi.y && lo.z < hi.z
}

/// Number of integer coordinates inside the window.
pub open spec fn window_len(lo: ChunkVector, hi: ChunkVector) -> int {
    (hi.x - lo.x) * ((hi.y - lo.y) * (hi.z - lo.z))
}

/// `c` lies inside the window (`hi` exclusive).
pub open spec fn in_window(lo: ChunkVector, hi: ChunkVector, c: ChunkVector) -> bool {
    lo.x <= c.x < hi.x && lo.y <= c.y < hi.y && lo.z <= c.z < hi.z
}

/// Rank of `c` in the lexicographic enumeration of the window.
pub open spec fn window_index(lo: ChunkVector, hi: ChunkVector, c: ChunkVector) -> int {
    (c.x - lo.x) * ((hi.y - lo.y) * (hi.z - lo.z)) + (c.y - lo.y) * (hi.z - lo.z) + (c.z - lo.z)
}

/// The `i`-th coordinate of the window in lexicographic order.
pub open spec fn window_coord(lo: ChunkVector, hi: ChunkVector, i: int) -> ChunkVector {
    let dz = hi.z - lo.z;
    let dyz = (hi.y - lo.y) * dz;
    Vector3 {
        x: (lo.x + i / dyz) as i32,
        y: (lo.y + (i % dyz) / dz) as i32,
        z: (lo.z + (i % dyz) % dz) as i32,
    }
}

/// A window the store can be built over: non-empty, with per-axis extents
/// that fit in `i32` and a chunk count small enough that the star total
/// cannot overflow `usize`.
pub open spec fn feasible_window(lo: ChunkVector, hi: ChunkVector) -> bool {
    &&& valid_window(lo, hi)
    &&& hi.x - lo.x <= i32::MAX
    &&& hi.y - lo.y <= i32::MAX
    &&& hi.z - lo.z <= i32::MAX
    &&& window_len(lo, hi) <= usize::MAX as int / 8
}

/// Total star count of a chunk sequence.
pub open spec fn total_stars(s: Seq<Chunk>) -> int
    decreases s.len(),
{
    if s.len() == 0 {
        0
    } else {
        total_stars(s.drop_last()) + s.last().stars@.len()
    }
}

proof fn lemma_total_stars_push(s: Seq<Chunk>, c: Chunk)
    ensures
        total_stars(s.push(c)) == total_stars(s) + c.stars@.len(),
{
    assert(s.push(c).drop_last() =~= s);
    assert(s.push(c).last() == c);
}

proof fn lemma_mul_pos(a: int, b: int)
    by (nonlinear_arith)
    requires
        a > 0,
        b > 0,
    ensures
        a * b > 0,
{
}

proof fn lemma_mul_comm(a: int, b: int)
    by (nonlinear_arith)
    ensures
        a * b == b * a,
{
}

proof fn lemma_mul_zero(b: int)
    by (nonlinear_arith)
    ensures
        0 * b == 0,
{
}

proof fn lemma_mul_succ(a: int, b: int)
    by (nonlinear_arith)
    ensures
        (a + 1) * b == a * b + b,
{
}

proof fn lemma_mul_sub(a: int, b: int, c: int)
    by (nonlinear_arith)
    ensures
        (a - b) * c == a * c - b * c,
{
}

proof fn lemma_mul_bound(q: int, r: int, d: int, n: int)
    by (nonlinear_arith)
    requires
        0 <= q < n,
        0 <= r < d,
    ensures
        0 <= q * d + r < n * d,
{
}

proof fn lemma_q_bound(q: int, r: int, d: int, n: int)
    by (nonlinear_arith)
    requires
        d > 0,
        0 <= r < d,
        0 <= d * q + r < n * d,
    ensures
        0 <= q < n,
{
}

proof fn lemma_lex_pos(u: int, v: int, w: int, dy: int, dz: int)
    by (nonlinear_arith)
    requires
        dy > 0,
        dz > 0,
        (u >= 1 && -dy < v < dy && -dz < w < dz) || (u == 0 && v >= 1 && -dz < w < dz) || (u == 0
            && v == 0 && w >= 1),
    ensures
        u * (dy * dz) + v * dz + w > 0,
{
}

/// A coordinate inside the window has a rank inside `[0, window_len)`, and
/// the enumeration returns it at that rank.
proof fn lemma_coord_of_index(lo: ChunkVector, hi: ChunkVector, c: ChunkVector)
    requires
        valid_window(lo, hi),
        in_window(lo, hi, c),
    ensures
        0 <= window_index(lo, hi, c) < window_len(lo, hi),
        window_coord(lo, hi, window_index(lo, hi, c)) == c,
{
    let dx: int = hi.x - lo.x;
    let dy: int = hi.y - lo.y;
    let dz: int = hi.z - lo.z;
    let dyz: int = dy * dz;
    let x1: int = c.x - lo.x;
    let y1: int = c.y - lo.y;
    let z1: int = c.z - lo.z;
    let r: int = y1 * dz + z1;
    let i: int = x1 * dyz + r;
    lemma_mul_bound(y1, z1, dz, dy);
    lemma_mul_bound(x1, r, dyz, dx);
    assert(window_index(lo, hi, c) == i);
    lemma_fundamental_div_mod_converse(i, dyz, x1, r);
    lemma_fundamental_div_mod_converse(r, dz, y1, z1);
    assert(window_coord(lo, hi, i).x == c.x);
    assert(window_coord(lo, hi, i).y == c.y);
    assert(window_coord(lo, hi, i).z == c.z);
}

/// Every rank inside `[0, window_len)` enumerates a coordinate inside the
/// window, and that coordinate's rank is the one started from.
proof fn lemma_index_of_coord(lo: ChunkVector, hi: ChunkVector, i: int)
    requires
        valid_window(lo, hi),
        0 <= i < window_len(lo, hi),
    ensures
        in_window(lo, hi, window_coord(lo, hi, i)),
        window_index(lo, hi, window_coord(lo, hi, i)) == i,
{
    let dx: int = hi.x - lo.x;
    let dy: int = hi.y - lo.y;
    let dz: int = hi.z - lo.z;
    let dyz: int = dy * dz;
    lemma_mul_pos(dy, dz);
    lemma_fundamental_div_mod(i, dyz);
    lemma_mod_pos_bound(i, dyz);
    let q1: int = i / dyz;
    let r1: int = i % dyz;
    lemma_q_bound(q1, r1, dyz, dx);
    lemma_fundamental_div_mod(r1, dz);
    lemma_mod_pos_bound(r1, dz);
    let q2: int = r1 / dz;
    let z1: int = r1 % dz;
    lemma_q_bound(q2, z1, dz, dy);
    lemma_mul_comm(q1, dyz);
    lemma_mul_comm(q2, dz);
    assert(in_window(lo, hi, window_coord(lo, hi, i)));
    assert(window_index(lo, hi, window_coord(lo, hi, i)) == q1 * dyz + q2 * dz + z1);
}

/// Lexicographic order of two window coordinates agrees with the order of
/// their ranks.
proof fn lemma_lex_index(lo: ChunkVector, hi: ChunkVector, a: ChunkVector, b: ChunkVector)
    requires
        valid_window(lo, hi),
        in_window(lo, hi, a),
        in_window(lo, hi, b),
        lex_lt(a, b),
    ensures
        window_index(lo, hi, a) < window_index(lo, hi, b),
{
    let dy: int = hi.y - lo.y;
    let dz: int = hi.z - lo.z;
    let dyz: int = dy * dz;
    let u: int = b.x - a.x;
    let v: int = b.y - a.y;
    let w: int = b.z - a.z;
    lemma_lex_pos(u, v, w, dy, dz);
    lemma_mul_sub(b.x - lo.x, a.x - lo.x, dyz);
    lemma_mul_sub(b.y - lo.y, a.y - lo.y, dz);
    assert((b.x - a.x) * dyz == (b.x - lo.x - (a.x - lo.x)) * dyz);
    assert((b.y - a.y) * dz == (b.y - lo.y - (a.y - lo.y)) * dz);
}

/// Chunks stored at increasing ranks have lexicographically increasing
/// coordinates.
proof fn lemma_sorted(lo: ChunkVector, hi: ChunkVector, i: int, j: int)
    requires
        valid_window(lo, hi),
        0 <= i < j < window_len(lo, hi),
    ensures
        lex_lt(window_coord(lo, hi, i), window_coord(lo, hi, j)),
{
    let a = window_coord(lo, hi, i);
    let b = window_coord(lo, hi, j);
    lemma_index_of_coord(lo, hi, i);
    lemma_index_of_coord(lo, hi, j);
    if a == b {
        assert(false);
    } else if lex_lt(b, a) {
        lemma_lex_index(lo, hi, b, a);
        assert(false);
    }
}

/// What the merge guarantees of the chunk at rank `k` of the new sequence
/// `s`: its coordinate is the new window's `k`-th, and it carries the old
/// store's stars when the old window covered that coordinate, or freshly
/// generated stars otherwise.
pub open spec fn merged_at(
    prev: ChunkStore,
    lo: ChunkVector,
    hi: ChunkVector,
    s: Seq<Chunk>,
    k: int,
) -> bool {
    let c = s[k];
    &&& c.pos == window_coord(lo, hi, k)
    &&& c.stars@.len() <= 4
    &&& in_window(prev.lo, prev.hi, c.pos) ==> c.stars@ == prev.chunks@[window_index(
        prev.lo,
        prev.hi,
        c.pos,
    )].stars@
    &&& !in_window(prev.lo, prev.hi, c.pos) ==> c.stars@ == spec_stars(c.pos)
}

/// `true` exactly when `a` sorts lexicographically before `(x, y, z)`.
fn lex_before(a: &ChunkVector, x: i32, y: i32, z: i32) -> (b: bool)
    ensures
        b == lex_lt(*a, cv(x, y, z)),
{
    a.x < x || (a.x == x && (a.y < y || (a.y == y && a.z < z)))
}

/// `true` exactly when `c` sits at the chunk coordinate `(x, y, z)`.
fn pos_matches(c: &Chunk, x: i32, y: i32, z: i32) -> (b: bool)
    ensures
        b == (c.pos == cv(x, y, z)),
{
    c.pos.x == x && c.pos.y == y && c.pos.z == z
}

/// A by-value copy of a borrowed chunk, element by element.
fn copy_chunk(c: &Chunk) -> (r: Chunk)
    ensures
        r.pos == c.pos,
        r.stars@ == c.stars@,
{
    let mut stars: Vec<Vector3<u32>> = Vec::new();
    let mut i: usize = 0;
    while i < c.stars.len()
        invariant
            i <= c.stars@.len(),
            stars@.len() == i,
            forall|k: int| 0 <= k < i ==> stars@[k] == c.stars@[k],
        decreases c.stars@.len() - i,
    {
        let s = c.stars[i];
        stars.push(s);
        i = i + 1;
    }
    proof {
        assert(stars@ =~= c.stars@);
    }
    Chunk { pos: c.pos, stars }
}

/// The streamed chunk window.  `chunks` holds one generated chunk per
/// coordinate of the window `lo <= c < hi`, in lexicographic order;
/// `delta == hi - lo` and `num_stars` caches the total star count.
pub struct ChunkStore {
    pub lo: ChunkVector,
    pub hi: ChunkVector,
    pub delta: ChunkVector,
    pub num_stars: usize,
    pub chunks: Vec<Chunk>,
}

impl ChunkStore {
    /// Structural invariant: the chunk sequence enumerates the window in
    /// lexicographic order and the cached star count is the true total.
    pub open spec fn wf(self) -> bool {
        &&& feasible_window(self.lo, self.hi)
        &&& self.delta.x == self.hi.x - self.lo.x
        &&& self.delta.y == self.hi.y - self.lo.y
        &&& self.delta.z == self.hi.z - self.lo.z
        &&& self.chunks@.len() == window_len(self.lo, self.hi)
        &&& forall|k: int|
            0 <= k < self.chunks@.len() ==> (#[trigger] self.chunks@[k]).pos == window_coord(
                self.lo,
                self.hi,
                k,
            )
        &&& forall|k: int| 0 <= k < self.chunks@.len() ==> (#[trigger] self.chunks@[k]).stars@.len() <= 4
        &&& self.num_stars == total_stars(self.chunks@)
    }

    /// Every stored chunk holds exactly the star data the generator derives
    /// from its coordinate.
    pub open spec fn generated(self) -> bool {
        forall|k: int|
            0 <= k < self.chunks@.len() ==> (#[trigger] self.chunks@[k]).stars@ == spec_stars(
                self.chunks@[k].pos,
            )
    }

    /// Decide at run time whether a window can be built: non-empty on
    /// every axis, per-axis extents that fit in `i32`, and a chunk count
    /// small enough that the star total cannot overflow.  Callers test
    /// this before `start` or `update`.
    pub fn check_window(lo: ChunkVector, hi: ChunkVector) -> (b: bool)
        ensures
            b == feasible_window(lo, hi),
    {
        if !(lo.x < hi.x && lo.y < hi.y && lo.z < hi.z) {
            return false;
        }
        let dx: i64 = (hi.x as i64) - (lo.x as i64);
        let dy: i64 = (hi.y as i64) - (lo.y as i64);
        let dz: i64 = (hi.z as i64) - (lo.z as i64);
        if dx > i32::MAX as i64 || dy > i32::MAX as i64 || dz > i32::MAX as i64 {
            return false;
        }
        proof {
            assert((dx as int) * (dy as int) <= 0x4000_0000_0000_0000int && ((dx as int) * (
            dy as int)) * (dz as int) <= 0x2000_0000_0000_0000_0000_0000int && (dx as int) * ((
            dy as int) * (dz as int)) == ((dx as int) * (dy as int)) * (dz as int) && (dx as int)
                * ((dy as int) * (dz as int)) >= 0) by (nonlinear_arith)
                requires
                    0 < dx <= 0x8000_0000,
                    0 < dy <= 0x8000_0000,
                    0 < dz <= 0x8000_0000,
            ;
        }
        let cells: u128 = (dx as u128) * (dy as u128) * (dz as u128);
        cells <= (usize::MAX as u128) / 8
    }

    /// Build the store for a first window, generating every chunk.
    #[verifier::loop_isolation(false)]
    pub fn start(lo: ChunkVector, hi: ChunkVector) -> (s: ChunkStore)
        requires
            feasible_window(lo, hi),
        ensures
            s.wf(),
            s.generated(),
            s.lo == lo,
            s.hi == hi,
    {
        let mut chunks: Vec<Chunk> = Vec::new();
        let mut num_stars: usize = 0;
        let mut x: i32 = lo.x;
        proof {
            lemma_mul_zero((hi.y - lo.y) * (hi.z - lo.z));
            lemma_mul_zero(hi.z - lo.z);
        }
        while x < hi.x
            invariant
                lo.x <= x <= hi.x,
                chunks@.len() == window_index(lo, hi, cv(x, lo.y, lo.z)),
                forall|k: int|
                    0 <= k < chunks@.len() ==> (#[trigger] chunks@[k]).pos == window_coord(
                        lo,
                        hi,
                        k,
                    ) && chunks@[k].stars@ == spec_stars(chunks@[k].pos) && chunks@[k].stars@.len()
                        <= 4,
                num_stars == total_stars(chunks@),
                num_stars <= 4 * chunks@.len(),
            decreases hi.x - x,
        {
            let mut y: i32 = lo.y;
            while y < hi.y
                invariant
                    lo.y <= y <= hi.y,
                    lo.x <= x < hi.x,
                    chunks@.len() == window_index(lo, hi, cv(x, y, lo.z)),
                    forall|k: int|
                        0 <= k < chunks@.len() ==> (#[trigger] chunks@[k]).pos == window_coord(
                            lo,
                            hi,
                            k,
                        ) && chunks@[k].stars@ == spec_stars(chunks@[k].pos)
                            && chunks@[k].stars@.len() <= 4,
                    num_stars == total_stars(chunks@),
                    num_stars <= 4 * chunks@.len(),
                decreases hi.y - y,
            {
                let mut z: i32 = lo.z;
                while z < hi.z
                    invariant
                        lo.z <= z <= hi.z,
                        lo.y <= y < hi.y,
                        lo.x <= x < hi.x,
                        chunks@.len() == window_index(lo, hi, cv(x, y, z)),
                        forall|k: int|
                            0 <= k < chunks@.len() ==> (#[trigger] chunks@[k]).pos == window_coord(
                                lo,
                                hi,
                                k,
                            ) && chunks@[k].stars@ == spec_stars(chunks@[k].pos)
                                && chunks@[k].stars@.len() <= 4,
                        num_stars == total_stars(chunks@),
                        num_stars <= 4 * chunks@.len(),
                    decreases hi.z - z,
                {
                    proof {
                        lemma_coord_of_index(lo, hi, cv(x, y, z));
                    }
                    let c = Chunk::populate(Vector3::new(x, y, z));
                    proof {
                        lemma_total_stars_push(chunks@, c);
                    }
                    num_stars = num_stars + c.stars.len();
                    chunks.push(c);
                    z = z + 1;
                }
                proof {
                    lemma_mul_succ(y - lo.y, hi.z - lo.z);
                }
                y = y + 1;
            }
            proof {
                lemma_mul_succ(x - lo.x, (hi.y - lo.y) * (hi.z - lo.z));
                lemma_mul_zero(hi.z - lo.z);
            }
            x = x + 1;
        }
        proof {
            lemma_mul_zero(hi.z - lo.z);
        }
        let delta = hi.sub(lo);
        ChunkStore { lo, hi, delta, num_stars, chunks }
    }

    /// Move the window to `lo <= c < hi`: rebuild the chunk sequence by one
    /// merge pass, carrying over every chunk whose coordinate both windows
    /// cover and generating the rest.
    #[verifier::loop_isolation(false)]
    pub fn update(&mut self, lo: ChunkVector, hi: ChunkVector)
        requires
            old(self).wf(),
            feasible_window(lo, hi),
        ensures
            final(self).wf(),
            final(self).lo == lo,
            final(self).hi == hi,
            forall|k: int|
                0 <= k < final(self).chunks@.len() ==> merged_at(
                    *old(self),
                    lo,
                    hi,
                    final(self).chunks@,
                    k,
                ),
            old(self).generated() ==> final(self).generated(),
    {
        let ghost prev = *self;
        let mut chunks: Vec<Chunk> = Vec::new();
        let mut num_stars: usize = 0;
        let mut cursor: usize = 0;
        let mut x: i32 = lo.x;
        proof {
            lemma_mul_zero((hi.y - lo.y) * (hi.z - lo.z));
            lemma_mul_zero(hi.z - lo.z);
        }
        while x < hi.x
            invariant
                lo.x <= x <= hi.x,
                chunks@.len() == window_index(lo, hi, cv(x, lo.y, lo.z)),
                forall|k: int| 0 <= k < chunks@.len() ==> merged_at(prev, lo, hi, chunks@, k),
                num_stars == total_stars(chunks@),
                num_stars <= 4 * chunks@.len(),
                cursor <= self.chunks@.len(),
                forall|j: int|
                    0 <= j < cursor ==> lex_lt(
                        (#[trigger] self.chunks@[j]).pos,
                        cv(x, lo.y, lo.z),
                    ),
            decreases hi.x - x,
        {
            let mut y: i32 = lo.y;
            while y < hi.y
                invariant
                    lo.y <= y <= hi.y,
                    lo.x <= x < hi.x,
                    chunks@.len() == window_index(lo, hi, cv(x, y, lo.z)),
                    forall|k: int| 0 <= k < chunks@.len() ==> merged_at(prev, lo, hi, chunks@, k),
                    num_stars == total_stars(chunks@),
                    num_stars <= 4 * chunks@.len(),
                    cursor <= self.chunks@.len(),
                    forall|j: int|
                        0 <= j < cursor ==> lex_lt(
                            (#[trigger] self.chunks@[j]).pos,
                            cv(x, y, lo.z),
                        ),
                decreases hi.y - y,
            {
                let mut z: i32 = lo.z;
                while z < hi.z
                    invariant
                        lo.z <= z <= hi.z,
                        lo.y <= y < hi.y,
                        lo.x <= x < hi.x,
                        chunks@.len() == window_index(lo, hi, cv(x, y, z)),
                        forall|k: int|
                            0 <= k < chunks@.len() ==> merged_at(prev, lo, hi, chunks@, k),
                        num_stars == total_stars(chunks@),
                        num_stars <= 4 * chunks@.len(),
                        cursor <= self.chunks@.len(),
                        forall|j: int|
                            0 <= j < cursor ==> lex_lt(
                                (#[trigger] self.chunks@[j]).pos,
                                cv(x, y, z),
                            ),
                    decreases hi.z - z,
                {
                    while cursor < self.chunks.len() && lex_before(&self.chunks[cursor].pos, x, y, z)
                        invariant
                            cursor <= self.chunks@.len(),
                            forall|j: int|
                                0 <= j < cursor ==> lex_lt(
                                    (#[trigger] self.chunks@[j]).pos,
                                    cv(x, y, z),
                                ),
                        decreases self.chunks@.len() - cursor,
                    {
                        cursor = cursor + 1;
                    }
                    proof {
                        lemma_coord_of_index(lo, hi, cv(x, y, z));
                    }
                    let hit = cursor < self.chunks.len() && pos_matches(&self.chunks[cursor], x, y, z);
                    let c: Chunk = if hit {
                        let r = copy_chunk(&self.chunks[cursor]);
                        cursor = cursor + 1;
                        proof {
                            lemma_index_of_coord(prev.lo, prev.hi, cursor - 1);
                        }
                        r
                    } else {
                        proof {
                            if in_window(prev.lo, prev.hi, cv(x, y, z)) {
                                let j: int = window_index(prev.lo, prev.hi, cv(x, y, z));
                                lemma_coord_of_index(prev.lo, prev.hi, cv(x, y, z));
                                if j < cursor {
                                    assert(lex_lt(prev.chunks@[j].pos, cv(x, y, z)));
                                    assert(false);
                                } else if j == cursor {
                                    assert(false);
                                } else {
                                    lemma_sorted(prev.lo, prev.hi, cursor as int, j);
                                    assert(false);
                                }
                            }
                        }
                        Chunk::populate(Vector3::new(x, y, z))
                    };
                    proof {
                        lemma_total_stars_push(chunks@, c);
                    }
                    let ghost s0 = chunks@;
                    num_stars = num_stars + c.stars.len();
                    chunks.push(c);
                    z = z + 1;
                    proof {
                        assert forall|k: int| 0 <= k < chunks@.len() implies merged_at(
                            prev,
                            lo,
                            hi,
                            chunks@,
                            k,
                        ) by {
                            if k < s0.len() {
                                assert(chunks@[k] == s0[k]);
                                assert(merged_at(prev, lo, hi, s0, k));
                            } else {
                                assert(chunks@[k] == c);
                            }
                        }
                    }
                }
                proof {
                    lemma_mul_succ(y - lo.y, hi.z - lo.z);
                }
                y = y + 1;
            }
            proof {
                lemma_mul_succ(x - lo.x, (hi.y - lo.y) * (hi.z - lo.z));
                lemma_mul_zero(hi.z - lo.z);
            }
            x = x + 1;
        }
        proof {
            lemma_mul_zero(hi.z - lo.z);
            assert forall|k: int| 0 <= k < chunks@.len() implies (#[trigger] chunks@[k]).pos
                == window_coord(lo, hi, k) && chunks@[k].stars@.len() <= 4 by {
                assert(merged_at(prev, lo, hi, chunks@, k));
            }
            if prev.generated() {
                assert forall|k: int| 0 <= k < chunks@.len() implies (
                #[trigger] chunks@[k]).stars@ == spec_stars(chunks@[k].pos) by {
                    assert(merged_at(prev, lo, hi, chunks@, k));
                    if in_window(prev.lo, prev.hi, chunks@[k].pos) {
                        let j: int = window_index(prev.lo, prev.hi, chunks@[k].pos);
                        lemma_coord_of_index(prev.lo, prev.hi, chunks@[k].pos);
                        assert(prev.chunks@[j].pos == window_coord(prev.lo, prev.hi, j));
                        assert(prev.chunks@[j].stars@ == spec_stars(prev.chunks@[j].pos));
                    }
                }
            }
        }
        let delta = hi.sub(lo);
        self.lo = lo;
        self.hi = hi;
        self.delta = delta;
        self.num_stars = num_stars;
        self.chunks = chunks;
    }

    /// The cached star count: always the sum of the per-chunk star counts
    /// of the current window.
    pub fn count_stars(&self) -> (n: usize)
        requires
            self.wf(),
        ensures
            n == total_stars(self.chunks@),
    {
        self.num_stars
    }

    /// The chunk window covering a set of already-floored chunk-coordinate
    /// points (the camera's cell and the generation frustum's far corners):
    /// the component-wise bounds of the points, with the upper bound made
    /// exclusive by adding one on every axis, and `delta = hi - lo`.
    /// `Err` exactly when `points` is empty.
    pub fn get_gen_bounds(points: &[ChunkVector]) -> (r: Result<
        (ChunkVector, ChunkVector, ChunkVector),
        (),
    >)
        requires
            forall|k: int|
                0 <= k < points@.len() ==> -GEN_COORD_LIMIT <= (#[trigger] points@[k]).x
                    <= GEN_COORD_LIMIT && -GEN_COORD_LIMIT <= points@[k].y <= GEN_COORD_LIMIT
                    && -GEN_COORD_LIMIT <= points@[k].z <= GEN_COORD_LIMIT,
        ensures
            match r {
                Ok(b) => {
                    &&& points@.len() > 0
                    &&& valid_window(b.0, b.1)
                    &&& forall|k: int| 0 <= k < points@.len() ==> in_window(b.0, b.1, #[trigger] points@[k])
                    &&& crate::vector3::components_attained(b.0, points@)
                    &&& exists|k: int| 0 <= k < points@.len() && (#[trigger] points@[k]).x == b.1.x - 1
                    &&& exists|k: int| 0 <= k < points@.len() && (#[trigger] points@[k]).y == b.1.y - 1
                    &&& exists|k: int| 0 <= k < points@.len() && (#[trigger] points@[k]).z == b.1.z - 1
                    &&& b.2.x == b.1.x - b.0.x && b.2.y == b.1.y - b.0.y && b.2.z == b.1.z - b.0.z
                },
                Err(e) => points@.len() == 0,
            },
    {
        match Vector3::bounds(points) {
            Ok((lo, hi)) => {
                let hi = hi.add(Vector3::new(1, 1, 1));
                let delta = hi.sub(lo);
                Ok((lo, hi, delta))
            },
            Err(_) => Err(()),
        }
    }
}

/// One star as the store hands it out: the coordinate of the chunk that
/// owns it, and its three fractional-offset words inside that chunk.
#[derive(Clone, Copy, Debug, PartialEq, Eq)]
pub struct Star {
    pub chunk: ChunkVector,
    pub off: Vector3<u32>,
}

/// The stars of one chunk, in generation order.
pub open spec fn stars_of(c: Chunk) -> Seq<Star> {
    Seq::new(c.stars@.len(), |i: int| Star { chunk: c.pos, off: c.stars@[i] })
}

/// All stars of a chunk sequence, in chunk-then-star order.
pub open spec fn flat_stars(s: Seq<Chunk>) -> Seq<Star>
    decreases s.len(),
{
    if s.len() == 0 {
        Seq::empty()
    } else {
        flat_stars(s.drop_last()) + stars_of(s.last())
    }
}

proof fn lemma_total_stars_nonneg(s: Seq<Chunk>)
    ensures
        total_stars(s) >= 0,
    decreases s.len(),
{
    if s.len() > 0 {
        lemma_total_stars_nonneg(s.drop_last());
    }
}

proof fn lemma_flat_stars_len(s: Seq<Chunk>)
    ensures
        flat_stars(s).len() == total_stars(s),
    decreases s.len(),
{
    if s.len() > 0 {
        lemma_flat_stars_len(s.drop_last());
    }
}

proof fn lemma_total_stars_take_succ(s: Seq<Chunk>, j: int)
    requires
        0 <= j < s.len(),
    ensures
        total_stars(s.take(j + 1)) == total_stars(s.take(j)) + s[j].stars@.len(),
{
    assert(s.take(j + 1).drop_last() =~= s.take(j));
    assert(s.take(j + 1).last() == s[j]);
}

/// Star `t` of chunk `j` sits at flat position `total_stars(s.take(j)) + t`.
proof fn lemma_flat_stars_at(s: Seq<Chunk>, j: int, t: int)
    requires
        0 <= j < s.len(),
        0 <= t < s[j].stars@.len(),
    ensures
        0 <= total_stars(s.take(j)) + t < flat_stars(s).len(),
        flat_stars(s)[total_stars(s.take(j)) + t] == (Star {
            chunk: s[j].pos,
            off: s[j].stars@[t],
        }),
    decreases s.len(),
{
    lemma_flat_stars_len(s);
    lemma_total_stars_nonneg(s.take(j));
    if j == s.len() - 1 {
        assert(s.take(j) =~= s.drop_last());
        lemma_flat_stars_len(s.drop_last());
    } else {
        assert(s.drop_last().take(j) =~= s.take(j));
        assert(s.drop_last()[j] == s[j]);
        lemma_flat_stars_at(s.drop_last(), j, t);
        lemma_flat_stars_len(s.drop_last());
    }
}

/// A cursor over every star of a store, in chunk-then-star order.
pub struct ChunkStoreIter<'a> {
    pub store: &'a ChunkStore,
    pub chunk_i: usize,
    pub star_i: usize,
}

impl<'a> ChunkStoreIter<'a> {
    /// The cursor sits inside or at the end of the chunk sequence, on a
    /// star of the current chunk or just past its last one.
    pub open spec fn wf(self) -> bool {
        &&& self.store.wf()
        &&& self.chunk_i <= self.store.chunks@.len()
        &&& self.chunk_i < self.store.chunks@.len() ==> self.star_i
            <= self.store.chunks@[self.chunk_i as int].stars@.len()
        &&& self.chunk_i == self.store.chunks@.len() ==> self.star_i == 0
    }

    /// How many stars the cursor has already yielded.
    pub open spec fn seen(self) -> int {
        total_stars(self.store.chunks@.take(self.chunk_i as int)) + self.star_i
    }

    /// Yield the next star of the store, or `None` once every star of
    /// every chunk has been yielded.
    #[verifier::loop_isolation(false)]
    pub fn next(&mut self) -> (r: Option<Star>)
        requires
            old(self).wf(),
        ensures
            final(self).wf(),
            final(self).store == old(self).store,
            ({
                let flat = flat_stars(old(self).store.chunks@);
                if old(self).seen() < flat.len() {
                    &&& r == Some(flat[old(self).seen()])
                    &&& final(self).seen() == old(self).seen() + 1
                } else {
                    &&& r is None
                    &&& final(self).seen() == old(self).seen()
                }
            }),
    {
        while self.chunk_i < self.store.chunks.len() && self.star_i == self.store.chunks[self.chunk_i].stars.len()
            invariant
                self.store == old(self).store,
                self.wf(),
                self.seen() == old(self).seen(),
            decreases self.store.chunks@.len() - self.chunk_i,
        {
            proof {
                lemma_total_stars_take_succ(self.store.chunks@, self.chunk_i as int);
            }
            self.chunk_i = self.chunk_i + 1;
            self.star_i = 0;
        }
        if self.chunk_i < self.store.chunks.len() {
            let c = &self.store.chunks[self.chunk_i];
            let star = Star { chunk: c.pos, off: c.stars[self.star_i] };
            proof {
                lemma_flat_stars_at(self.store.chunks@, self.chunk_i as int, self.star_i as int);
            }
            self.star_i = self.star_i + 1;
            Some(star)
        } else {
            proof {
                assert(self.store.chunks@.take(self.chunk_i as int) =~= self.store.chunks@);
                lemma_flat_stars_len(self.store.chunks@);
            }
            None
        }
    }
}

impl ChunkStore {
    /// A fresh star cursor over this store.
    pub fn iter<'a>(&'a self) -> (it: ChunkStoreIter<'a>)
        requires
            self.wf(),
        ensures
            it.wf(),
            it.store == self,
            it.seen() == 0,
    {
        ChunkStoreIter { store: self, chunk_i: 0, star_i: 0 }
    }
}

/// Law: window coverage.  A well-formed store holds a chunk for every
/// coordinate inside its window, holds nothing outside it, and keeps the
/// sequence strictly increasing in lexicographic order (so each coordinate
/// appears exactly once).
pub proof fn lemma_window_coverage(s: &ChunkStore)
    requires
        s.wf(),
    ensures
        forall|c: ChunkVector|
            in_window(s.lo, s.hi, c) ==> exists|k: int|
                0 <= k < s.chunks@.len() && (#[trigger] s.chunks@[k]).pos == c,
        forall|k: int| 0 <= k < s.chunks@.len() ==> in_window(s.lo, s.hi, (#[trigger] s.chunks@[k]).pos),
        forall|k1: int, k2: int|
            0 <= k1 < k2 < s.chunks@.len() ==> lex_lt(
                (#[trigger] s.chunks@[k1]).pos,
                (#[trigger] s.chunks@[k2]).pos,
            ),
{
    assert forall|c: ChunkVector| in_window(s.lo, s.hi, c) implies exists|k: int|
        0 <= k < s.chunks@.len() && (#[trigger] s.chunks@[k]).pos == c by {
        lemma_coord_of_index(s.lo, s.hi, c);
        let k: int = window_index(s.lo, s.hi, c);
        assert(s.chunks@[k].pos == c);
    }
    assert forall|k: int| 0 <= k < s.chunks@.len() implies in_window(
        s.lo,
        s.hi,
        (#[trigger] s.chunks@[k]).pos,
    ) by {
        lemma_index_of_coord(s.lo, s.hi, k);
    }
    assert forall|k1: int, k2: int| 0 <= k1 < k2 < s.chunks@.len() implies lex_lt(
        (#[trigger] s.chunks@[k1]).pos,
        (#[trigger] s.chunks@[k2]).pos,
    ) by {
        lemma_sorted(s.lo, s.hi, k1, k2);
    }
}

/// Law: reuse.  After a merge from `prev`, the chunk stored for a
/// coordinate that both the old and the new window cover carries exactly
/// the old chunk's stars; it was not regenerated.
pub proof fn lemma_update_reuses(prev: &ChunkStore, cur: &ChunkStore, c: ChunkVector)
    requires
        prev.wf(),
        cur.wf(),
        forall|k: int| 0 <= k < cur.chunks@.len() ==> merged_at(*prev, cur.lo, cur.hi, cur.chunks@, k),
        in_window(prev.lo, prev.hi, c),
        in_window(cur.lo, cur.hi, c),
    ensures
        cur.chunks@[window_index(cur.lo, cur.hi, c)].stars@ == prev.chunks@[window_index(
            prev.lo,
            prev.hi,
            c,
        )].stars@,
{
    lemma_coord_of_index(cur.lo, cur.hi, c);
    let k: int = window_index(cur.lo, cur.hi, c);
    assert(merged_at(*prev, cur.lo, cur.hi, cur.chunks@, k));
}

} // verus!
