//! A generic three-component vector and the integer chunk-coordinate
//! operations the chunk window is built from.

use vstd::prelude::*;

verus! {

/// World units per cubic chunk side.
pub const CHUNK_SIZE: u32 = 128;

/// An integer chunk coordinate: world position divided by `CHUNK_SIZE`,
/// floored, per axis.
pub type ChunkVector = Vector3<i32>;

/// An ordered triple over a numeric type.  Chunk coordinates are
/// `Vector3<i32>`; a star's fractional offsets inside its chunk are carried
/// as a `Vector3<u32>` of raw 32-bit words.
#[derive(Clone, Copy, Debug, PartialEq, Eq)]
pub struct Vector3<T> {
    pub x: T,
    pub y: T,
    pub z: T,
}

impl<T> Vector3<T> {
    pub fn new(x: T, y: T, z: T) -> (v: Self)
        ensures
            v == (Vector3 { x, y, z }),
    {
        Vector3 { x, y, z }
    }
}

impl<T: Copy> Vector3<T> {
    pub fn to_array(&self) -> (a: [T; 3])
        ensures
            a@ == seq![self.x, self.y, self.z],
    {
        [self.x, self.y, self.z]
    }
}

/// `lo` is at or below every component of every vector of `s`.
pub open spec fn lower_bounds(lo: Vector3<i32>, s: Seq<Vector3<i32>>) -> bool {
    forall|k: int|
        0 <= k < s.len() ==> lo.x <= #[trigger] s[k].x && lo.y <= s[k].y && lo.z <= s[k].z
}

/// `hi` is at or above every component of every vector of `s`.
pub open spec fn upper_bounds(hi: Vector3<i32>, s: Seq<Vector3<i32>>) -> bool {
    forall|k: int|
        0 <= k < s.len() ==> #[trigger] s[k].x <= hi.x && s[k].y <= hi.y && s[k].z <= hi.z
}

/// Every component of `v` is attained by some vector of `s`.
pub open spec fn components_attained(v: Vector3<i32>, s: Seq<Vector3<i32>>) -> bool {
    &&& exists|k: int| 0 <= k < s.len() && #[trigger] s[k].x == v.x
    &&& exists|k: int| 0 <= k < s.len() && #[trigger] s[k].y == v.y
    &&& exists|k: int| 0 <= k < s.len() && #[trigger] s[k].z == v.z
}

impl Vector3<i32> {
    /// Component-wise sum.
    pub fn add(self, rhs: Self) -> (r: Self)
        requires
            i32::MIN <= self.x + rhs.x <= i32::MAX,
            i32::MIN <= self.y + rhs.y <= i32::MAX,
            i32::MIN <= self.z + rhs.z <= i32::MAX,
        ensures
            r.x == self.x + rhs.x,
            r.y == self.y + rhs.y,
            r.z == self.z + rhs.z,
    {
        Vector3 { x: self.x + rhs.x, y: self.y + rhs.y, z: self.z + rhs.z }
    }

    /// Component-wise difference.
    pub fn sub(self, rhs: Self) -> (r: Self)
        requires
            i32::MIN <= self.x - rhs.x <= i32::MAX,
            i32::MIN <= self.y - rhs.y <= i32::MAX,
            i32::MIN <= self.z - rhs.z <= i32::MAX,
        ensures
            r.x == self.x - rhs.x,
            r.y == self.y - rhs.y,
            r.z == self.z - rhs.z,
    {
        Vector3 { x: self.x - rhs.x, y: self.y - rhs.y, z: self.z - rhs.z }
    }

    /// The component-wise minimum and maximum over a non-empty slice of
    /// vectors; `Err` exactly when the slice is empty.
    pub fn bounds(vecs: &[Vector3<i32>]) -> (r: Result<(Vector3<i32>, Vector3<i32>), ()>)
        ensures
            match r {
                Ok(b) => {
                    &&& vecs@.len() > 0
                    &&& lower_bounds(b.0, vecs@)
                    &&& upper_bounds(b.1, vecs@)
                    &&& components_attained(b.0, vecs@)
                    &&& components_attained(b.1, vecs@)
                },
                Err(e) => vecs@.len() == 0,
            },
    {
        if vecs.len() > 0 {
            let mut lo = vecs[0];
            let mut hi = vecs[0];
            let mut i: usize = 1;
            while i < vecs.len()
                invariant
                    1 <= i <= vecs@.len(),
                    forall|k: int|
                        0 <= k < i ==> lo.x <= #[trigger] vecs@[k].x && lo.y <= vecs@[k].y
                            && lo.z <= vecs@[k].z,
                    forall|k: int|
                        0 <= k < i ==> #[trigger] vecs@[k].x <= hi.x && vecs@[k].y <= hi.y
                            && vecs@[k].z <= hi.z,
                    exists|k: int| 0 <= k < i && #[trigger] vecs@[k].x == lo.x,
                    exists|k: int| 0 <= k < i && #[trigger] vecs@[k].y == lo.y,
                    exists|k: int| 0 <= k < i && #[trigger] vecs@[k].z == lo.z,
                    exists|k: int| 0 <= k < i && #[trigger] vecs@[k].x == hi.x,
                    exists|k: int| 0 <= k < i && #[trigger] vecs@[k].y == hi.y,
                    exists|k: int| 0 <= k < i && #[trigger] vecs@[k].z == hi.z,
                decreases vecs@.len() - i,
            {
                let v = vecs[i];
                lo = Vector3 {
                    x: if v.x < lo.x { v.x } else { lo.x },
                    y: if v.y < lo.y { v.y } else { lo.y },
                    z: if v.z < lo.z { v.z } else { lo.z },
                };
                hi = Vector3 {
                    x: if v.x > hi.x { v.x } else { hi.x },
                    y: if v.y > hi.y { v.y } else { hi.y },
                    z: if v.z > hi.z { v.z } else { hi.z },
                };
                i = i + 1;
                proof {
                    assert(vecs@[i - 1] == v);
                }
            }
            Ok((lo, hi))
        } else {
            Err(())
        }
    }
}

} // verus!
