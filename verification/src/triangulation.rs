//! Triangles over projected posts. The Delaunay triangulation itself runs
//! outside the library (it computes in floating point); it reports each
//! face as three indices into the post list, and the library checks the
//! indices and materializes the triangles, so every triangle vertex is
//! provably drawn from the input posts with its elevation intact.

use vstd::prelude::*;

use crate::point::MercatorPoint;
use crate::polygon::{spec_ele, COORD_LIMIT};

verus! {

/// A triangle of projected, elevated points.
#[derive(Clone, Copy, Debug)]
pub struct Triangle(pub MercatorPoint, pub MercatorPoint, pub MercatorPoint);

/// All three vertices carry an elevation.
pub open spec fn triangle_elevated(t: Triangle) -> bool {
    t.0.ele is Some && t.1.ele is Some && t.2.ele is Some
}

/// All coordinates and elevations within the area kernel's bounds.
pub open spec fn triangle_in_bounds(t: Triangle) -> bool {
    &&& -(COORD_LIMIT as int) <= t.0.x <= COORD_LIMIT as int
    &&& -(COORD_LIMIT as int) <= t.0.y <= COORD_LIMIT as int
    &&& -(COORD_LIMIT as int) <= spec_ele(t.0) <= COORD_LIMIT as int
    &&& -(COORD_LIMIT as int) <= t.1.x <= COORD_LIMIT as int
    &&& -(COORD_LIMIT as int) <= t.1.y <= COORD_LIMIT as int
    &&& -(COORD_LIMIT as int) <= spec_ele(t.1) <= COORD_LIMIT as int
    &&& -(COORD_LIMIT as int) <= t.2.x <= COORD_LIMIT as int
    &&& -(COORD_LIMIT as int) <= t.2.y <= COORD_LIMIT as int
    &&& -(COORD_LIMIT as int) <= spec_ele(t.2) <= COORD_LIMIT as int
}

/// The cross product of the triangle's two edge vectors out of its first
/// vertex.
pub open spec fn spec_triangle_normal(t: Triangle) -> (int, int, int) {
    let ax = t.1.x - t.0.x;
    let ay = t.1.y - t.0.y;
    let az = spec_ele(t.1) - spec_ele(t.0);
    let bx = t.2.x - t.0.x;
    let by = t.2.y - t.0.y;
    let bz = spec_ele(t.2) - spec_ele(t.0);
    (ay * bz - az * by, az * bx - ax * bz, ax * by - ay * bx)
}

/// The 3D area of the triangle: half the magnitude of its normal, rounded
/// down to whole square centimeters.
pub open spec fn spec_triangle_area(t: Triangle) -> int {
    let n = spec_triangle_normal(t);
    crate::math::sqrt_floor(n.0 * n.0 + n.1 * n.1 + n.2 * n.2) / 2
}

impl Triangle {
    /// The same triangle with all three elevations set to zero.
    pub fn flat(&self) -> (r: Triangle)
        ensures
            r.0 == (MercatorPoint { x: self.0.x, y: self.0.y, ele: Some(0i64) }),
            r.1 == (MercatorPoint { x: self.1.x, y: self.1.y, ele: Some(0i64) }),
            r.2 == (MercatorPoint { x: self.2.x, y: self.2.y, ele: Some(0i64) }),
    {
        Triangle(self.0.flat(), self.1.flat(), self.2.flat())
    }

    /// The triangle's vertices as a three-point ring.
    pub fn as_vector(&self) -> (r: Vec<MercatorPoint>)
        ensures
            r@ =~= seq![self.0, self.1, self.2],
    {
        let mut ret: Vec<MercatorPoint> = Vec::new();
        ret.push(self.0);
        ret.push(self.1);
        ret.push(self.2);
        ret
    }

    /// The triangle's 3D area in square centimeters.
    pub fn area(&self) -> (r: u64)
        requires
            triangle_in_bounds(*self),
            triangle_elevated(*self),
        ensures
            r == spec_triangle_area(*self),
    {
        let p1 = self.0;
        let p2 = self.1;
        let p3 = self.2;
        let ax = p2.x as i128 - p1.x as i128;
        let ay = p2.y as i128 - p1.y as i128;
        let az = p2.ele.unwrap() as i128 - p1.ele.unwrap() as i128;
        let bx = p3.x as i128 - p1.x as i128;
        let by = p3.y as i128 - p1.y as i128;
        let bz = p3.ele.unwrap() as i128 - p1.ele.unwrap() as i128;
        proof {
            assert(-1_600_000_000_000_000 <= ay * bz <= 1_600_000_000_000_000
                && -1_600_000_000_000_000 <= az * by <= 1_600_000_000_000_000
                && -1_600_000_000_000_000 <= az * bx <= 1_600_000_000_000_000
                && -1_600_000_000_000_000 <= ax * bz <= 1_600_000_000_000_000
                && -1_600_000_000_000_000 <= ax * by <= 1_600_000_000_000_000
                && -1_600_000_000_000_000 <= ay * bx <= 1_600_000_000_000_000) by (nonlinear_arith)
                requires
                    -40_000_000 <= ax <= 40_000_000,
                    -40_000_000 <= ay <= 40_000_000,
                    -40_000_000 <= az <= 40_000_000,
                    -40_000_000 <= bx <= 40_000_000,
                    -40_000_000 <= by <= 40_000_000,
                    -40_000_000 <= bz <= 40_000_000,
            ;
        }
        let cx: i128 = ay * bz - az * by;
        let cy: i128 = az * bx - ax * bz;
        let cz: i128 = ax * by - ay * bx;
        proof {
            assert(0 <= cx * cx <= 10_240_000_000_000_000_000_000_000_000_000 && 0 <= cy * cy
                <= 10_240_000_000_000_000_000_000_000_000_000 && 0 <= cz * cz
                <= 10_240_000_000_000_000_000_000_000_000_000) by (nonlinear_arith)
                requires
                    -3_200_000_000_000_000 <= cx <= 3_200_000_000_000_000,
                    -3_200_000_000_000_000 <= cy <= 3_200_000_000_000_000,
                    -3_200_000_000_000_000 <= cz <= 3_200_000_000_000_000,
            ;
        }
        let sum: i128 = cx * cx + cy * cy + cz * cz;
        let mag: u64 = crate::math::isqrt_u128(sum as u128);
        mag / 2
    }
}

/// Why a reported face list is rejected.
#[derive(Clone, Copy, Debug, PartialEq, Eq, Structural)]
pub enum TriangulationError {
    /// A face names a vertex index outside the post list.
    IndexOutOfRange,
}

/// A face's three indices all point into the post list.
pub open spec fn face_in_range(f: (usize, usize, usize), n: int) -> bool {
    f.0 < n && f.1 < n && f.2 < n
}

/// Materializes triangles from faces reported as index triples into the
/// post list. On success every returned triangle's vertices are drawn from
/// the posts, elevations intact; any out-of-range index rejects the whole
/// list.
pub fn triangles_from_faces(posts: &Vec<MercatorPoint>, faces: &Vec<(usize, usize, usize)>) -> (r:
    Result<Vec<Triangle>, TriangulationError>)
    ensures
        match r {
            Ok(ts) => {
                &&& ts@.len() == faces@.len()
                &&& forall|k: int|
                    0 <= k < faces@.len() ==> {
                        &&& face_in_range(#[trigger] faces@[k], posts@.len() as int)
                        &&& ts@[k].0 == posts@[faces@[k].0 as int]
                        &&& ts@[k].1 == posts@[faces@[k].1 as int]
                        &&& ts@[k].2 == posts@[faces@[k].2 as int]
                    }
            },
            Err(e) => e == TriangulationError::IndexOutOfRange && exists|k: int|
                0 <= k < faces@.len() && !face_in_range(#[trigger] faces@[k], posts@.len() as int),
        },
{
    let n = posts.len();
    let m = faces.len();
    let mut ret: Vec<Triangle> = Vec::new();
    let mut i: usize = 0;
    while i < m
    invariant
        n == posts@.len(),
        m == faces@.len(),
        i <= m,
        ret@.len() == i,
        forall|k: int|
            0 <= k < i ==> {
                &&& face_in_range(#[trigger] faces@[k], posts@.len() as int)
                &&& ret@[k].0 == posts@[faces@[k].0 as int]
                &&& ret@[k].1 == posts@[faces@[k].1 as int]
                &&& ret@[k].2 == posts@[faces@[k].2 as int]
            },
    decreases m - i,
    {
        let f = faces[i];
        if f.0 >= n || f.1 >= n || f.2 >= n {
            return Err(TriangulationError::IndexOutOfRange);
        }
        ret.push(Triangle(posts[f.0], posts[f.1], posts[f.2]));
        i = i + 1;
    }
    Ok(ret)
}

} // verus!
