//! Barycentric elevation interpolation for clipped facets. The 2D boolean
//! intersection of the polygon with a triangle runs outside the library
//! (it computes in floating point); the clipped ring comes back as plain
//! points, and the elevation of each vertex is interpolated here, exactly,
//! from the triangle's three elevations.

use vstd::prelude::*;

use crate::math::round_div_signed;
use crate::point::MercatorPoint;
use crate::polygon::spec_ele;
use crate::triangulation::{triangle_elevated, triangle_in_bounds, Triangle};

verus! {

/// Twice the signed area of the triangle's footprint: the denominator of
/// the barycentric coordinates.
pub open spec fn spec_bary_den(t: Triangle) -> int {
    (t.1.x - t.0.x) * (t.2.y - t.0.y) - (t.2.x - t.0.x) * (t.1.y - t.0.y)
}

/// The numerator of the barycentric coordinate of `p` attached to the
/// triangle's second vertex.
pub open spec fn spec_bary_v_num(p: MercatorPoint, t: Triangle) -> int {
    (p.x - t.0.x) * (t.2.y - t.0.y) - (t.2.x - t.0.x) * (p.y - t.0.y)
}

/// The numerator of the barycentric coordinate of `p` attached to the
/// triangle's third vertex.
pub open spec fn spec_bary_w_num(p: MercatorPoint, t: Triangle) -> int {
    (t.1.x - t.0.x) * (p.y - t.0.y) - (p.x - t.0.x) * (t.1.y - t.0.y)
}

/// The elevation interpolated at `p` from the triangle's three elevations
/// by barycentric weights, rounded to the nearest centimeter; `None` for a
/// degenerate (zero-area) triangle.
pub open spec fn spec_interpolated(p: MercatorPoint, t: Triangle) -> Option<int> {
    let den = spec_bary_den(t);
    if den == 0 {
        None
    } else {
        let v = spec_bary_v_num(p, t);
        let w = spec_bary_w_num(p, t);
        let u = den - v - w;
        Some(
            round_div_signed(
                u * spec_ele(t.0) + v * spec_ele(t.1) + w * spec_ele(t.2),
                den,
            ),
        )
    }
}

/// A point is within the area kernel's coordinate bounds.
pub open spec fn point_xy_in_bounds(p: MercatorPoint) -> bool {
    -(crate::polygon::COORD_LIMIT as int) <= p.x <= crate::polygon::COORD_LIMIT as int
        && -(crate::polygon::COORD_LIMIT as int) <= p.y <= crate::polygon::COORD_LIMIT as int
}

/// The exec result agrees with the interpolation spec: the rounded value
/// when the triangle is non-degenerate and the value fits `i64`, nothing
/// otherwise.
pub open spec fn interp_result_matches(p: MercatorPoint, t: Triangle, r: Option<i64>) -> bool {
    match spec_interpolated(p, t) {
        None => r is None,
        Some(q) => if -0x8000_0000_0000_0000 <= q <= 0x7fff_ffff_ffff_ffff {
            r matches Some(e) && e as int == q
        } else {
            r is None
        },
    }
}

/// Interpolates the elevation at `p` inside (or around) the triangle.
/// `None` for a degenerate triangle, and for the far-outside points whose
/// interpolated value leaves `i64` (both are artifacts that the caller
/// drops with the facet).
pub fn interpolate_elevation(p: &MercatorPoint, t: &Triangle) -> (r: Option<i64>)
    requires
        triangle_in_bounds(*t),
        triangle_elevated(*t),
        point_xy_in_bounds(*p),
    ensures
        interp_result_matches(*p, *t, r),
{
    let v0x = t.1.x as i128 - t.0.x as i128;
    let v0y = t.1.y as i128 - t.0.y as i128;
    let v1x = t.2.x as i128 - t.0.x as i128;
    let v1y = t.2.y as i128 - t.0.y as i128;
    let v2x = p.x as i128 - t.0.x as i128;
    let v2y = p.y as i128 - t.0.y as i128;
    proof {
        assert(-1_600_000_000_000_000 <= v0x * v1y <= 1_600_000_000_000_000
            && -1_600_000_000_000_000 <= v1x * v0y <= 1_600_000_000_000_000
            && -1_600_000_000_000_000 <= v2x * v1y <= 1_600_000_000_000_000
            && -1_600_000_000_000_000 <= v1x * v2y <= 1_600_000_000_000_000
            && -1_600_000_000_000_000 <= v0x * v2y <= 1_600_000_000_000_000
            && -1_600_000_000_000_000 <= v2x * v0y <= 1_600_000_000_000_000) by (nonlinear_arith)
            requires
                -40_000_000 <= v0x <= 40_000_000,
                -40_000_000 <= v0y <= 40_000_000,
                -40_000_000 <= v1x <= 40_000_000,
                -40_000_000 <= v1y <= 40_000_000,
                -40_000_000 <= v2x <= 40_000_000,
                -40_000_000 <= v2y <= 40_000_000,
        ;
    }
    let den: i128 = v0x * v1y - v1x * v0y;
    if den == 0 {
        return None;
    }
    let v: i128 = v2x * v1y - v1x * v2y;
    let w: i128 = v0x * v2y - v2x * v0y;
    let u: i128 = den - v - w;
    let e0 = t.0.ele.unwrap() as i128;
    let e1 = t.1.ele.unwrap() as i128;
    let e2 = t.2.ele.unwrap() as i128;
    proof {
        assert(-200_000_000_000_000_000_000_000 <= u * e0 <= 200_000_000_000_000_000_000_000
            && -200_000_000_000_000_000_000_000 <= v * e1 <= 200_000_000_000_000_000_000_000
            && -200_000_000_000_000_000_000_000 <= w * e2 <= 200_000_000_000_000_000_000_000)
            by (nonlinear_arith)
            requires
                -10_000_000_000_000_000 <= u <= 10_000_000_000_000_000,
                -3_200_000_000_000_000 <= v <= 3_200_000_000_000_000,
                -3_200_000_000_000_000 <= w <= 3_200_000_000_000_000,
                -20_000_000 <= e0 <= 20_000_000,
                -20_000_000 <= e1 <= 20_000_000,
                -20_000_000 <= e2 <= 20_000_000,
        ;
    }
    let num: i128 = u * e0 + v * e1 + w * e2;
    let q = crate::math::round_div_signed_i128(num, den);
    if q < -0x8000_0000_0000_0000 || q > 0x7fff_ffff_ffff_ffff {
        return None;
    }
    Some(q as i64)
}

/// Attaches an interpolated elevation to every vertex of a clipped ring.
/// A degenerate triangle leaves every elevation empty, and the caller
/// drops the facet.
pub fn elevate_ring(ring: &Vec<MercatorPoint>, t: &Triangle) -> (r: Vec<MercatorPoint>)
    requires
        triangle_in_bounds(*t),
        triangle_elevated(*t),
        forall|k: int| 0 <= k < ring@.len() ==> point_xy_in_bounds(#[trigger] ring@[k]),
    ensures
        r@.len() == ring@.len(),
        forall|k: int|
            0 <= k < r@.len() ==> {
                &&& (#[trigger] r@[k]).x == ring@[k].x
                &&& r@[k].y == ring@[k].y
                &&& interp_result_matches(ring@[k], *t, r@[k].ele)
            },
{
    let n = ring.len();
    let mut ret: Vec<MercatorPoint> = Vec::new();
    let mut i: usize = 0;
    while i < n
    invariant
        n == ring@.len(),
        triangle_in_bounds(*t),
        triangle_elevated(*t),
        forall|k: int| 0 <= k < ring@.len() ==> point_xy_in_bounds(#[trigger] ring@[k]),
        i <= n,
        ret@.len() == i,
        forall|k: int|
            0 <= k < i ==> {
                &&& (#[trigger] ret@[k]).x == ring@[k].x
                &&& ret@[k].y == ring@[k].y
                &&& interp_result_matches(ring@[k], *t, ret@[k].ele)
            },
    decreases n - i,
    {
        let p = ring[i];
        let ele = interpolate_elevation(&p, t);
        ret.push(MercatorPoint { x: p.x, y: p.y, ele });
        i = i + 1;
    }
    ret
}

/// Interpolating at a vertex of the triangle returns that vertex's own
/// elevation exactly: at the first vertex the other two weights vanish, at
/// the second the weight `v` equals the full denominator, at the third the
/// weight `w` does.
pub proof fn lemma_barycentric_at_vertices(t: Triangle)
    requires
        triangle_elevated(t),
        spec_bary_den(t) != 0,
    ensures
        spec_interpolated(t.0, t) == Some(spec_ele(t.0)),
        spec_interpolated(t.1, t) == Some(spec_ele(t.1)),
        spec_interpolated(t.2, t) == Some(spec_ele(t.2)),
{
    let den = spec_bary_den(t);
    assert(spec_bary_v_num(t.0, t) == 0 && spec_bary_w_num(t.0, t) == 0 && spec_bary_v_num(t.1, t)
        == den && spec_bary_w_num(t.1, t) == 0 && spec_bary_v_num(t.2, t) == 0 && spec_bary_w_num(
        t.2,
        t,
    ) == den) by (nonlinear_arith)
        requires
            den == spec_bary_den(t),
    ;
    lemma_exact_weight(den, spec_ele(t.0));
    lemma_exact_weight(den, spec_ele(t.1));
    lemma_exact_weight(den, spec_ele(t.2));
}

/// `round_div_signed(den * e, den) == e` for a non-zero denominator.
proof fn lemma_exact_weight(den: int, e: int)
    requires
        den != 0,
    ensures
        round_div_signed(den * e, den) == e,
        round_div_signed(e * den, den) == e,
        round_div_signed(0 * e + den * e + 0 * e, den) == e,
{
    assert(den * e == e * den) by (nonlinear_arith);
    if den > 0 {
        crate::math::lemma_round_div_exact(e, den);
    } else {
        assert(-(e * den) == e * (-den)) by (nonlinear_arith);
        crate::math::lemma_round_div_exact(e, -den);
    }
    assert(0 * e + den * e + 0 * e == den * e) by (nonlinear_arith);
}

} // verus!
