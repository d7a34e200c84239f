//! The input polygon, its bounding boxes and chosen projection, and the 3D
//! area kernel: the cross-product surface integral over a closed ring of
//! elevated points, its flattened planar form, and the slope of the plane
//! through a ring's first three vertices.

use vstd::prelude::*;
use vstd::string::StrSliceExecFns;
use vstd::string::StringExecFns;

use crate::mercator::{spec_proj_string, utm_zone_of, WebMercatorProjection};
use crate::point::{
    MercatorBoundingBox,
    MercatorPoint,
    WGS84BoundingBox,
    WGS84Point,
    wgs84_in_range,
};

verus! {

/// Bound on metric coordinates and elevations (centimeters, about 200 km)
/// accepted by the area kernel: keeps every intermediate product well
/// inside the machine integers.
pub const COORD_LIMIT: i64 = 20_000_000;

/// Bound on the number of vertices of one ring fed to the area kernel.
pub const RING_LIMIT: usize = 4096;

/// A closed input ring of geographic points, first vertex not repeated.
#[derive(Debug)]
pub struct Polygon {
    pub wgs: Vec<WGS84Point>,
}

/// Every vertex lies within the world's longitude/latitude range.
pub open spec fn ring_in_range(s: Seq<WGS84Point>) -> bool {
    forall|i: int|
        0 <= i < s.len() ==> wgs84_in_range((#[trigger] s[i]).lon as int, s[i].lat as int)
}

impl Polygon {
    /// The axis-aligned geographic bounding box of the ring: tight on all
    /// four sides.
    pub fn wgsbbox(&self) -> (r: WGS84BoundingBox)
        requires
            self.wgs@.len() >= 1,
        ensures
            r.wf(),
            forall|k: int|
                0 <= k < self.wgs@.len() ==> r.min.lon <= (#[trigger] self.wgs@[k]).lon
                    <= r.max.lon && r.min.lat <= self.wgs@[k].lat <= r.max.lat,
            exists|k: int| 0 <= k < self.wgs@.len() && (#[trigger] self.wgs@[k]).lon == r.min.lon,
            exists|k: int| 0 <= k < self.wgs@.len() && (#[trigger] self.wgs@[k]).lon == r.max.lon,
            exists|k: int| 0 <= k < self.wgs@.len() && (#[trigger] self.wgs@[k]).lat == r.min.lat,
            exists|k: int| 0 <= k < self.wgs@.len() && (#[trigger] self.wgs@[k]).lat == r.max.lat,
            r.min.ele == None::<i64> && r.max.ele == None::<i64>,
    {
        let first = self.wgs[0];
        let mut min_lon: i64 = first.lon;
        let mut max_lon: i64 = first.lon;
        let mut min_lat: i64 = first.lat;
        let mut max_lat: i64 = first.lat;
        let n = self.wgs.len();
        let mut i: usize = 1;
        while i < n
        invariant
            n == self.wgs@.len(),
            1 <= i <= n,
            min_lon <= max_lon && min_lat <= max_lat,
            forall|k: int|
                0 <= k < i ==> min_lon <= (#[trigger] self.wgs@[k]).lon <= max_lon && min_lat
                    <= self.wgs@[k].lat <= max_lat,
            exists|k: int| 0 <= k < i && (#[trigger] self.wgs@[k]).lon == min_lon,
            exists|k: int| 0 <= k < i && (#[trigger] self.wgs@[k]).lon == max_lon,
            exists|k: int| 0 <= k < i && (#[trigger] self.wgs@[k]).lat == min_lat,
            exists|k: int| 0 <= k < i && (#[trigger] self.wgs@[k]).lat == max_lat,
        decreases n - i,
        {
            let w = self.wgs[i];
            if w.lon < min_lon {
                min_lon = w.lon;
            }
            if w.lon > max_lon {
                max_lon = w.lon;
            }
            if w.lat < min_lat {
                min_lat = w.lat;
            }
            if w.lat > max_lat {
                max_lat = w.lat;
            }
            i = i + 1;
        }
        WGS84BoundingBox {
            min: WGS84Point { lon: min_lon, lat: min_lat, ele: None },
            max: WGS84Point { lon: max_lon, lat: max_lat, ele: None },
        }
    }

    /// The metric projection chosen for the polygon: the UTM zone of its
    /// first vertex, hemisphere by the sign of that vertex's latitude.
    pub fn chosen_projection(&self) -> (r: WebMercatorProjection)
        requires
            self.wgs@.len() >= 1,
            ring_in_range(self.wgs@),
        ensures
            r.zone == utm_zone_of(self.wgs@[0].lon as int),
            r.south == (self.wgs@[0].lat < 0),
    {
        WebMercatorProjection::for_point(&self.wgs[0])
    }

    /// The PROJ string of the polygon's chosen projection.
    pub fn projection(&self) -> (r: String)
        requires
            self.wgs@.len() >= 1,
            ring_in_range(self.wgs@),
        ensures
            r@ == spec_proj_string(utm_zone_of(self.wgs@[0].lon as int), self.wgs@[0].lat < 0),
    {
        let p = self.chosen_projection();
        proof {
            crate::math::lemma_floor_div_bounds(
                self.wgs@[0].lon + 180 * (crate::point::UNITS_PER_DEGREE as int),
                6 * (crate::point::UNITS_PER_DEGREE as int),
                0,
                60,
            );
        }
        p.proj_string()
    }

    /// One SRTM tile path candidate per vertex: the fixed tile directory
    /// joined with the vertex's tile basename. Duplicates are kept; the
    /// catalog collaborator deduplicates and sorts.
    pub fn candidates(&self) -> (r: Vec<String>)
        requires
            ring_in_range(self.wgs@),
        ensures
            r@.len() == self.wgs@.len(),
            forall|k: int|
                0 <= k < r@.len() ==> (#[trigger] r@[k])@ == spec_candidate_path(
                    self.wgs@[k].lon as int,
                    self.wgs@[k].lat as int,
                ),
    {
        let n = self.wgs.len();
        let mut ret: Vec<String> = Vec::new();
        let mut i: usize = 0;
        while i < n
        invariant
            n == self.wgs@.len(),
            ring_in_range(self.wgs@),
            i <= n,
            ret@.len() == i,
            forall|k: int|
                0 <= k < i ==> (#[trigger] ret@[k])@ == spec_candidate_path(
                    self.wgs@[k].lon as int,
                    self.wgs@[k].lat as int,
                ),
        decreases n - i,
        {
            let mut path = String::from_str("/home/julien/DEM/SRTM/GL3/hgt/");
            let base = crate::hgt::hgt_basename(&self.wgs[i]);
            path.append(base.as_str());
            ret.push(path);
            i = i + 1;
        }
        ret
    }
}

/// The catalog path for the SRTM tile of a vertex.
pub open spec fn spec_candidate_path(lon: int, lat: int) -> Seq<char> {
    ("/home/julien/DEM/SRTM/GL3/hgt/")@ + crate::hgt::spec_hgt_basename(lon, lat)
}

/// `n` occurs as a contiguous run of characters inside `h`.
pub open spec fn chars_contain(h: Seq<char>, n: Seq<char>) -> bool {
    exists|i: int| 0 <= i && i + n.len() <= h.len() && #[trigger] h.subrange(i, i + n.len()) == n
}

/// Whether the needle occurs in the haystack, by characters.
pub fn str_contains(h: &str, n: &str) -> (r: bool)
    ensures
        r == chars_contain(h@, n@),
{
    let hl = h.unicode_len();
    let nl = n.unicode_len();
    if nl > hl {
        proof {
            assert(!chars_contain(h@, n@));
        }
        return false;
    }
    let mut i: usize = 0;
    while i <= hl - nl
    invariant
        hl == h@.len(),
        nl == n@.len(),
        nl <= hl,
        i <= hl - nl + 1,
        forall|ii: int| 0 <= ii < i ==> #[trigger] h@.subrange(ii, ii + nl) != n@,
    decreases hl - nl - i + 1,
    {
        let mut j: usize = 0;
        let mut matches = true;
        while j < nl
        invariant
            hl == h@.len(),
            nl == n@.len(),
            nl <= hl,
            i <= hl - nl,
            j <= nl,
            matches ==> forall|jj: int| 0 <= jj < j ==> h@[i + jj] == n@[jj],
            !matches ==> h@.subrange(i as int, i + nl) != n@,
        decreases nl - j,
        {
            if matches {
                let hc = h.get_char(i + j);
                let nc = n.get_char(j);
                if hc != nc {
                    proof {
                        assert(h@.subrange(i as int, i + nl)[j as int] == h@[i + j]);
                    }
                    matches = false;
                }
            }
            j = j + 1;
        }
        if matches {
            proof {
                assert(h@.subrange(i as int, i + nl) =~= n@);
            }
            return true;
        }
        proof {
            if nl == 0 {
                assert(h@.subrange(i as int, i as int) =~= n@);
                assert(false);
            }
        }
        i = i + 1;
    }
    proof {
        assert forall|ii: int| 0 <= ii && ii + n@.len() <= h@.len() implies #[trigger] h@.subrange(
            ii,
            ii + n@.len(),
        ) != n@ by {
            assert(ii < i);
        }
    }
    false
}

/// The fixed dataset path that a catalog override names: one path for the
/// finer GL1 tile set, one for the coarser HGT tile, nothing otherwise.
pub open spec fn spec_datasetstring(s: Seq<char>) -> Seq<char> {
    if chars_contain(s, ("GL1")@) {
        ("/home/julien/DEM/SRTM/GL1/S2/output_SRTMGL1.tif")@
    } else if chars_contain(s, ("HGT")@) {
        ("/home/julien/DEM/SRTM/GL3/hgt/N18W070.hgt")@
    } else {
        Seq::<char>::empty()
    }
}

/// Maps a catalog override token to its dataset path.
pub fn datasetstring(s: &String) -> (r: String)
    ensures
        r@ == spec_datasetstring(s@),
{
    if str_contains(s.as_str(), "GL1") {
        String::from_str("/home/julien/DEM/SRTM/GL1/S2/output_SRTMGL1.tif")
    } else if str_contains(s.as_str(), "HGT") {
        String::from_str("/home/julien/DEM/SRTM/GL3/hgt/N18W070.hgt")
    } else {
        String::new()
    }
}

/// The metric bounding box of a non-empty set of projected points: tight
/// on all four sides.
pub fn mercatorbbox(points: &Vec<MercatorPoint>) -> (r: MercatorBoundingBox)
    requires
        points@.len() >= 1,
    ensures
        r.wf(),
        forall|k: int|
            0 <= k < points@.len() ==> r.min.x <= (#[trigger] points@[k]).x <= r.max.x && r.min.y
                <= points@[k].y <= r.max.y,
        exists|k: int| 0 <= k < points@.len() && (#[trigger] points@[k]).x == r.min.x,
        exists|k: int| 0 <= k < points@.len() && (#[trigger] points@[k]).x == r.max.x,
        exists|k: int| 0 <= k < points@.len() && (#[trigger] points@[k]).y == r.min.y,
        exists|k: int| 0 <= k < points@.len() && (#[trigger] points@[k]).y == r.max.y,
{
    let first = points[0];
    let mut min_x: i64 = first.x;
    let mut max_x: i64 = first.x;
    let mut min_y: i64 = first.y;
    let mut max_y: i64 = first.y;
    let n = points.len();
    let mut i: usize = 1;
    while i < n
    invariant
        n == points@.len(),
        1 <= i <= n,
        min_x <= max_x && min_y <= max_y,
        forall|k: int|
            0 <= k < i ==> min_x <= (#[trigger] points@[k]).x <= max_x && min_y <= points@[k].y
                <= max_y,
        exists|k: int| 0 <= k < i && (#[trigger] points@[k]).x == min_x,
        exists|k: int| 0 <= k < i && (#[trigger] points@[k]).x == max_x,
        exists|k: int| 0 <= k < i && (#[trigger] points@[k]).y == min_y,
        exists|k: int| 0 <= k < i && (#[trigger] points@[k]).y == max_y,
    decreases n - i,
    {
        let p = points[i];
        if p.x < min_x {
            min_x = p.x;
        }
        if p.x > max_x {
            max_x = p.x;
        }
        if p.y < min_y {
            min_y = p.y;
        }
        if p.y > max_y {
            max_y = p.y;
        }
        i = i + 1;
    }
    MercatorBoundingBox {
        min: MercatorPoint { x: min_x, y: min_y, ele: None },
        max: MercatorPoint { x: max_x, y: max_y, ele: None },
    }
}

/// A copy of the ring with every elevation set to zero.
pub fn flat(polygon: &Vec<MercatorPoint>) -> (r: Vec<MercatorPoint>)
    ensures
        r@ == spec_flat(polygon@),
{
    let n = polygon.len();
    let mut ret: Vec<MercatorPoint> = Vec::new();
    let mut i: usize = 0;
    while i < n
    invariant
        n == polygon@.len(),
        i <= n,
        ret@.len() == i,
        forall|k: int| 0 <= k < i ==> ret@[k] == spec_flat(polygon@)[k],
    decreases n - i,
    {
        ret.push(polygon[i].flat());
        i = i + 1;
    }
    proof {
        assert(ret@ =~= spec_flat(polygon@));
    }
    ret
}

/// The ring with every elevation set to zero.
pub open spec fn spec_flat(s: Seq<MercatorPoint>) -> Seq<MercatorPoint> {
    s.map_values(|p: MercatorPoint| MercatorPoint { x: p.x, y: p.y, ele: Some(0i64) })
}

/// The elevation of a point, zero when absent.
pub open spec fn spec_ele(p: MercatorPoint) -> int {
    match p.ele {
        Some(e) => e as int,
        None => 0,
    }
}

/// The ring successor of vertex `i`: the next vertex, wrapping to the
/// first.
pub open spec fn ring_next(s: Seq<MercatorPoint>, i: int) -> MercatorPoint {
    if i + 1 == s.len() {
        s[0]
    } else {
        s[i + 1]
    }
}

/// One edge's contribution to the surface-normal integral: the cross
/// product of consecutive ring vertices, componentwise.
pub open spec fn cross_term(a: MercatorPoint, b: MercatorPoint) -> (int, int, int) {
    (
        a.y * spec_ele(b) - spec_ele(a) * b.y,
        spec_ele(a) * b.x - a.x * spec_ele(b),
        a.x * b.y - a.y * b.x,
    )
}

/// The sum of the first `i` edge cross products of the closed ring.
pub open spec fn spec_cross_sum(s: Seq<MercatorPoint>, i: int) -> (int, int, int)
    decreases i,
{
    if i <= 0 {
        (0, 0, 0)
    } else {
        let prev = spec_cross_sum(s, i - 1);
        let t = cross_term(s[i - 1], ring_next(s, i - 1));
        (prev.0 + t.0, prev.1 + t.1, prev.2 + t.2)
    }
}

/// Every coordinate and elevation of the ring is within the kernel's
/// bounds.
pub open spec fn ring_in_bounds(s: Seq<MercatorPoint>) -> bool {
    forall|i: int|
        0 <= i < s.len() ==> {
            &&& -(COORD_LIMIT as int) <= (#[trigger] s[i]).x <= COORD_LIMIT as int
            &&& -(COORD_LIMIT as int) <= s[i].y <= COORD_LIMIT as int
            &&& -(COORD_LIMIT as int) <= spec_ele(s[i]) <= COORD_LIMIT as int
        }
}

/// Every vertex of the ring carries an elevation.
pub open spec fn ring_elevated(s: Seq<MercatorPoint>) -> bool {
    forall|i: int| 0 <= i < s.len() ==> (#[trigger] s[i]).ele is Some
}

/// One cross term never exceeds twice the squared coordinate bound.
proof fn lemma_cross_term_bound(s: Seq<MercatorPoint>, i: int)
    requires
        ring_in_bounds(s),
        0 <= i < s.len(),
    ensures
        ({
            let t = cross_term(s[i], ring_next(s, i));
            -800_000_000_000_000 <= t.0 <= 800_000_000_000_000
                && -800_000_000_000_000 <= t.1 <= 800_000_000_000_000
                && -800_000_000_000_000 <= t.2 <= 800_000_000_000_000
        }),
{
    let a = s[i];
    let b = ring_next(s, i);
    assert(-(COORD_LIMIT as int) <= b.x <= COORD_LIMIT as int && -(COORD_LIMIT as int) <= b.y
        <= COORD_LIMIT as int && -(COORD_LIMIT as int) <= spec_ele(b) <= COORD_LIMIT as int);
    assert({
        let t = cross_term(a, b);
        -800_000_000_000_000 <= t.0 <= 800_000_000_000_000 && -800_000_000_000_000 <= t.1
            <= 800_000_000_000_000 && -800_000_000_000_000 <= t.2 <= 800_000_000_000_000
    }) by (nonlinear_arith)
        requires
            -(COORD_LIMIT as int) <= a.x <= COORD_LIMIT as int,
            -(COORD_LIMIT as int) <= a.y <= COORD_LIMIT as int,
            -(COORD_LIMIT as int) <= spec_ele(a) <= COORD_LIMIT as int,
            -(COORD_LIMIT as int) <= b.x <= COORD_LIMIT as int,
            -(COORD_LIMIT as int) <= b.y <= COORD_LIMIT as int,
            -(COORD_LIMIT as int) <= spec_ele(b) <= COORD_LIMIT as int,
            COORD_LIMIT == 20_000_000i64,
    ;
}

/// The partial cross sums grow by at most one term bound per edge.
proof fn lemma_cross_sum_bound(s: Seq<MercatorPoint>, i: int)
    requires
        ring_in_bounds(s),
        0 <= i <= s.len(),
        s.len() <= RING_LIMIT as int,
    ensures
        ({
            let c = spec_cross_sum(s, i);
            -800_000_000_000_000 * i <= c.0 <= 800_000_000_000_000 * i && -800_000_000_000_000 * i
                <= c.1 <= 800_000_000_000_000 * i && -800_000_000_000_000 * i <= c.2
                <= 800_000_000_000_000 * i
        }),
    decreases i,
{
    if i > 0 {
        lemma_cross_sum_bound(s, i - 1);
        lemma_cross_term_bound(s, i - 1);
        assert(800_000_000_000_000 * i == 800_000_000_000_000 * (i - 1) + 800_000_000_000_000)
            by (nonlinear_arith);
    }
}

/// The 3D area of a closed ring: half the magnitude of the summed edge
/// cross products, rounded down to whole square centimeters. Zero for
/// fewer than three vertices.
pub open spec fn spec_area3d(s: Seq<MercatorPoint>) -> int {
    if s.len() < 3 {
        0
    } else {
        let c = spec_cross_sum(s, s.len() as int);
        crate::math::sqrt_floor(c.0 * c.0 + c.1 * c.1 + c.2 * c.2) / 2
    }
}

/// The 3D surface area of a closed elevated ring, in square centimeters.
pub fn calculate_3d_surface_area(polygon: &Vec<MercatorPoint>) -> (r: u64)
    requires
        ring_in_bounds(polygon@),
        polygon@.len() >= 3 ==> ring_elevated(polygon@),
        polygon@.len() <= RING_LIMIT,
    ensures
        r == spec_area3d(polygon@),
{
    let n = polygon.len();
    if n < 3 {
        return 0;
    }
    let mut sx: i128 = 0;
    let mut sy: i128 = 0;
    let mut sz: i128 = 0;
    let mut i: usize = 0;
    while i < n
    invariant
        n == polygon@.len(),
        3 <= n <= RING_LIMIT,
        ring_in_bounds(polygon@),
        ring_elevated(polygon@),
        i <= n,
        (sx as int, sy as int, sz as int) == spec_cross_sum(polygon@, i as int),
        -800_000_000_000_000 * (i as int) <= sx <= 800_000_000_000_000 * (i as int),
        -800_000_000_000_000 * (i as int) <= sy <= 800_000_000_000_000 * (i as int),
        -800_000_000_000_000 * (i as int) <= sz <= 800_000_000_000_000 * (i as int),
    decreases n - i,
    {
        let a = polygon[i];
        let b = if i + 1 == n {
            polygon[0]
        } else {
            polygon[i + 1]
        };
        let ax = a.x as i128;
        let ay = a.y as i128;
        let az = a.ele.unwrap() as i128;
        let bx = b.x as i128;
        let by = b.y as i128;
        let bz = b.ele.unwrap() as i128;
        proof {
            assert(b == ring_next(polygon@, i as int));
            assert(az == spec_ele(a) && bz == spec_ele(b));
            assert(-400_000_000_000_000 <= ay * bz <= 400_000_000_000_000 && -400_000_000_000_000
                <= az * by <= 400_000_000_000_000 && -400_000_000_000_000 <= az * bx
                <= 400_000_000_000_000 && -400_000_000_000_000 <= ax * bz <= 400_000_000_000_000
                && -400_000_000_000_000 <= ax * by <= 400_000_000_000_000 && -400_000_000_000_000
                <= ay * bx <= 400_000_000_000_000) by (nonlinear_arith)
                requires
                    -20_000_000 <= ax <= 20_000_000,
                    -20_000_000 <= ay <= 20_000_000,
                    -20_000_000 <= az <= 20_000_000,
                    -20_000_000 <= bx <= 20_000_000,
                    -20_000_000 <= by <= 20_000_000,
                    -20_000_000 <= bz <= 20_000_000,
            ;
            assert(800_000_000_000_000 * (i as int + 1) == 800_000_000_000_000 * (i as int)
                + 800_000_000_000_000) by (nonlinear_arith);
            assert(800_000_000_000_000 * (i as int) <= 800_000_000_000_000 * 4096int)
                by (nonlinear_arith)
                requires
                    i as int <= 4096,
            ;
        }
        sx = sx + (ay * bz - az * by);
        sy = sy + (az * bx - ax * bz);
        sz = sz + (ax * by - ay * bx);
        i = i + 1;
    }
    proof {
        assert(800_000_000_000_000 * (n as int) <= 3_276_800_000_000_000_000) by (nonlinear_arith)
            requires
                n as int <= 4096,
        ;
        assert(0 <= sx * sx <= 11_000_000_000_000_000_000_000_000_000_000_000_000 && 0 <= sy * sy
            <= 11_000_000_000_000_000_000_000_000_000_000_000_000 && 0 <= sz * sz
            <= 11_000_000_000_000_000_000_000_000_000_000_000_000 && sx * sx + sy * sy + sz * sz
            < 0x4000_0000_0000_0000_0000_0000_0000_0000 && sx * sx + sy * sy + sz * sz >= 0)
            by (nonlinear_arith)
            requires
                -3_276_800_000_000_000_000 <= sx <= 3_276_800_000_000_000_000,
                -3_276_800_000_000_000_000 <= sy <= 3_276_800_000_000_000_000,
                -3_276_800_000_000_000_000 <= sz <= 3_276_800_000_000_000_000,
        ;
    }
    let sum: i128 = sx * sx + sy * sy + sz * sz;
    let mag: u64 = crate::math::isqrt_u128(sum as u128);
    mag / 2
}

/// The doubled signed planar (shoelace) area of the ring's footprint.
pub open spec fn spec_shoelace_doubled(s: Seq<MercatorPoint>) -> int {
    spec_cross_sum(s, s.len() as int).2
}

/// The unsigned planar area of the ring's footprint, in whole square
/// centimeters.
pub open spec fn spec_planar_area(s: Seq<MercatorPoint>) -> int {
    if s.len() < 3 {
        0
    } else {
        vstd::math::abs(spec_shoelace_doubled(s)) as int / 2
    }
}

/// Flattening a ring zeroes the horizontal cross components and keeps the
/// vertical one.
proof fn lemma_flat_cross_sum(s: Seq<MercatorPoint>, i: int)
    requires
        0 <= i <= s.len(),
    ensures
        spec_cross_sum(spec_flat(s), i) == (0int, 0int, spec_cross_sum(s, i).2),
    decreases i,
{
    if i > 0 {
        lemma_flat_cross_sum(s, i - 1);
        let f = spec_flat(s);
        assert(f[i - 1].x == s[i - 1].x && f[i - 1].y == s[i - 1].y && spec_ele(f[i - 1]) == 0);
        assert(ring_next(f, i - 1).x == ring_next(s, i - 1).x && ring_next(f, i - 1).y == ring_next(
            s,
            i - 1,
        ).y && spec_ele(ring_next(f, i - 1)) == 0);
        let a = f[i - 1];
        let b = ring_next(f, i - 1);
        assert(a.y * spec_ele(b) == 0 && spec_ele(a) * b.y == 0 && spec_ele(a) * b.x == 0 && a.x
            * spec_ele(b) == 0) by (nonlinear_arith)
            requires
                spec_ele(a) == 0,
                spec_ele(b) == 0,
        ;
    }
}

/// The 3D area of a flattened ring is exactly its planar shoelace area:
/// with all elevations zero the normal integral reduces to the vertical
/// component.
pub proof fn lemma_flat_area_is_shoelace(s: Seq<MercatorPoint>)
    ensures
        spec_area3d(spec_flat(s)) == spec_planar_area(s),
{
    let f = spec_flat(s);
    assert(f.len() == s.len());
    if s.len() >= 3 {
        lemma_flat_cross_sum(s, s.len() as int);
        let z = spec_cross_sum(s, s.len() as int).2;
        let za = vstd::math::abs(z) as int;
        assert(z * z == za * za) by (nonlinear_arith)
            requires
                za == vstd::math::abs(z),
        ;
        assert(0 * 0 == 0) by (nonlinear_arith);
        crate::math::lemma_sqrt_floor_square(za);
        assert(spec_cross_sum(f, f.len() as int) == (0int, 0int, z));
        assert(spec_area3d(f) == crate::math::sqrt_floor(0 * 0 + 0 * 0 + z * z) / 2);
        assert(spec_area3d(f) == za / 2);
    }
}

/// The normal of the plane through the ring's first three vertices: the
/// cross product of the two edge vectors out of the first vertex.
pub open spec fn spec_normal(s: Seq<MercatorPoint>) -> (int, int, int) {
    let v1 = (s[1].x - s[0].x, s[1].y - s[0].y, spec_ele(s[1]) - spec_ele(s[0]));
    let v2 = (s[2].x - s[0].x, s[2].y - s[0].y, spec_ele(s[2]) - spec_ele(s[0]));
    (
        v1.1 * v2.2 - v1.2 * v2.1,
        v1.2 * v2.0 - v1.0 * v2.2,
        v1.0 * v2.1 - v1.1 * v2.0,
    )
}

/// The slope of the plane through the ring's first three vertices, in
/// whole percent: `100 * sqrt(nx^2 + ny^2) / |nz|`, rounded down. Zero for
/// a degenerate (collinear) triple, `None` for a vertical plane.
pub open spec fn spec_slope(s: Seq<MercatorPoint>) -> Option<int> {
    let n = spec_normal(s);
    if n.0 == 0 && n.1 == 0 && n.2 == 0 {
        Some(0)
    } else if n.2 == 0 {
        None
    } else {
        Some(
            crate::math::sqrt_floor(10000 * (n.0 * n.0 + n.1 * n.1)) / vstd::math::abs(n.2) as int,
        )
    }
}

/// Percent slope of the plane through the ring's first three vertices.
pub fn slope(polygon: &Vec<MercatorPoint>) -> (r: Option<u64>)
    requires
        polygon@.len() >= 3,
        ring_in_bounds(polygon@),
        ring_elevated(polygon@),
    ensures
        r matches Some(p) ==> spec_slope(polygon@) == Some(p as int),
        r is None <==> spec_slope(polygon@) is None,
{
    let p0 = polygon[0];
    let p1 = polygon[1];
    let p2 = polygon[2];
    let v1x = p1.x as i128 - p0.x as i128;
    let v1y = p1.y as i128 - p0.y as i128;
    let v1z = p1.ele.unwrap() as i128 - p0.ele.unwrap() as i128;
    let v2x = p2.x as i128 - p0.x as i128;
    let v2y = p2.y as i128 - p0.y as i128;
    let v2z = p2.ele.unwrap() as i128 - p0.ele.unwrap() as i128;
    proof {
        assert(-1_600_000_000_000_000 <= v1y * v2z <= 1_600_000_000_000_000
            && -1_600_000_000_000_000 <= v1z * v2y <= 1_600_000_000_000_000
            && -1_600_000_000_000_000 <= v1z * v2x <= 1_600_000_000_000_000
            && -1_600_000_000_000_000 <= v1x * v2z <= 1_600_000_000_000_000
            && -1_600_000_000_000_000 <= v1x * v2y <= 1_600_000_000_000_000
            && -1_600_000_000_000_000 <= v1y * v2x <= 1_600_000_000_000_000) by (nonlinear_arith)
            requires
                -40_000_000 <= v1x <= 40_000_000,
                -40_000_000 <= v1y <= 40_000_000,
                -40_000_000 <= v1z <= 40_000_000,
                -40_000_000 <= v2x <= 40_000_000,
                -40_000_000 <= v2y <= 40_000_000,
                -40_000_000 <= v2z <= 40_000_000,
        ;
    }
    let nx: i128 = v1y * v2z - v1z * v2y;
    let ny: i128 = v1z * v2x - v1x * v2z;
    let nz: i128 = v1x * v2y - v1y * v2x;
    if nx == 0 && ny == 0 && nz == 0 {
        return Some(0);
    }
    if nz == 0 {
        return None;
    }
    proof {
        assert(0 <= nx * nx <= 10_240_000_000_000_000_000_000_000_000_000 && 0 <= ny * ny
            <= 10_240_000_000_000_000_000_000_000_000_000) by (nonlinear_arith)
            requires
                -3_200_000_000_000_000 <= nx <= 3_200_000_000_000_000,
                -3_200_000_000_000_000 <= ny <= 3_200_000_000_000_000,
        ;
    }
    let h: i128 = nx * nx + ny * ny;
    proof {
        assert(0 <= 10000 * h < 0x4000_0000_0000_0000_0000_0000_0000_0000);
    }
    let mag: u64 = crate::math::isqrt_u128((10000 * h) as u128);
    let nza: u64 = if nz >= 0 {
        nz as u64
    } else {
        (-nz) as u64
    };
    Some(mag / nza)
}

/// The unsigned planar area of a ring's footprint, in square centimeters.
pub fn planar_area(polygon: &Vec<MercatorPoint>) -> (r: u64)
    requires
        ring_in_bounds(polygon@),
        polygon@.len() <= RING_LIMIT,
    ensures
        r == spec_planar_area(polygon@),
{
    let flattened = flat(polygon);
    proof {
        lemma_flat_area_is_shoelace(polygon@);
        assert(ring_in_bounds(spec_flat(polygon@)));
        assert(ring_elevated(spec_flat(polygon@)));
    }
    calculate_3d_surface_area(&flattened)
}

} // verus!
