//! Geographic and projected points and their axis-aligned bounding boxes.
//!
//! Geographic coordinates are fixed-point integers in grid units of
//! 1/432000 degree (so one degree is 432000 units, one 3-arc-second raster
//! step is 360 units and one 1-arc-second step is 120 units). Projected
//! (metric) coordinates and elevations are integers in centimeters.

use vstd::prelude::*;

verus! {

/// Grid units per degree of longitude or latitude.
pub const UNITS_PER_DEGREE: i64 = 432_000;

/// A geographic point: longitude and latitude in grid units of
/// 1/432000 degree, optional elevation in centimeters.
#[derive(Clone, Copy, Debug)]
pub struct WGS84Point {
    pub lon: i64,
    pub lat: i64,
    pub ele: Option<i64>,
}

/// Longitude within [-180, 180] degrees and latitude within [-90, 90]
/// degrees, in grid units.
pub open spec fn wgs84_in_range(lon: int, lat: int) -> bool {
    -180 * (UNITS_PER_DEGREE as int) <= lon <= 180 * (UNITS_PER_DEGREE as int)
        && -90 * (UNITS_PER_DEGREE as int) <= lat <= 90 * (UNITS_PER_DEGREE as int)
}

impl WGS84Point {
    /// Whether the point lies in the box where the EPSG:32619 projection
    /// (UTM zone 19 north) is meant to be used.
    pub fn in_epsg32619(&self) -> (r: bool)
        ensures
            r == (-72 * (UNITS_PER_DEGREE as int) <= self.lon <= -66 * (UNITS_PER_DEGREE as int)
                && 0 <= self.lat <= 84 * (UNITS_PER_DEGREE as int)),
    {
        -72 * UNITS_PER_DEGREE <= self.lon && self.lon <= -66 * UNITS_PER_DEGREE && 0 <= self.lat
            && self.lat <= 84 * UNITS_PER_DEGREE
    }
}

/// A projected metric point: easting and northing in centimeters, optional
/// elevation in centimeters. The integer coordinates give point sets a total
/// order for free, so deduplication is deterministic.
#[derive(Clone, Copy, Debug)]
pub struct MercatorPoint {
    pub x: i64,
    pub y: i64,
    pub ele: Option<i64>,
}

/// Strict lexicographic order on the `(x, y)` key of projected points.
pub open spec fn xy_lt(a: MercatorPoint, b: MercatorPoint) -> bool {
    a.x < b.x || (a.x == b.x && a.y < b.y)
}

/// Two projected points share the same `(x, y)` key.
pub open spec fn xy_eq(a: MercatorPoint, b: MercatorPoint) -> bool {
    a.x == b.x && a.y == b.y
}

impl MercatorPoint {
    /// The same point with its elevation set to zero.
    pub fn flat(&self) -> (r: MercatorPoint)
        ensures
            r.x == self.x,
            r.y == self.y,
            r.ele == Some(0i64),
    {
        MercatorPoint { x: self.x, y: self.y, ele: Some(0) }
    }

    /// The `(x, y)` key of the point.
    pub fn x_y(&self) -> (r: (i64, i64))
        ensures
            r.0 == self.x,
            r.1 == self.y,
    {
        (self.x, self.y)
    }

    /// Strict lexicographic `(x, y)` comparison.
    pub fn lt(&self, other: &MercatorPoint) -> (r: bool)
        ensures
            r == xy_lt(*self, *other),
    {
        self.x < other.x || (self.x == other.x && self.y < other.y)
    }
}

/// A geographic axis-aligned bounding box. Well-formed boxes have
/// `min.lon <= max.lon` and `min.lat <= max.lat`.
#[derive(Clone, Copy, Debug)]
pub struct WGS84BoundingBox {
    pub min: WGS84Point,
    pub max: WGS84Point,
}

impl WGS84BoundingBox {
    /// The box is normalized: the minimum corner is south-west of the
    /// maximum corner.
    pub open spec fn wf(&self) -> bool {
        self.min.lon <= self.max.lon && self.min.lat <= self.max.lat
    }

    /// The point `(lon, lat)` lies inside the box (borders included).
    pub open spec fn spec_contains(&self, lon: int, lat: int) -> bool {
        self.min.lon <= lon <= self.max.lon && self.min.lat <= lat <= self.max.lat
    }

    /// `other` lies entirely inside the box.
    pub open spec fn spec_contains_box(&self, other: &WGS84BoundingBox) -> bool {
        self.spec_contains(other.min.lon as int, other.min.lat as int)
            && self.spec_contains(other.max.lon as int, other.max.lat as int)
    }

    /// The normalized box spanned by two corner points.
    pub fn from(p1: &WGS84Point, p2: &WGS84Point) -> (r: WGS84BoundingBox)
        ensures
            r.wf(),
            r.min.lon == vstd::math::min(p1.lon as int, p2.lon as int),
            r.min.lat == vstd::math::min(p1.lat as int, p2.lat as int),
            r.max.lon == vstd::math::max(p1.lon as int, p2.lon as int),
            r.max.lat == vstd::math::max(p1.lat as int, p2.lat as int),
            r.min.ele == None::<i64> && r.max.ele == None::<i64>,
    {
        let min = WGS84Point {
            lon: if p1.lon <= p2.lon {
                p1.lon
            } else {
                p2.lon
            },
            lat: if p1.lat <= p2.lat {
                p1.lat
            } else {
                p2.lat
            },
            ele: None,
        };
        let max = WGS84Point {
            lon: if p1.lon >= p2.lon {
                p1.lon
            } else {
                p2.lon
            },
            lat: if p1.lat >= p2.lat {
                p1.lat
            } else {
                p2.lat
            },
            ele: None,
        };
        WGS84BoundingBox { min, max }
    }

    /// The overlap of two boxes, or `None` when they are disjoint on either
    /// axis. A shared border counts as an overlap.
    pub fn intersection(&self, other: &WGS84BoundingBox) -> (r: Option<WGS84BoundingBox>)
        ensures
            match r {
                Some(b) => {
                    &&& b.wf()
                    &&& b.min.lon == vstd::math::max(self.min.lon as int, other.min.lon as int)
                    &&& b.min.lat == vstd::math::max(self.min.lat as int, other.min.lat as int)
                    &&& b.max.lon == vstd::math::min(self.max.lon as int, other.max.lon as int)
                    &&& b.max.lat == vstd::math::min(self.max.lat as int, other.max.lat as int)
                    &&& b.min.ele == None::<i64> && b.max.ele == None::<i64>
                },
                None => vstd::math::max(self.min.lon as int, other.min.lon as int)
                    > vstd::math::min(self.max.lon as int, other.max.lon as int)
                    || vstd::math::max(self.min.lat as int, other.min.lat as int)
                    > vstd::math::min(self.max.lat as int, other.max.lat as int),
            },
    {
        let min_lon = if self.min.lon >= other.min.lon {
            self.min.lon
        } else {
            other.min.lon
        };
        let min_lat = if self.min.lat >= other.min.lat {
            self.min.lat
        } else {
            other.min.lat
        };
        let max_lon = if self.max.lon <= other.max.lon {
            self.max.lon
        } else {
            other.max.lon
        };
        let max_lat = if self.max.lat <= other.max.lat {
            self.max.lat
        } else {
            other.max.lat
        };
        if min_lon <= max_lon && min_lat <= max_lat {
            Some(
                WGS84BoundingBox {
                    min: WGS84Point { lon: min_lon, lat: min_lat, ele: None },
                    max: WGS84Point { lon: max_lon, lat: max_lat, ele: None },
                },
            )
        } else {
            None
        }
    }

    /// Whether the point lies inside the box (borders included).
    pub fn contains(&self, w: &WGS84Point) -> (r: bool)
        ensures
            r == self.spec_contains(w.lon as int, w.lat as int),
    {
        w.lon >= self.min.lon && w.lon <= self.max.lon && w.lat >= self.min.lat && w.lat
            <= self.max.lat
    }

    /// Whether `other` lies entirely inside the box, comparing minimum
    /// against minimum and maximum against maximum on both axes.
    pub fn contains_other(&self, other: &WGS84BoundingBox) -> (r: bool)
        requires
            other.wf(),
        ensures
            r == self.spec_contains_box(other),
    {
        self.min.lon <= other.min.lon && other.max.lon <= self.max.lon && self.min.lat
            <= other.min.lat && other.max.lat <= self.max.lat
    }
}

/// A projected metric axis-aligned bounding box, in centimeters.
#[derive(Clone, Copy, Debug)]
pub struct MercatorBoundingBox {
    pub min: MercatorPoint,
    pub max: MercatorPoint,
}

impl MercatorBoundingBox {
    /// The box is normalized.
    pub open spec fn wf(&self) -> bool {
        self.min.x <= self.max.x && self.min.y <= self.max.y
    }

    /// Extent along the easting axis, in centimeters.
    pub fn width(&self) -> (r: i64)
        requires
            self.wf(),
            self.max.x - self.min.x <= i64::MAX,
        ensures
            r == self.max.x - self.min.x,
    {
        self.max.x - self.min.x
    }

    /// Extent along the northing axis, in centimeters.
    pub fn height(&self) -> (r: i64)
        requires
            self.wf(),
            self.max.y - self.min.y <= i64::MAX,
        ensures
            r == self.max.y - self.min.y,
    {
        self.max.y - self.min.y
    }

    /// Area of the box in square centimeters.
    pub fn area(&self) -> (r: i128)
        requires
            self.wf(),
            self.max.x - self.min.x <= i64::MAX,
            self.max.y - self.min.y <= i64::MAX,
        ensures
            r == (self.max.x - self.min.x) * (self.max.y - self.min.y),
    {
        let w: i128 = self.width() as i128;
        let h: i128 = self.height() as i128;
        proof {
            assert(w * h <= 0x7fff_ffff_ffff_ffff_ffff_ffff_ffff_ffff) by (nonlinear_arith)
                requires
                    0 <= w < 0x8000_0000_0000_0000,
                    0 <= h < 0x8000_0000_0000_0000,
            ;
        }
        w * h
    }
}

} // verus!
