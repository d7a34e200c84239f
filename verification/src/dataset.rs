//! DEM datasets: the affine raster grid of a tile, conversions between
//! geographic coordinates and raster indices, box snapping to cell centers,
//! elevation windows, and redundancy pruning over a set of tiles.
//!
//! Opening a DEM file and reading its elevation band are I/O and happen in
//! the application; it hands the raster's geo-transform and the read
//! elevation window in as plain integers.

use vstd::prelude::*;

use crate::math::{ceil_div, floor_div, round_div};
use crate::point::{WGS84BoundingBox, WGS84Point, wgs84_in_range};

verus! {

/// A raster grid: cell `(col, row)` has its center at
/// `upper_left + (col * xstep, row * ystep)`. `xstep` is positive and
/// `ystep` negative (north-up). Steps and the upper-left corner are in grid
/// units of 1/432000 degree.
#[derive(Clone, Copy, Debug)]
pub struct Raster {
    pub upper_left: WGS84Point,
    pub xsize: usize,
    pub ysize: usize,
    pub xstep: i64,
    pub ystep: i64,
}

impl Raster {
    /// Sane grid: positive column step, negative row step, bounded sizes,
    /// upper-left corner within the world.
    pub open spec fn wf(&self) -> bool {
        &&& 1 <= self.xstep <= 0x10_0000
        &&& -0x10_0000 <= self.ystep <= -1
        &&& 1 <= self.xsize <= 0x10_0000
        &&& 1 <= self.ysize <= 0x10_0000
        &&& wgs84_in_range(self.upper_left.lon as int, self.upper_left.lat as int)
    }

    /// The longitude of the center of column `col`.
    pub open spec fn spec_lon(&self, col: int) -> int {
        self.upper_left.lon + col * self.xstep
    }

    /// The latitude of the center of row `row`.
    pub open spec fn spec_lat(&self, row: int) -> int {
        self.upper_left.lat + row * self.ystep
    }

    /// The nearest column to a longitude, and the nearest row to a
    /// latitude, rounding half away from zero.
    pub open spec fn spec_icol(&self, lon: int) -> int {
        round_div(lon - self.upper_left.lon, self.xstep as int)
    }

    pub open spec fn spec_irow(&self, lat: int) -> int {
        round_div(self.upper_left.lat - lat, -(self.ystep as int))
    }

    /// A raster from a tile's geo-transform: upper-left corner, pixel
    /// steps, and the raster size in cells.
    pub fn make(upper_left: WGS84Point, xsize: usize, ysize: usize, xstep: i64, ystep: i64) -> (r:
        Raster)
        requires
            1 <= xstep <= 0x10_0000,
            -0x10_0000 <= ystep <= -1,
            1 <= xsize <= 0x10_0000,
            1 <= ysize <= 0x10_0000,
            wgs84_in_range(upper_left.lon as int, upper_left.lat as int),
        ensures
            r.wf(),
            r.upper_left == upper_left,
            r.xsize == xsize && r.ysize == ysize,
            r.xstep == xstep && r.ystep == ystep,
    {
        Raster { upper_left, xsize, ysize, xstep, ystep }
    }

    /// The nearest raster cell to a geographic point.
    pub fn icoordinates(&self, world: &WGS84Point) -> (r: (i64, i64))
        requires
            self.wf(),
            wgs84_in_range(world.lon as int, world.lat as int),
        ensures
            r.0 == self.spec_icol(world.lon as int),
            r.1 == self.spec_irow(world.lat as int),
    {
        let x = crate::math::round_div_i64(world.lon - self.upper_left.lon, self.xstep);
        let y = crate::math::round_div_i64(self.upper_left.lat - world.lat, -self.ystep);
        (x, y)
    }

    /// The geographic center of a raster cell. Exact: the products stay
    /// well inside `i64`.
    pub fn wgs84(&self, col: i64, row: i64) -> (r: WGS84Point)
        requires
            self.wf(),
            -0x4000_0000 <= col <= 0x4000_0000,
            -0x4000_0000 <= row <= 0x4000_0000,
        ensures
            r.lon == self.spec_lon(col as int),
            r.lat == self.spec_lat(row as int),
            r.ele == None::<i64>,
    {
        proof {
            assert((col as int) * (self.xstep as int) <= 0x4000_0000_0000_0000
                && (col as int) * (self.xstep as int) >= -0x4000_0000_0000_0000
                && (row as int) * (self.ystep as int) <= 0x4000_0000_0000_0000
                && (row as int) * (self.ystep as int) >= -0x4000_0000_0000_0000)
                by (nonlinear_arith)
                requires
                    -0x4000_0000 <= col <= 0x4000_0000,
                    -0x4000_0000 <= row <= 0x4000_0000,
                    1 <= self.xstep <= 0x10_0000,
                    -0x10_0000 <= self.ystep <= -1,
            ;
        }
        let lon = self.upper_left.lon + col * self.xstep;
        let lat = self.upper_left.lat + row * self.ystep;
        WGS84Point { lon, lat, ele: None }
    }
}

/// A raster cell-index box.
struct RasterBox {
    min: (i64, i64),
    max: (i64, i64),
}

/// A DEM tile: its path, its raster grid, and the PROJ string of the metric
/// projection chosen for the run. The opened file handle stays with the
/// application; everything the geometry needs is here as plain values.
#[derive(Debug)]
pub struct Dataset {
    pub filename: String,
    pub raster: Raster,
    pub projection: String,
}

impl Dataset {
    pub open spec fn wf(&self) -> bool {
        self.raster.wf()
    }

    /// The minimum longitude of the tile's bounding box.
    pub open spec fn spec_bbox_min_lon(&self) -> int {
        vstd::math::min(
            self.raster.upper_left.lon as int,
            self.raster.spec_lon(self.raster.xsize as int),
        )
    }

    pub open spec fn spec_bbox_max_lon(&self) -> int {
        vstd::math::max(
            self.raster.upper_left.lon as int,
            self.raster.spec_lon(self.raster.xsize as int),
        )
    }

    pub open spec fn spec_bbox_min_lat(&self) -> int {
        vstd::math::min(
            self.raster.upper_left.lat as int,
            self.raster.spec_lat(self.raster.ysize as int),
        )
    }

    pub open spec fn spec_bbox_max_lat(&self) -> int {
        vstd::math::max(
            self.raster.upper_left.lat as int,
            self.raster.spec_lat(self.raster.ysize as int),
        )
    }

    /// The tile's bounding box `b` covers the tile's four corner pixels.
    pub open spec fn spec_bbox(&self) -> WGS84BoundingBox {
        WGS84BoundingBox {
            min: WGS84Point {
                lon: self.spec_bbox_min_lon() as i64,
                lat: self.spec_bbox_min_lat() as i64,
                ele: None,
            },
            max: WGS84Point {
                lon: self.spec_bbox_max_lon() as i64,
                lat: self.spec_bbox_max_lat() as i64,
                ele: None,
            },
        }
    }

    /// The geographic bounding box of the tile, orientation-independent:
    /// the min/max over the upper-left corner and the corner
    /// `upper_left + size * step` on both axes.
    pub fn wgsbbox(&self) -> (r: WGS84BoundingBox)
        requires
            self.wf(),
        ensures
            r == self.spec_bbox(),
            r.wf(),
            r.min.lon == self.spec_bbox_min_lon() && r.max.lon == self.spec_bbox_max_lon(),
            r.min.lat == self.spec_bbox_min_lat() && r.max.lat == self.spec_bbox_max_lat(),
    {
        let p1 = WGS84Point {
            lon: self.raster.upper_left.lon,
            lat: self.raster.upper_left.lat,
            ele: None,
        };
        let far = self.raster.wgs84(self.raster.xsize as i64, self.raster.ysize as i64);
        WGS84BoundingBox::from(&p1, &far)
    }

    /// The smallest cell-index box whose cell-centered region contains the
    /// given geographic box: floor on the low corner, ceiling on the high
    /// corner, rows flipped because `ystep` is negative.
    fn raster_box(&self, b: &WGS84BoundingBox) -> (r: RasterBox)
        requires
            self.wf(),
            b.wf(),
            wgs84_in_range(b.min.lon as int, b.min.lat as int),
            wgs84_in_range(b.max.lon as int, b.max.lat as int),
        ensures
            r.min.0 == floor_div(b.min.lon - self.raster.upper_left.lon, self.raster.xstep as int),
            r.max.0 == ceil_div(b.max.lon - self.raster.upper_left.lon, self.raster.xstep as int),
            r.min.1 == floor_div(
                self.raster.upper_left.lat - b.max.lat,
                -(self.raster.ystep as int),
            ),
            r.max.1 == ceil_div(
                self.raster.upper_left.lat - b.min.lat,
                -(self.raster.ystep as int),
            ),
            r.min.0 <= r.max.0 && r.min.1 <= r.max.1,
            -0x4000_0000 <= r.min.0 && r.max.0 <= 0x4000_0000,
            -0x4000_0000 <= r.min.1 && r.max.1 <= 0x4000_0000,
    {
        let ul_lon = self.raster.upper_left.lon;
        let ul_lat = self.raster.upper_left.lat;
        let col_min = crate::math::floor_div_i64(b.min.lon - ul_lon, self.raster.xstep);
        let col_max = crate::math::ceil_div_i64(b.max.lon - ul_lon, self.raster.xstep);
        let row_min = crate::math::floor_div_i64(ul_lat - b.max.lat, -self.raster.ystep);
        let row_max = crate::math::ceil_div_i64(ul_lat - b.min.lat, -self.raster.ystep);
        proof {
            let xs = self.raster.xstep as int;
            let ys = -(self.raster.ystep as int);
            assert(ys >= 1);
            crate::math::lemma_floor_div_le(b.min.lon - ul_lon, xs);
            crate::math::lemma_ceil_div_ge(b.max.lon - ul_lon, xs);
            crate::math::lemma_floor_div_le(ul_lat - b.max.lat, ys);
            crate::math::lemma_ceil_div_ge(ul_lat - b.min.lat, ys);
            assert(col_min <= col_max && row_min <= row_max) by (nonlinear_arith)
                requires
                    xs > 0,
                    ys > 0,
                    b.min.lon <= b.max.lon,
                    b.min.lat <= b.max.lat,
                    (col_min as int) * xs <= b.min.lon - ul_lon,
                    b.max.lon - ul_lon <= (col_max as int) * xs,
                    (row_min as int) * ys <= ul_lat - b.max.lat,
                    ul_lat - b.min.lat <= (row_max as int) * ys,
            ;
            lemma_scaled_bounds(b.min.lon - ul_lon, xs);
            lemma_scaled_bounds(b.max.lon - ul_lon, xs);
            lemma_scaled_bounds(ul_lat - b.max.lat, ys);
            lemma_scaled_bounds(ul_lat - b.min.lat, ys);
        }
        RasterBox { min: (col_min, row_min), max: (col_max, row_max) }
    }

    /// Snaps a geographic box outward to raster cell centers: the result
    /// contains the input, and its corners are centers of cells — the cells
    /// found by flooring the low corner and ceiling the high corner of the
    /// input in raster coordinates.
    pub fn snap(&self, b: &mut WGS84BoundingBox)
        requires
            self.wf(),
            old(b).wf(),
            wgs84_in_range(old(b).min.lon as int, old(b).min.lat as int),
            wgs84_in_range(old(b).max.lon as int, old(b).max.lat as int),
        ensures
            final(b).wf(),
            final(b).spec_contains_box(&old(b)),
            final(b).min.lon == self.raster.spec_lon(
                floor_div(old(b).min.lon - self.raster.upper_left.lon, self.raster.xstep as int),
            ),
            final(b).max.lon == self.raster.spec_lon(
                ceil_div(old(b).max.lon - self.raster.upper_left.lon, self.raster.xstep as int),
            ),
            final(b).max.lat == self.raster.spec_lat(
                floor_div(
                    self.raster.upper_left.lat - old(b).max.lat,
                    -(self.raster.ystep as int),
                ),
            ),
            final(b).min.lat == self.raster.spec_lat(
                ceil_div(self.raster.upper_left.lat - old(b).min.lat, -(self.raster.ystep as int)),
            ),
            final(b).min.ele == None::<i64> && final(b).max.ele == None::<i64>,
    {
        let rb = self.raster_box(b);
        let p1 = self.raster.wgs84(rb.min.0, rb.min.1);
        let p2 = self.raster.wgs84(rb.max.0, rb.max.1);
        proof {
            let xs = self.raster.xstep as int;
            let ys = -(self.raster.ystep as int);
            let ul_lon = self.raster.upper_left.lon as int;
            let ul_lat = self.raster.upper_left.lat as int;
            assert((rb.min.1 as int) * (self.raster.ystep as int) == -((rb.min.1 as int) * ys))
                by (nonlinear_arith)
                requires
                    ys == -(self.raster.ystep as int),
            ;
            assert((rb.max.1 as int) * (self.raster.ystep as int) == -((rb.max.1 as int) * ys))
                by (nonlinear_arith)
                requires
                    ys == -(self.raster.ystep as int),
            ;
            crate::math::lemma_floor_div_le(b.min.lon - ul_lon, xs);
            crate::math::lemma_ceil_div_ge(b.max.lon - ul_lon, xs);
            crate::math::lemma_floor_div_le(ul_lat - b.max.lat, ys);
            crate::math::lemma_ceil_div_ge(ul_lat - b.min.lat, ys);
            assert(p1.lon <= b.min.lon && b.max.lon <= p2.lon && p2.lat <= b.min.lat && b.max.lat
                <= p1.lat && p1.lon <= p2.lon && p2.lat <= p1.lat) by (nonlinear_arith)
                requires
                    xs > 0,
                    ys > 0,
                    b.min.lon <= b.max.lon,
                    b.min.lat <= b.max.lat,
                    p1.lon == ul_lon + (rb.min.0 as int) * xs,
                    p2.lon == ul_lon + (rb.max.0 as int) * xs,
                    p1.lat == ul_lat - (rb.min.1 as int) * ys,
                    p2.lat == ul_lat - (rb.max.1 as int) * ys,
                    (rb.min.0 as int) * xs <= b.min.lon - ul_lon,
                    b.min.lon - ul_lon < ((rb.min.0 as int) + 1) * xs,
                    (rb.max.0 as int) * xs >= b.max.lon - ul_lon,
                    (rb.min.1 as int) * ys <= ul_lat - b.max.lat,
                    (rb.max.1 as int) * ys >= ul_lat - b.min.lat,
            ;
        }
        let ret = WGS84BoundingBox::from(&p1, &p2);
        b.min = ret.min;
        b.max = ret.max;
    }
}

/// Why a dataset cannot serve a query box.
#[derive(Clone, Copy, Debug, PartialEq, Eq, Structural)]
pub enum DatasetError {
    /// The query box does not overlap the tile at all.
    NoOverlap,
    /// The rounded query window starts left of or above the raster, or is
    /// empty after clamping.
    WindowOutOfRange,
}

/// A rectangular window of raster cells, both ends inclusive.
#[derive(Clone, Copy, Debug)]
pub struct Window {
    pub col_start: i64,
    pub row_start: i64,
    pub col_end: i64,
    pub row_end: i64,
}

impl Window {
    pub open spec fn wf(&self) -> bool {
        0 <= self.col_start <= self.col_end && 0 <= self.row_start <= self.row_end
    }

    /// Number of columns in the window.
    pub open spec fn spec_xsize(&self) -> int {
        self.col_end - self.col_start + 1
    }

    /// Number of rows in the window.
    pub open spec fn spec_ysize(&self) -> int {
        self.row_end - self.row_start + 1
    }

    /// Number of cells in the window.
    pub open spec fn spec_count(&self) -> int {
        self.spec_xsize() * self.spec_ysize()
    }

    /// The window lies inside the raster.
    pub open spec fn in_raster(&self, r: Raster) -> bool {
        self.wf() && self.col_end < r.xsize && self.row_end < r.ysize
    }

    /// Number of cells in the window, for sizing the elevation read.
    pub fn count(&self) -> (n: u64)
        requires
            self.wf(),
            self.col_end <= 0x10_0000,
            self.row_end <= 0x10_0000,
        ensures
            n == self.spec_count(),
            n >= 1,
    {
        let xs: u64 = (self.col_end - self.col_start) as u64 + 1;
        let ys: u64 = (self.row_end - self.row_start) as u64 + 1;
        proof {
            assert((xs as int) * (ys as int) <= 0x400_0000_0000 && (xs as int) * (ys as int) >= 1)
                by (nonlinear_arith)
                requires
                    1 <= xs <= 0x10_0001,
                    1 <= ys <= 0x10_0001,
            ;
        }
        xs * ys
    }
}

impl Dataset {
    /// The window of raster cells read for a query box, or why there is
    /// none: the box is intersected with the tile, the corners are rounded
    /// to the nearest cells, and the high corner is clamped to the raster's
    /// edge. Boxes whose rounded low corner falls outside the raster are
    /// refused.
    pub open spec fn spec_window(&self, b: &WGS84BoundingBox) -> Option<(int, int, int, int)> {
        let min_lon = vstd::math::max(self.spec_bbox_min_lon(), b.min.lon as int);
        let min_lat = vstd::math::max(self.spec_bbox_min_lat(), b.min.lat as int);
        let max_lon = vstd::math::min(self.spec_bbox_max_lon(), b.max.lon as int);
        let max_lat = vstd::math::min(self.spec_bbox_max_lat(), b.max.lat as int);
        if min_lon > max_lon || min_lat > max_lat {
            None
        } else {
            let c1 = self.raster.spec_icol(min_lon);
            let c2 = self.raster.spec_icol(max_lon);
            let r1 = self.raster.spec_irow(min_lat);
            let r2 = self.raster.spec_irow(max_lat);
            let cs = vstd::math::min(c1, c2);
            let rs = vstd::math::min(r1, r2);
            let ce = vstd::math::min(vstd::math::max(c1, c2), self.raster.xsize - 1);
            let re = vstd::math::min(vstd::math::max(r1, r2), self.raster.ysize - 1);
            if cs < 0 || rs < 0 || ce < cs || re < rs {
                None
            } else {
                Some((cs, rs, ce, re))
            }
        }
    }

    /// Computes the raster window for a query box. `Err(NoOverlap)` exactly
    /// when the box misses the tile; `Err(WindowOutOfRange)` exactly when
    /// the rounded window escapes the raster.
    pub fn window(&self, b: &WGS84BoundingBox) -> (r: Result<Window, DatasetError>)
        requires
            self.wf(),
            b.wf(),
            wgs84_in_range(b.min.lon as int, b.min.lat as int),
            wgs84_in_range(b.max.lon as int, b.max.lat as int),
        ensures
            match r {
                Ok(w) => {
                    &&& self.spec_window(b) == Some(
                        (
                            w.col_start as int,
                            w.row_start as int,
                            w.col_end as int,
                            w.row_end as int,
                        ),
                    )
                    &&& w.in_raster(self.raster)
                },
                Err(e) => self.spec_window(b) == None::<(int, int, int, int)> && (e
                    == DatasetError::NoOverlap <==> (
                    vstd::math::max(self.spec_bbox_min_lon(), b.min.lon as int) > vstd::math::min(
                        self.spec_bbox_max_lon(),
                        b.max.lon as int,
                    ) || vstd::math::max(self.spec_bbox_min_lat(), b.min.lat as int)
                    > vstd::math::min(self.spec_bbox_max_lat(), b.max.lat as int))),
            },
    {
        let bbox = self.wgsbbox();
        let inter = match bbox.intersection(b) {
            Some(i) => i,
            None => {
                return Err(DatasetError::NoOverlap);
            },
        };
        let p1 = self.raster.icoordinates(&inter.min);
        let p2 = self.raster.icoordinates(&inter.max);
        let cs = if p1.0 <= p2.0 {
            p1.0
        } else {
            p2.0
        };
        let rs = if p1.1 <= p2.1 {
            p1.1
        } else {
            p2.1
        };
        let ce0 = if p1.0 >= p2.0 {
            p1.0
        } else {
            p2.0
        };
        let re0 = if p1.1 >= p2.1 {
            p1.1
        } else {
            p2.1
        };
        let ce = if ce0 <= (self.raster.xsize - 1) as i64 {
            ce0
        } else {
            (self.raster.xsize - 1) as i64
        };
        let re = if re0 <= (self.raster.ysize - 1) as i64 {
            re0
        } else {
            (self.raster.ysize - 1) as i64
        };
        if cs < 0 || rs < 0 || ce < cs || re < rs {
            return Err(DatasetError::WindowOutOfRange);
        }
        Ok(Window { col_start: cs, row_start: rs, col_end: ce, row_end: re })
    }

    /// The elevation posts of a raster window: one geographic point per
    /// cell, row-major, each the exact cell center carrying the elevation
    /// read for that cell. The caller reads `elevations` for the same
    /// window, row-major, in centimeters.
    pub fn points_inside(&self, w: &Window, elevations: &Vec<i64>) -> (r: Vec<WGS84Point>)
        requires
            self.wf(),
            w.in_raster(self.raster),
            elevations@.len() == w.spec_count(),
        ensures
            r@.len() == w.spec_count(),
            forall|k: int|
                0 <= k < r@.len() ==> {
                    &&& (#[trigger] r@[k]).lon == self.raster.spec_lon(
                        w.col_start + (k % w.spec_xsize()),
                    )
                    &&& r@[k].lat == self.raster.spec_lat(w.row_start + (k / w.spec_xsize()))
                    &&& r@[k].ele == Some(elevations@[k])
                },
    {
        let mut ret: Vec<WGS84Point> = Vec::new();
        let xs: usize = (w.col_end - w.col_start) as usize + 1;
        let ys: usize = (w.row_end - w.row_start) as usize + 1;
        proof {
            assert((xs as int) * (ys as int) == w.spec_count() && w.spec_count() >= 1)
                by (nonlinear_arith)
                requires
                    xs == w.spec_xsize(),
                    ys == w.spec_ysize(),
                    xs >= 1,
                    ys >= 1,
            ;
        }
        let mut ro: usize = 0;
        while ro < ys
        invariant
            self.wf(),
            w.in_raster(self.raster),
            elevations@.len() == w.spec_count(),
            xs == w.spec_xsize(),
            ys == w.spec_ysize(),
            (xs as int) * (ys as int) == w.spec_count(),
            ro <= ys,
            ret@.len() == ro * xs,
            forall|k: int|
                0 <= k < ret@.len() ==> {
                    &&& (#[trigger] ret@[k]).lon == self.raster.spec_lon(
                        w.col_start + (k % w.spec_xsize()),
                    )
                    &&& ret@[k].lat == self.raster.spec_lat(w.row_start + (k / w.spec_xsize()))
                    &&& ret@[k].ele == Some(elevations@[k])
                },
        decreases ys - ro,
        {
            let mut co: usize = 0;
            proof {
                assert((ro as int) * (xs as int) + xs <= (ys as int) * (xs as int))
                    by (nonlinear_arith)
                    requires
                        0 <= (ro as int) < (ys as int),
                        xs >= 1,
                ;
            }
            while co < xs
            invariant
                self.wf(),
                w.in_raster(self.raster),
                elevations@.len() == w.spec_count(),
                xs == w.spec_xsize(),
                ys == w.spec_ysize(),
                (xs as int) * (ys as int) == w.spec_count(),
                ro < ys,
                co <= xs,
                (ro as int) * (xs as int) + xs <= (ys as int) * (xs as int),
                ret@.len() == ro * xs + co,
                forall|k: int|
                    0 <= k < ret@.len() ==> {
                        &&& (#[trigger] ret@[k]).lon == self.raster.spec_lon(
                            w.col_start + (k % w.spec_xsize()),
                        )
                        &&& ret@[k].lat == self.raster.spec_lat(w.row_start + (k / w.spec_xsize()))
                        &&& ret@[k].ele == Some(elevations@[k])
                    },
            decreases xs - co,
            {
                let col: i64 = w.col_start + co as i64;
                let row: i64 = w.row_start + ro as i64;
                let mut p = self.raster.wgs84(col, row);
                let k: usize = ret.len();
                p.ele = Some(elevations[k]);
                ret.push(p);
                proof {
                    vstd::arithmetic::div_mod::lemma_fundamental_div_mod_converse(
                        k as int,
                        xs as int,
                        ro as int,
                        co as int,
                    );
                }
                co = co + 1;
            }
            proof {
                assert((ro as int + 1) * (xs as int) == (ro as int) * (xs as int) + (xs as int))
                    by (nonlinear_arith);
            }
            ro = ro + 1;
        }
        proof {
            assert((ys as int) * (xs as int) == (xs as int) * (ys as int)) by (nonlinear_arith);
        }
        ret
    }
}

/// A finer tile (strictly smaller column step) exists in `ds` whose
/// bounding box contains `d`'s. Ties in step keep both tiles.
pub open spec fn spec_covered_by_finer(ds: Seq<Dataset>, d: Dataset) -> bool {
    exists|j: int|
        0 <= j < ds.len() && (#[trigger] ds[j]).raster.xstep < d.raster.xstep
            && ds[j].spec_bbox().spec_contains_box(&d.spec_bbox())
}

/// The pruning predicate: a tile survives when no finer tile of the
/// original list covers it.
pub open spec fn keep_pred(orig: Seq<Dataset>) -> spec_fn(Dataset) -> bool {
    |d: Dataset| !spec_covered_by_finer(orig, d)
}

/// A tile's bounding box overlaps the box `b` (shared borders count).
pub open spec fn spec_overlaps(d: Dataset, b: WGS84BoundingBox) -> bool {
    vstd::math::max(d.spec_bbox_min_lon(), b.min.lon as int) <= vstd::math::min(
        d.spec_bbox_max_lon(),
        b.max.lon as int,
    ) && vstd::math::max(d.spec_bbox_min_lat(), b.min.lat as int) <= vstd::math::min(
        d.spec_bbox_max_lat(),
        b.max.lat as int,
    )
}

/// The overlap predicate for retaining tiles against a polygon's box.
pub open spec fn overlap_pred(b: WGS84BoundingBox) -> spec_fn(Dataset) -> bool {
    |d: Dataset| spec_overlaps(d, b)
}

impl Dataset {
    /// Drops every tile for which some strictly finer tile's bounding box
    /// contains its own. Comparisons are against the original list, so the
    /// outcome does not depend on removal order; survivors keep their
    /// order.
    #[verifier::rlimit(60)]
    pub fn remove_redundant_datasets(datasets: &mut Vec<Dataset>)
        requires
            forall|i: int| 0 <= i < old(datasets)@.len() ==> (#[trigger] old(datasets)@[i]).wf(),
        ensures
            final(datasets)@ == old(datasets)@.filter(keep_pred(old(datasets)@)),
    {
        let ghost orig = datasets@;
        let n = datasets.len();
        let mut keep: Vec<bool> = Vec::new();
        let mut i: usize = 0;
        while i < n
        invariant
            datasets@ == orig,
            n == orig.len(),
            forall|k: int| 0 <= k < orig.len() ==> (#[trigger] orig[k]).wf(),
            i <= n,
            keep@.len() == i,
            forall|k: int|
                0 <= k < i ==> keep@[k] == !spec_covered_by_finer(orig, #[trigger] orig[k]),
        decreases n - i,
        {
            let bbox_i = datasets[i].wgsbbox();
            let step_i = datasets[i].raster.xstep;
            let mut covered = false;
            let mut j: usize = 0;
            while j < n
            invariant
                datasets@ == orig,
                n == orig.len(),
                forall|k: int| 0 <= k < orig.len() ==> (#[trigger] orig[k]).wf(),
                i < n,
                j <= n,
                bbox_i == orig[i as int].spec_bbox(),
                bbox_i.wf(),
                step_i == orig[i as int].raster.xstep,
                covered == exists|jj: int|
                    0 <= jj < j && (#[trigger] orig[jj]).raster.xstep < step_i
                        && orig[jj].spec_bbox().spec_contains_box(&orig[i as int].spec_bbox()),
            decreases n - j,
            {
                let bbox_j = datasets[j].wgsbbox();
                if datasets[j].raster.xstep < step_i && bbox_j.contains_other(&bbox_i) {
                    covered = true;
                }
                j = j + 1;
            }
            keep.push(!covered);
            i = i + 1;
        }
        let mut result: Vec<Dataset> = Vec::new();
        let mut i: usize = 0;
        while i < n
        invariant
            n == orig.len(),
            i <= n,
            keep@.len() == n,
            forall|k: int|
                0 <= k < n ==> keep@[k] == !spec_covered_by_finer(orig, #[trigger] orig[k]),
            datasets@ == orig.skip(i as int),
            result@ == orig.take(i as int).filter(keep_pred(orig)),
        decreases n - i,
        {
            let d = datasets.remove(0);
            proof {
                assert(orig.skip(i as int).remove(0) =~= orig.skip(i as int + 1));
                assert(orig.take(i as int).push(orig[i as int]) =~= orig.take(i as int + 1));
                crate::math::lemma_filter_push(orig.take(i as int), orig[i as int], keep_pred(orig));
            }
            if keep[i] {
                result.push(d);
            }
            i = i + 1;
        }
        proof {
            assert(orig.take(n as int) =~= orig);
        }
        *datasets = result;
    }

    /// Selects the tiles that serve a polygon: prunes redundant tiles,
    /// then keeps only those whose bounding box overlaps the polygon's.
    pub fn select(datasets: Vec<Dataset>, polybox: &WGS84BoundingBox) -> (r: Vec<Dataset>)
        requires
            forall|i: int| 0 <= i < datasets@.len() ==> (#[trigger] datasets@[i]).wf(),
        ensures
            r@ == datasets@.filter(keep_pred(datasets@)).filter(overlap_pred(*polybox)),
    {
        let ghost orig = datasets@;
        let mut ds = datasets;
        Dataset::remove_redundant_datasets(&mut ds);
        let ghost pruned = orig.filter(keep_pred(orig));
        proof {
            crate::math::lemma_filter_elements(
                orig,
                keep_pred(orig),
                |d: Dataset| d.wf(),
            );
            assert(forall|k: int| 0 <= k < pruned.len() ==> (#[trigger] pruned[k]).wf());
        }
        let n = ds.len();
        let mut result: Vec<Dataset> = Vec::new();
        let mut i: usize = 0;
        while i < n
        invariant
            n == pruned.len(),
            i <= n,
            ds@ == pruned.skip(i as int),
            forall|k: int| 0 <= k < pruned.len() ==> (#[trigger] pruned[k]).wf(),
            result@ == pruned.take(i as int).filter(overlap_pred(*polybox)),
        decreases n - i,
        {
            let d = ds.remove(0);
            let bbox = d.wgsbbox();
            let inter = bbox.intersection(polybox);
            proof {
                assert(pruned.skip(i as int).remove(0) =~= pruned.skip(i as int + 1));
                assert(pruned.take(i as int).push(pruned[i as int]) =~= pruned.take(i as int + 1));
                crate::math::lemma_filter_push(
                    pruned.take(i as int),
                    pruned[i as int],
                    overlap_pred(*polybox),
                );
            }
            if inter.is_some() {
                result.push(d);
            }
            i = i + 1;
        }
        proof {
            assert(pruned.take(n as int) =~= pruned);
        }
        result
    }
}

/// For in-range differences, quotients by a positive step stay well inside
/// the `wgs84` cell-index bound.
proof fn lemma_scaled_bounds(a: int, s: int)
    requires
        s >= 1,
        -0x1000_0000 <= a <= 0x1000_0000,
    ensures
        -0x4000_0000 <= floor_div(a, s) <= 0x4000_0000,
        -0x4000_0000 <= ceil_div(a, s) <= 0x4000_0000,
{
    assert((-0x1000_0000) * s <= a <= 0x1000_0000 * s && (-0x1000_0000) * s <= -a <= 0x1000_0000
        * s) by (nonlinear_arith)
        requires
            s >= 1,
            -0x1000_0000 <= a <= 0x1000_0000,
    ;
    crate::math::lemma_floor_div_bounds(a, s, -0x1000_0000, 0x1000_0000);
    crate::math::lemma_floor_div_bounds(-a, s, -0x1000_0000, 0x1000_0000);
}

/// Longitude grows with the column, latitude falls with the row.
proof fn lemma_grid_monotone(r: Raster, a: int, b: int)
    requires
        r.wf(),
        a <= b,
    ensures
        r.spec_lon(a) <= r.spec_lon(b),
        r.spec_lat(a) >= r.spec_lat(b),
{
    assert(a * r.xstep <= b * r.xstep && a * r.ystep >= b * r.ystep) by (nonlinear_arith)
        requires
            a <= b,
            r.xstep >= 1,
            r.ystep <= -1,
    ;
}

/// The query box is grid-aligned the way `snap` leaves it: each side lies
/// on a cell-center line of the raster, the low corner at columns/rows
/// `c1`/`r1` and the high corner at `c2`/`r2`.
pub open spec fn grid_aligned(d: Dataset, b: WGS84BoundingBox, c1: int, c2: int, r1: int, r2: int) -> bool {
    &&& c1 <= c2 && r1 <= r2
    &&& b.min.lon == d.raster.spec_lon(c1)
    &&& b.max.lon == d.raster.spec_lon(c2)
    &&& b.max.lat == d.raster.spec_lat(r1)
    &&& b.min.lat == d.raster.spec_lat(r2)
}

/// Every post of the window read for a grid-aligned query box lies inside
/// the box, and its nearest raster cell is the very window cell it was
/// read from. The cell of post `k` (row-major) is
/// `(col_start + k % xsize, row_start + k / xsize)`.
pub proof fn lemma_posts_inside_snapped(
    d: Dataset,
    b: WGS84BoundingBox,
    c1: int,
    c2: int,
    r1: int,
    r2: int,
    k: int,
)
    requires
        d.wf(),
        grid_aligned(d, b, c1, c2, r1, r2),
        d.spec_window(&b) matches Some(w4),
        ({
            let w4 = d.spec_window(&b).unwrap();
            0 <= k < (w4.2 - w4.0 + 1) * (w4.3 - w4.1 + 1)
        }),
    ensures
        ({
            let w4 = d.spec_window(&b).unwrap();
            let xs = w4.2 - w4.0 + 1;
            let col = w4.0 + k % xs;
            let row = w4.1 + k / xs;
            &&& w4.0 <= col <= w4.2 && w4.1 <= row <= w4.3
            &&& d.raster.spec_icol(d.raster.spec_lon(col)) == col
            &&& d.raster.spec_irow(d.raster.spec_lat(row)) == row
            &&& b.spec_contains(d.raster.spec_lon(col), d.raster.spec_lat(row))
        }),
{
    let w4 = d.spec_window(&b).unwrap();
    let cs = w4.0;
    let rs = w4.1;
    let ce = w4.2;
    let re = w4.3;
    let xs = ce - cs + 1;
    let ys = re - rs + 1;
    let col = cs + k % xs;
    let row = rs + k / xs;

    vstd::arithmetic::div_mod::lemma_mod_division_less_than_divisor(k, xs);
    vstd::arithmetic::div_mod::lemma_fundamental_div_mod(k, xs);
    assert(0 <= k / xs < ys) by (nonlinear_arith)
        requires
            xs >= 1,
            ys >= 1,
            0 <= k < xs * ys,
            k == xs * (k / xs) + (k % xs),
            0 <= k % xs < xs,
    ;
    assert(cs <= col <= ce && rs <= row <= re);
    lemma_raster_roundtrip(d.raster, col, row);

    // The window's bounds come from the intersection of the box with the
    // tile; both are grid-aligned, so the rounded corners are exact.
    let min_lon = vstd::math::max(d.spec_bbox_min_lon(), b.min.lon as int);
    let max_lon = vstd::math::min(d.spec_bbox_max_lon(), b.max.lon as int);
    let min_lat = vstd::math::max(d.spec_bbox_min_lat(), b.min.lat as int);
    let max_lat = vstd::math::min(d.spec_bbox_max_lat(), b.max.lat as int);

    lemma_grid_monotone(d.raster, 0, d.raster.xsize as int);
    lemma_grid_monotone(d.raster, 0, d.raster.ysize as int);
    assert(d.spec_bbox_min_lon() == d.raster.spec_lon(0));
    assert(d.spec_bbox_max_lon() == d.raster.spec_lon(d.raster.xsize as int));
    assert(d.spec_bbox_max_lat() == d.raster.spec_lat(0));
    assert(d.spec_bbox_min_lat() == d.raster.spec_lat(d.raster.ysize as int));

    // Align the four intersection bounds with grid columns and rows.
    let ca = vstd::math::max(0, c1);
    let cb = vstd::math::min(d.raster.xsize as int, c2);
    let ra = vstd::math::max(0, r1);
    let rb = vstd::math::min(d.raster.ysize as int, r2);
    if c1 >= 0 {
        lemma_grid_monotone(d.raster, 0, c1);
    } else {
        lemma_grid_monotone(d.raster, c1, 0);
    }
    if c2 <= d.raster.xsize as int {
        lemma_grid_monotone(d.raster, c2, d.raster.xsize as int);
    } else {
        lemma_grid_monotone(d.raster, d.raster.xsize as int, c2);
    }
    if r1 >= 0 {
        lemma_grid_monotone(d.raster, 0, r1);
    } else {
        lemma_grid_monotone(d.raster, r1, 0);
    }
    if r2 <= d.raster.ysize as int {
        lemma_grid_monotone(d.raster, r2, d.raster.ysize as int);
    } else {
        lemma_grid_monotone(d.raster, d.raster.ysize as int, r2);
    }
    assert(min_lon == d.raster.spec_lon(ca));
    assert(max_lon == d.raster.spec_lon(cb));
    assert(max_lat == d.raster.spec_lat(ra));
    assert(min_lat == d.raster.spec_lat(rb));

    lemma_raster_roundtrip(d.raster, ca, ra);
    lemma_raster_roundtrip(d.raster, cb, rb);
    assert(d.raster.spec_icol(min_lon) == ca);
    assert(d.raster.spec_icol(max_lon) == cb);
    assert(d.raster.spec_irow(max_lat) == ra);
    assert(d.raster.spec_irow(min_lat) == rb);

    lemma_grid_monotone(d.raster, ca, cb);
    lemma_grid_monotone(d.raster, ra, rb);
    assert(cs == vstd::math::min(ca, cb) && ce <= vstd::math::max(ca, cb));
    assert(rs == vstd::math::min(ra, rb) && re <= vstd::math::max(ra, rb));

    // The window columns stay between the aligned bounds, which lie inside
    // the box.
    lemma_grid_monotone(d.raster, c1, ca);
    lemma_grid_monotone(d.raster, cb, c2);
    lemma_grid_monotone(d.raster, c1, col);
    lemma_grid_monotone(d.raster, col, c2);
    lemma_grid_monotone(d.raster, r1, row);
    lemma_grid_monotone(d.raster, row, r2);
    assert(c1 <= ca && cb <= c2 && r1 <= ra && rb <= r2);
    assert(c1 <= col <= c2 && r1 <= row <= r2);
}

/// Raster round trip: the nearest cell to the center of cell `(col, row)`
/// is `(col, row)` itself.
pub proof fn lemma_raster_roundtrip(r: Raster, col: int, row: int)
    requires
        r.wf(),
    ensures
        r.spec_icol(r.spec_lon(col)) == col,
        r.spec_irow(r.spec_lat(row)) == row,
{
    assert(r.spec_lon(col) - r.upper_left.lon == col * r.xstep);
    crate::math::lemma_round_div_exact(col, r.xstep as int);
    assert(row * (-(r.ystep as int)) == -(row * (r.ystep as int))) by (nonlinear_arith);
    assert(r.upper_left.lat - r.spec_lat(row) == row * (-(r.ystep as int)));
    crate::math::lemma_round_div_exact(row, -(r.ystep as int));
}

} // verus!
