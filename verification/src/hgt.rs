//! SRTM tile basenames. A tile is named after its south-west corner:
//! `N`/`S`, two digits of absolute latitude, `E`/`W`, three digits of
//! absolute longitude, then `.hgt`.

use vstd::prelude::*;
use vstd::string::StringExecFns;

use crate::math::floor_div;
use crate::point::{WGS84Point, UNITS_PER_DEGREE, wgs84_in_range};
use crate::text::{dec2_seq, dec3_seq};

verus! {

/// The basename of the SRTM tile whose south-west corner is the floor of
/// the given coordinates, in whole degrees.
pub open spec fn spec_hgt_basename(lon: int, lat: int) -> Seq<char> {
    let lonf = floor_div(lon, UNITS_PER_DEGREE as int);
    let latf = floor_div(lat, UNITS_PER_DEGREE as int);
    (if latf >= 0 {
        seq!['N']
    } else {
        seq!['S']
    }) + dec2_seq(vstd::math::abs(latf) as int) + (if lonf >= 0 {
        seq!['E']
    } else {
        seq!['W']
    }) + dec3_seq(vstd::math::abs(lonf) as int) + seq!['.', 'h', 'g', 't']
}

/// The SRTM tile basename for a longitude and latitude in grid units.
pub fn hgt_basename_lonlat(lon: i64, lat: i64) -> (r: String)
    requires
        wgs84_in_range(lon as int, lat as int),
    ensures
        r@ == spec_hgt_basename(lon as int, lat as int),
{
    proof {
        crate::math::lemma_floor_div_bounds(lon as int, UNITS_PER_DEGREE as int, -180, 180);
        crate::math::lemma_floor_div_bounds(lat as int, UNITS_PER_DEGREE as int, -90, 90);
    }
    let lon_floor = crate::math::floor_div_i64(lon, UNITS_PER_DEGREE);
    let lat_floor = crate::math::floor_div_i64(lat, UNITS_PER_DEGREE);

    let mut ret = String::new();
    if lat_floor >= 0 {
        ret.append("N");
    } else {
        ret.append("S");
    }
    let lat_abs: u8 = if lat_floor >= 0 {
        lat_floor as u8
    } else {
        (-lat_floor) as u8
    };
    crate::text::append_dec2(&mut ret, lat_abs);
    if lon_floor >= 0 {
        ret.append("E");
    } else {
        ret.append("W");
    }
    let lon_abs: u16 = if lon_floor >= 0 {
        lon_floor as u16
    } else {
        (-lon_floor) as u16
    };
    crate::text::append_dec3(&mut ret, lon_abs);
    ret.append(".hgt");
    proof {
        reveal_strlit("N");
        reveal_strlit("S");
        reveal_strlit("E");
        reveal_strlit("W");
        reveal_strlit(".hgt");
        assert(("N")@ =~= seq!['N']);
        assert(("S")@ =~= seq!['S']);
        assert(("E")@ =~= seq!['E']);
        assert(("W")@ =~= seq!['W']);
        assert((".hgt")@ =~= seq!['.', 'h', 'g', 't']);
        assert(ret@ =~= spec_hgt_basename(lon as int, lat as int));
    }
    ret
}

/// The SRTM tile basename for a geographic point.
pub fn hgt_basename(point: &WGS84Point) -> (r: String)
    requires
        wgs84_in_range(point.lon as int, point.lat as int),
    ensures
        r@ == spec_hgt_basename(point.lon as int, point.lat as int),
{
    hgt_basename_lonlat(point.lon, point.lat)
}

} // verus!
