//! Choice of the metric projection: a UTM zone and its PROJ string.
//!
//! The forward transform itself works in floating point and is performed
//! outside the library (the application feeds projected points back in).
//! The zone selection and the PROJ string handed to the transformer are
//! verified here.

use vstd::prelude::*;
use vstd::string::StringExecFns;

use crate::math::floor_div;
use crate::point::{WGS84Point, UNITS_PER_DEGREE};
use crate::text::dec_nopad_seq;

verus! {

/// The UTM zone of a longitude in grid units: `floor((lon_deg + 180) / 6) + 1`.
pub open spec fn utm_zone_of(lon: int) -> int {
    floor_div(lon + 180 * (UNITS_PER_DEGREE as int), 6 * (UNITS_PER_DEGREE as int)) + 1
}

/// The PROJ string for a UTM zone: the zone number unpadded, `+south` only
/// on the southern hemisphere.
pub open spec fn spec_proj_string(zone: int, south: bool) -> Seq<char> {
    ("+proj=utm +zone=")@ + dec_nopad_seq(zone) + (if south {
        (" +south")@
    } else {
        Seq::<char>::empty()
    }) + (" +datum=WGS84 +units=m +no_defs +type=crs")@
}

/// A chosen metric projection: one UTM zone and a hemisphere.
#[derive(Clone, Copy, Debug)]
pub struct WebMercatorProjection {
    pub zone: u8,
    pub south: bool,
}

impl WebMercatorProjection {
    /// The projection for a UTM zone and hemisphere.
    pub fn make(zone: u8, south: bool) -> (r: WebMercatorProjection)
        requires
            1 <= zone <= 61,
        ensures
            r.zone == zone,
            r.south == south,
    {
        WebMercatorProjection { zone, south }
    }

    /// The projection whose zone covers the given point: its UTM zone, and
    /// its hemisphere by the sign of the latitude.
    pub fn for_point(w: &WGS84Point) -> (r: WebMercatorProjection)
        requires
            crate::point::wgs84_in_range(w.lon as int, w.lat as int),
        ensures
            r.zone == utm_zone_of(w.lon as int),
            r.south == (w.lat < 0),
    {
        proof {
            crate::math::lemma_floor_div_bounds(
                w.lon as int + 180 * (UNITS_PER_DEGREE as int),
                6 * (UNITS_PER_DEGREE as int),
                0,
                60,
            );
        }
        let zone = crate::math::floor_div_i64(lon_plus_180(w.lon), 6 * UNITS_PER_DEGREE) + 1;
        WebMercatorProjection { zone: zone as u8, south: w.lat < 0 }
    }

    /// The PROJ string of the projection.
    pub fn proj_string(&self) -> (r: String)
        requires
            self.zone <= 99,
        ensures
            r@ == spec_proj_string(self.zone as int, self.south),
    {
        let mut ret = String::from_str("+proj=utm +zone=");
        crate::text::append_dec_nopad(&mut ret, self.zone);
        if self.south {
            ret.append(" +south");
        }
        ret.append(" +datum=WGS84 +units=m +no_defs +type=crs");
        proof {
            assert(ret@ =~= spec_proj_string(self.zone as int, self.south));
        }
        ret
    }

}

/// `lon + 180` degrees in grid units, exactly.
fn lon_plus_180(lon: i64) -> (r: i64)
    requires
        -180 * (UNITS_PER_DEGREE as int) <= lon <= 180 * (UNITS_PER_DEGREE as int),
    ensures
        r == lon + 180 * (UNITS_PER_DEGREE as int),
{
    lon + 180 * UNITS_PER_DEGREE
}

} // verus!
