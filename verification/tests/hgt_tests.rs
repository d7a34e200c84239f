//! SRTM tile basename tests. Geographic coordinates are in grid units of
//! 1/432000 degree, so one degree is 432000 units.

use surface_area::hgt::{hgt_basename, hgt_basename_lonlat};
use surface_area::point::WGS84Point;

const DEG: i64 = 432_000;

#[test]
fn test_positive_coordinates() {
    // lon 98.5, lat 3.7
    assert_eq!(
        hgt_basename(&WGS84Point {
            lon: 98 * DEG + DEG / 2,
            lat: 3 * DEG + 7 * DEG / 10,
            ele: None
        }),
        "N03E098.hgt"
    );
    // lon 72.3, lat 4.2
    assert_eq!(
        hgt_basename_lonlat(72 * DEG + 3 * DEG / 10, 4 * DEG + 2 * DEG / 10),
        "N04E072.hgt"
    );
}

#[test]
fn test_negative_latitude() {
    // lon 46.8, lat -23.5
    assert_eq!(
        hgt_basename_lonlat(46 * DEG + 8 * DEG / 10, -(23 * DEG + DEG / 2)),
        "S24E046.hgt"
    );
}

#[test]
fn test_negative_longitude() {
    // lon -46.8, lat 23.5
    assert_eq!(
        hgt_basename_lonlat(-(46 * DEG + 8 * DEG / 10), 23 * DEG + DEG / 2),
        "N23W047.hgt"
    );
}

#[test]
fn test_both_negative() {
    // lon -46.8, lat -23.5
    assert_eq!(
        hgt_basename_lonlat(-(46 * DEG + 8 * DEG / 10), -(23 * DEG + DEG / 2)),
        "S24W047.hgt"
    );
}

#[test]
fn test_zero_coordinates() {
    // lon 0.5, lat 0.5
    assert_eq!(hgt_basename_lonlat(DEG / 2, DEG / 2), "N00E000.hgt");
}

#[test]
fn test_edge_cases() {
    assert_eq!(hgt_basename_lonlat(180 * DEG, 90 * DEG), "N90E180.hgt");
    assert_eq!(hgt_basename_lonlat(-180 * DEG, -90 * DEG), "S90W180.hgt");
}

#[test]
fn test_domrep() {
    // lon -69.14255483688711, lat 18.882967637045482, to the nearest grid
    // unit.
    let lon = (-69.142_554_836_887_11_f64 * DEG as f64).round() as i64;
    let lat = (18.882_967_637_045_482_f64 * DEG as f64).round() as i64;
    assert_eq!(hgt_basename_lonlat(lon, lat), "N18W070.hgt");
}
