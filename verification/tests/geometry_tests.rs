//! Area kernel and slope tests. Metric coordinates and elevations are in
//! centimeters, areas in square centimeters.

use surface_area::point::MercatorPoint;
use surface_area::polygon::{calculate_3d_surface_area, flat, planar_area, slope};

fn p(x: i64, y: i64, ele: i64) -> MercatorPoint {
    MercatorPoint {
        x,
        y,
        ele: Some(ele),
    }
}

#[test]
fn test_slope() {
    // A ramp 100 m square rising 50 m along y: slope 50 %.
    let p0 = vec![
        p(0, 0, 0),
        p(10_000, 0, 0),
        p(10_000, 10_000, 5_000),
        p(0, 10_000, 5_000),
    ];
    assert_eq!(slope(&p0), Some(50));
    // The flattened ring is level.
    let p1 = flat(&p0);
    assert_eq!(slope(&p1), Some(0));
}

#[test]
fn test_slope_collinear_points() {
    // Collinear first three vertices: a vanishing normal reads as level.
    let p0 = vec![p(0, 0, 0), p(100, 100, 100), p(200, 200, 200)];
    assert_eq!(slope(&p0), Some(0));
}

#[test]
fn test_slope_vertical_plane() {
    // Three points on a vertical plane: infinite slope.
    let p0 = vec![p(0, 0, 0), p(10_000, 0, 0), p(10_000, 0, 5_000)];
    assert_eq!(slope(&p0), None);
}

#[test]
fn test_area_unit_square() {
    // A level 100 m square: 10000 m^2 = 100_000_000 cm^2, slope 0 %.
    let square = vec![
        p(0, 0, 0),
        p(10_000, 0, 0),
        p(10_000, 10_000, 0),
        p(0, 10_000, 0),
    ];
    assert_eq!(calculate_3d_surface_area(&square), 100_000_000);
    assert_eq!(slope(&square), Some(0));
    assert_eq!(planar_area(&square), 100_000_000);
}

#[test]
fn test_area_ramp() {
    // The ramp's true area is 100 * sqrt(100^2 + 50^2) m^2, about
    // 11180.34 m^2; in square centimeters, rounded down: 111_803_398.
    let ramp = vec![
        p(0, 0, 0),
        p(10_000, 0, 0),
        p(10_000, 10_000, 5_000),
        p(0, 10_000, 5_000),
    ];
    assert_eq!(calculate_3d_surface_area(&ramp), 111_803_398);
    // Its footprint is still the 100 m square.
    assert_eq!(planar_area(&ramp), 100_000_000);
    assert_eq!(calculate_3d_surface_area(&flat(&ramp)), 100_000_000);
}

#[test]
fn test_area_degenerate() {
    // Fewer than three vertices has no area, and no elevation is read:
    // missing elevations are fine on a short ring.
    assert_eq!(calculate_3d_surface_area(&vec![p(0, 0, 0), p(100, 0, 0)]), 0);
    let unelevated = vec![
        MercatorPoint { x: 0, y: 0, ele: None },
        MercatorPoint { x: 100, y: 0, ele: None },
    ];
    assert_eq!(calculate_3d_surface_area(&unelevated), 0);
    assert_eq!(planar_area(&vec![]), 0);
}

#[test]
fn test_flat_zeroes_elevations() {
    let ring = vec![p(1, 2, 300), p(4, 5, 600)];
    let f = flat(&ring);
    assert_eq!(f.len(), 2);
    assert_eq!(f[0].x, 1);
    assert_eq!(f[0].y, 2);
    assert_eq!(f[0].ele, Some(0));
    assert_eq!(f[1].ele, Some(0));
}
