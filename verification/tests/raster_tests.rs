//! Raster grid, snapping, window, selection, and projection-string tests.
//! Geographic coordinates are in grid units of 1/432000 degree; a
//! 3-arc-second SRTM step is 360 units.

use surface_area::dataset::{Dataset, DatasetError, Raster};
use surface_area::mercator::WebMercatorProjection;
use surface_area::point::{WGS84BoundingBox, WGS84Point};
use surface_area::polygon::{datasetstring, Polygon};

const DEG: i64 = 432_000;
const STEP: i64 = 360;

fn wgs(lon: i64, lat: i64) -> WGS84Point {
    WGS84Point {
        lon,
        lat,
        ele: None,
    }
}

/// The 1201x1201 3-arc-second tile whose south-west corner is N18W070.
fn tile_n18_w070() -> Dataset {
    let ul = wgs(-70 * DEG, 19 * DEG);
    Dataset {
        filename: String::from("N18W070.hgt"),
        raster: Raster::make(ul, 1201, 1201, STEP, -STEP),
        projection: String::new(),
    }
}

#[test]
fn test_raster_roundtrip() {
    let d = tile_n18_w070();
    for &(col, row) in &[(0i64, 0i64), (1, 0), (0, 1), (600, 600), (1200, 1200)] {
        let center = d.raster.wgs84(col, row);
        assert_eq!(d.raster.icoordinates(&center), (col, row));
    }
}

#[test]
fn test_wgsbbox() {
    let d = tile_n18_w070();
    let b = d.wgsbbox();
    assert_eq!(b.min.lon, -70 * DEG);
    assert_eq!(b.max.lon, -70 * DEG + 1201 * STEP);
    assert_eq!(b.max.lat, 19 * DEG);
    assert_eq!(b.min.lat, 19 * DEG - 1201 * STEP);
}

#[test]
fn test_snap_contains_and_aligns() {
    let d = tile_n18_w070();
    // A box with corners off the grid: a quarter-step offset.
    let orig = WGS84BoundingBox {
        min: wgs(-70 * DEG + 10 * STEP + 90, 19 * DEG - 20 * STEP - 90),
        max: wgs(-70 * DEG + 15 * STEP + 90, 19 * DEG - 12 * STEP - 90),
    };
    let mut b = orig.clone();
    d.snap(&mut b);
    // The snapped box contains the original...
    assert!(b.min.lon <= orig.min.lon && orig.max.lon <= b.max.lon);
    assert!(b.min.lat <= orig.min.lat && orig.max.lat <= b.max.lat);
    // ...and its corners lie on cell centers.
    assert_eq!((b.min.lon - d.raster.upper_left.lon) % STEP, 0);
    assert_eq!((b.max.lon - d.raster.upper_left.lon) % STEP, 0);
    assert_eq!((b.min.lat - d.raster.upper_left.lat) % STEP, 0);
    assert_eq!((b.max.lat - d.raster.upper_left.lat) % STEP, 0);
    // Snapping moves each side by less than one full step.
    assert!(orig.min.lon - b.min.lon < STEP);
    assert!(b.max.lon - orig.max.lon < STEP);
}

#[test]
fn test_window_and_points_inside() {
    let d = tile_n18_w070();
    // The snapped box covering columns 10..=12 and rows 5..=6.
    let mut b = WGS84BoundingBox {
        min: wgs(-70 * DEG + 10 * STEP + 1, 19 * DEG - 6 * STEP + 1),
        max: wgs(-70 * DEG + 12 * STEP - 1, 19 * DEG - 5 * STEP - 1),
    };
    d.snap(&mut b);
    let w = d.window(&b).expect("window");
    assert_eq!((w.col_start, w.row_start, w.col_end, w.row_end), (10, 5, 12, 6));
    let count = w.count() as usize;
    assert_eq!(count, 3 * 2);
    let elevations: Vec<i64> = (0..count as i64).map(|k| k * 100).collect();
    let posts = d.points_inside(&w, &elevations);
    assert_eq!(posts.len(), count);
    // Row-major: post k sits at the window cell (k % 3, k / 3), carries
    // elevation k * 100, and lies inside the snapped box.
    for (k, post) in posts.iter().enumerate() {
        let col = w.col_start + (k as i64 % 3);
        let row = w.row_start + (k as i64 / 3);
        assert_eq!(post.lon, -70 * DEG + col * STEP);
        assert_eq!(post.lat, 19 * DEG - row * STEP);
        assert_eq!(post.ele, Some(k as i64 * 100));
        assert!(b.min.lon <= post.lon && post.lon <= b.max.lon);
        assert!(b.min.lat <= post.lat && post.lat <= b.max.lat);
        assert_eq!(d.raster.icoordinates(post), (col, row));
    }
}

#[test]
fn test_window_no_overlap() {
    let d = tile_n18_w070();
    // A box fully east of the tile.
    let b = WGS84BoundingBox {
        min: wgs(-68 * DEG, 18 * DEG + DEG / 2),
        max: wgs(-67 * DEG, 19 * DEG - DEG / 2),
    };
    assert!(matches!(d.window(&b), Err(DatasetError::NoOverlap)));
}

#[test]
fn test_window_out_of_range() {
    let d = tile_n18_w070();
    // A sliver past the last cell center at the tile's east edge: both
    // corners round to column 1201, beyond the raster.
    let b = WGS84BoundingBox {
        min: wgs(-70 * DEG + 1201 * STEP - 100, 19 * DEG - 600 * STEP),
        max: wgs(-70 * DEG + 1201 * STEP - 50, 19 * DEG - 599 * STEP),
    };
    assert!(matches!(d.window(&b), Err(DatasetError::WindowOutOfRange)));
}

#[test]
fn test_select_prunes_coarse_covered_tile() {
    // A coarse tile whose box sits inside a finer tile's box is dropped.
    let fine = Dataset {
        filename: String::from("fine"),
        raster: Raster::make(wgs(-70 * DEG, 19 * DEG), 1201, 1201, STEP, -STEP),
        projection: String::new(),
    };
    let coarse = Dataset {
        filename: String::from("coarse"),
        raster: Raster::make(
            wgs(-70 * DEG + 100 * STEP, 19 * DEG - 100 * STEP),
            100,
            100,
            2 * STEP,
            -2 * STEP,
        ),
        projection: String::new(),
    };
    // Both tiles overlap the polygon's box.
    let polybox = WGS84BoundingBox {
        min: wgs(-70 * DEG + 50 * STEP, 19 * DEG - 500 * STEP),
        max: wgs(-70 * DEG + 500 * STEP, 19 * DEG - 50 * STEP),
    };
    let selected = Dataset::select(vec![fine, coarse], &polybox);
    assert_eq!(selected.len(), 1);
    assert_eq!(selected[0].filename, "fine");

    // With equal steps nothing is pruned: ties keep both.
    let a = Dataset {
        filename: String::from("a"),
        raster: Raster::make(wgs(-70 * DEG, 19 * DEG), 1201, 1201, STEP, -STEP),
        projection: String::new(),
    };
    let b = Dataset {
        filename: String::from("b"),
        raster: Raster::make(
            wgs(-70 * DEG + 100 * STEP, 19 * DEG - 100 * STEP),
            100,
            100,
            STEP,
            -STEP,
        ),
        projection: String::new(),
    };
    let selected = Dataset::select(vec![a, b], &polybox);
    assert_eq!(selected.len(), 2);
}

#[test]
fn test_select_drops_disjoint_tile() {
    let near = Dataset {
        filename: String::from("near"),
        raster: Raster::make(wgs(-70 * DEG, 19 * DEG), 1201, 1201, STEP, -STEP),
        projection: String::new(),
    };
    let far = Dataset {
        filename: String::from("far"),
        raster: Raster::make(wgs(10 * DEG, 50 * DEG), 1201, 1201, STEP, -STEP),
        projection: String::new(),
    };
    let polybox = WGS84BoundingBox {
        min: wgs(-70 * DEG + 50 * STEP, 19 * DEG - 500 * STEP),
        max: wgs(-70 * DEG + 500 * STEP, 19 * DEG - 50 * STEP),
    };
    let selected = Dataset::select(vec![near, far], &polybox);
    assert_eq!(selected.len(), 1);
    assert_eq!(selected[0].filename, "near");
}

#[test]
fn test_utm_projection_string() {
    // lon -69.14 is in UTM zone 19; the polygon's first vertex is north.
    let lon = (-69.14_f64 * DEG as f64).round() as i64;
    let lat = (18.88_f64 * DEG as f64).round() as i64;
    let poly = Polygon {
        wgs: vec![wgs(lon, lat), wgs(lon + 432, lat), wgs(lon, lat + 432)],
    };
    let p = poly.chosen_projection();
    assert_eq!(p.zone, 19);
    assert!(!p.south);
    assert_eq!(
        poly.projection(),
        "+proj=utm +zone=19 +datum=WGS84 +units=m +no_defs +type=crs"
    );
    // Southern hemisphere names the +south flag.
    let s = WebMercatorProjection::make(23, true);
    assert_eq!(
        s.proj_string(),
        "+proj=utm +zone=23 +south +datum=WGS84 +units=m +no_defs +type=crs"
    );
}

#[test]
fn test_polygon_wgsbbox_and_candidates() {
    let poly = Polygon {
        wgs: vec![
            wgs(-70 * DEG + 1000, 18 * DEG + 3000),
            wgs(-70 * DEG + 9000, 18 * DEG + 1000),
            wgs(-70 * DEG + 5000, 18 * DEG + 8000),
        ],
    };
    let b = poly.wgsbbox();
    assert_eq!(b.min.lon, -70 * DEG + 1000);
    assert_eq!(b.max.lon, -70 * DEG + 9000);
    assert_eq!(b.min.lat, 18 * DEG + 1000);
    assert_eq!(b.max.lat, 18 * DEG + 8000);
    let c = poly.candidates();
    assert_eq!(c.len(), 3);
    for path in &c {
        assert_eq!(path, "/home/julien/DEM/SRTM/GL3/hgt/N18W070.hgt");
    }
}

#[test]
fn test_datasetstring() {
    assert_eq!(
        datasetstring(&String::from("use GL1 please")),
        "/home/julien/DEM/SRTM/GL1/S2/output_SRTMGL1.tif"
    );
    assert_eq!(
        datasetstring(&String::from("HGT")),
        "/home/julien/DEM/SRTM/GL3/hgt/N18W070.hgt"
    );
    assert_eq!(datasetstring(&String::from("something else")), "");
}
