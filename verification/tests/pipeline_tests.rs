//! Tests that run the library together with the outside geometry crates,
//! the way the application does: proj4rs projects, spade triangulates,
//! geo clips, and every decision in between is the library's. Metric
//! coordinates are centimeters; geographic coordinates are grid units of
//! 1/432000 degree.

use geo::algorithm::geodesic_area::GeodesicArea;
use geo::orient::{Direction, Orient};
use geo::{BooleanOps, Coord, LineString};
use spade::{DelaunayTriangulation, Point2, Triangulation};

use surface_area::dataset::{Dataset, Raster};
use surface_area::intersection::{elevate_ring, interpolate_elevation};
use surface_area::point::{MercatorPoint, WGS84Point};
use surface_area::polygon::{calculate_3d_surface_area, planar_area};
use surface_area::surface::{
    add_posts, estimate_surface, prepare_local_frame, process_facet, SurfaceTotals,
};
use surface_area::triangulation::{triangles_from_faces, Triangle, TriangulationError};

const DEG: i64 = 432_000;
const STEP: i64 = 360;

fn mp(x: i64, y: i64, ele: Option<i64>) -> MercatorPoint {
    MercatorPoint { x, y, ele }
}

/// Projects a geographic point (grid units) into a UTM zone, in
/// centimeters, the way the application does with proj4rs.
fn project(zone: u8, south: bool, w: &WGS84Point) -> MercatorPoint {
    let hemi = if south { " +south" } else { "" };
    let spec = format!(
        "+proj=utm +zone={}{} +datum=WGS84 +units=m +no_defs +type=crs",
        zone, hemi
    );
    let dst = proj4rs::proj::Proj::from_proj_string(&spec).unwrap();
    let src =
        proj4rs::proj::Proj::from_proj_string("+proj=longlat +ellps=WGS84 +datum=WGS84 +no_defs")
            .unwrap();
    let d = DEG as f64;
    let mut p = (
        (w.lon as f64 / d).to_radians(),
        (w.lat as f64 / d).to_radians(),
    );
    proj4rs::transform::transform(&src, &dst, &mut p).unwrap();
    mp(
        (p.0 * 100.0).round() as i64,
        (p.1 * 100.0).round() as i64,
        w.ele,
    )
}

/// Clips a polygon ring against a triangle with geo's boolean ops, the
/// way the application does: exterior rings only, rounded back to whole
/// centimeters, the closing vertex dropped.
fn clip(polygon: &[MercatorPoint], tri: &Triangle) -> Vec<Vec<MercatorPoint>> {
    let to_poly = |pts: &[MercatorPoint]| {
        let coords: Vec<Coord<f64>> = pts
            .iter()
            .map(|p| Coord {
                x: p.x as f64,
                y: p.y as f64,
            })
            .collect();
        geo::Polygon::new(LineString::from(coords), vec![]).orient(Direction::Default)
    };
    let a = to_poly(polygon);
    let b = to_poly(&[tri.0, tri.1, tri.2]);
    let m = a.union(&a).intersection(&b.union(&b));
    m.0.iter()
        .map(|poly| {
            let ext = &poly.exterior().0;
            let open = &ext[..ext.len().saturating_sub(1)];
            open.iter()
                .map(|c| mp(c.x.round() as i64, c.y.round() as i64, None))
                .collect()
        })
        .collect()
}

/// Triangulates the posts with spade, the way the application does, and
/// returns each face as indices into the post list.
fn delaunay_faces(posts: &[MercatorPoint]) -> Vec<(usize, usize, usize)> {
    let mut triangulation: DelaunayTriangulation<Point2<f64>> = DelaunayTriangulation::new();
    for p in posts {
        triangulation.insert(Point2::new(p.x as f64, p.y as f64)).unwrap();
    }
    triangulation
        .inner_faces()
        .map(|face| {
            let [a, b, c] = face.vertices();
            (a.fix().index(), b.fix().index(), c.fix().index())
        })
        .collect()
}

#[test]
fn test_projection_central_meridian() {
    // On the central meridian of zone 19 (longitude -69) the UTM easting
    // is exactly 500 km.
    let w = WGS84Point {
        lon: -69 * DEG,
        lat: 18 * DEG,
        ele: Some(123),
    };
    let m = project(19, false, &w);
    assert!((m.x - 50_000_000).abs() <= 10, "easting {}", m.x);
    assert!(m.y > 0);
    assert_eq!(m.ele, Some(123));
}

#[test]
fn test_clip_square_with_triangle() {
    // The square [0,10] x [0,10] m clipped by the triangle
    // (5,-5),(15,5),(5,15) m leaves the rectangle [5,10] x [0,10] m,
    // 50 m^2. Elevations follow the plane z = x, so every clipped vertex
    // interpolates to its own x.
    let square = vec![
        mp(0, 0, None),
        mp(1000, 0, None),
        mp(1000, 1000, None),
        mp(0, 1000, None),
    ];
    let tri = Triangle(
        mp(500, -500, Some(500)),
        mp(1500, 500, Some(1500)),
        mp(500, 1500, Some(500)),
    );
    let rings = clip(&square, &tri);
    assert_eq!(rings.len(), 1);
    let ring = &rings[0];
    assert!(ring.len() >= 4);
    let elevated = elevate_ring(ring, &tri);
    for v in &elevated {
        assert_eq!(v.ele, Some(v.x), "plane z = x at ({}, {})", v.x, v.y);
    }
    // The clipped footprint is 50 m^2 = 500_000 cm^2.
    assert_eq!(planar_area(&elevated), 500_000);
    // Along the plane z = x the surface is stretched by sqrt(2).
    assert_eq!(calculate_3d_surface_area(&elevated), 707_106);
}

#[test]
fn test_barycentric_at_triangle_vertices() {
    let tri = Triangle(
        mp(0, 0, Some(700)),
        mp(1000, 0, Some(-300)),
        mp(200, 900, Some(4200)),
    );
    assert_eq!(interpolate_elevation(&tri.0, &tri), Some(700));
    assert_eq!(interpolate_elevation(&tri.1, &tri), Some(-300));
    assert_eq!(interpolate_elevation(&tri.2, &tri), Some(4200));
}

#[test]
fn test_interpolate_degenerate_triangle() {
    // Collinear vertices: the barycentric denominator vanishes.
    let tri = Triangle(
        mp(0, 0, Some(0)),
        mp(100, 100, Some(100)),
        mp(200, 200, Some(200)),
    );
    assert_eq!(interpolate_elevation(&mp(50, 50, None), &tri), None);
}

#[test]
fn test_triangulate_simple_triangle() {
    let points = vec![
        mp(0, 0, Some(0)),
        mp(10_000, 0, Some(1_000)),
        mp(5_000, 10_000, Some(2_000)),
    ];
    let faces = delaunay_faces(&points);
    let triangles = triangles_from_faces(&points, &faces).unwrap();
    assert_eq!(triangles.len(), 1);
}

#[test]
fn test_triangulate_square() {
    let points = vec![
        mp(0, 0, Some(0)),
        mp(10_000, 0, Some(1_000)),
        mp(10_000, 10_000, Some(2_000)),
        mp(0, 10_000, Some(3_000)),
    ];
    let faces = delaunay_faces(&points);
    let triangles = triangles_from_faces(&points, &faces).unwrap();
    assert_eq!(triangles.len(), 2);
    // Every triangle vertex is one of the posts, elevation intact.
    for t in &triangles {
        for v in [&t.0, &t.1, &t.2] {
            assert!(points
                .iter()
                .any(|p| p.x == v.x && p.y == v.y && p.ele == v.ele));
        }
    }
}

#[test]
fn test_triangulate_convex_polygon() {
    let points = vec![
        mp(0, 0, Some(0)),
        mp(40_000, 0, Some(1_000)),
        mp(40_000, 30_000, Some(2_000)),
        mp(0, 30_000, Some(3_000)),
    ];
    let faces = delaunay_faces(&points);
    let triangles = triangles_from_faces(&points, &faces).unwrap();
    assert_eq!(triangles.len(), 2);
}

#[test]
fn test_full_pipeline_flat_dem() {
    // A flat synthetic DEM: every elevation zero. The summed 3D area must
    // equal the summed flat area exactly, the ratio is 1, and the
    // estimate equals the geodesic reference area.
    let tile = Dataset {
        filename: String::from("N18W070.hgt"),
        raster: Raster::make(
            WGS84Point {
                lon: -70 * DEG,
                lat: 19 * DEG,
                ele: None,
            },
            1201,
            1201,
            STEP,
            -STEP,
        ),
        projection: String::new(),
    };
    // A square about 1.1 km on a side near (-69.5, 18.5).
    let side = 4320; // 0.01 degree in grid units
    let lon0 = -69 * DEG - DEG / 2;
    let lat0 = 18 * DEG + DEG / 2;
    let polygon = surface_area::polygon::Polygon {
        wgs: vec![
            WGS84Point { lon: lon0, lat: lat0, ele: None },
            WGS84Point { lon: lon0 + side, lat: lat0, ele: None },
            WGS84Point { lon: lon0 + side, lat: lat0 + side, ele: None },
            WGS84Point { lon: lon0, lat: lat0 + side, ele: None },
        ],
    };
    let proj = polygon.chosen_projection();
    assert_eq!(proj.zone, 19);

    // Orchestration: intersect, snap, window, read (zeros), collect.
    let pbbox = polygon.wgsbbox();
    let dbbox = tile.wgsbbox();
    let mut inter = dbbox.intersection(&pbbox).expect("tile covers polygon");
    tile.snap(&mut inter);
    let w = tile.window(&inter).expect("window");
    let elevations = vec![0i64; w.count() as usize];
    let geo_posts = tile.points_inside(&w, &elevations);
    assert!(geo_posts.len() >= 9);

    let merc_posts: Vec<MercatorPoint> = geo_posts
        .iter()
        .map(|g| project(proj.zone, proj.south, g))
        .collect();
    let merc_polygon: Vec<MercatorPoint> = polygon
        .wgs
        .iter()
        .map(|g| project(proj.zone, proj.south, g))
        .collect();

    let mut set: Vec<MercatorPoint> = Vec::new();
    add_posts(&mut set, &merc_posts);
    assert_eq!(set.len(), merc_posts.len());

    let (local_polygon, local_posts) =
        prepare_local_frame(&merc_polygon, &set).expect("local frame");

    let faces = delaunay_faces(&local_posts);
    let triangles = triangles_from_faces(&local_posts, &faces).unwrap();
    assert!(triangles.len() >= 8);

    let mut totals = SurfaceTotals::new();
    let mut kept = 0u64;
    for tri in &triangles {
        for ring in clip(&local_polygon, tri) {
            if process_facet(&mut totals, &ring, tri) {
                kept += 1;
            }
        }
    }
    assert!(kept > 0);
    assert_eq!(totals.facets, kept);
    // Flat DEM: every facet is level, so the 3D and flat sums coincide.
    assert_eq!(totals.surface_cm2, totals.flat_cm2);

    // The kept facets tile the polygon: the flat sum matches its planar
    // area to within clipping rounding.
    let planar = planar_area(&local_polygon) as f64;
    let diff = (totals.flat_cm2 as f64 - planar).abs();
    assert!(diff <= planar * 1e-3, "flat {} planar {}", totals.flat_cm2, planar);

    // The geodesic reference area from the geo crate, in cm^2.
    let coords: Vec<Coord<f64>> = polygon
        .wgs
        .iter()
        .map(|p| Coord {
            x: p.lon as f64 / DEG as f64,
            y: p.lat as f64 / DEG as f64,
        })
        .collect();
    let geo_polygon =
        geo::Polygon::new(LineString::from(coords), vec![]).orient(Direction::Default);
    let geodesic_cm2 = (geo_polygon.geodesic_area_unsigned() * 10_000.0).round() as u64;
    assert!(geodesic_cm2 > 0);

    // Ratio 1: the estimate is exactly the geodesic area.
    let estimate = estimate_surface(&totals, geodesic_cm2);
    assert_eq!(estimate, Some(geodesic_cm2 as u128));
}

#[test]
fn test_faces_index_out_of_range() {
    let points = vec![mp(0, 0, Some(0)), mp(100, 0, Some(0)), mp(0, 100, Some(0))];
    let faces = vec![(0usize, 1usize, 5usize)];
    assert_eq!(
        triangles_from_faces(&points, &faces).err(),
        Some(TriangulationError::IndexOutOfRange)
    );
}

#[test]
fn test_estimate_requires_flat_area() {
    let totals = SurfaceTotals::new();
    assert_eq!(estimate_surface(&totals, 1_000_000), None);
}
