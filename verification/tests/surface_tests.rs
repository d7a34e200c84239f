//! Ordered post set, local frame, and facet accumulation tests. Metric
//! coordinates are centimeters.

use surface_area::point::MercatorPoint;
use surface_area::surface::{
    add_posts, estimate_surface, insert_post, prepare_local_frame, process_facet, FrameError,
    SurfaceTotals,
};
use surface_area::triangulation::Triangle;

fn mp(x: i64, y: i64, ele: Option<i64>) -> MercatorPoint {
    MercatorPoint { x, y, ele }
}

#[test]
fn test_insert_post_orders_and_dedups() {
    let mut set: Vec<MercatorPoint> = Vec::new();
    insert_post(&mut set, mp(500, 0, Some(3)));
    insert_post(&mut set, mp(100, 900, Some(1)));
    insert_post(&mut set, mp(100, 200, Some(2)));
    // A duplicate key: the first post under (500, 0) keeps its elevation.
    insert_post(&mut set, mp(500, 0, Some(99)));
    assert_eq!(set.len(), 3);
    assert_eq!((set[0].x, set[0].y, set[0].ele), (100, 200, Some(2)));
    assert_eq!((set[1].x, set[1].y, set[1].ele), (100, 900, Some(1)));
    assert_eq!((set[2].x, set[2].y, set[2].ele), (500, 0, Some(3)));
}

#[test]
fn test_add_posts_batch() {
    let mut set: Vec<MercatorPoint> = Vec::new();
    add_posts(
        &mut set,
        &vec![mp(3, 3, Some(1)), mp(1, 1, Some(2)), mp(3, 3, Some(7)), mp(2, 2, Some(3))],
    );
    assert_eq!(set.len(), 3);
    assert_eq!((set[0].x, set[1].x, set[2].x), (1, 2, 3));
    assert_eq!(set[2].ele, Some(1));
}

#[test]
fn test_prepare_local_frame_translates() {
    let polygon = vec![
        mp(50_000_000, 200_000_000, None),
        mp(50_010_000, 200_000_000, None),
        mp(50_010_000, 200_010_000, None),
    ];
    let posts = vec![mp(50_005_000, 200_005_000, Some(1234))];
    let (lp, ls) = prepare_local_frame(&polygon, &posts).expect("frame");
    assert_eq!((lp[0].x, lp[0].y), (0, 0));
    assert_eq!((lp[1].x, lp[1].y), (10_000, 0));
    assert_eq!((ls[0].x, ls[0].y), (5_000, 5_000));
    assert_eq!(ls[0].ele, Some(1234));
}

#[test]
fn test_prepare_local_frame_errors() {
    assert!(matches!(
        prepare_local_frame(&Vec::new(), &Vec::new()),
        Err(FrameError::EmptyPolygon)
    ));
    // A spread beyond the kernel bound on the x axis.
    let polygon = vec![mp(0, 0, None), mp(30_000_000, 0, None), mp(0, 10, None)];
    assert!(matches!(
        prepare_local_frame(&polygon, &Vec::new()),
        Err(FrameError::RegionTooLarge)
    ));
    // An elevation far beyond the kernel bound.
    let polygon = vec![
        mp(0, 0, Some(30_000_000)),
        mp(100, 0, None),
        mp(0, 100, None),
    ];
    assert!(matches!(
        prepare_local_frame(&polygon, &Vec::new()),
        Err(FrameError::ElevationOutOfRange)
    ));
}

#[test]
fn test_process_facet_keeps_and_accumulates() {
    // A level triangle at elevation 800: the clipped "facet" is the
    // triangle itself, 0.5 * 1000 * 1000 cm^2.
    let tri = Triangle(
        mp(0, 0, Some(800)),
        mp(1000, 0, Some(800)),
        mp(0, 1000, Some(800)),
    );
    let ring = vec![mp(0, 0, None), mp(1000, 0, None), mp(0, 1000, None)];
    let mut totals = SurfaceTotals::new();
    assert!(process_facet(&mut totals, &ring, &tri));
    assert_eq!(totals.facets, 1);
    assert_eq!(totals.flat_cm2, 500_000);
    assert_eq!(totals.surface_cm2, 500_000);
}

#[test]
fn test_estimate_overflow_is_none() {
    let totals = SurfaceTotals {
        flat_cm2: 1,
        surface_cm2: u128::MAX,
        facets: 1,
    };
    assert_eq!(estimate_surface(&totals, 2), None);
    assert_eq!(estimate_surface(&totals, 1), Some(u128::MAX));
}

#[test]
fn test_process_facet_drops_artifacts() {
    let tri = Triangle(
        mp(0, 0, Some(0)),
        mp(1000, 0, Some(0)),
        mp(0, 1000, Some(0)),
    );
    let mut totals = SurfaceTotals::new();
    // Too few vertices.
    assert!(!process_facet(&mut totals, &vec![mp(0, 0, None), mp(10, 0, None)], &tri));
    // Area below the threshold: a 4 by 4 cm sliver (8 cm^2 < 10 cm^2).
    let sliver = vec![mp(0, 0, None), mp(4, 0, None), mp(0, 4, None)];
    assert!(!process_facet(&mut totals, &sliver, &tri));
    // A degenerate (collinear) triangle drops its facets.
    let degenerate = Triangle(
        mp(0, 0, Some(0)),
        mp(100, 100, Some(0)),
        mp(200, 200, Some(0)),
    );
    let ring = vec![mp(0, 0, None), mp(1000, 0, None), mp(0, 1000, None)];
    assert!(!process_facet(&mut totals, &ring, &degenerate));
    // A ring vertex beyond the kernel's coordinate bound.
    let wild = vec![
        mp(0, 0, None),
        mp(21_000_000, 0, None),
        mp(0, 1000, None),
    ];
    assert!(!process_facet(&mut totals, &wild, &tri));
    assert_eq!(totals.facets, 0);
    assert_eq!(totals.flat_cm2, 0);
}
