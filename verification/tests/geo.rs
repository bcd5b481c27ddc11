//! Regions: containment, the query circle, and GeoJSON.
use planespotter::document::{polygon_to_region, regions_from_shapes, GeoError, Shape};
use planespotter::double::Double;
use planespotter::geo::{greatest, point_in_ring, Measured, Region, WatchedRegion};

fn d(x: f64) -> Double {
    Double { bits: x.to_bits() }
}

fn f(x: Double) -> f64 {
    f64::from_bits(x.bits)
}

fn ring(points: &[(f64, f64)]) -> Vec<(Double, Double)> {
    points.iter().map(|(lat, lon)| (d(*lat), d(*lon))).collect()
}

fn haversine_nm(lat1: f64, lon1: f64, lat2: f64, lon2: f64) -> f64 {
    let (p1, p2) = (lat1.to_radians(), lat2.to_radians());
    let dlat = (lat2 - lat1).to_radians();
    let dlon = (lon2 - lon1).to_radians();
    let a = (dlat / 2.0).sin().powi(2) + p1.cos() * p2.cos() * (dlon / 2.0).sin().powi(2);
    2.0 * 3440.065 * a.sqrt().asin()
}

fn crossings(ring: &[(Double, Double)], lon: f64) -> Vec<Double> {
    (0..ring.len())
        .map(|i| {
            let j = if i == 0 { ring.len() - 1 } else { i - 1 };
            let (lat_i, lon_i) = (f(ring[i].0), f(ring[i].1));
            let (lat_j, lon_j) = (f(ring[j].0), f(ring[j].1));
            d((lat_j - lat_i) * (lon - lon_i) / (lon_j - lon_i) + lat_i)
        })
        .collect()
}

fn measure(region: &Region, lat: f64, lon: f64) -> Measured {
    match region {
        Region::Circle { lat: clat, lon: clon, .. } => {
            Measured::Distance(d(haversine_nm(f(*clat), f(*clon), lat, lon)))
        }
        Region::Polygon { exterior, holes } => Measured::Crossings {
            exterior: crossings(exterior, lon),
            holes: holes.iter().map(|h| crossings(h, lon)).collect(),
        },
        Region::BBox { .. } => Measured::Nothing,
    }
}

fn contains(region: &Region, lat: f64, lon: f64) -> bool {
    let measured = measure(region, lat, lon);
    assert!(measured.fits(region));
    region.contains(d(lat), d(lon), &measured)
}

fn bounding_circle(region: &Region) -> (f64, f64, f64) {
    let points = region.bounding_points();
    let n = points.len().max(1) as f64;
    let clat = points.iter().map(|p| f(p.0)).sum::<f64>() / n;
    let clon = points.iter().map(|p| f(p.1)).sum::<f64>() / n;
    let distances: Vec<Double> =
        points.iter().map(|p| d(haversine_nm(clat, clon, f(p.0), f(p.1)))).collect();
    let (lat, lon, radius) = region.bounding_circle(d(clat), d(clon), &distances);
    (f(lat), f(lon), f(radius))
}

fn square() -> Region {
    Region::Polygon {
        exterior: ring(&[(-1.0, -1.0), (-1.0, 1.0), (1.0, 1.0), (1.0, -1.0)]),
        holes: vec![],
    }
}

#[test]
fn circle_contains() {
    let r = Region::Circle { lat: d(51.4775), lon: d(-0.4614), radius_nm: d(5.0) };
    assert!(contains(&r, 51.4775, -0.4614)); // centre
    assert!(contains(&r, 51.50, -0.46)); // ~1.4nm north, inside
    assert!(!contains(&r, 52.0, -0.46)); // ~31nm north, outside
}

#[test]
fn polygon_contains() {
    // ~unit square around (0,0): lat/lon from -1..1.
    let r = Region::Polygon {
        exterior: ring(&[(-1.0, -1.0), (-1.0, 1.0), (1.0, 1.0), (1.0, -1.0)]),
        holes: vec![],
    };
    assert!(contains(&r, 0.0, 0.0));
    assert!(!contains(&r, 2.0, 0.0));
    assert!(!contains(&r, 0.0, 5.0));
}

#[test]
fn polygon_with_hole() {
    // Outer 4x4 square with an inner 1x1 hole, both centred on the origin.
    let r = Region::Polygon {
        exterior: ring(&[(-2.0, -2.0), (-2.0, 2.0), (2.0, 2.0), (2.0, -2.0)]),
        holes: vec![ring(&[(-0.5, -0.5), (-0.5, 0.5), (0.5, 0.5), (0.5, -0.5)])],
    };
    assert!(contains(&r, 1.5, 1.5)); // in outer, outside hole
    assert!(!contains(&r, 0.0, 0.0)); // inside hole -> excluded
}

#[test]
fn bbox_contains() {
    let r = Region::BBox { min_lat: d(0.0), min_lon: d(0.0), max_lat: d(1.0), max_lon: d(1.0) };
    assert!(contains(&r, 0.5, 0.5));
    assert!(!contains(&r, 1.5, 0.5));
}

#[test]
fn bounding_circle_encloses_polygon() {
    let r = Region::Polygon {
        exterior: ring(&[(0.0, 0.0), (0.0, 0.1), (0.1, 0.1), (0.1, 0.0)]),
        holes: vec![],
    };
    let (clat, clon, radius) = bounding_circle(&r);
    for (lat, lon) in [(0.0, 0.0), (0.0, 0.1), (0.1, 0.1), (0.1, 0.0)] {
        assert!(haversine_nm(clat, clon, lat, lon) <= radius + 1e-9);
    }
}

#[test]
fn geojson_polygon_roundtrip() {
    // GeoJSON is [lon, lat]; this square spans lon -0.50..-0.40, lat 51.45..51.49.
    let gj = r#"{ "type": "Polygon", "coordinates": [[[-0.50,51.45],[-0.40,51.45],[-0.40,51.49],[-0.50,51.49],[-0.50,51.45]]] }"#;
    let regions = Region::from_geojson(gj).unwrap();
    assert_eq!(regions.len(), 1);
    match &regions[0] {
        Region::Polygon { exterior, holes } => {
            assert!(holes.is_empty());
            // First vertex must be (lat, lon) = (51.45, -0.50).
            assert_eq!(exterior[0], (d(51.45), d(-0.50)));
        }
        _ => panic!("expected polygon"),
    }
    assert!(contains(&regions[0], 51.47, -0.45)); // inside
    assert!(!contains(&regions[0], 51.47, -0.30)); // east, outside
}

#[test]
fn geojson_feature_collection() {
    // geojson.io exports a FeatureCollection; we must unwrap it.
    let gj = r#"{ "type": "FeatureCollection", "features": [
            { "type": "Feature", "properties": {}, "geometry": {
                "type": "Polygon",
                "coordinates": [[[4.85,52.32],[4.90,52.32],[4.90,52.31],[4.85,52.31],[4.85,52.32]]]
            } }
        ] }"#;
    let regions = Region::from_geojson(gj).unwrap();
    assert_eq!(regions.len(), 1);
    assert!(contains(&regions[0], 52.315, 4.87)); // inside
    assert!(!contains(&regions[0], 52.40, 4.87)); // north, outside
}

#[test]
fn geojson_multipolygon_expands() {
    let gj = r#"{ "type": "MultiPolygon", "coordinates": [
            [[[0,0],[1,0],[1,1],[0,1],[0,0]]],
            [[[5,5],[6,5],[6,6],[5,6],[5,5]]]
        ] }"#;
    let regions = Region::from_geojson(gj).unwrap();
    assert_eq!(regions.len(), 2);
}

#[test]
fn bbox_has_its_edges() {
    let r = Region::BBox { min_lat: d(0.0), min_lon: d(-1.0), max_lat: d(1.0), max_lon: d(1.0) };
    assert!(contains(&r, 0.0, -1.0));
    assert!(contains(&r, 1.0, 1.0));
    assert!(contains(&r, -0.0, 0.0));
    assert!(!contains(&r, 0.5, -1.5));
    assert!(!contains(&r, f64::NAN, 0.0));
}

#[test]
fn circle_has_its_edge() {
    let r = Region::Circle { lat: d(0.0), lon: d(0.0), radius_nm: d(5.0) };
    assert!(r.contains(d(0.0), d(0.0), &Measured::Distance(d(5.0))));
    assert!(!r.contains(d(0.0), d(0.0), &Measured::Distance(d(5.000001))));
    assert!(!r.contains(d(0.0), d(0.0), &Measured::Distance(d(f64::NAN))));
}

#[test]
fn a_ring_of_two_vertices_has_no_inside() {
    let line = ring(&[(-1.0, -1.0), (1.0, 1.0)]);
    assert!(!point_in_ring(&line, &crossings(&line, 0.0), d(-5.0), d(0.0)));
    assert!(!point_in_ring(&vec![], &vec![], d(0.0), d(0.0)));
}

#[test]
fn points_around_a_ring_are_outside() {
    let r = square();
    assert!(!contains(&r, -2.0, 0.0)); // south
    assert!(!contains(&r, 2.0, 0.0)); // north
    assert!(!contains(&r, 0.0, 2.0)); // east
    assert!(!contains(&r, 0.0, -2.0)); // west
}

#[test]
fn measurements_fit_their_own_region_only() {
    let circle = Region::Circle { lat: d(0.0), lon: d(0.0), radius_nm: d(1.0) };
    let polygon = square();
    assert!(measure(&circle, 0.0, 0.0).fits(&circle));
    assert!(!measure(&circle, 0.0, 0.0).fits(&polygon));
    assert!(measure(&polygon, 0.0, 0.0).fits(&polygon));
    let short = Measured::Crossings { exterior: vec![d(0.0); 3], holes: vec![] };
    assert!(!short.fits(&polygon));
    let extra = Measured::Crossings { exterior: vec![d(0.0); 4], holes: vec![vec![]] };
    assert!(!extra.fits(&polygon));
    let holed = Region::Polygon {
        exterior: ring(&[(0.0, 0.0), (0.0, 1.0), (1.0, 1.0)]),
        holes: vec![ring(&[(0.0, 0.0), (0.0, 1.0), (1.0, 1.0)])],
    };
    let wrong_hole = Measured::Crossings { exterior: vec![d(0.0); 3], holes: vec![vec![d(0.0)]] };
    assert!(!wrong_hole.fits(&holed));
    assert!(!Measured::Nothing.fits(&holed));
}

#[test]
fn a_circle_is_its_own_query_circle() {
    let r = Region::Circle { lat: d(51.0), lon: d(-0.4), radius_nm: d(6.0) };
    assert!(r.bounding_points().is_empty());
    assert_eq!(bounding_circle(&r), (51.0, -0.4, 6.0));
}

#[test]
fn a_box_is_enclosed_by_its_corners() {
    let r = Region::BBox { min_lat: d(0.0), min_lon: d(1.0), max_lat: d(2.0), max_lon: d(3.0) };
    assert_eq!(r.bounding_points(), ring(&[(0.0, 1.0), (0.0, 3.0), (2.0, 3.0), (2.0, 1.0)]));
    let (clat, clon, radius) = bounding_circle(&r);
    assert_eq!((clat, clon), (1.0, 2.0));
    for p in r.bounding_points() {
        assert!(haversine_nm(clat, clon, f(p.0), f(p.1)) <= radius);
    }
}

#[test]
fn the_greatest_distance_leaves_out_what_is_not_a_number() {
    assert_eq!(greatest(&vec![]), d(0.0));
    assert_eq!(greatest(&vec![d(3.0), d(f64::NAN), d(7.5), d(1.0)]), d(7.5));
    assert_eq!(greatest(&vec![d(f64::NAN)]), d(0.0));
    assert_eq!(greatest(&vec![d(-1.0)]), d(0.0));
}

#[test]
fn the_altitude_band_excludes_on_either_side() {
    let w = WatchedRegion {
        name: "band".to_string(),
        region: Region::BBox { min_lat: d(0.0), min_lon: d(0.0), max_lat: d(1.0), max_lon: d(1.0) },
        min_alt_ft: Some(d(1000.0)),
        max_alt_ft: Some(d(4000.0)),
    };
    let at = |alt: Option<f64>| w.admits(d(0.5), d(0.5), alt.map(d), &Measured::Nothing);
    assert!(at(Some(1000.0)));
    assert!(at(Some(4000.0)));
    assert!(!at(Some(999.9)));
    assert!(!at(Some(4000.1)));
    assert!(at(None));
    assert!(at(Some(f64::NAN)));
    assert!(!w.admits(d(2.0), d(0.5), None, &Measured::Nothing));
    assert_eq!(
        w.bounding_circle(d(0.5), d(0.5), &vec![d(2.0), d(3.0)]),
        (d(0.5), d(0.5), d(3.0))
    );
}

#[test]
fn geojson_feature_and_elevation() {
    let gj = r#"{ "type": "Feature", "properties": {}, "geometry": {
        "type": "Polygon",
        "coordinates": [
            [[1,2,100],[3,4,100],[5,6,100]],
            [[7,8],[9,10],[11,12]]
        ] } }"#;
    let regions = Region::from_geojson(gj).unwrap();
    assert_eq!(regions.len(), 1);
    match &regions[0] {
        Region::Polygon { exterior, holes } => {
            assert_eq!(*exterior, ring(&[(2.0, 1.0), (4.0, 3.0), (6.0, 5.0)]));
            assert_eq!(*holes, vec![ring(&[(8.0, 7.0), (10.0, 9.0), (12.0, 11.0)])]);
        }
        _ => panic!("expected polygon"),
    }
}

#[test]
fn geojson_features_may_lack_a_geometry() {
    let gj = r#"{ "type": "FeatureCollection", "features": [
        { "type": "Feature", "properties": {}, "geometry": null },
        { "type": "Feature", "properties": {}, "geometry": {
            "type": "MultiPolygon", "coordinates": [[[[0,0],[1,0],[1,1]]], [[[5,5],[6,5],[6,6]]]] } },
        { "type": "Feature", "properties": {}, "geometry": {
            "type": "Polygon", "coordinates": [[[0,0],[1,0],[1,1]]] } }
    ] }"#;
    assert_eq!(Region::from_geojson(gj).unwrap().len(), 3);
    let none = r#"{ "type": "Feature", "properties": {}, "geometry": null }"#;
    let e = Region::from_geojson(none).unwrap_err();
    assert!(matches!(e, GeoError::NoPolygons));
    assert_eq!(e.message(), "geojson contained no Polygon/MultiPolygon geometry");
    let empty = r#"{ "type": "MultiPolygon", "coordinates": [] }"#;
    assert!(matches!(Region::from_geojson(empty), Err(GeoError::NoPolygons)));
}

#[test]
fn geojson_errors() {
    let e = Region::from_geojson("{").unwrap_err();
    match &e {
        GeoError::Parse(reason) => {
            assert_eq!(e.message(), format!("parsing inline geojson: {}", reason));
            assert!(!reason.is_empty());
        }
        _ => panic!("expected a parse error"),
    }
    let no_rings = r#"{ "type": "Polygon", "coordinates": [] }"#;
    let e = Region::from_geojson(no_rings).unwrap_err();
    assert!(matches!(e, GeoError::NoRings));
    assert_eq!(e.message(), "geojson polygon has no rings");
    for (name, coordinates) in [
        ("Point", "[1,2]"),
        ("MultiPoint", "[[1,2]]"),
        ("LineString", "[[1,2],[3,4]]"),
        ("MultiLineString", "[[[1,2],[3,4]]]"),
    ] {
        let gj = format!("{{ \"type\": \"{name}\", \"coordinates\": {coordinates} }}");
        let e = Region::from_geojson(&gj).unwrap_err();
        assert_eq!(
            e.message(),
            format!("geojson geometry must be Polygon or MultiPolygon, got {name}")
        );
    }
    let e = Region::from_geojson(r#"{ "type": "GeometryCollection", "geometries": [] }"#).unwrap_err();
    assert_eq!(
        e.message(),
        "geojson geometry must be Polygon or MultiPolygon, got GeometryCollection"
    );
}

#[test]
fn a_short_position_is_an_error() {
    let e = polygon_to_region(&vec![vec![vec![d(1.0), d(2.0)], vec![d(3.0)]]]).unwrap_err();
    assert!(matches!(e, GeoError::ShortPosition));
    assert_eq!(e.message(), "geojson position must have at least [lon, lat]");
    let hole = vec![vec![vec![d(1.0), d(2.0)]], vec![vec![]]];
    assert!(matches!(polygon_to_region(&hole), Err(GeoError::ShortPosition)));
}

#[test]
fn the_first_bad_geometry_counts() {
    let triangle = || vec![vec![vec![d(0.0), d(0.0)], vec![d(1.0), d(0.0)], vec![d(1.0), d(1.0)]]];
    let shapes = vec![Shape::Polygon(triangle()), Shape::LineString, Shape::Polygon(vec![])];
    match regions_from_shapes(&shapes) {
        Err(GeoError::Unsupported(name)) => assert_eq!(name, "LineString"),
        _ => panic!("expected an unsupported geometry"),
    }
    let shapes = vec![Shape::MultiPolygon(vec![triangle(), vec![]]), Shape::Point];
    assert!(matches!(regions_from_shapes(&shapes), Err(GeoError::NoRings)));
    let shapes = vec![Shape::Polygon(triangle()), Shape::MultiPolygon(vec![triangle(), triangle()])];
    assert_eq!(regions_from_shapes(&shapes).unwrap().len(), 3);
    assert!(matches!(regions_from_shapes(&vec![]), Err(GeoError::NoPolygons)));
}

#[test]
fn doubles_compare_as_floats_do() {
    let values = [
        0.0,
        -0.0,
        1.0,
        -1.0,
        1.5,
        -2.5,
        250.0,
        1e300,
        -1e300,
        f64::MIN_POSITIVE,
        5e-324,
        -5e-324,
        f64::MAX,
        f64::MIN,
        f64::INFINITY,
        f64::NEG_INFINITY,
        f64::NAN,
        -f64::NAN,
    ];
    for x in values {
        assert_eq!(d(x).nan(), x.is_nan());
        for y in values {
            assert_eq!(d(x).lt(d(y)), x < y, "{x} < {y}");
            assert_eq!(d(x).le(d(y)), x <= y, "{x} <= {y}");
            assert_eq!(d(x).same(d(y)), x == y, "{x} == {y}");
            let m = f(d(x).max(d(y)));
            assert!(m == x.max(y) || (m.is_nan() && x.max(y).is_nan()), "max of {x} and {y}");
        }
    }
}

#[test]
fn a_ring_may_start_anywhere_and_be_closed() {
    let points = [(0.0, 0.0), (0.5, 3.0), (2.0, 2.0), (4.0, 2.5), (3.0, -1.0)];
    let base = Region::Polygon { exterior: ring(&points), holes: vec![] };
    let probes = [(1.0, 1.0), (2.0, 0.5), (3.5, 2.0), (-1.0, 1.0), (5.0, 1.0), (1.0, 2.8), (2.0, 9.0)];
    assert!(probes.iter().any(|(lat, lon)| contains(&base, *lat, *lon)));
    for k in 0..points.len() {
        let mut turned = points.to_vec();
        turned.rotate_left(k);
        let open = Region::Polygon { exterior: ring(&turned), holes: vec![] };
        turned.push(turned[0]);
        let closed = Region::Polygon { exterior: ring(&turned), holes: vec![] };
        for (lat, lon) in probes {
            let expected = contains(&base, lat, lon);
            assert_eq!(contains(&open, lat, lon), expected, "start {k} at {lat} {lon}");
            assert_eq!(contains(&closed, lat, lon), expected, "closed {k} at {lat} {lon}");
        }
    }
}

#[test]
fn one_more_hole_takes_away_exactly_itself() {
    let outer = [(-4.0, -4.0), (-4.0, 4.0), (4.0, 4.0), (4.0, -4.0)];
    let hole = [(-1.0, -1.0), (-1.0, 1.0), (1.0, 1.0), (1.0, -1.0)];
    let other = [(2.0, 2.0), (2.0, 3.0), (3.0, 3.0), (3.0, 2.0)];
    let with = |holes: &[&[(f64, f64)]]| Region::Polygon {
        exterior: ring(&outer),
        holes: holes.iter().map(|h| ring(h)).collect(),
    };
    let alone = Region::Polygon { exterior: ring(&hole), holes: vec![] };
    for (lat, lon) in [(0.0, 0.0), (2.5, 2.5), (1.5, -2.0), (5.0, 0.0), (0.5, -0.5)] {
        let expected = contains(&with(&[&other]), lat, lon) && !contains(&alone, lat, lon);
        assert_eq!(contains(&with(&[&other, &hole]), lat, lon), expected);
        assert_eq!(contains(&with(&[&hole, &other]), lat, lon), expected);
    }
}

#[test]
fn no_region_holds_what_is_not_a_number() {
    let regions = [
        Region::Circle { lat: d(0.0), lon: d(0.0), radius_nm: d(f64::INFINITY) },
        square(),
        Region::BBox { min_lat: d(-1.0), min_lon: d(-1.0), max_lat: d(1.0), max_lon: d(1.0) },
    ];
    for region in &regions {
        assert!(contains(region, 0.0, 0.0));
        assert!(!contains(region, f64::NAN, 0.0));
        assert!(!contains(region, 0.0, f64::NAN));
    }
}

#[test]
fn a_wider_circle_holds_more() {
    let circle = |radius: f64| Region::Circle { lat: d(51.0), lon: d(0.0), radius_nm: d(radius) };
    assert!(contains(&circle(5.0), 51.05, 0.0));
    assert!(contains(&circle(6.0), 51.05, 0.0));
    assert!(!contains(&circle(2.0), 51.05, 0.0));
}

#[test]
fn regions_are_copied_and_compared_as_numbers() {
    let holed = Region::Polygon {
        exterior: ring(&[(0.0, 0.0), (0.0, 1.0), (1.0, 1.0)]),
        holes: vec![ring(&[(0.2, 0.2), (0.2, 0.4), (0.4, 0.4)])],
    };
    let circle = |lat: f64| Region::Circle { lat: d(lat), lon: d(1.0), radius_nm: d(2.0) };
    let boxed = |max: f64| Region::BBox {
        min_lat: d(0.0),
        min_lon: d(0.0),
        max_lat: d(1.0),
        max_lon: d(max),
    };
    assert!(holed.clone() == holed);
    assert!(circle(3.0).clone() == circle(3.0));
    assert!(boxed(4.0).clone() == boxed(4.0));
    assert!(circle(0.0) == circle(-0.0));
    assert!(circle(0.0) != circle(1.0));
    assert!(circle(f64::NAN) != circle(f64::NAN));
    assert!(boxed(4.0) != boxed(5.0));
    assert!(boxed(4.0) != circle(0.0));
    let filled = Region::Polygon { exterior: ring(&[(0.0, 0.0), (0.0, 1.0), (1.0, 1.0)]), holes: vec![] };
    assert!(filled != holed);
    let moved = Region::Polygon {
        exterior: ring(&[(0.0, 0.0), (0.0, 1.0), (1.0, 1.0)]),
        holes: vec![ring(&[(0.2, 0.2), (0.2, 0.4), (0.4, 0.5)])],
    };
    assert!(moved != holed);
    let w = WatchedRegion {
        name: "w".to_string(),
        region: circle(3.0),
        min_alt_ft: Some(d(1.0)),
        max_alt_ft: None,
    };
    let copy = w.clone();
    assert_eq!(copy.name, "w");
    assert!(copy.region == w.region);
    assert_eq!((copy.min_alt_ft, copy.max_alt_ft), (Some(d(1.0)), None));
}

#[test]
fn the_query_circle_holds_every_corner() {
    let r = Region::Polygon {
        exterior: ring(&[(51.0, -0.5), (51.2, -0.1), (51.4, -0.7), (50.9, -0.9)]),
        holes: vec![],
    };
    let (lat, lon, radius) = bounding_circle(&r);
    let around = Region::Circle { lat: d(lat), lon: d(lon), radius_nm: d(radius) };
    for p in r.bounding_points() {
        assert!(contains(&around, f(p.0), f(p.1)));
    }
}
