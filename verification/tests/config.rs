//! Configuration: reading it, and the regions that it resolves to.
use planespotter::config::{
    default_aerodatabox_host, default_base_url, default_poll_interval, default_source_kind,
    BBoxConfig, CircleConfig, Config, ConfigError, EnrichConfig, RegionConfig, SourceConfig,
};
use planespotter::document::GeoError;
use planespotter::double::Double;
use planespotter::geo::{Measured, Region, WatchedRegion};

fn d(x: f64) -> Double {
    Double { bits: x.to_bits() }
}

fn number(v: &toml::Value) -> Double {
    match v {
        toml::Value::Integer(n) => d(*n as f64),
        toml::Value::Float(x) => d(*x),
        _ => panic!("expected a number"),
    }
}

fn text(t: &toml::Value, key: &str) -> Option<String> {
    t.get(key).and_then(|v| v.as_str()).map(|s| s.to_string())
}

fn region_config(t: &toml::Value) -> RegionConfig {
    RegionConfig {
        name: text(t, "name").unwrap(),
        circle: t.get("circle").map(|c| CircleConfig {
            lat: number(&c["lat"]),
            lon: number(&c["lon"]),
            radius_nm: number(&c["radius_nm"]),
        }),
        polygon: t.get("polygon").map(|p| {
            p.as_array().unwrap().iter().map(|v| [number(&v[0]), number(&v[1])]).collect()
        }),
        bbox: t.get("bbox").map(|b| BBoxConfig {
            min_lat: number(&b["min_lat"]),
            min_lon: number(&b["min_lon"]),
            max_lat: number(&b["max_lat"]),
            max_lon: number(&b["max_lon"]),
        }),
        geojson: text(t, "geojson"),
        min_alt_ft: t.get("min_alt_ft").map(number),
        max_alt_ft: t.get("max_alt_ft").map(number),
    }
}

fn parse_config(src: &str) -> Config {
    let t: toml::Value = toml::from_str(src).unwrap();
    Config {
        poll_interval_secs: match t.get("poll_interval_secs") {
            Some(n) => n.as_integer().unwrap() as u64,
            None => default_poll_interval(),
        },
        source: match t.get("source") {
            Some(s) => SourceConfig {
                kind: text(s, "kind").unwrap_or_else(default_source_kind),
                base_url: text(s, "base_url").unwrap_or_else(default_base_url),
            },
            None => SourceConfig::default(),
        },
        enrich: match t.get("enrich") {
            Some(e) => EnrichConfig {
                adsbdb: e.get("adsbdb").map(|b| b.as_bool().unwrap()).unwrap_or(false),
                aerodatabox_key: text(e, "aerodatabox_key"),
                aerodatabox_host: text(e, "aerodatabox_host")
                    .unwrap_or_else(default_aerodatabox_host),
            },
            None => EnrichConfig::default(),
        },
        regions: match t.get("regions") {
            Some(rs) => rs.as_array().unwrap().iter().map(region_config).collect(),
            None => vec![],
        },
    }
}

fn haversine_nm(lat1: f64, lon1: f64, lat2: f64, lon2: f64) -> f64 {
    let (p1, p2) = (lat1.to_radians(), lat2.to_radians());
    let dlat = (lat2 - lat1).to_radians();
    let dlon = (lon2 - lon1).to_radians();
    let a = (dlat / 2.0).sin().powi(2) + p1.cos() * p2.cos() * (dlon / 2.0).sin().powi(2);
    2.0 * 3440.065 * a.sqrt().asin()
}

fn admits_in_circle(w: &WatchedRegion, lat: f64, lon: f64, alt: Option<f64>) -> bool {
    match &w.region {
        Region::Circle { lat: clat, lon: clon, .. } => {
            let distance =
                haversine_nm(f64::from_bits(clat.bits), f64::from_bits(clon.bits), lat, lon);
            w.admits(d(lat), d(lon), alt.map(d), &Measured::Distance(d(distance)))
        }
        _ => panic!("expected a circle"),
    }
}

fn entry(name: &str) -> RegionConfig {
    RegionConfig {
        name: name.to_string(),
        circle: None,
        polygon: None,
        bbox: None,
        geojson: None,
        min_alt_ft: None,
        max_alt_ft: None,
    }
}

fn with_regions(regions: Vec<RegionConfig>) -> Config {
    Config {
        poll_interval_secs: 5,
        source: SourceConfig::default(),
        enrich: EnrichConfig::default(),
        regions,
    }
}

fn circle() -> CircleConfig {
    CircleConfig { lat: d(1.0), lon: d(2.0), radius_nm: d(3.0) }
}

#[test]
fn parses_full_config() {
    let toml_src = r#"
poll_interval_secs = 7

[source]
kind = "network"
base_url = "https://api.airplanes.live/v2"

[enrich]
adsbdb = true
aerodatabox_key = "abc"

[[regions]]
name = "circle region"
[regions.circle]
lat = 51.0
lon = -0.4
radius_nm = 6
"#;
    let cfg = parse_config(toml_src);
    assert_eq!(cfg.poll_interval_secs, 7);
    assert!(cfg.enrich.adsbdb);
    assert_eq!(cfg.enrich.aerodatabox_key.as_deref(), Some("abc"));
    let regions = cfg.resolve_regions().unwrap();
    assert_eq!(regions.len(), 1);
    assert_eq!(regions[0].name, "circle region");
}

#[test]
fn parses_altitude_limits() {
    let toml_src = r#"
[[regions]]
name = "approach"
max_alt_ft = 4000
[regions.circle]
lat = 40.64
lon = -73.78
radius_nm = 6
"#;
    let cfg = parse_config(toml_src);
    let regions = cfg.resolve_regions().unwrap();
    assert_eq!(regions[0].max_alt_ft, Some(d(4000.0)));
    // A high overflight is excluded; a low approach inside the circle is admitted.
    assert!(!admits_in_circle(&regions[0], 40.64, -73.78, Some(35000.0)));
    assert!(admits_in_circle(&regions[0], 40.64, -73.78, Some(2500.0)));
    // Unknown altitude is not excluded on altitude grounds.
    assert!(admits_in_circle(&regions[0], 40.64, -73.78, None));
}

#[test]
fn rejects_region_with_multiple_shapes() {
    let rc = RegionConfig {
        name: "bad".into(),
        circle: Some(CircleConfig { lat: d(0.0), lon: d(0.0), radius_nm: d(1.0) }),
        polygon: Some(vec![[d(0.0), d(0.0)], [d(1.0), d(0.0)], [d(1.0), d(1.0)]]),
        bbox: None,
        geojson: None,
        min_alt_ft: None,
        max_alt_ft: None,
    };
    assert!(rc.into_regions().is_err());
}

#[test]
fn geojson_region_expands() {
    let rc = RegionConfig {
        name: "gj".into(),
        circle: None,
        polygon: None,
        bbox: None,
        geojson: Some(
            r#"{ "type": "Polygon", "coordinates": [[[0,0],[1,0],[1,1],[0,1],[0,0]]] }"#.into(),
        ),
        min_alt_ft: None,
        max_alt_ft: None,
    };
    let regions = rc.into_regions().unwrap();
    assert_eq!(regions.len(), 1);
    assert_eq!(regions[0].name, "gj");
}

#[test]
fn sections_left_out_take_their_defaults() {
    let cfg = parse_config("");
    assert_eq!(cfg.poll_interval_secs, 5);
    assert_eq!(cfg.source.kind, "network");
    assert_eq!(cfg.source.base_url, "https://api.airplanes.live/v2");
    assert!(!cfg.enrich.adsbdb);
    assert_eq!(cfg.enrich.aerodatabox_key, None);
    assert_eq!(cfg.enrich.aerodatabox_host, "");
    let cfg = parse_config("[enrich]\nadsbdb = true\n");
    assert_eq!(cfg.enrich.aerodatabox_host, "aerodatabox.p.rapidapi.com");
}

#[test]
fn no_regions_is_an_error() {
    let e = with_regions(vec![]).resolve_regions().unwrap_err();
    assert!(matches!(e, ConfigError::NoRegions));
    assert_eq!(e.message(), "no regions configured");
}

#[test]
fn an_entry_without_a_shape_is_an_error() {
    let e = entry("empty").into_regions().unwrap_err();
    match &e {
        ConfigError::ShapeCount { name, found } => {
            assert_eq!(name, "empty");
            assert_eq!(*found, 0);
        }
        _ => panic!("expected a shape count"),
    }
    assert_eq!(
        e.message(),
        "region \"empty\" must specify exactly one of: circle, polygon, bbox, geojson (found 0)"
    );
}

#[test]
fn all_four_shapes_are_counted() {
    let mut rc = entry("four \"fold\"");
    rc.circle = Some(circle());
    rc.polygon = Some(vec![]);
    rc.bbox = Some(BBoxConfig { min_lat: d(0.0), min_lon: d(0.0), max_lat: d(1.0), max_lon: d(1.0) });
    rc.geojson = Some("not even JSON".to_string());
    let e = rc.into_regions().unwrap_err();
    assert_eq!(
        e.message(),
        "region \"four \\\"fold\\\"\" must specify exactly one of: circle, polygon, bbox, geojson (found 4)"
    );
}

#[test]
fn bad_geojson_names_the_region_and_the_cause() {
    let mut rc = entry("gj");
    rc.geojson = Some(r#"{ "type": "Point", "coordinates": [1, 2] }"#.to_string());
    let e = rc.into_regions().unwrap_err();
    match &e {
        ConfigError::Geojson { name, cause } => {
            assert_eq!(name, "gj");
            assert!(matches!(cause, GeoError::Unsupported(_)));
        }
        _ => panic!("expected a GeoJSON error"),
    }
    assert_eq!(
        e.message(),
        "parsing geojson for region \"gj\": geojson geometry must be Polygon or MultiPolygon, got Point"
    );
}

#[test]
fn each_plain_shape_is_one_region() {
    let mut rc = entry("c");
    rc.circle = Some(circle());
    let r = rc.into_regions().unwrap();
    assert_eq!(r.len(), 1);
    match &r[0].region {
        Region::Circle { lat, lon, radius_nm } => {
            assert_eq!((*lat, *lon, *radius_nm), (d(1.0), d(2.0), d(3.0)));
        }
        _ => panic!("expected a circle"),
    }
    let mut rc = entry("p");
    rc.polygon = Some(vec![[d(1.0), d(10.0)], [d(2.0), d(20.0)], [d(3.0), d(30.0)]]);
    let r = rc.into_regions().unwrap();
    assert_eq!(r.len(), 1);
    match &r[0].region {
        Region::Polygon { exterior, holes } => {
            assert!(holes.is_empty());
            assert_eq!(*exterior, vec![(d(1.0), d(10.0)), (d(2.0), d(20.0)), (d(3.0), d(30.0))]);
        }
        _ => panic!("expected a polygon"),
    }
    let mut rc = entry("b");
    rc.bbox = Some(BBoxConfig { min_lat: d(1.0), min_lon: d(2.0), max_lat: d(3.0), max_lon: d(4.0) });
    let r = rc.into_regions().unwrap();
    assert_eq!(r.len(), 1);
    match &r[0].region {
        Region::BBox { min_lat, min_lon, max_lat, max_lon } => {
            assert_eq!(
                (*min_lat, *min_lon, *max_lat, *max_lon),
                (d(1.0), d(2.0), d(3.0), d(4.0))
            );
        }
        _ => panic!("expected a box"),
    }
}

#[test]
fn the_band_applies_to_every_part_of_a_multipolygon() {
    let mut rc = entry("parts");
    rc.min_alt_ft = Some(d(500.0));
    rc.max_alt_ft = Some(d(4000.0));
    rc.geojson = Some(
        r#"{ "type": "MultiPolygon", "coordinates": [
            [[[0,0],[1,0],[1,1],[0,0]]],
            [[[5,5],[6,5],[6,6],[5,5]]]
        ] }"#
            .to_string(),
    );
    let regions = rc.into_regions().unwrap();
    assert_eq!(regions.len(), 2);
    for w in &regions {
        assert_eq!(w.name, "parts");
        assert_eq!(w.min_alt_ft, Some(d(500.0)));
        assert_eq!(w.max_alt_ft, Some(d(4000.0)));
    }
}

#[test]
fn entries_resolve_in_order_and_the_first_error_counts() {
    let mut a = entry("a");
    a.circle = Some(circle());
    let mut b = entry("b");
    b.geojson = Some(
        r#"{ "type": "MultiPolygon", "coordinates": [[[[0,0],[1,0],[1,1]]],[[[5,5],[6,5],[6,6]]]] }"#
            .to_string(),
    );
    let mut c = entry("c");
    c.circle = Some(circle());
    let regions = with_regions(vec![a, b, c]).resolve_regions().unwrap();
    let names: Vec<&str> = regions.iter().map(|w| w.name.as_str()).collect();
    assert_eq!(names, vec!["a", "b", "b", "c"]);

    let mut ok = entry("ok");
    ok.circle = Some(circle());
    let mut broken = entry("broken");
    broken.geojson = Some("{".to_string());
    let e = with_regions(vec![ok, entry("none"), broken]).resolve_regions().unwrap_err();
    assert!(matches!(e, ConfigError::ShapeCount { found: 0, .. }));
}

#[test]
fn the_environment_overrides_the_key_unless_it_is_blank() {
    let mut cfg = with_regions(vec![]);
    cfg.enrich.aerodatabox_key = Some("file".to_string());
    cfg.apply_env_secrets(None);
    assert_eq!(cfg.enrich.aerodatabox_key.as_deref(), Some("file"));
    cfg.apply_env_secrets(Some(" \t\u{a0}\u{3000}".to_string()));
    assert_eq!(cfg.enrich.aerodatabox_key.as_deref(), Some("file"));
    cfg.apply_env_secrets(Some(" env ".to_string()));
    assert_eq!(cfg.enrich.aerodatabox_key.as_deref(), Some(" env "));
}

#[test]
fn given_regions_stand_for_the_geojson() {
    let mut rc = entry("given");
    rc.geojson = Some("anything".to_string());
    rc.max_alt_ft = Some(d(9.0));
    let boxed = || Region::BBox { min_lat: d(0.0), min_lon: d(0.0), max_lat: d(1.0), max_lon: d(1.0) };
    let r = rc.expand(Ok(vec![boxed(), boxed()])).unwrap();
    assert_eq!(r.len(), 2);
    assert_eq!(r[1].max_alt_ft, Some(d(9.0)));
    let e = rc.expand(Err(GeoError::NoRings)).unwrap_err();
    assert_eq!(
        e.message(),
        "parsing geojson for region \"given\": geojson polygon has no rings"
    );
}

#[test]
fn a_copied_config_resolves_alike() {
    let mut a = entry("a");
    a.polygon = Some(vec![[d(1.0), d(10.0)], [d(2.0), d(20.0)], [d(3.0), d(30.0)]]);
    a.max_alt_ft = Some(d(4000.0));
    let mut b = entry("b");
    b.geojson = Some(
        r#"{ "type": "Polygon", "coordinates": [[[0,0],[1,0],[1,1]]] }"#.to_string(),
    );
    let mut cfg = with_regions(vec![a, b]);
    cfg.enrich.aerodatabox_key = Some("key".to_string());
    cfg.source.base_url = "url".to_string();
    let copy = cfg.clone();
    assert_eq!(copy.poll_interval_secs, 5);
    assert_eq!(copy.enrich.aerodatabox_key.as_deref(), Some("key"));
    assert_eq!(copy.source.base_url, "url");
    let (x, y) = (cfg.resolve_regions().unwrap(), copy.resolve_regions().unwrap());
    assert_eq!(x.len(), y.len());
    for (p, q) in x.iter().zip(y.iter()) {
        assert_eq!(p.name, q.name);
        assert!(p.region == q.region);
        assert_eq!(p.max_alt_ft, q.max_alt_ft);
    }
}
