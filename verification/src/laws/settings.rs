//! From a configuration to the regions that are watched and the source that is asked.
use crate::config::{flattened, Config, ConfigErrorView, RegionConfig};
use crate::document::{geojson_document, geojson_regions, GeoErrorView};
use crate::double::{unit, Double};
use crate::engine::{providers_of, Engine};
use crate::enrich::Provider;
use crate::geo::{RegionView, WatchedRegionView};
use crate::model::AircraftView;
use crate::source::network::{
    described_aircraft, json_integer_as_double, law_query_radius_covers, whole_radius,
    AltitudeField, RawAircraft,
};
use crate::text::{decimal, lowercase, optional, quoted, trimmed};
use vstd::prelude::*;

verus! {

/// An entry with other than one shape is refused with the number of its shapes, each of the four
/// counted once.
pub proof fn law_shapes_are_counted(entry: RegionConfig)
    ensures
        ({
            let count = (if entry.circle is Some {
                1int
            } else {
                0
            }) + (if entry.polygon is Some {
                1int
            } else {
                0
            }) + (if entry.bbox is Some {
                1int
            } else {
                0
            }) + (if entry.geojson is Some {
                1int
            } else {
                0
            });
            count != 1 ==> entry.resolved() == Err::<Seq<WatchedRegionView>, ConfigErrorView>(
                ConfigErrorView::ShapeCount { name: entry.name@, found: count },
            )
        }),
{
}

/// An entry with a circle alone is that circle, under its name and with its band.
pub proof fn law_circle_entry(entry: RegionConfig)
    requires
        entry.circle is Some,
        entry.polygon is None,
        entry.bbox is None,
        entry.geojson is None,
    ensures
        entry.resolved() matches Ok(w) && w.len() == 1 && w[0] == (WatchedRegionView {
            name: entry.name@,
            region: RegionView::Circle {
                lat: entry.circle->0.lat,
                lon: entry.circle->0.lon,
                radius_nm: entry.circle->0.radius_nm,
            },
            min_alt_ft: entry.min_alt_ft,
            max_alt_ft: entry.max_alt_ft,
        }),
{
}

/// An entry with a box alone is that box, under its name and with its band.
pub proof fn law_box_entry(entry: RegionConfig)
    requires
        entry.circle is None,
        entry.polygon is None,
        entry.bbox is Some,
        entry.geojson is None,
    ensures
        entry.resolved() matches Ok(w) && w.len() == 1 && w[0] == (WatchedRegionView {
            name: entry.name@,
            region: RegionView::BBox {
                min_lat: entry.bbox->0.min_lat,
                min_lon: entry.bbox->0.min_lon,
                max_lat: entry.bbox->0.max_lat,
                max_lon: entry.bbox->0.max_lon,
            },
            min_alt_ft: entry.min_alt_ft,
            max_alt_ft: entry.max_alt_ft,
        }),
{
}

/// An entry with an inline polygon alone is that polygon, vertex by vertex and without holes, under
/// its name and with its band.
pub proof fn law_polygon_entry(entry: RegionConfig)
    requires
        entry.circle is None,
        entry.polygon is Some,
        entry.bbox is None,
        entry.geojson is None,
    ensures
        entry.resolved() matches Ok(w) && {
            &&& w.len() == 1
            &&& w[0].name == entry.name@
            &&& w[0].min_alt_ft == entry.min_alt_ft
            &&& w[0].max_alt_ft == entry.max_alt_ft
            &&& w[0].region is Polygon
            &&& w[0].region->holes.len() == 0
            &&& w[0].region->exterior.len() == entry.polygon->0@.len()
            &&& forall|i: int|
                #![trigger w[0].region->exterior[i]]
                0 <= i < entry.polygon->0@.len() ==> w[0].region->exterior[i].0
                    == entry.polygon->0@[i]@[0] && w[0].region->exterior[i].1
                    == entry.polygon->0@[i]@[1]
        },
{
}

/// An entry with GeoJSON alone has the regions that the GeoJSON describes, in order, all under its
/// name and with its band, or is refused for the reason that the GeoJSON is.
pub proof fn law_geojson_entry(entry: RegionConfig)
    requires
        entry.circle is None,
        entry.polygon is None,
        entry.bbox is None,
        entry.geojson is Some,
    ensures
        geojson_regions(geojson_document(entry.geojson->0@)) matches Ok(regions) ==> (
        entry.resolved() matches Ok(w) && w.len() == regions.len() && forall|i: int|
            0 <= i < regions.len() ==> #[trigger] w[i] == (WatchedRegionView {
                name: entry.name@,
                region: regions[i],
                min_alt_ft: entry.min_alt_ft,
                max_alt_ft: entry.max_alt_ft,
            })),
        geojson_regions(geojson_document(entry.geojson->0@)) matches Err(cause)
            ==> entry.resolved() == Err::<Seq<WatchedRegionView>, ConfigErrorView>(
            ConfigErrorView::Geojson { name: entry.name@, cause },
        ),
{
}

/// The regions of a configuration are those of its entries, in order and each once; there has to be
/// one.
pub proof fn law_entries_in_order(config: Config)
    requires
        forall|k: int|
            0 <= k < config.regions@.len() ==> (#[trigger] config.regions@[k]).resolved() is Ok,
    ensures
        ({
            let all = config.regions@.map_values(|e: RegionConfig| e.resolved()->Ok_0).flatten();
            config.resolved_regions() == if all.len() == 0 {
                Err::<Seq<WatchedRegionView>, ConfigErrorView>(ConfigErrorView::NoRegions)
            } else {
                Ok::<Seq<WatchedRegionView>, ConfigErrorView>(all)
            }
        }),
{
    lemma_flattened_in_order(config.regions@);
}

proof fn lemma_flattened_in_order(entries: Seq<RegionConfig>)
    requires
        forall|k: int| 0 <= k < entries.len() ==> (#[trigger] entries[k]).resolved() is Ok,
    ensures
        flattened(entries.map_values(|rc: RegionConfig| rc.resolved())) == Ok::<
            Seq<WatchedRegionView>,
            ConfigErrorView,
        >(entries.map_values(|e: RegionConfig| e.resolved()->Ok_0).flatten()),
    decreases entries.len(),
{
    let results = entries.map_values(|rc: RegionConfig| rc.resolved());
    let lists = entries.map_values(|e: RegionConfig| e.resolved()->Ok_0);
    if entries.len() == 0 {
        assert(lists.flatten() =~= Seq::empty());
    } else {
        let rest = entries.drop_last();
        assert(forall|k: int| 0 <= k < rest.len() ==> rest[k] == entries[k]);
        lemma_flattened_in_order(rest);
        assert(entries[entries.len() - 1].resolved() is Ok);
        assert(results.drop_last() =~= rest.map_values(|rc: RegionConfig| rc.resolved()));
        let before = rest.map_values(|e: RegionConfig| e.resolved()->Ok_0);
        assert(lists =~= before.push(entries.last().resolved()->Ok_0));
        before.lemma_flatten_push(entries.last().resolved()->Ok_0);
    }
}

/// A configuration is refused for the first entry that is.
pub proof fn law_first_refused_entry_counts(config: Config, k: int)
    requires
        0 <= k < config.regions@.len(),
        forall|i: int| 0 <= i < k ==> (#[trigger] config.regions@[i]).resolved() is Ok,
        config.regions@[k].resolved() is Err,
    ensures
        config.resolved_regions() == config.regions@[k].resolved(),
{
    let entries = config.regions@;
    let results = entries.map_values(|rc: RegionConfig| rc.resolved());
    let head = entries.take(k);
    assert(forall|i: int| 0 <= i < k ==> head[i] == entries[i]);
    lemma_flattened_in_order(head);
    assert(results.take(k) =~= head.map_values(|rc: RegionConfig| rc.resolved()));
    assert(results.take(k + 1).drop_last() =~= results.take(k));
    assert(results.take(k + 1).last() == entries[k].resolved());
    lemma_refusal_stays(results, k + 1);
}

proof fn lemma_refusal_stays(
    results: Seq<Result<Seq<WatchedRegionView>, ConfigErrorView>>,
    n: int,
)
    requires
        0 <= n <= results.len(),
        flattened(results.take(n)) is Err,
    ensures
        flattened(results) == flattened(results.take(n)),
    decreases results.len() - n,
{
    if n == results.len() {
        assert(results.take(n) =~= results);
    } else {
        assert(results.take(n + 1).drop_last() =~= results.take(n));
        lemma_refusal_stays(results, n + 1);
    }
}

/// What a refused configuration is told.
pub proof fn law_refused_configurations_in_words(name: Seq<char>, found: int, cause: GeoErrorView)
    ensures
        (ConfigErrorView::ShapeCount { name, found }).text() == "region "@ + quoted(name)
            + " must specify exactly one of: circle, polygon, bbox, geojson (found "@ + decimal(
            found,
        ) + ")"@,
        (ConfigErrorView::Geojson { name, cause }).text() == "parsing geojson for region "@
            + quoted(name) + ": "@ + cause.text(),
        ConfigErrorView::NoRegions.text() == "no regions configured"@,
        (ConfigErrorView::UnknownSource { kind: name }).text() == "unknown source kind "@ + quoted(
            name,
        ) + " (only \"network\" is implemented)"@,
{
}

/// A configuration gives no engine for its source where that is not the network, and otherwise for
/// its regions where they are refused.
pub proof fn law_why_there_is_no_engine(config: Config)
    ensures
        config.source.kind@ != "network"@ ==> Engine::config_error(config) == Some(
            ConfigErrorView::UnknownSource { kind: config.source.kind@ },
        ),
        config.source.kind@ == "network"@ ==> (config.resolved_regions() matches Err(e)
            ==> Engine::config_error(config) == Some(e)),
        config.source.kind@ == "network"@ && config.resolved_regions() is Ok
            ==> Engine::config_error(config) is None,
{
}

/// adsbdb is asked if it is enabled, AeroDataBox if there is a key, with that key and the
/// configured host, and adsbdb first.
pub proof fn law_who_is_asked(config: Config, providers: Seq<Provider>)
    requires
        providers_of(config, providers),
    ensures
        !config.enrich.adsbdb && config.enrich.aerodatabox_key is None ==> providers.len() == 0,
        config.enrich.adsbdb && config.enrich.aerodatabox_key is None ==> providers.len() == 1
            && providers[0] is Adsbdb,
        config.enrich.adsbdb ==> (providers[0] matches Provider::Adsbdb(p) && p.base_url@
            == "https://api.adsbdb.com/v0"@),
        !config.enrich.adsbdb ==> (config.enrich.aerodatabox_key matches Some(key)
            ==> providers.len() == 1 && (providers[0] matches Provider::AeroDataBox(p) && p.api_key
            == key && p.host == config.enrich.aerodatabox_host)),
        config.enrich.adsbdb ==> (config.enrich.aerodatabox_key matches Some(key)
            ==> providers.len() == 2 && (providers[1] matches Provider::AeroDataBox(p) && p.api_key
            == key && p.host == config.enrich.aerodatabox_host)),
{
}

/// The radius that is asked for is between 1 and 250 whole nautical miles: the smallest that is no
/// less than what is needed, or 250 where that is not enough. What is not a number asks for 0.
pub proof fn law_radius_that_is_asked_for(radius_nm: Double)
    ensures
        radius_nm.is_nan() ==> whole_radius(radius_nm) == 0,
        !radius_nm.is_nan() ==> 1 <= whole_radius(radius_nm) <= 250,
        !radius_nm.is_nan() && whole_radius(radius_nm) < 250 ==> radius_nm.value() <= whole_radius(
            radius_nm,
        ) * unit(),
        !radius_nm.is_nan() && whole_radius(radius_nm) > 1 ==> (whole_radius(radius_nm) - 1)
            * unit() < radius_nm.value(),
{
    if !radius_nm.is_nan() {
        law_query_radius_covers(radius_nm);
    }
}

/// A record describes an aircraft exactly if it has an address and both coordinates; everything
/// else is carried over as it is, with the callsign trimmed.
pub proof fn law_record_is_carried_over(raw: RawAircraft)
    ensures
        raw.aircraft() is Some <==> raw.hex is Some && raw.lat is Some && raw.lon is Some,
        raw.aircraft() matches Some(a) ==> {
            &&& a.hex == lowercase(raw.hex->0@)
            &&& Some(a.lat) == raw.lat
            &&& Some(a.lon) == raw.lon
            &&& a.altitude_ft == raw.alt_baro.feet()
            &&& a.ground_speed_kt == raw.gs
            &&& a.track_deg == raw.track
            &&& a.type_code == optional(raw.t)
            &&& a.registration == optional(raw.r)
            &&& a.squawk == optional(raw.squawk)
            &&& raw.flight is None ==> a.callsign is None
            &&& raw.flight matches Some(f) ==> a.callsign == if trimmed(f@).len() == 0 {
                None::<Seq<char>>
            } else {
                Some(trimmed(f@))
            }
        },
{
}

/// An altitude that is no JSON number is none, a float is itself, and an integer is the double that
/// JSON reads it as.
pub proof fn law_altitude_fields(x: Double, n: u64, m: i64)
    ensures
        AltitudeField::Other.feet() is None,
        AltitudeField::Float(x).feet() == Some(x),
        AltitudeField::Unsigned(n).feet() == Some(json_integer_as_double(n as int)),
        AltitudeField::Negative(m).feet() == Some(json_integer_as_double(m as int)),
{
}

/// The aircraft of a response are those of its records, one by one and in order.
pub proof fn law_records_one_by_one(some: Seq<RawAircraft>, more: Seq<RawAircraft>, raw: RawAircraft)
    ensures
        described_aircraft(Seq::empty()).len() == 0,
        raw.aircraft() matches Some(a) ==> described_aircraft(seq![raw]) == seq![a],
        raw.aircraft() is None ==> described_aircraft(seq![raw]).len() == 0,
        described_aircraft(some + more) == described_aircraft(some) + described_aircraft(more),
{
    reveal_with_fuel(described_aircraft, 2);
    assert(seq![raw].drop_last() =~= Seq::empty());
    if let Some(a) = raw.aircraft() {
        assert(Seq::<AircraftView>::empty().push(a) =~= seq![a]);
    }
    lemma_records_both(some, more);
}

proof fn lemma_records_both(some: Seq<RawAircraft>, more: Seq<RawAircraft>)
    ensures
        described_aircraft(some + more) == described_aircraft(some) + described_aircraft(more),
    decreases more.len(),
{
    if more.len() == 0 {
        assert(some + more =~= some);
        assert(described_aircraft(some) + described_aircraft(more) =~= described_aircraft(some));
    } else {
        lemma_records_both(some, more.drop_last());
        assert((some + more).drop_last() =~= some + more.drop_last());
        assert(described_aircraft(some + more) =~= described_aircraft(some) + described_aircraft(
            more,
        ));
    }
}

} // verus!
