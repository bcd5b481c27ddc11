//! Configuration: poll interval, position source, enrichers, and watched regions.
use crate::document::{
    geojson_document, geojson_regions, law_every_polygon_becomes_a_region, region_views,
    regions_result, GeoError, GeoErrorView,
};
use crate::double::Double;
use crate::geo::{Region, RegionView, RingView, WatchedRegion, WatchedRegionView};
use crate::text::{copy_optional, decimal, decimal_of_u64, quoted, to_quoted, trim, trimmed};
use vstd::prelude::*;
use vstd::string::*;

verus! {

/// The whole configuration.
#[derive(Debug)]
pub struct Config {
    /// Seconds between poll cycles.
    pub poll_interval_secs: u64,
    pub source: SourceConfig,
    pub enrich: EnrichConfig,
    pub regions: Vec<RegionConfig>,
}

/// The poll interval where the configuration names none.
pub fn default_poll_interval() -> (r: u64)
    ensures
        r == 5,
{
    5
}

/// Where positions come from.
#[derive(Debug)]
pub struct SourceConfig {
    /// Which position source to use: `"network"`.
    pub kind: String,
    /// Base URL for the network source (airplanes.live or the API-compatible adsb.fi).
    pub base_url: String,
}

/// The kind of source where the configuration names none.
pub fn default_source_kind() -> (r: String)
    ensures
        r@ == "network"@,
{
    String::from_str("network")
}

/// The base URL of the network source where the configuration names none.
pub fn default_base_url() -> (r: String)
    ensures
        r@ == "https://api.airplanes.live/v2"@,
{
    String::from_str("https://api.airplanes.live/v2")
}

impl Default for SourceConfig {
    fn default() -> (r: Self)
        ensures
            r.kind@ == "network"@,
            r.base_url@ == "https://api.airplanes.live/v2"@,
    {
        SourceConfig { kind: default_source_kind(), base_url: default_base_url() }
    }
}

impl Clone for SourceConfig {
    fn clone(&self) -> (r: Self)
        ensures
            r == *self,
    {
        SourceConfig { kind: self.kind.clone(), base_url: self.base_url.clone() }
    }
}

/// Which enrichers to run.
#[derive(Debug)]
pub struct EnrichConfig {
    /// Enable the free adsbdb route lookup (origin/destination).
    pub adsbdb: bool,
    /// AeroDataBox API key for schedule and delay. That enrichment is skipped when absent.
    pub aerodatabox_key: Option<String>,
    /// RapidAPI host for AeroDataBox (overridable in case the user is on api.market etc.).
    pub aerodatabox_host: String,
}

impl Default for EnrichConfig {
    fn default() -> (r: Self)
        ensures
            !r.adsbdb,
            r.aerodatabox_key is None,
            r.aerodatabox_host@ == Seq::<char>::empty(),
    {
        EnrichConfig { adsbdb: false, aerodatabox_key: None, aerodatabox_host: String::new() }
    }
}

impl Clone for EnrichConfig {
    fn clone(&self) -> (r: Self)
        ensures
            r == *self,
    {
        EnrichConfig {
            adsbdb: self.adsbdb,
            aerodatabox_key: copy_optional(&self.aerodatabox_key),
            aerodatabox_host: self.aerodatabox_host.clone(),
        }
    }
}

/// The AeroDataBox host where an enrichment section names none.
pub fn default_aerodatabox_host() -> (r: String)
    ensures
        r@ == "aerodatabox.p.rapidapi.com"@,
{
    String::from_str("aerodatabox.p.rapidapi.com")
}

/// One region entry: a name plus exactly one shape, plus optional altitude limits.
#[derive(Debug)]
pub struct RegionConfig {
    pub name: String,
    pub circle: Option<CircleConfig>,
    /// Inline polygon as `[[lat, lon], ...]`.
    pub polygon: Option<Vec<[Double; 2]>>,
    pub bbox: Option<BBoxConfig>,
    /// Inline GeoJSON `Polygon`/`MultiPolygon` geometry (content only, no file paths).
    pub geojson: Option<String>,
    /// Only admit aircraft at or above this barometric altitude (feet).
    pub min_alt_ft: Option<Double>,
    /// Only admit aircraft at or below this barometric altitude (feet).
    pub max_alt_ft: Option<Double>,
}

#[derive(Debug, Clone, Copy)]
pub struct CircleConfig {
    pub lat: Double,
    pub lon: Double,
    pub radius_nm: Double,
}

#[derive(Debug, Clone, Copy)]
pub struct BBoxConfig {
    pub min_lat: Double,
    pub min_lon: Double,
    pub max_lat: Double,
    pub max_lon: Double,
}

/// The vertices of an inline polygon, if there is one.
pub open spec fn inline_vertices(polygon: Option<Vec<[Double; 2]>>) -> Option<Seq<[Double; 2]>> {
    match polygon {
        Some(p) => Some(p@),
        None => None,
    }
}

impl RegionConfig {
    /// Whether two entries say the same.
    pub open spec fn says_same(self, other: RegionConfig) -> bool {
        &&& self.name == other.name
        &&& self.circle == other.circle
        &&& inline_vertices(self.polygon) == inline_vertices(other.polygon)
        &&& self.bbox == other.bbox
        &&& self.geojson == other.geojson
        &&& self.min_alt_ft == other.min_alt_ft
        &&& self.max_alt_ft == other.max_alt_ft
    }
}

impl Clone for RegionConfig {
    fn clone(&self) -> (r: Self)
        ensures
            r.says_same(*self),
            r.resolved() == self.resolved(),
    {
        let polygon = match &self.polygon {
            Some(p) => {
                let mut copy: Vec<[Double; 2]> = Vec::new();
                let mut i: usize = 0;
                while i < p.len()
                    invariant
                        i <= p@.len(),
                        copy@ == p@.take(i as int),
                    decreases p@.len() - i,
                {
                    copy.push(p[i]);
                    i = i + 1;
                }
                proof {
                    assert(copy@ =~= p@);
                }
                Some(copy)
            },
            None => None,
        };
        let r = RegionConfig {
            name: self.name.clone(),
            circle: self.circle,
            polygon,
            bbox: self.bbox,
            geojson: copy_optional(&self.geojson),
            min_alt_ft: self.min_alt_ft,
            max_alt_ft: self.max_alt_ft,
        };
        proof {
            lemma_same_regions(r, *self);
        }
        r
    }
}

/// Entries that say the same have the same regions.
proof fn lemma_same_regions(a: RegionConfig, b: RegionConfig)
    requires
        a.says_same(b),
    ensures
        a.resolved() == b.resolved(),
{
    let parsed = a.geojson_result();
    assert(a.geojson_result() == b.geojson_result());
    assert(a.shape_count() == b.shape_count());
    assert(a.shape_regions(parsed) == b.shape_regions(parsed));
    if let Ok(regions) = a.shape_regions(parsed) {
        assert(regions.map_values(|r: RegionView| a.watch(r)) =~= regions.map_values(
            |r: RegionView| b.watch(r),
        ));
    }
}

impl Clone for Config {
    fn clone(&self) -> (r: Self)
        ensures
            r.poll_interval_secs == self.poll_interval_secs,
            r.source == self.source,
            r.enrich == self.enrich,
            r.regions@.len() == self.regions@.len(),
            forall|i: int|
                0 <= i < self.regions@.len() ==> (#[trigger] r.regions@[i]).says_same(
                    self.regions@[i],
                ),
            r.resolved_regions() == self.resolved_regions(),
    {
        let mut regions: Vec<RegionConfig> = Vec::new();
        let mut i: usize = 0;
        while i < self.regions.len()
            invariant
                i == regions@.len(),
                i <= self.regions@.len(),
                forall|k: int|
                    0 <= k < i ==> (#[trigger] regions@[k]).says_same(self.regions@[k])
                        && regions@[k].resolved() == self.regions@[k].resolved(),
            decreases self.regions@.len() - i,
        {
            regions.push(self.regions[i].clone());
            i = i + 1;
        }
        proof {
            assert(regions@.map_values(|rc: RegionConfig| rc.resolved())
                =~= self.regions@.map_values(|rc: RegionConfig| rc.resolved()));
        }
        Config {
            poll_interval_secs: self.poll_interval_secs,
            source: self.source.clone(),
            enrich: self.enrich.clone(),
            regions,
        }
    }
}

/// Why a configuration describes no engine.
#[derive(Debug)]
pub enum ConfigError {
    /// A region entry specifies not exactly one shape.
    ShapeCount { name: String, found: u8 },
    /// The GeoJSON of a region entry describes no regions.
    Geojson { name: String, cause: GeoError },
    /// There is no region to watch.
    NoRegions,
    /// There is no source of that kind.
    UnknownSource { kind: String },
}

/// What a [`ConfigError`] says.
pub enum ConfigErrorView {
    ShapeCount { name: Seq<char>, found: int },
    Geojson { name: Seq<char>, cause: GeoErrorView },
    NoRegions,
    UnknownSource { kind: Seq<char> },
}

impl View for ConfigError {
    type V = ConfigErrorView;

    open spec fn view(&self) -> ConfigErrorView {
        match *self {
            ConfigError::ShapeCount { name, found } => ConfigErrorView::ShapeCount {
                name: name@,
                found: found as int,
            },
            ConfigError::Geojson { name, cause } => ConfigErrorView::Geojson {
                name: name@,
                cause: cause@,
            },
            ConfigError::NoRegions => ConfigErrorView::NoRegions,
            ConfigError::UnknownSource { kind } => ConfigErrorView::UnknownSource { kind: kind@ },
        }
    }
}

impl ConfigErrorView {
    /// The error as it is shown.
    pub open spec fn text(self) -> Seq<char> {
        match self {
            ConfigErrorView::ShapeCount { name, found } => "region "@ + quoted(name)
                + " must specify exactly one of: circle, polygon, bbox, geojson (found "@ + decimal(
                found,
            ) + ")"@,
            ConfigErrorView::Geojson { name, cause } => "parsing geojson for region "@ + quoted(
                name,
            ) + ": "@ + cause.text(),
            ConfigErrorView::NoRegions => "no regions configured"@,
            ConfigErrorView::UnknownSource { kind } => "unknown source kind "@ + quoted(kind)
                + " (only \"network\" is implemented)"@,
        }
    }
}

impl ConfigError {
    /// The error as it is shown.
    pub fn message(&self) -> (r: String)
        ensures
            r@ == self@.text(),
    {
        match self {
            ConfigError::ShapeCount { name, found } => {
                let mut r = String::from_str("region ");
                r.append(to_quoted(name.as_str()).as_str());
                r.append(
                    " must specify exactly one of: circle, polygon, bbox, geojson (found ",
                );
                r.append(decimal_of_u64(*found as u64).as_str());
                r.append(")");
                r
            },
            ConfigError::Geojson { name, cause } => {
                let mut r = String::from_str("parsing geojson for region ");
                r.append(to_quoted(name.as_str()).as_str());
                r.append(": ");
                r.append(cause.message().as_str());
                r
            },
            ConfigError::NoRegions => String::from_str("no regions configured"),
            ConfigError::UnknownSource { kind } => {
                let mut r = String::from_str("unknown source kind ");
                r.append(to_quoted(kind.as_str()).as_str());
                r.append(" (only \"network\" is implemented)");
                r
            },
        }
    }
}

/// What a list of watched regions says.
pub open spec fn watched_views(regions: Seq<WatchedRegion>) -> Seq<WatchedRegionView> {
    regions.map_values(|w: WatchedRegion| w@)
}

/// What a result with watched regions says.
pub open spec fn watched_result(r: Result<Vec<WatchedRegion>, ConfigError>) -> Result<
    Seq<WatchedRegionView>,
    ConfigErrorView,
> {
    match r {
        Ok(regions) => Ok(watched_views(regions@)),
        Err(e) => Err(e@),
    }
}

/// One for an option that holds something, zero for one that does not.
pub open spec fn one_if_some<T>(o: Option<T>) -> int {
    if o is Some {
        1
    } else {
        0
    }
}

impl RegionConfig {
    /// How many shapes the entry specifies.
    pub open spec fn shape_count(self) -> int {
        one_if_some(self.circle) + one_if_some(self.polygon) + one_if_some(self.bbox) + one_if_some(
            self.geojson,
        )
    }

    /// The entry's name and altitude band on a region.
    pub open spec fn watch(self, region: RegionView) -> WatchedRegionView {
        WatchedRegionView {
            name: self.name@,
            region,
            min_alt_ft: self.min_alt_ft,
            max_alt_ft: self.max_alt_ft,
        }
    }

    /// The regions of the one shape that the entry specifies, given the regions of its GeoJSON.
    pub open spec fn shape_regions(
        self,
        from_geojson: Result<Seq<RegionView>, GeoErrorView>,
    ) -> Result<Seq<RegionView>, GeoErrorView> {
        if self.circle is Some {
            let c = self.circle->0;
            Ok(seq![RegionView::Circle { lat: c.lat, lon: c.lon, radius_nm: c.radius_nm }])
        } else if self.polygon is Some {
            Ok(
                seq![
                    RegionView::Polygon {
                        exterior: self.polygon->0@.map_values(|p: [Double; 2]| (p@[0], p@[1])),
                        holes: Seq::empty(),
                    },
                ],
            )
        } else if self.bbox is Some {
            let b = self.bbox->0;
            Ok(
                seq![
                    RegionView::BBox {
                        min_lat: b.min_lat,
                        min_lon: b.min_lon,
                        max_lat: b.max_lat,
                        max_lon: b.max_lon,
                    },
                ],
            )
        } else {
            from_geojson
        }
    }

    /// The watched regions of the entry, given the regions of its GeoJSON.
    pub open spec fn expanded(
        self,
        from_geojson: Result<Seq<RegionView>, GeoErrorView>,
    ) -> Result<Seq<WatchedRegionView>, ConfigErrorView> {
        if self.shape_count() != 1 {
            Err(ConfigErrorView::ShapeCount { name: self.name@, found: self.shape_count() })
        } else {
            match self.shape_regions(from_geojson) {
                Ok(regions) => Ok(regions.map_values(|r: RegionView| self.watch(r))),
                Err(cause) => Err(ConfigErrorView::Geojson { name: self.name@, cause }),
            }
        }
    }

    /// The regions that the entry's GeoJSON describes.
    pub open spec fn geojson_result(self) -> Result<Seq<RegionView>, GeoErrorView> {
        geojson_regions(geojson_document(self.geojson->0@))
    }

    /// The watched regions of the entry.
    pub open spec fn resolved(self) -> Result<Seq<WatchedRegionView>, ConfigErrorView> {
        self.expanded(self.geojson_result())
    }

    /// Puts the entry's name and altitude band on each of the given regions.
    fn watch_all(&self, regions: Vec<Region>) -> (r: Vec<WatchedRegion>)
        ensures
            watched_views(r@) == region_views(regions@).map_values(|x: RegionView| self.watch(x)),
    {
        let ghost all = regions@;
        let mut out: Vec<WatchedRegion> = Vec::new();
        for region in it: regions
            invariant
                it.seq() == all,
                out@.len() == it.index(),
                forall|i: int| 0 <= i < out@.len() ==> #[trigger] out@[i]@ == self.watch(all[i]@),
        {
            out.push(
                WatchedRegion {
                    name: self.name.clone(),
                    region,
                    min_alt_ft: self.min_alt_ft,
                    max_alt_ft: self.max_alt_ft,
                },
            );
        }
        proof {
            assert(watched_views(out@) =~= region_views(all).map_values(
                |x: RegionView| self.watch(x),
            ));
        }
        out
    }

    /// Expand this entry, given what its GeoJSON describes where that is its shape. The altitude
    /// band applies to every region produced. Errors if zero or more than one shape is specified.
    pub fn expand(&self, from_geojson: Result<Vec<Region>, GeoError>) -> (r: Result<
        Vec<WatchedRegion>,
        ConfigError,
    >)
        ensures
            watched_result(r) == self.expanded(regions_result(from_geojson)),
    {
        let mut specified: u8 = 0;
        if self.circle.is_some() {
            specified = specified + 1;
        }
        if self.polygon.is_some() {
            specified = specified + 1;
        }
        if self.bbox.is_some() {
            specified = specified + 1;
        }
        if self.geojson.is_some() {
            specified = specified + 1;
        }
        if specified != 1 {
            return Err(ConfigError::ShapeCount { name: self.name.clone(), found: specified });
        }
        let mut regions: Vec<Region> = Vec::new();
        if let Some(c) = &self.circle {
            regions.push(Region::Circle { lat: c.lat, lon: c.lon, radius_nm: c.radius_nm });
            proof {
                assert(region_views(regions@) =~= self.shape_regions(
                    regions_result(from_geojson),
                )->Ok_0);
            }
            return Ok(self.watch_all(regions));
        }
        if let Some(p) = &self.polygon {
            let mut exterior: Vec<(Double, Double)> = Vec::new();
            let ghost vertices: RingView = p@.map_values(|x: [Double; 2]| (x@[0], x@[1]));
            let mut i: usize = 0;
            while i < p.len()
                invariant
                    i <= p@.len(),
                    vertices == p@.map_values(|x: [Double; 2]| (x@[0], x@[1])),
                    exterior@ == vertices.take(i as int),
                decreases p@.len() - i,
            {
                let vertex: [Double; 2] = p[i];
                exterior.push((vertex[0], vertex[1]));
                proof {
                    assert(exterior@ =~= vertices.take(i + 1));
                }
                i = i + 1;
            }
            let holes: Vec<Vec<(Double, Double)>> = Vec::new();
            proof {
                assert(exterior@ =~= vertices);
                assert(holes@.map_values(|h: Vec<(Double, Double)>| h@) =~= Seq::empty());
            }
            regions.push(Region::Polygon { exterior, holes });
            proof {
                assert(region_views(regions@) =~= self.shape_regions(
                    regions_result(from_geojson),
                )->Ok_0);
            }
            return Ok(self.watch_all(regions));
        }
        if let Some(b) = &self.bbox {
            regions.push(
                Region::BBox {
                    min_lat: b.min_lat,
                    min_lon: b.min_lon,
                    max_lat: b.max_lat,
                    max_lon: b.max_lon,
                },
            );
            proof {
                assert(region_views(regions@) =~= self.shape_regions(
                    regions_result(from_geojson),
                )->Ok_0);
            }
            return Ok(self.watch_all(regions));
        }
        match from_geojson {
            Ok(found) => Ok(self.watch_all(found)),
            Err(cause) => Err(ConfigError::Geojson { name: self.name.clone(), cause }),
        }
    }

    /// The watched regions of this entry (see [`RegionConfig::into_regions`]).
    fn regions(&self) -> (r: Result<Vec<WatchedRegion>, ConfigError>)
        ensures
            watched_result(r) == self.resolved(),
    {
        match &self.geojson {
            Some(content) => {
                let found = Region::from_geojson(content.as_str());
                self.expand(found)
            },
            None => self.expand(Ok(Vec::new())),
        }
    }

    /// Expand this config entry into one or more watched regions (GeoJSON `MultiPolygon` yields
    /// several). The altitude band applies to every region produced. Errors if zero or more than
    /// one shape is specified.
    pub fn into_regions(self) -> (r: Result<Vec<WatchedRegion>, ConfigError>)
        ensures
            watched_result(r) == self.resolved(),
    {
        self.regions()
    }
}

/// The watched regions of several entries, in order, or the error of the first that has one.
pub open spec fn flattened(
    entries: Seq<Result<Seq<WatchedRegionView>, ConfigErrorView>>,
) -> Result<Seq<WatchedRegionView>, ConfigErrorView>
    decreases entries.len(),
{
    if entries.len() == 0 {
        Ok(Seq::empty())
    } else {
        match (flattened(entries.drop_last()), entries.last()) {
            (Err(e), _) => Err(e),
            (Ok(_), Err(e)) => Err(e),
            (Ok(some), Ok(more)) => Ok(some + more),
        }
    }
}

/// Further entries do not change an error.
proof fn lemma_first_error_stays(
    entries: Seq<Result<Seq<WatchedRegionView>, ConfigErrorView>>,
    n: int,
)
    requires
        0 <= n <= entries.len(),
        flattened(entries.take(n)) is Err,
    ensures
        flattened(entries) == flattened(entries.take(n)),
    decreases entries.len() - n,
{
    if n == entries.len() {
        assert(entries.take(n) =~= entries);
    } else {
        assert(entries.take(n + 1).drop_last() =~= entries.take(n));
        lemma_first_error_stays(entries, n + 1);
    }
}

/// The regions to watch: those of the entries, of which there has to be at least one.
pub open spec fn at_least_one(
    regions: Result<Seq<WatchedRegionView>, ConfigErrorView>,
) -> Result<Seq<WatchedRegionView>, ConfigErrorView> {
    match regions {
        Ok(found) => if found.len() == 0 {
            Err(ConfigErrorView::NoRegions)
        } else {
            Ok(found)
        },
        Err(e) => Err(e),
    }
}

impl Config {
    /// The watched regions of all entries.
    pub open spec fn resolved_regions(self) -> Result<Seq<WatchedRegionView>, ConfigErrorView> {
        at_least_one(flattened(self.regions@.map_values(|rc: RegionConfig| rc.resolved())))
    }

    /// Flatten all region configs into resolved watched regions.
    pub fn resolve_regions(&self) -> (r: Result<Vec<WatchedRegion>, ConfigError>)
        ensures
            watched_result(r) == self.resolved_regions(),
    {
        let ghost entries = self.regions@.map_values(|rc: RegionConfig| rc.resolved());
        let mut out: Vec<WatchedRegion> = Vec::new();
        let mut i: usize = 0;
        proof {
            assert(entries.take(0) =~= Seq::empty());
            assert(watched_views(out@) =~= Seq::empty());
        }
        while i < self.regions.len()
            invariant
                i <= self.regions@.len(),
                entries == self.regions@.map_values(|rc: RegionConfig| rc.resolved()),
                flattened(entries.take(i as int)) == Ok::<Seq<WatchedRegionView>, ConfigErrorView>(
                    watched_views(out@),
                ),
            decreases self.regions@.len() - i,
        {
            proof {
                assert(entries.take(i + 1).drop_last() =~= entries.take(i as int));
                assert(entries.take(i + 1).last() == self.regions@[i as int].resolved());
            }
            match self.regions[i].regions() {
                Ok(found) => {
                    let ghost before = out@;
                    let ghost more = found@;
                    let mut found: Vec<WatchedRegion> = found;
                    out.append(&mut found);
                    proof {
                        assert(watched_views(out@) =~= watched_views(before) + watched_views(more));
                    }
                },
                Err(e) => {
                    proof {
                        lemma_first_error_stays(entries, i + 1);
                    }
                    return Err(e);
                },
            }
            i = i + 1;
        }
        proof {
            assert(entries.take(i as int) =~= entries);
        }
        if out.len() == 0 {
            return Err(ConfigError::NoRegions);
        }
        Ok(out)
    }

    /// Override secrets from the environment: the AeroDataBox key, where the environment has one
    /// that is not blank.
    pub fn apply_env_secrets(&mut self, aerodatabox_api_key: Option<String>)
        ensures
            final(self).poll_interval_secs == old(self).poll_interval_secs,
            final(self).source == old(self).source,
            final(self).regions == old(self).regions,
            final(self).enrich.adsbdb == old(self).enrich.adsbdb,
            final(self).enrich.aerodatabox_host == old(self).enrich.aerodatabox_host,
            final(self).enrich.aerodatabox_key == match aerodatabox_api_key {
                Some(key) if trimmed(key@).len() > 0 => Some(key),
                _ => old(self).enrich.aerodatabox_key,
            },
    {
        if let Some(key) = aerodatabox_api_key {
            if !trim(key.as_str()).is_empty() {
                self.enrich.aerodatabox_key = Some(key);
            }
        }
    }
}

/// An entry that specifies no shape, or more than one, is rejected for it, whatever else it says.
pub proof fn law_exactly_one_shape(entry: RegionConfig)
    ensures
        entry.shape_count() != 1 <==> entry.resolved() == Err::<
            Seq<WatchedRegionView>,
            ConfigErrorView,
        >(ConfigErrorView::ShapeCount { name: entry.name@, found: entry.shape_count() }),
{
}

/// The name and the altitude band of an entry apply to every region that it produces, and it
/// produces at least one.
pub proof fn law_band_applies_to_every_region(entry: RegionConfig)
    requires
        entry.resolved() is Ok,
    ensures
        entry.resolved()->Ok_0.len() > 0,
        forall|i: int|
            0 <= i < entry.resolved()->Ok_0.len() ==> {
                &&& (#[trigger] entry.resolved()->Ok_0[i]).name == entry.name@
                &&& entry.resolved()->Ok_0[i].min_alt_ft == entry.min_alt_ft
                &&& entry.resolved()->Ok_0[i].max_alt_ft == entry.max_alt_ft
            },
{
    if entry.circle is None && entry.polygon is None && entry.bbox is None {
        let document = geojson_document(entry.geojson->0@)->Ok_0;
        law_every_polygon_becomes_a_region(document.shapes());
    }
}

/// Only a GeoJSON shape can describe several regions: any other is a region by itself.
pub proof fn law_plain_shape_is_one_region(entry: RegionConfig)
    requires
        entry.shape_count() == 1,
        entry.geojson is None,
    ensures
        entry.resolved() is Ok,
        entry.resolved()->Ok_0.len() == 1,
{
}

/// Where a configuration resolves, every entry does, and all of its regions are watched.
pub proof fn law_every_entry_is_watched(config: Config, k: int)
    requires
        config.resolved_regions() is Ok,
        0 <= k < config.regions@.len(),
    ensures
        config.regions@[k].resolved() is Ok,
        forall|i: int|
            0 <= i < config.regions@[k].resolved()->Ok_0.len()
                ==> config.resolved_regions()->Ok_0.contains(
                #[trigger] config.regions@[k].resolved()->Ok_0[i],
            ),
{
    lemma_flattened(config.regions@.map_values(|rc: RegionConfig| rc.resolved()), k);
}

proof fn lemma_flattened(entries: Seq<Result<Seq<WatchedRegionView>, ConfigErrorView>>, k: int)
    requires
        flattened(entries) is Ok,
        0 <= k < entries.len(),
    ensures
        entries[k] is Ok,
        forall|i: int|
            0 <= i < entries[k]->Ok_0.len() ==> flattened(entries)->Ok_0.contains(
                #[trigger] entries[k]->Ok_0[i],
            ),
    decreases entries.len(),
{
    let rest = entries.drop_last();
    let some = flattened(rest)->Ok_0;
    if k < rest.len() {
        lemma_flattened(rest, k);
        assert forall|i: int| 0 <= i < entries[k]->Ok_0.len() implies flattened(
            entries,
        )->Ok_0.contains(#[trigger] entries[k]->Ok_0[i]) by {
            let w = rest[k]->Ok_0[i];
            let j = choose|j: int| 0 <= j < some.len() && some[j] == w;
            assert(flattened(entries)->Ok_0[j] == w);
        }
    } else {
        assert forall|i: int| 0 <= i < entries[k]->Ok_0.len() implies flattened(
            entries,
        )->Ok_0.contains(#[trigger] entries[k]->Ok_0[i]) by {
            assert(flattened(entries)->Ok_0[some.len() + i] == entries[k]->Ok_0[i]);
        }
    }
}

} // verus!
