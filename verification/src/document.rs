//! GeoJSON documents, and the regions that they describe.
use crate::double::Double;
use crate::geo::{Region, RegionView, RingView};
use geojson::{GeoJson, Geometry, PolygonType, Value};
use vstd::prelude::*;
use vstd::string::*;

verus! {

/// A GeoJSON geometry. A position is `[lon, lat, (elevation)]`, a ring is a list of positions,
/// and a polygon is a list of rings: first the exterior, then the holes.
#[derive(Debug)]
pub enum Shape {
    Point,
    MultiPoint,
    LineString,
    MultiLineString,
    Polygon(Vec<Vec<Vec<Double>>>),
    MultiPolygon(Vec<Vec<Vec<Vec<Double>>>>),
    GeometryCollection,
}

/// The positions of a ring.
pub type PositionsView = Seq<Seq<Double>>;

/// What a [`Shape`] says, with its lists as sequences.
pub enum ShapeView {
    Point,
    MultiPoint,
    LineString,
    MultiLineString,
    Polygon(Seq<PositionsView>),
    MultiPolygon(Seq<Seq<PositionsView>>),
    GeometryCollection,
}

/// The positions of a ring, as a sequence of sequences.
pub open spec fn positions(ring: Vec<Vec<Double>>) -> PositionsView {
    ring@.map_values(|p: Vec<Double>| p@)
}

/// The rings of a polygon, as sequences.
pub open spec fn rings(polygon: Vec<Vec<Vec<Double>>>) -> Seq<PositionsView> {
    polygon@.map_values(|r: Vec<Vec<Double>>| positions(r))
}

impl View for Shape {
    type V = ShapeView;

    open spec fn view(&self) -> ShapeView {
        match *self {
            Shape::Point => ShapeView::Point,
            Shape::MultiPoint => ShapeView::MultiPoint,
            Shape::LineString => ShapeView::LineString,
            Shape::MultiLineString => ShapeView::MultiLineString,
            Shape::Polygon(polygon) => ShapeView::Polygon(rings(polygon)),
            Shape::MultiPolygon(polygons) => ShapeView::MultiPolygon(
                polygons@.map_values(|p: Vec<Vec<Vec<Double>>>| rings(p)),
            ),
            Shape::GeometryCollection => ShapeView::GeometryCollection,
        }
    }
}

/// A geometry of the `geojson` crate.
#[verifier::external_type_specification]
#[verifier::external_body]
pub struct ExGeometry(geojson::Geometry);

/// The positions that a geometry of the `geojson` crate holds, and their arrangement.
pub uninterp spec fn shape_of(geometry: geojson::Geometry) -> ShapeView;

/// Reads the positions out of a `geojson::Geometry`, each coordinate by its bits (`f64::to_bits`):
/// claims that the result is what the geometry holds.
#[verifier::external_body]
fn open_geometry(geometry: &Geometry) -> (r: Shape)
    ensures
        r@ == shape_of(*geometry),
{
    let polygon = |rings: &PolygonType| rings.iter().map(|r| r.iter().map(|p|
        p.iter().map(|c| Double { bits: c.to_bits() }).collect()).collect()).collect();
    match &geometry.value {
        Value::Point(_) => Shape::Point,
        Value::MultiPoint(_) => Shape::MultiPoint,
        Value::LineString(_) => Shape::LineString,
        Value::MultiLineString(_) => Shape::MultiLineString,
        Value::Polygon(p) => Shape::Polygon(polygon(p)),
        Value::MultiPolygon(ps) => Shape::MultiPolygon(ps.iter().map(polygon).collect()),
        Value::GeometryCollection(_) => Shape::GeometryCollection,
    }
}

/// A GeoJSON document: a bare geometry, a feature, or a collection of features.
enum Document {
    Geometry(Geometry),
    Feature(Option<Geometry>),
    FeatureCollection(Vec<Option<Geometry>>),
}

/// What a GeoJSON document says.
pub enum DocumentView {
    Geometry(ShapeView),
    Feature(Option<ShapeView>),
    FeatureCollection(Seq<Option<ShapeView>>),
}

/// What an optional geometry of the `geojson` crate holds.
spec fn optional_shape(geometry: Option<Geometry>) -> Option<ShapeView> {
    match geometry {
        Some(g) => Some(shape_of(g)),
        None => None,
    }
}

impl Document {
    spec fn says(self) -> DocumentView {
        match self {
            Document::Geometry(g) => DocumentView::Geometry(shape_of(g)),
            Document::Feature(g) => DocumentView::Feature(optional_shape(g)),
            Document::FeatureCollection(gs) => DocumentView::FeatureCollection(
                gs@.map_values(|g: Option<Geometry>| optional_shape(g)),
            ),
        }
    }
}

/// What a text says as a GeoJSON document, or why it is none.
pub uninterp spec fn geojson_document(content: Seq<char>) -> Result<DocumentView, Seq<char>>;

/// `geojson::GeoJson::from_str`: claims that the document, or the text of the error, depends on
/// the content alone.
#[verifier::external_body]
fn parse_document(content: &str) -> (r: Result<Document, String>)
    ensures
        match r {
            Ok(document) => geojson_document(content@) == Ok::<DocumentView, Seq<char>>(
                document.says(),
            ),
            Err(reason) => geojson_document(content@) == Err::<DocumentView, Seq<char>>(reason@),
        },
{
    match content.parse() {
        Ok(GeoJson::Geometry(g)) => Ok(Document::Geometry(g)),
        Ok(GeoJson::Feature(f)) => Ok(Document::Feature(f.geometry)),
        Ok(GeoJson::FeatureCollection(c)) => Ok(
            Document::FeatureCollection(c.features.into_iter().map(|f| f.geometry).collect()),
        ),
        Err(e) => Err(e.to_string()),
    }
}

/// The geometries among optional ones, in order.
pub open spec fn present(geometries: Seq<Option<ShapeView>>) -> Seq<ShapeView>
    decreases geometries.len(),
{
    if geometries.len() == 0 {
        Seq::empty()
    } else {
        match geometries.last() {
            Some(shape) => present(geometries.drop_last()).push(shape),
            None => present(geometries.drop_last()),
        }
    }
}

impl DocumentView {
    /// Every geometry of the document, whether it stands at the top level, in a feature, or in a
    /// collection of features. Features may have none.
    pub open spec fn shapes(self) -> Seq<ShapeView> {
        match self {
            DocumentView::Geometry(shape) => seq![shape],
            DocumentView::Feature(shape) => present(seq![shape]),
            DocumentView::FeatureCollection(shapes) => present(shapes),
        }
    }
}

/// What a list of shapes says.
pub open spec fn shape_views(shapes: Seq<Shape>) -> Seq<ShapeView> {
    shapes.map_values(|s: Shape| s@)
}

impl Document {
    /// Every geometry of the document (see [`DocumentView::shapes`]).
    fn shapes(&self) -> (r: Vec<Shape>)
        ensures
            shape_views(r@) == self.says().shapes(),
    {
        let mut shapes: Vec<Shape> = Vec::new();
        match self {
            Document::Geometry(geometry) => {
                shapes.push(open_geometry(geometry));
                proof {
                    assert(shape_views(shapes@) =~= self.says().shapes());
                }
            },
            Document::Feature(geometry) => {
                if let Some(g) = geometry {
                    shapes.push(open_geometry(g));
                }
                proof {
                    reveal_with_fuel(present, 2);
                    assert(seq![optional_shape(*geometry)].drop_last() =~= Seq::empty());
                    assert(shape_views(shapes@) =~= self.says().shapes());
                }
            },
            Document::FeatureCollection(geometries) => {
                let ghost all = geometries@.map_values(|g: Option<Geometry>| optional_shape(g));
                let mut i: usize = 0;
                proof {
                    assert(shape_views(shapes@) =~= present(all.take(0)));
                }
                while i < geometries.len()
                    invariant
                        i <= geometries@.len(),
                        all == geometries@.map_values(|g: Option<Geometry>| optional_shape(g)),
                        shape_views(shapes@) == present(all.take(i as int)),
                    decreases geometries@.len() - i,
                {
                    let ghost before = shapes@;
                    if let Some(g) = &geometries[i] {
                        let shape = open_geometry(g);
                        shapes.push(shape);
                        proof {
                            assert(shape_views(shapes@) =~= shape_views(before).push(shape@));
                        }
                    }
                    proof {
                        assert(all.take(i + 1).drop_last() =~= all.take(i as int));
                    }
                    i = i + 1;
                }
                proof {
                    assert(all.take(i as int) =~= all);
                }
            },
        }
        shapes
    }
}

/// Why a GeoJSON text describes no regions.
#[derive(Debug)]
pub enum GeoError {
    /// The text is not GeoJSON, for the given reason.
    Parse(String),
    /// A position has fewer than two coordinates.
    ShortPosition,
    /// A polygon has no rings.
    NoRings,
    /// A geometry is neither `Polygon` nor `MultiPolygon` but of the named type.
    Unsupported(String),
    /// There is no geometry.
    NoPolygons,
}

/// What a [`GeoError`] says.
pub enum GeoErrorView {
    Parse(Seq<char>),
    ShortPosition,
    NoRings,
    Unsupported(Seq<char>),
    NoPolygons,
}

impl View for GeoError {
    type V = GeoErrorView;

    open spec fn view(&self) -> GeoErrorView {
        match *self {
            GeoError::Parse(reason) => GeoErrorView::Parse(reason@),
            GeoError::ShortPosition => GeoErrorView::ShortPosition,
            GeoError::NoRings => GeoErrorView::NoRings,
            GeoError::Unsupported(name) => GeoErrorView::Unsupported(name@),
            GeoError::NoPolygons => GeoErrorView::NoPolygons,
        }
    }
}

impl GeoErrorView {
    /// The error as it is shown.
    pub open spec fn text(self) -> Seq<char> {
        match self {
            GeoErrorView::Parse(reason) => "parsing inline geojson: "@ + reason,
            GeoErrorView::ShortPosition => "geojson position must have at least [lon, lat]"@,
            GeoErrorView::NoRings => "geojson polygon has no rings"@,
            GeoErrorView::Unsupported(name) =>
                "geojson geometry must be Polygon or MultiPolygon, got "@ + name,
            GeoErrorView::NoPolygons => "geojson contained no Polygon/MultiPolygon geometry"@,
        }
    }
}

impl GeoError {
    /// The error as it is shown.
    pub fn message(&self) -> (r: String)
        ensures
            r@ == self@.text(),
    {
        match self {
            GeoError::Parse(reason) => {
                let mut r = String::from_str("parsing inline geojson: ");
                r.append(reason.as_str());
                r
            },
            GeoError::ShortPosition => String::from_str(
                "geojson position must have at least [lon, lat]",
            ),
            GeoError::NoRings => String::from_str("geojson polygon has no rings"),
            GeoError::Unsupported(name) => {
                let mut r = String::from_str(
                    "geojson geometry must be Polygon or MultiPolygon, got ",
                );
                r.append(name.as_str());
                r
            },
            GeoError::NoPolygons => String::from_str(
                "geojson contained no Polygon/MultiPolygon geometry",
            ),
        }
    }
}

/// What a result with regions says.
pub open spec fn regions_result(r: Result<Vec<Region>, GeoError>) -> Result<
    Seq<RegionView>,
    GeoErrorView,
> {
    match r {
        Ok(regions) => Ok(region_views(regions@)),
        Err(e) => Err(e@),
    }
}

/// Whether some position of a ring has fewer than two coordinates.
pub open spec fn has_short_position(ring: PositionsView) -> bool {
    exists|i: int| 0 <= i < ring.len() && #[trigger] ring[i].len() < 2
}

/// The vertices of a ring. GeoJSON positions start with the longitude, vertices with the latitude.
pub open spec fn vertices(ring: PositionsView) -> RingView {
    ring.map_values(|p: Seq<Double>| (p[1], p[0]))
}

/// The region that the rings of a polygon describe: the first is the exterior, the rest are holes.
pub open spec fn polygon_region(rings: Seq<PositionsView>) -> Result<RegionView, GeoErrorView> {
    if rings.len() == 0 {
        Err(GeoErrorView::NoRings)
    } else if exists|i: int| 0 <= i < rings.len() && #[trigger] has_short_position(rings[i]) {
        Err(GeoErrorView::ShortPosition)
    } else {
        Ok(
            RegionView::Polygon {
                exterior: vertices(rings[0]),
                holes: rings.skip(1).map_values(|r: PositionsView| vertices(r)),
            },
        )
    }
}

/// The regions of several polygons, in order, or the error of the first that is no region.
pub open spec fn polygon_regions(polygons: Seq<Seq<PositionsView>>) -> Result<
    Seq<RegionView>,
    GeoErrorView,
>
    decreases polygons.len(),
{
    if polygons.len() == 0 {
        Ok(Seq::empty())
    } else {
        match (polygon_regions(polygons.drop_last()), polygon_region(polygons.last())) {
            (Err(e), _) => Err(e),
            (Ok(_), Err(e)) => Err(e),
            (Ok(regions), Ok(region)) => Ok(regions.push(region)),
        }
    }
}

impl ShapeView {
    /// The GeoJSON name of the geometry's type.
    pub open spec fn geojson_name(self) -> Seq<char> {
        match self {
            ShapeView::Point => "Point"@,
            ShapeView::MultiPoint => "MultiPoint"@,
            ShapeView::LineString => "LineString"@,
            ShapeView::MultiLineString => "MultiLineString"@,
            ShapeView::Polygon(_) => "Polygon"@,
            ShapeView::MultiPolygon(_) => "MultiPolygon"@,
            ShapeView::GeometryCollection => "GeometryCollection"@,
        }
    }

    /// The regions that the geometry describes: one of a `Polygon`, several of a `MultiPolygon`.
    pub open spec fn regions(self) -> Result<Seq<RegionView>, GeoErrorView> {
        match self {
            ShapeView::Polygon(polygon) => polygon_regions(seq![polygon]),
            ShapeView::MultiPolygon(polygons) => polygon_regions(polygons),
            _ => Err(GeoErrorView::Unsupported(self.geojson_name())),
        }
    }
}

/// The regions of several geometries, in order, or the error of the first that is none.
pub open spec fn all_regions(shapes: Seq<ShapeView>) -> Result<Seq<RegionView>, GeoErrorView>
    decreases shapes.len(),
{
    if shapes.len() == 0 {
        Ok(Seq::empty())
    } else {
        match (all_regions(shapes.drop_last()), shapes.last().regions()) {
            (Err(e), _) => Err(e),
            (Ok(_), Err(e)) => Err(e),
            (Ok(some), Ok(more)) => Ok(some + more),
        }
    }
}

/// The regions that a document's geometries describe; there has to be at least one.
pub open spec fn described_regions(shapes: Seq<ShapeView>) -> Result<Seq<RegionView>, GeoErrorView> {
    match all_regions(shapes) {
        Ok(regions) => if regions.len() == 0 {
            Err(GeoErrorView::NoPolygons)
        } else {
            Ok(regions)
        },
        Err(e) => Err(e),
    }
}

impl Shape {
    /// The GeoJSON name of the geometry's type.
    pub fn geojson_name(&self) -> (r: &'static str)
        ensures
            r@ == self@.geojson_name(),
    {
        match self {
            Shape::Point => "Point",
            Shape::MultiPoint => "MultiPoint",
            Shape::LineString => "LineString",
            Shape::MultiLineString => "MultiLineString",
            Shape::Polygon(_) => "Polygon",
            Shape::MultiPolygon(_) => "MultiPolygon",
            Shape::GeometryCollection => "GeometryCollection",
        }
    }
}

/// The vertices of a ring, unless a position lacks a coordinate.
fn to_ring(ring: &Vec<Vec<Double>>) -> (r: Result<Vec<(Double, Double)>, GeoError>)
    ensures
        match r {
            Ok(v) => !has_short_position(positions(*ring)) && v@ == vertices(positions(*ring)),
            Err(e) => has_short_position(positions(*ring)) && e == GeoError::ShortPosition,
        },
{
    let mut out: Vec<(Double, Double)> = Vec::new();
    let mut i: usize = 0;
    while i < ring.len()
        invariant
            i <= ring@.len(),
            forall|k: int| 0 <= k < i ==> #[trigger] positions(*ring)[k].len() >= 2,
            out@ == vertices(positions(*ring)).take(i as int),
        decreases ring@.len() - i,
    {
        let position = &ring[i];
        if position.len() < 2 {
            proof {
                assert(positions(*ring)[i as int].len() < 2);
            }
            return Err(GeoError::ShortPosition);
        }
        out.push((position[1], position[0]));
        proof {
            assert(positions(*ring)[i as int] == position@);
            assert(out@ =~= vertices(positions(*ring)).take(i + 1));
        }
        i = i + 1;
    }
    proof {
        assert(vertices(positions(*ring)).take(i as int) =~= vertices(positions(*ring)));
    }
    Ok(out)
}

/// The region that the rings of a polygon describe.
pub fn polygon_to_region(polygon: &Vec<Vec<Vec<Double>>>) -> (r: Result<Region, GeoError>)
    ensures
        match r {
            Ok(region) => polygon_region(rings(*polygon)) == Ok::<RegionView, GeoErrorView>(
                region@,
            ),
            Err(e) => polygon_region(rings(*polygon)) == Err::<RegionView, GeoErrorView>(e@),
        },
{
    if polygon.len() == 0 {
        return Err(GeoError::NoRings);
    }
    let ghost all = rings(*polygon);
    let exterior = match to_ring(&polygon[0]) {
        Ok(ring) => ring,
        Err(e) => {
            proof {
                assert(has_short_position(all[0]));
            }
            return Err(e);
        },
    };
    let mut holes: Vec<Vec<(Double, Double)>> = Vec::new();
    let mut i: usize = 1;
    while i < polygon.len()
        invariant
            all == rings(*polygon),
            1 <= i <= polygon@.len(),
            exterior@ == vertices(all[0]),
            forall|k: int| 0 <= k < i ==> !#[trigger] has_short_position(all[k]),
            holes@.len() == i - 1,
            forall|k: int| 0 <= k < holes@.len() ==> #[trigger] holes@[k]@ == vertices(all[k + 1]),
        decreases polygon@.len() - i,
    {
        match to_ring(&polygon[i]) {
            Ok(ring) => {
                holes.push(ring);
            },
            Err(e) => {
                proof {
                    assert(has_short_position(all[i as int]));
                }
                return Err(e);
            },
        }
        i = i + 1;
    }
    proof {
        assert(holes@.map_values(|h: Vec<(Double, Double)>| h@) =~= all.skip(1).map_values(
            |r: PositionsView| vertices(r),
        ));
    }
    Ok(Region::Polygon { exterior, holes })
}

/// What a list of regions says.
pub open spec fn region_views(regions: Seq<Region>) -> Seq<RegionView> {
    regions.map_values(|x: Region| x@)
}

/// Appends the regions of a geometry to those found so far.
fn push_regions(shape: &Shape, regions: &mut Vec<Region>) -> (r: Result<(), GeoError>)
    ensures
        match r {
            Ok(_) => shape@.regions() is Ok && region_views(final(regions)@) == region_views(
                old(regions)@,
            ) + shape@.regions()->Ok_0,
            Err(e) => shape@.regions() == Err::<Seq<RegionView>, GeoErrorView>(e@),
        },
{
    let ghost start = region_views(regions@);
    match shape {
        Shape::Polygon(polygon) => {
            proof {
                reveal_with_fuel(polygon_regions, 2);
                assert(seq![rings(*polygon)].drop_last() =~= Seq::empty());
            }
            let region = polygon_to_region(polygon)?;
            regions.push(region);
            proof {
                assert(region_views(regions@) =~= start + seq![region@]);
                assert(Seq::<RegionView>::empty().push(region@) =~= seq![region@]);
            }
            Ok(())
        },
        Shape::MultiPolygon(polygons) => {
            let ghost all = polygons@.map_values(|p: Vec<Vec<Vec<Double>>>| rings(p));
            let mut i: usize = 0;
            proof {
                assert(all.take(0) =~= Seq::empty());
                assert(start + Seq::<RegionView>::empty() =~= start);
            }
            while i < polygons.len()
                invariant
                    i <= polygons@.len(),
                    all == polygons@.map_values(|p: Vec<Vec<Vec<Double>>>| rings(p)),
                    shape@ == ShapeView::MultiPolygon(all),
                    polygon_regions(all.take(i as int)) is Ok,
                    region_views(regions@) == start + polygon_regions(all.take(i as int))->Ok_0,
                decreases polygons@.len() - i,
            {
                proof {
                    assert(all.take(i + 1).drop_last() =~= all.take(i as int));
                    assert(all.take(i + 1).last() == rings(polygons@[i as int]));
                }
                let ghost before = regions@;
                match polygon_to_region(&polygons[i]) {
                    Ok(region) => {
                        regions.push(region);
                        proof {
                            assert(region_views(regions@) =~= region_views(before).push(region@));
                            assert(region_views(regions@) =~= start + polygon_regions(
                                all.take(i + 1),
                            )->Ok_0);
                        }
                    },
                    Err(e) => {
                        proof {
                            lemma_first_error_stays(all, i + 1);
                        }
                        return Err(e);
                    },
                }
                i = i + 1;
            }
            proof {
                assert(all.take(i as int) =~= all);
            }
            Ok(())
        },
        _ => Err(GeoError::Unsupported(String::from_str(shape.geojson_name()))),
    }
}

/// Further polygons do not change an error.
proof fn lemma_first_error_stays(polygons: Seq<Seq<PositionsView>>, n: int)
    requires
        0 <= n <= polygons.len(),
        polygon_regions(polygons.take(n)) is Err,
    ensures
        polygon_regions(polygons) == polygon_regions(polygons.take(n)),
    decreases polygons.len() - n,
{
    if n == polygons.len() {
        assert(polygons.take(n) =~= polygons);
    } else {
        assert(polygons.take(n + 1).drop_last() =~= polygons.take(n));
        lemma_first_error_stays(polygons, n + 1);
    }
}

/// Further geometries do not change an error.
proof fn lemma_first_shape_error_stays(shapes: Seq<ShapeView>, n: int)
    requires
        0 <= n <= shapes.len(),
        all_regions(shapes.take(n)) is Err,
    ensures
        all_regions(shapes) == all_regions(shapes.take(n)),
    decreases shapes.len() - n,
{
    if n == shapes.len() {
        assert(shapes.take(n) =~= shapes);
    } else {
        assert(shapes.take(n + 1).drop_last() =~= shapes.take(n));
        lemma_first_shape_error_stays(shapes, n + 1);
    }
}

/// The regions that a document's geometries describe.
pub fn regions_from_shapes(shapes: &Vec<Shape>) -> (r: Result<Vec<Region>, GeoError>)
    ensures
        regions_result(r) == described_regions(shape_views(shapes@)),
{
    let ghost all = shape_views(shapes@);
    let mut regions: Vec<Region> = Vec::new();
    let mut i: usize = 0;
    proof {
        assert(all.take(0) =~= Seq::empty());
        assert(region_views(regions@) =~= Seq::empty());
    }
    while i < shapes.len()
        invariant
            i <= shapes@.len(),
            all == shape_views(shapes@),
            all_regions(all.take(i as int)) == Ok::<Seq<RegionView>, GeoErrorView>(
                region_views(regions@),
            ),
        decreases shapes@.len() - i,
    {
        proof {
            assert(all.take(i + 1).drop_last() =~= all.take(i as int));
            assert(all.take(i + 1).last() == shapes@[i as int]@);
        }
        match push_regions(&shapes[i], &mut regions) {
            Ok(_) => {},
            Err(e) => {
                proof {
                    lemma_first_shape_error_stays(all, i + 1);
                }
                return Err(e);
            },
        }
        i = i + 1;
    }
    proof {
        assert(all.take(i as int) =~= all);
    }
    if regions.len() == 0 {
        return Err(GeoError::NoPolygons);
    }
    Ok(regions)
}

/// The regions that a GeoJSON text describes, given what the text says as a document.
pub open spec fn geojson_regions(parsed: Result<DocumentView, Seq<char>>) -> Result<
    Seq<RegionView>,
    GeoErrorView,
> {
    match parsed {
        Ok(document) => described_regions(document.shapes()),
        Err(reason) => Err(GeoErrorView::Parse(reason)),
    }
}

impl Region {
    /// Parse one or more `Region::Polygon`s from an inline GeoJSON string.
    ///
    /// Accepts a bare `Polygon`/`MultiPolygon` geometry, a `Feature`, or a `FeatureCollection`
    /// (as exported by geojson.io). Every `Polygon` becomes one region and every `MultiPolygon`
    /// expands to several. GeoJSON coordinates are `[lon, lat]`; regions have `(lat, lon)`. The
    /// first ring of each polygon is the exterior, the rest are holes. Only content that is given
    /// explicitly is accepted (no file paths).
    pub fn from_geojson(content: &str) -> (r: Result<Vec<Region>, GeoError>)
        ensures
            regions_result(r) == geojson_regions(geojson_document(content@)),
    {
        match parse_document(content) {
            Ok(document) => {
                let shapes = document.shapes();
                regions_from_shapes(&shapes)
            },
            Err(reason) => Err(GeoError::Parse(reason)),
        }
    }
}

/// How many polygons several geometries have: one for a `Polygon`, one for each part of a
/// `MultiPolygon`, and none for any other.
pub open spec fn polygon_count(shapes: Seq<ShapeView>) -> nat
    decreases shapes.len(),
{
    if shapes.len() == 0 {
        0
    } else {
        polygon_count(shapes.drop_last()) + match shapes.last() {
            ShapeView::Polygon(_) => 1,
            ShapeView::MultiPolygon(polygons) => polygons.len(),
            _ => 0,
        }
    }
}

/// Every `Polygon` becomes one region and every `MultiPolygon` expands to as many as it has
/// parts. All of them are polygon regions, and there is at least one.
pub proof fn law_every_polygon_becomes_a_region(shapes: Seq<ShapeView>)
    requires
        described_regions(shapes) is Ok,
    ensures
        described_regions(shapes)->Ok_0.len() == polygon_count(shapes),
        polygon_count(shapes) > 0,
        forall|i: int|
            0 <= i < described_regions(shapes)->Ok_0.len() ==> (
            #[trigger] described_regions(shapes)->Ok_0[i]) is Polygon,
{
    lemma_all_regions(shapes);
}

/// A document with a geometry that is neither a `Polygon` nor a `MultiPolygon` describes no
/// regions.
pub proof fn law_other_geometry_is_rejected(shapes: Seq<ShapeView>, i: int)
    requires
        0 <= i < shapes.len(),
        !(shapes[i] is Polygon || shapes[i] is MultiPolygon),
    ensures
        described_regions(shapes) is Err,
{
    let head = shapes.take(i + 1);
    assert(head.last() == shapes[i]);
    assert(all_regions(head) is Err);
    lemma_first_shape_error_stays(shapes, i + 1);
}

proof fn lemma_all_regions(shapes: Seq<ShapeView>)
    requires
        all_regions(shapes) is Ok,
    ensures
        all_regions(shapes)->Ok_0.len() == polygon_count(shapes),
        forall|i: int|
            0 <= i < all_regions(shapes)->Ok_0.len() ==> (
            #[trigger] all_regions(shapes)->Ok_0[i]) is Polygon,
    decreases shapes.len(),
{
    if shapes.len() > 0 {
        lemma_all_regions(shapes.drop_last());
        match shapes.last() {
            ShapeView::Polygon(polygon) => lemma_polygon_regions(seq![polygon]),
            ShapeView::MultiPolygon(polygons) => lemma_polygon_regions(polygons),
            _ => {},
        }
    }
}

proof fn lemma_polygon_regions(polygons: Seq<Seq<PositionsView>>)
    requires
        polygon_regions(polygons) is Ok,
    ensures
        polygon_regions(polygons)->Ok_0.len() == polygons.len(),
        forall|i: int|
            0 <= i < polygon_regions(polygons)->Ok_0.len() ==> (
            #[trigger] polygon_regions(polygons)->Ok_0[i]) is Polygon,
    decreases polygons.len(),
{
    if polygons.len() > 0 {
        lemma_polygon_regions(polygons.drop_last());
    }
}

} // verus!
