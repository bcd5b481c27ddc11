//! GeoJSON documents and the regions that they describe.
use crate::document::{
    all_regions, described_regions, geojson_regions, has_short_position, polygon_region,
    polygon_regions, present, vertices, DocumentView, GeoErrorView, PositionsView, ShapeView,
};
use crate::geo::{RegionView, RingView};
use vstd::prelude::*;

verus! {

/// The polygons of a geometry, each by its rings.
pub open spec fn parts(shape: ShapeView) -> Seq<Seq<PositionsView>> {
    match shape {
        ShapeView::Polygon(polygon) => seq![polygon],
        ShapeView::MultiPolygon(polygons) => polygons,
        _ => Seq::empty(),
    }
}

/// All polygons of several geometries, in order.
pub open spec fn all_parts(shapes: Seq<ShapeView>) -> Seq<Seq<PositionsView>> {
    shapes.map_values(|s: ShapeView| parts(s)).flatten()
}

/// Whether a ring has the given positions, vertex by vertex, with the latitude in front.
pub open spec fn ring_at(ring: RingView, places: PositionsView) -> bool {
    &&& ring.len() == places.len()
    &&& forall|i: int|
        #![trigger ring[i]]
        0 <= i < ring.len() ==> ring[i].0 == places[i][1] && ring[i].1 == places[i][0]
}

/// Whether a region is the polygon of the given rings: the first is its exterior, the further ones
/// are its holes, in order.
pub open spec fn region_at(region: RegionView, rings: Seq<PositionsView>) -> bool {
    &&& region is Polygon
    &&& ring_at(region->exterior, rings[0])
    &&& region->holes.len() == rings.len() - 1
    &&& forall|j: int|
        1 <= j < rings.len() ==> ring_at(region->holes[j - 1], #[trigger] rings[j])
}

/// Whether every ring of a polygon is there and every position has a longitude and a latitude.
pub open spec fn usable(rings: Seq<PositionsView>) -> bool {
    &&& rings.len() > 0
    &&& forall|j: int, i: int|
        #![trigger rings[j][i]]
        0 <= j < rings.len() && 0 <= i < rings[j].len() ==> rings[j][i].len() >= 2
}

/// The rings of one polygon become one region, vertex by vertex, or are refused for what they lack.
pub proof fn law_rings_become_a_region(rings: Seq<PositionsView>)
    ensures
        polygon_region(rings) is Ok <==> usable(rings),
        polygon_region(rings) is Ok ==> region_at(polygon_region(rings)->Ok_0, rings),
        rings.len() == 0 ==> polygon_region(rings) == Err::<RegionView, GeoErrorView>(
            GeoErrorView::NoRings,
        ),
        rings.len() > 0 && !usable(rings) ==> polygon_region(rings) == Err::<
            RegionView,
            GeoErrorView,
        >(GeoErrorView::ShortPosition),
{
    if polygon_region(rings) is Ok {
        assert forall|j: int, i: int|
            #![trigger rings[j][i]]
            0 <= j < rings.len() && 0 <= i < rings[j].len() implies rings[j][i].len() >= 2 by {
            assert(!has_short_position(rings[j]));
        }
        let region = polygon_region(rings)->Ok_0;
        assert forall|j: int| 1 <= j < rings.len() implies ring_at(
            region->holes[j - 1],
            #[trigger] rings[j],
        ) by {
            assert(rings.skip(1)[j - 1] == rings[j]);
            assert(region->holes[j - 1] == vertices(rings[j]));
        }
    } else if rings.len() > 0 {
        let j = choose|j: int| 0 <= j < rings.len() && #[trigger] has_short_position(rings[j]);
        let i = choose|i: int| 0 <= i < rings[j].len() && #[trigger] rings[j][i].len() < 2;
        assert(rings[j][i].len() < 2);
    }
}

/// Polygon by polygon: region `k` is polygon `k`, and there are as many as there are polygons.
proof fn lemma_polygons(polygons: Seq<Seq<PositionsView>>)
    ensures
        polygon_regions(polygons) is Ok <==> forall|k: int|
            0 <= k < polygons.len() ==> usable(#[trigger] polygons[k]),
        polygon_regions(polygons) matches Ok(regions) ==> regions.len() == polygons.len()
            && forall|k: int|
            0 <= k < polygons.len() ==> region_at(#[trigger] regions[k], polygons[k]),
    decreases polygons.len(),
{
    if polygons.len() > 0 {
        let rest = polygons.drop_last();
        lemma_polygons(rest);
        law_rings_become_a_region(polygons.last());
        assert(polygons.last() == polygons[polygons.len() - 1]);
        assert(forall|k: int| 0 <= k < rest.len() ==> rest[k] == polygons[k]);
        if polygon_regions(rest) is Err {
            let k = choose|k: int| 0 <= k < rest.len() && !usable(#[trigger] rest[k]);
            assert(!usable(polygons[k]));
        }
    }
}

/// Geometry by geometry: the regions are those of all polygons, in order.
proof fn lemma_shapes(shapes: Seq<ShapeView>)
    ensures
        all_regions(shapes) is Ok <==> (forall|s: int|
            0 <= s < shapes.len() ==> (#[trigger] shapes[s]) is Polygon || shapes[s] is MultiPolygon)
            && (forall|k: int|
            0 <= k < all_parts(shapes).len() ==> usable(#[trigger] all_parts(shapes)[k])),
        all_regions(shapes) matches Ok(regions) ==> regions.len() == all_parts(shapes).len()
            && forall|k: int|
            0 <= k < regions.len() ==> region_at(#[trigger] regions[k], all_parts(shapes)[k]),
    decreases shapes.len(),
{
    let lists = shapes.map_values(|s: ShapeView| parts(s));
    if shapes.len() > 0 {
        let rest = shapes.drop_last();
        let last = shapes.last();
        lemma_shapes(rest);
        lemma_polygons(parts(last));
        let before = all_parts(rest);
        let all = all_parts(shapes);
        assert(lists =~= rest.map_values(|s: ShapeView| parts(s)).push(parts(last)));
        rest.map_values(|s: ShapeView| parts(s)).lemma_flatten_push(parts(last));
        assert(all =~= before + parts(last));
        assert(last == shapes[shapes.len() - 1]);
        assert(forall|s: int| 0 <= s < rest.len() ==> rest[s] == shapes[s]);
        assert(forall|k: int| 0 <= k < before.len() ==> all[k] == before[k]);
        assert(forall|k: int|
            0 <= k < parts(last).len() ==> all[before.len() + k] == #[trigger] parts(last)[k]);
        if all_regions(shapes) is Ok {
            assert forall|k: int| 0 <= k < all.len() implies usable(#[trigger] all[k]) by {
                if k >= before.len() {
                    assert(all[k] == parts(last)[k - before.len()]);
                } else {
                    assert(all[k] == before[k]);
                }
            }
        } else if (forall|s: int|
            0 <= s < shapes.len() ==> (#[trigger] shapes[s]) is Polygon || shapes[s] is MultiPolygon)
            && (forall|k: int| 0 <= k < all.len() ==> usable(#[trigger] all[k])) {
            assert forall|k: int| 0 <= k < before.len() implies usable(#[trigger] before[k]) by {
                assert(all[k] == before[k]);
            }
            assert forall|k: int| 0 <= k < parts(last).len() implies usable(
                #[trigger] parts(last)[k],
            ) by {
                assert(all[before.len() + k] == parts(last)[k]);
            }
            assert forall|s: int| 0 <= s < rest.len() implies (#[trigger] rest[s]) is Polygon
                || rest[s] is MultiPolygon by {
                assert(rest[s] == shapes[s]);
            }
        }
    } else {
        assert(lists.flatten() =~= Seq::empty());
    }
}

/// The regions of a document are its polygons, each at its place: region `k` has the first ring of
/// polygon `k` as its exterior and the further rings as its holes, vertex by vertex.
pub proof fn law_regions_are_the_polygons(shapes: Seq<ShapeView>, k: int)
    requires
        described_regions(shapes) is Ok,
    ensures
        described_regions(shapes)->Ok_0.len() == all_parts(shapes).len(),
        0 <= k < all_parts(shapes).len() ==> region_at(
            described_regions(shapes)->Ok_0[k],
            all_parts(shapes)[k],
        ),
{
    lemma_shapes(shapes);
}

/// A single `MultiPolygon` gives a region for each part, with the rings of that part.
pub proof fn law_parts_of_a_multipolygon(polygons: Seq<Seq<PositionsView>>, k: int)
    requires
        described_regions(seq![ShapeView::MultiPolygon(polygons)]) is Ok,
        0 <= k < polygons.len(),
    ensures
        described_regions(seq![ShapeView::MultiPolygon(polygons)])->Ok_0.len() == polygons.len(),
        region_at(
            described_regions(seq![ShapeView::MultiPolygon(polygons)])->Ok_0[k],
            polygons[k],
        ),
{
    let shapes = seq![ShapeView::MultiPolygon(polygons)];
    law_regions_are_the_polygons(shapes, k);
    let lists = shapes.map_values(|s: ShapeView| parts(s));
    lists.lemma_flatten_one_element();
    assert(lists.first() == polygons);
}

/// A document describes regions exactly if all of its geometries are polygons of usable rings, and
/// there is at least one.
pub proof fn law_what_is_accepted(shapes: Seq<ShapeView>)
    ensures
        described_regions(shapes) is Ok <==> {
            &&& forall|s: int|
                0 <= s < shapes.len() ==> (#[trigger] shapes[s]) is Polygon
                    || shapes[s] is MultiPolygon
            &&& forall|k: int|
                0 <= k < all_parts(shapes).len() ==> usable(#[trigger] all_parts(shapes)[k])
            &&& all_parts(shapes).len() > 0
        },
        all_parts(shapes).len() == 0 && (forall|s: int|
            0 <= s < shapes.len() ==> (#[trigger] shapes[s]) is Polygon || shapes[s] is MultiPolygon)
            ==> described_regions(shapes) == Err::<Seq<RegionView>, GeoErrorView>(
            GeoErrorView::NoPolygons,
        ),
{
    lemma_shapes(shapes);
}

/// A geometry of another type is refused by its name, where nothing before it is refused.
pub proof fn law_other_types_are_named(before: Seq<ShapeView>, shape: ShapeView, after: Seq<ShapeView>)
    requires
        all_regions(before) is Ok,
        !(shape is Polygon || shape is MultiPolygon),
    ensures
        described_regions(before + seq![shape] + after) == Err::<Seq<RegionView>, GeoErrorView>(
            GeoErrorView::Unsupported(
                match shape {
                    ShapeView::Point => "Point"@,
                    ShapeView::MultiPoint => "MultiPoint"@,
                    ShapeView::LineString => "LineString"@,
                    ShapeView::MultiLineString => "MultiLineString"@,
                    _ => "GeometryCollection"@,
                },
            ),
        ),
{
    let head = before + seq![shape];
    assert(head.drop_last() =~= before);
    assert(head.last() == shape);
    lemma_error_stays(head, after);
}

/// What is refused stays refused for the same reason, whatever follows.
proof fn lemma_error_stays(head: Seq<ShapeView>, after: Seq<ShapeView>)
    requires
        all_regions(head) is Err,
    ensures
        all_regions(head + after) == all_regions(head),
        described_regions(head + after) == all_regions(head),
    decreases after.len(),
{
    if after.len() == 0 {
        assert(head + after =~= head);
    } else {
        lemma_error_stays(head, after.drop_last());
        assert((head + after).drop_last() =~= head + after.drop_last());
    }
}

/// A refused polygon refuses the document for what it lacks, where nothing before it is refused.
pub proof fn law_first_refusal_counts(
    before: Seq<ShapeView>,
    good: Seq<Seq<PositionsView>>,
    bad: Seq<PositionsView>,
    more: Seq<Seq<PositionsView>>,
    after: Seq<ShapeView>,
)
    requires
        all_regions(before) is Ok,
        forall|k: int| 0 <= k < good.len() ==> usable(#[trigger] good[k]),
        !usable(bad),
    ensures
        described_regions(
            before + seq![ShapeView::MultiPolygon(good + seq![bad] + more)] + after,
        ) == Err::<Seq<RegionView>, GeoErrorView>(
            if bad.len() == 0 {
                GeoErrorView::NoRings
            } else {
                GeoErrorView::ShortPosition
            },
        ),
{
    let shape = ShapeView::MultiPolygon(good + seq![bad] + more);
    law_rings_become_a_region(bad);
    lemma_polygons(good);
    let upto = good + seq![bad];
    assert(upto.drop_last() =~= good);
    assert(upto.last() == bad);
    lemma_polygon_error_stays(upto, more);
    let head = before + seq![shape];
    assert(head.drop_last() =~= before);
    assert(head.last() == shape);
    lemma_error_stays(head, after);
}

proof fn lemma_polygon_error_stays(
    head: Seq<Seq<PositionsView>>,
    more: Seq<Seq<PositionsView>>,
)
    requires
        polygon_regions(head) is Err,
    ensures
        polygon_regions(head + more) == polygon_regions(head),
    decreases more.len(),
{
    if more.len() == 0 {
        assert(head + more =~= head);
    } else {
        lemma_polygon_error_stays(head, more.drop_last());
        assert((head + more).drop_last() =~= head + more.drop_last());
    }
}

/// The geometries of a document are those that are there, in order: a bare one, that of a feature,
/// or those of the features of a collection.
pub proof fn law_geometries_of_a_document(
    shape: ShapeView,
    some: Seq<Option<ShapeView>>,
    more: Seq<Option<ShapeView>>,
)
    ensures
        DocumentView::Geometry(shape).shapes() == seq![shape],
        DocumentView::Feature(Some(shape)).shapes() == seq![shape],
        DocumentView::Feature(None).shapes().len() == 0,
        DocumentView::FeatureCollection(some + more).shapes() == DocumentView::FeatureCollection(
            some,
        ).shapes() + DocumentView::FeatureCollection(more).shapes(),
        DocumentView::FeatureCollection(seq![Some(shape)]).shapes() == seq![shape],
        DocumentView::FeatureCollection(seq![None]).shapes().len() == 0,
        DocumentView::FeatureCollection(Seq::empty()).shapes().len() == 0,
{
    reveal_with_fuel(present, 2);
    let one = seq![Some(shape)];
    let none = seq![None::<ShapeView>];
    assert(one.drop_last() =~= Seq::empty());
    assert(none.drop_last() =~= Seq::empty());
    assert(Seq::<ShapeView>::empty().push(shape) =~= seq![shape]);
    lemma_present_both(some, more);
}

proof fn lemma_present_both(some: Seq<Option<ShapeView>>, more: Seq<Option<ShapeView>>)
    ensures
        present(some + more) == present(some) + present(more),
    decreases more.len(),
{
    if more.len() == 0 {
        assert(some + more =~= some);
        assert(present(some) + present(more) =~= present(some));
    } else {
        lemma_present_both(some, more.drop_last());
        assert((some + more).drop_last() =~= some + more.drop_last());
        assert(present(some + more) =~= present(some) + present(more));
    }
}

/// A text that is no GeoJSON is refused for the parser's reason; one that is goes by its
/// geometries.
pub proof fn law_text_goes_by_its_geometries(document: DocumentView, reason: Seq<char>)
    ensures
        geojson_regions(Err(reason)) == Err::<Seq<RegionView>, GeoErrorView>(
            GeoErrorView::Parse(reason),
        ),
        geojson_regions(Ok(document)) == described_regions(document.shapes()),
{
}

/// What a refusal says: each kind has its own words, and the name or the reason stands at the end.
pub proof fn law_refusals_in_words(name: Seq<char>)
    ensures
        GeoErrorView::Parse(name).text() == "parsing inline geojson: "@ + name,
        GeoErrorView::Unsupported(name).text()
            == "geojson geometry must be Polygon or MultiPolygon, got "@ + name,
        GeoErrorView::ShortPosition.text() == "geojson position must have at least [lon, lat]"@,
        GeoErrorView::NoRings.text() == "geojson polygon has no rings"@,
        GeoErrorView::NoPolygons.text() == "geojson contained no Polygon/MultiPolygon geometry"@,
{
}

} // verus!
