//! Which points lie in a region.
use crate::double::Double;
use crate::geo::{
    equal_rings, hits, in_ring, is_greatest, MeasuredView, RegionView, RingView, WatchedRegionView,
};
use vstd::prelude::*;

verus! {

/// The edges of a ring that lie north of a point: their ends are on different sides of the point's
/// meridian, and they cross it north of the point. Edge `i` leads to vertex `i` from the one before
/// it, edge 0 from the last.
pub open spec fn edges_to_the_north(
    ring: RingView,
    crossings: Seq<Double>,
    lat: Double,
    lon: Double,
) -> Set<int> {
    Set::new(
        |i: int|
            0 <= i < ring.len() && lon.below(ring[i].1) != lon.below(
                ring[if i == 0 {
                    ring.len() - 1
                } else {
                    i - 1
                }].1,
            ) && lat.below(crossings[i]),
    )
}

/// A point lies inside a ring of at least three vertices exactly if an odd number of its edges lie
/// to the north of the point.
pub proof fn law_inside_is_an_odd_number_of_edges(
    ring: RingView,
    crossings: Seq<Double>,
    lat: Double,
    lon: Double,
)
    ensures
        edges_to_the_north(ring, crossings, lat, lon).finite(),
        in_ring(ring, crossings, lat, lon) <==> ring.len() >= 3 && edges_to_the_north(
            ring,
            crossings,
            lat,
            lon,
        ).len() % 2 == 1,
{
    lemma_hits_are_counted(ring, crossings, lat, lon, ring.len());
    let first = edges_to_the_north(ring, crossings, lat, lon).filter(|i: int| i < ring.len());
    assert(first =~= edges_to_the_north(ring, crossings, lat, lon));
}

proof fn lemma_hits_are_counted(
    ring: RingView,
    crossings: Seq<Double>,
    lat: Double,
    lon: Double,
    n: nat,
)
    requires
        n <= ring.len(),
    ensures
        edges_to_the_north(ring, crossings, lat, lon).filter(|i: int| i < n).finite(),
        edges_to_the_north(ring, crossings, lat, lon).filter(|i: int| i < n).len() == hits(
            ring,
            crossings,
            lat,
            lon,
            n,
        ),
    decreases n,
{
    let all = edges_to_the_north(ring, crossings, lat, lon);
    let now = all.filter(|i: int| i < n);
    if n == 0 {
        assert(now =~= Set::empty());
    } else {
        let before = all.filter(|i: int| i < n - 1);
        lemma_hits_are_counted(ring, crossings, lat, lon, (n - 1) as nat);
        assert(all.filter(|i: int| i < (n - 1) as nat) =~= before);
        if all.contains(n - 1) {
            assert(now =~= before.insert(n - 1));
        } else {
            assert(now =~= before);
        }
    }
}

/// Crossing one edge changes sides: of two points on one meridian that have the same edges to the
/// north but for one, exactly one lies inside the ring.
pub proof fn law_crossing_an_edge_changes_sides(
    ring: RingView,
    crossings: Seq<Double>,
    lon: Double,
    north: Double,
    south: Double,
    edge: int,
)
    requires
        ring.len() >= 3,
        0 <= edge < ring.len(),
        lon.below(ring[edge].1) != lon.below(
            ring[if edge == 0 {
                ring.len() - 1
            } else {
                edge - 1
            }].1,
        ),
        south.below(crossings[edge]),
        !north.below(crossings[edge]),
        forall|i: int|
            #![trigger crossings[i]]
            0 <= i < ring.len() && i != edge && lon.below(ring[i].1) != lon.below(
                ring[if i == 0 {
                    ring.len() - 1
                } else {
                    i - 1
                }].1,
            ) ==> south.below(crossings[i]) == north.below(crossings[i]),
    ensures
        in_ring(ring, crossings, south, lon) != in_ring(ring, crossings, north, lon),
{
    let s = edges_to_the_north(ring, crossings, south, lon);
    let n = edges_to_the_north(ring, crossings, north, lon);
    law_inside_is_an_odd_number_of_edges(ring, crossings, south, lon);
    law_inside_is_an_odd_number_of_edges(ring, crossings, north, lon);
    assert(s =~= n.insert(edge));
    assert(!n.contains(edge));
}

/// A point with no edge to the north lies outside the ring.
pub proof fn law_no_edge_to_the_north_is_outside(
    ring: RingView,
    crossings: Seq<Double>,
    lat: Double,
    lon: Double,
)
    requires
        forall|i: int|
            #![trigger crossings[i]]
            0 <= i < ring.len() && lon.below(ring[i].1) != lon.below(
                ring[if i == 0 {
                    ring.len() - 1
                } else {
                    i - 1
                }].1,
            ) ==> !lat.below(crossings[i]),
    ensures
        !in_ring(ring, crossings, lat, lon),
{
    law_inside_is_an_odd_number_of_edges(ring, crossings, lat, lon);
    assert(edges_to_the_north(ring, crossings, lat, lon) =~= Set::empty());
}

/// A circle holds exactly the points whose distance from its centre is a number no greater than its
/// radius.
pub proof fn law_circle_goes_by_distance(
    centre_lat: Double,
    centre_lon: Double,
    radius_nm: Double,
    lat: Double,
    lon: Double,
    distance: Double,
)
    ensures
        (RegionView::Circle { lat: centre_lat, lon: centre_lon, radius_nm }).holds(
            lat,
            lon,
            MeasuredView::Distance(distance),
        ) <==> !distance.is_nan() && !radius_nm.is_nan() && distance.value() <= radius_nm.value(),
{
}

/// A box holds exactly the points whose coordinates lie between its bounds, the bounds included.
pub proof fn law_box_goes_by_its_bounds(
    min_lat: Double,
    min_lon: Double,
    max_lat: Double,
    max_lon: Double,
    lat: Double,
    lon: Double,
)
    requires
        !min_lat.is_nan(),
        !min_lon.is_nan(),
        !max_lat.is_nan(),
        !max_lon.is_nan(),
    ensures
        (RegionView::BBox { min_lat, min_lon, max_lat, max_lon }).holds(
            lat,
            lon,
            MeasuredView::Nothing,
        ) <==> !lat.is_nan() && !lon.is_nan() && min_lat.value() <= lat.value() <= max_lat.value()
            && min_lon.value() <= lon.value() <= max_lon.value(),
{
}

/// A polygon holds exactly the points that lie inside its exterior and inside none of its holes.
pub proof fn law_polygon_goes_by_its_rings(
    exterior: RingView,
    holes: Seq<RingView>,
    outer: Seq<Double>,
    inner: Seq<Seq<Double>>,
    lat: Double,
    lon: Double,
)
    ensures
        (RegionView::Polygon { exterior, holes }).holds(
            lat,
            lon,
            MeasuredView::Crossings { exterior: outer, holes: inner },
        ) <==> in_ring(exterior, outer, lat, lon) && !(exists|i: int|
            0 <= i < holes.len() && #[trigger] in_ring(holes[i], inner[i], lat, lon)),
{
}

/// An altitude is in the band unless it is less than the minimum or greater than the maximum; one
/// that is not known, and a bound that is not there, exclude nothing.
pub proof fn law_band_goes_by_its_bounds(
    w: WatchedRegionView,
    lat: Double,
    lon: Double,
    altitude_ft: Option<Double>,
    m: MeasuredView,
)
    ensures
        w.admitted(lat, lon, altitude_ft, m) ==> w.region.holds(lat, lon, m),
        altitude_ft is None ==> w.admitted(lat, lon, altitude_ft, m) == w.region.holds(lat, lon, m),
        altitude_ft matches Some(alt) ==> (!alt.is_nan() && (w.min_alt_ft is Some
            ==> !w.min_alt_ft->0.is_nan()) && (w.max_alt_ft is Some ==> !w.max_alt_ft->0.is_nan())
            ==> (w.admitted(lat, lon, altitude_ft, m) <==> w.region.holds(lat, lon, m) && (
        w.min_alt_ft is Some ==> w.min_alt_ft->0.value() <= alt.value()) && (w.max_alt_ft is Some
            ==> alt.value() <= w.max_alt_ft->0.value()))),
{
}

/// The radius of a query circle is no less than any of the distances, and no more than is needed: it
/// is one of them, or zero. Two such radii are the same number.
pub proof fn law_radius_is_what_is_needed(radius: Double, other: Double, distances: Seq<Double>)
    requires
        is_greatest(radius, distances),
    ensures
        !radius.is_nan(),
        0 <= radius.value(),
        forall|i: int|
            0 <= i < distances.len() && !(#[trigger] distances[i]).is_nan()
                ==> distances[i].value() <= radius.value(),
        radius.bits == 0 || exists|i: int| 0 <= i < distances.len() && #[trigger] distances[i]
            == radius,
        is_greatest(other, distances) ==> other.value() == radius.value(),
{
    if distances.contains(radius) {
        let i = choose|i: int| 0 <= i < distances.len() && distances[i] == radius;
        assert(distances[i] == radius);
    }
    if is_greatest(other, distances) {
        lemma_no_more_than_needed(radius, other, distances);
        lemma_no_more_than_needed(other, radius, distances);
    }
}

proof fn lemma_no_more_than_needed(a: Double, b: Double, distances: Seq<Double>)
    requires
        is_greatest(a, distances),
        is_greatest(b, distances),
    ensures
        a.value() <= b.value(),
{
    if distances.contains(a) {
        let i = choose|i: int| 0 <= i < distances.len() && distances[i] == a;
        assert(distances[i].at_most(b));
    } else {
        assert(a.value() == 0);
    }
}

/// Any point can be measured against any region: a circle by a distance, a polygon by a crossing for
/// each edge of each ring, a box by nothing; and nothing else fits.
pub proof fn law_what_measures_a_region(region: RegionView, m: MeasuredView)
    ensures
        region is Circle ==> region.measured_by(m) == (m is Distance),
        region is BBox ==> region.measured_by(m) == (m is Nothing),
        region is Polygon ==> region.measured_by(m) == (m is Crossings && m->exterior.len()
            == region->exterior.len() && m->holes.len() == region->holes.len() && forall|i: int|
            0 <= i < region->holes.len() ==> (#[trigger] m->holes[i]).len()
                == region->holes[i].len()),
{
}

/// Regions are equal exactly if they are of one shape and their numbers are equal, one by one.
pub proof fn law_equal_regions(a: RegionView, b: RegionView)
    ensures
        a.equals(b) ==> (a is Circle == b is Circle) && (a is Polygon == b is Polygon),
        a is Circle && b is Circle ==> a.equals(b) == (a->Circle_lat.equals(b->Circle_lat)
            && a->Circle_lon.equals(b->Circle_lon) && a->radius_nm.equals(b->radius_nm)),
        a is BBox && b is BBox ==> a.equals(b) == (a->min_lat.equals(b->min_lat)
            && a->min_lon.equals(b->min_lon) && a->max_lat.equals(b->max_lat) && a->max_lon.equals(
            b->max_lon,
        )),
        a is Polygon && b is Polygon && a.equals(b) ==> {
            &&& a->exterior.len() == b->exterior.len()
            &&& forall|i: int|
                #![trigger a->exterior[i]]
                0 <= i < a->exterior.len() ==> a->exterior[i].0.equals(b->exterior[i].0)
                    && a->exterior[i].1.equals(b->exterior[i].1)
            &&& a->holes.len() == b->holes.len()
            &&& forall|j: int|
                0 <= j < a->holes.len() ==> (#[trigger] a->holes[j]).len() == b->holes[j].len()
            &&& forall|j: int, i: int|
                #![trigger a->holes[j][i]]
                0 <= j < a->holes.len() && 0 <= i < a->holes[j].len() ==> a->holes[j][i].0.equals(
                    b->holes[j][i].0,
                ) && a->holes[j][i].1.equals(b->holes[j][i].1)
        },
        a is Polygon && a == b && (forall|i: int|
            #![trigger a->exterior[i]]
            0 <= i < a->exterior.len() ==> !a->exterior[i].0.is_nan() && !a->exterior[i].1.is_nan())
            && (forall|j: int, i: int|
            #![trigger a->holes[j][i]]
            0 <= j < a->holes.len() && 0 <= i < a->holes[j].len() ==> !a->holes[j][i].0.is_nan()
                && !a->holes[j][i].1.is_nan()) ==> a.equals(b),
{
    if a is Polygon && b is Polygon && a.equals(b) {
        assert(forall|i: int|
            #![trigger a->exterior[i]]
            0 <= i < a->exterior.len() ==> a->exterior[i].0.equals(b->exterior[i].0)
                && a->exterior[i].1.equals(b->exterior[i].1));
        assert forall|j: int| 0 <= j < a->holes.len() implies (#[trigger] a->holes[j]).len()
            == b->holes[j].len() by {
            assert(equal_rings(a->holes[j], b->holes[j]));
        }
        assert forall|j: int, i: int|
            #![trigger a->holes[j][i]]
            0 <= j < a->holes.len() && 0 <= i < a->holes[j].len() implies a->holes[j][i].0.equals(
            b->holes[j][i].0,
        ) && a->holes[j][i].1.equals(b->holes[j][i].1) by {
            assert(equal_rings(a->holes[j], b->holes[j]));
        }
    }
}

/// The corners of a box are the four ways to take a bound of each coordinate; those of a polygon
/// are the vertices of its exterior, and a circle has none.
pub proof fn law_corners(region: RegionView)
    ensures
        match region {
            RegionView::Circle { .. } => region.corners().len() == 0,
            RegionView::Polygon { exterior, .. } => region.corners() == exterior,
            RegionView::BBox { min_lat, min_lon, max_lat, max_lon } => {
                &&& region.corners().len() == 4
                &&& region.corners().contains((min_lat, min_lon))
                &&& region.corners().contains((min_lat, max_lon))
                &&& region.corners().contains((max_lat, min_lon))
                &&& region.corners().contains((max_lat, max_lon))
            },
        },
{
    if let RegionView::BBox { .. } = region {
        let c = region.corners();
        assert(c.contains(c[0]) && c.contains(c[1]) && c.contains(c[2]) && c.contains(c[3]));
    }
}

} // verus!
