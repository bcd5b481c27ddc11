//! Region geometry: circle, polygon and bounding-box shapes, point containment, and the circle
//! that encloses a region.
//!
//! Distances and the points where ring edges cross a meridian take floating-point arithmetic.
//! They come in as measurements ([`Measured`]); what follows from them is decided here.
use crate::double::{zero, Double};
use vstd::prelude::*;

verus! {

/// A watched geographic region. Coordinates are `(lat, lon)` in degrees throughout.
#[derive(Debug)]
pub enum Region {
    Circle { lat: Double, lon: Double, radius_nm: Double },
    /// A polygon with an exterior ring and zero or more holes. A point is contained when it
    /// lies inside the exterior ring and outside every hole.
    Polygon { exterior: Vec<(Double, Double)>, holes: Vec<Vec<(Double, Double)>> },
    BBox { min_lat: Double, min_lon: Double, max_lat: Double, max_lon: Double },
}

/// A closed ring of `(lat, lon)` vertices.
pub type RingView = Seq<(Double, Double)>;

/// What a [`Region`] says, with its rings as sequences.
pub enum RegionView {
    Circle { lat: Double, lon: Double, radius_nm: Double },
    Polygon { exterior: RingView, holes: Seq<RingView> },
    BBox { min_lat: Double, min_lon: Double, max_lat: Double, max_lon: Double },
}

/// What has been measured of a point against a region.
#[derive(Debug)]
pub enum Measured {
    /// Against a circle: the great-circle distance in nautical miles from the centre.
    Distance(Double),
    /// Against a polygon: for each edge of each ring, the latitude at which the line through
    /// the edge crosses the point's meridian. Edge `i` of a ring leads to vertex `i` from the
    /// vertex before it.
    Crossings { exterior: Vec<Double>, holes: Vec<Vec<Double>> },
    /// Against a bounding box: nothing.
    Nothing,
}

/// What a [`Measured`] says, with its lists as sequences.
pub enum MeasuredView {
    Distance(Double),
    Crossings { exterior: Seq<Double>, holes: Seq<Seq<Double>> },
    Nothing,
}

impl View for Region {
    type V = RegionView;

    open spec fn view(&self) -> RegionView {
        match *self {
            Region::Circle { lat, lon, radius_nm } => RegionView::Circle { lat, lon, radius_nm },
            Region::Polygon { exterior, holes } => RegionView::Polygon {
                exterior: exterior@,
                holes: holes@.map_values(|h: Vec<(Double, Double)>| h@),
            },
            Region::BBox { min_lat, min_lon, max_lat, max_lon } => RegionView::BBox {
                min_lat,
                min_lon,
                max_lat,
                max_lon,
            },
        }
    }
}

/// A copy of a ring.
fn copy_ring(ring: &Vec<(Double, Double)>) -> (r: Vec<(Double, Double)>)
    ensures
        r@ == ring@,
{
    let mut r: Vec<(Double, Double)> = Vec::new();
    let mut i: usize = 0;
    while i < ring.len()
        invariant
            i <= ring@.len(),
            r@ == ring@.take(i as int),
        decreases ring@.len() - i,
    {
        r.push(ring[i]);
        i = i + 1;
    }
    r
}

impl Clone for Region {
    fn clone(&self) -> (r: Self)
        ensures
            r@ == self@,
    {
        match self {
            Region::Circle { lat, lon, radius_nm } => Region::Circle {
                lat: *lat,
                lon: *lon,
                radius_nm: *radius_nm,
            },
            Region::Polygon { exterior, holes } => {
                let mut copies: Vec<Vec<(Double, Double)>> = Vec::new();
                let mut i: usize = 0;
                while i < holes.len()
                    invariant
                        i == copies@.len(),
                        i <= holes@.len(),
                        forall|k: int| 0 <= k < i ==> #[trigger] copies@[k]@ == holes@[k]@,
                    decreases holes@.len() - i,
                {
                    copies.push(copy_ring(&holes[i]));
                    i = i + 1;
                }
                proof {
                    assert(copies@.map_values(|h: Vec<(Double, Double)>| h@) =~= holes@.map_values(
                        |h: Vec<(Double, Double)>| h@,
                    ));
                }
                Region::Polygon { exterior: copy_ring(exterior), holes: copies }
            },
            Region::BBox { min_lat, min_lon, max_lat, max_lon } => Region::BBox {
                min_lat: *min_lat,
                min_lon: *min_lon,
                max_lat: *max_lat,
                max_lon: *max_lon,
            },
        }
    }
}

/// Whether two rings have the same vertices, as numbers.
pub open spec fn equal_rings(a: RingView, b: RingView) -> bool {
    &&& a.len() == b.len()
    &&& forall|i: int|
        #![trigger a[i], b[i]]
        0 <= i < a.len() ==> a[i].0.equals(b[i].0) && a[i].1.equals(b[i].1)
}

impl RegionView {
    /// Whether two regions have the same shape with the same coordinates, as numbers.
    pub open spec fn equals(self, other: RegionView) -> bool {
        match (self, other) {
            (
                RegionView::Circle { lat, lon, radius_nm },
                RegionView::Circle { lat: lat2, lon: lon2, radius_nm: radius2 },
            ) => lat.equals(lat2) && lon.equals(lon2) && radius_nm.equals(radius2),
            (
                RegionView::Polygon { exterior, holes },
                RegionView::Polygon { exterior: exterior2, holes: holes2 },
            ) => {
                &&& equal_rings(exterior, exterior2)
                &&& holes.len() == holes2.len()
                &&& forall|i: int|
                    0 <= i < holes.len() ==> #[trigger] equal_rings(holes[i], holes2[i])
            },
            (
                RegionView::BBox { min_lat, min_lon, max_lat, max_lon },
                RegionView::BBox {
                    min_lat: min_lat2,
                    min_lon: min_lon2,
                    max_lat: max_lat2,
                    max_lon: max_lon2,
                },
            ) => min_lat.equals(min_lat2) && min_lon.equals(min_lon2) && max_lat.equals(max_lat2)
                && max_lon.equals(max_lon2),
            _ => false,
        }
    }
}

/// Whether two rings have the same vertices, as numbers.
fn same_ring(a: &Vec<(Double, Double)>, b: &Vec<(Double, Double)>) -> (r: bool)
    ensures
        r == equal_rings(a@, b@),
{
    if a.len() != b.len() {
        return false;
    }
    let mut i: usize = 0;
    while i < a.len()
        invariant
            a@.len() == b@.len(),
            i <= a@.len(),
            forall|k: int|
                #![trigger a@[k], b@[k]]
                0 <= k < i ==> a@[k].0.equals(b@[k].0) && a@[k].1.equals(b@[k].1),
        decreases a@.len() - i,
    {
        if !(a[i].0.same(b[i].0) && a[i].1.same(b[i].1)) {
            return false;
        }
        i = i + 1;
    }
    true
}

/// Whether two lists have the same rings.
fn same_rings(a: &Vec<Vec<(Double, Double)>>, b: &Vec<Vec<(Double, Double)>>) -> (r: bool)
    ensures
        r == (a@.len() == b@.len() && forall|i: int|
            0 <= i < a@.len() ==> #[trigger] equal_rings(a@[i]@, b@[i]@)),
{
    if a.len() != b.len() {
        return false;
    }
    let mut i: usize = 0;
    while i < a.len()
        invariant
            a@.len() == b@.len(),
            i <= a@.len(),
            forall|k: int| 0 <= k < i ==> #[trigger] equal_rings(a@[k]@, b@[k]@),
        decreases a@.len() - i,
    {
        if !same_ring(&a[i], &b[i]) {
            return false;
        }
        i = i + 1;
    }
    true
}

impl Region {
    /// Whether two regions have the same shape with the same coordinates, as numbers.
    fn same(&self, other: &Region) -> (r: bool)
        ensures
            r == self@.equals(other@),
    {
        match (self, other) {
            (
                Region::Circle { lat, lon, radius_nm },
                Region::Circle { lat: lat2, lon: lon2, radius_nm: radius2 },
            ) => lat.same(*lat2) && lon.same(*lon2) && radius_nm.same(*radius2),
            (
                Region::Polygon { exterior, holes },
                Region::Polygon { exterior: exterior2, holes: holes2 },
            ) => {
                let ghost mine = holes@.map_values(|h: Vec<(Double, Double)>| h@);
                let ghost theirs = holes2@.map_values(|h: Vec<(Double, Double)>| h@);
                proof {
                    assert(forall|i: int|
                        #![trigger equal_rings(mine[i], theirs[i])]
                        #![trigger equal_rings(holes@[i]@, holes2@[i]@)]
                        0 <= i < holes@.len() && i < holes2@.len() ==> mine[i] == holes@[i]@
                            && theirs[i] == holes2@[i]@);
                }
                same_ring(exterior, exterior2) && same_rings(holes, holes2)
            },
            (
                Region::BBox { min_lat, min_lon, max_lat, max_lon },
                Region::BBox {
                    min_lat: min_lat2,
                    min_lon: min_lon2,
                    max_lat: max_lat2,
                    max_lon: max_lon2,
                },
            ) => min_lat.same(*min_lat2) && min_lon.same(*min_lon2) && max_lat.same(*max_lat2)
                && max_lon.same(*max_lon2),
            _ => false,
        }
    }
}

impl PartialEq for Region {
    fn eq(&self, other: &Self) -> (r: bool) {
        self.same(other)
    }
}

impl vstd::std_specs::cmp::PartialEqSpecImpl for Region {
    open spec fn obeys_eq_spec() -> bool {
        true
    }

    open spec fn eq_spec(&self, other: &Self) -> bool {
        self@.equals(other@)
    }
}

impl View for Measured {
    type V = MeasuredView;

    open spec fn view(&self) -> MeasuredView {
        match *self {
            Measured::Distance(d) => MeasuredView::Distance(d),
            Measured::Crossings { exterior, holes } => MeasuredView::Crossings {
                exterior: exterior@,
                holes: holes@.map_values(|h: Vec<Double>| h@),
            },
            Measured::Nothing => MeasuredView::Nothing,
        }
    }
}

/// The vertex before vertex `i` of a ring with `n` vertices.
pub open spec fn vertex_before(i: int, n: int) -> int {
    if i == 0 {
        n - 1
    } else {
        i - 1
    }
}

/// Whether vertex `i` of a ring lies east of the meridian `lon`.
pub open spec fn east(ring: RingView, i: int, lon: Double) -> bool {
    lon.below(ring[i].1)
}

/// Whether the two ends of edge `i` lie on different sides of the meridian `lon`.
pub open spec fn straddles(ring: RingView, i: int, lon: Double) -> bool {
    east(ring, i, lon) != east(ring, vertex_before(i, ring.len() as int), lon)
}

/// Whether the ray that leaves the point `(lat, lon)` northwards hits edge `i`.
pub open spec fn ray_hits(
    ring: RingView,
    crossings: Seq<Double>,
    lat: Double,
    lon: Double,
    i: int,
) -> bool {
    straddles(ring, i, lon) && lat.below(crossings[i])
}

/// How many of the first `n` edges the ray hits.
pub open spec fn hits(
    ring: RingView,
    crossings: Seq<Double>,
    lat: Double,
    lon: Double,
    n: nat,
) -> nat
    decreases n,
{
    if n == 0 {
        0
    } else {
        hits(ring, crossings, lat, lon, (n - 1) as nat) + if ray_hits(
            ring,
            crossings,
            lat,
            lon,
            n - 1,
        ) {
            1nat
        } else {
            0
        }
    }
}

/// Whether a point lies inside a ring: the ray from it hits an odd number of edges. A ring of
/// fewer than three vertices has no inside.
pub open spec fn in_ring(ring: RingView, crossings: Seq<Double>, lat: Double, lon: Double) -> bool {
    ring.len() >= 3 && hits(ring, crossings, lat, lon, ring.len()) % 2 == 1
}

/// Whether a point lies inside none of the rings.
pub open spec fn in_no_ring(
    rings: Seq<RingView>,
    crossings: Seq<Seq<Double>>,
    lat: Double,
    lon: Double,
) -> bool {
    forall|i: int| 0 <= i < rings.len() ==> !#[trigger] in_ring(rings[i], crossings[i], lat, lon)
}

impl RegionView {
    /// Whether a measurement is one of this region's: of its shape, with a crossing for each edge.
    pub open spec fn measured_by(self, m: MeasuredView) -> bool {
        match (self, m) {
            (RegionView::Circle { .. }, MeasuredView::Distance(_)) => true,
            (
                RegionView::Polygon { exterior, holes },
                MeasuredView::Crossings { exterior: outer, holes: inner },
            ) => {
                &&& outer.len() == exterior.len()
                &&& inner.len() == holes.len()
                &&& forall|i: int| 0 <= i < holes.len() ==> #[trigger] inner[i].len() == holes[i].len()
            },
            (RegionView::BBox { .. }, MeasuredView::Nothing) => true,
            _ => false,
        }
    }

    /// Whether the point lies within this region.
    pub open spec fn holds(self, lat: Double, lon: Double, m: MeasuredView) -> bool {
        match self {
            RegionView::Circle { radius_nm, .. } => m->Distance_0.at_most(radius_nm),
            RegionView::Polygon { exterior, holes } => {
                &&& in_ring(exterior, m->exterior, lat, lon)
                &&& in_no_ring(holes, m->holes, lat, lon)
            },
            RegionView::BBox { min_lat, min_lon, max_lat, max_lon } => {
                &&& min_lat.at_most(lat)
                &&& lat.at_most(max_lat)
                &&& min_lon.at_most(lon)
                &&& lon.at_most(max_lon)
            },
        }
    }

    /// The points that a circle has to enclose to enclose this region; of a circle, none.
    pub open spec fn corners(self) -> RingView {
        match self {
            RegionView::Circle { .. } => Seq::empty(),
            RegionView::Polygon { exterior, .. } => exterior,
            RegionView::BBox { min_lat, min_lon, max_lat, max_lon } => seq![
                (min_lat, min_lon),
                (min_lat, max_lon),
                (max_lat, max_lon),
                (max_lat, min_lon),
            ],
        }
    }
}

impl RegionView {
    /// Whether a `(lat, lon, radius_nm)` circle holds each corner, given the distance of each from
    /// the centre. A distance that is not a number is left out.
    pub open spec fn enclosed_by(
        self,
        circle: (Double, Double, Double),
        distances: Seq<Double>,
    ) -> bool {
        let around = RegionView::Circle { lat: circle.0, lon: circle.1, radius_nm: circle.2 };
        &&& distances.len() == self.corners().len()
        &&& forall|i: int|
            0 <= i < self.corners().len() && !(#[trigger] distances[i]).is_nan() ==> around.holds(
                self.corners()[i].0,
                self.corners()[i].1,
                MeasuredView::Distance(distances[i]),
            )
    }
}

/// Ray-casting point-in-polygon test on a `(lat, lon)` ring (treated as planar; fine for the
/// small areas these regions cover).
pub fn point_in_ring(
    ring: &Vec<(Double, Double)>,
    crossings: &Vec<Double>,
    lat: Double,
    lon: Double,
) -> (r: bool)
    requires
        crossings@.len() == ring@.len(),
    ensures
        r == in_ring(ring@, crossings@, lat, lon),
{
    if ring.len() < 3 {
        return false;
    }
    let mut inside: bool = false;
    let mut j: usize = ring.len() - 1;
    let mut i: usize = 0;
    while i < ring.len()
        invariant
            crossings@.len() == ring@.len(),
            ring@.len() >= 3,
            i <= ring@.len(),
            i < ring@.len() ==> j == vertex_before(i as int, ring@.len() as int),
            j < ring@.len(),
            inside == (hits(ring@, crossings@, lat, lon, i as nat) % 2 == 1),
        decreases ring@.len() - i,
    {
        if lon.lt(ring[i].1) != lon.lt(ring[j].1) && lat.lt(crossings[i]) {
            inside = !inside;
        }
        j = i;
        i = i + 1;
    }
    inside
}

impl Measured {
    /// Whether this is a measurement against `region` (see [`RegionView::measured_by`]).
    pub fn fits(&self, region: &Region) -> (r: bool)
        ensures
            r == region@.measured_by(self@),
    {
        match (region, self) {
            (Region::Circle { .. }, Measured::Distance(_)) => true,
            (
                Region::Polygon { exterior, holes },
                Measured::Crossings { exterior: outer, holes: inner },
            ) => {
                if outer.len() != exterior.len() || inner.len() != holes.len() {
                    return false;
                }
                let mut i: usize = 0;
                while i < holes.len()
                    invariant
                        region@ matches RegionView::Polygon { exterior: e, holes: h } && e
                            == exterior@ && h == holes@.map_values(|v: Vec<(Double, Double)>| v@),
                        self@ matches MeasuredView::Crossings { exterior: e, holes: h } && e
                            == outer@ && h == inner@.map_values(|v: Vec<Double>| v@),
                        inner@.len() == holes@.len(),
                        i <= holes@.len(),
                        forall|k: int| 0 <= k < i ==> #[trigger] inner@[k]@.len() == holes@[k]@.len(),
                    decreases holes@.len() - i,
                {
                    if inner[i].len() != holes[i].len() {
                        proof {
                            assert(self@->holes[i as int].len() != region@->Polygon_holes[i as int].len());
                        }
                        return false;
                    }
                    i = i + 1;
                }
                true
            },
            (Region::BBox { .. }, Measured::Nothing) => true,
            _ => false,
        }
    }
}

impl Region {
    /// Whether the given point, measured against this region, lies within it.
    pub fn contains(&self, lat: Double, lon: Double, measured: &Measured) -> (r: bool)
        requires
            self@.measured_by(measured@),
        ensures
            r == self@.holds(lat, lon, measured@),
    {
        match (self, measured) {
            (Region::Circle { radius_nm, .. }, Measured::Distance(distance)) => distance.le(
                *radius_nm,
            ),
            (
                Region::Polygon { exterior, holes },
                Measured::Crossings { exterior: outer, holes: inner },
            ) => {
                if !point_in_ring(exterior, outer, lat, lon) {
                    return false;
                }
                let mut i: usize = 0;
                while i < holes.len()
                    invariant
                        self@ == (RegionView::Polygon {
                            exterior: exterior@,
                            holes: holes@.map_values(|v: Vec<(Double, Double)>| v@),
                        }),
                        measured@ == (MeasuredView::Crossings {
                            exterior: outer@,
                            holes: inner@.map_values(|v: Vec<Double>| v@),
                        }),
                        self@.measured_by(measured@),
                        in_ring(exterior@, outer@, lat, lon),
                        i <= holes@.len(),
                        forall|k: int|
                            0 <= k < i ==> !#[trigger] in_ring(holes@[k]@, inner@[k]@, lat, lon),
                    decreases holes@.len() - i,
                {
                    proof {
                        assert(measured@->holes[i as int].len() == self@->Polygon_holes[i as int].len());
                    }
                    if point_in_ring(&holes[i], &inner[i], lat, lon) {
                        proof {
                            assert(in_ring(
                                self@->Polygon_holes[i as int],
                                measured@->holes[i as int],
                                lat,
                                lon,
                            ));
                        }
                        return false;
                    }
                    i = i + 1;
                }
                true
            },
            (Region::BBox { min_lat, min_lon, max_lat, max_lon }, _) => {
                min_lat.le(lat) && lat.le(*max_lat) && min_lon.le(lon) && lon.le(*max_lon)
            },
            _ => false,
        }
    }

    /// The points that the query circle has to enclose (see [`RegionView::corners`]).
    pub fn bounding_points(&self) -> (r: Vec<(Double, Double)>)
        ensures
            r@ == self@.corners(),
    {
        match self {
            Region::Circle { .. } => Vec::new(),
            Region::Polygon { exterior, .. } => {
                let mut points: Vec<(Double, Double)> = Vec::new();
                let mut i: usize = 0;
                while i < exterior.len()
                    invariant
                        i <= exterior@.len(),
                        points@ == exterior@.take(i as int),
                    decreases exterior@.len() - i,
                {
                    points.push(exterior[i]);
                    i = i + 1;
                }
                points
            },
            Region::BBox { min_lat, min_lon, max_lat, max_lon } => {
                vec![
                    (*min_lat, *min_lon),
                    (*min_lat, *max_lon),
                    (*max_lat, *max_lon),
                    (*max_lat, *min_lon),
                ]
            },
        }
    }

    /// A `(lat, lon, radius_nm)` circle around the region, for the position source's point and
    /// radius query; the results are then filtered with [`Region::contains`].
    ///
    /// A circle is its own. Any other region is enclosed around a given centre, by the greatest
    /// of the given distances from that centre to its [`Region::bounding_points`].
    pub fn bounding_circle(&self, centre_lat: Double, centre_lon: Double, distances: &Vec<Double>)
        -> (r: (Double, Double, Double))
        ensures
            match self@ {
                RegionView::Circle { lat, lon, radius_nm } => r == (lat, lon, radius_nm),
                _ => {
                    &&& r.0 == centre_lat
                    &&& r.1 == centre_lon
                    &&& is_greatest(r.2, distances@)
                },
            },
            distances@.len() == self@.corners().len() ==> self@.enclosed_by(r, distances@),
    {
        match self {
            Region::Circle { lat, lon, radius_nm } => (*lat, *lon, *radius_nm),
            _ => (centre_lat, centre_lon, greatest(distances)),
        }
    }
}

/// Whether `r` is the greatest of zero and the distances, leaving out those that are not numbers.
pub open spec fn is_greatest(r: Double, distances: Seq<Double>) -> bool {
    &&& !r.is_nan()
    &&& r == (Double { bits: 0 }) || distances.contains(r)
    &&& 0 <= r.value()
    &&& forall|i: int|
        0 <= i < distances.len() && !(#[trigger] distances[i]).is_nan() ==> distances[i].at_most(r)
}

/// The greatest of zero and the distances, leaving out those that are not numbers.
pub fn greatest(distances: &Vec<Double>) -> (r: Double)
    ensures
        is_greatest(r, distances@),
{
    let mut r: Double = zero();
    let mut i: usize = 0;
    while i < distances.len()
        invariant
            i <= distances@.len(),
            is_greatest(r, distances@.take(i as int)),
        decreases distances@.len() - i,
    {
        let ghost before = r;
        r = r.max(distances[i]);
        proof {
            let seen = distances@.take(i as int);
            let now = distances@.take(i + 1);
            assert(now[i as int] == distances@[i as int]);
            assert(forall|k: int| 0 <= k < i ==> now[k] == seen[k]);
            if r != before {
                assert(now.contains(r));
            } else if seen.contains(r) {
                let k = choose|k: int| 0 <= k < seen.len() && seen[k] == r;
                assert(now[k] == r);
            }
        }
        i = i + 1;
    }
    proof {
        assert(distances@.take(i as int) =~= distances@);
    }
    r
}

/// A named region plus an optional altitude band, as the engine watches it.
///
/// The altitude band keeps the watch focused on (e.g.) aircraft on approach and excludes high
/// overflights. An aircraft is admitted when it is inside the geometry and, if it reports an
/// altitude, that altitude is within `[min_alt_ft, max_alt_ft]`. Aircraft with no reported
/// altitude are not excluded on altitude grounds.
#[derive(Debug)]
pub struct WatchedRegion {
    pub name: String,
    pub region: Region,
    pub min_alt_ft: Option<Double>,
    pub max_alt_ft: Option<Double>,
}

/// What a [`WatchedRegion`] says, with its parts by their views.
pub struct WatchedRegionView {
    pub name: Seq<char>,
    pub region: RegionView,
    pub min_alt_ft: Option<Double>,
    pub max_alt_ft: Option<Double>,
}

impl View for WatchedRegion {
    type V = WatchedRegionView;

    open spec fn view(&self) -> WatchedRegionView {
        WatchedRegionView {
            name: self.name@,
            region: self.region@,
            min_alt_ft: self.min_alt_ft,
            max_alt_ft: self.max_alt_ft,
        }
    }
}

impl Clone for WatchedRegion {
    fn clone(&self) -> (r: Self)
        ensures
            r@ == self@,
            r.name == self.name,
    {
        WatchedRegion {
            name: self.name.clone(),
            region: self.region.clone(),
            min_alt_ft: self.min_alt_ft,
            max_alt_ft: self.max_alt_ft,
        }
    }
}

impl WatchedRegionView {
    /// Whether an altitude, if there is one, lies within the band.
    pub open spec fn in_band(self, altitude_ft: Option<Double>) -> bool {
        altitude_ft matches Some(alt) ==> {
            &&& self.min_alt_ft matches Some(min) ==> !alt.below(min)
            &&& self.max_alt_ft matches Some(max) ==> !max.below(alt)
        }
    }

    /// Whether an aircraft at this position and altitude is admitted.
    pub open spec fn admitted(
        self,
        lat: Double,
        lon: Double,
        altitude_ft: Option<Double>,
        m: MeasuredView,
    ) -> bool {
        self.region.holds(lat, lon, m) && self.in_band(altitude_ft)
    }
}

impl WatchedRegion {
    /// Whether this region admits an aircraft at the given position and (optional) altitude.
    pub fn admits(
        &self,
        lat: Double,
        lon: Double,
        altitude_ft: Option<Double>,
        measured: &Measured,
    ) -> (r: bool)
        requires
            self@.region.measured_by(measured@),
        ensures
            r == self@.admitted(lat, lon, altitude_ft, measured@),
    {
        if !self.region.contains(lat, lon, measured) {
            return false;
        }
        if let (Some(min), Some(alt)) = (self.min_alt_ft, altitude_ft) {
            if alt.lt(min) {
                return false;
            }
        }
        if let (Some(max), Some(alt)) = (self.max_alt_ft, altitude_ft) {
            if max.lt(alt) {
                return false;
            }
        }
        true
    }

    /// The query circle around this region's geometry (see [`Region::bounding_circle`]).
    pub fn bounding_circle(&self, centre_lat: Double, centre_lon: Double, distances: &Vec<Double>)
        -> (r: (Double, Double, Double))
        ensures
            match self@.region {
                RegionView::Circle { lat, lon, radius_nm } => r == (lat, lon, radius_nm),
                _ => {
                    &&& r.0 == centre_lat
                    &&& r.1 == centre_lon
                    &&& is_greatest(r.2, distances@)
                },
            },
            distances@.len() == self@.region.corners().len() ==> self@.region.enclosed_by(
                r,
                distances@,
            ),
    {
        self.region.bounding_circle(centre_lat, centre_lon, distances)
    }
}

/// The circle around a region that has the greatest of the corners' distances as its radius holds
/// every corner.
pub proof fn law_bounding_circle_encloses(
    region: RegionView,
    centre_lat: Double,
    centre_lon: Double,
    radius_nm: Double,
    distances: Seq<Double>,
)
    requires
        distances.len() == region.corners().len(),
        is_greatest(radius_nm, distances),
    ensures
        region.enclosed_by((centre_lat, centre_lon, radius_nm), distances),
{
}

/// A point south of every edge that reaches across its meridian lies outside the ring: a closed
/// ring crosses a meridian an even number of times.
pub proof fn law_south_of_the_ring_is_outside(
    ring: RingView,
    crossings: Seq<Double>,
    lat: Double,
    lon: Double,
)
    requires
        forall|i: int|
            0 <= i < ring.len() && #[trigger] straddles(ring, i, lon) ==> lat.below(crossings[i]),
    ensures
        !in_ring(ring, crossings, lat, lon),
{
    if ring.len() >= 3 {
        lemma_hits_parity(ring, crossings, lat, lon, ring.len());
    }
}

/// A point that is not south of any edge that reaches across its meridian lies outside the ring.
pub proof fn law_north_of_the_ring_is_outside(
    ring: RingView,
    crossings: Seq<Double>,
    lat: Double,
    lon: Double,
)
    requires
        forall|i: int|
            0 <= i < ring.len() && #[trigger] straddles(ring, i, lon) ==> !lat.below(crossings[i]),
    ensures
        !in_ring(ring, crossings, lat, lon),
{
    lemma_no_hits(ring, crossings, lat, lon, ring.len());
}

/// A point whose meridian no edge reaches across lies outside the ring.
pub proof fn law_beside_the_ring_is_outside(
    ring: RingView,
    crossings: Seq<Double>,
    lat: Double,
    lon: Double,
)
    requires
        (forall|i: int| 0 <= i < ring.len() ==> #[trigger] east(ring, i, lon)) || (forall|i: int|
            0 <= i < ring.len() ==> !#[trigger] east(ring, i, lon)),
    ensures
        !in_ring(ring, crossings, lat, lon),
{
    lemma_no_hits(ring, crossings, lat, lon, ring.len());
}

/// Of the first `n` edges, an odd number is hit exactly when edge 0 straddles the meridian or the
/// walk from vertex 0 to vertex `n - 1` changes sides, but not both.
proof fn lemma_hits_parity(
    ring: RingView,
    crossings: Seq<Double>,
    lat: Double,
    lon: Double,
    n: nat,
)
    requires
        1 <= n <= ring.len(),
        forall|i: int|
            0 <= i < ring.len() && #[trigger] straddles(ring, i, lon) ==> lat.below(crossings[i]),
    ensures
        (hits(ring, crossings, lat, lon, n) % 2 == 1) == (straddles(ring, 0, lon) != (east(
            ring,
            0,
            lon,
        ) != east(ring, n - 1, lon))),
    decreases n,
{
    reveal_with_fuel(hits, 2);
    if n > 1 {
        lemma_hits_parity(ring, crossings, lat, lon, (n - 1) as nat);
        assert(straddles(ring, n - 1, lon) == (east(ring, n - 1, lon) != east(ring, n - 2, lon)));
    }
}

/// Where no edge that straddles the meridian has its crossing to the north, nothing is hit.
proof fn lemma_no_hits(ring: RingView, crossings: Seq<Double>, lat: Double, lon: Double, n: nat)
    requires
        n <= ring.len(),
        forall|i: int|
            0 <= i < ring.len() && #[trigger] straddles(ring, i, lon) ==> !lat.below(crossings[i]),
    ensures
        hits(ring, crossings, lat, lon, n) == 0,
    decreases n,
{
    if n > 0 {
        lemma_no_hits(ring, crossings, lat, lon, (n - 1) as nat);
        assert(straddles(ring, n - 1, lon) ==> !lat.below(crossings[n - 1]));
    }
}

/// No point lies inside a ring of fewer than three vertices.
pub proof fn law_short_ring_has_no_inside(
    ring: RingView,
    crossings: Seq<Double>,
    lat: Double,
    lon: Double,
)
    requires
        ring.len() < 3,
    ensures
        !in_ring(ring, crossings, lat, lon),
{
}

/// A sequence that starts at place `k` and goes on from the front after its end.
pub open spec fn rotated<T>(s: Seq<T>, k: int) -> Seq<T> {
    s.skip(k) + s.take(k)
}

/// Whether a point lies inside a ring does not depend on the vertex that the ring starts with.
pub proof fn law_ring_may_start_anywhere(
    ring: RingView,
    crossings: Seq<Double>,
    lat: Double,
    lon: Double,
    k: int,
)
    requires
        crossings.len() == ring.len(),
        0 <= k <= ring.len(),
    ensures
        in_ring(rotated(ring, k), rotated(crossings, k), lat, lon) == in_ring(
            ring,
            crossings,
            lat,
            lon,
        ),
    decreases k,
{
    if k == 0 {
        assert(rotated(ring, 0) =~= ring);
        assert(rotated(crossings, 0) =~= crossings);
    } else {
        let r = rotated(ring, k - 1);
        let c = rotated(crossings, k - 1);
        law_ring_may_start_anywhere(ring, crossings, lat, lon, k - 1);
        assert(rotated(ring, k) =~= rotated(r, 1));
        assert(rotated(crossings, k) =~= rotated(c, 1));
        lemma_hits_from_second(r, c, lat, lon, (r.len() - 1) as nat);
        let turned = rotated(r, 1);
        let n = r.len() as int;
        assert(ray_hits(turned, rotated(c, 1), lat, lon, n - 1) == ray_hits(r, c, lat, lon, 0)) by {
            if n > 1 {
                assert(turned[n - 1] == r[0]);
                assert(turned[n - 2] == r[n - 1]);
            } else {
                assert(turned[0] == r[0]);
            }
        }
        reveal_with_fuel(hits, 2);
        assert(hits(turned, rotated(c, 1), lat, lon, n as nat) == hits(r, c, lat, lon, n as nat));
    }
}

/// After a turn by one, the first `m` edges are those from the second on.
proof fn lemma_hits_from_second(
    ring: RingView,
    crossings: Seq<Double>,
    lat: Double,
    lon: Double,
    m: nat,
)
    requires
        crossings.len() == ring.len(),
        m < ring.len(),
    ensures
        hits(ring, crossings, lat, lon, m + 1) == hits(
            rotated(ring, 1),
            rotated(crossings, 1),
            lat,
            lon,
            m,
        ) + hits(ring, crossings, lat, lon, 1),
    decreases m,
{
    if m > 0 {
        lemma_hits_from_second(ring, crossings, lat, lon, (m - 1) as nat);
        let turned = rotated(ring, 1);
        assert(turned[m - 1] == ring[m as int]);
        assert(rotated(crossings, 1)[m - 1] == crossings[m as int]);
        assert(turned[vertex_before(m - 1, ring.len() as int)] == ring[m - 1]);
        assert(ray_hits(turned, rotated(crossings, 1), lat, lon, m - 1) == ray_hits(
            ring,
            crossings,
            lat,
            lon,
            m as int,
        ));
    }
}

/// Whether a point lies inside a ring does not depend on whether the ring repeats its first vertex
/// at the end. The edge between the two has no extent, and where it crosses does not matter.
pub proof fn law_ring_may_be_closed(
    ring: RingView,
    crossings: Seq<Double>,
    lat: Double,
    lon: Double,
    anywhere: Double,
)
    requires
        ring.len() >= 3,
        crossings.len() == ring.len(),
    ensures
        in_ring(
            ring.push(ring[0]),
            crossings.update(0, anywhere).push(crossings[0]),
            lat,
            lon,
        ) == in_ring(ring, crossings, lat, lon),
{
    let n = ring.len();
    let closed = ring.push(ring[0]);
    let marks = crossings.update(0, anywhere).push(crossings[0]);
    lemma_hits_of_closed(ring, crossings, lat, lon, anywhere, n);
    assert(closed[n - 1] == ring[n - 1]);
    assert(ray_hits(closed, marks, lat, lon, n as int) == ray_hits(ring, crossings, lat, lon, 0));
    reveal_with_fuel(hits, 2);
}

proof fn lemma_hits_of_closed(
    ring: RingView,
    crossings: Seq<Double>,
    lat: Double,
    lon: Double,
    anywhere: Double,
    m: nat,
)
    requires
        ring.len() >= 3,
        crossings.len() == ring.len(),
        1 <= m <= ring.len(),
    ensures
        hits(ring, crossings, lat, lon, m) == hits(
            ring.push(ring[0]),
            crossings.update(0, anywhere).push(crossings[0]),
            lat,
            lon,
            m,
        ) + hits(ring, crossings, lat, lon, 1),
    decreases m,
{
    let closed = ring.push(ring[0]);
    let marks = crossings.update(0, anywhere).push(crossings[0]);
    if m == 1 {
        reveal_with_fuel(hits, 2);
        assert(closed[ring.len() as int] == ring[0]);
        assert(!straddles(closed, 0, lon));
    } else {
        lemma_hits_of_closed(ring, crossings, lat, lon, anywhere, (m - 1) as nat);
        assert(ray_hits(closed, marks, lat, lon, m - 1) == ray_hits(
            ring,
            crossings,
            lat,
            lon,
            m - 1,
        ));
    }
}

/// A polygon with one more hole, at any place among the others, holds a point exactly when the
/// polygon without it does and the hole as a polygon of its own does not.
pub proof fn law_holes_are_cut_out(
    exterior: RingView,
    holes: Seq<RingView>,
    outer: Seq<Double>,
    inner: Seq<Seq<Double>>,
    at: int,
    hole: RingView,
    crossings: Seq<Double>,
    lat: Double,
    lon: Double,
)
    requires
        (RegionView::Polygon { exterior, holes }).measured_by(
            MeasuredView::Crossings { exterior: outer, holes: inner },
        ),
        (RegionView::Polygon { exterior: hole, holes: Seq::empty() }).measured_by(
            MeasuredView::Crossings { exterior: crossings, holes: Seq::empty() },
        ),
        0 <= at <= holes.len(),
    ensures
        (RegionView::Polygon { exterior, holes: holes.insert(at, hole) }).holds(
            lat,
            lon,
            MeasuredView::Crossings { exterior: outer, holes: inner.insert(at, crossings) },
        ) == ((RegionView::Polygon { exterior, holes }).holds(
            lat,
            lon,
            MeasuredView::Crossings { exterior: outer, holes: inner },
        ) && !(RegionView::Polygon { exterior: hole, holes: Seq::empty() }).holds(
            lat,
            lon,
            MeasuredView::Crossings { exterior: crossings, holes: Seq::empty() },
        )),
{
    let more = holes.insert(at, hole);
    let marks = inner.insert(at, crossings);
    assert(more[at] == hole && marks[at] == crossings);
    assert(in_no_ring(Seq::<RingView>::empty(), Seq::<Seq<Double>>::empty(), lat, lon));
    if in_no_ring(more, marks, lat, lon) {
        assert forall|i: int| 0 <= i < holes.len() implies !#[trigger] in_ring(
            holes[i],
            inner[i],
            lat,
            lon,
        ) by {
            let k = if i < at {
                i
            } else {
                i + 1
            };
            assert(more[k] == holes[i] && marks[k] == inner[i]);
            assert(!in_ring(more[k], marks[k], lat, lon));
        }
        assert(!in_ring(more[at], marks[at], lat, lon));
    } else {
        let i = choose|i: int|
            0 <= i < more.len() && #[trigger] in_ring(more[i], marks[i], lat, lon);
        if i != at {
            let k = if i < at {
                i
            } else {
                i - 1
            };
            assert(more[i] == holes[k] && marks[i] == inner[k]);
            assert(in_ring(holes[k], inner[k], lat, lon));
        }
    }
}

/// No region holds a point with a coordinate that is not a number. Against a circle, the distance
/// of such a point is not a number either.
pub proof fn law_not_a_number_is_outside(
    region: RegionView,
    lat: Double,
    lon: Double,
    m: MeasuredView,
)
    requires
        lat.is_nan() || lon.is_nan(),
        region.measured_by(m),
        m matches MeasuredView::Distance(distance) ==> distance.is_nan(),
    ensures
        !region.holds(lat, lon, m),
{
    if let RegionView::Polygon { exterior, .. } = region {
        lemma_no_hits(exterior, m->exterior, lat, lon, exterior.len());
    }
}

/// A circle holds what a circle of no greater radius around the same centre holds.
pub proof fn law_wider_circle_holds_more(
    centre_lat: Double,
    centre_lon: Double,
    narrow: Double,
    wide: Double,
    lat: Double,
    lon: Double,
    distance: Double,
)
    requires
        narrow.at_most(wide),
        (RegionView::Circle { lat: centre_lat, lon: centre_lon, radius_nm: narrow }).holds(
            lat,
            lon,
            MeasuredView::Distance(distance),
        ),
    ensures
        (RegionView::Circle { lat: centre_lat, lon: centre_lon, radius_nm: wide }).holds(
            lat,
            lon,
            MeasuredView::Distance(distance),
        ),
{
}

/// Without a reported altitude, the geometry alone decides.
pub proof fn law_unknown_altitude_is_not_excluded(
    w: WatchedRegionView,
    lat: Double,
    lon: Double,
    m: MeasuredView,
)
    ensures
        w.admitted(lat, lon, None, m) == w.region.holds(lat, lon, m),
{
}

/// What a region admits, it also admits with its altitude band taken away.
pub proof fn law_band_only_excludes(
    w: WatchedRegionView,
    lat: Double,
    lon: Double,
    altitude_ft: Option<Double>,
    m: MeasuredView,
)
    ensures
        w.admitted(lat, lon, altitude_ft, m) ==> (WatchedRegionView {
            min_alt_ft: None,
            max_alt_ft: None,
            ..w
        }).admitted(lat, lon, altitude_ft, m),
{
}

} // verus!
