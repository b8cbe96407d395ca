//! Points, rings and polygons, and the point-in-polygon containment
//! primitive: an even-odd ray cast over fixed-point integer coordinates.

use vstd::prelude::*;

verus! {

/// Largest representable longitude: 180 degrees in 1e-7-degree units.
pub const MAX_ABS_LON: i64 = 1_800_000_000;

/// Largest representable latitude: 90 degrees in 1e-7-degree units.
pub const MAX_ABS_LAT: i64 = 900_000_000;

/// A geographic point in fixed-point degrees: one unit is 1e-7 of a degree,
/// the resolution at which two coordinates are considered the same.
#[derive(Clone, Copy, PartialEq, Eq, Structural, Debug)]
pub struct Point {
    pub lon: i64,
    pub lat: i64,
}

/// Two points are the same location when both coordinates differ by at
/// most one unit (1e-7 of a degree) in absolute value.
pub open spec fn spec_same_lnglat(a: Point, b: Point) -> bool {
    -1 <= a.lon - b.lon <= 1 && -1 <= a.lat - b.lat <= 1
}

/// Tolerance comparison of two points, one unit per axis.
pub fn is_same_lnglat(a: Point, b: Point) -> (r: bool)
    ensures
        r == spec_same_lnglat(a, b),
{
    let dx: i128 = a.lon as i128 - b.lon as i128;
    let dy: i128 = a.lat as i128 - b.lat as i128;
    -1 <= dx && dx <= 1 && -1 <= dy && dy <= 1
}

/// A point lies in the geographic domain the index accepts.
pub open spec fn spec_point_in_range(p: Point) -> bool {
    &&& -MAX_ABS_LON <= p.lon <= MAX_ABS_LON
    &&& -MAX_ABS_LAT <= p.lat <= MAX_ABS_LAT
}

/// Range check for one point.
pub fn point_in_range(p: Point) -> (r: bool)
    ensures
        r == spec_point_in_range(p),
{
    -MAX_ABS_LON <= p.lon && p.lon <= MAX_ABS_LON && -MAX_ABS_LAT <= p.lat && p.lat
        <= MAX_ABS_LAT
}

/// Orientation determinant of the edge `a -> b` against the query point `p`:
/// positive when `p` lies to the left of the directed edge.
pub open spec fn spec_edge_det(a: Point, b: Point, p: Point) -> int {
    (b.lon - a.lon) * (p.lat - a.lat) - (p.lon - a.lon) * (b.lat - a.lat)
}

/// The edge `a -> b` crosses the horizontal ray that leaves `p` towards
/// increasing longitude. The rule is half-open in latitude, so a vertex
/// exactly at the query latitude is counted on one side only and each
/// crossing is counted exactly once around the ring.
pub open spec fn spec_edge_crosses(a: Point, b: Point, p: Point) -> bool {
    &&& (a.lat > p.lat) != (b.lat > p.lat)
    &&& if b.lat > a.lat {
        spec_edge_det(a, b, p) > 0
    } else {
        spec_edge_det(a, b, p) < 0
    }
}

/// Crossing test for one edge of a ring, exact over i128 intermediates.
pub fn edge_crosses(a: Point, b: Point, p: Point) -> (r: bool)
    requires
        spec_point_in_range(a),
        spec_point_in_range(b),
    ensures
        r == spec_edge_crosses(a, b, p),
{
    let above_a = a.lat > p.lat;
    let above_b = b.lat > p.lat;
    if above_a == above_b {
        return false;
    }
    let dbx: i128 = b.lon as i128 - a.lon as i128;
    let dpy: i128 = p.lat as i128 - a.lat as i128;
    let dpx: i128 = p.lon as i128 - a.lon as i128;
    let dby: i128 = b.lat as i128 - a.lat as i128;
    proof {
        assert(-3_600_000_000 <= dbx <= 3_600_000_000);
        assert(-9_300_000_000_000_000_000 <= dpy <= 9_300_000_000_000_000_000);
        assert(-9_300_000_000_000_000_000 <= dpx <= 9_300_000_000_000_000_000);
        assert(-1_800_000_000 <= dby <= 1_800_000_000);
        assert(-34_000_000_000_000_000_000_000_000_000 <= dbx * dpy
            <= 34_000_000_000_000_000_000_000_000_000) by (nonlinear_arith)
            requires
                -3_600_000_000 <= dbx <= 3_600_000_000,
                -9_300_000_000_000_000_000 <= dpy <= 9_300_000_000_000_000_000,
        ;
        assert(-17_000_000_000_000_000_000_000_000_000 <= dpx * dby
            <= 17_000_000_000_000_000_000_000_000_000) by (nonlinear_arith)
            requires
                -9_300_000_000_000_000_000 <= dpx <= 9_300_000_000_000_000_000,
                -1_800_000_000 <= dby <= 1_800_000_000,
        ;
    }
    let det: i128 = dbx * dpy - dpx * dby;
    if b.lat > a.lat {
        det > 0
    } else {
        det < 0
    }
}

/// Number of edges among the first `n` edges of the closed ring whose
/// horizontal ray from `p` they cross. Edge `i` runs from vertex `i` to
/// vertex `i + 1`, the last edge closing back to vertex `0`.
pub open spec fn spec_crossings_upto(ring: Seq<Point>, p: Point, n: int) -> int
    decreases n,
{
    if n <= 0 {
        0
    } else {
        spec_crossings_upto(ring, p, n - 1) + if spec_edge_crosses(
            ring[n - 1],
            ring[if n == ring.len() as int {
                0
            } else {
                n
            }],
            p,
        ) {
            1int
        } else {
            0int
        }
    }
}

/// A point is inside a closed ring when the ray cast crosses an odd
/// number of its edges.
pub open spec fn spec_ring_contains(ring: Seq<Point>, p: Point) -> bool {
    spec_crossings_upto(ring, p, ring.len() as int) % 2 == 1
}

/// Mathematical model of one ring: its vertex sequence and whether the
/// source tagged it as an outer shell or an inner hole.
pub struct RingV {
    pub outer: bool,
    pub points: Seq<Point>,
}

/// One boundary loop of a polygon, tagged `outer` or `inner` as given by
/// the source geometry.
#[derive(Debug)]
pub struct Ring {
    pub outer: bool,
    pub points: Vec<Point>,
}

impl View for Ring {
    type V = RingV;

    open spec fn view(&self) -> RingV {
        RingV { outer: self.outer, points: self.points@ }
    }
}

/// A usable ring: at least three vertices, all inside the geographic domain.
pub open spec fn ring_wf(r: RingV) -> bool {
    &&& r.points.len() >= 3
    &&& forall|i: int| 0 <= i < r.points.len() ==> spec_point_in_range(#[trigger] r.points[i])
}

pub open spec fn spec_ring_v_contains(r: RingV, p: Point) -> bool {
    spec_ring_contains(r.points, p)
}

/// Outcome of handing a cleaned ring to the containment index. Exactly one
/// code is expected and ignorable (`IgnoredOutOfRange`: dirty data outside
/// the geographic domain is silently dropped); `AnomalousTooFewPoints`
/// signals a caller that skipped normalization, and is anomalous.
#[derive(Clone, Copy, PartialEq, Eq, Structural, Debug)]
pub enum RingStatus {
    Accepted,
    IgnoredOutOfRange,
    AnomalousTooFewPoints,
}

impl Ring {
    /// Constructs the containment-index loop for a cleaned ring, validating
    /// it against the domain the ray cast is exact over.
    pub fn init(points: Vec<Point>, outer: bool) -> (r: (RingStatus, Option<Ring>))
        ensures
            r.0 == RingStatus::AnomalousTooFewPoints <==> points@.len() < 3,
            r.0 == RingStatus::IgnoredOutOfRange <==> points@.len() >= 3 && exists|i: int|
                0 <= i < points@.len() && !spec_point_in_range(#[trigger] points@[i]),
            r.0 == RingStatus::Accepted <==> ring_wf(RingV { outer, points: points@ }),
            r.1 matches Some(ring) ==> r.0 == RingStatus::Accepted && ring@ == (RingV {
                outer,
                points: points@,
            }),
            r.0 == RingStatus::Accepted ==> r.1 is Some,
    {
        if points.len() < 3 {
            return (RingStatus::AnomalousTooFewPoints, None);
        }
        let n = points.len();
        let mut i: usize = 0;
        while i < n
            invariant
                n == points@.len(),
                n >= 3,
                0 <= i <= n,
                forall|j: int| 0 <= j < i ==> spec_point_in_range(#[trigger] points@[j]),
            decreases n - i,
        {
            if !point_in_range(points[i]) {
                proof {
                    assert(!spec_point_in_range(points@[i as int]));
                }
                return (RingStatus::IgnoredOutOfRange, None);
            }
            i += 1;
        }
        (RingStatus::Accepted, Some(Ring { outer, points }))
    }

    /// Even-odd containment over this ring's closed edge sequence.
    pub fn contains(&self, p: Point) -> (r: bool)
        requires
            ring_wf(self@),
        ensures
            r == spec_ring_v_contains(self@, p),
    {
        let n = self.points.len();
        let mut inside = false;
        let mut i: usize = 0;
        while i < n
            invariant
                n == self.points@.len(),
                n >= 3,
                0 <= i <= n,
                ring_wf(self@),
                inside == (spec_crossings_upto(self.points@, p, i as int) % 2 == 1),
            decreases n - i,
        {
            let j: usize = if i + 1 == n {
                0
            } else {
                i + 1
            };
            if edge_crosses(self.points[i], self.points[j], p) {
                inside = !inside;
            }
            i += 1;
        }
        inside
    }
}

/// Number of rings among the first `n` of the polygon that contain `p`.
pub open spec fn spec_hits_upto(rings: Seq<RingV>, p: Point, n: int) -> int
    decreases n,
{
    if n <= 0 {
        0
    } else {
        spec_hits_upto(rings, p, n - 1) + if spec_ring_v_contains(rings[n - 1], p) {
            1int
        } else {
            0int
        }
    }
}

/// Even-odd rule across all rings of one polygon: shells switch a point
/// in, holes switch it back out.
pub open spec fn spec_polygon_contains(rings: Seq<RingV>, p: Point) -> bool {
    spec_hits_upto(rings, p, rings.len() as int) % 2 == 1
}

pub open spec fn polygon_wf(rings: Seq<RingV>) -> bool {
    forall|i: int| 0 <= i < rings.len() ==> ring_wf(#[trigger] rings[i])
}

/// Vertices of the first outer-tagged ring at or after position `i`,
/// empty when none is tagged outer.
pub open spec fn spec_outer_vertices_from(rings: Seq<RingV>, i: int) -> Seq<Point>
    decreases rings.len() - i,
{
    if i < 0 || i >= rings.len() {
        Seq::empty()
    } else if rings[i].outer {
        rings[i].points
    } else {
        spec_outer_vertices_from(rings, i + 1)
    }
}

/// Vertices of the polygon's first outer ring.
pub open spec fn spec_outer_vertices(rings: Seq<RingV>) -> Seq<Point> {
    spec_outer_vertices_from(rings, 0)
}

/// One administrative region's boundary: one or more rings from one
/// source record.
#[derive(Debug)]
pub struct Polygon {
    pub rings: Vec<Ring>,
}

impl View for Polygon {
    type V = Seq<RingV>;

    open spec fn view(&self) -> Seq<RingV> {
        self.rings@.map_values(|r: Ring| r@)
    }
}

impl Polygon {
    /// A polygon with no rings yet.
    pub fn new() -> (r: Polygon)
        ensures
            r@ =~= Seq::<RingV>::empty(),
    {
        Polygon { rings: Vec::new() }
    }

    /// Appends one accepted ring.
    pub fn add(&mut self, ring: Ring)
        ensures
            final(self)@ =~= old(self)@.push(ring@),
    {
        self.rings.push(ring);
    }

    /// Even-odd containment across all rings.
    pub fn contains(&self, p: Point) -> (r: bool)
        requires
            polygon_wf(self@),
        ensures
            r == spec_polygon_contains(self@, p),
    {
        let n = self.rings.len();
        let mut inside = false;
        let mut i: usize = 0;
        while i < n
            invariant
                n == self.rings@.len(),
                0 <= i <= n,
                polygon_wf(self@),
                self@.len() == n,
                inside == (spec_hits_upto(self@, p, i as int) % 2 == 1),
            decreases n - i,
        {
            assert(self@[i as int] == self.rings@[i as int]@);
            if self.rings[i].contains(p) {
                inside = !inside;
            }
            i += 1;
        }
        inside
    }

    /// Copy of the vertices of the first outer-tagged ring; empty when the
    /// polygon has no outer ring.
    pub fn outer_vertices(&self) -> (r: Vec<Point>)
        ensures
            r@ == spec_outer_vertices(self@),
    {
        let n = self.rings.len();
        let mut i: usize = 0;
        while i < n
            invariant
                n == self.rings@.len(),
                self@.len() == n,
                0 <= i <= n,
                spec_outer_vertices(self@) == spec_outer_vertices_from(self@, i as int),
                forall|j: int| 0 <= j < i ==> !(#[trigger] self@[j]).outer,
            decreases n - i,
        {
            assert(self@[i as int] == self.rings@[i as int]@);
            if self.rings[i].outer {
                let src = &self.rings[i];
                let m = src.points.len();
                let mut out: Vec<Point> = Vec::new();
                let mut k: usize = 0;
                while k < m
                    invariant
                        m == src.points@.len(),
                        0 <= k <= m,
                        out@ =~= src.points@.subrange(0, k as int),
                    decreases m - k,
                {
                    out.push(src.points[k]);
                    k += 1;
                }
                assert(out@ =~= src.points@);
                return out;
            }
            i += 1;
        }
        Vec::new()
    }
}

} // verus!
