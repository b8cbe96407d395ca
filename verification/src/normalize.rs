//! The ring normalizer: cleans one raw ordered point sequence into a
//! closed loop the containment index can use, and assembles the loops of
//! one source record into a polygon.

use vstd::prelude::*;
use crate::geom::{
    Point, Polygon, Ring, RingStatus, RingV, is_same_lnglat, polygon_wf, ring_wf,
    spec_same_lnglat,
};

verus! {

/// State of the normalization scan: the provisional first point, the two
/// most recently accepted positions, the surviving points, and the
/// whole-ring duplicate filter. The filter keeps even points later removed
/// by the spike rule, so a removed coordinate can never be re-accepted.
pub struct NormState {
    pub first: Point,
    pub prev: Point,
    pub pprev: Point,
    pub acc: Seq<Point>,
    pub filter: Seq<Point>,
}

pub open spec fn norm_init() -> NormState {
    NormState {
        first: Point { lon: 0, lat: 0 },
        prev: Point { lon: 0, lat: 0 },
        pprev: Point { lon: 0, lat: 0 },
        acc: Seq::empty(),
        filter: Seq::empty(),
    }
}

/// Whether the scan accepts the point at `idx`: the first point always;
/// a later point unless it repeats the previously tracked position, the
/// provisional first point, or the position two back.
pub open spec fn norm_ok(st: NormState, p: Point, idx: int) -> bool {
    ||| idx == 0
    ||| (!spec_same_lnglat(p, st.prev) && !spec_same_lnglat(p, st.first) && !spec_same_lnglat(
        p,
        st.pprev,
    ))
}

/// Whether the point at `idx` is an immediate back-and-forth (a spike),
/// which also removes the previously surviving point.
pub open spec fn norm_spike(st: NormState, p: Point, idx: int) -> bool {
    idx != 0 && spec_same_lnglat(p, st.pprev)
}

/// Whether `p` repeats, within tolerance, any coordinate the ring has
/// already accepted anywhere.
pub open spec fn norm_dup(st: NormState, p: Point) -> bool {
    exists|k: int| 0 <= k < st.filter.len() && spec_same_lnglat(p, #[trigger] st.filter[k])
}

/// One step of the scan at index `idx`; `last` marks the final raw point,
/// which is never accepted because it duplicates the ring's closing point
/// in the source format.
pub open spec fn norm_step(st: NormState, p: Point, idx: int, last: bool) -> NormState {
    let acc1 = if norm_spike(st, p, idx) {
        if st.acc.len() > 0 {
            st.acc.drop_last()
        } else {
            st.acc
        }
    } else {
        st.acc
    };
    if norm_ok(st, p, idx) && !last {
        NormState {
            first: if idx == 0 {
                p
            } else {
                st.first
            },
            prev: p,
            pprev: st.prev,
            acc: if norm_dup(st, p) {
                acc1
            } else {
                acc1.push(p)
            },
            filter: if norm_dup(st, p) {
                st.filter
            } else {
                st.filter.push(p)
            },
        }
    } else {
        NormState { first: st.first, prev: st.prev, pprev: st.pprev, acc: acc1, filter: st.filter }
    }
}

/// The scan state after the first `n` raw points.
pub open spec fn norm_upto(pts: Seq<Point>, n: int) -> NormState
    decreases n,
{
    if n <= 0 {
        norm_init()
    } else {
        norm_step(norm_upto(pts, n - 1), pts[n - 1], n - 1, n - 1 == pts.len() - 1)
    }
}

/// The cleaned point sequence that survives normalization of `pts`.
pub open spec fn spec_normalize_ring(pts: Seq<Point>) -> Seq<Point> {
    norm_upto(pts, pts.len() as int).acc
}

/// Invariant of the scan: every surviving point is recorded in the filter,
/// and both the filter and the surviving points are pairwise farther apart
/// than the same-location tolerance.
pub open spec fn norm_state_inv(st: NormState) -> bool {
    &&& forall|i: int| 0 <= i < st.acc.len() ==> st.filter.contains(#[trigger] st.acc[i])
    &&& forall|k: int, l: int|
        0 <= k < l < st.filter.len() ==> !spec_same_lnglat(
            #[trigger] st.filter[k],
            #[trigger] st.filter[l],
        )
    &&& forall|i: int, j: int|
        0 <= i < j < st.acc.len() ==> !spec_same_lnglat(
            #[trigger] st.acc[i],
            #[trigger] st.acc[j],
        )
}

proof fn lemma_norm_step_inv(st: NormState, p: Point, idx: int, last: bool)
    requires
        norm_state_inv(st),
    ensures
        norm_state_inv(norm_step(st, p, idx, last)),
{
    let acc1 = if norm_spike(st, p, idx) {
        if st.acc.len() > 0 {
            st.acc.drop_last()
        } else {
            st.acc
        }
    } else {
        st.acc
    };
    assert(forall|i: int| 0 <= i < acc1.len() ==> acc1[i] == st.acc[i]);
    let st1 = norm_step(st, p, idx, last);
    if norm_ok(st, p, idx) && !last && !norm_dup(st, p) {
        assert forall|i: int| 0 <= i < st1.acc.len() implies st1.filter.contains(
            #[trigger] st1.acc[i],
        ) by {
            if i < st1.acc.len() - 1 {
                let k = choose|k: int| 0 <= k < st.filter.len() && st.filter[k] == acc1[i];
                assert(st1.filter[k] == acc1[i]);
            } else {
                assert(st1.filter[st.filter.len() as int] == p);
            }
        }
        assert forall|i: int, j: int| 0 <= i < j < st1.acc.len() implies !spec_same_lnglat(
            #[trigger] st1.acc[i],
            #[trigger] st1.acc[j],
        ) by {
            if j == st1.acc.len() - 1 {
                let k = choose|k: int| 0 <= k < st.filter.len() && st.filter[k] == acc1[i];
                assert(!spec_same_lnglat(p, st.filter[k]));
            }
        }
    }
}

/// Law: after normalization no two surviving points, adjacent or not, lie
/// within the same-location tolerance of each other.
pub proof fn lemma_normalize_distinct(pts: Seq<Point>)
    ensures
        forall|i: int, j: int|
            0 <= i < j < spec_normalize_ring(pts).len() ==> !spec_same_lnglat(
                #[trigger] spec_normalize_ring(pts)[i],
                #[trigger] spec_normalize_ring(pts)[j],
            ),
{
    lemma_norm_upto_inv(pts, pts.len() as int);
}

proof fn lemma_norm_upto_inv(pts: Seq<Point>, n: int)
    ensures
        norm_state_inv(norm_upto(pts, n)),
    decreases n,
{
    if n > 0 {
        lemma_norm_upto_inv(pts, n - 1);
        lemma_norm_step_inv(norm_upto(pts, n - 1), pts[n - 1], n - 1, n - 1 == pts.len() - 1);
    }
}

/// Cleans one raw ring in point order: drops repeats of the previous
/// point, of the provisional first point, and of any coordinate accepted
/// anywhere earlier in the ring; resolves immediate back-and-forth spikes
/// by also removing the previously surviving point; and never accepts the
/// final raw point, which the source format uses to close the ring.
pub fn normalize_ring(points: &Vec<Point>) -> (r: Vec<Point>)
    ensures
        r@ == spec_normalize_ring(points@),
        forall|i: int, j: int|
            0 <= i < j < r@.len() ==> !spec_same_lnglat(#[trigger] r@[i], #[trigger] r@[j]),
{
    let n = points.len();
    let mut first = Point { lon: 0, lat: 0 };
    let mut prev = Point { lon: 0, lat: 0 };
    let mut pprev = Point { lon: 0, lat: 0 };
    let mut acc: Vec<Point> = Vec::new();
    let mut filter: Vec<Point> = Vec::new();
    let mut idx: usize = 0;
    while idx < n
        invariant
            n == points@.len(),
            0 <= idx <= n,
            first == norm_upto(points@, idx as int).first,
            prev == norm_upto(points@, idx as int).prev,
            pprev == norm_upto(points@, idx as int).pprev,
            acc@ == norm_upto(points@, idx as int).acc,
            filter@ == norm_upto(points@, idx as int).filter,
        decreases n - idx,
    {
        let ghost st = norm_upto(points@, idx as int);
        let p = points[idx];
        let mut ok = false;
        if idx == 0 {
            ok = true;
        } else {
            if !is_same_lnglat(p, prev) {
                ok = true;
            }
            if is_same_lnglat(p, first) {
                ok = false;
            }
            if is_same_lnglat(p, pprev) {
                ok = false;
                let _ = acc.pop();
            }
        }
        assert(ok == (norm_ok(st, p, idx as int) && idx < n));
        if ok && idx + 1 < n {
            pprev = prev;
            prev = p;
            if idx == 0 {
                first = p;
            }
            let mut dup = false;
            let mut k: usize = 0;
            let flen = filter.len();
            while k < flen
                invariant
                    flen == filter@.len(),
                    0 <= k <= flen,
                    dup == exists|k2: int|
                        0 <= k2 < k && spec_same_lnglat(p, #[trigger] filter@[k2]),
                decreases flen - k,
            {
                if is_same_lnglat(p, filter[k]) {
                    dup = true;
                }
                k += 1;
            }
            assert(dup == norm_dup(st, p));
            if !dup {
                acc.push(p);
                filter.push(p);
            }
        }
        proof {
            let st1 = norm_step(st, p, idx as int, idx == n - 1);
            assert(norm_upto(points@, idx as int + 1) == st1);
            assert(acc@ =~= st1.acc);
            assert(filter@ =~= st1.filter);
        }
        idx += 1;
    }
    proof {
        lemma_normalize_distinct(points@);
    }
    acc
}

/// What survives of one raw ring: the cleaned loop, kept only when at
/// least three points survive and all lie in the geographic domain the
/// containment index accepts; anything else is dropped silently.
pub open spec fn spec_kept_ring(raw: RingV) -> Option<RingV> {
    let cleaned = RingV { outer: raw.outer, points: spec_normalize_ring(raw.points) };
    if ring_wf(cleaned) {
        Some(cleaned)
    } else {
        None
    }
}

/// The loops of one polygon assembled from the raw rings of one source
/// record, in ring order.
pub open spec fn spec_load_polygon(raws: Seq<RingV>) -> Seq<RingV>
    decreases raws.len(),
{
    if raws.len() == 0 {
        Seq::empty()
    } else {
        spec_load_polygon(raws.drop_last()) + match spec_kept_ring(raws.last()) {
            Some(r) => seq![r],
            None => Seq::empty(),
        }
    }
}

/// Law: the ring closure invariant. Every ring that survives assembly
/// has at least three points, and no two of its points, adjacent or not,
/// lie within the same-location tolerance; a ring that cannot meet this
/// is dropped entirely.
pub proof fn lemma_ring_closure_invariant(raws: Seq<RingV>)
    ensures
        forall|k: int|
            0 <= k < spec_load_polygon(raws).len() ==> (#[trigger] spec_load_polygon(
                raws,
            )[k]).points.len() >= 3,
        forall|k: int, i: int, j: int|
            #![trigger spec_load_polygon(raws)[k].points[i], spec_load_polygon(raws)[k].points[j]]
            0 <= k < spec_load_polygon(raws).len() && 0 <= i < j < spec_load_polygon(
                raws,
            )[k].points.len() ==> !spec_same_lnglat(
                spec_load_polygon(raws)[k].points[i],
                spec_load_polygon(raws)[k].points[j],
            ),
    decreases raws.len(),
{
    if raws.len() > 0 {
        lemma_ring_closure_invariant(raws.drop_last());
        let pre = spec_load_polygon(raws.drop_last());
        let cur = spec_load_polygon(raws);
        match spec_kept_ring(raws.last()) {
            Some(r) => {
                lemma_normalize_distinct(raws.last().points);
                assert(forall|k: int| 0 <= k < pre.len() ==> cur[k] == pre[k]);
                assert(cur[pre.len() as int] == r);
            },
            None => {
                assert(cur =~= pre);
            },
        }
    }
}

/// Raw ring data of one source record: its ordered points and the
/// outer/inner tag the source gave it.
pub struct RawRing {
    pub outer: bool,
    pub points: Vec<Point>,
}

impl View for RawRing {
    type V = RingV;

    open spec fn view(&self) -> RingV {
        RingV { outer: self.outer, points: self.points@ }
    }
}

/// Builds one polygon from the raw rings of one source record: each ring
/// is normalized, handed to the loop constructor, and kept only when the
/// constructor accepts it. A ring rejected with the one expected ignorable
/// status is dropped silently; fewer than three surviving points drop the
/// ring before the constructor ever sees it.
pub fn load_polygon(rings: &Vec<RawRing>) -> (r: Polygon)
    ensures
        r@ == spec_load_polygon(rings@.map_values(|rr: RawRing| rr@)),
        polygon_wf(r@),
{
    let ghost raws = rings@.map_values(|rr: RawRing| rr@);
    let mut polygon = Polygon::new();
    let n = rings.len();
    let mut i: usize = 0;
    while i < n
        invariant
            n == rings@.len(),
            raws == rings@.map_values(|rr: RawRing| rr@),
            raws.len() == n,
            0 <= i <= n,
            polygon@ == spec_load_polygon(raws.subrange(0, i as int)),
            polygon_wf(polygon@),
        decreases n - i,
    {
        let cleaned = normalize_ring(&rings[i].points);
        let ghost cleaned_v = RingV { outer: rings@[i as int].outer, points: cleaned@ };
        if cleaned.len() >= 3 {
            let (status, ring) = Ring::init(cleaned, rings[i].outer);
            match ring {
                Some(ring) => {
                    polygon.add(ring);
                },
                None => {
                    proof {
                        assert(status != RingStatus::Accepted);
                        assert(!ring_wf(cleaned_v));
                    }
                },
            }
        }
        proof {
            let pre = raws.subrange(0, i as int);
            let cur = raws.subrange(0, i as int + 1);
            assert(cur.drop_last() =~= pre);
            assert(cur.last() == raws[i as int]);
            assert(raws[i as int] == rings@[i as int]@);
            assert(polygon@ =~= spec_load_polygon(cur));
        }
        i += 1;
    }
    proof {
        assert(raws.subrange(0, n as int) =~= raws);
    }
    polygon
}

} // verus!
