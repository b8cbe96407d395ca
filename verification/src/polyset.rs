//! The unit of indexing: an ordered list of polygons built from one
//! boundary file, each paired 1:1 with its administrative metadata, with
//! containment queries by position index.

use vstd::prelude::*;
use crate::geom::{
    Point, Polygon, RingV, polygon_wf, spec_outer_vertices, spec_polygon_contains,
};
use crate::normalize::{RawRing, load_polygon, spec_load_polygon};

verus! {

/// Administrative metadata attached to one polygon at insertion time and
/// never mutated afterwards.
#[derive(Debug)]
pub struct PolyInfo {
    pub district: String,
    pub level: i32,
    pub name: String,
}

/// Mathematical model of one metadata record.
pub struct PolyInfoV {
    pub district: Seq<char>,
    pub level: i32,
    pub name: Seq<char>,
}

impl View for PolyInfo {
    type V = PolyInfoV;

    open spec fn view(&self) -> PolyInfoV {
        PolyInfoV { district: self.district@, level: self.level, name: self.name@ }
    }
}

/// Raw data of one source record: the name drawn from its attributes and
/// its raw rings.
pub struct RawRecord {
    pub name: String,
    pub rings: Vec<RawRing>,
}

/// Mathematical model of one raw record.
pub struct RawRecordV {
    pub name: Seq<char>,
    pub rings: Seq<RingV>,
}

impl View for RawRecord {
    type V = RawRecordV;

    open spec fn view(&self) -> RawRecordV {
        RawRecordV { name: self.name@, rings: self.rings@.map_values(|rr: RawRing| rr@) }
    }
}

/// Mathematical model of a polygon set: the district it was built for (as
/// a position in the configured district list), its polygons, and the
/// metadata aligned index by index.
#[verifier::ext_equal]
pub struct PolygonSetV {
    pub district_idx: int,
    pub polygons: Seq<Seq<RingV>>,
    pub infos: Seq<PolyInfoV>,
}

/// An immutable collection of (polygon, metadata) pairs built from one
/// boundary file.
pub struct PolygonSet {
    pub district_idx: usize,
    pub polygons: Vec<Polygon>,
    pub infos: Vec<PolyInfo>,
}

impl View for PolygonSet {
    type V = PolygonSetV;

    open spec fn view(&self) -> PolygonSetV {
        PolygonSetV {
            district_idx: self.district_idx as int,
            polygons: self.polygons@.map_values(|p: Polygon| p@),
            infos: self.infos@.map_values(|i: PolyInfo| i@),
        }
    }
}

/// The alignment invariant: the polygon list and the metadata list have
/// identical length, and every polygon is usable by the containment
/// primitive.
pub open spec fn set_wf(s: PolygonSetV) -> bool {
    &&& s.polygons.len() == s.infos.len()
    &&& forall|i: int| 0 <= i < s.polygons.len() ==> polygon_wf(#[trigger] s.polygons[i])
}

/// The polygon set assembled from the raw records of one file, in record
/// order: one polygon and one metadata record per source record that
/// produced at least one valid ring; a record with none contributes
/// nothing.
pub open spec fn spec_polygon_set(
    district_idx: int,
    district: Seq<char>,
    level: i32,
    records: Seq<RawRecordV>,
) -> PolygonSetV
    decreases records.len(),
{
    if records.len() == 0 {
        PolygonSetV { district_idx, polygons: Seq::empty(), infos: Seq::empty() }
    } else {
        let pre = spec_polygon_set(district_idx, district, level, records.drop_last());
        let poly = spec_load_polygon(records.last().rings);
        if poly.len() > 0 {
            PolygonSetV {
                district_idx,
                polygons: pre.polygons.push(poly),
                infos: pre.infos.push(
                    PolyInfoV { district, level, name: records.last().name },
                ),
            }
        } else {
            pre
        }
    }
}

/// Position of the first polygon at or after `i` that contains `p`.
pub open spec fn spec_first_containing(polys: Seq<Seq<RingV>>, p: Point, i: int) -> Option<int>
    decreases polys.len() - i,
{
    if i < 0 || i >= polys.len() {
        None
    } else if spec_polygon_contains(polys[i], p) {
        Some(i)
    } else {
        spec_first_containing(polys, p, i + 1)
    }
}

impl PolygonSet {
    /// Builds the set for one (district, file) pair from its parsed
    /// records. Every record that yields at least one valid ring
    /// contributes exactly one polygon and one aligned metadata record.
    pub fn from_records(
        district_idx: usize,
        district: &String,
        level: i32,
        records: &Vec<RawRecord>,
    ) -> (r: PolygonSet)
        ensures
            r@ == spec_polygon_set(
                district_idx as int,
                district@,
                level,
                records@.map_values(|rec: RawRecord| rec@),
            ),
            set_wf(r@),
            r.district_idx == district_idx,
    {
        let ghost recs = records@.map_values(|rec: RawRecord| rec@);
        let mut polygons: Vec<Polygon> = Vec::new();
        let mut infos: Vec<PolyInfo> = Vec::new();
        let n = records.len();
        let mut i: usize = 0;
        while i < n
            invariant
                n == records@.len(),
                recs == records@.map_values(|rec: RawRecord| rec@),
                recs.len() == n,
                0 <= i <= n,
                ({
                    let s = spec_polygon_set(district_idx as int, district@, level,
                        recs.subrange(0, i as int));
                    polygons@.map_values(|p: Polygon| p@) == s.polygons && infos@.map_values(
                        |pi: PolyInfo| pi@,
                    ) == s.infos
                }),
                polygons@.len() == infos@.len(),
                forall|j: int|
                    0 <= j < polygons@.len() ==> polygon_wf(#[trigger] polygons@[j]@),
            decreases n - i,
        {
            let polygon = load_polygon(&records[i].rings);
            proof {
                assert(recs[i as int] == records@[i as int]@);
                assert(polygon@ == spec_load_polygon(recs[i as int].rings));
            }
            if polygon.rings.len() > 0 {
                proof {
                    assert(polygon@.len() == polygon.rings@.len());
                }
                polygons.push(polygon);
                infos.push(
                    PolyInfo {
                        district: district.clone(),
                        level,
                        name: records[i].name.clone(),
                    },
                );
            } else {
                proof {
                    assert(polygon@.len() == polygon.rings@.len());
                }
            }
            proof {
                let pre = recs.subrange(0, i as int);
                let cur = recs.subrange(0, i as int + 1);
                assert(cur.drop_last() =~= pre);
                assert(cur.last() == recs[i as int]);
                let s = spec_polygon_set(district_idx as int, district@, level, cur);
                assert(polygons@.map_values(|p: Polygon| p@) =~= s.polygons);
                assert(infos@.map_values(|pi: PolyInfo| pi@) =~= s.infos);
            }
            i += 1;
        }
        let r = PolygonSet { district_idx, polygons, infos };
        proof {
            assert(recs.subrange(0, n as int) =~= recs);
            lemma_polygon_set_district(district_idx as int, district@, level, recs);
            assert(r@ =~= spec_polygon_set(district_idx as int, district@, level, recs));
        }
        r
    }

    /// Position index of the first polygon of the set containing `p`, the
    /// deterministic answer of the containment primitive.
    pub fn containing_index(&self, p: Point) -> (r: Option<usize>)
        requires
            set_wf(self@),
        ensures
            match r {
                Some(i) => i < self@.polygons.len() && spec_first_containing(
                    self@.polygons,
                    p,
                    0,
                ) == Some(i as int),
                None => spec_first_containing(self@.polygons, p, 0) is None,
            },
    {
        let n = self.polygons.len();
        let mut i: usize = 0;
        while i < n
            invariant
                n == self.polygons@.len(),
                self@.polygons.len() == n,
                set_wf(self@),
                0 <= i <= n,
                spec_first_containing(self@.polygons, p, 0) == spec_first_containing(
                    self@.polygons,
                    p,
                    i as int,
                ),
            decreases n - i,
        {
            proof {
                assert(self@.polygons[i as int] == self.polygons@[i as int]@);
            }
            if self.polygons[i].contains(p) {
                return Some(i);
            }
            i += 1;
        }
        None
    }

    /// Containment query that additionally returns the matched polygon's
    /// outer-ring vertices.
    pub fn containing_index_with_geometry(&self, p: Point) -> (r: Option<(usize, Vec<Point>)>)
        requires
            set_wf(self@),
        ensures
            match r {
                Some(iv) => iv.0 < self@.polygons.len() && spec_first_containing(
                    self@.polygons,
                    p,
                    0,
                ) == Some(iv.0 as int) && iv.1@ == spec_outer_vertices(
                    self@.polygons[iv.0 as int],
                ),
                None => spec_first_containing(self@.polygons, p, 0) is None,
            },
    {
        match self.containing_index(p) {
            Some(i) => {
                proof {
                    assert(self@.polygons[i as int] == self.polygons@[i as int]@);
                }
                let verts = self.polygons[i].outer_vertices();
                Some((i, verts))
            },
            None => None,
        }
    }

    /// Number of (polygon, metadata) pairs in the set.
    pub fn len(&self) -> (r: usize)
        ensures
            r == self@.polygons.len(),
    {
        self.polygons.len()
    }
}

proof fn lemma_polygon_set_district(
    district_idx: int,
    district: Seq<char>,
    level: i32,
    records: Seq<RawRecordV>,
)
    ensures
        spec_polygon_set(district_idx, district, level, records).district_idx == district_idx,
    decreases records.len(),
{
    if records.len() > 0 {
        lemma_polygon_set_district(district_idx, district, level, records.drop_last());
    }
}

/// Law: building a set keeps the polygon list and the metadata list the
/// same length, whatever records it was built from.
pub proof fn lemma_polygon_set_aligned(
    district_idx: int,
    district: Seq<char>,
    level: i32,
    records: Seq<RawRecordV>,
)
    ensures
        spec_polygon_set(district_idx, district, level, records).polygons.len()
            == spec_polygon_set(district_idx, district, level, records).infos.len(),
    decreases records.len(),
{
    if records.len() > 0 {
        lemma_polygon_set_aligned(district_idx, district, level, records.drop_last());
    }
}

} // verus!
