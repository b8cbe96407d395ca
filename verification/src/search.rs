//! The three-tier search engine: an ordered tier-1 list of polygon sets,
//! district-keyed tier-2 and tier-3 lists, and the tiered containment
//! query protocol with its ordering guarantee.

use vstd::prelude::*;
use crate::config::Search as SearchConfig;
use crate::geom::{Point, spec_outer_vertices};
use crate::polyset::{PolyInfoV, PolygonSet, PolygonSetV, set_wf, spec_first_containing};

verus! {

/// One match of a query: the region's metadata, and for tier-3 matches
/// the matched polygon's outer-ring vertices.
#[derive(Debug)]
pub struct Info {
    pub district: String,
    pub level: i32,
    pub name: String,
    pub lnglats: Vec<Point>,
}

/// Mathematical model of one match.
pub struct InfoV {
    pub district: Seq<char>,
    pub level: i32,
    pub name: Seq<char>,
    pub lnglats: Seq<Point>,
}

impl View for Info {
    type V = InfoV;

    open spec fn view(&self) -> InfoV {
        InfoV {
            district: self.district@,
            level: self.level,
            name: self.name@,
            lnglats: self.lnglats@,
        }
    }
}

pub open spec fn infos_view(s: Seq<Info>) -> Seq<InfoV> {
    s.map_values(|x: Info| x@)
}

pub open spec fn sets_view(s: Seq<PolygonSet>) -> Seq<PolygonSetV> {
    s.map_values(|x: PolygonSet| x@)
}

/// The match built from one metadata record.
pub open spec fn info_of(pi: PolyInfoV, lnglats: Seq<Point>) -> InfoV {
    InfoV { district: pi.district, level: pi.level, name: pi.name, lnglats }
}

/// Mathematical model of the engine: the configured district list and the
/// three tiers.
#[verifier::ext_equal]
pub struct SearchV {
    pub districts: Seq<Seq<char>>,
    pub hierarchies: Seq<PolygonSetV>,
    pub district_par: Seq<Seq<PolygonSetV>>,
    pub district_par_any: Seq<Seq<PolygonSetV>>,
}

/// The three-tier index. Tier-1 is an ordered list whose build order is
/// the order hits are recorded in; tiers 2 and 3 are keyed by the
/// district's position in the configured district list.
pub struct Search {
    pub config: SearchConfig,
    pub hierarchies: Vec<PolygonSet>,
    pub district_par: Vec<Vec<PolygonSet>>,
    pub district_par_any: Vec<Vec<PolygonSet>>,
}

impl View for Search {
    type V = SearchV;

    open spec fn view(&self) -> SearchV {
        SearchV {
            districts: self.config.districts@.map_values(|s: String| s@),
            hierarchies: sets_view(self.hierarchies@),
            district_par: self.district_par@.map_values(|v: Vec<PolygonSet>| sets_view(v@)),
            district_par_any: self.district_par_any@.map_values(
                |v: Vec<PolygonSet>| sets_view(v@),
            ),
        }
    }
}

/// Well-formedness of the engine: tier-2 and tier-3 hold one list per
/// configured district, every set is aligned, and every set's district
/// position is a valid key.
pub open spec fn search_wf(s: SearchV) -> bool {
    &&& s.district_par.len() == s.districts.len()
    &&& s.district_par_any.len() == s.districts.len()
    &&& forall|k: int|
        0 <= k < s.hierarchies.len() ==> set_wf(#[trigger] s.hierarchies[k]) && 0
            <= s.hierarchies[k].district_idx < s.districts.len()
    &&& forall|d: int, j: int|
        0 <= d < s.district_par.len() && 0 <= j < s.district_par[d].len() ==> set_wf(
            #[trigger] s.district_par[d][j],
        )
    &&& forall|d: int, j: int|
        0 <= d < s.district_par_any.len() && 0 <= j < s.district_par_any[d].len() ==> set_wf(
            #[trigger] s.district_par_any[d][j],
        )
}

/// Zero-geometry matches of every tier-2 set from position `j` on that
/// contains `p`, in list order. Tier-2 entries are independent overlay
/// layers: every hit is recorded.
pub open spec fn spec_tier2_from(sets: Seq<PolygonSetV>, p: Point, j: int) -> Seq<InfoV>
    decreases sets.len() - j,
{
    if j < 0 || j >= sets.len() {
        Seq::empty()
    } else {
        let rest = spec_tier2_from(sets, p, j + 1);
        match spec_first_containing(sets[j].polygons, p, 0) {
            Some(i) => seq![info_of(sets[j].infos[i], Seq::empty())] + rest,
            None => rest,
        }
    }
}

/// First-match-wins over the tier-3 sets from position `j` on: the match
/// of the first set containing `p`, with the matched polygon's outer-ring
/// vertices; at most one match is ever produced.
pub open spec fn spec_tier3_from(sets: Seq<PolygonSetV>, p: Point, j: int) -> Option<InfoV>
    decreases sets.len() - j,
{
    if j < 0 || j >= sets.len() {
        None
    } else {
        match spec_first_containing(sets[j].polygons, p, 0) {
            Some(i) => Some(
                info_of(sets[j].infos[i], spec_outer_vertices(sets[j].polygons[i])),
            ),
            None => spec_tier3_from(sets, p, j + 1),
        }
    }
}

/// Everything one tier-1 set contributes for `p`: nothing on a miss; on a
/// hit, its own zero-geometry match, then every tier-2 match of the
/// active district, then the active district's single tier-3 match if
/// any.
pub open spec fn spec_hit_block(s: SearchV, k: int, p: Point) -> Seq<InfoV> {
    let set = s.hierarchies[k];
    match spec_first_containing(set.polygons, p, 0) {
        None => Seq::empty(),
        Some(i) => {
            let d = set.district_idx;
            let base = seq![info_of(set.infos[i], Seq::empty())];
            let t2 = spec_tier2_from(s.district_par[d], p, 0);
            let t3 = match spec_tier3_from(s.district_par_any[d], p, 0) {
                Some(x) => seq![x],
                None => Seq::empty(),
            };
            base + t2 + t3
        },
    }
}

/// All matches recorded over the first `n` tier-1 sets, in recording
/// order.
pub open spec fn spec_collect_upto(s: SearchV, p: Point, n: int) -> Seq<InfoV>
    decreases n,
{
    if n <= 0 {
        Seq::empty()
    } else {
        spec_collect_upto(s, p, n - 1) + spec_hit_block(s, n - 1, p)
    }
}

/// All matches the tiered protocol records for `p`, before sorting.
pub open spec fn spec_collect(s: SearchV, p: Point) -> Seq<InfoV> {
    spec_collect_upto(s, p, s.hierarchies.len() as int)
}

/// Sorted by administrative level, ascending.
pub open spec fn sorted_by_level(s: Seq<InfoV>) -> bool {
    forall|i: int, j: int| 0 <= i < j < s.len() ==> s[i].level <= s[j].level
}

/// The subsequence of matches at one level, in order.
pub open spec fn level_filter(s: Seq<InfoV>, l: i32) -> Seq<InfoV> {
    s.filter(|x: InfoV| x.level == l)
}

proof fn lemma_level_filter_distributes(a: Seq<InfoV>, b: Seq<InfoV>, l: i32)
    ensures
        level_filter(a + b, l) == level_filter(a, l) + level_filter(b, l),
{
    Seq::<InfoV>::filter_distributes_over_add(a, b, |x: InfoV| x.level == l);
}

proof fn lemma_level_filter_none(s: Seq<InfoV>, l: i32)
    requires
        forall|i: int| 0 <= i < s.len() ==> (#[trigger] s[i]).level != l,
    ensures
        level_filter(s, l) == Seq::<InfoV>::empty(),
    decreases s.len(),
{
    reveal(Seq::filter);
    if s.len() > 0 {
        lemma_level_filter_none(s.drop_last(), l);
        assert(level_filter(s, l) =~= Seq::<InfoV>::empty());
    } else {
        assert(level_filter(s, l) =~= Seq::<InfoV>::empty());
    }
}

proof fn lemma_level_filter_singleton(x: InfoV, l: i32)
    ensures
        x.level == l ==> level_filter(seq![x], l) == seq![x],
        x.level != l ==> level_filter(seq![x], l) == Seq::<InfoV>::empty(),
{
    reveal_with_fuel(Seq::filter, 2);
    assert(seq![x].drop_last() =~= Seq::<InfoV>::empty());
    if x.level == l {
        assert(level_filter(seq![x], l) =~= seq![x]);
    } else {
        assert(level_filter(seq![x], l) =~= Seq::<InfoV>::empty());
    }
}

proof fn lemma_filter_elements(s: Seq<InfoV>, l: i32, x: InfoV)
    requires
        level_filter(s, l).contains(x),
    ensures
        s.contains(x),
    decreases s.len(),
{
    reveal(Seq::filter);
    if s.len() > 0 {
        let f = level_filter(s, l);
        if x == s.last() {
            assert(s[s.len() - 1] == x);
        } else {
            if f.len() > 0 && s.last().level == l && f.last() == x {
                assert(false);
            }
            lemma_filter_elements(s.drop_last(), l, x);
            let i = choose|i: int| 0 <= i < s.drop_last().len() && s.drop_last()[i] == x;
            assert(s[i] == x);
        }
    }
}

/// Law: the level-sorted reordering of the returned list loses no match.
/// Whatever relates two lists level by level, as `search`'s contract
/// relates its result to the collected matches, holds every member of
/// the one in the other.
pub proof fn lemma_reorder_keeps_matches(r: Seq<InfoV>, c: Seq<InfoV>, e: InfoV)
    requires
        forall|l: i32| level_filter(r, l) == level_filter(c, l),
        c.contains(e),
    ensures
        r.contains(e),
{
    let i = choose|i: int| 0 <= i < c.len() && c[i] == e;
    Seq::<InfoV>::lemma_filter_contains(c, |x: InfoV| x.level == e.level, i);
    assert(level_filter(c, e.level).contains(e));
    assert(level_filter(r, e.level).contains(e));
    lemma_filter_elements(r, e.level, e);
}

/// The zero-geometry match one tier-2 set reports for `p` (meaningful
/// only when the set contains `p`).
pub open spec fn spec_tier2_entry(set: PolygonSetV, p: Point) -> InfoV {
    info_of(set.infos[spec_first_containing(set.polygons, p, 0)->Some_0], Seq::empty())
}

proof fn lemma_tier2_entry_at(sets: Seq<PolygonSetV>, p: Point, m: int, j: int)
    requires
        0 <= m <= j < sets.len(),
        spec_first_containing(sets[j].polygons, p, 0) is Some,
    ensures
        exists|pos: int|
            0 <= pos < spec_tier2_from(sets, p, m).len() && spec_tier2_from(sets, p, m)[pos]
                == spec_tier2_entry(sets[j], p),
    decreases j - m,
{
    let t2 = spec_tier2_from(sets, p, m);
    if m == j {
        assert(t2[0] == spec_tier2_entry(sets[j], p));
    } else {
        lemma_tier2_entry_at(sets, p, m + 1, j);
        let pos = choose|pos: int|
            0 <= pos < spec_tier2_from(sets, p, m + 1).len() && #[trigger] spec_tier2_from(
                sets,
                p,
                m + 1,
            )[pos] == spec_tier2_entry(sets[j], p);
        match spec_first_containing(sets[m].polygons, p, 0) {
            Some(_) => {
                assert(t2[pos + 1] == spec_tier2_entry(sets[j], p));
            },
            None => {
                assert(t2[pos] == spec_tier2_entry(sets[j], p));
            },
        }
    }
}

proof fn lemma_tier2_pair(sets: Seq<PolygonSetV>, p: Point, m: int, j1: int, j2: int)
    requires
        0 <= m <= j1 < j2 < sets.len(),
        spec_first_containing(sets[j1].polygons, p, 0) is Some,
        spec_first_containing(sets[j2].polygons, p, 0) is Some,
    ensures
        exists|a: int, b: int|
            #![trigger spec_tier2_from(sets, p, m)[a], spec_tier2_from(sets, p, m)[b]]
            0 <= a < b < spec_tier2_from(sets, p, m).len() && spec_tier2_from(sets, p, m)[a]
                == spec_tier2_entry(sets[j1], p) && spec_tier2_from(sets, p, m)[b]
                == spec_tier2_entry(sets[j2], p),
    decreases j1 - m,
{
    let t2 = spec_tier2_from(sets, p, m);
    if m == j1 {
        lemma_tier2_entry_at(sets, p, m + 1, j2);
        let pos = choose|pos: int|
            0 <= pos < spec_tier2_from(sets, p, m + 1).len() && #[trigger] spec_tier2_from(
                sets,
                p,
                m + 1,
            )[pos] == spec_tier2_entry(sets[j2], p);
        assert(t2[0] == spec_tier2_entry(sets[j1], p));
        assert(t2[pos + 1] == spec_tier2_entry(sets[j2], p));
    } else {
        lemma_tier2_pair(sets, p, m + 1, j1, j2);
        let (a, b) = choose|a: int, b: int|
            #![trigger spec_tier2_from(sets, p, m + 1)[a], spec_tier2_from(sets, p, m + 1)[b]]
            0 <= a < b < spec_tier2_from(sets, p, m + 1).len() && spec_tier2_from(
                sets,
                p,
                m + 1,
            )[a] == spec_tier2_entry(sets[j1], p) && spec_tier2_from(sets, p, m + 1)[b]
                == spec_tier2_entry(sets[j2], p);
        match spec_first_containing(sets[m].polygons, p, 0) {
            Some(_) => {
                assert(t2[a + 1] == spec_tier2_entry(sets[j1], p));
                assert(t2[b + 1] == spec_tier2_entry(sets[j2], p));
            },
            None => {
                assert(t2[a] == spec_tier2_entry(sets[j1], p));
                assert(t2[b] == spec_tier2_entry(sets[j2], p));
            },
        }
    }
}

/// One tier-1 set's contribution stands verbatim at offset `off` of the
/// matches collected over the first `n` tier-1 sets.
pub open spec fn block_embedded_at(s: SearchV, p: Point, k: int, n: int, off: int) -> bool {
    &&& 0 <= off
    &&& off + spec_hit_block(s, k, p).len() <= spec_collect_upto(s, p, n).len()
    &&& forall|i: int|
        0 <= i < spec_hit_block(s, k, p).len() ==> spec_collect_upto(s, p, n)[off + i] == (
        #[trigger] spec_hit_block(s, k, p)[i])
}

proof fn lemma_collect_embeds_block(s: SearchV, p: Point, k: int, n: int)
    requires
        0 <= k < n,
    ensures
        exists|off: int| #[trigger] block_embedded_at(s, p, k, n, off),
    decreases n - k,
{
    let block = spec_hit_block(s, k, p);
    if n == k + 1 {
        let off = spec_collect_upto(s, p, k).len() as int;
        assert(block_embedded_at(s, p, k, n, off));
    } else {
        lemma_collect_embeds_block(s, p, k, n - 1);
        let off = choose|off: int| #[trigger] block_embedded_at(s, p, k, n - 1, off);
        assert(block_embedded_at(s, p, k, n, off));
    }
}

/// Law: tier-2 entries are independent overlay layers. Whenever a tier-1
/// hit activates a district and two different tier-2 sets of that
/// district both contain the point, the protocol records both matches,
/// at distinct positions of the collected list.
pub proof fn lemma_tier2_independence(s: SearchV, p: Point, k: int, j1: int, j2: int)
    requires
        search_wf(s),
        0 <= k < s.hierarchies.len(),
        spec_first_containing(s.hierarchies[k].polygons, p, 0) is Some,
        0 <= j1 < j2 < s.district_par[s.hierarchies[k].district_idx].len(),
        spec_first_containing(
            s.district_par[s.hierarchies[k].district_idx][j1].polygons,
            p,
            0,
        ) is Some,
        spec_first_containing(
            s.district_par[s.hierarchies[k].district_idx][j2].polygons,
            p,
            0,
        ) is Some,
    ensures
        exists|a: int, b: int|
            0 <= a < b < spec_collect(s, p).len() && spec_collect(s, p)[a]
                == spec_tier2_entry(s.district_par[s.hierarchies[k].district_idx][j1], p)
                && spec_collect(s, p)[b] == spec_tier2_entry(
                s.district_par[s.hierarchies[k].district_idx][j2],
                p,
            ),
{
    let d = s.hierarchies[k].district_idx;
    let sets = s.district_par[d];
    let t2 = spec_tier2_from(sets, p, 0);
    let e1 = spec_tier2_entry(sets[j1], p);
    let e2 = spec_tier2_entry(sets[j2], p);
    lemma_tier2_pair(sets, p, 0, j1, j2);
    let (a, b) = choose|a: int, b: int|
        0 <= a < b < t2.len() && t2[a] == e1 && t2[b] == e2;
    let block = spec_hit_block(s, k, p);
    let i = spec_first_containing(s.hierarchies[k].polygons, p, 0)->Some_0;
    let base = seq![info_of(s.hierarchies[k].infos[i], Seq::empty())];
    assert(block[1 + a] == t2[a]);
    assert(block[1 + b] == t2[b]);
    lemma_collect_embeds_block(s, p, k, s.hierarchies.len() as int);
    let off = choose|off: int|
        #[trigger] block_embedded_at(s, p, k, s.hierarchies.len() as int, off);
    assert(spec_collect(s, p)[off + 1 + a] == block[1 + a]);
    assert(spec_collect(s, p)[off + 1 + b] == block[1 + b]);
    assert(spec_collect(s, p)[off + 1 + a] == e1);
    assert(spec_collect(s, p)[off + 1 + b] == e2);
}

proof fn lemma_tier3_from_iff(sets: Seq<PolygonSetV>, p: Point, j: int)
    requires
        0 <= j,
    ensures
        (spec_tier3_from(sets, p, j) is Some) <==> exists|j2: int|
            j <= j2 < sets.len() && spec_first_containing(
                (#[trigger] sets[j2]).polygons,
                p,
                0,
            ) is Some,
    decreases sets.len() - j,
{
    if j < sets.len() {
        lemma_tier3_from_iff(sets, p, j + 1);
        match spec_first_containing(sets[j].polygons, p, 0) {
            Some(_) => {
                assert(spec_first_containing(sets[j].polygons, p, 0) is Some);
            },
            None => {},
        }
    }
}

/// Law: first-match-wins cardinality. A point contained in at least one
/// of a district's tier-3 sets yields exactly one tier-3 match for that
/// tier-1 hit — the scan reports a match exactly when some set contains
/// the point, and by construction it reports at most one.
pub proof fn lemma_tier3_first_match(sets: Seq<PolygonSetV>, p: Point)
    ensures
        (spec_tier3_from(sets, p, 0) is Some) <==> exists|j: int|
            0 <= j < sets.len() && spec_first_containing(
                (#[trigger] sets[j]).polygons,
                p,
                0,
            ) is Some,
{
    lemma_tier3_from_iff(sets, p, 0);
}

/// Collects every tier-2 match of one district's list, in list order.
fn tier2_hits(sets: &Vec<PolygonSet>, p: Point) -> (r: Vec<Info>)
    requires
        forall|j: int| 0 <= j < sets@.len() ==> set_wf(#[trigger] sets@[j]@),
    ensures
        infos_view(r@) == spec_tier2_from(sets_view(sets@), p, 0),
{
    let ghost sv = sets_view(sets@);
    let mut r: Vec<Info> = Vec::new();
    let n = sets.len();
    let mut j: usize = 0;
    while j < n
        invariant
            n == sets@.len(),
            sv == sets_view(sets@),
            sv.len() == n,
            forall|j2: int| 0 <= j2 < sets@.len() ==> set_wf(#[trigger] sets@[j2]@),
            0 <= j <= n,
            spec_tier2_from(sv, p, 0) == infos_view(r@) + spec_tier2_from(sv, p, j as int),
        decreases n - j,
    {
        proof {
            assert(sv[j as int] == sets@[j as int]@);
        }
        let ghost r_pre = infos_view(r@);
        match sets[j].containing_index(p) {
            Some(i) => {
                let pi = &sets[j].infos[i];
                proof {
                    assert(pi@ == sv[j as int].infos[i as int]);
                }
                r.push(
                    Info {
                        district: pi.district.clone(),
                        level: pi.level,
                        name: pi.name.clone(),
                        lnglats: Vec::new(),
                    },
                );
                proof {
                    let e = info_of(sv[j as int].infos[i as int], Seq::empty());
                    assert(infos_view(r@) =~= r_pre.push(e));
                    assert(r_pre.push(e) + spec_tier2_from(sv, p, j as int + 1) =~= r_pre + (
                    seq![e] + spec_tier2_from(sv, p, j as int + 1)));
                }
            },
            None => {},
        }
        j += 1;
    }
    proof {
        assert(infos_view(r@) + spec_tier2_from(sv, p, n as int) =~= infos_view(r@));
    }
    r
}

/// First-match-wins over one district's tier-3 list: the first set in
/// list order that contains `p` supplies the single match, with its
/// outer-ring geometry.
fn tier3_first(sets: &Vec<PolygonSet>, p: Point) -> (r: Option<Info>)
    requires
        forall|j: int| 0 <= j < sets@.len() ==> set_wf(#[trigger] sets@[j]@),
    ensures
        match r {
            Some(x) => spec_tier3_from(sets_view(sets@), p, 0) == Some(x@),
            None => spec_tier3_from(sets_view(sets@), p, 0) is None,
        },
{
    let ghost sv = sets_view(sets@);
    let n = sets.len();
    let mut j: usize = 0;
    while j < n
        invariant
            n == sets@.len(),
            sv == sets_view(sets@),
            sv.len() == n,
            forall|j2: int| 0 <= j2 < sets@.len() ==> set_wf(#[trigger] sets@[j2]@),
            0 <= j <= n,
            spec_tier3_from(sv, p, 0) == spec_tier3_from(sv, p, j as int),
        decreases n - j,
    {
        proof {
            assert(sv[j as int] == sets@[j as int]@);
        }
        match sets[j].containing_index_with_geometry(p) {
            Some(iv) => {
                let (i, verts) = iv;
                let pi = &sets[j].infos[i];
                proof {
                    assert(pi@ == sv[j as int].infos[i as int]);
                }
                return Some(
                    Info {
                        district: pi.district.clone(),
                        level: pi.level,
                        name: pi.name.clone(),
                        lnglats: verts,
                    },
                );
            },
            None => {},
        }
        j += 1;
    }
    None
}

/// Stable insertion sort by level: the output is level-sorted and, level
/// by level, holds exactly the input's matches in their input order.
fn sort_by_level(input: Vec<Info>) -> (r: Vec<Info>)
    ensures
        sorted_by_level(infos_view(r@)),
        forall|l: i32| level_filter(infos_view(r@), l) == level_filter(infos_view(input@), l),
{
    let ghost input_v = input@;
    let mut rest = input;
    let mut out: Vec<Info> = Vec::new();
    proof {
        assert(rest@ =~= input_v.subrange(0, rest@.len() as int));
        assert forall|l: i32|
            level_filter(infos_view(out@), l) == level_filter(
                infos_view(input_v.subrange(rest@.len() as int, input_v.len() as int)),
                l,
            ) by {
            assert(infos_view(out@) =~= Seq::<InfoV>::empty());
            assert(input_v.subrange(rest@.len() as int, input_v.len() as int)
                =~= Seq::<Info>::empty());
            lemma_level_filter_none(Seq::<InfoV>::empty(), l);
            assert(infos_view(Seq::<Info>::empty()) =~= Seq::<InfoV>::empty());
        }
    }
    while rest.len() > 0
        invariant
            rest@ == input_v.subrange(0, rest@.len() as int),
            rest@.len() <= input_v.len(),
            sorted_by_level(infos_view(out@)),
            forall|l: i32|
                level_filter(infos_view(out@), l) == level_filter(
                    infos_view(input_v.subrange(rest@.len() as int, input_v.len() as int)),
                    l,
                ),
        decreases rest@.len(),
    {
        let ghost m = rest@.len() as int;
        let x = rest.pop().unwrap();
        proof {
            assert(x == input_v[m - 1]);
            assert(rest@ =~= input_v.subrange(0, m - 1));
        }
        let ghost out_pre = out@;
        let mut pos: usize = 0;
        while pos < out.len() && out[pos].level < x.level
            invariant
                out@ == out_pre,
                0 <= pos <= out@.len(),
                forall|k: int| 0 <= k < pos ==> (#[trigger] out@[k]@).level < x@.level,
            decreases out@.len() - pos,
        {
            pos += 1;
        }
        proof {
            if (pos as int) < out@.len() {
                assert(out@[pos as int]@.level >= x@.level);
            }
        }
        out.insert(pos, x);
        proof {
            let s1 = infos_view(out_pre);
            let a = s1.subrange(0, pos as int);
            let b = s1.subrange(pos as int, s1.len() as int);
            let s2 = infos_view(out@);
            assert(s2 =~= a + seq![x@] + b);
            // sortedness of the result
            assert forall|i: int, j: int| 0 <= i < j < s2.len() implies s2[i].level
                <= s2[j].level by {
                assert(forall|k: int|
                    0 <= k < s1.len() ==> #[trigger] s1[k] == out_pre[k]@);
                if (pos as int) < s1.len() {
                    assert(s1[pos as int].level >= x@.level);
                }
            }
            // per-level subsequences
            assert forall|l: i32|
                level_filter(s2, l) == level_filter(
                    infos_view(input_v.subrange(m - 1, input_v.len() as int)),
                    l,
                ) by {
                lemma_level_filter_distributes(a + seq![x@], b, l);
                lemma_level_filter_distributes(a, seq![x@], l);
                lemma_level_filter_distributes(a, b, l);
                lemma_level_filter_singleton(x@, l);
                assert(s1 =~= a + b);
                let suffix = infos_view(input_v.subrange(m, input_v.len() as int));
                let suffix1 = infos_view(input_v.subrange(m - 1, input_v.len() as int));
                assert(suffix1 =~= seq![x@] + suffix);
                lemma_level_filter_distributes(seq![x@], suffix, l);
                if l == x@.level {
                    lemma_level_filter_none(a, l);
                }
            }
        }
    }
    proof {
        assert(input_v.subrange(0, input_v.len() as int) =~= input_v);
    }
    out
}

impl Search {
    /// A fresh engine for one configuration: empty tier-1, and tier-2 and
    /// tier-3 pre-populated with one empty list per configured district.
    pub fn new(config: SearchConfig) -> (r: Search)
        ensures
            r.config == config,
            r@.districts == config.districts@.map_values(|s: String| s@),
            r@.hierarchies == Seq::<PolygonSetV>::empty(),
            r@.district_par.len() == r@.districts.len(),
            r@.district_par_any.len() == r@.districts.len(),
            forall|d: int|
                0 <= d < r@.districts.len() ==> (#[trigger] r@.district_par[d])
                    == Seq::<PolygonSetV>::empty() && (#[trigger] r@.district_par_any[d])
                    == Seq::<PolygonSetV>::empty(),
            search_wf(r@),
    {
        let n = config.districts.len();
        let mut district_par: Vec<Vec<PolygonSet>> = Vec::new();
        let mut district_par_any: Vec<Vec<PolygonSet>> = Vec::new();
        let mut i: usize = 0;
        while i < n
            invariant
                0 <= i <= n,
                district_par@.len() == i,
                district_par_any@.len() == i,
                forall|d: int| 0 <= d < i ==> (#[trigger] district_par@[d])@.len() == 0,
                forall|d: int| 0 <= d < i ==> (#[trigger] district_par_any@[d])@.len() == 0,
            decreases n - i,
        {
            let ghost par_pre = district_par@;
            let ghost any_pre = district_par_any@;
            let fresh_par: Vec<PolygonSet> = Vec::new();
            let fresh_par_any: Vec<PolygonSet> = Vec::new();
            district_par.push(fresh_par);
            district_par_any.push(fresh_par_any);
            proof {
                assert forall|d: int| 0 <= d < i + 1 implies (
                #[trigger] district_par@[d])@.len() == 0 by {
                    if d < i as int {
                        assert(district_par@[d] == par_pre[d]);
                    } else {
                        assert(district_par@[d] == fresh_par);
                    }
                }
                assert forall|d: int| 0 <= d < i + 1 implies (
                #[trigger] district_par_any@[d])@.len() == 0 by {
                    if d < i as int {
                        assert(district_par_any@[d] == any_pre[d]);
                    } else {
                        assert(district_par_any@[d] == fresh_par_any);
                    }
                }
            }
            i += 1;
        }
        let r = Search { config, hierarchies: Vec::new(), district_par, district_par_any };
        proof {
            assert forall|d: int| 0 <= d < r@.districts.len() implies (
            #[trigger] r@.district_par[d]) =~= Seq::<PolygonSetV>::empty() && (
            #[trigger] r@.district_par_any[d]) =~= Seq::<PolygonSetV>::empty() by {
                assert(r@.district_par[d] == sets_view(r.district_par@[d]@));
                assert(r@.district_par_any[d] == sets_view(r.district_par_any@[d]@));
            }
        }
        r
    }

    /// Appends one polygon set to the tier-1 list; tier-1 order is build
    /// order and is preserved.
    pub fn add_hierarchy(&mut self, set: PolygonSet)
        requires
            search_wf(old(self)@),
            set_wf(set@),
            0 <= set@.district_idx < old(self)@.districts.len(),
        ensures
            final(self)@ == (SearchV {
                hierarchies: old(self)@.hierarchies.push(set@),
                ..old(self)@
            }),
            search_wf(final(self)@),
    {
        let ghost pre = self@;
        self.hierarchies.push(set);
        proof {
            assert(self@ =~= (SearchV { hierarchies: pre.hierarchies.push(set@), ..pre }));
        }
    }

    /// Appends one polygon set to its district's tier-2 list.
    pub fn add_district_par(&mut self, set: PolygonSet)
        requires
            search_wf(old(self)@),
            set_wf(set@),
            0 <= set@.district_idx < old(self)@.districts.len(),
        ensures
            final(self)@ == (SearchV {
                district_par: old(self)@.district_par.update(
                    set@.district_idx,
                    old(self)@.district_par[set@.district_idx].push(set@),
                ),
                ..old(self)@
            }),
            search_wf(final(self)@),
    {
        let ghost pre = self@;
        let ghost d = set@.district_idx;
        let idx = set.district_idx;
        self.district_par[idx].push(set);
        proof {
            assert(self@.district_par[d] =~= pre.district_par[d].push(set@));
            assert(self@ =~= (SearchV {
                district_par: pre.district_par.update(d, pre.district_par[d].push(set@)),
                ..pre
            }));
        }
    }

    /// Appends one polygon set to its district's tier-3 list.
    pub fn add_district_par_any(&mut self, set: PolygonSet)
        requires
            search_wf(old(self)@),
            set_wf(set@),
            0 <= set@.district_idx < old(self)@.districts.len(),
        ensures
            final(self)@ == (SearchV {
                district_par_any: old(self)@.district_par_any.update(
                    set@.district_idx,
                    old(self)@.district_par_any[set@.district_idx].push(set@),
                ),
                ..old(self)@
            }),
            search_wf(final(self)@),
    {
        let ghost pre = self@;
        let ghost d = set@.district_idx;
        let idx = set.district_idx;
        self.district_par_any[idx].push(set);
        proof {
            assert(self@.district_par_any[d] =~= pre.district_par_any[d].push(set@));
            assert(self@ =~= (SearchV {
                district_par_any: pre.district_par_any.update(
                    d,
                    pre.district_par_any[d].push(set@),
                ),
                ..pre
            }));
        }
    }

    /// The tiered containment query. Walks the tier-1 sets in build
    /// order; each hit records its own match and scopes a tier-2 scan
    /// (every hit recorded) and a tier-3 first-match scan of the active
    /// district. The result is the recorded matches, stable-sorted by
    /// level ascending; an empty list is a normal result.
    pub fn search(&self, lon: i64, lat: i64) -> (r: Vec<Info>)
        requires
            search_wf(self@),
        ensures
            sorted_by_level(infos_view(r@)),
            forall|l: i32|
                level_filter(infos_view(r@), l) == level_filter(
                    spec_collect(self@, Point { lon, lat }),
                    l,
                ),
    {
        let p = Point { lon, lat };
        let mut collected: Vec<Info> = Vec::new();
        let n = self.hierarchies.len();
        let mut k: usize = 0;
        proof {
            assert(infos_view(collected@) =~= spec_collect_upto(self@, p, 0));
        }
        while k < n
            invariant
                search_wf(self@),
                n == self.hierarchies@.len(),
                self@.hierarchies.len() == n,
                0 <= k <= n,
                infos_view(collected@) == spec_collect_upto(self@, p, k as int),
            decreases n - k,
        {
            let ghost pre = infos_view(collected@);
            proof {
                assert(self@.hierarchies[k as int] == self.hierarchies@[k as int]@);
            }
            let set = &self.hierarchies[k];
            match set.containing_index(p) {
                Some(i) => {
                    let pi = &set.infos[i];
                    proof {
                        assert(pi@ == self@.hierarchies[k as int].infos[i as int]);
                    }
                    collected.push(
                        Info {
                            district: pi.district.clone(),
                            level: pi.level,
                            name: pi.name.clone(),
                            lnglats: Vec::new(),
                        },
                    );
                    let d = set.district_idx;
                    proof {
                        assert(0 <= d < self@.districts.len());
                        assert(self@.district_par[d as int] == sets_view(
                            self.district_par@[d as int]@,
                        ));
                        assert(self@.district_par_any[d as int] == sets_view(
                            self.district_par_any@[d as int]@,
                        ));
                        assert forall|j2: int|
                            0 <= j2 < self.district_par@[d as int]@.len() implies set_wf(
                            #[trigger] self.district_par@[d as int]@[j2]@,
                        ) by {
                            assert(self@.district_par[d as int][j2]
                                == self.district_par@[d as int]@[j2]@);
                        }
                        assert forall|j2: int|
                            0 <= j2 < self.district_par_any@[d as int]@.len() implies set_wf(
                            #[trigger] self.district_par_any@[d as int]@[j2]@,
                        ) by {
                            assert(self@.district_par_any[d as int][j2]
                                == self.district_par_any@[d as int]@[j2]@);
                        }
                    }
                    let mut t2 = tier2_hits(&self.district_par[d], p);
                    let ghost t2v = infos_view(t2@);
                    collected.append(&mut t2);
                    let t3 = tier3_first(&self.district_par_any[d], p);
                    match t3 {
                        Some(info3) => {
                            let ghost i3 = info3@;
                            collected.push(info3);
                            proof {
                                let e = info_of(
                                    self@.hierarchies[k as int].infos[i as int],
                                    Seq::empty(),
                                );
                                assert(infos_view(collected@) =~= pre + (seq![e] + t2v
                                    + seq![i3]));
                                assert(spec_hit_block(self@, k as int, p) =~= seq![e] + t2v
                                    + seq![i3]);
                            }
                        },
                        None => {
                            proof {
                                let e = info_of(
                                    self@.hierarchies[k as int].infos[i as int],
                                    Seq::empty(),
                                );
                                assert(infos_view(collected@) =~= pre + (seq![e] + t2v));
                                assert(spec_hit_block(self@, k as int, p) =~= seq![e] + t2v);
                            }
                        },
                    }
                },
                None => {
                    proof {
                        assert(spec_hit_block(self@, k as int, p) =~= Seq::<InfoV>::empty());
                        assert(infos_view(collected@) =~= pre + spec_hit_block(
                            self@,
                            k as int,
                            p,
                        ));
                    }
                },
            }
            proof {
                assert(spec_collect_upto(self@, p, k as int + 1) == spec_collect_upto(
                    self@,
                    p,
                    k as int,
                ) + spec_hit_block(self@, k as int, p));
            }
            k += 1;
        }
        sort_by_level(collected)
    }

    /// One synthetic query at a fixed coordinate, issued after the build
    /// to force any lazy one-time initialization before publication.
    pub fn warm_up(&self)
        requires
            search_wf(self@),
    {
        let _ = self.search(1_271_000_000, 351_000_000);
    }
}

} // verus!
