//! Build planning: which (district, file name) pairs each tier loads, in
//! which order, with which administrative level and attribute columns,
//! and which omissions are fatal. Reading the files themselves is the
//! caller's concern.

use vstd::prelude::*;
use crate::config::{
    AttributeEntry, AttributeEntryV, find_attribute, spec_find_attribute,
};

verus! {

/// A fatal build error: the whole startup aborts with context.
#[derive(Debug)]
pub enum BuildError {
    /// A configured tier-1 or tier-2 file name has no attribute mapping.
    MissingAttribute(String),
}

/// One file-load work item: the district (by list position and by name),
/// the configured file name, and the attribute mapping resolved for it.
#[derive(Debug)]
pub struct LoadTask {
    pub district_idx: usize,
    pub district: String,
    pub name: String,
    pub level: i32,
    pub attr_names: Vec<String>,
}

/// Mathematical model of one work item.
#[verifier::ext_equal]
pub struct LoadTaskV {
    pub district_idx: int,
    pub district: Seq<char>,
    pub name: Seq<char>,
    pub level: i32,
    pub attr_names: Seq<Seq<char>>,
}

impl View for LoadTask {
    type V = LoadTaskV;

    open spec fn view(&self) -> LoadTaskV {
        LoadTaskV {
            district_idx: self.district_idx as int,
            district: self.district@,
            name: self.name@,
            level: self.level,
            attr_names: self.attr_names@.map_values(|s: String| s@),
        }
    }
}

pub open spec fn tasks_view(s: Seq<LoadTask>) -> Seq<LoadTaskV> {
    s.map_values(|t: LoadTask| t@)
}

pub open spec fn strings_view(s: Seq<String>) -> Seq<Seq<char>> {
    s.map_values(|t: String| t@)
}

/// The first configured name from position `j` on that has no attribute
/// mapping.
pub open spec fn spec_missing_from(
    names: Seq<Seq<char>>,
    attrs: Seq<AttributeEntryV>,
    j: int,
) -> Option<Seq<char>>
    decreases names.len() - j,
{
    if j < 0 || j >= names.len() {
        None
    } else if spec_find_attribute(attrs, names[j]) is None {
        Some(names[j])
    } else {
        spec_missing_from(names, attrs, j + 1)
    }
}

/// The work items of one district for the names from position `j` on, in
/// configuration order; a name without an attribute mapping contributes
/// none.
pub open spec fn spec_district_tasks_from(
    d: int,
    district: Seq<char>,
    names: Seq<Seq<char>>,
    attrs: Seq<AttributeEntryV>,
    j: int,
) -> Seq<LoadTaskV>
    decreases names.len() - j,
{
    if j < 0 || j >= names.len() {
        Seq::empty()
    } else {
        let rest = spec_district_tasks_from(d, district, names, attrs, j + 1);
        match spec_find_attribute(attrs, names[j]) {
            Some(a) => seq![
                LoadTaskV {
                    district_idx: d,
                    district,
                    name: names[j],
                    level: a.level,
                    attr_names: a.names,
                },
            ] + rest,
            None => rest,
        }
    }
}

/// The whole plan from district position `d` on: district-major, names in
/// configuration order within each district.
pub open spec fn spec_plan_from(
    districts: Seq<Seq<char>>,
    names: Seq<Seq<char>>,
    attrs: Seq<AttributeEntryV>,
    d: int,
) -> Seq<LoadTaskV>
    decreases districts.len() - d,
{
    if d < 0 || d >= districts.len() {
        Seq::empty()
    } else {
        spec_district_tasks_from(d, districts[d], names, attrs, 0) + spec_plan_from(
            districts,
            names,
            attrs,
            d + 1,
        )
    }
}

/// The full cross-product plan of a tier.
pub open spec fn spec_plan(
    districts: Seq<Seq<char>>,
    names: Seq<Seq<char>>,
    attrs: Seq<AttributeEntryV>,
) -> Seq<LoadTaskV> {
    spec_plan_from(districts, names, attrs, 0)
}

proof fn lemma_missing_none_all(names: Seq<Seq<char>>, attrs: Seq<AttributeEntryV>, j: int)
    requires
        0 <= j,
        spec_missing_from(names, attrs, j) is None,
    ensures
        forall|j2: int|
            j <= j2 < names.len() ==> spec_find_attribute(attrs, #[trigger] names[j2])
                is Some,
    decreases names.len() - j,
{
    if 0 <= j < names.len() {
        lemma_missing_none_all(names, attrs, j + 1);
    }
}

/// Copy of a list of strings.
fn clone_strings(v: &Vec<String>) -> (r: Vec<String>)
    ensures
        strings_view(r@) == strings_view(v@),
{
    let mut r: Vec<String> = Vec::new();
    let n = v.len();
    let mut i: usize = 0;
    while i < n
        invariant
            n == v@.len(),
            0 <= i <= n,
            strings_view(r@) == strings_view(v@).subrange(0, i as int),
        decreases n - i,
    {
        let ghost r_pre = r@;
        let c = v[i].clone();
        proof {
            assert(c@ == v@[i as int]@);
        }
        r.push(c);
        proof {
            assert(strings_view(r@) =~= strings_view(r_pre).push(c@));
            assert(strings_view(r@) =~= strings_view(v@).subrange(0, i as int + 1));
        }
        i += 1;
    }
    proof {
        assert(strings_view(v@).subrange(0, n as int) =~= strings_view(v@));
    }
    r
}

/// Plans a tier whose every (district, name) pair names exactly one
/// required file (tier-1 and tier-2): the full cross product in
/// configuration order, or, if any district is configured and a name has
/// no attribute mapping, the fatal error naming the first such name.
pub fn plan_required_tasks(
    districts: &Vec<String>,
    names: &Vec<String>,
    attrs: &Vec<AttributeEntry>,
) -> (r: Result<Vec<LoadTask>, BuildError>)
    ensures
        ({
            let dv = strings_view(districts@);
            let nv = strings_view(names@);
            let av = attrs@.map_values(|e: AttributeEntry| e@);
            match r {
                Ok(tasks) => (dv.len() == 0 || spec_missing_from(nv, av, 0) is None)
                    && tasks_view(tasks@) == spec_plan(dv, nv, av),
                Err(e) => e matches BuildError::MissingAttribute(nm) && dv.len() > 0
                    && spec_missing_from(nv, av, 0) == Some(nm@),
            }
        }),
{
    let ghost dv = strings_view(districts@);
    let ghost nv = strings_view(names@);
    let ghost av = attrs@.map_values(|e: AttributeEntry| e@);
    let mut tasks: Vec<LoadTask> = Vec::new();
    let nd = districts.len();
    let nn = names.len();
    let mut d: usize = 0;
    while d < nd
        invariant
            nd == districts@.len(),
            nn == names@.len(),
            dv == strings_view(districts@),
            nv == strings_view(names@),
            av == attrs@.map_values(|e: AttributeEntry| e@),
            dv.len() == nd,
            nv.len() == nn,
            0 <= d <= nd,
            spec_plan(dv, nv, av) == tasks_view(tasks@) + spec_plan_from(dv, nv, av, d as int),
            d > 0 ==> spec_missing_from(nv, av, 0) is None,
        decreases nd - d,
    {
        let ghost outer_pre = tasks_view(tasks@);
        let mut j: usize = 0;
        while j < nn
            invariant
                nd == districts@.len(),
                nn == names@.len(),
                dv == strings_view(districts@),
                nv == strings_view(names@),
                av == attrs@.map_values(|e: AttributeEntry| e@),
                dv.len() == nd,
                nv.len() == nn,
                0 <= d < nd,
                0 <= j <= nn,
                outer_pre.len() <= tasks_view(tasks@).len(),
                outer_pre == tasks_view(tasks@).subrange(0, outer_pre.len() as int),
                spec_district_tasks_from(d as int, dv[d as int], nv, av, 0) == tasks_view(
                    tasks@,
                ).skip(outer_pre.len() as int) + spec_district_tasks_from(
                    d as int,
                    dv[d as int],
                    nv,
                    av,
                    j as int,
                ),
                d == 0 ==> spec_missing_from(nv, av, 0) == spec_missing_from(
                    nv,
                    av,
                    j as int,
                ),
                d > 0 ==> spec_missing_from(nv, av, 0) is None,
            decreases nn - j,
        {
            proof {
                assert(nv[j as int] == names@[j as int]@);
                assert(dv[d as int] == districts@[d as int]@);
            }
            let ghost tasks_pre = tasks_view(tasks@);
            match find_attribute(attrs, &names[j]) {
                Some(attribute) => {
                    let task = LoadTask {
                        district_idx: d,
                        district: districts[d].clone(),
                        name: names[j].clone(),
                        level: attribute.level,
                        attr_names: clone_strings(&attribute.names),
                    };
                    proof {
                        assert(task@ =~= (LoadTaskV {
                            district_idx: d as int,
                            district: dv[d as int],
                            name: nv[j as int],
                            level: attribute@.level,
                            attr_names: attribute@.names,
                        }));
                    }
                    tasks.push(task);
                    proof {
                        assert(tasks_view(tasks@) =~= tasks_pre.push(task@));
                        assert(tasks_pre.push(task@).skip(outer_pre.len() as int)
                            =~= tasks_pre.skip(outer_pre.len() as int) + seq![task@]);
                        assert(tasks_pre.push(task@).subrange(0, outer_pre.len() as int)
                            =~= tasks_pre.subrange(0, outer_pre.len() as int));
                        assert(tasks_pre.skip(outer_pre.len() as int) + (seq![task@]
                            + spec_district_tasks_from(d as int, dv[d as int], nv, av,
                        j as int + 1)) =~= (tasks_pre.skip(outer_pre.len() as int)
                            + seq![task@]) + spec_district_tasks_from(d as int, dv[d as int],
                        nv, av, j as int + 1));
                    }
                },
                None => {
                    if d == 0 {
                        return Err(BuildError::MissingAttribute(names[j].clone()));
                    } else {
                        proof {
                            lemma_missing_none_all(nv, av, 0);
                            assert(false);
                        }
                        return Err(BuildError::MissingAttribute(names[j].clone()));
                    }
                },
            }
            j += 1;
        }
        proof {
            assert(tasks_view(tasks@).skip(outer_pre.len() as int)
                + spec_district_tasks_from(d as int, dv[d as int], nv, av, nn as int)
                =~= tasks_view(tasks@).skip(outer_pre.len() as int));
            assert(tasks_view(tasks@) =~= outer_pre + tasks_view(tasks@).skip(
                outer_pre.len() as int,
            ));
        }
        d += 1;
    }
    proof {
        assert(tasks_view(tasks@) + spec_plan_from(dv, nv, av, nd as int) =~= tasks_view(
            tasks@,
        ));
    }
    Ok(tasks)
}

/// Plans a tier whose names are patterns with optional matches (tier-3):
/// the same cross product, except that a name without an attribute
/// mapping is skipped silently rather than fatal.
pub fn plan_optional_tasks(
    districts: &Vec<String>,
    names: &Vec<String>,
    attrs: &Vec<AttributeEntry>,
) -> (r: Vec<LoadTask>)
    ensures
        tasks_view(r@) == spec_plan(
            strings_view(districts@),
            strings_view(names@),
            attrs@.map_values(|e: AttributeEntry| e@),
        ),
{
    let ghost dv = strings_view(districts@);
    let ghost nv = strings_view(names@);
    let ghost av = attrs@.map_values(|e: AttributeEntry| e@);
    let mut tasks: Vec<LoadTask> = Vec::new();
    let nd = districts.len();
    let nn = names.len();
    let mut d: usize = 0;
    while d < nd
        invariant
            nd == districts@.len(),
            nn == names@.len(),
            dv == strings_view(districts@),
            nv == strings_view(names@),
            av == attrs@.map_values(|e: AttributeEntry| e@),
            dv.len() == nd,
            nv.len() == nn,
            0 <= d <= nd,
            spec_plan(dv, nv, av) == tasks_view(tasks@) + spec_plan_from(dv, nv, av, d as int),
        decreases nd - d,
    {
        let ghost outer_pre = tasks_view(tasks@);
        let mut j: usize = 0;
        while j < nn
            invariant
                nd == districts@.len(),
                nn == names@.len(),
                dv == strings_view(districts@),
                nv == strings_view(names@),
                av == attrs@.map_values(|e: AttributeEntry| e@),
                dv.len() == nd,
                nv.len() == nn,
                0 <= d < nd,
                0 <= j <= nn,
                outer_pre.len() <= tasks_view(tasks@).len(),
                outer_pre == tasks_view(tasks@).subrange(0, outer_pre.len() as int),
                spec_district_tasks_from(d as int, dv[d as int], nv, av, 0) == tasks_view(
                    tasks@,
                ).skip(outer_pre.len() as int) + spec_district_tasks_from(
                    d as int,
                    dv[d as int],
                    nv,
                    av,
                    j as int,
                ),
            decreases nn - j,
        {
            proof {
                assert(nv[j as int] == names@[j as int]@);
                assert(dv[d as int] == districts@[d as int]@);
            }
            let ghost tasks_pre = tasks_view(tasks@);
            match find_attribute(attrs, &names[j]) {
                Some(attribute) => {
                    let task = LoadTask {
                        district_idx: d,
                        district: districts[d].clone(),
                        name: names[j].clone(),
                        level: attribute.level,
                        attr_names: clone_strings(&attribute.names),
                    };
                    proof {
                        assert(task@ =~= (LoadTaskV {
                            district_idx: d as int,
                            district: dv[d as int],
                            name: nv[j as int],
                            level: attribute@.level,
                            attr_names: attribute@.names,
                        }));
                    }
                    tasks.push(task);
                    proof {
                        assert(tasks_view(tasks@) =~= tasks_pre.push(task@));
                        assert(tasks_pre.push(task@).skip(outer_pre.len() as int)
                            =~= tasks_pre.skip(outer_pre.len() as int) + seq![task@]);
                        assert(tasks_pre.push(task@).subrange(0, outer_pre.len() as int)
                            =~= tasks_pre.subrange(0, outer_pre.len() as int));
                        assert(tasks_pre.skip(outer_pre.len() as int) + (seq![task@]
                            + spec_district_tasks_from(d as int, dv[d as int], nv, av,
                        j as int + 1)) =~= (tasks_pre.skip(outer_pre.len() as int)
                            + seq![task@]) + spec_district_tasks_from(d as int, dv[d as int],
                        nv, av, j as int + 1));
                    }
                },
                None => {},
            }
            j += 1;
        }
        proof {
            assert(tasks_view(tasks@).skip(outer_pre.len() as int)
                + spec_district_tasks_from(d as int, dv[d as int], nv, av, nn as int)
                =~= tasks_view(tasks@).skip(outer_pre.len() as int));
            assert(tasks_view(tasks@) =~= outer_pre + tasks_view(tasks@).skip(
                outer_pre.len() as int,
            ));
        }
        d += 1;
    }
    proof {
        assert(tasks_view(tasks@) + spec_plan_from(dv, nv, av, nd as int) =~= tasks_view(
            tasks@,
        ));
    }
    tasks
}

} // verus!
