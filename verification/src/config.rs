//! Configuration model: which districts, hierarchy names, overlay names
//! and file-name patterns the index is built from. Parsing the
//! configuration file is the caller's concern; the library works on these
//! plain values.

use vstd::prelude::*;

verus! {

/// Attribute mapping of one boundary-file name: the administrative level
/// its polygons carry and the attribute columns to read from the file.
#[derive(Debug)]
pub struct Attribute {
    pub level: i32,
    pub names: Vec<String>,
}

/// Mathematical model of one attribute mapping.
pub struct AttributeV {
    pub level: i32,
    pub names: Seq<Seq<char>>,
}

impl View for Attribute {
    type V = AttributeV;

    open spec fn view(&self) -> AttributeV {
        AttributeV { level: self.level, names: self.names@.map_values(|s: String| s@) }
    }
}

/// One (boundary-file name, attribute mapping) pair.
#[derive(Debug)]
pub struct AttributeEntry {
    pub name: String,
    pub attribute: Attribute,
}

/// Mathematical model of one entry.
pub struct AttributeEntryV {
    pub name: Seq<char>,
    pub attribute: AttributeV,
}

impl View for AttributeEntry {
    type V = AttributeEntryV;

    open spec fn view(&self) -> AttributeEntryV {
        AttributeEntryV { name: self.name@, attribute: self.attribute@ }
    }
}

/// Where the boundary files live and what attributes each file name
/// carries.
#[derive(Debug)]
pub struct Shapefile {
    pub path: String,
    pub attributes: Vec<AttributeEntry>,
}

/// The search engine's configuration: the districts, the tier-1 hierarchy
/// names, the tier-2 names, the tier-3 name patterns, and the loader's
/// debug switches.
#[derive(Debug)]
pub struct Search {
    pub shapefile: Shapefile,
    pub districts: Vec<String>,
    pub hierarchies: Vec<String>,
    pub district_par: Vec<String>,
    pub district_par_any: Vec<String>,
    pub debug: bool,
    pub debug_name: String,
}

/// REST adapter endpoint configuration.
#[derive(Debug)]
pub struct Rest {
    pub port: u16,
    pub host: String,
}

/// RPC adapter endpoint configuration.
#[derive(Debug)]
pub struct Grpc {
    pub port: u16,
    pub host: String,
}

/// The whole process configuration.
#[derive(Debug)]
pub struct Config {
    pub search: Search,
    pub rest: Rest,
    pub grpc: Grpc,
}

/// A record whose attribute values are all empty carries no usable
/// metadata and fails its file's load.
pub open spec fn spec_attributes_all_empty(values: Seq<Seq<char>>) -> bool {
    forall|i: int| 0 <= i < values.len() ==> (#[trigger] values[i]).len() == 0
}

/// Whether every attribute value read for one record is empty.
pub fn attributes_all_empty(values: &Vec<String>) -> (r: bool)
    ensures
        r == spec_attributes_all_empty(values@.map_values(|s: String| s@)),
{
    let n = values.len();
    let mut i: usize = 0;
    while i < n
        invariant
            n == values@.len(),
            0 <= i <= n,
            forall|j: int| 0 <= j < i ==> values@[j]@.len() == 0,
        decreases n - i,
    {
        if !values[i].as_str().is_empty() {
            proof {
                let vv = values@.map_values(|s: String| s@);
                assert(vv[i as int] == values@[i as int]@);
                assert(!spec_attributes_all_empty(vv));
            }
            return false;
        }
        i += 1;
    }
    proof {
        let vv = values@.map_values(|s: String| s@);
        assert forall|i2: int| 0 <= i2 < vv.len() implies (#[trigger] vv[i2]).len() == 0 by {
            assert(vv[i2] == values@[i2]@);
        }
    }
    true
}

/// The attribute mapping of the first entry at or after `i` whose name is
/// `name`.
pub open spec fn spec_find_attribute_from(
    attrs: Seq<AttributeEntryV>,
    name: Seq<char>,
    i: int,
) -> Option<AttributeV>
    decreases attrs.len() - i,
{
    if i < 0 || i >= attrs.len() {
        None
    } else if attrs[i].name == name {
        Some(attrs[i].attribute)
    } else {
        spec_find_attribute_from(attrs, name, i + 1)
    }
}

/// The attribute mapping configured for a boundary-file name, if any.
pub open spec fn spec_find_attribute(
    attrs: Seq<AttributeEntryV>,
    name: Seq<char>,
) -> Option<AttributeV> {
    spec_find_attribute_from(attrs, name, 0)
}

/// Looks up the attribute mapping of a boundary-file name.
pub fn find_attribute<'a>(attrs: &'a Vec<AttributeEntry>, name: &String) -> (r: Option<
    &'a Attribute,
>)
    ensures
        match r {
            Some(a) => spec_find_attribute(attrs@.map_values(|e: AttributeEntry| e@), name@)
                == Some(a@),
            None => spec_find_attribute(attrs@.map_values(|e: AttributeEntry| e@), name@)
                is None,
        },
{
    let ghost av = attrs@.map_values(|e: AttributeEntry| e@);
    let n = attrs.len();
    let mut i: usize = 0;
    while i < n
        invariant
            n == attrs@.len(),
            av == attrs@.map_values(|e: AttributeEntry| e@),
            av.len() == n,
            0 <= i <= n,
            spec_find_attribute(av, name@) == spec_find_attribute_from(av, name@, i as int),
        decreases n - i,
    {
        let entry = &attrs[i];
        proof {
            assert(av[i as int] == attrs@[i as int]@);
        }
        if entry.name.eq(name) {
            return Some(&entry.attribute);
        }
        i += 1;
    }
    None
}

} // verus!
