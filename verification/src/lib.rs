//! Reverse-geocoding core: normalizes raw boundary rings into indexable
//! polygons, assembles a three-tier spatial index from configuration, and
//! answers tiered point-containment queries with a defined ordering.
//!
//! Coordinates are fixed-point degrees: one unit is 1e-7 of a degree, which
//! is also the tolerance at which two coordinates count as the same point.

pub mod builder;
pub mod config;
pub mod geom;
pub mod normalize;
pub mod polyset;
pub mod registry;
pub mod search;
