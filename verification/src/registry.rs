//! The global registry: a publish-once handle to exactly one built index.
//! A query before publication deterministically fails with the "not
//! ready" condition; after publication the index is immutable.

use vstd::prelude::*;
use crate::search::{
    Info, Search, infos_view, level_filter, search_wf, sorted_by_level, spec_collect,
};
use crate::geom::Point;

verus! {

/// The only query-time error: the index has not been published yet.
#[derive(Clone, Copy, PartialEq, Eq, Structural, Debug)]
pub enum SearchError {
    NotReady,
}

/// Publish-once holder of the built index.
pub struct Registry {
    index: Option<Search>,
}

impl Registry {
    /// The registry's published index, if any.
    pub closed spec fn spec_index(&self) -> Option<Search> {
        self.index
    }

    pub open spec fn spec_is_ready(&self) -> bool {
        self.spec_index() is Some
    }

    /// Every index ever published was well formed.
    pub open spec fn inv(&self) -> bool {
        match self.spec_index() {
            Some(s) => search_wf(s@),
            None => true,
        }
    }

    /// A registry that has not been published to.
    pub fn new() -> (r: Registry)
        ensures
            !r.spec_is_ready(),
            r.inv(),
    {
        Registry { index: None }
    }

    /// Whether queries may be served yet.
    pub fn is_ready(&self) -> (r: bool)
        ensures
            r == self.spec_is_ready(),
    {
        self.index.is_some()
    }

    /// Publishes the completed index, exactly once, before any query is
    /// served; no partial index is ever visible to readers.
    pub fn publish(&mut self, index: Search)
        requires
            !old(self).spec_is_ready(),
            old(self).inv(),
            search_wf(index@),
        ensures
            final(self).spec_is_ready(),
            final(self).spec_index() == Some(index),
            final(self).inv(),
    {
        self.index = Some(index);
    }

    /// Serves one query. Before publication every input fails with the
    /// "not ready" condition; after publication the result is the tiered
    /// protocol's level-sorted match list.
    pub fn search(&self, lon: i64, lat: i64) -> (r: Result<Vec<Info>, SearchError>)
        requires
            self.inv(),
        ensures
            !self.spec_is_ready() <==> r == Err::<Vec<Info>, SearchError>(
                SearchError::NotReady,
            ),
            match r {
                Ok(infos) => self.spec_index() matches Some(s) && sorted_by_level(
                    infos_view(infos@),
                ) && forall|l: i32|
                    level_filter(infos_view(infos@), l) == level_filter(
                        spec_collect(s@, Point { lon, lat }),
                        l,
                    ),
                Err(e) => e == SearchError::NotReady && !self.spec_is_ready(),
            },
    {
        match &self.index {
            Some(s) => Ok(s.search(lon, lat)),
            None => Err(SearchError::NotReady),
        }
    }
}

} // verus!
