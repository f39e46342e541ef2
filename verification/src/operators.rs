//! Stream operators. The engine's pipeline is a fixed ordered sequence of
//! typed stages, so no dynamic operator chain runs in it; the enrichment
//! operator is kept for embedders that decorate batches before submission.
use vstd::prelude::*;

use crate::telemetry::AttrMap;

verus! {

/// Holds the metadata an embedder wants stamped onto outgoing telemetry.
#[derive(Debug)]
pub struct EnrichOperator {
    enrichments: AttrMap,
}

impl EnrichOperator {
    /// The key/value pairs this operator decorates batches with.
    pub closed spec fn spec_enrichments(&self) -> Map<Seq<char>, Seq<char>> {
        self.enrichments@
    }

    pub fn new(enrichments: AttrMap) -> (o: EnrichOperator)
        ensures
            o.spec_enrichments() == enrichments@,
    {
        EnrichOperator { enrichments }
    }

    /// One decoration, by key.
    pub fn enrichment<'a>(&'a self, key: &str) -> (r: Option<&'a String>)
        ensures
            match r {
                Some(v) => self.spec_enrichments().contains_key(key@) && self.spec_enrichments()[
                    key@
                ] == v@,
                None => !self.spec_enrichments().contains_key(key@),
            },
    {
        self.enrichments.get(key)
    }
}

} // verus!
