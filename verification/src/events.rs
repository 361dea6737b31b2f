//! Internal bookkeeping events emitted by the integrations.

use vstd::prelude::*;

verus! {

/// One event accepted by the search-index writer, with the byte size it
/// contributed and the index it was written to.
#[derive(Clone, Debug, PartialEq, Eq)]
pub struct ElasticSearchEventReceived {
    pub byte_size: usize,
    pub index: String,
}

impl ElasticSearchEventReceived {
    pub fn new(byte_size: usize, index: String) -> (r: ElasticSearchEventReceived)
        ensures
            r.byte_size == byte_size,
            r.index@ == index@,
    {
        ElasticSearchEventReceived { byte_size, index }
    }
}

} // verus!
