//! Error taxonomy of the indexing core.

use vstd::prelude::*;

verus! {

/// What can go wrong inside the indexing core. A failing read or write of the
/// backing store is fatal to the operation that made it; a stop-listed token
/// is a routing decision, never surfaced as a failure of a whole ingestion.
#[derive(Clone, Copy, Debug, PartialEq, Eq, Structural)]
pub enum IngestError {
    /// The backing store failed to read or write.
    Storage,
}

} // verus!
