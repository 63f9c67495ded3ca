//! What a front-end hands the engine besides a record.
use vstd::prelude::*;

verus! {

/// A query request: the pattern to match, or `*` for every record.
#[derive(Debug)]
pub struct DbQuery {
    pub query: String,
}

} // verus!
