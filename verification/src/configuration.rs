//! The configuration a run is driven by: a list of named queries, each pairing
//! a file glob with a pattern and the output modes requested for its results.
use vstd::prelude::*;

verus! {

/// The whole configuration: the queries to run, in the order they were given.
#[derive(Debug)]
pub struct AntennaConfiguration {
    pub queries: Vec<AntennaQuery>,
}

/// One named query. `name` is the unique key results are associated under,
/// `glob` selects the candidate files, `query` is the pattern evaluated over
/// their syntax trees, and `output` lists the requested output modes.
#[derive(Debug)]
pub struct AntennaQuery {
    pub name: String,
    pub glob: String,
    pub query: String,
    pub output: Option<Vec<AntennaOutputMode>>,
}

/// One way a query's results are emitted.
#[derive(Debug, Clone)]
pub enum AntennaOutputMode {
    Json { require_matches: bool, path: String },
    Csv { path: String },
    Occurrences,
}

} // verus!
