//! Verified core of a CSV-to-RDF converter driven by SPARQL CONSTRUCT queries: the
//! command line, the cleaning of column names, the expansion of split columns into rows
//! of bindings, the reading of prefixes and variables from the query text, the custom
//! prefix functions, and the decisions of a conversion run.
pub mod args;
pub mod conversion;
pub mod dedup;
pub mod evaluation;
pub mod functions;
pub mod query_text;
pub mod run;
pub mod sparql;
pub mod split;
pub mod tarql;
pub mod text;

pub use vstd::hash_map::StringHashMap;
pub use vstd::hash_set::StringHashSet;
