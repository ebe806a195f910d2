//! Citation-graph extraction and expansion: a parser for scholarly result
//! pages, a graph store with level bookkeeping, and the expansion step that
//! grows the graph one hop at a time.

pub mod paper_id;
pub mod node;
pub mod parser;
pub mod text;
pub mod graph;
pub mod snapshot;
