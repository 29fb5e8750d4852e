//! Windowed-aggregation and as-of-join execution kernels for a columnar
//! query engine: grouped sum variants (plain, cumulative, row-framed,
//! range-framed), tie-aware ranking, lead navigation, and the nearest-match
//! (as-of) join, all specified and verified over a plain-value column model.

// core data model
pub mod dtype;
pub mod error;
pub mod expr;
pub mod schema;
pub mod series;
pub mod table;

// shared specification helpers
pub mod flat;
pub mod names;
pub mod strfmt;
pub mod strjoin;

// row-level and group-level algorithms
pub mod asof;
pub mod groups;
pub mod laws;
pub mod search;
pub mod sort;
pub mod sum;
pub mod table_window;
pub mod window;

// plan nodes, statistics, and the micropartition layer
pub mod indexmap_specs;
pub mod logical_ops;
pub mod merge_asof;
pub mod micropartition;
pub mod physical_ops;
pub mod plan;
pub mod stats;
pub mod utf8_fns;
