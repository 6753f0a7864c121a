//! An embeddable relational-style database engine: a columnar storage
//! manager paired with a query executor supporting table creation, row
//! insertion and deletion, filtered projection, equality joins, and
//! typed aggregation.
//!
//! The crate is organized leaf-first: the value and type model with its
//! binary codec, the schema catalog, the condition evaluator, the
//! storage manager with its column-store compression, and the query
//! engine on top. Callers hand the engine already-structured queries;
//! the interactive shell, logging and metrics emission, and plugin
//! registration are host concerns outside this crate.

pub mod codec;
pub mod compress;
pub mod condition;
pub mod engine;
pub mod logging;
pub mod plugins;
pub mod schema;
pub mod storage;
pub mod types;
