//! Series-identity and durability-buffering core of a metrics ingestion
//! pipeline: a canonical, order-independent signature for label sets, the
//! fixed column layout of the persisted value table, and the per-series
//! grouping and sequencing of buffered sample lines on their way into an
//! append-only durability segment.

pub mod errors;
pub mod flush;
pub mod hexstr;
pub mod order;
pub mod schema;
pub mod signature;
