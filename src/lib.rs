//! Object-graph scanning over decoded container files.
//!
//! - `value`: the tree values that object bodies and query results take.
//! - `qualify_pptr`: turning file-local pointer records into references that
//!   are valid anywhere.
//! - `enrich`: the origin metadata added to each object.
//! - `filter`: selecting objects by declared type.
//! - `scan`: the aggregation state of a scan: output cap, counts,
//!   cancellation, progress.
//! - `cache`: loaded files, decoded once per path.
//! - `deref`: the decisions behind the `dereference` query builtin.
//! - `query`: error text for programs that do not load.
//! - `progress`, `settings`: what a front end shows and asks for.
//! - `text`: string helpers.
pub mod text;
pub mod value;
pub mod qualify_pptr;
pub mod filter;
pub mod enrich;
pub mod scan;
pub mod cache;
pub mod deref;
pub mod progress;
pub mod settings;
pub mod query;
