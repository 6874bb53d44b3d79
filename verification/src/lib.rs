//! A federated GraphQL query planner.
//!
//! Given a supergraph blueprint (a schema annotated with `join__*`
//! federation directives) and a client operation, the planner produces a
//! tree of fetches against individual subgraphs: the blueprint is parsed
//! from a document mirror and indexed, the operation becomes an initial
//! plan of one fetch per operation, and the plan is then minified,
//! enriched with candidate subgraphs, and pruned to a minimal cover.

pub mod blueprint;
pub mod builder;
pub mod error;
pub mod index;
pub mod json;
pub mod lens;
pub mod model;
pub mod names;
pub mod node;
pub mod options;
pub mod parse;
pub mod sdl;
pub mod transform;
pub mod transforms;
pub mod valid;

