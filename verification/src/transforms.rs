//! The plan transforms: minify, enrich and prune, and their preset order.

pub mod enrich;
pub mod minify;
pub mod preset;
pub mod pruner;
