//! A Zanzibar-style authorization engine: relation tuples, a fixed relation
//! hierarchy, a cycle-safe permission evaluator, consistency tokens
//! ("zookies") and a check-result cache with pattern invalidation.

pub mod errors;
pub mod text;
pub mod hierarchy;
mod clock;
pub mod models;
pub mod store;
pub mod userset;
pub mod graph;
pub mod checker;
pub mod decimal;
pub mod escape;
pub mod json;
pub mod zookie;
pub mod glob;
pub mod cache;
pub mod service;
pub mod laws;
