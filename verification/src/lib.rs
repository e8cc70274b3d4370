use vstd::prelude::*;

pub mod batch;
pub mod digest;
pub mod edit;
pub mod graph;
pub mod hash;
pub mod ir;
pub mod json;
pub mod laws;
pub mod list;
pub mod lsp;
pub mod metrics;
pub mod opdb;
pub mod openapi;
pub mod order;
pub mod plan;
pub mod program;
pub mod progress;
pub mod projection;
pub mod projector;
pub mod propgen;
pub mod read_api;
pub mod read_model;
pub mod replay;
pub mod report;
pub mod runtime;
pub mod schema;
pub mod sql;
pub mod text;

verus! {

} // verus!
