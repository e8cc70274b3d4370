//! What the operations of the library are for, stated of their results: each law relates
//! what goes in to what comes out, apart from how an operation is carried out.

use vstd::prelude::*;

pub mod books;
pub mod commands;
pub mod deploys;
pub mod digests;
pub mod editing;
pub mod inlining;
pub mod interfaces;
pub mod metering;
pub mod plans;
pub mod projections;
pub mod projectors;
pub mod reads;
pub mod replays;
pub mod reports;
pub mod samples;
pub mod schemas;
pub mod tables;
pub mod texts;
pub mod writes;
pub mod writing;

verus! {

} // verus!
