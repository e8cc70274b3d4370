//! The language server's own decisions: which builtins a file sees, where a load points,
//! what is underlined, and what a jump to a builtin lands on. Parsing, evaluating and the
//! protocol belong to the caller.

use vstd::prelude::*;

pub mod context;
pub mod diagnostics;
pub mod env;
pub mod project;
pub mod stubs;

verus! {

} // verus!
