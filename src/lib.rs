use vstd::prelude::*;

pub mod decimal;
pub mod string_map;
pub mod error;
pub mod config;
pub mod file;
pub mod laws;

verus! {

} // verus!
