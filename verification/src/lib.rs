//! Verified text, table and decision logic of the quantum work network
//! analysis programs.
use vstd::prelude::*;

pub mod conditions;
pub mod csv;
pub mod guards;
pub mod numbers;
pub mod report;
pub mod switches;
pub mod text;
pub mod verdict;

verus! {

} // verus!
