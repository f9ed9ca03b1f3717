//! A TCP port scanner's decision logic: input validation, the scan
//! configuration, the ordered set of scan results, timeout calculation and
//! the retry verdict.
use vstd::prelude::*;

pub mod text;
pub mod results;
pub mod matching;
pub mod config;
pub mod timing;
pub mod probe;
pub mod plan;
pub mod gui;

verus! {

} // verus!
