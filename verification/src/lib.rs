use vstd::prelude::*;

pub mod bytes;
pub mod config;
pub mod decimal;
pub mod json;
pub mod keylog;
pub mod minimize;
pub mod probe;
pub mod qlog;
pub mod recorder;
pub mod report;
pub mod resolver;
pub mod rotate;
pub mod throttle;
pub mod types;

verus! {

} // verus!
