use vstd::prelude::*;

pub mod command;
pub mod laws;
pub mod model;
pub mod ratio;
pub mod response;
pub mod session;

verus! {

} // verus!
