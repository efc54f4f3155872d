use vstd::prelude::*;

pub mod polygon;
pub mod builder;
pub mod resolver;
pub mod laws;
pub mod extract;

verus! {

} // verus!
