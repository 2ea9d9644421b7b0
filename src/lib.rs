use vstd::prelude::*;

pub mod render;
pub mod session;
pub mod temperature;
pub mod text;
pub mod unit;

verus! {

} // verus!
