use vstd::prelude::*;

pub mod attack;
pub mod collections;
pub mod engine;
pub mod uci;

verus! {

} // verus!
