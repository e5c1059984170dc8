use vstd::prelude::*;

pub mod error;
pub mod export;
pub mod fst;
pub mod image;
pub mod laws;
pub mod tree;

verus! {


} // verus!
