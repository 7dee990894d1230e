use vstd::prelude::*;

pub mod codec;
pub mod control;
pub mod decimal;
pub mod ec;
pub mod filter;
pub mod policy;
pub mod text;

verus! {

} // verus!
