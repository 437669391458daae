//! The fixed-capacity collections of `heapless`, made known to the verifier.
//!
//! Their insides stay opaque. Each module that keeps one of them names
//! what it holds and states, per operation it uses, what that operation
//! does to the contents.
use vstd::prelude::*;

verus! {

#[verifier::external_type_specification]
#[verifier::external_body]
#[verifier::reject_recursive_types(T)]
pub struct ExVec<T, const N: usize>(heapless::Vec<T, N>);

#[verifier::external_type_specification]
#[verifier::external_body]
#[verifier::reject_recursive_types(T)]
pub struct ExDeque<T, const N: usize>(heapless::Deque<T, N>);

} // verus!
