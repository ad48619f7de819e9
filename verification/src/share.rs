//! What threads can share.
use vstd::prelude::*;

verus! {

/// An atomic pointer of the standard library. As a marker it stands for a type that is named
/// but not held: it can be sent and shared whatever that type is like.
#[verifier::external_type_specification]
#[verifier::external_body]
#[verifier::reject_recursive_types(T)]
pub struct ExAtomicPtr<T>(std::sync::atomic::AtomicPtr<T>);

/// A scenario that can be sent to other threads and shared between them.
pub trait Shareable: Send + Sync {

}

} // verus!
