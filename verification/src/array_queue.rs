//! The bounded queue that mailboxes and the ingestion queue are made of.

use vstd::prelude::*;

verus! {

/// `crossbeam::queue::ArrayQueue`, a bounded first-in first-out queue. Its
/// fields are hidden: what a queue holds is told by the modules that use it.
#[verifier::external_type_specification]
#[verifier::external_body]
#[verifier::reject_recursive_types(T)]
pub struct ExArrayQueue<T>(crossbeam::queue::ArrayQueue<T>);

} // verus!
