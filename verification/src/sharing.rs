//! Handing out another `Arc` handle to a shared value.
use vstd::prelude::*;

use std::sync::Arc;

verus! {

/// `Arc::clone`: a second handle to the same value (std documents that it
/// makes a new pointer to the same allocation). Claimed: the handle
/// reads as the value the handle it was cloned from points at.
#[verifier::external_body]
pub(crate) fn share_arc<T>(a: &Arc<T>) -> (r: Arc<T>)
    ensures
        r == *a,
{
    Arc::clone(a)
}

} // verus!
