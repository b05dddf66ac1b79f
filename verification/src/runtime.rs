//! Access to what the extension was set up with.

use vstd::prelude::*;
use std::sync::Arc;

verus! {

/// `Arc::clone`: another pointer to the same allocation, so the same value.
#[verifier::external_body]
fn share<T>(a: &Arc<T>) -> (r: Arc<T>)
    ensures
        r == *a,
{
    Arc::clone(a)
}

/// The metadata of all configuration entries of the extension, which must have been stored
/// when the extension started: the stored entries themselves.
pub fn config_entries<T>(stored: &Option<Arc<T>>) -> (r: Arc<T>)
    requires
        stored is Some,
    ensures
        r == stored->0,
{
    match stored {
        Some(entries) => share(entries),
        None => {
            assert(false);
            unreached()
        },
    }
}

} // verus!
