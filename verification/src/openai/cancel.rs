//! The cancellation flag shared with a running request.
use std::sync::atomic::AtomicBool;
use vstd::prelude::*;

verus! {

/// Whether a cancellation flag is present and set. The flag is read without
/// ordering guarantees; its value is not known in advance, so all that is
/// stated is that without a flag nothing is cancelled.
pub fn is_cancelled(cancel: Option<&AtomicBool>) -> (b: bool)
    ensures
        cancel is None ==> !b,
{
    match cancel {
        Some(flag) => flag.load(std::sync::atomic::Ordering::Relaxed),
        None => false,
    }
}

} // verus!
