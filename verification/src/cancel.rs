//! Cooperative cancellation through a shared flag.

use vstd::prelude::*;
use std::sync::atomic::AtomicBool;
use std::sync::atomic::Ordering;

verus! {

/// Whether cancellation has been asked for: the flag read with relaxed
/// ordering, and never without a flag. What the flag holds is up to other
/// threads, so nothing more is known of the answer.
pub fn cancel_requested(cancel: Option<&AtomicBool>) -> (res: bool)
    ensures
        cancel is None ==> !res,
{
    match cancel {
        Some(c) => c.load(Ordering::Relaxed),
        None => false,
    }
}

} // verus!
