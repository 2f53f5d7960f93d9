//! The wake-up signal of one subscriber, and what is taken on trust about it.
//!
//! A connection that finds its queue empty waits on a `tokio::sync::Notify`; the
//! library raises that signal whenever the connection has something new to see.
//! Raising a signal nobody waits on stores one permit, so that a wake-up is
//! never lost between looking at the queue and starting to wait.

use std::sync::Arc;
use tokio::sync::Notify;
use vstd::prelude::*;

verus! {

#[verifier::external_type_specification]
#[verifier::external_body]
pub struct ExNotify(tokio::sync::Notify);

/// `Notify::new` makes a signal without a stored permit. Nothing is claimed of
/// it: a signal has no state that this library reasons about.
pub assume_specification[ tokio::sync::Notify::new ]() -> (signal: Notify)
;

/// `Notify::notify_one` wakes the task that waits on the signal, or stores one
/// permit where none waits. Nothing is claimed of it but that it returns.
pub assume_specification[ tokio::sync::Notify::notify_one ](signal: &Notify)
;

/// Calls `Arc::clone`, which hands out a second pointer to the same signal.
/// Trusted: the new pointer stands for the same signal as the one it was made from.
#[verifier::external_body]
pub(crate) fn share_signal(signal: &Arc<Notify>) -> (handle: Arc<Notify>)
    ensures
        handle == *signal,
{
    Arc::clone(signal)
}

} // verus!
