//! The per-subscriber session policy: what the forwarder does after
//! offering a summary to its client's bounded delivery queue.

use vstd::prelude::*;

verus! {

/// The outcome of a non-blocking offer of one summary to a session's
/// delivery queue.
#[derive(Clone, Copy, Debug, PartialEq, Eq, Structural)]
pub enum DeliveryOutcome {
    /// The summary was enqueued.
    Delivered,
    /// The queue is full: the client is slow.
    QueueFull,
    /// The queue is closed: the client disconnected.
    Closed,
}

/// What the forwarder does next.
#[derive(Clone, Copy, Debug, PartialEq, Eq, Structural)]
pub enum ForwarderAction {
    /// Keep forwarding summaries from the bus.
    Continue,
    /// Stop, dropping the bus subscription.
    Terminate,
}

/// The session policy as a function: only a disconnected client stops
/// the forwarder.
pub open spec fn spec_forwarder_decision(outcome: DeliveryOutcome) -> ForwarderAction {
    match outcome {
        DeliveryOutcome::Delivered => ForwarderAction::Continue,
        DeliveryOutcome::QueueFull => ForwarderAction::Continue,
        DeliveryOutcome::Closed => ForwarderAction::Terminate,
    }
}

/// One forwarder step. A delivered summary continues; a full queue
/// skips the summary and continues — the summary is a snapshot, so
/// freshness beats completeness and a newer one is already behind it;
/// a closed queue means the client disconnected, and the forwarder
/// terminates within this one summary, implicitly unsubscribing.
pub fn forwarder_decision(outcome: DeliveryOutcome) -> (r: ForwarderAction)
    ensures
        r == spec_forwarder_decision(outcome),
        (r is Terminate) <==> (outcome is Closed),
{
    match outcome {
        DeliveryOutcome::Delivered => ForwarderAction::Continue,
        DeliveryOutcome::QueueFull => ForwarderAction::Continue,
        DeliveryOutcome::Closed => ForwarderAction::Terminate,
    }
}

} // verus!
