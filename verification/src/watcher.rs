//! The watcher state machine: one task per tracked subject following the
//! chain's finalized blocks.
//!
//! The task around it performs the connecting, the subscription and the block
//! delivery; the decisions — what each observation means for the task and
//! what to do next — stand here. A watcher connects once, then samples and
//! appends for every finalized block in delivery order, and terminates on any
//! connection or subscription failure (no automatic reconnect).

use vstd::prelude::*;

verus! {

/// Where a watcher task stands in its lifecycle.
#[derive(Clone, Copy, PartialEq, Eq, Structural, Debug)]
pub enum WatcherPhase {
    /// The connection and subscription are being established.
    Connecting,
    /// The finalized-block subscription is live.
    Subscribed,
    /// The task is over; a new process is needed to resume tracking.
    Disconnected,
}

/// What the task observed from the chain connection.
#[derive(Clone, Copy, PartialEq, Eq, Structural, Debug)]
pub enum WatcherEvent {
    /// The connection and the finalized-block subscription are up.
    Connected,
    /// Connecting or subscribing failed.
    ConnectionFailed,
    /// The chain finalized the block with this number.
    BlockFinalized(u32),
    /// The subscription stream ended.
    SubscriptionClosed,
}

/// What the task must do next.
#[derive(Clone, Copy, PartialEq, Eq, Structural, Debug)]
pub enum WatcherAction {
    /// Wait for the next subscription delivery.
    AwaitBlock,
    /// Sample the block with this number and append the sample to the
    /// subject's shard.
    SampleAndAppend(u32),
    /// Log the end of tracking and stop the task.
    Stop,
}

/// The watcher transition table.
pub open spec fn spec_watcher_step(
    phase: WatcherPhase,
    event: WatcherEvent,
) -> (WatcherPhase, WatcherAction) {
    match (phase, event) {
        (WatcherPhase::Connecting, WatcherEvent::Connected) => (
            WatcherPhase::Subscribed,
            WatcherAction::AwaitBlock,
        ),
        (WatcherPhase::Subscribed, WatcherEvent::BlockFinalized(n)) => (
            WatcherPhase::Subscribed,
            WatcherAction::SampleAndAppend(n),
        ),
        _ => (WatcherPhase::Disconnected, WatcherAction::Stop),
    }
}

/// Advances the watcher by one observation.
///
/// A live subscription samples and appends every finalized block, in delivery
/// order; every failure — and any observation out of its phase — ends the
/// task for good.
pub fn watcher_step(phase: WatcherPhase, event: WatcherEvent) -> (r: (WatcherPhase, WatcherAction))
    ensures
        r == spec_watcher_step(phase, event),
{
    match (phase, event) {
        (WatcherPhase::Connecting, WatcherEvent::Connected) => (
            WatcherPhase::Subscribed,
            WatcherAction::AwaitBlock,
        ),
        (WatcherPhase::Subscribed, WatcherEvent::BlockFinalized(n)) => (
            WatcherPhase::Subscribed,
            WatcherAction::SampleAndAppend(n),
        ),
        _ => (WatcherPhase::Disconnected, WatcherAction::Stop),
    }
}

/// Selects the collector instance's rpc endpoint from the subject's
/// candidates: the one at the configured index, if the list is long enough.
pub fn select_rpc(rpcs: &Vec<String>, rpc_index: usize) -> (r: Option<&String>)
    ensures
        match r {
            Some(url) => rpc_index < rpcs@.len() && url@ == rpcs@[rpc_index as int]@,
            None => rpc_index >= rpcs@.len(),
        },
{
    if rpc_index < rpcs.len() {
        Some(&rpcs[rpc_index])
    } else {
        None
    }
}

} // verus!
