use vstd::prelude::*;

use crate::protocol::Envelope;

verus! {

/// How many events each client's buffer holds; a client that falls
/// further behind has further events dropped.
pub const CLIENT_BUFFER: usize = 256;

/// Seconds between keep-alive comments on an idle event stream.
pub const KEEP_ALIVE_SECS: u64 = 15;

/// Milliseconds to wait before subscribing to the channel again after
/// the subscription was lost.
pub const RECONNECT_DELAY_MS: u64 = 1000;

/// The HTTP status that answers a request to publish: 202 Accepted once
/// the envelope is published, 502 Bad Gateway when Redis refused it.
pub fn publish_status(published: bool) -> (status: u16)
    ensures
        status == (if published {
            202u16
        } else {
            502u16
        }),
{
    if published {
        202
    } else {
        502
    }
}

/// What the channel listener observes.
pub enum ListenerEvent<D> {
    /// The hub it serves has been dropped.
    HubDropped,
    /// Subscribing failed, a payload could not be read, or the
    /// subscription stream ended.
    SubscriptionLost,
    /// A payload arrived that is not an envelope.
    Malformed,
    /// An envelope arrived.
    Received(Envelope<D>),
}

/// What the channel listener does next.
pub enum ListenerStep<D> {
    /// Stop listening for good.
    Stop,
    /// Subscribe again after `delay_ms` milliseconds.
    Reconnect { delay_ms: u64 },
    /// Discard the payload and wait for the next one.
    Skip,
    /// Apply the envelope to the local clients.
    Apply(Envelope<D>),
}

/// The listener's decision on an event: it stops once the hub is gone,
/// resubscribes after a pause when the subscription is lost, discards
/// malformed payloads, and applies every envelope.
pub fn listener_step<D>(event: ListenerEvent<D>) -> (step: ListenerStep<D>)
    ensures
        match event {
            ListenerEvent::HubDropped => step is Stop,
            ListenerEvent::SubscriptionLost => step matches ListenerStep::Reconnect { delay_ms }
                && delay_ms == RECONNECT_DELAY_MS,
            ListenerEvent::Malformed => step is Skip,
            ListenerEvent::Received(e) => step matches ListenerStep::Apply(a) && a == e,
        },
{
    match event {
        ListenerEvent::HubDropped => ListenerStep::Stop,
        ListenerEvent::SubscriptionLost => ListenerStep::Reconnect { delay_ms: RECONNECT_DELAY_MS },
        ListenerEvent::Malformed => ListenerStep::Skip,
        ListenerEvent::Received(e) => ListenerStep::Apply(e),
    }
}

} // verus!
