use akela::service::{
    listener_step, publish_status, ListenerEvent, ListenerStep, CLIENT_BUFFER, KEEP_ALIVE_SECS,
    RECONNECT_DELAY_MS,
};
use akela::Envelope;

#[test]
fn publish_statuses() {
    assert_eq!(publish_status(true), 202);
    assert_eq!(publish_status(false), 502);
}

#[test]
fn delivery_constants() {
    assert_eq!(CLIENT_BUFFER, 256);
    assert_eq!(KEEP_ALIVE_SECS, 15);
    assert_eq!(RECONNECT_DELAY_MS, 1000);
}

#[test]
fn listener_stops_when_hub_is_gone() {
    assert!(matches!(listener_step::<u8>(ListenerEvent::HubDropped), ListenerStep::Stop));
}

#[test]
fn listener_reconnects_after_a_second() {
    match listener_step::<u8>(ListenerEvent::SubscriptionLost) {
        ListenerStep::Reconnect { delay_ms } => assert_eq!(delay_ms, 1000),
        _ => panic!("a lost subscription must be re-established"),
    }
}

#[test]
fn listener_skips_malformed_payloads() {
    assert!(matches!(listener_step::<u8>(ListenerEvent::Malformed), ListenerStep::Skip));
}

#[test]
fn listener_applies_envelopes() {
    match listener_step(ListenerEvent::Received(Envelope::send(3u8, None, None))) {
        ListenerStep::Apply(Envelope::Send { data, .. }) => assert_eq!(data, 3),
        _ => panic!("an envelope must be applied"),
    }
}
