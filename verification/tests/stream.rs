use universalis_alerts::stream::{ConnectionState, StreamAction, StreamClient, StreamEvent};

#[test]
fn client_starts_without_a_connection() {
    let client = StreamClient::new();
    assert_eq!(client.current_state(), ConnectionState::Disconnected);
    assert_eq!(client.connect_count(), 0);
    assert_eq!(client.transport_error_count(), 0);
    assert_eq!(client.frame_count(), 0);
}

#[test]
fn client_connects_subscribes_and_streams() {
    let mut client = StreamClient::new();
    assert_eq!(client.handle(StreamEvent::Wake), StreamAction::Connect);
    assert_eq!(client.current_state(), ConnectionState::Connecting);
    assert_eq!(client.handle(StreamEvent::Opened), StreamAction::Subscribe);
    assert_eq!(client.current_state(), ConnectionState::Subscribed);
    assert_eq!(client.handle(StreamEvent::SubscriptionSent), StreamAction::Read);
    assert_eq!(client.current_state(), ConnectionState::Streaming);
    assert_eq!(client.handle(StreamEvent::Frame), StreamAction::Process);
    assert_eq!(client.current_state(), ConnectionState::Streaming);
    assert_eq!(client.connect_count(), 1);
    assert_eq!(client.frame_count(), 1);
}

#[test]
fn client_resubscribes_after_a_transport_error_before_the_next_frame() {
    let mut client = StreamClient::new();
    client.handle(StreamEvent::Wake);
    client.handle(StreamEvent::Opened);
    client.handle(StreamEvent::SubscriptionSent);
    assert_eq!(client.handle(StreamEvent::Frame), StreamAction::Process);
    assert_eq!(client.handle(StreamEvent::TransportError), StreamAction::Drop);
    assert_eq!(client.current_state(), ConnectionState::Disconnected);
    // No frame is processed until the client is streaming again.
    assert_eq!(client.handle(StreamEvent::Frame), StreamAction::Ignore);
    assert_eq!(client.handle(StreamEvent::Wake), StreamAction::Connect);
    assert_eq!(client.handle(StreamEvent::Frame), StreamAction::Ignore);
    assert_eq!(client.handle(StreamEvent::Opened), StreamAction::Subscribe);
    assert_eq!(client.handle(StreamEvent::Frame), StreamAction::Ignore);
    assert_eq!(client.handle(StreamEvent::SubscriptionSent), StreamAction::Read);
    assert_eq!(client.current_state(), ConnectionState::Streaming);
    assert_eq!(client.handle(StreamEvent::Frame), StreamAction::Process);
    assert_eq!(client.connect_count(), 2);
    assert_eq!(client.transport_error_count(), 1);
    assert_eq!(client.frame_count(), 2);
}

#[test]
fn transport_error_disconnects_from_every_state() {
    for events in [
        vec![StreamEvent::Wake],
        vec![StreamEvent::Wake, StreamEvent::Opened],
        vec![StreamEvent::Wake, StreamEvent::Opened, StreamEvent::SubscriptionSent],
    ] {
        let mut client = StreamClient::new();
        for event in events {
            client.handle(event);
        }
        assert_eq!(client.handle(StreamEvent::TransportError), StreamAction::Drop);
        assert_eq!(client.current_state(), ConnectionState::Disconnected);
        assert_eq!(client.transport_error_count(), 1);
    }
}

#[test]
fn transport_error_without_a_connection_is_not_counted() {
    let mut client = StreamClient::new();
    assert_eq!(client.handle(StreamEvent::TransportError), StreamAction::Ignore);
    assert_eq!(client.current_state(), ConnectionState::Disconnected);
    assert_eq!(client.transport_error_count(), 0);
}

#[test]
fn events_out_of_place_are_ignored() {
    let mut client = StreamClient::new();
    assert_eq!(client.handle(StreamEvent::Opened), StreamAction::Ignore);
    assert_eq!(client.handle(StreamEvent::SubscriptionSent), StreamAction::Ignore);
    assert_eq!(client.handle(StreamEvent::Frame), StreamAction::Ignore);
    assert_eq!(client.current_state(), ConnectionState::Disconnected);
    client.handle(StreamEvent::Wake);
    assert_eq!(client.handle(StreamEvent::Wake), StreamAction::Ignore);
    assert_eq!(client.handle(StreamEvent::SubscriptionSent), StreamAction::Ignore);
    assert_eq!(client.current_state(), ConnectionState::Connecting);
    client.handle(StreamEvent::Opened);
    assert_eq!(client.handle(StreamEvent::Opened), StreamAction::Ignore);
    assert_eq!(client.current_state(), ConnectionState::Subscribed);
    assert_eq!(client.connect_count(), 1);
    assert_eq!(client.frame_count(), 0);
}

#[test]
fn step_gives_state_and_action() {
    assert_eq!(
        ConnectionState::Disconnected.step(StreamEvent::Wake),
        (ConnectionState::Connecting, StreamAction::Connect)
    );
    assert_eq!(
        ConnectionState::Streaming.step(StreamEvent::Frame),
        (ConnectionState::Streaming, StreamAction::Process)
    );
    assert_eq!(
        ConnectionState::Streaming.step(StreamEvent::TransportError),
        (ConnectionState::Disconnected, StreamAction::Drop)
    );
    assert_eq!(
        ConnectionState::Subscribed.step(StreamEvent::Frame),
        (ConnectionState::Subscribed, StreamAction::Ignore)
    );
}
