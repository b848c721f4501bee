use universalis_alerts::errors::{Failure, Recovery};
use universalis_alerts::stream::StreamEvent;

#[test]
fn each_failure_gives_up_what_it_must() {
    assert_eq!(Failure::Transport.recovery(), Recovery::Reconnect);
    assert_eq!(Failure::Decode.recovery(), Recovery::DropFrame);
    assert_eq!(Failure::StoredRule.recovery(), Recovery::SkipAlert);
    assert_eq!(Failure::Fetch.recovery(), Recovery::SkipFrame);
    assert_eq!(Failure::Delivery.recovery(), Recovery::NextAlert);
    assert_eq!(Failure::Configuration.recovery(), Recovery::Exit);
}

#[test]
fn only_a_configuration_failure_is_fatal() {
    assert!(Failure::Configuration.is_fatal());
    assert!(!Failure::Transport.is_fatal());
    assert!(!Failure::Decode.is_fatal());
    assert!(!Failure::StoredRule.is_fatal());
    assert!(!Failure::Fetch.is_fatal());
    assert!(!Failure::Delivery.is_fatal());
}

#[test]
fn only_a_transport_failure_reaches_the_connection() {
    assert_eq!(Failure::Transport.stream_event(), Some(StreamEvent::TransportError));
    assert_eq!(Failure::Decode.stream_event(), None);
    assert_eq!(Failure::StoredRule.stream_event(), None);
    assert_eq!(Failure::Fetch.stream_event(), None);
    assert_eq!(Failure::Delivery.stream_event(), None);
    assert_eq!(Failure::Configuration.stream_event(), None);
}
