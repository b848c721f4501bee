//! What can go wrong, and how far each failure reaches.

use crate::stream::StreamEvent;
use vstd::prelude::*;

verus! {

/// The kinds of failure.
#[derive(Debug, Clone, Copy, PartialEq, Eq, Structural)]
pub enum Failure {
    /// The connection to the feed could not be opened, was lost, or did not
    /// take the subscription.
    Transport,
    /// A frame could not be read as an event.
    Decode,
    /// The stored trigger of one alert could not be read.
    StoredRule,
    /// The store could not be asked for the alerts of an event.
    Fetch,
    /// A notification could not be made or was not taken.
    Delivery,
    /// A setting that the program needs is missing or cannot be used.
    Configuration,
}

/// What is given up on a failure; everything else goes on.
#[derive(Debug, Clone, Copy, PartialEq, Eq, Structural)]
pub enum Recovery {
    /// The connection: the client connects and subscribes again.
    Reconnect,
    /// The frame: the next frame is read.
    DropFrame,
    /// The alert of the row: the other rows are used.
    SkipAlert,
    /// The notifications of the frame: the next frame is read.
    SkipFrame,
    /// The notification of the alert: the other matched alerts are notified.
    NextAlert,
    /// The program.
    Exit,
}

impl Failure {
    /// What is given up on the failure.
    pub open spec fn recovery_of(self) -> Recovery {
        match self {
            Failure::Transport => Recovery::Reconnect,
            Failure::Decode => Recovery::DropFrame,
            Failure::StoredRule => Recovery::SkipAlert,
            Failure::Fetch => Recovery::SkipFrame,
            Failure::Delivery => Recovery::NextAlert,
            Failure::Configuration => Recovery::Exit,
        }
    }

    /// What is given up on the failure.
    pub fn recovery(&self) -> (r: Recovery)
        ensures
            r == self.recovery_of(),
    {
        match self {
            Failure::Transport => Recovery::Reconnect,
            Failure::Decode => Recovery::DropFrame,
            Failure::StoredRule => Recovery::SkipAlert,
            Failure::Fetch => Recovery::SkipFrame,
            Failure::Delivery => Recovery::NextAlert,
            Failure::Configuration => Recovery::Exit,
        }
    }

    /// Whether the program ends on the failure: only where a setting is
    /// missing or cannot be used.
    pub fn is_fatal(&self) -> (r: bool)
        ensures
            r <==> *self == Failure::Configuration,
            r <==> self.recovery_of() == Recovery::Exit,
    {
        match self {
            Failure::Configuration => true,
            _ => false,
        }
    }

    /// What the connection's state machine is told of the failure: of a
    /// transport failure that the transport failed, of any other nothing.
    pub fn stream_event(&self) -> (r: Option<StreamEvent>)
        ensures
            r == if *self == Failure::Transport {
                Some(StreamEvent::TransportError)
            } else {
                None
            },
    {
        match self {
            Failure::Transport => Some(StreamEvent::TransportError),
            _ => None,
        }
    }
}

} // verus!
