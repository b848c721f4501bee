//! The connection to the feed as a state machine: what the client does next,
//! given where it stands and what has just happened.

use vstd::prelude::*;

verus! {

/// Where the client stands.
#[derive(Debug, Clone, Copy, PartialEq, Eq, Structural)]
pub enum ConnectionState {
    /// No connection, and none being opened.
    Disconnected,
    /// A connection is being opened.
    Connecting,
    /// The connection is open and the subscription is being sent.
    Subscribed,
    /// The subscription is sent and frames are being read.
    Streaming,
}

/// What has just happened.
#[derive(Debug, Clone, Copy, PartialEq, Eq, Structural)]
pub enum StreamEvent {
    /// The client is asked to run, at the start or after a loss.
    Wake,
    /// The connection was opened.
    Opened,
    /// The subscription was sent.
    SubscriptionSent,
    /// A frame was read.
    Frame,
    /// The transport failed: the connection could not be opened, the
    /// subscription could not be sent, a read failed, or the feed closed
    /// the connection.
    TransportError,
}

/// What the client does next.
#[derive(Debug, Clone, Copy, PartialEq, Eq, Structural)]
pub enum StreamAction {
    /// Open a connection to the feed.
    Connect,
    /// Send the subscription over the connection.
    Subscribe,
    /// Read the next frame.
    Read,
    /// Hand the frame just read to the pipeline, and read on.
    Process,
    /// Give the connection up and count the loss.
    Drop,
    /// Nothing: the event has no meaning where the client stands.
    Ignore,
}

impl ConnectionState {
    /// The state after the event.
    pub open spec fn after(self, event: StreamEvent) -> ConnectionState {
        match (self, event) {
            (ConnectionState::Disconnected, StreamEvent::Wake) => ConnectionState::Connecting,
            (ConnectionState::Connecting, StreamEvent::Opened) => ConnectionState::Subscribed,
            (ConnectionState::Subscribed, StreamEvent::SubscriptionSent) => {
                ConnectionState::Streaming
            },
            (ConnectionState::Disconnected, StreamEvent::TransportError) => {
                ConnectionState::Disconnected
            },
            (_, StreamEvent::TransportError) => ConnectionState::Disconnected,
            (state, _) => state,
        }
    }

    /// What the client does on the event.
    pub open spec fn action(self, event: StreamEvent) -> StreamAction {
        match (self, event) {
            (ConnectionState::Disconnected, StreamEvent::Wake) => StreamAction::Connect,
            (ConnectionState::Connecting, StreamEvent::Opened) => StreamAction::Subscribe,
            (ConnectionState::Subscribed, StreamEvent::SubscriptionSent) => StreamAction::Read,
            (ConnectionState::Streaming, StreamEvent::Frame) => StreamAction::Process,
            (ConnectionState::Disconnected, StreamEvent::TransportError) => StreamAction::Ignore,
            (_, StreamEvent::TransportError) => StreamAction::Drop,
            (_, _) => StreamAction::Ignore,
        }
    }

    /// The state after the events, one after the other.
    pub open spec fn after_all(self, events: Seq<StreamEvent>) -> ConnectionState
        decreases events.len(),
    {
        if events.len() == 0 {
            self
        } else {
            self.after_all(events.drop_last()).after(events.last())
        }
    }

    /// The state after the event, and what the client does on it.
    pub fn step(self, event: StreamEvent) -> (r: (ConnectionState, StreamAction))
        ensures
            r.0 == self.after(event),
            r.1 == self.action(event),
    {
        match (self, event) {
            (ConnectionState::Disconnected, StreamEvent::Wake) => (
                ConnectionState::Connecting,
                StreamAction::Connect,
            ),
            (ConnectionState::Connecting, StreamEvent::Opened) => (
                ConnectionState::Subscribed,
                StreamAction::Subscribe,
            ),
            (ConnectionState::Subscribed, StreamEvent::SubscriptionSent) => (
                ConnectionState::Streaming,
                StreamAction::Read,
            ),
            (ConnectionState::Streaming, StreamEvent::Frame) => (
                ConnectionState::Streaming,
                StreamAction::Process,
            ),
            (ConnectionState::Disconnected, StreamEvent::TransportError) => (
                ConnectionState::Disconnected,
                StreamAction::Ignore,
            ),
            (_, StreamEvent::TransportError) => (
                ConnectionState::Disconnected,
                StreamAction::Drop,
            ),
            (state, _) => (state, StreamAction::Ignore),
        }
    }
}

impl ConnectionState {
    /// The state after the first `count` of the events.
    pub open spec fn at(self, events: Seq<StreamEvent>, count: int) -> ConnectionState {
        self.after_all(events.take(count))
    }
}

/// The state after one more event is the state after the events before it,
/// moved by that event.
pub proof fn lemma_one_more_event(start: ConnectionState, events: Seq<StreamEvent>, count: int)
    requires
        0 <= count < events.len(),
    ensures
        start.at(events, count + 1) == start.at(events, count).after(events[count]),
{
    assert(events.take(count + 1).drop_last() =~= events.take(count));
}

/// Any transport error leaves the client without a connection, wherever it
/// stood.
pub proof fn lemma_transport_error_disconnects(state: ConnectionState)
    ensures
        state.after(StreamEvent::TransportError) == ConnectionState::Disconnected,
{
}

/// A client without a connection that is woken, gets its connection and
/// sends its subscription is streaming again.
pub proof fn lemma_reconnect_returns_to_streaming()
    ensures
        ConnectionState::Disconnected.after_all(
            seq![StreamEvent::Wake, StreamEvent::Opened, StreamEvent::SubscriptionSent],
        ) == ConnectionState::Streaming,
{
    let events = seq![StreamEvent::Wake, StreamEvent::Opened, StreamEvent::SubscriptionSent];
    let start = ConnectionState::Disconnected;
    assert(events.take(0) =~= Seq::<StreamEvent>::empty());
    assert(start.at(events, 0) == start);
    lemma_one_more_event(start, events, 0);
    lemma_one_more_event(start, events, 1);
    lemma_one_more_event(start, events, 2);
    assert(events.take(3) =~= events);
}

/// A frame is handed to the pipeline only while the client is streaming.
pub proof fn lemma_frames_need_streaming(state: ConnectionState, event: StreamEvent)
    requires
        state.action(event) is Process,
    ensures
        state == ConnectionState::Streaming,
        event == StreamEvent::Frame,
{
}

/// Between a moment without a connection and a later moment with the
/// subscription being sent, there is a moment of connecting.
proof fn lemma_subscribing_needs_connecting(
    start: ConnectionState,
    events: Seq<StreamEvent>,
    i: int,
    j: int,
)
    requires
        0 <= i <= j <= events.len(),
        start.at(events, i) == ConnectionState::Disconnected,
        start.at(events, j) == ConnectionState::Subscribed,
    ensures
        exists|a: int| i < a < j && start.at(events, a) == ConnectionState::Connecting,
    decreases j - i,
{
    lemma_one_more_event(start, events, j - 1);
    if start.at(events, j - 1) == ConnectionState::Connecting {
        assert(i < j - 1 < j && start.at(events, j - 1) == ConnectionState::Connecting);
    } else {
        lemma_subscribing_needs_connecting(start, events, i, j - 1);
        let a = choose|a: int| i < a < j - 1 && start.at(events, a) == ConnectionState::Connecting;
        assert(i < a < j && start.at(events, a) == ConnectionState::Connecting);
    }
}

/// The only way back to streaming leads through connecting and subscribing:
/// between a moment without a connection and a later moment of streaming
/// there is a moment of connecting and, after it, a moment with the
/// subscription being sent.
pub proof fn lemma_streaming_needs_subscription(
    start: ConnectionState,
    events: Seq<StreamEvent>,
    i: int,
    j: int,
)
    requires
        0 <= i <= j <= events.len(),
        start.at(events, i) == ConnectionState::Disconnected,
        start.at(events, j) == ConnectionState::Streaming,
    ensures
        exists|a: int, b: int|
            i < a < b < j && start.at(events, a) == ConnectionState::Connecting && start.at(
                events,
                b,
            ) == ConnectionState::Subscribed,
    decreases j - i,
{
    lemma_one_more_event(start, events, j - 1);
    if start.at(events, j - 1) == ConnectionState::Subscribed {
        lemma_subscribing_needs_connecting(start, events, i, j - 1);
        let a = choose|a: int| i < a < j - 1 && start.at(events, a) == ConnectionState::Connecting;
        assert(i < a < j - 1 < j && start.at(events, a) == ConnectionState::Connecting
            && start.at(events, j - 1) == ConnectionState::Subscribed);
    } else {
        lemma_streaming_needs_subscription(start, events, i, j - 1);
        let (a, b) = choose|a: int, b: int|
            i < a < b < j - 1 && start.at(events, a) == ConnectionState::Connecting && start.at(
                events,
                b,
            ) == ConnectionState::Subscribed;
        assert(i < a < b < j && start.at(events, a) == ConnectionState::Connecting && start.at(
            events,
            b,
        ) == ConnectionState::Subscribed);
    }
}

/// After a transport error no frame reaches the pipeline before the client
/// has connected and subscribed again: where the event at `i` is a transport
/// error and the event at a later `j` is a frame that is processed, the
/// client was connecting and then sending its subscription in between.
pub proof fn lemma_no_frame_before_resubscription(
    start: ConnectionState,
    events: Seq<StreamEvent>,
    i: int,
    j: int,
)
    requires
        0 <= i < j < events.len(),
        events[i] == StreamEvent::TransportError,
        start.at(events, j).action(events[j]) is Process,
    ensures
        exists|a: int, b: int|
            i < a < b < j && start.at(events, a) == ConnectionState::Connecting && start.at(
                events,
                b,
            ) == ConnectionState::Subscribed,
{
    lemma_one_more_event(start, events, i);
    lemma_streaming_needs_subscription(start, events, i + 1, j);
    let (a, b) = choose|a: int, b: int|
        i + 1 < a < b < j && start.at(events, a) == ConnectionState::Connecting && start.at(
            events,
            b,
        ) == ConnectionState::Subscribed;
    assert(i < a < b < j && start.at(events, a) == ConnectionState::Connecting && start.at(
        events,
        b,
    ) == ConnectionState::Subscribed);
}

/// A count as a 64-bit counter holds it: counting stops at the greatest
/// number that the counter can hold.
pub open spec fn capped(count: nat) -> nat {
    if count > u64::MAX {
        u64::MAX as nat
    } else {
        count
    }
}

/// What the client has met with so far.
pub struct Tally {
    pub state: ConnectionState,
    /// How often a connection was begun.
    pub connects: nat,
    /// How often a connection was given up because the transport failed.
    pub transport_errors: nat,
    /// How many frames were handed to the pipeline.
    pub frames: nat,
}

impl Tally {
    /// The tally of a client that has met with nothing yet.
    pub open spec fn start() -> Tally {
        Tally { state: ConnectionState::Disconnected, connects: 0, transport_errors: 0, frames: 0 }
    }

    /// The tally after the event: the state moves as `ConnectionState::after`
    /// says, and what the client does on the event is counted.
    pub open spec fn after(self, event: StreamEvent) -> Tally {
        let action = self.state.action(event);
        Tally {
            state: self.state.after(event),
            connects: if action is Connect {
                capped(self.connects + 1)
            } else {
                self.connects
            },
            transport_errors: if action is Drop {
                capped(self.transport_errors + 1)
            } else {
                self.transport_errors
            },
            frames: if action is Process {
                capped(self.frames + 1)
            } else {
                self.frames
            },
        }
    }
}

/// The client of the feed: its state, and counts of what it met with.
#[derive(Debug)]
pub struct StreamClient {
    state: ConnectionState,
    connects: u64,
    transport_errors: u64,
    frames: u64,
}

impl View for StreamClient {
    type V = Tally;

    closed spec fn view(&self) -> Tally {
        Tally {
            state: self.state,
            connects: self.connects as nat,
            transport_errors: self.transport_errors as nat,
            frames: self.frames as nat,
        }
    }
}

impl StreamClient {
    /// A client without a connection that has met with nothing yet.
    pub fn new() -> (r: StreamClient)
        ensures
            r@ == Tally::start(),
    {
        StreamClient {
            state: ConnectionState::Disconnected,
            connects: 0,
            transport_errors: 0,
            frames: 0,
        }
    }

    /// Takes the event in, and says what to do next.
    pub fn handle(&mut self, event: StreamEvent) -> (action: StreamAction)
        ensures
            action == old(self)@.state.action(event),
            final(self)@ == old(self)@.after(event),
    {
        let (state, action) = self.state.step(event);
        self.state = state;
        match action {
            StreamAction::Connect => {
                self.connects = self.connects.saturating_add(1);
            },
            StreamAction::Drop => {
                self.transport_errors = self.transport_errors.saturating_add(1);
            },
            StreamAction::Process => {
                self.frames = self.frames.saturating_add(1);
            },
            _ => {},
        }
        action
    }

    /// Where the client stands.
    pub fn current_state(&self) -> (r: ConnectionState)
        ensures
            r == self@.state,
    {
        self.state
    }

    /// How often a connection was begun.
    pub fn connect_count(&self) -> (n: u64)
        ensures
            n == self@.connects,
    {
        self.connects
    }

    /// How often a connection was given up because the transport failed.
    pub fn transport_error_count(&self) -> (n: u64)
        ensures
            n == self@.transport_errors,
    {
        self.transport_errors
    }

    /// How many frames were handed to the pipeline.
    pub fn frame_count(&self) -> (n: u64)
        ensures
            n == self@.frames,
    {
        self.frames
    }
}

} // verus!
