//! The messages that peers exchange about committed edits, and the state of
//! the link to them.
//!
//! Nothing here touches a socket. The embedding application opens and closes
//! the sockets, sends what `broadcast_message` hands out, and reports what
//! it received to `receive`. Delivery is best effort: no acknowledgement, no
//! retry, no ordering between peers.

use vstd::prelude::*;
use crate::models::clone_indices;

verus! {

/// One datagram's worth of news about the drawing.
#[derive(Debug, PartialEq, Eq)]
pub enum DrawingMessage {
    /// A stroke was appended.
    DrawLine { points: Vec<(i32, i32)>, color: u32, width: u32 },
    /// The strokes at the indices were removed.
    Delete { indices: Vec<usize> },
    /// The strokes at the indices got the colours and widths listed.
    Modify { indices: Vec<usize>, colors: Vec<u32>, widths: Vec<u32> },
    /// The strokes at the indices were moved.
    Move { indices: Vec<usize>, delta_x: i32, delta_y: i32 },
    /// The drawing was emptied.
    Clear,
    /// A snapshot of the whole drawing, as text.
    Sync { lines_data: String },
}

/// What a `DrawingMessage` is, mathematically.
pub enum MessageView {
    DrawLine { points: Seq<(i32, i32)>, color: u32, width: u32 },
    Delete { indices: Seq<usize> },
    Modify { indices: Seq<usize>, colors: Seq<u32>, widths: Seq<u32> },
    Move { indices: Seq<usize>, delta_x: int, delta_y: int },
    Clear,
    Sync { lines_data: Seq<char> },
}

impl View for DrawingMessage {
    type V = MessageView;

    open spec fn view(&self) -> MessageView {
        match *self {
            DrawingMessage::DrawLine { points, color, width } => MessageView::DrawLine {
                points: points@,
                color,
                width,
            },
            DrawingMessage::Delete { indices } => MessageView::Delete { indices: indices@ },
            DrawingMessage::Modify { indices, colors, widths } => MessageView::Modify {
                indices: indices@,
                colors: colors@,
                widths: widths@,
            },
            DrawingMessage::Move { indices, delta_x, delta_y } => MessageView::Move {
                indices: indices@,
                delta_x: delta_x as int,
                delta_y: delta_y as int,
            },
            DrawingMessage::Clear => MessageView::Clear,
            DrawingMessage::Sync { lines_data } => MessageView::Sync { lines_data: lines_data@ },
        }
    }
}

/// A copy of a list of numbers.
fn clone_numbers(numbers: &Vec<u32>) -> (copy: Vec<u32>)
    ensures
        copy@ == numbers@,
{
    let copy = numbers.clone();
    assert(copy@ =~= numbers@);
    copy
}

/// A copy of a list of coordinate pairs.
pub fn clone_pairs(pairs: &Vec<(i32, i32)>) -> (copy: Vec<(i32, i32)>)
    ensures
        copy@ == pairs@,
{
    let mut copy: Vec<(i32, i32)> = Vec::new();
    let mut i: usize = 0;
    while i < pairs.len()
        invariant
            i <= pairs.len(),
            copy@ == pairs@.take(i as int),
        decreases pairs.len() - i,
    {
        copy.push(pairs[i]);
        assert(pairs@.take(i + 1) == pairs@.take(i as int).push(pairs[i as int]));
        i += 1;
    }
    assert(pairs@.take(i as int) == pairs@);
    copy
}

impl Clone for DrawingMessage {
    fn clone(&self) -> (copy: Self)
        ensures
            copy@ == self@,
    {
        match self {
            DrawingMessage::DrawLine { points, color, width } => DrawingMessage::DrawLine {
                points: clone_pairs(points),
                color: *color,
                width: *width,
            },
            DrawingMessage::Delete { indices } => DrawingMessage::Delete {
                indices: clone_indices(indices),
            },
            DrawingMessage::Modify { indices, colors, widths } => DrawingMessage::Modify {
                indices: clone_indices(indices),
                colors: clone_numbers(colors),
                widths: clone_numbers(widths),
            },
            DrawingMessage::Move { indices, delta_x, delta_y } => DrawingMessage::Move {
                indices: clone_indices(indices),
                delta_x: *delta_x,
                delta_y: *delta_y,
            },
            DrawingMessage::Clear => DrawingMessage::Clear,
            DrawingMessage::Sync { lines_data } => DrawingMessage::Sync {
                lines_data: lines_data.clone(),
            },
        }
    }
}

/// What the link reports to the editor.
#[derive(Debug, PartialEq, Eq)]
pub enum NetworkEvent {
    PeerDiscovered(String),
    PeerExpired(String),
    MessageReceived(DrawingMessage),
    Connected,
    Disconnected,
}

/// What a `NetworkEvent` is, mathematically.
pub enum EventView {
    PeerDiscovered(Seq<char>),
    PeerExpired(Seq<char>),
    MessageReceived(MessageView),
    Connected,
    Disconnected,
}

impl View for NetworkEvent {
    type V = EventView;

    open spec fn view(&self) -> EventView {
        match *self {
            NetworkEvent::PeerDiscovered(peer) => EventView::PeerDiscovered(peer@),
            NetworkEvent::PeerExpired(peer) => EventView::PeerExpired(peer@),
            NetworkEvent::MessageReceived(message) => EventView::MessageReceived(message@),
            NetworkEvent::Connected => EventView::Connected,
            NetworkEvent::Disconnected => EventView::Disconnected,
        }
    }
}

impl Clone for NetworkEvent {
    fn clone(&self) -> (copy: Self)
        ensures
            copy@ == self@,
    {
        match self {
            NetworkEvent::PeerDiscovered(peer) => NetworkEvent::PeerDiscovered(peer.clone()),
            NetworkEvent::PeerExpired(peer) => NetworkEvent::PeerExpired(peer.clone()),
            NetworkEvent::MessageReceived(message) => NetworkEvent::MessageReceived(
                message.clone(),
            ),
            NetworkEvent::Connected => NetworkEvent::Connected,
            NetworkEvent::Disconnected => NetworkEvent::Disconnected,
        }
    }
}

/// The views of a list of events.
pub open spec fn events_view(events: Seq<NetworkEvent>) -> Seq<EventView> {
    events.map_values(|event: NetworkEvent| event@)
}

/// Where the link stands.
#[derive(Clone, Copy, Debug, PartialEq, Eq, Structural)]
pub enum ConnectionState {
    Disconnected,
    Connecting,
    Connected,
}

/// What `connect` asks of the application.
#[derive(Clone, Copy, Debug, PartialEq, Eq, Structural)]
pub enum ConnectStep {
    /// The link is up: there is nothing to do.
    AlreadyConnected,
    /// An earlier `connect` still waits for its `finish_connect`.
    InProgress,
    /// Open the sockets, join the group, start the receiver, and report the
    /// outcome to `finish_connect`.
    OpenSockets,
}

/// What the receiver saw when it last tried to read a datagram.
#[derive(Debug, PartialEq, Eq)]
pub enum ReceiveOutcome {
    /// A datagram that decoded to a message.
    Message(DrawingMessage),
    /// A datagram that did not decode.
    Malformed,
    /// Nothing was waiting.
    WouldBlock,
    /// The read failed for another reason.
    Failed,
}

/// What the receiver does before it reads again.
#[derive(Clone, Copy, Debug, PartialEq, Eq, Structural)]
pub struct WorkerStep {
    /// How long to wait, in milliseconds.
    pub pause_ms: u64,
    /// Whether to restart the clock that measures the liveness window.
    pub restart_clock: bool,
}

/// Wait of the receiver after it found nothing to read, in milliseconds.
pub const IDLE_PAUSE_MS: u64 = 10;

/// Wait of the receiver after a failed read, in milliseconds.
pub const ERROR_PAUSE_MS: u64 = 100;

/// Length of the liveness window, in nanoseconds. A message that arrives
/// after the window has run out starts a new one.
pub const LIVENESS_WINDOW_NANOS: u128 = 1_000_000_000;

/// The link to the peers: its state, the number of peers believed present,
/// and the events that wait to be polled.
pub struct NetworkManager {
    state: ConnectionState,
    peer_count: usize,
    events: Vec<NetworkEvent>,
}

/// What a `NetworkManager` is, mathematically.
pub struct NetworkView {
    pub state: ConnectionState,
    pub peer_count: usize,
    pub events: Seq<EventView>,
}

impl View for NetworkManager {
    type V = NetworkView;

    closed spec fn view(&self) -> NetworkView {
        NetworkView {
            state: self.state,
            peer_count: self.peer_count,
            events: events_view(self.events@),
        }
    }
}

impl Clone for NetworkManager {
    /// A link in the same state, with the same events waiting. The copy and
    /// `self` go their own ways from then on.
    fn clone(&self) -> (copy: Self)
        ensures
            copy@ == self@,
    {
        let mut events: Vec<NetworkEvent> = Vec::new();
        let mut i: usize = 0;
        while i < self.events.len()
            invariant
                i <= self.events.len(),
                events_view(events@) == events_view(self.events@.take(i as int)),
            decreases self.events.len() - i,
        {
            let ghost before = events_view(events@);
            events.push(self.events[i].clone());
            assert(events_view(events@) =~= before.push(self.events[i as int]@));
            assert(events_view(self.events@.take(i + 1)) =~= events_view(
                self.events@.take(i as int),
            ).push(self.events[i as int]@));
            i += 1;
        }
        assert(self.events@.take(i as int) == self.events@);
        NetworkManager { state: self.state, peer_count: self.peer_count, events }
    }
}

/// A count of peers that knows of at least one.
pub open spec fn at_least_one(count: usize) -> usize {
    if count == 0 {
        1
    } else {
        count
    }
}

/// The state that `receive` leaves behind: a decoded message joins the
/// waiting events and marks at least one peer as present; anything else
/// leaves the link as it is.
pub open spec fn received(net: NetworkView, outcome: ReceiveOutcome) -> NetworkView {
    match outcome {
        ReceiveOutcome::Message(message) => NetworkView {
            state: net.state,
            peer_count: at_least_one(net.peer_count),
            events: net.events.push(EventView::MessageReceived(message@)),
        },
        _ => net,
    }
}

/// The step that `receive` answers with, `elapsed` nanoseconds after the
/// clock of the liveness window was last restarted.
pub open spec fn next_step(outcome: ReceiveOutcome, elapsed: u128) -> WorkerStep {
    match outcome {
        ReceiveOutcome::Message(_) => WorkerStep {
            pause_ms: 0,
            restart_clock: elapsed > LIVENESS_WINDOW_NANOS,
        },
        ReceiveOutcome::Malformed => WorkerStep { pause_ms: 0, restart_clock: false },
        ReceiveOutcome::WouldBlock => WorkerStep { pause_ms: IDLE_PAUSE_MS, restart_clock: false },
        ReceiveOutcome::Failed => WorkerStep { pause_ms: ERROR_PAUSE_MS, restart_clock: false },
    }
}

impl NetworkManager {
    /// A link that is down, knows of no peer and holds no event.
    pub fn new() -> (net: Self)
        ensures
            net@ == (NetworkView {
                state: ConnectionState::Disconnected,
                peer_count: 0,
                events: Seq::empty(),
            }),
    {
        let net = NetworkManager {
            state: ConnectionState::Disconnected,
            peer_count: 0,
            events: Vec::new(),
        };
        assert(events_view(net.events@) =~= Seq::empty());
        net
    }

    /// Starts bringing the link up. Only a link that is down changes state:
    /// it is then `Connecting` until `finish_connect` is told the outcome.
    pub fn connect(&mut self) -> (step: ConnectStep)
        ensures
            old(self)@.state == ConnectionState::Connected ==> step == ConnectStep::AlreadyConnected
                && final(self)@ == old(self)@,
            old(self)@.state == ConnectionState::Connecting ==> step == ConnectStep::InProgress
                && final(self)@ == old(self)@,
            old(self)@.state == ConnectionState::Disconnected ==> step == ConnectStep::OpenSockets
                && final(self)@ == (NetworkView {
                state: ConnectionState::Connecting,
                ..old(self)@
            }),
    {
        match self.state {
            ConnectionState::Connected => ConnectStep::AlreadyConnected,
            ConnectionState::Connecting => ConnectStep::InProgress,
            ConnectionState::Disconnected => {
                self.state = ConnectionState::Connecting;
                ConnectStep::OpenSockets
            },
        }
    }

    /// Takes the outcome of opening the sockets. Success brings the link
    /// up; a failure leaves it down and is handed back with its message.
    /// Without a `connect` that waits for it, the outcome changes nothing
    /// and is answered with a failure.
    pub fn finish_connect(&mut self, outcome: Result<(), String>) -> (result: Result<(), String>)
        ensures
            old(self)@.state == ConnectionState::Connecting && outcome is Ok ==> result is Ok
                && final(self)@ == (NetworkView {
                state: ConnectionState::Connected,
                ..old(self)@
            }),
            old(self)@.state == ConnectionState::Connecting && outcome is Err ==> result == outcome
                && final(self)@ == (NetworkView {
                state: ConnectionState::Disconnected,
                ..old(self)@
            }),
            old(self)@.state != ConnectionState::Connecting ==> final(self)@ == old(self)@
                && result is Err && result->Err_0@ == "No connection attempt in progress"@,
    {
        match self.state {
            ConnectionState::Connecting => {
                match outcome {
                    Ok(_) => {
                        self.state = ConnectionState::Connected;
                        Ok(())
                    },
                    Err(reason) => {
                        self.state = ConnectionState::Disconnected;
                        Err(reason)
                    },
                }
            },
            _ => Err("No connection attempt in progress".to_owned()),
        }
    }

    /// Takes the link down and forgets the peers. Events that wait to be
    /// polled stay.
    pub fn disconnect(&mut self)
        ensures
            final(self)@ == (NetworkView {
                state: ConnectionState::Disconnected,
                peer_count: 0,
                events: old(self)@.events,
            }),
    {
        self.state = ConnectionState::Disconnected;
        self.peer_count = 0;
    }

    /// Whether the link is up.
    pub fn is_connected(&self) -> (connected: bool)
        ensures
            connected == (self@.state == ConnectionState::Connected),
    {
        match self.state {
            ConnectionState::Connected => true,
            _ => false,
        }
    }

    /// The number of peers believed present.
    pub fn peer_count(&self) -> (count: usize)
        ensures
            count == self@.peer_count,
    {
        self.peer_count
    }

    /// Clears a message for sending: while the link is up the message comes
    /// back for the application to put on the wire, once and without retry;
    /// otherwise nothing is to be sent and the failure says why.
    pub fn broadcast_message(&self, message: DrawingMessage) -> (outgoing: Result<
        DrawingMessage,
        String,
    >)
        ensures
            self@.state == ConnectionState::Connected ==> outgoing == Ok::<DrawingMessage, String>(
                message,
            ),
            self@.state != ConnectionState::Connected ==> outgoing is Err && outgoing->Err_0@
                == "Not connected to network"@,
    {
        if !self.is_connected() {
            return Err("Not connected to network".to_owned());
        }
        Ok(message)
    }

    /// Hands out the events that have come in since the last poll, oldest
    /// first, and keeps none.
    pub fn poll_events(&mut self) -> (events: Vec<NetworkEvent>)
        ensures
            events_view(events@) == old(self)@.events,
            final(self)@ == (NetworkView { events: Seq::empty(), ..old(self)@ }),
    {
        let mut events: Vec<NetworkEvent> = Vec::new();
        core::mem::swap(&mut events, &mut self.events);
        assert(events_view(self.events@) =~= Seq::empty());
        events
    }

    /// Takes what the receiver saw, `elapsed` nanoseconds after the clock of
    /// the liveness window was last restarted, and says what it does next.
    /// A decoded message joins the waiting events and marks at least one
    /// peer as present, whenever it arrives. A datagram that did not decode
    /// is dropped. An empty or failed read only makes the receiver wait.
    pub fn receive(&mut self, outcome: ReceiveOutcome, elapsed: u128) -> (step: WorkerStep)
        ensures
            final(self)@ == received(old(self)@, outcome),
            outcome is Message ==> final(self)@.peer_count >= 1,
            step == next_step(outcome, elapsed),
    {
        match outcome {
            ReceiveOutcome::Message(message) => {
                let ghost before = events_view(self.events@);
                self.events.push(NetworkEvent::MessageReceived(message));
                assert(events_view(self.events@) =~= before.push(
                    EventView::MessageReceived(message@),
                ));
                if self.peer_count == 0 {
                    self.peer_count = 1;
                }
                WorkerStep { pause_ms: 0, restart_clock: elapsed > LIVENESS_WINDOW_NANOS }
            },
            ReceiveOutcome::Malformed => WorkerStep { pause_ms: 0, restart_clock: false },
            ReceiveOutcome::WouldBlock => WorkerStep {
                pause_ms: IDLE_PAUSE_MS,
                restart_clock: false,
            },
            ReceiveOutcome::Failed => WorkerStep { pause_ms: ERROR_PAUSE_MS, restart_clock: false },
        }
    }
}

/// The state after the receiver reported each of the reads in turn.
pub open spec fn received_each(net: NetworkView, outcomes: Seq<ReceiveOutcome>) -> NetworkView
    decreases outcomes.len(),
{
    if outcomes.len() == 0 {
        net
    } else {
        received(received_each(net, outcomes.drop_last()), outcomes.last())
    }
}

/// A decoded message leaves at least one peer counted as present, however
/// many reads follow and whenever they come, and reads leave the state of
/// the link alone. Only `disconnect` forgets the peers.
pub proof fn lemma_message_marks_peer(
    net: NetworkView,
    message: ReceiveOutcome,
    later: Seq<ReceiveOutcome>,
)
    requires
        message is Message,
    ensures
        received_each(received(net, message), later).peer_count >= 1,
        received_each(received(net, message), later).state == net.state,
    decreases later.len(),
{
    if later.len() > 0 {
        lemma_message_marks_peer(net, message, later.drop_last());
    }
}

} // verus!
