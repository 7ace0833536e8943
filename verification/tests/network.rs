use rpaint::app::PaintApp;
use rpaint::models::{Line, SerializableLine};
use rpaint::network::{
    ConnectStep, DrawingMessage, NetworkEvent, NetworkManager, ReceiveOutcome, WorkerStep,
    ERROR_PAUSE_MS, IDLE_PAUSE_MS, LIVENESS_WINDOW_NANOS,
};

fn connected() -> NetworkManager {
    let mut net = NetworkManager::new();
    assert_eq!(net.connect(), ConnectStep::OpenSockets);
    assert_eq!(net.finish_connect(Ok(())), Ok(()));
    net
}

fn clear() -> DrawingMessage {
    DrawingMessage::Clear
}

#[test]
fn broadcast_while_disconnected_fails_and_hands_out_nothing() {
    let net = NetworkManager::new();
    let result = net.broadcast_message(DrawingMessage::Delete { indices: vec![1] });
    assert_eq!(result, Err("Not connected to network".to_string()));
}

#[test]
fn broadcast_while_connecting_fails_too() {
    let mut net = NetworkManager::new();
    net.connect();
    assert_eq!(net.broadcast_message(clear()), Err("Not connected to network".to_string()));
}

#[test]
fn broadcast_while_connected_hands_the_message_back() {
    let net = connected();
    let message = DrawingMessage::Move { indices: vec![0, 2], delta_x: 3, delta_y: -4 };
    assert_eq!(net.broadcast_message(message.clone()), Ok(message));
}

#[test]
fn broadcast_after_disconnect_fails_again() {
    let mut net = connected();
    net.disconnect();
    assert_eq!(net.broadcast_message(clear()), Err("Not connected to network".to_string()));
}

#[test]
fn a_new_link_is_down() {
    let net = NetworkManager::new();
    assert!(!net.is_connected());
    assert_eq!(net.peer_count(), 0);
}

#[test]
fn connect_goes_through_connecting() {
    let mut net = NetworkManager::new();
    assert_eq!(net.connect(), ConnectStep::OpenSockets);
    assert!(!net.is_connected());
    assert_eq!(net.connect(), ConnectStep::InProgress);
    assert_eq!(net.finish_connect(Ok(())), Ok(()));
    assert!(net.is_connected());
}

#[test]
fn connect_while_connected_is_a_no_op() {
    let mut net = connected();
    assert_eq!(net.connect(), ConnectStep::AlreadyConnected);
    assert!(net.is_connected());
    assert_eq!(net.connect(), ConnectStep::AlreadyConnected);
}

#[test]
fn a_failed_bind_leaves_the_link_down_with_its_message() {
    let mut net = NetworkManager::new();
    net.connect();
    let failure = Err("Failed to bind receiver: address in use".to_string());
    assert_eq!(net.finish_connect(failure.clone()), failure);
    assert!(!net.is_connected());
    assert_eq!(net.connect(), ConnectStep::OpenSockets);
}

#[test]
fn an_outcome_without_an_attempt_is_refused() {
    let mut net = NetworkManager::new();
    let refused = Err("No connection attempt in progress".to_string());
    assert_eq!(net.finish_connect(Ok(())), refused);
    assert!(!net.is_connected());
    let mut up = connected();
    assert_eq!(up.finish_connect(Err("late".to_string())), refused);
    assert!(up.is_connected());
}

#[test]
fn disconnect_forgets_the_peers_and_keeps_the_events() {
    let mut net = connected();
    net.receive(ReceiveOutcome::Message(clear()), 0);
    assert_eq!(net.peer_count(), 1);
    net.disconnect();
    assert!(!net.is_connected());
    assert_eq!(net.peer_count(), 0);
    assert_eq!(net.poll_events(), vec![NetworkEvent::MessageReceived(clear())]);
}

#[test]
fn a_message_is_queued_and_the_receiver_reads_on() {
    let mut net = connected();
    let message = DrawingMessage::Delete { indices: vec![4] };
    let step = net.receive(ReceiveOutcome::Message(message.clone()), 5);
    assert_eq!(step, WorkerStep { pause_ms: 0, restart_clock: false });
    assert_eq!(net.poll_events(), vec![NetworkEvent::MessageReceived(message)]);
}

#[test]
fn any_message_marks_a_peer_as_present() {
    for elapsed in [0, 5, 1_000_000_000, 1_000_000_001, u128::MAX] {
        let mut net = connected();
        assert_eq!(net.peer_count(), 0);
        net.receive(ReceiveOutcome::Message(clear()), elapsed);
        assert_eq!(net.peer_count(), 1);
        net.receive(ReceiveOutcome::WouldBlock, elapsed);
        net.receive(ReceiveOutcome::Malformed, elapsed);
        net.receive(ReceiveOutcome::Failed, elapsed);
        net.receive(ReceiveOutcome::Message(clear()), 0);
        assert_eq!(net.peer_count(), 1);
    }
}

#[test]
fn the_clock_restarts_only_after_the_window() {
    assert_eq!(LIVENESS_WINDOW_NANOS, 1_000_000_000);
    let mut net = connected();
    let at_window = net.receive(ReceiveOutcome::Message(clear()), 1_000_000_000);
    assert_eq!(at_window, WorkerStep { pause_ms: 0, restart_clock: false });
    let past_window = net.receive(ReceiveOutcome::Message(clear()), 1_000_000_001);
    assert_eq!(past_window, WorkerStep { pause_ms: 0, restart_clock: true });
    let much_later = net.receive(ReceiveOutcome::Message(clear()), u128::MAX);
    assert_eq!(much_later, WorkerStep { pause_ms: 0, restart_clock: true });
    assert_eq!(net.peer_count(), 1);
}

#[test]
fn a_malformed_datagram_is_dropped() {
    let mut net = connected();
    let step = net.receive(ReceiveOutcome::Malformed, u128::MAX);
    assert_eq!(step, WorkerStep { pause_ms: 0, restart_clock: false });
    assert_eq!(net.peer_count(), 0);
    assert_eq!(net.poll_events(), vec![]);
}

#[test]
fn an_empty_read_waits_briefly_and_a_failed_one_longer() {
    assert_eq!(IDLE_PAUSE_MS, 10);
    assert_eq!(ERROR_PAUSE_MS, 100);
    let mut net = connected();
    assert_eq!(
        net.receive(ReceiveOutcome::WouldBlock, u128::MAX),
        WorkerStep { pause_ms: 10, restart_clock: false }
    );
    assert_eq!(
        net.receive(ReceiveOutcome::Failed, u128::MAX),
        WorkerStep { pause_ms: 100, restart_clock: false }
    );
    assert_eq!(net.peer_count(), 0);
    assert_eq!(net.poll_events(), vec![]);
}

#[test]
fn poll_hands_out_events_oldest_first_and_once() {
    let mut net = NetworkManager::new();
    let first = DrawingMessage::Delete { indices: vec![1] };
    let second = DrawingMessage::Clear;
    net.receive(ReceiveOutcome::Message(first.clone()), 0);
    net.receive(ReceiveOutcome::WouldBlock, 0);
    net.receive(ReceiveOutcome::Message(second.clone()), 0);
    assert_eq!(
        net.poll_events(),
        vec![NetworkEvent::MessageReceived(first), NetworkEvent::MessageReceived(second)]
    );
    assert_eq!(net.poll_events(), vec![]);
}

#[test]
fn messages_from_peers_change_the_drawing_but_not_the_history() {
    let mut app = PaintApp::default();
    app.network.receive(
        ReceiveOutcome::Message(DrawingMessage::DrawLine {
            points: vec![(0, 0), (5, 5)],
            color: 0xFF00_0000,
            width: 2,
        }),
        0,
    );
    app.network.receive(
        ReceiveOutcome::Message(DrawingMessage::Move { indices: vec![0], delta_x: 1, delta_y: 1 }),
        0,
    );
    assert_eq!(app.network.peer_count(), 1);
    let events = app.process_network_events();
    assert_eq!(events.len(), 2);
    let wire: Vec<SerializableLine> = app.lines.iter().map(SerializableLine::from).collect();
    assert_eq!(
        wire,
        vec![SerializableLine { points: vec![(1, 1), (6, 6)], color: 0xFF00_0000, width: 2 }]
    );
    assert!(app.undo_stack.is_empty());
    app.undo();
    assert_eq!(app.lines.len(), 1);
    assert_eq!(app.process_network_events(), vec![]);
}

#[test]
fn apply_remote_bypasses_undo() {
    let mut app = PaintApp::default();
    app.lines = vec![Line::from(&SerializableLine { points: vec![(0, 0)], color: 1, width: 1 })];
    app.selected_indices = vec![0];
    app.apply_remote(&DrawingMessage::Clear);
    assert!(app.lines.is_empty());
    assert!(app.undo_stack.is_empty());
    assert_eq!(app.selected_indices, vec![0]);
}

#[test]
fn commit_announces_only_while_connected() {
    let mut app = PaintApp::default();
    let stroke = SerializableLine { points: vec![(1, 1)], color: 2, width: 3 };
    assert_eq!(app.commit(rpaint::models::PaintAction::Create(vec![stroke.clone()])), vec![]);
    assert_eq!(app.lines.len(), 1);
    app.network = connected();
    assert_eq!(
        app.commit(rpaint::models::PaintAction::Move(vec![0], 2, 2)),
        vec![DrawingMessage::Move { indices: vec![0], delta_x: 2, delta_y: 2 }]
    );
    assert_eq!(app.undo_stack.len(), 2);
    assert_eq!(app.lines[0].points, vec![rpaint::models::Point::new(3, 3)]);
}

#[test]
fn undo_of_create_after_a_peer_appended_removes_the_peers_stroke() {
    let mut app = PaintApp::default();
    let own = SerializableLine { points: vec![(1, 1)], color: 1, width: 1 };
    app.execute(rpaint::models::PaintAction::Create(vec![own.clone()]));
    app.apply_remote(&DrawingMessage::DrawLine { points: vec![(9, 9)], color: 9, width: 9 });
    app.undo();
    let left: Vec<SerializableLine> = app.lines.iter().map(SerializableLine::from).collect();
    assert_eq!(left, vec![own]);
}

#[test]
fn a_cloned_link_has_the_same_state_and_events() {
    let mut net = connected();
    net.receive(ReceiveOutcome::Message(clear()), 0);
    let mut copy = net.clone();
    assert!(copy.is_connected());
    assert_eq!(copy.peer_count(), 1);
    assert_eq!(copy.poll_events(), vec![NetworkEvent::MessageReceived(clear())]);
    assert_eq!(net.poll_events(), vec![NetworkEvent::MessageReceived(clear())]);
}
