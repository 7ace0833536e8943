use rpaint::app::PaintApp;
use rpaint::models::{Color, Line, PaintAction, SerializableLine};
use rpaint::network::{ConnectStep, DrawingMessage};

fn stroke(points: Vec<(i32, i32)>, color: u32, width: u32) -> SerializableLine {
    SerializableLine { points, color, width }
}

fn numbered(n: i32) -> SerializableLine {
    stroke(vec![(n, n), (n + 1, n + 2)], 0xFF00_0000 + n as u32, 1 + n as u32)
}

fn wire(lines: &Vec<Line>) -> Vec<SerializableLine> {
    lines.iter().map(SerializableLine::from).collect()
}

fn app_with(count: i32) -> PaintApp {
    let mut app = PaintApp::default();
    app.lines = (0..count).map(|n| Line::from(&numbered(n))).collect();
    app
}

fn go_online(app: &mut PaintApp) {
    assert_eq!(app.network.connect(), ConnectStep::OpenSockets);
    assert_eq!(app.network.finish_connect(Ok(())), Ok(()));
}

#[test]
fn copy_takes_the_selected_strokes_in_selection_order() {
    let mut app = app_with(4);
    app.selected_indices = vec![2, 9, 0];
    app.copy_selected();
    assert_eq!(wire(&app.clipboard), vec![numbered(2), numbered(0)]);
    assert_eq!(wire(&app.lines).len(), 4);
    assert_eq!(app.selected_indices, vec![2, 9, 0]);
}

#[test]
fn copy_with_nothing_selected_keeps_the_clipboard() {
    let mut app = app_with(2);
    app.clipboard = vec![Line::from(&numbered(7))];
    app.copy_selected();
    assert_eq!(wire(&app.clipboard), vec![numbered(7)]);
}

#[test]
fn copy_of_only_missing_strokes_empties_the_clipboard() {
    let mut app = app_with(2);
    app.clipboard = vec![Line::from(&numbered(7))];
    app.selected_indices = vec![5];
    app.copy_selected();
    assert!(app.clipboard.is_empty());
}

#[test]
fn paste_appends_offset_copies_and_selects_them() {
    let mut app = app_with(2);
    app.clipboard = vec![
        Line::from(&stroke(vec![(0, 0), (5, 5)], 1, 2)),
        Line::from(&stroke(vec![(-20, i32::MAX)], 3, 4)),
    ];
    app.paste();
    let first = stroke(vec![(20, 20), (25, 25)], 1, 2);
    let second = stroke(vec![(0, i32::MIN + 19)], 3, 4);
    assert_eq!(
        wire(&app.lines),
        vec![numbered(0), numbered(1), first.clone(), second.clone()]
    );
    assert_eq!(app.selected_indices, vec![2, 3]);
    assert_eq!(wire(&app.clipboard), vec![first.clone(), second.clone()]);
    assert_eq!(app.undo_stack, vec![PaintAction::Create(vec![first, second])]);
    assert!(app.redo_stack.is_empty());
}

#[test]
fn pasting_twice_steps_further() {
    let mut app = PaintApp::default();
    app.clipboard = vec![Line::from(&stroke(vec![(0, 0)], 1, 2))];
    app.paste();
    app.paste();
    assert_eq!(
        wire(&app.lines),
        vec![stroke(vec![(20, 20)], 1, 2), stroke(vec![(40, 40)], 1, 2)]
    );
    assert_eq!(app.selected_indices, vec![1]);
    app.undo();
    assert_eq!(wire(&app.lines), vec![stroke(vec![(20, 20)], 1, 2)]);
}

#[test]
fn paste_with_an_empty_clipboard_does_nothing() {
    let mut app = app_with(2);
    app.selected_indices = vec![1];
    app.paste();
    assert_eq!(app.lines.len(), 2);
    assert!(app.undo_stack.is_empty());
    assert_eq!(app.selected_indices, vec![1]);
}

#[test]
fn delete_selected_sorts_the_indices_and_keeps_the_strokes() {
    let mut app = app_with(5);
    app.selected_indices = vec![3, 8, 1];
    let message = app.delete_selected();
    assert_eq!(message, None);
    assert_eq!(wire(&app.lines), vec![numbered(0), numbered(2), numbered(4)]);
    assert!(app.selected_indices.is_empty());
    assert_eq!(
        app.undo_stack,
        vec![PaintAction::Delete(vec![1, 3], vec![numbered(1), numbered(3)])]
    );
    app.undo();
    assert_eq!(wire(&app.lines), (0..5).map(numbered).collect::<Vec<_>>());
}

#[test]
fn delete_selected_tells_the_peers_while_connected() {
    let mut app = app_with(3);
    go_online(&mut app);
    app.selected_indices = vec![2, 0];
    assert_eq!(app.delete_selected(), Some(DrawingMessage::Delete { indices: vec![0, 2] }));
    assert_eq!(wire(&app.lines), vec![numbered(1)]);
}

#[test]
fn delete_selected_with_nothing_selected_does_nothing() {
    let mut app = app_with(3);
    go_online(&mut app);
    assert_eq!(app.delete_selected(), None);
    assert_eq!(app.lines.len(), 3);
    assert!(app.undo_stack.is_empty());
}

#[test]
fn delete_selected_of_only_missing_strokes_commits_an_empty_delete() {
    let mut app = app_with(1);
    go_online(&mut app);
    app.selected_indices = vec![4];
    assert_eq!(app.delete_selected(), Some(DrawingMessage::Delete { indices: vec![] }));
    assert_eq!(app.lines.len(), 1);
    assert_eq!(app.undo_stack, vec![PaintAction::Delete(vec![], vec![])]);
    assert!(app.selected_indices.is_empty());
}

#[test]
fn clear_all_deletes_everything_in_one_action() {
    let mut app = app_with(3);
    app.selected_indices = vec![1];
    app.clear_all();
    assert!(app.lines.is_empty());
    assert!(app.selected_indices.is_empty());
    assert_eq!(
        app.undo_stack,
        vec![PaintAction::Delete(vec![0, 1, 2], vec![numbered(0), numbered(1), numbered(2)])]
    );
    app.undo();
    assert_eq!(wire(&app.lines), vec![numbered(0), numbered(1), numbered(2)]);
    app.redo();
    assert!(app.lines.is_empty());
}

#[test]
fn clear_all_on_an_empty_drawing_does_nothing() {
    let mut app = PaintApp::default();
    app.selected_indices = vec![1];
    app.clear_all();
    assert!(app.undo_stack.is_empty());
    assert_eq!(app.selected_indices, vec![1]);
}

#[test]
fn recolor_gives_the_brush_colour_and_can_be_undone() {
    let mut app = app_with(3);
    app.brush_color = Color::from_rgba(255, 0, 0, 128);
    app.selected_indices = vec![2, 7, 0];
    app.recolor_selected();
    let mut two = numbered(2);
    two.color = 0x80FF_0000;
    let mut zero = numbered(0);
    zero.color = 0x80FF_0000;
    assert_eq!(wire(&app.lines), vec![zero.clone(), numbered(1), two.clone()]);
    assert_eq!(
        app.undo_stack,
        vec![PaintAction::Modify(vec![2, 0], vec![numbered(2), numbered(0)], vec![two, zero])]
    );
    assert_eq!(app.selected_indices, vec![2, 7, 0]);
    app.undo();
    assert_eq!(wire(&app.lines), vec![numbered(0), numbered(1), numbered(2)]);
}

#[test]
fn resize_gives_the_brush_size_and_can_be_undone() {
    let mut app = app_with(2);
    app.brush_size = 50;
    app.selected_indices = vec![1];
    app.resize_selected();
    let mut one = numbered(1);
    one.width = 50;
    assert_eq!(wire(&app.lines), vec![numbered(0), one]);
    app.undo();
    assert_eq!(wire(&app.lines), vec![numbered(0), numbered(1)]);
}

#[test]
fn recolor_and_resize_need_a_selection() {
    let mut app = app_with(2);
    app.recolor_selected();
    app.resize_selected();
    assert!(app.undo_stack.is_empty());
}

#[test]
fn paste_announces_every_pasted_stroke_while_connected() {
    let mut app = app_with(1);
    app.clipboard = vec![
        Line::from(&stroke(vec![(0, 0), (5, 5)], 1, 2)),
        Line::from(&stroke(vec![(7, 7)], 3, 4)),
    ];
    assert_eq!(app.paste(), vec![]);
    go_online(&mut app);
    assert_eq!(
        app.paste(),
        vec![
            DrawingMessage::DrawLine { points: vec![(40, 40), (45, 45)], color: 1, width: 2 },
            DrawingMessage::DrawLine { points: vec![(47, 47)], color: 3, width: 4 },
        ]
    );
    app.clipboard.clear();
    assert_eq!(app.paste(), vec![]);
}

#[test]
fn clear_all_announces_one_delete_while_connected() {
    let mut app = app_with(3);
    assert_eq!(app.clear_all(), vec![]);
    app.undo();
    go_online(&mut app);
    assert_eq!(app.clear_all(), vec![DrawingMessage::Delete { indices: vec![0, 1, 2] }]);
    assert_eq!(app.clear_all(), vec![]);
}

#[test]
fn recolor_and_resize_announce_one_modify_while_connected() {
    let mut app = app_with(3);
    app.brush_color = Color::from_rgba(1, 2, 3, 4);
    app.brush_size = 9;
    app.selected_indices = vec![2, 0];
    assert_eq!(app.recolor_selected(), vec![]);
    go_online(&mut app);
    assert_eq!(
        app.recolor_selected(),
        vec![DrawingMessage::Modify {
            indices: vec![2, 0],
            colors: vec![0x0401_0203, 0x0401_0203],
            widths: vec![3, 1],
        }]
    );
    assert_eq!(
        app.resize_selected(),
        vec![DrawingMessage::Modify {
            indices: vec![2, 0],
            colors: vec![0x0401_0203, 0x0401_0203],
            widths: vec![9, 9],
        }]
    );
    app.selected_indices.clear();
    assert_eq!(app.recolor_selected(), vec![]);
    assert_eq!(app.resize_selected(), vec![]);
}
