use rpaint::app::PaintApp;
use rpaint::geometry::Rect;
use rpaint::models::{BrushMode, Color, Line, PaintAction, Point, SerializableLine};
use rpaint::network::{ConnectStep, DrawingMessage};

fn p(x: i32, y: i32) -> Point {
    Point::new(x, y)
}

fn stroke(points: Vec<(i32, i32)>, color: u32, width: u32) -> SerializableLine {
    SerializableLine { points, color, width }
}

fn wire(lines: &Vec<Line>) -> Vec<SerializableLine> {
    lines.iter().map(SerializableLine::from).collect()
}

fn rows() -> Vec<SerializableLine> {
    vec![
        stroke(vec![(0, 0), (100, 0)], 1, 2),
        stroke(vec![(0, 100), (100, 100)], 2, 2),
        stroke(vec![(0, 200), (100, 200)], 3, 2),
    ]
}

fn app_in(mode: BrushMode) -> PaintApp {
    let mut app = PaintApp::default();
    app.lines = rows().iter().map(Line::from).collect();
    app.mode = mode;
    app
}

fn go_online(app: &mut PaintApp) {
    assert_eq!(app.network.connect(), ConnectStep::OpenSockets);
    assert_eq!(app.network.finish_connect(Ok(())), Ok(()));
}

#[test]
fn freehand_collects_the_path_and_commits_on_release() {
    let mut app = PaintApp::default();
    app.brush_color = Color::from_rgba(255, 0, 0, 128);
    app.brush_size = 7;
    app.drag_started(p(1, 1));
    app.dragged(p(1, 1), (0, 0));
    app.dragged(p(2, 3), (1, 2));
    app.dragged(p(5, 8), (3, 5));
    assert_eq!(app.current_line, vec![p(1, 1), p(2, 3), p(5, 8)]);
    assert!(app.lines.is_empty());
    assert_eq!(app.drag_released(), None);
    let made = stroke(vec![(1, 1), (2, 3), (5, 8)], 0x80FF_0000, 7);
    assert_eq!(wire(&app.lines), vec![made.clone()]);
    assert!(app.current_line.is_empty());
    assert_eq!(app.undo_stack, vec![PaintAction::Create(vec![made])]);
}

#[test]
fn a_finished_stroke_is_announced_while_connected() {
    let mut app = PaintApp::default();
    go_online(&mut app);
    app.dragged(p(1, 1), (0, 0));
    app.dragged(p(2, 3), (1, 2));
    assert_eq!(
        app.drag_released(),
        Some(DrawingMessage::DrawLine {
            points: vec![(1, 1), (2, 3)],
            color: 0xFF00_96FF,
            width: 4,
        })
    );
}

#[test]
fn release_without_a_path_commits_nothing() {
    let mut app = PaintApp::default();
    go_online(&mut app);
    assert_eq!(app.drag_released(), None);
    assert!(app.undo_stack.is_empty());
}

#[test]
fn a_straight_line_keeps_its_start_and_follows_the_pointer() {
    let mut app = PaintApp::default();
    app.set_mode(BrushMode::StraightLine);
    app.dragged(p(1, 1), (0, 0));
    assert_eq!(app.current_line, vec![p(1, 1), p(1, 1)]);
    app.dragged(p(4, 4), (3, 3));
    assert_eq!(app.current_line, vec![p(1, 1), p(4, 4)]);
    app.dragged(p(9, 2), (5, -2));
    assert_eq!(app.current_line, vec![p(1, 1), p(9, 2)]);
    app.drag_released();
    assert_eq!(wire(&app.lines), vec![stroke(vec![(1, 1), (9, 2)], 0xFF00_96FF, 4)]);
}

#[test]
fn a_straight_line_from_a_single_point_gets_its_end() {
    let mut app = PaintApp::default();
    app.mode = BrushMode::StraightLine;
    app.current_line = vec![p(3, 3)];
    app.dragged(p(7, 7), (4, 4));
    assert_eq!(app.current_line, vec![p(3, 3), p(7, 7)]);
}

#[test]
fn the_eraser_deletes_the_first_stroke_within_the_brush_size() {
    let mut app = app_in(BrushMode::Eraser);
    app.brush_size = 4;
    app.clicked(p(50, 4));
    assert_eq!(app.lines.len(), 3);
    app.clicked(p(50, 3));
    assert_eq!(wire(&app.lines), vec![rows()[1].clone(), rows()[2].clone()]);
    assert_eq!(app.undo_stack, vec![PaintAction::Delete(vec![0], vec![rows()[0].clone()])]);
    app.dragged(p(50, 199), (0, 0));
    assert_eq!(wire(&app.lines), vec![rows()[1].clone()]);
    app.undo();
    app.undo();
    assert_eq!(wire(&app.lines), rows());
}

#[test]
fn a_click_does_nothing_outside_the_eraser() {
    for mode in [BrushMode::Freehand, BrushMode::StraightLine, BrushMode::Select] {
        let mut app = app_in(mode);
        app.clicked(p(50, 0));
        assert_eq!(wire(&app.lines), rows());
        assert!(app.undo_stack.is_empty());
        assert!(app.selected_indices.is_empty());
    }
}

#[test]
fn a_drag_that_starts_on_a_stroke_selects_and_moves_it() {
    let mut app = app_in(BrushMode::Select);
    app.drag_started(p(50, 109));
    assert_eq!(app.selected_indices, vec![1]);
    assert!(app.is_dragging_items);
    app.dragged(p(53, 110), (3, 1));
    assert_eq!(wire(&app.lines)[1], stroke(vec![(3, 101), (103, 101)], 2, 2));
    app.dragged(p(60, 105), (7, -5));
    assert_eq!(app.drag_accumulated_delta, (10, -4));
    assert!(app.undo_stack.is_empty());
    assert_eq!(app.drag_released(), None);
    assert!(!app.is_dragging_items);
    assert_eq!(wire(&app.lines)[1], stroke(vec![(10, 96), (110, 96)], 2, 2));
    assert_eq!(app.undo_stack, vec![PaintAction::Move(vec![1], 10, -4)]);
    app.undo();
    assert_eq!(wire(&app.lines), rows());
}

#[test]
fn a_drag_that_ends_where_it_began_commits_nothing() {
    let mut app = app_in(BrushMode::Select);
    app.drag_started(p(50, 0));
    app.dragged(p(55, 0), (5, 0));
    app.dragged(p(50, 0), (-5, 0));
    app.drag_released();
    assert!(app.undo_stack.is_empty());
    assert!(!app.is_dragging_items);
    assert_eq!(wire(&app.lines), rows());
}

#[test]
fn a_drag_inside_the_rectangle_of_a_selected_stroke_moves_the_selection() {
    let mut app = app_in(BrushMode::Select);
    app.selected_indices = vec![2, 0];
    app.drag_started(p(-6, 206));
    assert_eq!(app.selected_indices, vec![2, 0]);
    assert!(app.is_dragging_items);
    app.dragged(p(-5, 206), (1, 0));
    app.drag_released();
    assert_eq!(app.undo_stack, vec![PaintAction::Move(vec![2, 0], 1, 0)]);
    assert_eq!(
        wire(&app.lines),
        vec![
            stroke(vec![(1, 0), (101, 0)], 1, 2),
            rows()[1].clone(),
            stroke(vec![(1, 200), (101, 200)], 3, 2),
        ]
    );
}

#[test]
fn a_drag_on_an_unselected_stroke_replaces_the_selection() {
    let mut app = app_in(BrushMode::Select);
    app.selected_indices = vec![2];
    app.drag_started(p(50, 1));
    assert_eq!(app.selected_indices, vec![0]);
}

#[test]
fn a_drag_that_starts_on_nothing_spans_a_rectangle() {
    let mut app = app_in(BrushMode::Select);
    app.selected_indices = vec![2];
    app.drag_started(p(-20, 50));
    assert!(app.selected_indices.is_empty());
    assert!(!app.is_dragging_items);
    assert_eq!(app.selection_start_pos, Some(p(-20, 50)));
    app.dragged(p(10, 250), (30, 200));
    assert_eq!(
        app.selection_rect,
        Some(Rect { min_x: -20, min_y: 50, max_x: 10, max_y: 250 })
    );
    assert_eq!(app.drag_released(), None);
    assert_eq!(app.selected_indices, vec![1, 2]);
    assert_eq!(app.selection_rect, None);
    assert_eq!(app.selection_start_pos, None);
    assert!(app.undo_stack.is_empty());
}

#[test]
fn a_rectangle_replaces_the_selection_even_with_nothing_in_it() {
    let mut app = app_in(BrushMode::Select);
    app.drag_started(p(300, 300));
    app.selected_indices = vec![0];
    app.dragged(p(310, 310), (10, 10));
    app.drag_released();
    assert!(app.selected_indices.is_empty());
}

#[test]
fn drag_start_does_nothing_outside_select() {
    for mode in [BrushMode::Freehand, BrushMode::StraightLine, BrushMode::Eraser] {
        let mut app = app_in(mode);
        app.selected_indices = vec![1];
        app.drag_started(p(50, 0));
        assert_eq!(app.selected_indices, vec![1]);
        assert!(!app.is_dragging_items);
        assert_eq!(app.selection_start_pos, None);
    }
}

#[test]
fn leaving_select_drops_the_selection() {
    let mut app = app_in(BrushMode::Select);
    app.selected_indices = vec![0, 1];
    app.set_mode(BrushMode::Select);
    assert_eq!(app.selected_indices, vec![0, 1]);
    app.set_mode(BrushMode::Eraser);
    assert_eq!(app.mode, BrushMode::Eraser);
    assert!(app.selected_indices.is_empty());
    app.selected_indices = vec![2];
    app.set_mode(BrushMode::Freehand);
    assert_eq!(app.selected_indices, vec![2]);
}

#[test]
fn the_accumulated_offset_wraps_like_the_strokes() {
    let mut app = app_in(BrushMode::Select);
    app.drag_started(p(50, 0));
    app.dragged(p(0, 0), (i32::MAX, 0));
    app.dragged(p(0, 0), (1, 0));
    assert_eq!(app.drag_accumulated_delta, (i32::MIN, 0));
    assert_eq!(wire(&app.lines)[0], stroke(vec![(i32::MIN, 0), (i32::MIN + 100, 0)], 1, 2));
    app.drag_released();
    assert_eq!(app.undo_stack, vec![PaintAction::Move(vec![0], i32::MIN, 0)]);
    assert_eq!(wire(&app.lines)[0], stroke(vec![(i32::MIN, 0), (i32::MIN + 100, 0)], 1, 2));
    app.undo();
    assert_eq!(wire(&app.lines), rows());
}

#[test]
fn a_drag_of_strokes_sends_one_move_on_release() {
    let mut app = app_in(BrushMode::Select);
    go_online(&mut app);
    app.selected_indices = vec![2, 0];
    app.drag_started(p(50, 0));
    assert_eq!(app.dragged(p(53, 1), (3, 1)), vec![]);
    assert_eq!(app.dragged(p(60, -4), (7, -5)), vec![]);
    assert_eq!(
        app.drag_released(),
        Some(DrawingMessage::Move { indices: vec![2, 0], delta_x: 10, delta_y: -4 })
    );
    assert_eq!(app.undo_stack.len(), 1);
    assert_eq!(app.drag_released(), None);
}

#[test]
fn a_drag_back_to_the_start_or_a_rectangle_sends_nothing() {
    let mut app = app_in(BrushMode::Select);
    go_online(&mut app);
    app.drag_started(p(50, 0));
    app.dragged(p(55, 0), (5, 0));
    app.dragged(p(50, 0), (-5, 0));
    assert_eq!(app.drag_released(), None);
    app.drag_started(p(-20, 50));
    app.dragged(p(10, 250), (30, 200));
    assert_eq!(app.drag_released(), None);
    assert_eq!(app.selected_indices, vec![1, 2]);
}

#[test]
fn a_drag_while_disconnected_commits_and_sends_nothing() {
    let mut app = app_in(BrushMode::Select);
    app.drag_started(p(50, 0));
    app.dragged(p(55, 0), (5, 0));
    assert_eq!(app.drag_released(), None);
    assert_eq!(app.undo_stack, vec![PaintAction::Move(vec![0], 5, 0)]);
}

#[test]
fn the_eraser_announces_what_it_deletes_while_connected() {
    let mut app = app_in(BrushMode::Eraser);
    app.brush_size = 4;
    assert_eq!(app.clicked(p(50, 3)), vec![]);
    assert_eq!(app.lines.len(), 2);
    go_online(&mut app);
    assert_eq!(app.clicked(p(50, 50)), vec![]);
    assert_eq!(app.clicked(p(50, 199)), vec![DrawingMessage::Delete { indices: vec![1] }]);
    assert_eq!(app.dragged(p(50, 101), (0, 0)), vec![DrawingMessage::Delete { indices: vec![0] }]);
    assert!(app.lines.is_empty());
}

#[test]
fn drawing_and_selecting_moves_send_nothing() {
    for mode in [BrushMode::Freehand, BrushMode::StraightLine, BrushMode::Select] {
        let mut app = app_in(mode);
        go_online(&mut app);
        assert_eq!(app.dragged(p(50, 0), (1, 1)), vec![]);
        assert_eq!(app.clicked(p(50, 0)), vec![]);
    }
}
