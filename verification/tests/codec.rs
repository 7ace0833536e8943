use rpaint::models::{BrushMode, Color, Line, PaintAction, Point, SerializableLine};
use rpaint::network::DrawingMessage;
use rpaint::sync::{apply_message, draw_line_message, messages_for, restyle_batch};

fn stroke(points: Vec<(i32, i32)>, color: u32, width: u32) -> SerializableLine {
    SerializableLine { points, color, width }
}

fn wire(lines: &Vec<Line>) -> Vec<SerializableLine> {
    lines.iter().map(SerializableLine::from).collect()
}

fn drawing(strokes: Vec<SerializableLine>) -> Vec<Line> {
    strokes.iter().map(Line::from).collect()
}

#[test]
fn red_at_half_alpha_packs_and_unpacks() {
    let line = Line {
        points: vec![Point::new(1, 2)],
        color: Color::from_rgba(255, 0, 0, 128),
        width: 3,
    };
    let encoded = SerializableLine::from(&line);
    assert_eq!(encoded.color, 0x80FF_0000);
    assert_eq!(encoded.color, 2164195328);
    let decoded = Line::from(&encoded);
    assert_eq!(decoded.color.channels(), [255, 0, 0, 128]);
    assert_eq!(decoded, line);
}

#[test]
fn packing_puts_alpha_red_green_blue_from_the_top() {
    assert_eq!(Color { r: 0x12, g: 0x34, b: 0x56, a: 0x78 }.pack(), 0x7812_3456);
    assert_eq!(Color::unpack(0x7812_3456), Color { r: 0x12, g: 0x34, b: 0x56, a: 0x78 });
    assert_eq!(Color::from_rgb(0, 150, 255).pack(), 0xFF00_96FF);
    assert_eq!(Color::unpack(0), Color { r: 0, g: 0, b: 0, a: 0 });
    assert_eq!(Color::unpack(u32::MAX), Color { r: 255, g: 255, b: 255, a: 255 });
}

#[test]
fn every_channel_survives_on_its_own() {
    for value in [0u8, 1, 127, 128, 254, 255] {
        for color in [
            Color { r: value, g: 0, b: 0, a: 0 },
            Color { r: 0, g: value, b: 0, a: 0 },
            Color { r: 0, g: 0, b: value, a: 0 },
            Color { r: 0, g: 0, b: 0, a: value },
        ] {
            assert_eq!(Color::unpack(color.pack()), color);
        }
    }
}

#[test]
fn stroke_conversion_keeps_points_in_order() {
    let wire_form = stroke(vec![(3, 4), (-1, 7), (3, 4), (i32::MIN, i32::MAX)], 0x0102_0304, 9);
    let line = Line::from(&wire_form);
    assert_eq!(
        line.points,
        vec![Point::new(3, 4), Point::new(-1, 7), Point::new(3, 4), Point::new(i32::MIN, i32::MAX)]
    );
    assert_eq!(line.color, Color { r: 2, g: 3, b: 4, a: 1 });
    assert_eq!(line.width, 9);
    assert_eq!(SerializableLine::from(&line), wire_form);
}

#[test]
fn clones_are_equal() {
    let wire_form = stroke(vec![(3, 4), (-1, 7)], 5, 9);
    assert_eq!(wire_form.clone(), wire_form);
    let line = Line::from(&wire_form);
    assert_eq!(line.clone(), line);
    let action = PaintAction::Modify(vec![1, 2], vec![wire_form.clone()], vec![]);
    assert_eq!(action.clone(), action);
    let moved = PaintAction::Move(vec![4], -1, 1);
    assert_eq!(moved.clone(), moved);
    let message = DrawingMessage::Sync { lines_data: "[]".to_string() };
    assert_eq!(message.clone(), message);
    assert_eq!(BrushMode::Select.clone(), BrushMode::Select);
}

#[test]
fn a_create_is_announced_stroke_by_stroke() {
    let a = stroke(vec![(1, 2), (3, 4)], 0x8000_00FF, 2);
    let b = stroke(vec![], 7, 1);
    assert_eq!(
        messages_for(&PaintAction::Create(vec![a.clone(), b.clone()])),
        vec![
            DrawingMessage::DrawLine { points: vec![(1, 2), (3, 4)], color: 0x8000_00FF, width: 2 },
            DrawingMessage::DrawLine { points: vec![], color: 7, width: 1 },
        ]
    );
    assert_eq!(messages_for(&PaintAction::Create(vec![])), vec![]);
    assert_eq!(draw_line_message(&a), messages_for(&PaintAction::Create(vec![a]))[0]);
}

#[test]
fn other_actions_are_announced_by_one_message() {
    let a = stroke(vec![(1, 2)], 10, 2);
    let b = stroke(vec![(1, 2)], 20, 3);
    assert_eq!(
        messages_for(&PaintAction::Delete(vec![3, 1], vec![a.clone(), b.clone()])),
        vec![DrawingMessage::Delete { indices: vec![3, 1] }]
    );
    assert_eq!(
        messages_for(&PaintAction::Modify(vec![4, 0], vec![a.clone(), a.clone()], vec![a, b])),
        vec![DrawingMessage::Modify { indices: vec![4, 0], colors: vec![10, 20], widths: vec![2, 3] }]
    );
    assert_eq!(
        messages_for(&PaintAction::Move(vec![2], -5, 6)),
        vec![DrawingMessage::Move { indices: vec![2], delta_x: -5, delta_y: 6 }]
    );
}

#[test]
fn a_draw_line_message_appends() {
    let mut lines = drawing(vec![stroke(vec![(0, 0)], 1, 1)]);
    apply_message(
        &mut lines,
        &DrawingMessage::DrawLine { points: vec![(1, 2), (3, 4)], color: 0x80FF_0000, width: 6 },
    );
    assert_eq!(
        wire(&lines),
        vec![stroke(vec![(0, 0)], 1, 1), stroke(vec![(1, 2), (3, 4)], 0x80FF_0000, 6)]
    );
}

#[test]
fn a_delete_message_removes_what_is_there() {
    let mut lines = drawing(vec![
        stroke(vec![(0, 0)], 0, 1),
        stroke(vec![(1, 1)], 1, 1),
        stroke(vec![(2, 2)], 2, 1),
    ]);
    apply_message(&mut lines, &DrawingMessage::Delete { indices: vec![0, 7, 2] });
    assert_eq!(wire(&lines), vec![stroke(vec![(1, 1)], 1, 1)]);
}

#[test]
fn a_modify_message_restyles_and_keeps_paths() {
    let mut lines = drawing(vec![
        stroke(vec![(0, 0)], 0, 1),
        stroke(vec![(1, 1)], 1, 1),
        stroke(vec![(2, 2)], 2, 1),
    ]);
    apply_message(
        &mut lines,
        &DrawingMessage::Modify {
            indices: vec![2, 9, 0, 2, 1],
            colors: vec![20, 90, 10, 21],
            widths: vec![5, 6, 7, 8, 9],
        },
    );
    assert_eq!(
        wire(&lines),
        vec![
            stroke(vec![(0, 0)], 10, 7),
            stroke(vec![(1, 1)], 1, 1),
            stroke(vec![(2, 2)], 21, 8),
        ]
    );
}

#[test]
fn restyle_stops_at_the_shortest_list() {
    let mut lines = drawing(vec![stroke(vec![(0, 0)], 0, 1), stroke(vec![(1, 1)], 1, 1)]);
    restyle_batch(&mut lines, &vec![0, 1], &vec![5, 6], &vec![9]);
    assert_eq!(wire(&lines), vec![stroke(vec![(0, 0)], 5, 9), stroke(vec![(1, 1)], 1, 1)]);
}

#[test]
fn a_move_message_translates() {
    let mut lines = drawing(vec![stroke(vec![(0, 0), (1, 1)], 0, 1), stroke(vec![(5, 5)], 1, 1)]);
    apply_message(&mut lines, &DrawingMessage::Move { indices: vec![1, 4], delta_x: -5, delta_y: 2 });
    assert_eq!(
        wire(&lines),
        vec![stroke(vec![(0, 0), (1, 1)], 0, 1), stroke(vec![(0, 7)], 1, 1)]
    );
}

#[test]
fn a_clear_message_empties_and_a_snapshot_is_left_unread() {
    let mut lines = drawing(vec![stroke(vec![(0, 0)], 0, 1)]);
    apply_message(&mut lines, &DrawingMessage::Sync { lines_data: "[]".to_string() });
    assert_eq!(wire(&lines), vec![stroke(vec![(0, 0)], 0, 1)]);
    apply_message(&mut lines, &DrawingMessage::Clear);
    assert!(lines.is_empty());
}

#[test]
fn a_peer_that_applies_the_announcements_ends_with_the_same_drawing() {
    let start = vec![
        stroke(vec![(0, 0), (4, 4)], 0xFF00_0000, 1),
        stroke(vec![(1, 1)], 0xFF11_1111, 2),
        stroke(vec![(2, 2)], 0xFF22_2222, 3),
    ];
    let actions = vec![
        PaintAction::Create(vec![stroke(vec![(9, 9)], 5, 5), stroke(vec![], 6, 6)]),
        PaintAction::Delete(vec![2, 0], vec![start[2].clone(), start[0].clone()]),
        PaintAction::Modify(
            vec![1, 0],
            vec![start[1].clone(), start[0].clone()],
            vec![stroke(vec![(1, 1)], 0x1234_5678, 7), stroke(vec![(0, 0), (4, 4)], 1, 8)],
        ),
        PaintAction::Move(vec![0, 1, 1], 3, -3),
    ];
    for action in actions {
        let mut local = rpaint::app::PaintApp::default();
        local.lines = drawing(start.clone());
        let mut remote = drawing(start.clone());
        local.execute(action.clone());
        for message in messages_for(&action) {
            apply_message(&mut remote, &message);
        }
        assert_eq!(wire(&remote), wire(&local.lines));
    }
}
