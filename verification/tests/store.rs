use rpaint::models::{Line, Point, SerializableLine};
use rpaint::order::ascending_order;
use rpaint::store::{
    insert_at, insert_batch, move_back_batch, move_batch, remove_at, remove_batch, replace_at,
    replace_batch,
};

fn numbered(n: i32) -> SerializableLine {
    SerializableLine { points: vec![(n, -n)], color: n as u32, width: 1 }
}

fn drawing(count: i32) -> Vec<Line> {
    (0..count).map(|n| Line::from(&numbered(n))).collect()
}

fn wire(lines: &Vec<Line>) -> Vec<SerializableLine> {
    lines.iter().map(SerializableLine::from).collect()
}

fn these(numbers: &[i32]) -> Vec<SerializableLine> {
    numbers.iter().map(|n| numbered(*n)).collect()
}

#[test]
fn ascending_order_sorts_by_index_and_keeps_ties_in_place() {
    assert_eq!(
        ascending_order(&vec![5, 1, 5, 0, 1]),
        vec![(0, 3), (1, 1), (1, 4), (5, 0), (5, 2)]
    );
    assert_eq!(ascending_order(&vec![]), vec![]);
    assert_eq!(ascending_order(&vec![7]), vec![(7, 0)]);
    assert_eq!(
        ascending_order(&vec![usize::MAX, 0, usize::MAX]),
        vec![(0, 1), (usize::MAX, 0), (usize::MAX, 2)]
    );
}

#[test]
fn insert_at_accepts_the_end_and_nothing_beyond() {
    let mut lines = drawing(2);
    insert_at(&mut lines, 2, Line::from(&numbered(7)));
    assert_eq!(wire(&lines), these(&[0, 1, 7]));
    insert_at(&mut lines, 0, Line::from(&numbered(8)));
    assert_eq!(wire(&lines), these(&[8, 0, 1, 7]));
    insert_at(&mut lines, 5, Line::from(&numbered(9)));
    assert_eq!(wire(&lines), these(&[8, 0, 1, 7]));
}

#[test]
fn remove_at_and_replace_at_pass_over_missing_strokes() {
    let mut lines = drawing(3);
    remove_at(&mut lines, 3);
    replace_at(&mut lines, 3, Line::from(&numbered(9)));
    assert_eq!(wire(&lines), these(&[0, 1, 2]));
    remove_at(&mut lines, 1);
    assert_eq!(wire(&lines), these(&[0, 2]));
    replace_at(&mut lines, 1, Line::from(&numbered(9)));
    assert_eq!(wire(&lines), these(&[0, 9]));
}

#[test]
fn remove_batch_works_from_the_highest_index_down() {
    let mut lines = drawing(6);
    remove_batch(&mut lines, &vec![0, 4, 2, 9]);
    assert_eq!(wire(&lines), these(&[1, 3, 5]));
    remove_batch(&mut lines, &vec![2, 2]);
    assert_eq!(wire(&lines), these(&[1, 3]));
    remove_batch(&mut lines, &vec![]);
    assert_eq!(wire(&lines), these(&[1, 3]));
}

#[test]
fn insert_batch_works_from_the_lowest_index_up() {
    let mut lines = these(&[1, 3, 5]).iter().map(Line::from).collect();
    insert_batch(&mut lines, &vec![4, 0, 2], &these(&[4, 0, 2]));
    assert_eq!(wire(&lines), these(&[0, 1, 2, 3, 4, 5]));
    insert_batch(&mut lines, &vec![1, 1], &these(&[10, 11]));
    assert_eq!(wire(&lines), these(&[0, 11, 10, 1, 2, 3, 4, 5]));
    insert_batch(&mut lines, &vec![9, 8], &these(&[20, 21]));
    assert_eq!(wire(&lines), these(&[0, 11, 10, 1, 2, 3, 4, 5, 21, 20]));
    insert_batch(&mut lines, &vec![0, 0, 0], &these(&[30]));
    assert_eq!(wire(&lines)[0], numbered(30));
    assert_eq!(lines.len(), 11);
}

#[test]
fn replace_batch_pairs_indices_with_strokes() {
    let mut lines = drawing(3);
    replace_batch(&mut lines, &vec![2, 5, 0, 2], &these(&[12, 15, 10, 22, 99]));
    assert_eq!(wire(&lines), these(&[10, 1, 22]));
}

#[test]
fn move_batch_and_back_are_inverse() {
    let mut lines = drawing(3);
    move_batch(&mut lines, &vec![1, 1, 7, 2], i32::MAX, 5);
    assert_eq!(lines[0].points, vec![Point::new(0, 0)]);
    assert_eq!(lines[1].points, vec![Point::new(1i32.wrapping_add(i32::MAX).wrapping_add(i32::MAX), 9)]);
    assert_eq!(lines[1].points, vec![Point::new(-1, 9)]);
    assert_eq!(lines[2].points, vec![Point::new(i32::MIN + 1, 3)]);
    move_back_batch(&mut lines, &vec![1, 1, 7, 2], i32::MAX, 5);
    assert_eq!(wire(&lines), these(&[0, 1, 2]));
}

#[test]
fn append_batch_and_drop_tail() {
    let mut lines = drawing(1);
    rpaint::store::append_batch(&mut lines, &these(&[5, 6, 7]));
    assert_eq!(wire(&lines), these(&[0, 5, 6, 7]));
    rpaint::store::drop_tail(&mut lines, 2);
    assert_eq!(wire(&lines), these(&[0, 5]));
    rpaint::store::drop_tail(&mut lines, 0);
    assert_eq!(wire(&lines), these(&[0, 5]));
    rpaint::store::drop_tail(&mut lines, usize::MAX);
    assert!(lines.is_empty());
}
