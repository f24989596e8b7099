use paint_layers::strip::{CellCursor, CellDirection};

#[test]
fn cursor_hands_out_each_size_once() {
    let mut cursor = CellCursor::new(3);
    assert_eq!(cursor.position(), 0);
    assert_eq!(cursor.remaining(), 3);
    assert_eq!(cursor.take(), Some(0));
    assert_eq!(cursor.position(), 1);
    assert_eq!(cursor.take(), Some(1));
    assert_eq!(cursor.remaining(), 1);
    assert_eq!(cursor.take(), Some(2));
    assert_eq!(cursor.position(), 3);
    assert_eq!(cursor.remaining(), 0);
}

#[test]
fn cursor_past_the_last_size_hands_out_nothing() {
    let mut cursor = CellCursor::new(1);
    assert_eq!(cursor.take(), Some(0));
    for _ in 0..3 {
        assert_eq!(cursor.take(), None);
        assert_eq!(cursor.position(), 1);
        assert_eq!(cursor.remaining(), 0);
    }
    let mut none = CellCursor::new(0);
    assert_eq!(none.take(), None);
    assert_eq!(none.remaining(), 0);
}

#[test]
fn cursor_at_the_largest_count() {
    let mut cursor = CellCursor::new(usize::MAX);
    assert_eq!(cursor.remaining(), usize::MAX);
    assert_eq!(cursor.take(), Some(0));
    assert_eq!(cursor.remaining(), usize::MAX - 1);
}

#[test]
fn directions_differ() {
    assert_ne!(CellDirection::Horizontal, CellDirection::Vertical);
}
