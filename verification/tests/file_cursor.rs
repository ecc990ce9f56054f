use raft_storage::storage::dio::FileCursor;

#[test]
fn new_cursor_starts_at_zero() {
    let c = FileCursor::new();
    assert_eq!(c.offset, 0);
    assert_eq!(c.end, 0);
}

#[test]
fn read_closes_exactly_at_end() {
    let mut c = FileCursor::new();
    c.end = 10;
    assert_eq!(c.remaining(), 10);
    assert!(!c.advance_read(4));
    assert_eq!(c.offset, 4);
    assert_eq!(c.remaining(), 6);
    assert!(c.advance_read(6));
    assert_eq!(c.offset, 10);
}

#[test]
fn read_past_end_does_not_close() {
    let mut c = FileCursor::new();
    c.end = 3;
    assert!(!c.advance_read(4));
    assert_eq!(c.offset, 4);
}

#[test]
fn write_closes_at_or_past_end() {
    let mut c = FileCursor::new();
    c.end = 10;
    assert!(!c.advance_write(4));
    assert!(c.advance_write(7));
    assert_eq!(c.offset, 11);
    let mut d = FileCursor::new();
    assert!(d.advance_write(4));
}
