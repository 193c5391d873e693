use lambda_front::position::{scan_file, last, get_pos};

#[test]
fn line_and_column_tables() {
    let (lines, cols) = scan_file(b"ab\ncd");
    assert_eq!(lines, vec![1, 1, 1, 2, 2]);
    // the newline itself still sits on the line it terminates; the byte
    // following it is column 1
    assert_eq!(cols, vec![1, 2, 3, 1, 2]);
}

#[test]
fn end_of_buffer_position() {
    let p = last(b"ab");
    assert_eq!(p.line, 1);
    assert_eq!(p.col, 3);
    assert_eq!(p.start, 3);
    assert_eq!(p.end, 3);
    assert!(p.last);
    assert!(p.finished);
}

#[test]
fn end_of_buffer_after_newline() {
    let p = last(b"a\nbc");
    assert_eq!(p.line, 2);
    assert_eq!(p.col, 3);
}

#[test]
fn resolve_offsets() {
    let p = get_pos(b"ab\ncd", 3, 4);
    assert_eq!(p.line, 2);
    assert_eq!(p.col, 1);
    assert_eq!(p.start, 3);
    assert_eq!(p.end, 4);
    assert!(p.finished);
    assert!(!p.last);
}

#[test]
fn resolve_clamps_to_last_byte() {
    let p = get_pos(b"ab", 9, 10);
    assert_eq!(p.line, 1);
    assert_eq!(p.col, 2);
    assert_eq!(p.start, 9);
    assert_eq!(p.end, 10);
}

#[test]
fn resolution_is_idempotent() {
    let buf: &[u8] = b"ab\ncd";
    let p = get_pos(buf, 3, 4);
    let q = get_pos(buf, p.start, p.end);
    assert_eq!(q, p);
    let r = get_pos(buf, q.start, q.end);
    assert_eq!(r.line, p.line);
    assert_eq!(r.col, p.col);
}
