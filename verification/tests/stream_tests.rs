use mailin::stream::take_line;

#[test]
fn take_line_splits_at_the_newline() {
    let mut buffer = b"EHLO foo\r\nMAIL".to_vec();
    assert_eq!(take_line(&mut buffer), Some(b"EHLO foo\r\n".to_vec()));
    assert_eq!(buffer, b"MAIL".to_vec());
}

#[test]
fn take_line_waits_for_a_whole_line() {
    let mut buffer = b"EHLO fo".to_vec();
    assert_eq!(take_line(&mut buffer), None);
    assert_eq!(buffer, b"EHLO fo".to_vec());
    buffer.extend_from_slice(b"o\r\nRSET\r\n");
    assert_eq!(take_line(&mut buffer), Some(b"EHLO foo\r\n".to_vec()));
    assert_eq!(take_line(&mut buffer), Some(b"RSET\r\n".to_vec()));
    assert_eq!(take_line(&mut buffer), None);
    assert!(buffer.is_empty());
}
