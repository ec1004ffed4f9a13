use backside::cursor::{is_word, same_bytes, starts_with, Cursor, EndOfInput};

#[test]
fn peek_and_advance_walk_the_buffer() {
    let mut c = Cursor::new(b"ab");
    assert_eq!(c.position(), 0);
    assert_eq!(c.len(), 2);
    assert_eq!(c.peek(), Ok(b'a'));
    c.advance();
    assert_eq!(c.peek(), Ok(b'b'));
    c.advance();
    assert!(c.is_at_end());
    assert_eq!(c.peek(), Err(EndOfInput));
}

#[test]
fn advance_at_the_end_stays() {
    let mut c = Cursor::new(b"a");
    c.advance();
    c.advance();
    c.advance();
    assert_eq!(c.position(), 1);
    assert_eq!(c.peek(), Err(EndOfInput));
}

#[test]
fn peek_on_empty_buffer_is_end_of_input() {
    let c = Cursor::new(b"");
    assert!(c.is_at_end());
    assert_eq!(c.peek(), Err(EndOfInput));
}

#[test]
fn seek_stops_at_the_end() {
    let mut c = Cursor::new(b"abc");
    c.seek(2);
    assert_eq!(c.position(), 2);
    c.seek(100);
    assert_eq!(c.position(), 3);
    c.seek(0);
    assert_eq!(c.position(), 0);
}

#[test]
fn find_gives_the_leftmost_from_the_cursor() {
    let mut c = Cursor::new(b"a,b,c");
    assert_eq!(c.find(b','), Some(1));
    c.seek(2);
    assert_eq!(c.find(b','), Some(3));
    c.seek(4);
    assert_eq!(c.find(b','), None);
    assert_eq!(c.position(), 4);
}

#[test]
fn find_on_the_cursor_itself() {
    let mut c = Cursor::new(b"a,b");
    c.seek(1);
    assert_eq!(c.find(b','), Some(1));
}

#[test]
fn find_pair_needs_both_bytes_side_by_side() {
    let mut c = Cursor::new(b"a\nb\n\nc\n");
    assert_eq!(c.find_pair(b'\n', b'\n'), Some(3));
    c.seek(4);
    assert_eq!(c.find_pair(b'\n', b'\n'), None);
    let d = Cursor::new(b"\n");
    assert_eq!(d.find_pair(b'\n', b'\n'), None);
    let e = Cursor::new(b"");
    assert_eq!(e.find_pair(b'\n', b'\n'), None);
}

#[test]
fn slice_is_checked() {
    let c = Cursor::new(b"hello");
    assert_eq!(c.slice(1, 3), Some(&b"el"[..]));
    assert_eq!(c.slice(0, 5), Some(&b"hello"[..]));
    assert_eq!(c.slice(5, 5), Some(&b""[..]));
    assert_eq!(c.slice(3, 1), None);
    assert_eq!(c.slice(0, 6), None);
    assert_eq!(c.slice(6, 6), None);
}

#[test]
fn rest_is_what_is_left() {
    let mut c = Cursor::new(b"hello");
    c.seek(3);
    assert_eq!(c.rest(), b"lo");
    c.seek(5);
    assert_eq!(c.rest(), b"");
}

#[test]
fn words_are_compared_byte_for_byte() {
    assert!(is_word(b"Name", "Name"));
    assert!(!is_word(b"name", "Name"));
    assert!(!is_word(b"Nam", "Name"));
    assert!(!is_word(b"Names", "Name"));
    assert!(is_word(b"", ""));
}

#[test]
fn starts_with_takes_a_prefix() {
    assert!(starts_with(b"Format: a", "Format:"));
    assert!(starts_with(b"Format:", "Format:"));
    assert!(!starts_with(b"Forma", "Format:"));
    assert!(!starts_with(b" Format:", "Format:"));
    assert!(starts_with(b"anything", ""));
}

#[test]
fn same_bytes_compares_length_and_content() {
    assert!(same_bytes(b"abc", b"abc"));
    assert!(same_bytes(b"", b""));
    assert!(!same_bytes(b"abc", b"abd"));
    assert!(!same_bytes(b"abc", b"ab"));
    assert!(!same_bytes(b"", b"a"));
}
