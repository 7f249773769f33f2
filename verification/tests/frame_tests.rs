use rust_redis::cursor::Cursor;
use rust_redis::error::FrameError;
use rust_redis::frame::{
    get_line, get_message_bytes, get_message_i64, get_message_len, get_u8, skip, write_line,
    write_rn, write_rn_to_bytes, Frame,
};

fn bytes_of(frame: Frame) -> Vec<u8> {
    Frame::parse_frame_to_bytes(frame).unwrap()
}

fn parse_all(data: &[u8]) -> (Result<Frame, FrameError>, u64) {
    let mut cursor = Cursor::new(data);
    let r = Frame::parse(&mut cursor);
    (r, cursor.position())
}

fn check_all(data: &[u8]) -> (Result<(), FrameError>, u64) {
    let mut cursor = Cursor::new(data);
    let r = Frame::check(&mut cursor);
    (r, cursor.position())
}

#[test]
fn get_u8_reads_and_advances() {
    let data = [7u8, 9];
    let mut c = Cursor::new(&data);
    assert_eq!(get_u8(&mut c).unwrap(), 7);
    assert_eq!(c.position(), 1);
    assert_eq!(get_u8(&mut c).unwrap(), 9);
    assert!(matches!(get_u8(&mut c), Err(FrameError::NoData)));
    assert_eq!(c.position(), 2);
}

#[test]
fn get_line_stops_at_first_terminator() {
    let data = b"abc\r\ndef\r\n";
    let mut c = Cursor::new(data);
    assert_eq!(get_line(&mut c).unwrap(), b"abc");
    assert_eq!(c.position(), 5);
    assert_eq!(get_line(&mut c).unwrap(), b"def");
    assert_eq!(c.position(), 10);
    assert!(matches!(get_line(&mut c), Err(FrameError::NoLine)));
    assert_eq!(c.position(), 10);
}

#[test]
fn get_line_without_terminator_does_not_move() {
    let data = b"abc\rdef\n";
    let mut c = Cursor::new(data);
    assert!(matches!(get_line(&mut c), Err(FrameError::NoLine)));
    assert_eq!(c.position(), 0);
}

#[test]
fn get_line_keeps_a_lone_carriage_return() {
    let data = b"ab\r\r\n";
    let mut c = Cursor::new(data);
    assert_eq!(get_line(&mut c).unwrap(), b"ab\r");
    assert_eq!(c.position(), 5);
}

#[test]
fn get_message_numbers_are_big_endian() {
    let data = [0u8, 0, 1, 2, 13, 10, 0xff, 0xff, 0xff, 0xff, 0xff, 0xff, 0xff, 0xfe, 13, 10];
    let mut c = Cursor::new(&data);
    assert_eq!(get_message_len(&mut c).unwrap(), 258);
    assert_eq!(get_message_i64(&mut c).unwrap(), -2);
    assert_eq!(c.position(), 16);
}

#[test]
fn get_message_bytes_copies_the_line() {
    let data = b"hello\r\n";
    let mut c = Cursor::new(data);
    assert_eq!(get_message_bytes(&mut c).unwrap(), b"hello".to_vec());
}

#[test]
fn skip_moves_two_bytes() {
    let data = [1u8];
    let mut c = Cursor::new(&data);
    skip(&mut c);
    assert_eq!(c.position(), 2);
    assert!(matches!(get_u8(&mut c), Err(FrameError::NoData)));
}

#[test]
fn writers_append_terminators() {
    let mut v = vec![1u8];
    write_line(b"ab", &mut v).unwrap();
    assert_eq!(v, vec![1, b'a', b'b', 13, 10]);
    let mut w = Vec::new();
    write_rn(&mut w).unwrap();
    assert_eq!(w, vec![13, 10]);
    write_rn_to_bytes(&mut w).unwrap();
    assert_eq!(w, vec![13, 10, 13, 10]);
}

#[test]
fn serialize_each_kind() {
    assert_eq!(bytes_of(Frame::Simple("OK".to_string())), b"+OK\r\n".to_vec());
    assert_eq!(bytes_of(Frame::ErrorResult("bad".to_string())), b"-bad\r\n".to_vec());
    assert_eq!(bytes_of(Frame::Null), b"_\r\n".to_vec());
    assert_eq!(
        bytes_of(Frame::Integer(258)),
        vec![b':', 0, 0, 0, 0, 0, 0, 1, 2, 13, 10]
    );
    assert_eq!(
        bytes_of(Frame::Bulk(b"xyz".to_vec())),
        vec![b'$', 0, 0, 0, 3, 13, 10, b'x', b'y', b'z', 13, 10]
    );
    assert_eq!(
        bytes_of(Frame::Array(vec![Frame::Null, Frame::Simple("a".to_string())])),
        vec![b'*', 0, 0, 0, 2, 13, 10, b'_', 13, 10, b'+', b'a', 13, 10]
    );
}

#[test]
fn serialize_utf8_string() {
    assert_eq!(bytes_of(Frame::Simple("é".to_string())), vec![b'+', 0xc3, 0xa9, 13, 10]);
}

#[test]
fn parse_reads_back_what_was_written() {
    let frame = Frame::Array(vec![
        Frame::Simple("SET".to_string()),
        Frame::Integer(-5),
        Frame::Null,
        Frame::ErrorResult("oops".to_string()),
        Frame::Bulk(b"a\r\nb".to_vec()),
        Frame::Array(vec![Frame::Simple("inner".to_string())]),
    ]);
    let mut data = bytes_of(frame);
    let len = data.len() as u64;
    data.extend_from_slice(b"trailing");
    let (r, pos) = parse_all(&data);
    assert_eq!(pos, len);
    match r.unwrap() {
        Frame::Array(items) => {
            assert_eq!(items.len(), 6);
            assert!(matches!(&items[0], Frame::Simple(s) if s == "SET"));
            assert!(matches!(&items[1], Frame::Integer(-5)));
            assert!(matches!(&items[2], Frame::Null));
            assert!(matches!(&items[3], Frame::ErrorResult(s) if s == "oops"));
            assert!(matches!(&items[4], Frame::Bulk(b) if b == b"a\r\nb"));
            match &items[5] {
                Frame::Array(inner) => {
                    assert_eq!(inner.len(), 1);
                    assert!(matches!(&inner[0], Frame::Simple(s) if s == "inner"));
                }
                _ => panic!("not an array"),
            }
        }
        _ => panic!("not an array"),
    }
}

#[test]
fn parse_errors() {
    let (r, pos) = parse_all(b"");
    assert!(matches!(r, Err(FrameError::NoData)));
    assert_eq!(pos, 0);
    let (r, pos) = parse_all(b"?abc");
    assert!(matches!(r, Err(FrameError::InvalidHead)));
    assert_eq!(pos, 1);
    let (r, pos) = parse_all(b"+abc");
    assert!(matches!(r, Err(FrameError::NoLine)));
    assert_eq!(pos, 1);
    let (r, pos) = parse_all(&[b'+', 0xff, 13, 10]);
    assert!(matches!(r, Err(FrameError::InvalidUtf8)));
    assert_eq!(pos, 4);
}

#[test]
fn parse_error_inside_array_reports_position() {
    let (r, pos) = parse_all(&[b'*', 0, 0, 0, 2, 13, 10, b'_', 13, 10, b'?']);
    assert!(matches!(r, Err(FrameError::InvalidHead)));
    assert_eq!(pos, 11);
}

#[test]
fn check_reads_simple_null_bulk_and_arrays() {
    let frame = Frame::Array(vec![
        Frame::Simple("GET".to_string()),
        Frame::Null,
        Frame::Bulk(b"value".to_vec()),
    ]);
    let data = bytes_of(frame);
    let (r, pos) = check_all(&data);
    assert!(r.is_ok());
    assert_eq!(pos, data.len() as u64);
}

#[test]
fn check_errors() {
    let (r, pos) = check_all(b"");
    assert!(matches!(r, Err(FrameError::NoData)));
    assert_eq!(pos, 0);
    let (r, pos) = check_all(b"?");
    assert!(matches!(r, Err(FrameError::CheckFailed)));
    assert_eq!(pos, 1);
    let (r, pos) = check_all(b"*\x00\x00");
    assert!(matches!(r, Err(FrameError::CheckFailed)));
    assert_eq!(pos, 1);
    let (r, pos) = check_all(b"-only one line\r\n");
    assert!(matches!(r, Err(FrameError::NoLine)));
    assert_eq!(pos, 16);
    let (r, pos) = check_all(b":");
    assert!(matches!(r, Err(FrameError::NoData)));
    assert_eq!(pos, 1);
}

#[test]
fn check_reads_two_lines_for_an_error_string() {
    let (r, pos) = check_all(b"-first\r\nsecond\r\n");
    assert!(r.is_ok());
    assert_eq!(pos, 16);
}

#[test]
fn parse_to_string_cases() {
    assert_eq!(Frame::parse_to_string(&Frame::Simple("k".to_string())).unwrap(), "k");
    assert!(matches!(
        Frame::parse_to_string(&Frame::ErrorResult("msg".to_string())),
        Err(FrameError::ErrorReply(m)) if m == "msg"
    ));
    assert!(matches!(Frame::parse_to_string(&Frame::Null), Err(FrameError::NotAString)));
    assert!(matches!(Frame::parse_to_string(&Frame::Integer(1)), Err(FrameError::NotAString)));
}

#[test]
fn parse_to_bytes_cases() {
    assert_eq!(
        Frame::parse_to_bytes(&Frame::Simple("ab".to_string())).unwrap(),
        Some(b"ab".to_vec())
    );
    assert_eq!(
        Frame::parse_to_bytes(&Frame::Integer(1)).unwrap(),
        Some(vec![0, 0, 0, 0, 0, 0, 0, 1])
    );
    assert_eq!(Frame::parse_to_bytes(&Frame::Null).unwrap(), None);
    assert_eq!(
        Frame::parse_to_bytes(&Frame::ErrorResult("e".to_string())).unwrap(),
        Some(b"e".to_vec())
    );
    assert_eq!(
        Frame::parse_to_bytes(&Frame::Bulk(vec![9, 8])).unwrap(),
        Some(vec![9, 8])
    );
    assert!(matches!(
        Frame::parse_to_bytes(&Frame::Array(vec![])),
        Err(FrameError::NotBytes)
    ));
}

#[test]
fn parse_to_vec_string_cases() {
    let list = Frame::Array(vec![Frame::Simple("a".to_string()), Frame::Simple("b".to_string())]);
    assert_eq!(Frame::parse_to_vec_string(&list).unwrap(), vec!["a".to_string(), "b".to_string()]);
    let bad = Frame::Array(vec![
        Frame::Simple("a".to_string()),
        Frame::ErrorResult("x".to_string()),
        Frame::Null,
    ]);
    assert!(matches!(
        Frame::parse_to_vec_string(&bad),
        Err(FrameError::ErrorReply(m)) if m == "x"
    ));
    assert!(matches!(
        Frame::parse_to_vec_string(&Frame::Null),
        Err(FrameError::NotAStringList)
    ));
}

#[test]
fn clone_copies_nested_frames() {
    let frame = Frame::Array(vec![Frame::Bulk(vec![1]), Frame::Simple("s".to_string())]);
    let copy = frame.clone();
    assert_eq!(bytes_of(copy), bytes_of(frame));
}

#[test]
fn byte_len_counts_the_written_bytes() {
    assert_eq!(Frame::Simple("OK".to_string()).byte_len(), Some(5));
    assert_eq!(Frame::Integer(7).byte_len(), Some(11));
    assert_eq!(Frame::Null.byte_len(), Some(3));
    assert_eq!(Frame::Bulk(vec![1, 2, 3]).byte_len(), Some(12));
    let array = Frame::Array(vec![Frame::Simple("GET".to_string()), Frame::Bulk(vec![9])]);
    assert_eq!(array.byte_len(), Some(7 + 6 + 10));
    let expected = Frame::parse_frame_to_bytes(array.clone()).unwrap().len();
    assert_eq!(array.byte_len(), Some(expected));
}
