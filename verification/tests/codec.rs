use cxxrtl_debug::codec::{frame_message, read_null_terminated_message, FramingError};
use cxxrtl_debug::text::format_time;

#[test]
fn no_delimiter_leaves_the_buffer() {
    let mut buffer = b"{\"type\":".to_vec();
    assert!(read_null_terminated_message(&mut buffer).is_none());
    assert_eq!(buffer, b"{\"type\":".to_vec());
}

#[test]
fn empty_buffer_has_no_message() {
    let mut buffer: Vec<u8> = Vec::new();
    assert!(read_null_terminated_message(&mut buffer).is_none());
    assert!(buffer.is_empty());
}

#[test]
fn one_frame_is_taken_out() {
    let mut buffer = b"hello\0wor".to_vec();
    let got = read_null_terminated_message(&mut buffer);
    assert_eq!(got, Some(Ok(String::from("hello"))));
    assert_eq!(buffer, b"wor".to_vec());
    assert!(read_null_terminated_message(&mut buffer).is_none());
    assert_eq!(buffer, b"wor".to_vec());
}

#[test]
fn frames_come_out_in_wire_order() {
    let mut buffer = b"a\0bc\0\0d".to_vec();
    assert_eq!(read_null_terminated_message(&mut buffer), Some(Ok(String::from("a"))));
    assert_eq!(read_null_terminated_message(&mut buffer), Some(Ok(String::from("bc"))));
    assert_eq!(read_null_terminated_message(&mut buffer), Some(Ok(String::new())));
    assert_eq!(read_null_terminated_message(&mut buffer), None);
    assert_eq!(buffer, b"d".to_vec());
}

#[test]
fn a_frame_that_is_not_utf8_is_a_framing_error() {
    let mut buffer = vec![0xff, 0xfe, 0x00, b'o', b'k', 0x00];
    assert_eq!(read_null_terminated_message(&mut buffer), Some(Err(FramingError::InvalidUtf8)));
    assert_eq!(buffer, b"ok\0".to_vec());
    assert_eq!(read_null_terminated_message(&mut buffer), Some(Ok(String::from("ok"))));
    assert!(buffer.is_empty());
}

#[test]
fn a_truncated_character_is_a_framing_error() {
    let mut buffer = vec![0xc3, 0x00];
    assert_eq!(read_null_terminated_message(&mut buffer), Some(Err(FramingError::InvalidUtf8)));
    assert!(buffer.is_empty());
}

#[test]
fn text_beyond_ascii_is_decoded() {
    let mut buffer = "häß→𝄞\0".as_bytes().to_vec();
    assert_eq!(read_null_terminated_message(&mut buffer), Some(Ok(String::from("häß→𝄞"))));
    assert!(buffer.is_empty());
}

#[test]
fn a_message_is_framed_with_one_zero_byte() {
    assert_eq!(frame_message("abc"), b"abc\0".to_vec());
    assert_eq!(frame_message(""), vec![0u8]);
    assert_eq!(frame_message("é"), vec![0xc3, 0xa9, 0x00]);
}

#[test]
fn a_framed_message_reads_back() {
    let mut buffer = frame_message("{\"type\":\"greeting\",\"version\":0}");
    buffer.extend_from_slice(&frame_message("second"));
    assert_eq!(
        read_null_terminated_message(&mut buffer),
        Some(Ok(String::from("{\"type\":\"greeting\",\"version\":0}")))
    );
    assert_eq!(read_null_terminated_message(&mut buffer), Some(Ok(String::from("second"))));
    assert!(buffer.is_empty());
}

#[test]
fn time_is_written_with_fifteen_fractional_digits() {
    assert_eq!(format_time(0), "0.000000000000000");
    assert_eq!(format_time(1), "0.000000000000001");
    assert_eq!(format_time(125_000_000_000_000), "0.125000000000000");
    assert_eq!(format_time(999_999_999_999_999), "0.999999999999999");
    assert_eq!(format_time(1_000_000_000_000_000), "1.000000000000000");
    assert_eq!(format_time(12_000_000_000_000_345), "12.000000000000345");
    assert_eq!(format_time(u64::MAX), "18446.744073709551615");
}

#[test]
fn pushed_bytes_give_every_complete_frame() {
    let mut buffer = b"ab".to_vec();
    let out = cxxrtl_debug::codec::push_bytes(&mut buffer, b"c\0\xff\0\0de");
    assert_eq!(
        out,
        vec![Ok(String::from("abc")), Err(FramingError::InvalidUtf8), Ok(String::new())]
    );
    assert_eq!(buffer, b"de".to_vec());
    let out = cxxrtl_debug::codec::push_bytes(&mut buffer, b"");
    assert!(out.is_empty());
    assert_eq!(buffer, b"de".to_vec());
    let out = cxxrtl_debug::codec::push_bytes(&mut buffer, b"\0");
    assert_eq!(out, vec![Ok(String::from("de"))]);
    assert!(buffer.is_empty());
}

#[test]
fn the_frames_do_not_depend_on_the_chunks() {
    let wire = b"first\0second\0\0\xc3\x28\0fifth\0tail".to_vec();
    let mut buffer = Vec::new();
    let whole = cxxrtl_debug::codec::push_bytes(&mut buffer, &wire);
    assert_eq!(whole.len(), 5);
    assert_eq!(buffer, b"tail".to_vec());
    for a in 0..=wire.len() {
        for b in a..=wire.len() {
            let mut buffer = Vec::new();
            let mut got = cxxrtl_debug::codec::push_bytes(&mut buffer, &wire[..a]);
            got.extend(cxxrtl_debug::codec::push_bytes(&mut buffer, &wire[a..b]));
            got.extend(cxxrtl_debug::codec::push_bytes(&mut buffer, &wire[b..]));
            assert_eq!(got, whole);
            assert_eq!(buffer, b"tail".to_vec());
        }
    }
}
