//! Tests of the checker frame decoder and the index delta encoder.

use lean4oj::frames::parse_frame;
use lean4oj::jumping::Jumping;
use lean4oj::status::{Action, Status};

fn string_chunk(s: &str) -> Vec<u8> {
    let mut out = (s.len() as u32).to_le_bytes().to_vec();
    out.extend_from_slice(s.as_bytes());
    out
}

#[test]
fn frame_with_message_and_answer() {
    let mut buf = vec![9u8, 1];
    buf.extend_from_slice(&string_chunk("hello"));
    buf.push(1);
    buf.extend_from_slice(&string_chunk("ok"));
    let (frame, end) = parse_frame(&buf, 0).unwrap();
    assert_eq!(frame.status, Status::Accepted);
    assert!(matches!(frame.action, Action::Replace(ref m) if m == "hello"));
    assert_eq!(frame.answer.as_deref(), Some("ok"));
    assert_eq!(end, buf.len());
}

#[test]
fn frame_with_append_action() {
    let mut buf = vec![4u8, 2];
    buf.extend_from_slice(&string_chunk("more"));
    buf.push(0);
    let (frame, end) = parse_frame(&buf, 0).unwrap();
    assert_eq!(frame.status, Status::TypeChecking);
    assert!(matches!(frame.action, Action::Append(ref m) if m == "more"));
    assert!(frame.answer.is_none());
    assert_eq!(end, buf.len());
}

#[test]
fn minimal_frame_and_trailing_position() {
    let buf = [5u8, 0, 0, 6, 0, 0];
    let (f1, e1) = parse_frame(&buf, 0).unwrap();
    assert_eq!(f1.status, Status::AxiomChecking);
    assert!(matches!(f1.action, Action::NoAction));
    assert_eq!(e1, 3);
    let (f2, e2) = parse_frame(&buf, e1).unwrap();
    assert_eq!(f2.status, Status::Replaying);
    assert_eq!(e2, 6);
}

#[test]
fn frame_rejects_out_of_range_status_byte() {
    assert!(parse_frame(&[12u8, 0, 0], 0).is_none());
    assert!(parse_frame(&[200u8, 0, 0], 0).is_none());
}

#[test]
fn frame_rejects_bad_action_and_answer_bytes() {
    assert!(parse_frame(&[0u8, 3, 0], 0).is_none());
    assert!(parse_frame(&[0u8, 0, 2], 0).is_none());
}

#[test]
fn frame_rejects_truncated_string() {
    let buf = [0u8, 1, 10, 0, 0, 0, b'x'];
    assert!(parse_frame(&buf, 0).is_none());
}

#[test]
fn frame_rejects_invalid_utf8_message() {
    let buf = [0u8, 1, 1, 0, 0, 0, 0xff, 0];
    assert!(parse_frame(&buf, 0).is_none());
}

#[test]
fn jump_encoding_widths() {
    let mut j = Jumping::new();
    // From the sentinel, the first index 5 is a small wrapped delta.
    assert_eq!(j.emit(5), vec![6]);
    // A medium delta takes three bytes, big-endian within the pair.
    assert_eq!(j.emit(5 + 300), vec![254, 1, 44]);
    // A large jump encodes the absolute index with the high bit set.
    assert_eq!(j.emit(0x12345678), vec![254, 0x92, 0x78, 0x56, 0x34]);
    assert_eq!(j.state, 0x12345678);
}

#[test]
fn jump_small_deltas_are_single_bytes() {
    let mut j = Jumping::new();
    j.emit(10);
    assert_eq!(j.emit(11), vec![1]);
    assert_eq!(j.emit(11 + 253), vec![253]);
    // Delta 254 no longer fits one byte.
    assert_eq!(j.emit(11 + 253 + 254), vec![254, 0, 254]);
}
