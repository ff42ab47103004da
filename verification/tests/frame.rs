use bytes::{Bytes, BytesMut};
use xitca_core::http_ws::error::ProtocolError;
use xitca_core::http_ws::frame::Parser;
use xitca_core::http_ws::proto::{CloseCode, OpCode};

struct F {
    finished: bool,
    opcode: OpCode,
    payload: Bytes,
}

type Extract = (bool, OpCode, Option<Bytes>);

fn is_none(frm: &Result<Option<Extract>, ProtocolError>) -> bool {
    matches!(*frm, Ok(None))
}

fn extract(frm: Result<Option<Extract>, ProtocolError>) -> F {
    match frm {
        Ok(Some((finished, opcode, payload))) => F {
            finished,
            opcode,
            payload: payload.unwrap_or_else(|| Bytes::from("")),
        },
        _ => unreachable!("error"),
    }
}

#[test]
fn test_parse() {
    let mut buf = BytesMut::from(&[0b0000_0001u8, 0b0000_0001u8][..]);
    assert!(is_none(&Parser::parse(&mut buf, false, 1024)));

    let mut buf = BytesMut::from(&[0b0000_0001u8, 0b0000_0001u8][..]);
    buf.extend(b"1");

    let frame = extract(Parser::parse(&mut buf, false, 1024));
    assert!(!frame.finished);
    assert_eq!(frame.opcode, OpCode::Text);
    assert_eq!(frame.payload.as_ref(), &b"1"[..]);
}

#[test]
fn test_parse_length0() {
    let mut buf = BytesMut::from(&[0b0000_0001u8, 0b0000_0000u8][..]);
    let frame = extract(Parser::parse(&mut buf, false, 1024));
    assert!(!frame.finished);
    assert_eq!(frame.opcode, OpCode::Text);
    assert!(frame.payload.is_empty());
}

#[test]
fn test_parse_length2() {
    let mut buf = BytesMut::from(&[0b0000_0001u8, 126u8][..]);
    assert!(is_none(&Parser::parse(&mut buf, false, 1024)));

    let mut buf = BytesMut::from(&[0b0000_0001u8, 126u8][..]);
    buf.extend(&[0u8, 4u8][..]);
    buf.extend(b"1234");

    let frame = extract(Parser::parse(&mut buf, false, 1024));
    assert!(!frame.finished);
    assert_eq!(frame.opcode, OpCode::Text);
    assert_eq!(frame.payload.as_ref(), &b"1234"[..]);
}

#[test]
fn test_parse_length4() {
    let mut buf = BytesMut::from(&[0b0000_0001u8, 127u8][..]);
    assert!(is_none(&Parser::parse(&mut buf, false, 1024)));

    let mut buf = BytesMut::from(&[0b0000_0001u8, 127u8][..]);
    buf.extend(&[0u8, 0u8, 0u8, 0u8, 0u8, 0u8, 0u8, 4u8][..]);
    buf.extend(b"1234");

    let frame = extract(Parser::parse(&mut buf, false, 1024));
    assert!(!frame.finished);
    assert_eq!(frame.opcode, OpCode::Text);
    assert_eq!(frame.payload.as_ref(), &b"1234"[..]);
}

#[test]
fn test_parse_frame_mask() {
    let mut buf = BytesMut::from(&[0b0000_0001u8, 0b1000_0001u8][..]);
    buf.extend(b"0001");
    buf.extend(b"1");

    assert!(Parser::parse(&mut buf, false, 1024).is_err());

    let frame = extract(Parser::parse(&mut buf, true, 1024));
    assert!(!frame.finished);
    assert_eq!(frame.opcode, OpCode::Text);
    assert_eq!(frame.payload, Bytes::from(vec![1u8]));
}

#[test]
fn test_parse_frame_no_mask() {
    let mut buf = BytesMut::from(&[0b0000_0001u8, 0b0000_0001u8][..]);
    buf.extend([1u8]);

    assert!(Parser::parse(&mut buf, true, 1024).is_err());

    let frame = extract(Parser::parse(&mut buf, false, 1024));
    assert!(!frame.finished);
    assert_eq!(frame.opcode, OpCode::Text);
    assert_eq!(frame.payload, Bytes::from(vec![1u8]));
}

#[test]
fn test_parse_frame_max_size() {
    let mut buf = BytesMut::from(&[0b0000_0001u8, 0b0000_0010u8][..]);
    buf.extend([1u8, 1u8]);

    assert!(Parser::parse(&mut buf, true, 1).is_err());

    if let Err(ProtocolError::Overflow) = Parser::parse(&mut buf, false, 0) {
    } else {
        unreachable!("error");
    }
}

#[test]
fn test_ping_frame() {
    let mut buf = BytesMut::new();
    Parser::write_message(&mut buf, &Vec::from("data"), OpCode::Ping, true, false);

    let mut v = vec![137u8, 4u8];
    v.extend(b"data");
    assert_eq!(&buf[..], &v[..]);
}

#[test]
fn test_pong_frame() {
    let mut buf = BytesMut::new();
    Parser::write_message(&mut buf, &Vec::from("data"), OpCode::Pong, true, false);

    let mut v = vec![138u8, 4u8];
    v.extend(b"data");
    assert_eq!(&buf[..], &v[..]);
}

#[test]
fn test_close_frame() {
    let mut buf = BytesMut::new();
    let reason = (CloseCode::Normal, "data");
    Parser::write_close(&mut buf, Some(reason.into()), false);

    let mut v = vec![136u8, 6u8, 3u8, 232u8];
    v.extend(b"data");
    assert_eq!(&buf[..], &v[..]);
}

#[test]
fn test_empty_close_frame() {
    let mut buf = BytesMut::new();
    Parser::write_close(&mut buf, None, false);
    assert_eq!(&buf[..], &vec![0x88, 0x00][..]);
}
