use bytes::{Bytes, BytesMut};
use xitca_core::http_ws::error::ProtocolError;
use xitca_core::http_ws::frame::Parser;
use xitca_core::http_ws::mask::apply_mask;
use xitca_core::http_ws::proto::{CloseCode, CloseReason, OpCode};

const OPS: [OpCode; 6] = [
    OpCode::Continue,
    OpCode::Text,
    OpCode::Binary,
    OpCode::Close,
    OpCode::Ping,
    OpCode::Pong,
];

fn payload(len: usize) -> Vec<u8> {
    (0..len).map(|i| (i * 7 + 3) as u8).collect()
}

#[test]
fn masking_twice_gives_the_payload_back() {
    let mut data = payload(11);
    apply_mask(&mut data, [1, 2, 3, 4]);
    assert_eq!(data[..5], [3 ^ 1, 10 ^ 2, 17 ^ 3, 24 ^ 4, 31 ^ 1]);
    apply_mask(&mut data, [1, 2, 3, 4]);
    assert_eq!(data, payload(11));
}

#[test]
fn written_frames_are_read_back() {
    for len in [0usize, 1, 125, 126, 127, 65_535, 65_536] {
        for key in [None, Some([9u8, 8, 7, 6])] {
            for op in OPS {
                for fin in [false, true] {
                    let data = payload(len);
                    let mut buf = BytesMut::new();
                    Parser::write_message_with(&mut buf, &data, op, fin, key);
                    buf.extend(b"rest");
                    let res = Parser::parse(&mut buf, key.is_some(), len);
                    assert_eq!(&buf[..], b"rest");
                    let control = matches!(op, OpCode::Ping | OpCode::Pong);
                    if control && len > 125 {
                        assert_eq!(res.unwrap_err(), ProtocolError::InvalidLength(len));
                    } else if op == OpCode::Close && len > 125 {
                        assert!(matches!(res, Ok(Some((true, OpCode::Close, None)))));
                    } else {
                        let (got_fin, got_op, got) = res.unwrap().unwrap();
                        assert_eq!((got_fin, got_op), (fin, op));
                        if len == 0 {
                            assert!(got.is_none());
                        } else {
                            assert_eq!(got.unwrap(), Bytes::from(data));
                        }
                    }
                }
            }
        }
    }
}

#[test]
fn randomly_masked_frames_are_read_back() {
    let mut buf = BytesMut::new();
    Parser::write_message(&mut buf, b"hello", OpCode::Text, true, true);
    Parser::write_close(&mut buf, Some(CloseReason::from(CloseCode::Away)), true);
    assert_eq!(buf.len(), 2 + 4 + 5 + 2 + 4 + 2);
    assert_eq!(&buf[..2], &[0x81, 0x85]);
    let (fin, op, data) = Parser::parse(&mut buf, true, 1024).unwrap().unwrap();
    assert_eq!((fin, op), (true, OpCode::Text));
    assert_eq!(data.unwrap(), Bytes::from("hello"));
    let (_, op, data) = Parser::parse(&mut buf, true, 1024).unwrap().unwrap();
    assert_eq!(op, OpCode::Close);
    let reason = Parser::parse_close_payload(&data.unwrap()).unwrap();
    assert_eq!(reason.code, CloseCode::Away);
    assert!(reason.description.is_none());
}

#[test]
fn random_keys_differ() {
    let mut keys = Vec::new();
    for _ in 0..16 {
        let mut buf = BytesMut::new();
        Parser::write_message(&mut buf, b"", OpCode::Text, true, true);
        keys.push(buf[2..6].to_vec());
    }
    assert!(keys.iter().any(|key| *key != keys[0]));
}

#[test]
fn lengths_take_as_few_bytes_as_can_hold_them() {
    for (len, head) in [
        (125usize, vec![0x82u8, 125]),
        (126, vec![0x82, 126, 0, 126]),
        (65_535, vec![0x82, 126, 0xff, 0xff]),
        (65_536, vec![0x82, 127, 0, 0, 0, 0, 0, 1, 0, 0]),
    ] {
        let mut buf = BytesMut::from(&b"before"[..]);
        Parser::write_message(&mut buf, &payload(len), OpCode::Binary, true, false);
        assert_eq!(&buf[..6], b"before");
        assert_eq!(&buf[6..6 + head.len()], &head[..]);
        assert_eq!(&buf[6 + head.len()..], &payload(len)[..]);
    }
}

#[test]
fn partial_frames_wait() {
    let mut whole = BytesMut::new();
    Parser::write_message_with(&mut whole, &payload(300), OpCode::Text, true, Some([1, 2, 3, 4]));
    for arrived in 0..whole.len() {
        let mut buf = BytesMut::from(&whole[..arrived]);
        assert!(matches!(Parser::parse(&mut buf, true, 300), Ok(None)));
        assert_eq!(&buf[..], &whole[..arrived]);
    }
}

#[test]
fn later_bytes_change_nothing() {
    let mut buf = BytesMut::from(&[0x81u8, 0x01, b'a', 0x81][..]);
    assert!(matches!(Parser::parse(&mut buf, false, 8), Ok(Some((true, OpCode::Text, Some(_))))));
    assert_eq!(&buf[..], &[0x81]);
}

#[test]
fn frames_of_the_wrong_side_are_refused_untouched() {
    let mut buf = BytesMut::from(&[0x81u8, 0x80][..]);
    assert_eq!(Parser::parse(&mut buf, false, 8).unwrap_err(), ProtocolError::MaskedFrame);
    assert_eq!(&buf[..], &[0x81, 0x80]);
    let mut buf = BytesMut::from(&[0x81u8, 0x00][..]);
    assert_eq!(Parser::parse(&mut buf, true, 8).unwrap_err(), ProtocolError::UnmaskedFrame);
    assert_eq!(&buf[..], &[0x81, 0x00]);
}

#[test]
fn opcodes_without_a_meaning_are_refused() {
    for byte in [3u8, 4, 5, 6, 7, 11, 12, 13, 14, 15] {
        let mut buf = BytesMut::from(&[0x80 | byte, 0x00][..]);
        assert_eq!(
            Parser::parse(&mut buf, false, 8).unwrap_err(),
            ProtocolError::InvalidOpcode(byte)
        );
        assert_eq!(OpCode::from(byte), OpCode::Bad);
    }
    assert_eq!(u8::from(OpCode::Bad), 8);
}

#[test]
fn opcodes_are_read_back() {
    for op in OPS {
        assert_eq!(OpCode::from(u8::from(op)), op);
    }
    assert_eq!(u8::from(OpCode::Pong), 10);
}

#[test]
fn reserved_bits_are_ignored() {
    let mut buf = BytesMut::from(&[0xf2u8, 0x01, b'x'][..]);
    let (fin, op, data) = Parser::parse(&mut buf, false, 8).unwrap().unwrap();
    assert_eq!((fin, op), (true, OpCode::Binary));
    assert_eq!(data.unwrap(), Bytes::from("x"));
}

#[test]
fn long_frames_are_refused_before_the_payload_arrives() {
    let mut buf = BytesMut::from(&[0x82u8, 127, 0, 0, 0, 0, 0, 1, 0, 0][..]);
    assert_eq!(Parser::parse(&mut buf, false, 65_535).unwrap_err(), ProtocolError::Overflow);
    assert_eq!(buf.len(), 10);
    assert!(matches!(Parser::parse(&mut buf, false, 65_536), Ok(None)));
}

#[test]
fn the_longest_length_asks_for_more() {
    let mut buf = BytesMut::from(&[0x82u8, 127][..]);
    buf.extend([0xffu8; 8]);
    assert!(matches!(Parser::parse(&mut buf, false, usize::MAX), Ok(None)));
    assert_eq!(buf.len(), 10);
}

#[test]
fn metadata_names_every_part_of_the_head() {
    let src = [0x89u8, 0xfe, 0x01, 0x00, 1, 2, 3, 4, 5];
    let (idx, fin, op, len, mask) = Parser::parse_metadata(&src, true, 256).unwrap().unwrap();
    assert_eq!((idx, fin, op, len), (8, true, OpCode::Ping, 256));
    assert_eq!(mask, Some([1, 2, 3, 4]));
    assert!(matches!(Parser::parse_metadata(&src[..7], true, 256), Ok(None)));
    assert_eq!(
        Parser::parse_metadata(&src, true, 255).unwrap_err(),
        ProtocolError::Overflow
    );
}

#[test]
fn close_codes_are_read_back() {
    for number in 0..=u16::MAX {
        assert_eq!(u16::from(CloseCode::from(number)), number);
    }
    assert_eq!(CloseCode::from(1009), CloseCode::Size);
    assert_eq!(CloseCode::from(1004), CloseCode::Other(1004));
    assert_eq!(CloseCode::from(u16::from(CloseCode::Other(1000))), CloseCode::Normal);
}

#[test]
fn close_reasons_are_read_back() {
    let mut buf = BytesMut::new();
    let reason = CloseReason::from((CloseCode::Policy, String::from("zu groß")));
    Parser::write_close_with(&mut buf, Some(reason), Some([5, 6, 7, 8]));
    let (fin, op, data) = Parser::parse(&mut buf, true, 125).unwrap().unwrap();
    assert_eq!((fin, op), (true, OpCode::Close));
    let reason = Parser::parse_close_payload(&data.unwrap()).unwrap();
    assert_eq!(reason.code, CloseCode::Policy);
    assert_eq!(reason.description.unwrap(), "zu groß");
}

#[test]
fn an_empty_description_is_read_back_as_none() {
    let mut buf = BytesMut::new();
    let reason = CloseReason::from((CloseCode::Normal, String::new()));
    Parser::write_close(&mut buf, Some(reason), false);
    assert_eq!(&buf[..], &[0x88, 2, 3, 232]);
    let reason = Parser::parse_close_payload(&buf[2..]).unwrap();
    assert!(reason.description.is_none());
}

#[test]
fn close_payloads_of_any_bytes_are_read() {
    assert!(Parser::parse_close_payload(&[]).is_none());
    assert!(Parser::parse_close_payload(&[3]).is_none());
    let reason = Parser::parse_close_payload(&[3, 233, b'o', 0xff, b'k']).unwrap();
    assert_eq!(reason.code, CloseCode::Away);
    assert_eq!(reason.description.unwrap(), "o\u{fffd}k");
    let reason = Parser::close_reason(&[3, 234, 1], String::from("text")).unwrap();
    assert_eq!(reason.code, CloseCode::Protocol);
    assert_eq!(reason.description.unwrap(), "text");
}
