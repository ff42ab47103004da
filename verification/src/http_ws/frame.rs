//! Reading and writing of WebSocket frames.
use bytes::{Buf, BufMut, Bytes, BytesMut};
use vstd::prelude::*;
use vstd::slice::slice_subrange;
use vstd::utf8::{decode_utf8, encode_utf8, valid_utf8};

use crate::buffer::{
    be_bytes, be_value, contents, frozen, lemma_be_bytes_len, lemma_be_value_bound, lemma_pow_256,
    put_u16, put_u64, read_be, room,
};

use super::error::ProtocolError;
use super::mask::{apply_mask, masked};
use super::proto::{CloseCode, CloseReason, OpCode};

verus! {

/// The longest payload of a control frame.
pub const MAX_CONTROL_PAYLOAD: usize = 125;

/// A reader and writer of WebSocket frames.
#[derive(Debug)]
pub struct Parser;

/// What stands before a payload: the number of bytes it takes, whether the frame is the last of
/// its message, the opcode, the length of the payload and the key it is masked with.
pub type MetaData = (usize, bool, OpCode, usize, Option<[u8; 4]>);

/// What stands before a payload, with the key as a sequence.
pub struct FrameHead {
    pub size: nat,
    pub finished: bool,
    pub opcode: OpCode,
    pub length: nat,
    pub mask: Option<Seq<u8>>,
}

/// A frame: whether it is the last of its message, the opcode and the payload.
pub type FrameView = (bool, OpCode, Option<Seq<u8>>);

/// The number of bytes behind the second byte of a frame that hold the payload's length.
pub open spec fn length_width(second: u8) -> nat {
    if second % 128 == 126 {
        2
    } else if second % 128 == 127 {
        8
    } else {
        0
    }
}

/// The payload length that the frame at the start of `src` declares.
pub open spec fn declared_length(src: Seq<u8>) -> nat {
    if length_width(src[1]) == 0 {
        (src[1] % 128) as nat
    } else {
        be_value(src.subrange(2, (2 + length_width(src[1])) as int))
    }
}

/// Reads what stands before the payload of the frame at the start of `src`. A server takes only
/// masked frames, a client only unmasked ones. `None` asks for more bytes.
pub open spec fn read_head(src: Seq<u8>, server: bool, max_size: nat) -> Result<
    Option<FrameHead>,
    ProtocolError,
> {
    let key_at = 2 + length_width(src[1]);
    let size = if server {
        key_at + 4
    } else {
        key_at
    };
    if src.len() < 2 {
        Ok(None)
    } else if server && src[1] < 128 {
        Err(ProtocolError::UnmaskedFrame)
    } else if !server && src[1] >= 128 {
        Err(ProtocolError::MaskedFrame)
    } else if OpCode::of_byte(src[0] % 16) is Bad {
        Err(ProtocolError::InvalidOpcode(src[0] % 16))
    } else if src.len() < key_at {
        Ok(None)
    } else if declared_length(src) > max_size {
        Err(ProtocolError::Overflow)
    } else if src.len() < size {
        Ok(None)
    } else {
        Ok(
            Some(
                FrameHead {
                    size: size as nat,
                    finished: src[0] >= 128,
                    opcode: OpCode::of_byte(src[0] % 16),
                    length: declared_length(src),
                    mask: if server {
                        Some(src.subrange(key_at as int, size as int))
                    } else {
                        None
                    },
                },
            ),
        )
    }
}

/// Reads the frame at the start of `src`: the outcome, and the bytes left behind it. `None` asks
/// for more bytes and takes none. A payload is unmasked, and `None` where it is empty. A ping or
/// pong that is too long for a control frame is taken and refused; a close that is too long is
/// taken and loses its payload.
pub open spec fn read_frame(src: Seq<u8>, server: bool, max_size: nat) -> (
    Result<Option<FrameView>, ProtocolError>,
    Seq<u8>,
) {
    match read_head(src, server, max_size) {
        Err(e) => (Err(e), src),
        Ok(None) => (Ok(None), src),
        Ok(Some(head)) => {
            let end = (head.size + head.length) as int;
            let data = src.subrange(head.size as int, end);
            let rest = src.skip(end);
            let too_long = head.length > MAX_CONTROL_PAYLOAD;
            if src.len() < end {
                (Ok(None), src)
            } else if head.length == 0 {
                (Ok(Some((head.finished, head.opcode, None))), rest)
            } else if too_long && (head.opcode is Ping || head.opcode is Pong) {
                (Err(ProtocolError::InvalidLength(head.length as usize)), rest)
            } else if too_long && head.opcode is Close {
                (Ok(Some((true, OpCode::Close, None))), rest)
            } else {
                let payload = match head.mask {
                    Some(key) => masked(data, key),
                    None => data,
                };
                (Ok(Some((head.finished, head.opcode, Some(payload)))), rest)
            }
        },
    }
}

/// The outcome of [`Parser::parse_metadata`] with the key as a sequence.
pub open spec fn head_view(res: Result<Option<MetaData>, ProtocolError>) -> Result<
    Option<FrameHead>,
    ProtocolError,
> {
    match res {
        Err(e) => Err(e),
        Ok(None) => Ok(None),
        Ok(Some((idx, finished, opcode, length, mask))) => Ok(
            Some(
                FrameHead {
                    size: idx as nat,
                    finished,
                    opcode,
                    length: length as nat,
                    mask: match mask {
                        Some(key) => Some(key@),
                        None => None,
                    },
                },
            ),
        ),
    }
}

/// The outcome of [`Parser::parse`] with the payload as a sequence.
pub open spec fn frame_view(
    res: Result<Option<(bool, OpCode, Option<Bytes>)>, ProtocolError>,
) -> Result<Option<FrameView>, ProtocolError> {
    match res {
        Err(e) => Err(e),
        Ok(None) => Ok(None),
        Ok(Some((finished, opcode, payload))) => Ok(
            Some(
                (
                    finished,
                    opcode,
                    match payload {
                        Some(data) => Some(frozen(data)),
                        None => None,
                    },
                ),
            ),
        ),
    }
}

/// What a writer puts before the key and the payload. The length takes as few bytes as can hold
/// it.
pub open spec fn head_bytes(op: OpCode, fin: bool, has_key: bool, length: nat) -> Seq<u8> {
    let one = if fin {
        (128 + op.byte()) as u8
    } else {
        op.byte()
    };
    let two = if has_key {
        128int
    } else {
        0int
    };
    if length < 126 {
        seq![one, (two + length) as u8]
    } else if length <= 65_535 {
        seq![one, (two + 126) as u8] + be_bytes(length, 2)
    } else {
        seq![one, (two + 127) as u8] + be_bytes(length, 8)
    }
}

/// The bytes of a frame, its payload masked with `key` where there is one.
pub open spec fn frame_bytes(op: OpCode, fin: bool, key: Option<Seq<u8>>, payload: Seq<u8>) -> Seq<
    u8,
> {
    match key {
        Some(key) => head_bytes(op, fin, true, payload.len()) + key + masked(payload, key),
        None => head_bytes(op, fin, false, payload.len()) + payload,
    }
}

/// The number of bytes that a frame takes: two, those that hold the length, the key and the
/// payload.
pub open spec fn frame_len(has_key: bool, length: nat) -> nat {
    let width: nat = if length < 126 {
        0
    } else if length <= 65_535 {
        2
    } else {
        8
    };
    let key: nat = if has_key {
        4
    } else {
        0
    };
    2 + width + key + length
}

/// A key as a sequence.
pub open spec fn key_view(key: Option<[u8; 4]>) -> Option<Seq<u8>> {
    match key {
        Some(key) => Some(key@),
        None => None,
    }
}

/// `rand::random`: four bytes from the thread's random number generator. Nothing is claimed of
/// them, and two calls may differ.
#[verifier::external_body]
fn random_key() -> (key: [u8; 4]) {
    rand::random::<[u8; 4]>()
}

/// A close code and a description, as [`CloseReason`] holds them.
pub type ReasonView = (CloseCode, Option<Seq<char>>);

/// A close reason with the description as a sequence.
pub open spec fn reason_view(reason: Option<CloseReason>) -> Option<ReasonView> {
    match reason {
        Some(reason) => Some(
            (
                reason.code,
                match reason.description {
                    Some(text) => Some(text@),
                    None => None,
                },
            ),
        ),
        None => None,
    }
}

/// The payload of a close frame: the number of the close code and the description in UTF-8.
pub open spec fn close_payload(reason: Option<ReasonView>) -> Seq<u8> {
    match reason {
        Some((code, Some(text))) => be_bytes(code.number() as nat, 2) + encode_utf8(text),
        Some((code, None)) => be_bytes(code.number() as nat, 2),
        None => Seq::empty(),
    }
}

/// Reads the payload of a close frame whose description reads `text`.
pub open spec fn read_reason(payload: Seq<u8>, text: Seq<char>) -> Option<ReasonView> {
    if payload.len() < 2 {
        None
    } else {
        Some(
            (
                CloseCode::of_number(be_value(payload.take(2)) as u16),
                if payload.len() > 2 {
                    Some(text)
                } else {
                    None
                },
            ),
        )
    }
}

/// The text that `String::from_utf8_lossy` makes of bytes that are not UTF-8.
pub uninterp spec fn replaced_text(bytes: Seq<u8>) -> Seq<char>;

/// The text in `bytes`: what they encode, or what is made of them where they are not UTF-8.
pub open spec fn text_of(bytes: Seq<u8>) -> Seq<char> {
    if valid_utf8(bytes) {
        decode_utf8(bytes)
    } else {
        replaced_text(bytes)
    }
}

/// Reads the payload of a close frame.
pub open spec fn read_close(payload: Seq<u8>) -> Option<ReasonView> {
    read_reason(payload, text_of(payload.skip(2)))
}

/// `String::from_utf8_lossy`: bytes that are UTF-8 give the text they encode. Of other bytes the
/// contract says only that equal bytes give equal texts.
#[verifier::external_body]
fn text_lossy(bytes: &[u8]) -> (text: String)
    ensures
        valid_utf8(bytes@) ==> text@ == decode_utf8(bytes@),
        !valid_utf8(bytes@) ==> text@ == replaced_text(bytes@),
{
    String::from_utf8_lossy(bytes).into_owned()
}

proof fn lemma_head_bits(b: u8)
    ensures
        b & 0x80 != 0 <==> b >= 128,
        b & 0x0F == b % 16,
        b & 0x7F == b % 128,
        b < 128 ==> 0x80 | b == 128 + b,
        0u8 | b == b,
{
    assert(b & 0x80 != 0 <==> b >= 128) by (bit_vector);
    assert(b & 0x0F == b % 16) by (bit_vector);
    assert(b & 0x7F == b % 128) by (bit_vector);
    assert(b < 128 ==> 0x80 | b == 128 + b) by (bit_vector);
    assert(0u8 | b == b) by (bit_vector);
}

/// A frame takes as many bytes as it is said to take.
pub proof fn lemma_frame_len(op: OpCode, fin: bool, key: Option<Seq<u8>>, payload: Seq<u8>)
    requires
        key matches Some(k) ==> k.len() == 4,
    ensures
        frame_bytes(op, fin, key, payload).len() == frame_len(key is Some, payload.len()),
{
    lemma_be_bytes_len(payload.len(), 2);
    lemma_be_bytes_len(payload.len(), 8);
}

impl Parser {
    /// Reads what stands before the payload of the frame at the start of `src`.
    pub fn parse_metadata(src: &[u8], server: bool, max_size: usize) -> (res: Result<
        Option<MetaData>,
        ProtocolError,
    >)
        ensures
            head_view(res) == read_head(src@, server, max_size as nat),
    {
        let chunk_len = src.len();

        let mut idx: usize = 2;
        if chunk_len < 2 {
            return Ok(None);
        }
        let first: u8 = src[0];
        let second: u8 = src[1];
        proof {
            lemma_head_bits(first);
            lemma_head_bits(second);
        }
        let finished = first & 0x80 != 0;

        // check masking
        let is_masked = second & 0x80 != 0;
        if !is_masked && server {
            return Err(ProtocolError::UnmaskedFrame);
        } else if is_masked && !server {
            return Err(ProtocolError::MaskedFrame);
        }

        // Op code
        let opcode = OpCode::from(first & 0x0F);

        if let OpCode::Bad = opcode {
            return Err(ProtocolError::InvalidOpcode(first & 0x0F));
        }

        let len: u8 = second & 0x7F;
        let length: usize = if len == 126 {
            if chunk_len < 4 {
                return Ok(None);
            }
            let len: u64 = read_be(src, idx, 2);
            proof {
                lemma_be_value_bound(src@.subrange(2, 4));
                lemma_pow_256();
            }
            idx += 2;
            len as usize
        } else if len == 127 {
            if chunk_len < 10 {
                return Ok(None);
            }
            let len: u64 = read_be(src, idx, 8);
            if len > max_size as u64 {
                return Err(ProtocolError::Overflow);
            }
            idx += 8;
            len as usize
        } else {
            len as usize
        };

        // check for max allowed size
        if length > max_size {
            return Err(ProtocolError::Overflow);
        }
        let mask = if server {
            if chunk_len - idx < 4 {
                return Ok(None);
            }
            let mask = [src[idx], src[idx + 1], src[idx + 2], src[idx + 3]];
            assert(mask@ =~= src@.subrange(idx as int, idx + 4));

            idx += 4;

            Some(mask)
        } else {
            None
        };

        Ok(Some((idx, finished, opcode, length, mask)))
    }

    /// Takes the frame at the start of `src` out of it.
    pub fn parse(src: &mut BytesMut, server: bool, max_size: usize) -> (res: Result<
        Option<(bool, OpCode, Option<Bytes>)>,
        ProtocolError,
    >)
        ensures
            frame_view(res) == read_frame(contents(*old(src)), server, max_size as nat).0,
            contents(*final(src)) == read_frame(contents(*old(src)), server, max_size as nat).1,
            res matches Ok(Some((fin, op, Some(data)))) ==> {
                let came = contents(*old(src));
                let start = came.len() - contents(*final(src)).len() - frozen(data).len();
                &&& fin == (came[0] >= 128)
                &&& op == OpCode::of_byte(came[0] % 16)
                &&& start >= if server {
                    6int
                } else {
                    2int
                }
                &&& forall|i: int|
                    0 <= i < frozen(data).len() ==> #[trigger] frozen(data)[i] == if server {
                        came[start + i] ^ came[start - 4 + i % 4]
                    } else {
                        came[start + i]
                    }
            },
    {
        // try to parse ws frame metadata
        let (idx, finished, opcode, length, mask) = match Parser::parse_metadata(
            &**src,
            server,
            max_size,
        ) {
            Err(e) => return Err(e),
            Ok(None) => return Ok(None),
            Ok(Some(res)) => res,
        };

        // not enough data
        if src.len() - idx < length {
            return Ok(None);
        }
        // remove prefix
        let ghost whole = contents(*src);
        src.advance(idx);
        assert(whole.skip(idx as int).skip(length as int) =~= whole.skip(idx + length));
        assert(whole.skip(idx as int).take(length as int) =~= whole.subrange(
            idx as int,
            idx + length,
        ));

        // no need for body
        if length == 0 {
            return Ok(Some((finished, opcode, None)));
        }
        let mut data = src.split_to(length);

        // control frames must have length <= 125
        match opcode {
            OpCode::Ping if length > MAX_CONTROL_PAYLOAD => Err(
                ProtocolError::InvalidLength(length),
            ),
            OpCode::Pong if length > MAX_CONTROL_PAYLOAD => Err(
                ProtocolError::InvalidLength(length),
            ),
            OpCode::Close if length > MAX_CONTROL_PAYLOAD => Ok(Some((true, OpCode::Close, None))),
            _ => {
                // unmask
                if let Some(mask) = mask {
                    apply_mask(&mut *data, mask);
                    assert(mask@ == whole.subrange(idx - 4, idx as int));
                }
                Ok(Some((finished, opcode, Some(data.freeze()))))
            },
        }
    }

    /// Appends to `dst` what stands before the key and the payload of a frame, and makes room for
    /// both.
    fn write_head(dst: &mut BytesMut, op: OpCode, fin: bool, has_key: bool, len: usize)
        requires
            room(contents(*old(dst)), frame_len(has_key, len as nat) as int),
        ensures
            contents(*final(dst)) == contents(*old(dst)) + head_bytes(
                op,
                fin,
                has_key,
                len as nat,
            ),
    {
        let ghost before = contents(*dst);
        proof {
            lemma_head_bits(op.byte());
            lemma_head_bits(126);
            lemma_head_bits(127);
            lemma_be_bytes_len(len as nat, 2);
            lemma_be_bytes_len(len as nat, 8);
        }

        let one: u8 = if fin {
            0x80 | u8::from(op)
        } else {
            u8::from(op)
        };
        let (two, len_maybe_mask): (u8, usize) = if has_key {
            (0x80, len + 4)
        } else {
            (0, len)
        };

        if len < 126 {
            proof {
                lemma_head_bits(len as u8);
            }
            dst.reserve(len_maybe_mask + 2);
            dst.put_slice(&[one, two | len as u8]);
        } else if len <= 65_535 {
            dst.reserve(len_maybe_mask + 4);
            dst.put_slice(&[one, two | 126]);
            put_u16(dst, len as u16);
        } else {
            dst.reserve(len_maybe_mask + 10);
            dst.put_slice(&[one, two | 127]);
            put_u64(dst, len as u64);
        }
        assert(contents(*dst) =~= before + head_bytes(op, fin, has_key, len as nat));
    }

    /// Appends a frame to `dst`, its payload masked with `key` where there is one.
    pub fn write_message_with(
        dst: &mut BytesMut,
        payload: &[u8],
        op: OpCode,
        fin: bool,
        key: Option<[u8; 4]>,
    )
        requires
            room(contents(*old(dst)), frame_len(key is Some, payload@.len()) as int),
        ensures
            contents(*final(dst)) == contents(*old(dst)) + frame_bytes(
                op,
                fin,
                key_view(key),
                payload@,
            ),
            ({
                let start = contents(*final(dst)).len() - payload@.len();
                &&& start >= contents(*old(dst)).len() + 2
                &&& forall|i: int|
                    0 <= i < payload@.len() ==> contents(*final(dst))[start + i] == match key {
                        Some(k) => (#[trigger] payload@[i]) ^ k@[i % 4],
                        None => payload@[i],
                    }
            }),
    {
        let len = payload.len();
        let ghost before = contents(*dst);
        let ghost head = head_bytes(op, fin, key is Some, payload@.len());
        Parser::write_head(dst, op, fin, key.is_some(), len);
        proof {
            lemma_frame_len(op, fin, key_view(key), payload@);
        }

        if let Some(mask) = key {
            dst.put_slice(&mask);
            dst.put_slice(payload);
            let pos = dst.len() - len;
            let ghost plain = contents(*dst);
            let (_, tail) = (&mut **dst).split_at_mut(pos);
            apply_mask(tail, mask);
            proof {
                assert(plain =~= before + head + mask@ + payload@);
                assert(plain.subrange(pos as int, plain.len() as int) =~= payload@);
                assert(plain.subrange(0, pos as int) =~= before + head + mask@);
                assert(contents(*dst) =~= before + head + mask@ + masked(payload@, mask@));
                assert(contents(*dst) =~= before + (head + mask@ + masked(payload@, mask@)));
            }
        } else {
            dst.put_slice(payload);
            assert(contents(*dst) =~= before + (head + payload@));
        }
    }

    /// Appends a frame to `dst`, its payload masked with a random key where `mask` asks for it.
    pub fn write_message(dst: &mut BytesMut, payload: &[u8], op: OpCode, fin: bool, mask: bool)
        requires
            room(contents(*old(dst)), frame_len(mask, payload@.len()) as int),
        ensures
            !mask ==> contents(*final(dst)) == contents(*old(dst)) + frame_bytes(
                op,
                fin,
                None,
                payload@,
            ),
            mask ==> exists|key: Seq<u8>|
                key.len() == 4 && contents(*final(dst)) == contents(*old(dst))
                    + #[trigger] frame_bytes(op, fin, Some(key), payload@),
    {
        if mask {
            let key = random_key();
            assert(key@.len() == 4);
            Parser::write_message_with(dst, payload, op, fin, Some(key));
        } else {
            Parser::write_message_with(dst, payload, op, fin, None);
        }
    }

    /// Appends a close frame to `dst`, its payload masked with `key` where there is one.
    pub fn write_close_with(dst: &mut BytesMut, reason: Option<CloseReason>, key: Option<[u8; 4]>)
        requires
            room(
                contents(*old(dst)),
                frame_len(key is Some, close_payload(reason_view(reason)).len()) as int,
            ),
        ensures
            contents(*final(dst)) == contents(*old(dst)) + frame_bytes(
                OpCode::Close,
                true,
                key_view(key),
                close_payload(reason_view(reason)),
            ),
    {
        let payload = Parser::close_bytes(reason);
        Parser::write_message_with(dst, payload.as_slice(), OpCode::Close, true, key)
    }

    /// Appends a close frame to `dst`, its payload masked with a random key where `mask` asks for
    /// it.
    pub fn write_close(dst: &mut BytesMut, reason: Option<CloseReason>, mask: bool)
        requires
            room(
                contents(*old(dst)),
                frame_len(mask, close_payload(reason_view(reason)).len()) as int,
            ),
        ensures
            !mask ==> contents(*final(dst)) == contents(*old(dst)) + frame_bytes(
                OpCode::Close,
                true,
                None,
                close_payload(reason_view(reason)),
            ),
            mask ==> exists|key: Seq<u8>|
                key.len() == 4 && contents(*final(dst)) == contents(*old(dst))
                    + #[trigger] frame_bytes(
                    OpCode::Close,
                    true,
                    Some(key),
                    close_payload(reason_view(reason)),
                ),
    {
        let payload = Parser::close_bytes(reason);
        Parser::write_message(dst, payload.as_slice(), OpCode::Close, true, mask)
    }

    fn close_bytes(reason: Option<CloseReason>) -> (payload: Vec<u8>)
        ensures
            payload@ == close_payload(reason_view(reason)),
    {
        let mut payload: Vec<u8> = Vec::new();
        if let Some(reason) = reason {
            let code: u16 = u16::from(reason.code);
            payload.push((code / 256) as u8);
            payload.push((code % 256) as u8);
            proof {
                reveal_with_fuel(be_bytes, 3);
                assert(payload@ =~= be_bytes(code as nat, 2));
            }
            if let Some(description) = reason.description {
                payload.extend_from_slice(description.as_str().as_bytes());
                assert(payload@ =~= be_bytes(code as nat, 2) + encode_utf8(description@));
            }
        }
        assert(payload@ =~= close_payload(reason_view(reason)));
        payload
    }

    /// The reason in the payload of a close frame, whose description reads `text`. A payload of
    /// fewer than two bytes gives none, and one of two bytes gives no description.
    pub fn close_reason(payload: &[u8], text: String) -> (reason: Option<CloseReason>)
        ensures
            reason_view(reason) == read_reason(payload@, text@),
    {
        if payload.len() < 2 {
            return None;
        }
        let raw_code: u64 = read_be(payload, 0, 2);
        proof {
            lemma_be_value_bound(payload@.take(2));
            lemma_pow_256();
            assert(payload@.subrange(0, 2) =~= payload@.take(2));
        }
        let code = CloseCode::from(raw_code as u16);
        let description = if payload.len() > 2 {
            Some(text)
        } else {
            None
        };
        Some(CloseReason { code, description })
    }

    /// Reads the payload of a close frame.
    pub fn parse_close_payload(payload: &[u8]) -> (reason: Option<CloseReason>)
        ensures
            reason_view(reason) == read_close(payload@),
    {
        let len = payload.len();
        let text = if len > 2 {
            let bytes = slice_subrange(payload, 2, len);
            assert(bytes@ =~= payload@.skip(2));
            text_lossy(bytes)
        } else {
            String::new()
        };
        Parser::close_reason(payload, text)
    }
}

} // verus!
