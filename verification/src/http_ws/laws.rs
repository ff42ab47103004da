//! What holds of WebSocket frames across reading and writing.
use vstd::prelude::*;
use vstd::utf8::{encode_utf8, encode_utf8_decode_utf8, encode_utf8_valid_utf8};

use crate::buffer::{be_bytes, lemma_be_bytes_len, lemma_be_bytes_read_back, lemma_pow_256};

use super::error::ProtocolError;
use super::frame::{
    close_payload, declared_length, frame_bytes, head_bytes, length_width, read_close, read_frame,
    read_head, FrameView, ReasonView, MAX_CONTROL_PAYLOAD,
};
use super::mask::{law_mask_undoes_itself, masked};
use super::proto::{law_opcode_bytes, CloseCode, OpCode};

verus! {

/// What a reader makes of a frame with opcode `op`, flag `fin` and payload `payload`.
pub open spec fn delivered(op: OpCode, fin: bool, payload: Seq<u8>) -> Result<
    Option<FrameView>,
    ProtocolError,
> {
    let too_long = payload.len() > MAX_CONTROL_PAYLOAD;
    if payload.len() == 0 {
        Ok(Some((fin, op, None)))
    } else if too_long && (op is Ping || op is Pong) {
        Err(ProtocolError::InvalidLength(payload.len() as usize))
    } else if too_long && op is Close {
        Ok(Some((true, OpCode::Close, None)))
    } else {
        Ok(Some((fin, op, Some(payload))))
    }
}

/// Whether `key` can mask a payload.
pub open spec fn is_key(key: Option<Seq<u8>>) -> bool {
    key matches Some(k) ==> k.len() == 4
}

proof fn lemma_head_bytes(op: OpCode, fin: bool, has_key: bool, length: nat, tail: Seq<u8>)
    requires
        length <= u64::MAX,
    ensures
        ({
            let head = head_bytes(op, fin, has_key, length);
            let src = head + tail;
            &&& head.len() == 2 + length_width(src[1])
            &&& src[0] >= 128 <==> fin
            &&& src[0] % 16 == op.byte()
            &&& src[1] >= 128 <==> has_key
            &&& declared_length(src) == length
        }),
{
    let head = head_bytes(op, fin, has_key, length);
    let src = head + tail;
    law_opcode_bytes(op, 0);
    lemma_be_bytes_len(length, 2);
    lemma_be_bytes_len(length, 8);
    lemma_pow_256();
    if length < 126 {
    } else if length <= 65_535 {
        lemma_be_bytes_read_back(length, 2);
        assert(src.subrange(2, 4) =~= be_bytes(length, 2));
    } else {
        lemma_be_bytes_read_back(length, 8);
        assert(src.subrange(2, 10) =~= be_bytes(length, 8));
    }
}

/// A frame that is written is read back by the side it is meant for, whatever follows it: the
/// reader gets the flag, the opcode and the payload, and is left with what follows. A bad opcode
/// is read back as the close it was written as.
pub proof fn law_frame_is_read_back(
    op: OpCode,
    fin: bool,
    key: Option<Seq<u8>>,
    payload: Seq<u8>,
    rest: Seq<u8>,
    max_size: usize,
)
    requires
        is_key(key),
        payload.len() <= max_size,
    ensures
        read_frame(frame_bytes(op, fin, key, payload) + rest, key is Some, max_size as nat) == (
            delivered(OpCode::of_byte(op.byte()), fin, payload),
            rest,
        ),
{
    let frame = frame_bytes(op, fin, key, payload);
    let src = frame + rest;
    let head = head_bytes(op, fin, key is Some, payload.len());
    let body = match key {
        Some(k) => k + masked(payload, k) + rest,
        None => payload + rest,
    };
    assert(src =~= head + body);
    lemma_head_bytes(op, fin, key is Some, payload.len(), body);
    law_opcode_bytes(op, op.byte());
    let start = (head.len() + if key is Some { 4int } else { 0int }) as int;
    let end = start + payload.len();
    assert(src.skip(end) =~= rest);
    match key {
        Some(k) => {
            assert(src.subrange(head.len() as int, start) =~= k);
            assert(src.subrange(start, end) =~= masked(payload, k));
            law_mask_undoes_itself(payload, k);
        },
        None => {
            assert(src.subrange(start, end) =~= payload);
        },
    }
}

/// A frame that has not arrived whole is neither taken nor refused.
pub proof fn law_partial_frame_waits(
    op: OpCode,
    fin: bool,
    key: Option<Seq<u8>>,
    payload: Seq<u8>,
    arrived: int,
    max_size: usize,
)
    requires
        is_key(key),
        payload.len() <= max_size,
        0 <= arrived < frame_bytes(op, fin, key, payload).len(),
    ensures
        read_frame(
            frame_bytes(op, fin, key, payload).take(arrived),
            key is Some,
            max_size as nat,
        ) == (
            Ok::<Option<FrameView>, ProtocolError>(None),
            frame_bytes(op, fin, key, payload).take(arrived),
        ),
{
    let frame = frame_bytes(op, fin, key, payload);
    let src = frame.take(arrived);
    let head = head_bytes(op, fin, key is Some, payload.len());
    let body = match key {
        Some(k) => k + masked(payload, k),
        None => payload,
    };
    assert(frame =~= head + body);
    lemma_head_bytes(op, fin, key is Some, payload.len(), body);
    law_opcode_bytes(op, op.byte());
    if arrived >= 2 {
        assert(src[0] == frame[0] && src[1] == frame[1]);
        let width = length_width(src[1]);
        if arrived >= 2 + width {
            assert(src.subrange(2, (2 + width) as int) =~= frame.subrange(2, (2 + width) as int));
            assert(declared_length(src) == declared_length(frame));
        }
    }
}

/// A frame meant for the other side is refused as soon as its second byte is there, and none of
/// it is taken.
pub proof fn law_wrong_side_is_refused(
    op: OpCode,
    fin: bool,
    key: Option<Seq<u8>>,
    payload: Seq<u8>,
    rest: Seq<u8>,
    max_size: usize,
)
    requires
        is_key(key),
        payload.len() <= u64::MAX,
    ensures
        ({
            let src = frame_bytes(op, fin, key, payload) + rest;
            read_frame(src, key is None, max_size as nat) == (
                Err::<Option<FrameView>, ProtocolError>(
                    if key is Some {
                        ProtocolError::MaskedFrame
                    } else {
                        ProtocolError::UnmaskedFrame
                    },
                ),
                src,
            )
        }),
{
    let frame = frame_bytes(op, fin, key, payload);
    let src = frame + rest;
    let head = head_bytes(op, fin, key is Some, payload.len());
    let body = match key {
        Some(k) => k + masked(payload, k) + rest,
        None => payload + rest,
    };
    assert(src =~= head + body);
    lemma_head_bytes(op, fin, key is Some, payload.len(), body);
}

/// Bytes that arrive later do not change what was read: once a reader has decided, it decides
/// the same with more bytes behind, and is left with these bytes too.
pub proof fn law_later_bytes_change_nothing(
    src: Seq<u8>,
    more: Seq<u8>,
    server: bool,
    max_size: usize,
)
    requires
        read_frame(src, server, max_size as nat).0 != Ok::<Option<FrameView>, ProtocolError>(None),
    ensures
        read_frame(src + more, server, max_size as nat).0 == read_frame(
            src,
            server,
            max_size as nat,
        ).0,
        read_frame(src + more, server, max_size as nat).1 == read_frame(
            src,
            server,
            max_size as nat,
        ).1 + more,
{
    let all = src + more;
    assert(all[0] == src[0] && all[1] == src[1]);
    let key_at = (2 + length_width(src[1])) as int;
    if src.len() >= key_at {
        assert(all.subrange(2, key_at) =~= src.subrange(2, key_at));
        assert(declared_length(all) == declared_length(src));
        if src.len() >= key_at + 4 {
            assert(all.subrange(key_at, key_at + 4) =~= src.subrange(key_at, key_at + 4));
        }
    }
    if let Ok(Some(head)) = read_head(src, server, max_size as nat) {
        let end = (head.size + head.length) as int;
        assert(all.subrange(head.size as int, end) =~= src.subrange(head.size as int, end));
        assert(all.skip(end) =~= src.skip(end) + more);
    }
}

/// What a reader takes, it takes from the front: what it leaves is the end of what it was given.
/// It takes nothing while it waits for more, and at least the two bytes that every frame begins
/// with when it delivers a frame.
pub proof fn law_taken_from_the_front(src: Seq<u8>, server: bool, max_size: usize)
    ensures
        ({
            let (outcome, rest) = read_frame(src, server, max_size as nat);
            &&& rest.len() <= src.len()
            &&& rest == src.skip(src.len() - rest.len())
            &&& outcome matches Ok(None) ==> rest == src
            &&& outcome matches Ok(Some(_)) ==> rest.len() + 2 <= src.len()
            &&& outcome matches Err(e) ==> (rest == src <==> !(e is InvalidLength))
        }),
{
    assert(src.skip(0) =~= src);
    if let Ok(Some(head)) = read_head(src, server, max_size as nat) {
        let end = (head.size + head.length) as int;
        if end <= src.len() {
            assert(src.skip(end).len() == src.len() - end);
        }
    }
}

/// No payload longer than the limit is delivered, and no delivered payload is empty.
pub proof fn law_payload_is_within_limits(src: Seq<u8>, server: bool, max_size: usize)
    ensures
        read_frame(src, server, max_size as nat).0 matches Ok(Some((_, op, Some(payload)))) ==> {
            &&& 0 < payload.len() <= max_size
            &&& op !is Bad
            &&& op.is_control() ==> payload.len() <= MAX_CONTROL_PAYLOAD
        },
{
}

/// A frame that declares a payload longer than the limit is refused before the payload arrives,
/// and none of it is taken.
pub proof fn law_long_frame_is_refused(
    op: OpCode,
    fin: bool,
    has_key: bool,
    length: u64,
    rest: Seq<u8>,
    max_size: usize,
)
    requires
        max_size < length,
    ensures
        ({
            let src = head_bytes(op, fin, has_key, length as nat) + rest;
            read_frame(src, has_key, max_size as nat) == (
                Err::<Option<FrameView>, ProtocolError>(ProtocolError::Overflow),
                src,
            )
        }),
{
    lemma_head_bytes(op, fin, has_key, length as nat, rest);
    law_opcode_bytes(op, op.byte());
}

/// A close reason is read back from the payload written for it. Its code comes back as the code
/// of its number, and an empty description as none.
pub proof fn law_close_reason_is_read_back(code: CloseCode, text: Option<Seq<char>>)
    ensures
        read_close(close_payload(Some((code, text)))) == Some(
            (
                CloseCode::of_number(code.number()),
                if text matches Some(t) && t.len() > 0 {
                    text
                } else {
                    None
                },
            ),
        ),
        read_close(close_payload(None)) == None::<ReasonView>,
{
    let number = code.number() as nat;
    let payload = close_payload(Some((code, text)));
    lemma_be_bytes_len(number, 2);
    lemma_pow_256();
    lemma_be_bytes_read_back(number, 2);
    assert(payload.take(2) =~= be_bytes(number, 2));
    if let Some(t) = text {
        assert(payload.skip(2) =~= encode_utf8(t));
        encode_utf8_valid_utf8(t);
        encode_utf8_decode_utf8(t);
        if t.len() > 0 {
            vstd::utf8::encode_utf8_first_scalar(t);
        }
    }
}

/// A close frame that is written is read back by the side it is meant for, down to the reason,
/// where the reason fits in a control frame.
pub proof fn law_close_frame_is_read_back(
    reason: Option<ReasonView>,
    key: Option<Seq<u8>>,
    rest: Seq<u8>,
    max_size: usize,
)
    requires
        is_key(key),
        close_payload(reason).len() <= max_size,
        close_payload(reason).len() <= MAX_CONTROL_PAYLOAD,
    ensures
        ({
            let frame = frame_bytes(OpCode::Close, true, key, close_payload(reason));
            let (outcome, left) = read_frame(frame + rest, key is Some, max_size as nat);
            &&& left == rest
            &&& reason is None ==> outcome == Ok::<Option<FrameView>, ProtocolError>(
                Some((true, OpCode::Close, None)),
            )
            &&& reason matches Some((code, text)) ==> {
                &&& outcome matches Ok(Some((fin, op, Some(payload))))
                &&& fin
                &&& op is Close
                &&& read_close(payload) == Some(
                    (
                        CloseCode::of_number(code.number()),
                        if text matches Some(t) && t.len() > 0 {
                            text
                        } else {
                            None
                        },
                    ),
                )
            }
        }),
{
    let payload = close_payload(reason);
    law_frame_is_read_back(OpCode::Close, true, key, payload, rest, max_size);
    if let Some((code, text)) = reason {
        law_close_reason_is_read_back(code, text);
        lemma_be_bytes_len(code.number() as nat, 2);
    }
}

} // verus!
