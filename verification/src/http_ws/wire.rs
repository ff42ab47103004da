//! What frames are on the wire, byte by byte.
use bytes::Bytes;
use vstd::prelude::*;
use vstd::std_specs::convert::FromSpec;
use vstd::utf8::{decode_utf8, encode_utf8, valid_utf8};

use crate::buffer::{
    be_bytes, be_value, frozen, lemma_be_bytes_len, lemma_be_bytes_read_back, lemma_be_value_bound,
    lemma_pow_256,
};

use super::error::ProtocolError;
use super::frame::{
    close_payload, declared_length, frame_bytes, frame_len, frame_view, head_bytes, head_view,
    key_view, lemma_frame_len, length_width, read_close, read_frame, read_head, read_reason,
    reason_view, replaced_text, FrameHead, FrameView,
};
use super::mask::masked;
use super::proto::{CloseCode, CloseReason, OpCode};

verus! {

/// The value of two bytes, most significant first.
pub proof fn lemma_be_value_2(bytes: Seq<u8>)
    requires
        bytes.len() == 2,
    ensures
        be_value(bytes) == bytes[0] * 0x100 + bytes[1],
{
    reveal_with_fuel(be_value, 3);
}

/// The value of eight bytes, most significant first.
pub proof fn lemma_be_value_8(bytes: Seq<u8>)
    requires
        bytes.len() == 8,
    ensures
        be_value(bytes) == bytes[0] * 0x100_0000_0000_0000 + bytes[1] * 0x1_0000_0000_0000
            + bytes[2] * 0x100_0000_0000 + bytes[3] * 0x1_0000_0000 + bytes[4] * 0x100_0000
            + bytes[5] * 0x1_0000 + bytes[6] * 0x100 + bytes[7],
{
    reveal_with_fuel(be_value, 9);
}

/// The numbers of the opcodes, as they are written and as they are read. Every other number is
/// read as a bad opcode, and a bad opcode is written as a close.
pub proof fn law_opcode_numbers(byte: u8)
    ensures
        OpCode::Continue.byte() == 0,
        OpCode::Text.byte() == 1,
        OpCode::Binary.byte() == 2,
        OpCode::Close.byte() == 8,
        OpCode::Ping.byte() == 9,
        OpCode::Pong.byte() == 10,
        OpCode::Bad.byte() == 8,
        OpCode::of_byte(byte) is Continue <==> byte == 0,
        OpCode::of_byte(byte) is Text <==> byte == 1,
        OpCode::of_byte(byte) is Binary <==> byte == 2,
        OpCode::of_byte(byte) is Close <==> byte == 8,
        OpCode::of_byte(byte) is Ping <==> byte == 9,
        OpCode::of_byte(byte) is Pong <==> byte == 10,
{
}

/// What `From` gives for opcodes and their numbers are the numbers of the opcodes.
pub proof fn law_opcodes_convert_by_number(op: OpCode, byte: u8)
    ensures
        <u8 as FromSpec<OpCode>>::obeys_from_spec(),
        <OpCode as FromSpec<u8>>::obeys_from_spec(),
        <u8 as FromSpec<OpCode>>::from_spec(op) == op.byte(),
        <OpCode as FromSpec<u8>>::from_spec(byte) == OpCode::of_byte(byte),
{
}

/// The numbers of the close codes, as they are written and as they are read. Every other number
/// stands for itself.
pub proof fn law_close_codes_have_their_numbers(number: u16)
    ensures
        CloseCode::Normal.number() == 1000,
        CloseCode::Away.number() == 1001,
        CloseCode::Protocol.number() == 1002,
        CloseCode::Unsupported.number() == 1003,
        CloseCode::Abnormal.number() == 1006,
        CloseCode::Invalid.number() == 1007,
        CloseCode::Policy.number() == 1008,
        CloseCode::Size.number() == 1009,
        CloseCode::Extension.number() == 1010,
        CloseCode::Error.number() == 1011,
        CloseCode::Restart.number() == 1012,
        CloseCode::Again.number() == 1013,
        CloseCode::Tls.number() == 1015,
        CloseCode::Other(number).number() == number,
        CloseCode::of_number(number) is Normal <==> number == 1000,
        CloseCode::of_number(number) is Away <==> number == 1001,
        CloseCode::of_number(number) is Protocol <==> number == 1002,
        CloseCode::of_number(number) is Unsupported <==> number == 1003,
        CloseCode::of_number(number) is Abnormal <==> number == 1006,
        CloseCode::of_number(number) is Invalid <==> number == 1007,
        CloseCode::of_number(number) is Policy <==> number == 1008,
        CloseCode::of_number(number) is Size <==> number == 1009,
        CloseCode::of_number(number) is Extension <==> number == 1010,
        CloseCode::of_number(number) is Error <==> number == 1011,
        CloseCode::of_number(number) is Restart <==> number == 1012,
        CloseCode::of_number(number) is Again <==> number == 1013,
        CloseCode::of_number(number) is Tls <==> number == 1015,
        CloseCode::of_number(number) matches CloseCode::Other(n) ==> n == number,
{
}

/// What `From` gives for close codes and their numbers are the numbers of the close codes, and a
/// close reason is made of the code and the description it is made from.
pub proof fn law_close_codes_convert_by_number(code: CloseCode, number: u16, text: String)
    ensures
        <u16 as FromSpec<CloseCode>>::obeys_from_spec(),
        <CloseCode as FromSpec<u16>>::obeys_from_spec(),
        <CloseReason as FromSpec<CloseCode>>::obeys_from_spec(),
        <CloseReason as FromSpec<(CloseCode, String)>>::obeys_from_spec(),
        <u16 as FromSpec<CloseCode>>::from_spec(code) == code.number(),
        <CloseCode as FromSpec<u16>>::from_spec(number) == CloseCode::of_number(number),
        <CloseReason as FromSpec<CloseCode>>::from_spec(code).code == code,
        <CloseReason as FromSpec<CloseCode>>::from_spec(code).description is None,
        <CloseReason as FromSpec<(CloseCode, String)>>::from_spec((code, text)).code == code,
        <CloseReason as FromSpec<(CloseCode, String)>>::from_spec((code, text)).description
            == Some(text),
{
}

/// Masking leaves the length, and combines every byte, the first as the last, by exclusive or with
/// the byte of the key whose turn it is.
pub proof fn law_every_byte_is_masked(payload: Seq<u8>, key: Seq<u8>)
    ensures
        masked(payload, key).len() == payload.len(),
        forall|i: int|
            0 <= i < payload.len() ==> #[trigger] masked(payload, key)[i] == payload[i] ^ key[i % 4],
{
}

/// What is said of the results of the reader and the writer shows all that is in them.
pub proof fn law_views_show_everything(
    idx: usize,
    fin: bool,
    op: OpCode,
    length: usize,
    key: [u8; 4],
    data: Bytes,
    error: ProtocolError,
    code: CloseCode,
    text: String,
)
    ensures
        key_view(Some(key)) == Some(key@),
        key_view(None) is None,
        head_view(Err(error)) == Err::<Option<FrameHead>, ProtocolError>(error),
        head_view(Ok(None)) == Ok::<Option<FrameHead>, ProtocolError>(None),
        head_view(Ok(Some((idx, fin, op, length, Some(key))))) == Ok::<
            Option<FrameHead>,
            ProtocolError,
        >(
            Some(
                (FrameHead {
                    size: idx as nat,
                    finished: fin,
                    opcode: op,
                    length: length as nat,
                    mask: Some(key@),
                }),
            ),
        ),
        head_view(Ok(Some((idx, fin, op, length, None)))) == Ok::<Option<FrameHead>, ProtocolError>(
            Some(
                (FrameHead {
                    size: idx as nat,
                    finished: fin,
                    opcode: op,
                    length: length as nat,
                    mask: None,
                }),
            ),
        ),
        frame_view(Err(error)) == Err::<Option<FrameView>, ProtocolError>(error),
        frame_view(Ok(None)) == Ok::<Option<FrameView>, ProtocolError>(None),
        frame_view(Ok(Some((fin, op, Some(data))))) == Ok::<Option<FrameView>, ProtocolError>(
            Some((fin, op, Some(frozen(data)))),
        ),
        frame_view(Ok(Some((fin, op, None)))) == Ok::<Option<FrameView>, ProtocolError>(
            Some((fin, op, None)),
        ),
        reason_view(None) is None,
        reason_view(Some((CloseReason { code, description: Some(text) }))) == Some(
            (code, Some(text@)),
        ),
        reason_view(Some((CloseReason { code, description: None }))) == Some(
            (code, None::<Seq<char>>),
        ),
{
}

/// The head of a frame as bytes, with anything behind it.
proof fn lemma_wire_head(one: u8, two: u8, ext: Seq<u8>, tail: Seq<u8>, length: int)
    requires
        ({
            ||| two % 128 < 126 && ext.len() == 0 && length == two % 128
            ||| two % 128 == 126 && ext.len() == 2 && length == ext[0] * 0x100 + ext[1]
            ||| two % 128 == 127 && ext.len() == 8 && length == ext[0] * 0x100_0000_0000_0000
                + ext[1] * 0x1_0000_0000_0000 + ext[2] * 0x100_0000_0000 + ext[3] * 0x1_0000_0000
                + ext[4] * 0x100_0000 + ext[5] * 0x1_0000 + ext[6] * 0x100 + ext[7]
        }),
    ensures
        ({
            let src = seq![one, two] + ext + tail;
            &&& src[0] == one
            &&& src[1] == two
            &&& length_width(two) == ext.len()
            &&& declared_length(src) == length
        }),
{
    let src = seq![one, two] + ext + tail;
    if ext.len() == 2 {
        assert(src.subrange(2, 4) =~= ext);
        lemma_be_value_2(ext);
    } else if ext.len() == 8 {
        assert(src.subrange(2, 10) =~= ext);
        lemma_be_value_8(ext);
    }
}

/// A frame on the wire is read for what its bytes say. The first byte holds the flag and the
/// opcode, the second whether there is a key and, with the two or eight bytes behind it if it asks
/// for them, the length. Each byte of the payload comes out combined by exclusive or with its byte
/// of the key, or as it is where there is no key. Of a control frame that is longer than 125 bytes
/// a ping or pong is refused, and a close comes out without its payload. What is behind the frame
/// is left.
pub proof fn law_frame_on_the_wire(
    one: u8,
    two: u8,
    ext: Seq<u8>,
    key: Seq<u8>,
    data: Seq<u8>,
    rest: Seq<u8>,
    max_size: usize,
)
    requires
        ({
            ||| two % 128 < 126 && ext.len() == 0 && data.len() == two % 128
            ||| two % 128 == 126 && ext.len() == 2 && data.len() == ext[0] * 0x100 + ext[1]
            ||| two % 128 == 127 && ext.len() == 8 && data.len() == ext[0] * 0x100_0000_0000_0000
                + ext[1] * 0x1_0000_0000_0000 + ext[2] * 0x100_0000_0000 + ext[3] * 0x1_0000_0000
                + ext[4] * 0x100_0000 + ext[5] * 0x1_0000 + ext[6] * 0x100 + ext[7]
        }),
        two >= 128 ==> key.len() == 4,
        two < 128 ==> key.len() == 0,
        one % 16 <= 2 || 8 <= one % 16 <= 10,
        data.len() <= max_size,
    ensures
        ({
            let src = seq![one, two] + ext + key + data + rest;
            let (outcome, left) = read_frame(src, two >= 128, max_size as nat);
            let control = one % 16 >= 8 && data.len() > 125;
            &&& left == rest
            &&& data.len() == 0 ==> (outcome matches Ok(Some((fin, op, None))) && fin == (one >= 128)
                && op == OpCode::of_byte(one % 16))
            &&& control && one % 16 != 8 ==> outcome == Err::<Option<FrameView>, ProtocolError>(
                ProtocolError::InvalidLength(data.len() as usize),
            )
            &&& control && one % 16 == 8 ==> outcome == Ok::<Option<FrameView>, ProtocolError>(
                Some((true, OpCode::Close, None)),
            )
            &&& data.len() > 0 && !control ==> {
                &&& outcome matches Ok(Some((fin, op, Some(payload))))
                &&& fin == (one >= 128)
                &&& op == OpCode::of_byte(one % 16)
                &&& payload.len() == data.len()
                &&& forall|i: int|
                    0 <= i < data.len() ==> #[trigger] payload[i] == if two >= 128 {
                        data[i] ^ key[i % 4]
                    } else {
                        data[i]
                    }
            }
            &&& read_head(src, two >= 128, max_size as nat) == Ok::<
                Option<FrameHead>,
                ProtocolError,
            >(
                Some(
                    (FrameHead {
                        size: 2 + ext.len() + key.len(),
                        finished: one >= 128,
                        opcode: OpCode::of_byte(one % 16),
                        length: data.len(),
                        mask: if two >= 128 {
                            Some(key)
                        } else {
                            None
                        },
                    }),
                ),
            )
        }),
{
    let src = seq![one, two] + ext + key + data + rest;
    let tail = key + data + rest;
    assert(src =~= seq![one, two] + ext + tail);
    lemma_wire_head(one, two, ext, tail, data.len() as int);
    let key_at = (2 + ext.len()) as int;
    let start = key_at + key.len();
    let end = start + data.len();
    assert(src.subrange(key_at, start) =~= key);
    assert(src.subrange(start, end) =~= data);
    assert(src.skip(end) =~= rest);
}

/// As long as a frame on the wire has not arrived whole, it is neither taken nor refused. What
/// stands before its payload is read as soon as it is there.
pub proof fn law_unfinished_frame_waits(
    one: u8,
    two: u8,
    ext: Seq<u8>,
    key: Seq<u8>,
    data: Seq<u8>,
    arrived: int,
    max_size: usize,
)
    requires
        ({
            ||| two % 128 < 126 && ext.len() == 0 && data.len() == two % 128
            ||| two % 128 == 126 && ext.len() == 2 && data.len() == ext[0] * 0x100 + ext[1]
            ||| two % 128 == 127 && ext.len() == 8 && data.len() == ext[0] * 0x100_0000_0000_0000
                + ext[1] * 0x1_0000_0000_0000 + ext[2] * 0x100_0000_0000 + ext[3] * 0x1_0000_0000
                + ext[4] * 0x100_0000 + ext[5] * 0x1_0000 + ext[6] * 0x100 + ext[7]
        }),
        two >= 128 ==> key.len() == 4,
        two < 128 ==> key.len() == 0,
        one % 16 <= 2 || 8 <= one % 16 <= 10,
        data.len() <= max_size,
        0 <= arrived < 2 + ext.len() + key.len() + data.len(),
    ensures
        ({
            let src = (seq![one, two] + ext + key + data).take(arrived);
            &&& read_frame(src, two >= 128, max_size as nat) == (
                Ok::<Option<FrameView>, ProtocolError>(None),
                src,
            )
            &&& arrived < 2 + ext.len() + key.len() ==> read_head(src, two >= 128, max_size as nat)
                == Ok::<Option<FrameHead>, ProtocolError>(None)
            &&& arrived >= 2 + ext.len() + key.len() ==> read_head(
                src,
                two >= 128,
                max_size as nat,
            ) == Ok::<Option<FrameHead>, ProtocolError>(
                Some(
                    (FrameHead {
                        size: 2 + ext.len() + key.len(),
                        finished: one >= 128,
                        opcode: OpCode::of_byte(one % 16),
                        length: data.len(),
                        mask: if two >= 128 {
                            Some(key)
                        } else {
                            None
                        },
                    }),
                ),
            )
        }),
{
    let whole = seq![one, two] + ext + key + data;
    let src = whole.take(arrived);
    if arrived >= 2 + ext.len() {
        let tail = (key + data).take(arrived - 2 - ext.len());
        assert(src =~= seq![one, two] + ext + tail);
        lemma_wire_head(one, two, ext, tail, data.len() as int);
        let key_at = (2 + ext.len()) as int;
        if arrived >= key_at + key.len() {
            assert(src.subrange(key_at, key_at + key.len()) =~= key);
        }
    }
}

/// A frame whose bytes declare a length beyond the limit is refused as soon as the length is there,
/// and none of it is taken.
pub proof fn law_declared_length_is_limited(
    one: u8,
    two: u8,
    ext: Seq<u8>,
    tail: Seq<u8>,
    length: int,
    max_size: usize,
)
    requires
        ({
            ||| two % 128 < 126 && ext.len() == 0 && length == two % 128
            ||| two % 128 == 126 && ext.len() == 2 && length == ext[0] * 0x100 + ext[1]
            ||| two % 128 == 127 && ext.len() == 8 && length == ext[0] * 0x100_0000_0000_0000
                + ext[1] * 0x1_0000_0000_0000 + ext[2] * 0x100_0000_0000 + ext[3] * 0x1_0000_0000
                + ext[4] * 0x100_0000 + ext[5] * 0x1_0000 + ext[6] * 0x100 + ext[7]
        }),
        one % 16 <= 2 || 8 <= one % 16 <= 10,
        length > max_size,
    ensures
        ({
            let src = seq![one, two] + ext + tail;
            &&& read_frame(src, two >= 128, max_size as nat) == (
                Err::<Option<FrameView>, ProtocolError>(ProtocolError::Overflow),
                src,
            )
            &&& read_head(src, two >= 128, max_size as nat) == Err::<
                Option<FrameHead>,
                ProtocolError,
            >(ProtocolError::Overflow)
        }),
{
    lemma_wire_head(one, two, ext, tail, length);
}

/// The first two bytes are enough to refuse a frame: a server refuses one without a key, a client
/// one with a key, and both one whose opcode has no meaning. None of it is taken. Fewer bytes are
/// not enough for anything.
pub proof fn law_two_bytes_are_enough_to_refuse(src: Seq<u8>, server: bool, max_size: usize)
    ensures
        src.len() < 2 ==> read_frame(src, server, max_size as nat) == (
            Ok::<Option<FrameView>, ProtocolError>(None),
            src,
        ) && read_head(src, server, max_size as nat) == Ok::<Option<FrameHead>, ProtocolError>(
            None,
        ),
        src.len() >= 2 && server && src[1] < 128 ==> read_frame(src, server, max_size as nat) == (
            Err::<Option<FrameView>, ProtocolError>(ProtocolError::UnmaskedFrame),
            src,
        ) && read_head(src, server, max_size as nat) == Err::<Option<FrameHead>, ProtocolError>(
            ProtocolError::UnmaskedFrame,
        ),
        src.len() >= 2 && !server && src[1] >= 128 ==> read_frame(src, server, max_size as nat) == (
            Err::<Option<FrameView>, ProtocolError>(ProtocolError::MaskedFrame),
            src,
        ) && read_head(src, server, max_size as nat) == Err::<Option<FrameHead>, ProtocolError>(
            ProtocolError::MaskedFrame,
        ),
        src.len() >= 2 && server == (src[1] >= 128) && (3 <= src[0] % 16 <= 7 || src[0] % 16 >= 11)
            ==> read_frame(src, server, max_size as nat) == (
            Err::<Option<FrameView>, ProtocolError>(ProtocolError::InvalidOpcode(src[0] % 16)),
            src,
        ) && read_head(src, server, max_size as nat) == Err::<Option<FrameHead>, ProtocolError>(
            ProtocolError::InvalidOpcode(src[0] % 16),
        ),
{
}

/// A frame is written as its bytes have to stand on the wire: the opcode with the flag, the length
/// with the mark of a key, in one byte, or in two or eight further bytes where it does not fit in
/// fewer, then the key, and then each byte of the payload, combined by exclusive or with its byte
/// of the key where there is one. Nothing is behind it.
pub proof fn law_frame_is_written_byte_by_byte(
    op: OpCode,
    fin: bool,
    key: Option<Seq<u8>>,
    payload: Seq<u8>,
)
    requires
        key matches Some(k) ==> k.len() == 4,
        payload.len() <= u64::MAX,
    ensures
        ({
            let bytes = frame_bytes(op, fin, key, payload);
            let mark: int = if key is Some {
                128
            } else {
                0
            };
            let key_len: int = if key is Some {
                4
            } else {
                0
            };
            let length = payload.len() as int;
            let start = bytes.len() - length;
            &&& frame_len(key is Some, payload.len()) == bytes.len()
            &&& bytes[0] == op.byte() + if fin {
                128int
            } else {
                0int
            }
            &&& length < 126 ==> start == 2 + key_len && bytes[1] == length + mark
            &&& 126 <= length <= 65_535 ==> {
                &&& start == 4 + key_len
                &&& bytes[1] == 126 + mark
                &&& bytes[2] * 0x100 + bytes[3] == length
            }
            &&& length > 65_535 ==> {
                &&& start == 10 + key_len
                &&& bytes[1] == 127 + mark
                &&& bytes[2] * 0x100_0000_0000_0000 + bytes[3] * 0x1_0000_0000_0000 + bytes[4]
                    * 0x100_0000_0000 + bytes[5] * 0x1_0000_0000 + bytes[6] * 0x100_0000 + bytes[7]
                    * 0x1_0000 + bytes[8] * 0x100 + bytes[9] == length
            }
            &&& key matches Some(k) ==> forall|i: int|
                0 <= i < 4 ==> bytes[start - 4 + i] == #[trigger] k[i]
            &&& key matches Some(k) ==> forall|i: int|
                0 <= i < length ==> bytes[start + i] == (#[trigger] payload[i]) ^ k[i % 4]
            &&& key is None ==> forall|i: int|
                0 <= i < length ==> bytes[start + i] == #[trigger] payload[i]
        }),
{
    let length = payload.len();
    let bytes = frame_bytes(op, fin, key, payload);
    let head = head_bytes(op, fin, key is Some, length);
    lemma_frame_len(op, fin, key, payload);
    lemma_be_bytes_len(length, 2);
    lemma_be_bytes_len(length, 8);
    lemma_pow_256();
    if length < 126 {
    } else if length <= 65_535 {
        let ext = be_bytes(length, 2);
        lemma_be_bytes_read_back(length, 2);
        lemma_be_value_2(ext);
        assert(forall|i: int| 0 <= i < 2 ==> bytes[2 + i] == #[trigger] ext[i]);
        assert(bytes[2] == ext[0] && bytes[3] == ext[1]);
    } else {
        let ext = be_bytes(length, 8);
        lemma_be_bytes_read_back(length, 8);
        lemma_be_value_8(ext);
        assert(forall|i: int| 0 <= i < 8 ==> bytes[2 + i] == #[trigger] ext[i]);
        assert(bytes[2] == ext[0] && bytes[3] == ext[1] && bytes[4] == ext[2] && bytes[5] == ext[3]
            && bytes[6] == ext[4] && bytes[7] == ext[5] && bytes[8] == ext[6] && bytes[9]
            == ext[7]);
    }
    let start = bytes.len() - length;
    match key {
        Some(k) => {
            assert(forall|i: int| 0 <= i < 4 ==> bytes[start - 4 + i] == #[trigger] k[i]);
            assert forall|i: int| 0 <= i < length implies bytes[start + i] == (
            #[trigger] payload[i]) ^ k[i % 4] by {
                assert(bytes[start + i] == masked(payload, k)[i]);
            }
        },
        None => {},
    }
}

/// The payload of a close frame is the number of the code in two bytes, most significant first, and
/// the description in UTF-8. Without a reason it is empty.
pub proof fn law_close_payload_is_written_byte_by_byte(code: CloseCode, text: Seq<char>)
    ensures
        close_payload(None).len() == 0,
        close_payload(Some((code, None))).len() == 2,
        close_payload(Some((code, None)))[0] * 0x100 + close_payload(Some((code, None)))[1]
            == code.number(),
        close_payload(Some((code, Some(text))))[0] * 0x100 + close_payload(
            Some((code, Some(text))),
        )[1] == code.number(),
        close_payload(Some((code, Some(text)))).len() == 2 + encode_utf8(text).len(),
        close_payload(Some((code, Some(text)))).skip(2) == encode_utf8(text),
{
    let number = code.number() as nat;
    let bytes = be_bytes(number, 2);
    lemma_be_bytes_len(number, 2);
    lemma_pow_256();
    lemma_be_bytes_read_back(number, 2);
    lemma_be_value_2(bytes);
    let payload = close_payload(Some((code, Some(text))));
    assert(payload[0] == bytes[0] && payload[1] == bytes[1]);
    assert(payload.skip(2) =~= encode_utf8(text));
}

/// The payload of a close frame is read for what its bytes say: the first two are the number of the
/// code, most significant first, and the others the description. Where they are UTF-8 they give
/// the text they encode. Fewer than two bytes give no reason, and two give no description.
pub proof fn law_close_payload_is_read_byte_by_byte(payload: Seq<u8>, text: Seq<char>)
    ensures
        payload.len() < 2 ==> read_close(payload) is None && read_reason(payload, text) is None,
        payload.len() >= 2 ==> {
            let number = (payload[0] * 0x100 + payload[1]) as u16;
            &&& number == payload[0] * 0x100 + payload[1]
            &&& read_close(payload) matches Some((code, _)) && code == CloseCode::of_number(number)
            &&& read_reason(payload, text) matches Some((code, _)) && code == CloseCode::of_number(
                number,
            )
        },
        payload.len() == 2 ==> {
            &&& read_close(payload) matches Some((_, None))
            &&& read_reason(payload, text) matches Some((_, None))
        },
        payload.len() > 2 ==> (read_reason(payload, text) matches Some((_, Some(t))) && t == text),
        payload.len() > 2 && valid_utf8(payload.skip(2)) ==> (read_close(
            payload,
        ) matches Some((_, Some(t))) && t == decode_utf8(payload.skip(2))),
        payload.len() > 2 && !valid_utf8(payload.skip(2)) ==> (read_close(
            payload,
        ) matches Some((_, Some(t))) && t == replaced_text(payload.skip(2))),
{
    if payload.len() >= 2 {
        lemma_be_value_2(payload.take(2));
        lemma_be_value_bound(payload.take(2));
        lemma_pow_256();
    }
}

} // verus!
