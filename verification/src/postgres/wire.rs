//! What the messages of the server are on the wire, byte by byte, and what the driver does in each
//! of its states.
//!
//! A message is a tag, a length of four bytes, most significant first, and a body. The length
//! counts itself and the body. The tags N, A and S (0x4E, 0x41 and 0x53) mark the messages that
//! are not asked for, and the tag Z (0x5A) the message that ends an answer. Messages with any other
//! tag are part of an answer.
use std::io;

use vstd::prelude::*;

use crate::buffer::{be_value, contents};

use super::codec::{
    can_hold_message, declared_length, header_error, is_partial, lemma_scan_from, read_header, scan,
    scan_from, ResponseSender, Scan, Scanned,
};
use super::driver::{
    all_expect, can_take, decode, sent_view, DecodeEnd, Decoded, Delivery, DeliveryView,
    DriverState, GenericDriver, State, StateView, Step, WaitState, WriteState,
};
use super::laws::{
    bytes_for, completed, finished, joined, lemma_decode_answers, lemma_incomplete_keeps_queue,
    lemma_scan_shifted, lemma_stopped_answers, queue_after,
};

verus! {

/// The value of four bytes, most significant first.
pub proof fn lemma_be_value_4(bytes: Seq<u8>)
    requires
        bytes.len() == 4,
    ensures
        be_value(bytes) == bytes[0] * 0x100_0000 + bytes[1] * 0x1_0000 + bytes[2] * 0x100
            + bytes[3],
{
    reveal_with_fuel(be_value, 5);
}

/// The header of a message is read for what its five bytes say. A length below four, or one whose
/// first bit is set, is an error. Fewer than five bytes are no header.
pub proof fn law_header_is_read_byte_by_byte(tag: u8, l: Seq<u8>, tail: Seq<u8>, short: Seq<u8>)
    requires
        l.len() == 4,
        short.len() < 5,
    ensures
        ({
            let src = seq![tag] + l + tail;
            let n = l[0] * 0x100_0000 + l[1] * 0x1_0000 + l[2] * 0x100 + l[3];
            &&& declared_length(src) == n
            &&& is_partial(src) <==> n >= 4 && src.len() < n + 1
            &&& can_hold_message(src) <==> (n >= 4 && src.len() < n + 1 ==> n + 1 <= isize::MAX)
            &&& n < 4 || n >= 0x8000_0000 ==> read_header(src) == Err::<
                Option<(u8, nat)>,
                io::Error,
            >(header_error(seq![tag] + l))
            &&& 4 <= n < 0x8000_0000 ==> read_header(src) == Ok::<Option<(u8, nat)>, io::Error>(
                Some((tag, n as nat)),
            )
        }),
        is_partial(short),
        can_hold_message(short),
        read_header(short) == Ok::<Option<(u8, nat)>, io::Error>(None),
{
    let src = seq![tag] + l + tail;
    assert(src.subrange(1, 5) =~= l);
    assert(src.take(5) =~= seq![tag] + l);
    lemma_be_value_4(l);
}

/// A message that has not arrived whole is left for later, and nothing happens to the requests.
pub proof fn law_partial_message_is_left(
    tag: u8,
    l: Seq<u8>,
    part: Seq<u8>,
    short: Seq<u8>,
    res: Seq<ResponseSender>,
)
    requires
        l.len() == 4,
        4 <= l[0] * 0x100_0000 + l[1] * 0x1_0000 + l[2] * 0x100 + l[3] < 0x8000_0000,
        4 + part.len() < l[0] * 0x100_0000 + l[1] * 0x1_0000 + l[2] * 0x100 + l[3],
        short.len() < 5,
    ensures
        ({
            let src = seq![tag] + l + part;
            &&& scan(src) is More
            &&& decode(src, res) == (Decoded {
                rest: src,
                res,
                sent: Seq::empty(),
                end: DecodeEnd::More,
            })
        }),
        scan(short) is More,
        decode(short, res) == (Decoded {
            rest: short,
            res,
            sent: Seq::empty(),
            end: DecodeEnd::More,
        }),
{
    let src = seq![tag] + l + part;
    law_header_is_read_byte_by_byte(tag, l, part, short);
    assert(src.skip(0) =~= src);
    assert(short.skip(0) =~= short);
}

/// A malformed header at the front is an error, and nothing is taken.
pub proof fn law_malformed_header_is_an_error(
    tag: u8,
    l: Seq<u8>,
    tail: Seq<u8>,
    res: Seq<ResponseSender>,
)
    requires
        l.len() == 4,
        ({
            let n = l[0] * 0x100_0000 + l[1] * 0x1_0000 + l[2] * 0x100 + l[3];
            n < 4 || n >= 0x8000_0000
        }),
    ensures
        ({
            let src = seq![tag] + l + tail;
            let e = header_error(seq![tag] + l);
            &&& scan(src) == Scan::Malformed(e)
            &&& decode(src, res) == (Decoded {
                rest: src,
                res,
                sent: Seq::empty(),
                end: DecodeEnd::Malformed(e),
            })
        }),
{
    let src = seq![tag] + l + tail;
    law_header_is_read_byte_by_byte(tag, l, tail, Seq::empty());
    assert(src.skip(0) =~= src);
}

/// A whole message with the tag N, A or S comes out alone, as it is, and nothing happens to the
/// requests.
pub proof fn law_unasked_message_comes_out(
    tag: u8,
    l: Seq<u8>,
    body: Seq<u8>,
    rest: Seq<u8>,
    res: Seq<ResponseSender>,
)
    requires
        l.len() == 4,
        4 + body.len() == l[0] * 0x100_0000 + l[1] * 0x1_0000 + l[2] * 0x100 + l[3],
        4 + body.len() < 0x8000_0000,
        tag == 0x4E || tag == 0x41 || tag == 0x53,
    ensures
        ({
            let message = seq![tag] + l + body;
            &&& scan(message + rest) == (Scan::Unasked { len: message.len() })
            &&& decode(message + rest, res) == (Decoded {
                rest,
                res,
                sent: Seq::empty(),
                end: DecodeEnd::Unasked(message),
            })
        }),
{
    let message = seq![tag] + l + body;
    let src = message + rest;
    law_header_is_read_byte_by_byte(tag, l, body + rest, Seq::empty());
    assert(src =~= seq![tag] + l + (body + rest));
    assert(src.skip(0) =~= src);
    assert(src.skip(message.len() as int) =~= rest);
    assert(src.take(message.len() as int) =~= message);
}

/// A whole message with the tag Z ends an answer: it goes to the oldest request, which expects one
/// answer less, and waits no longer if that was the last. What is behind it goes on with the
/// requests that then wait. It comes out where no request expects an answer.
pub proof fn law_end_of_an_answer_counts(
    l: Seq<u8>,
    body: Seq<u8>,
    rest: Seq<u8>,
    res: Seq<ResponseSender>,
)
    requires
        l.len() == 4,
        4 + body.len() == l[0] * 0x100_0000 + l[1] * 0x1_0000 + l[2] * 0x100 + l[3],
        4 + body.len() < 0x8000_0000,
    ensures
        ({
            let message = seq![0x5Au8] + l + body;
            let decoded = decode(message + rest, res);
            &&& scan(message + rest) == (Scan::Answers { len: message.len(), complete: true })
            &&& res.len() == 0 || res[0].msg_count == 0 ==> decoded == (Decoded {
                rest,
                res,
                sent: Seq::empty(),
                end: DecodeEnd::OutOfBound(message),
            })
            &&& res.len() > 0 && res[0].msg_count > 0 ==> {
                let next = decode(
                    rest,
                    if res[0].msg_count == 1 {
                        res.skip(1)
                    } else {
                        res.update(
                            0,
                            ResponseSender {
                                id: res[0].id,
                                msg_count: (res[0].msg_count - 1) as usize,
                            },
                        )
                    },
                );
                &&& decoded.sent == seq![
                    (DeliveryView {
                        id: res[0].id,
                        bytes: message,
                        complete: true,
                        finish: res[0].msg_count == 1,
                    }),
                ] + next.sent
                &&& decoded.rest == next.rest
                &&& decoded.res == next.res
                &&& decoded.end == next.end
            }
        }),
{
    let message = seq![0x5Au8] + l + body;
    let src = message + rest;
    law_header_is_read_byte_by_byte(0x5A, l, body + rest, Seq::empty());
    assert(src =~= seq![0x5Au8] + l + (body + rest));
    assert(src.skip(0) =~= src);
    assert(src.skip(message.len() as int) =~= rest);
    assert(src.take(message.len() as int) =~= message);
    if res.len() > 0 && res[0].msg_count > 0 {
        lemma_decode_answers(src, res, message.len(), true);
    }
}

/// A whole message with any other tag, an error of the server as well as a row, is part of an
/// answer, and never comes out as one that was not asked for. It goes to the oldest request, in
/// front of what is behind it, and changes nothing else: the same requests wait afterwards, the
/// same bytes are left, and decoding ends alike. Only where a malformed header ends the answers
/// behind it is it left with them. Where no request waits it comes out as out of bound.
pub proof fn law_answer_goes_to_the_oldest_request(
    tag: u8,
    l: Seq<u8>,
    body: Seq<u8>,
    rest: Seq<u8>,
    res: Seq<ResponseSender>,
)
    requires
        l.len() == 4,
        4 + body.len() == l[0] * 0x100_0000 + l[1] * 0x1_0000 + l[2] * 0x100 + l[3],
        4 + body.len() < 0x8000_0000,
        tag != 0x4E && tag != 0x41 && tag != 0x53 && tag != 0x5A,
        all_expect(res),
    ensures
        ({
            let message = seq![tag] + l + body;
            let decoded = decode(message + rest, res);
            let later = decode(rest, res);
            &&& scan(message + rest) == match scan(rest) {
                Scan::Malformed(e) => Scan::Malformed(e),
                Scan::Answers { len, complete } => Scan::Answers {
                    len: message.len() + len,
                    complete,
                },
                _ => Scan::Answers { len: message.len(), complete: false },
            }
            &&& scan(rest) matches Scan::Malformed(e) ==> decoded == (Decoded {
                rest: message + rest,
                res,
                sent: Seq::empty(),
                end: DecodeEnd::Malformed(e),
            })
            &&& !(scan(rest) is Malformed) && res.len() > 0 ==> {
                &&& decoded.sent.len() > 0
                &&& decoded.sent[0].id == res[0].id
                &&& decoded.sent[0].bytes.take(message.len() as int) == message
                &&& joined(decoded.sent) == message + joined(later.sent)
                &&& bytes_for(decoded.sent, 0) == message + bytes_for(later.sent, 0)
                &&& finished(decoded.sent) == finished(later.sent)
                &&& completed(decoded.sent, 0) == completed(later.sent, 0)
                &&& decoded.res == later.res
                &&& decoded.rest == later.rest
                &&& decoded.end == later.end
            }
            &&& !(scan(rest) is Malformed) && res.len() == 0 ==> {
                &&& decoded.sent.len() == 0
                &&& decoded.res.len() == 0
                &&& decoded.end matches DecodeEnd::OutOfBound(answers)
                &&& answers.len() >= message.len()
                &&& answers.take(message.len() as int) == message
                &&& answers + decoded.rest == message + rest
            }
        }),
{
    let message = seq![tag] + l + body;
    let src = message + rest;
    let by = message.len();
    law_header_is_read_byte_by_byte(tag, l, body + rest, Seq::empty());
    assert(src =~= seq![tag] + l + (body + rest));
    assert(src.skip(0) =~= src);
    assert(src.skip(by as int) =~= rest);
    assert(src.take(by as int) =~= message);
    assert(scan(src) == scan_from(src, by));
    lemma_scan_shifted(src, by, 0);
    lemma_scan_from(rest, 0);
    let decoded = decode(src, res);
    let later = decode(rest, res);
    match scan(rest) {
        Scan::Malformed(_) => {},
        Scan::Answers { len, complete } => {
            assert(src.skip((by + len) as int) =~= rest.skip(len as int));
            assert(src.take((by + len) as int) =~= message + rest.take(len as int));
            assert(src.take((by + len) as int).take(by as int) =~= message);
            if res.len() > 0 {
                assert(res[0].msg_count > 0);
                lemma_decode_answers(src, res, by + len, complete);
                lemma_decode_answers(rest, res, len, complete);
                let first = decoded.sent[0].bytes;
                let tail = joined(later.sent.drop_first());
                assert(first + tail =~= message + (later.sent[0].bytes + tail));
                let at: int = if decoded.sent[0].finish {
                    -1
                } else {
                    0
                };
                let for_it = bytes_for(later.sent.drop_first(), at);
                assert(first + for_it =~= message + (later.sent[0].bytes + for_it));
            } else {
                assert(src.take((by + len) as int) + src.skip((by + len) as int) =~= src);
            }
        },
        _ => {
            if res.len() > 0 {
                assert(res[0].msg_count > 0);
                lemma_decode_answers(src, res, by, false);
                lemma_incomplete_keeps_queue(res);
                assert(message.take(by as int) =~= message);
                assert(decoded.sent.drop_first() =~= later.sent);
            } else {
                assert(message.take(by as int) =~= message);
            }
        },
    }
}

/// Whether `bytes` are whole messages none of which has the tag N, A or S. A message with the tag Z
/// is there if and only if `complete`, and is the last.
pub open spec fn are_answers(bytes: Seq<u8>, complete: bool) -> bool
    decreases bytes.len(),
{
    if bytes.len() == 0 {
        !complete
    } else {
        let n = bytes[1] * 0x100_0000 + bytes[2] * 0x1_0000 + bytes[3] * 0x100 + bytes[4];
        &&& bytes.len() >= 5
        &&& 4 <= n < 0x8000_0000
        &&& bytes.len() >= n + 1
        &&& bytes[0] != 0x4E && bytes[0] != 0x41 && bytes[0] != 0x53
        &&& if bytes[0] == 0x5A {
            complete && bytes.len() == n + 1
        } else {
            are_answers(bytes.skip(n + 1), complete)
        }
    }
}

proof fn lemma_scanned_are_answers(src: Seq<u8>, start: nat)
    requires
        start <= src.len(),
    ensures
        scan_from(src, start) matches Scan::Answers { len, complete } ==> {
            &&& start <= len <= src.len()
            &&& are_answers(src.subrange(start as int, len as int), complete)
        },
        scan_from(src, start) matches Scan::Unasked { len } ==> {
            &&& start == 0
            &&& 5 <= len <= src.len()
            &&& src[0] == 0x4E || src[0] == 0x41 || src[0] == 0x53
            &&& len == 1 + src[1] * 0x100_0000 + src[2] * 0x1_0000 + src[3] * 0x100 + src[4]
        },
    decreases src.len() - start,
{
    lemma_scan_from(src, start);
    let here = src.skip(start as int);
    if here.len() >= 5 {
        let l = here.subrange(1, 5);
        assert(here =~= seq![here[0]] + l + here.skip(5));
        law_header_is_read_byte_by_byte(here[0], l, here.skip(5), Seq::empty());
        if let Ok(Some((tag, n))) = read_header(here) {
            let end = start + n + 1;
            if end <= src.len() {
                if tag == 0x5A {
                    let bytes = src.subrange(start as int, end as int);
                    assert(bytes[0] == here[0] && bytes[1] == l[0] && bytes[2] == l[1] && bytes[3]
                        == l[2] && bytes[4] == l[3]);
                } else if tag != 0x4E && tag != 0x41 && tag != 0x53 {
                    lemma_scanned_are_answers(src, end);
                    if let Scan::Answers { len, complete } = scan_from(src, end) {
                        let bytes = src.subrange(start as int, len as int);
                        assert(bytes[0] == here[0] && bytes[1] == l[0] && bytes[2] == l[1]
                            && bytes[3] == l[2] && bytes[4] == l[3]);
                        assert(bytes.skip((n + 1) as int) =~= src.subrange(end as int, len as int));
                    }
                }
            }
        }
    }
}

/// Every delivery is made of whole messages none of which has the tag N, A or S. It is complete if
/// and only if it ends with a message with the tag Z, and holds no other such message. Only the
/// last delivery can be incomplete. A message that comes out as not asked for is one whole message
/// with the tag N, A or S.
pub proof fn law_messages_are_told_apart_by_their_tags(src: Seq<u8>, res: Seq<ResponseSender>)
    ensures
        forall|i: int|
            0 <= i < decode(src, res).sent.len() ==> {
                let delivery = #[trigger] decode(src, res).sent[i];
                &&& delivery.bytes.len() > 0
                &&& are_answers(delivery.bytes, delivery.complete)
                &&& !delivery.complete ==> i == decode(src, res).sent.len() - 1
            },
        decode(src, res).end matches DecodeEnd::Unasked(m) ==> {
            &&& m.len() >= 5
            &&& m[0] == 0x4E || m[0] == 0x41 || m[0] == 0x53
            &&& m.len() == 1 + m[1] * 0x100_0000 + m[2] * 0x1_0000 + m[3] * 0x100 + m[4]
        },
        decode(src, res).end matches DecodeEnd::OutOfBound(answers) ==> {
            &&& answers.len() > 0
            &&& are_answers(answers, true) || are_answers(answers, false)
        },
    decreases src.len(),
{
    lemma_scan_from(src, 0);
    lemma_scanned_are_answers(src, 0);
    match scan(src) {
        Scan::Answers { len, complete } => {
            let bytes = src.take(len as int);
            let tail = src.skip(len as int);
            assert(bytes =~= src.subrange(0, len as int));
            assert(are_answers(bytes, complete));
            if can_take(res, complete) {
                lemma_decode_answers(src, res, len, complete);
                let queue = queue_after(res, complete);
                let sent = decode(src, res).sent;
                let later = decode(tail, queue).sent;
                law_messages_are_told_apart_by_their_tags(tail, queue);
                if !complete {
                    lemma_stopped_answers(src, 0);
                    assert(later.len() == 0);
                }
                assert forall|i: int| 0 <= i < decode(src, res).sent.len() implies {
                    let delivery = #[trigger] decode(src, res).sent[i];
                    &&& delivery.bytes.len() > 0
                    &&& are_answers(delivery.bytes, delivery.complete)
                    &&& !delivery.complete ==> i == decode(src, res).sent.len() - 1
                } by {
                    assert(sent.len() == later.len() + 1);
                    if i > 0 {
                        assert(sent.drop_first()[i - 1] == sent[i]);
                        assert(later[i - 1] == sent[i]);
                    }
                }
            }
        },
        Scan::Unasked { len } => {
            let m = src.take(len as int);
            assert(m[0] == src[0] && m[1] == src[1] && m[2] == src[2] && m[3] == src[3] && m[4]
                == src[4]);
        },
        _ => {},
    }
}

/// The driver writes as long as it is not waiting. A running driver always waits for the shared
/// state and for the connection, whatever the state holds, so that a request is taken up at once. A
/// closing driver shuts down when it has nothing to write and no request waits, and waits for the
/// connection otherwise.
pub proof fn law_what_the_driver_does_next(driver: GenericDriver, state: StateView)
    ensures
        driver.wants_write() <==> driver.write_state != WriteState::Waiting,
        driver.driver_state is Running ==> driver.step(state) == (Step::Select {
            writable: driver.write_state != WriteState::Waiting,
        }),
        driver.driver_state is Closing && (driver.write_state != WriteState::Waiting
            || state.res.len() > 0) ==> driver.step(state) == (Step::Ready {
            writable: driver.write_state != WriteState::Waiting,
        }),
        driver.driver_state is Closing && driver.write_state == WriteState::Waiting
            && state.res.len() == 0 ==> driver.step(state) == Step::Shutdown,
{
}

/// A request that is made while others wait is taken up at once: a running driver is waiting for
/// the shared state, and the shared state asks it to write.
pub proof fn law_request_is_taken_up_at_once(
    driver: GenericDriver,
    state: StateView,
    bytes: Seq<u8>,
    waits: Seq<ResponseSender>,
)
    requires
        driver.driver_state is Running,
        bytes.len() > 0,
    ensures
        driver.step(state) is Select,
        state.sent(state.buf + bytes, true, waits).wait() == Some(WaitState::WantWrite),
        driver.after_wait(WaitState::WantWrite).write_state == WriteState::WantWrite,
{
}

/// What each event makes of the driver: which of its two parts changes, and to what.
pub proof fn law_what_becomes_of_the_driver(
    driver: GenericDriver,
    left: Seq<u8>,
    e: io::Error,
    readable: bool,
    writable: bool,
)
    ensures
        driver.after_wait(WaitState::WantWrite).write_state == WriteState::WantWrite,
        driver.after_wait(WaitState::WantWrite).driver_state == driver.driver_state,
        driver.after_wait(WaitState::WantClose).write_state == driver.write_state,
        driver.after_wait(WaitState::WantClose).driver_state == DriverState::Closing(None),
        driver.after_write(left).driver_state == driver.driver_state,
        left.len() == 0 ==> driver.after_write(left).write_state == WriteState::WantFlush,
        left.len() > 0 ==> driver.after_write(left).write_state == driver.write_state,
        driver.after_flush().write_state == WriteState::Waiting,
        driver.after_flush().driver_state == driver.driver_state,
        driver.after_write_err(e).write_state == WriteState::Waiting,
        driver.after_write_err(e).driver_state == DriverState::Closing(Some(e)),
        ({
            let action = driver.ready_action(readable, writable);
            let write = writable && driver.write_state != WriteState::Waiting;
            &&& action is ReadThenWrite <==> readable && write
            &&& action is Read <==> readable && !write
            &&& action is Write <==> !readable && write
            &&& action is Nothing <==> !readable && !write
        }),
{
}

/// What each event makes of the shared state: which of its three parts change, and to what.
pub proof fn law_what_becomes_of_the_state(
    state: StateView,
    bytes: Seq<u8>,
    waits: Seq<ResponseSender>,
    n: int,
    src: Seq<u8>,
)
    requires
        0 <= n <= state.buf.len(),
    ensures
        state.sent(bytes, true, waits).buf == bytes,
        state.sent(bytes, true, waits).res == state.res + waits,
        state.sent(bytes, true, waits).closed == state.closed,
        state.sent(bytes, false, waits).res == state.res,
        state.sent(bytes, false, waits).closed == state.closed,
        bytes.len() >= state.buf.len() ==> state.sent(bytes, false, waits).buf == bytes.take(
            state.buf.len() as int,
        ),
        bytes.len() < state.buf.len() ==> state.sent(bytes, false, waits).buf == bytes,
        state.appended(bytes).buf == state.buf + bytes,
        state.appended(bytes).res == state.res,
        state.appended(bytes).closed == state.closed,
        state.buf.take(n) + state.written(n).buf == state.buf,
        state.written(n).buf.len() == state.buf.len() - n,
        state.written(n).res == state.res,
        state.written(n).closed == state.closed,
        state.shut().buf == state.buf,
        state.shut().res == state.res,
        state.shut().closed,
        state.after_write_err().buf.len() == 0,
        state.after_write_err().res == state.res,
        state.after_write_err().closed,
        state.answered(src).buf == state.buf,
        state.answered(src).res == decode(src, state.res).res,
        state.answered(src).closed == state.closed,
{
    assert(state.buf.take(n) + state.written(n).buf =~= state.buf);
}

/// A request notes one completed answer less if it gets one, and stays the same request.
pub proof fn law_request_counts_its_answers(sender: ResponseSender)
    ensures
        sender.answered(false) == sender,
        sender.answered(true).id == sender.id,
        sender.msg_count > 0 ==> sender.answered(true).msg_count == sender.msg_count - 1,
{
}

/// What is said of the shared state, of deliveries and of what was scanned shows all that is in
/// them.
pub proof fn law_views_show_everything(
    state: State,
    delivery: Delivery,
    sent: Seq<Delivery>,
    len: usize,
    complete: bool,
    e: io::Error,
)
    ensures
        state@.closed == state.closed,
        state@.buf == contents(state.buf),
        state@.res == state.res@,
        delivery@.id == delivery.id,
        delivery@.bytes == contents(delivery.buf),
        delivery@.complete == delivery.complete,
        delivery@.finish <==> delivery.state is Finish,
        sent_view(sent).len() == sent.len(),
        forall|i: int| 0 <= i < sent.len() ==> #[trigger] sent_view(sent)[i] == sent[i]@,
        Scanned::More@ == Scan::More,
        (Scanned::Answers { len, complete })@ == (Scan::Answers { len: len as nat, complete }),
        (Scanned::Unasked { len })@ == (Scan::Unasked { len: len as nat }),
        Scanned::Malformed(e)@ == Scan::Malformed(e),
{
}

} // verus!
