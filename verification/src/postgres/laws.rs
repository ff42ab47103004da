//! What holds of the driver across its operations.
use std::io;

use vstd::prelude::*;

use super::codec::{
    is_async_tag, lemma_scan_from, read_header, scan, scan_from, ResponseSender, Scan,
    READY_FOR_QUERY_TAG,
};
use super::driver::{
    all_expect, can_take, cut_back, decode, DecodeEnd, DeliveryView, GenericDriver,
    ReadyAction, StateView, Step, WaitState,
};

verus! {

/// The bytes of all deliveries, one behind the other.
pub open spec fn joined(sent: Seq<DeliveryView>) -> Seq<u8>
    decreases sent.len(),
{
    if sent.len() == 0 {
        Seq::empty()
    } else {
        sent[0].bytes + joined(sent.drop_first())
    }
}

/// The number of requests that the deliveries finish.
pub open spec fn finished(sent: Seq<DeliveryView>) -> nat
    decreases sent.len(),
{
    if sent.len() == 0 {
        0
    } else {
        finished(sent.drop_first()) + if sent[0].finish {
            1nat
        } else {
            0nat
        }
    }
}

/// The number of deliveries that complete an answer for the request at `k`, where a delivery is
/// for the request at 0 until one finishes it.
pub open spec fn completed(sent: Seq<DeliveryView>, k: int) -> nat
    decreases sent.len(),
{
    if sent.len() == 0 {
        0
    } else {
        completed(
            sent.drop_first(),
            if sent[0].finish {
                k - 1
            } else {
                k
            },
        ) + if k == 0 && sent[0].complete {
            1nat
        } else {
            0nat
        }
    }
}

/// The bytes delivered for the request at `k`, where a delivery is for the request at 0 until one
/// finishes it.
pub open spec fn bytes_for(sent: Seq<DeliveryView>, k: int) -> Seq<u8>
    decreases sent.len(),
{
    if sent.len() == 0 {
        Seq::empty()
    } else {
        let later = bytes_for(
            sent.drop_first(),
            if sent[0].finish {
                k - 1
            } else {
                k
            },
        );
        if k == 0 {
            sent[0].bytes + later
        } else {
            later
        }
    }
}

/// The requests that wait after answers went to the oldest of `res`.
pub open spec fn queue_after(res: Seq<ResponseSender>, complete: bool) -> Seq<ResponseSender> {
    let front = res[0].answered(complete);
    if front.msg_count == 0 {
        res.skip(1)
    } else {
        res.update(0, front)
    }
}

pub proof fn lemma_decode_answers(src: Seq<u8>, res: Seq<ResponseSender>, len: nat, complete: bool)
    requires
        scan(src) == (Scan::Answers { len, complete }),
        can_take(res, complete),
    ensures
        0 < len <= src.len(),
        ({
            let decoded = decode(src, res);
            let next = decode(src.skip(len as int), queue_after(res, complete));
            let first = DeliveryView {
                id: res[0].id,
                bytes: src.take(len as int),
                complete,
                finish: res[0].answered(complete).msg_count == 0,
            };
            &&& decoded.sent.len() > 0
            &&& decoded.sent[0] == first
            &&& decoded.sent.drop_first() == next.sent
            &&& decoded.sent == seq![first] + next.sent
            &&& decoded.rest == next.rest
            &&& decoded.res == next.res
            &&& decoded.end == next.end
        }),
{
    lemma_scan_from(src, 0);
    let decoded = decode(src, res);
    let next = decode(src.skip(len as int), queue_after(res, complete));
    assert(decoded.sent.drop_first() =~= next.sent);
}

/// No byte is lost, made up or moved: what was handed out, the message that was not asked for or
/// the answers that no request waits for if there are any, and what is left make up what came.
pub proof fn law_no_byte_is_lost(src: Seq<u8>, res: Seq<ResponseSender>)
    ensures
        ({
            let decoded = decode(src, res);
            let unasked = match decoded.end {
                DecodeEnd::Unasked(message) => message,
                DecodeEnd::OutOfBound(answers) => answers,
                _ => Seq::empty(),
            };
            src == joined(decoded.sent) + unasked + decoded.rest
        }),
    decreases src.len(),
{
    let decoded = decode(src, res);
    let unasked = match decoded.end {
        DecodeEnd::Unasked(message) => message,
        DecodeEnd::OutOfBound(answers) => answers,
        _ => Seq::empty(),
    };
    lemma_scan_from(src, 0);
    match scan(src) {
        Scan::Answers { len, complete } if can_take(res, complete) => {
            lemma_decode_answers(src, res, len, complete);
            law_no_byte_is_lost(src.skip(len as int), queue_after(res, complete));
            let later = joined(decoded.sent.drop_first());
            assert(src =~= src.take(len as int) + src.skip(len as int));
            assert(src =~= joined(decoded.sent) + unasked + decoded.rest);
        },
        _ => {
            assert(src =~= joined(decoded.sent) + unasked + decoded.rest);
        },
    }
}

/// Answers go to the requests in the order of the requests: each delivery is for the oldest
/// request that was not finished before it, and what waits afterwards is the rest of the queue.
pub proof fn law_answers_come_in_order(src: Seq<u8>, res: Seq<ResponseSender>)
    ensures
        ({
            let decoded = decode(src, res);
            let done = finished(decoded.sent);
            &&& done + decoded.res.len() == res.len()
            &&& forall|j: int|
                0 <= j < decoded.res.len() ==> (#[trigger] decoded.res[j]).id == res[j + done].id
                    && (j > 0 ==> decoded.res[j] == res[j + done])
            &&& forall|i: int|
                0 <= i < decoded.sent.len() ==> finished(#[trigger] decoded.sent.take(i))
                    < res.len() && decoded.sent[i].id == res[finished(
                    decoded.sent.take(i),
                ) as int].id
        }),
    decreases src.len(),
{
    let decoded = decode(src, res);
    lemma_scan_from(src, 0);
    match scan(src) {
        Scan::Answers { len, complete } if can_take(res, complete) => {
            lemma_decode_answers(src, res, len, complete);
            let queue = queue_after(res, complete);
            law_answers_come_in_order(src.skip(len as int), queue);
            let later = decoded.sent.drop_first();
            assert forall|i: int| 0 <= i < decoded.sent.len() implies finished(
                #[trigger] decoded.sent.take(i),
            ) < res.len() && decoded.sent[i].id == res[finished(
                decoded.sent.take(i),
            ) as int].id by {
                if i > 0 {
                    assert(decoded.sent.take(i).drop_first() =~= later.take(i - 1));
                    assert(decoded.sent[i] == later[i - 1]);
                }
            }
        },
        _ => {},
    }
}

/// A request is finished when as many answers were completed for it as it expects, and not
/// before. Of the oldest request that still waits, the answers completed and those still expected
/// make up those it expected. For the others nothing was completed.
pub proof fn law_each_request_gets_its_answers(src: Seq<u8>, res: Seq<ResponseSender>, k: int)
    requires
        all_expect(res),
        0 <= k < res.len(),
    ensures
        ({
            let decoded = decode(src, res);
            let done = finished(decoded.sent);
            &&& all_expect(decoded.res)
            &&& k < done ==> completed(decoded.sent, k) == res[k].msg_count
            &&& k == done ==> completed(decoded.sent, k) + decoded.res[0].msg_count
                == res[k].msg_count
            &&& k > done ==> completed(decoded.sent, k) == 0
        }),
    decreases src.len(),
{
    let decoded = decode(src, res);
    lemma_scan_from(src, 0);
    match scan(src) {
        Scan::Answers { len, complete } => {
            lemma_decode_answers(src, res, len, complete);
            let queue = queue_after(res, complete);
            let front = res[0].answered(complete);
            lemma_queue_expects(res, complete);
            law_answers_come_in_order(src.skip(len as int), queue);
            if front.msg_count == 0 {
                if k > 0 {
                    law_each_request_gets_its_answers(src.skip(len as int), queue, k - 1);
                } else {
                    lemma_nothing_before(decoded.sent.drop_first(), -1);
                    if queue.len() > 0 {
                        law_each_request_gets_its_answers(src.skip(len as int), queue, 0);
                    } else {
                        assert(decoded.res.len() == 0);
                    }
                }
            } else {
                law_each_request_gets_its_answers(src.skip(len as int), queue, k);
            }
        },
        _ => {},
    }
}

proof fn lemma_nothing_before(sent: Seq<DeliveryView>, k: int)
    requires
        k < 0,
    ensures
        completed(sent, k) == 0,
        bytes_for(sent, k) == Seq::<u8>::empty(),
    decreases sent.len(),
{
    if sent.len() > 0 {
        lemma_nothing_before(
            sent.drop_first(),
            if sent[0].finish {
                k - 1
            } else {
                k
            },
        );
    }
}

/// With more bytes behind, messages that were scanned are scanned alike, and scanning goes on
/// where it stopped for want of bytes.
proof fn lemma_scan_with_more(src: Seq<u8>, more: Seq<u8>, start: nat)
    requires
        start <= src.len(),
    ensures
        match scan_from(src, start) {
            Scan::More => true,
            Scan::Answers { len, complete: false } => scan_from(src + more, start) == scan_from(
                src + more,
                len,
            ),
            same => scan_from(src + more, start) == same,
        },
    decreases src.len() - start,
{
    let all = src + more;
    lemma_scan_from(src, start);
    assert(all.skip(start as int) =~= src.skip(start as int) + more);
    let here = src.skip(start as int);
    if here.len() >= 5 {
        assert(all.skip(start as int).subrange(1, 5) =~= here.subrange(1, 5));
        assert(all.skip(start as int).take(5) =~= here.take(5));
        assert(read_header(all.skip(start as int)) == read_header(here));
        if let Ok(Some((tag, len))) = read_header(here) {
            let end = start + len + 1;
            if end <= src.len() && !is_async_tag(tag) && tag != READY_FOR_QUERY_TAG {
                lemma_scan_with_more(src, more, end);
            }
        }
    }
}

/// Scanning from behind the first `by` bytes, all of them whole answers, finds what scanning
/// without these bytes finds.
pub proof fn lemma_scan_shifted(src: Seq<u8>, by: nat, start: nat)
    requires
        0 < by,
        by + start <= src.len(),
    ensures
        scan_from(src, by + start) == match scan_from(src.skip(by as int), start) {
            Scan::More => Scan::Answers { len: by, complete: false },
            Scan::Answers { len, complete } => Scan::Answers { len: by + len, complete },
            Scan::Unasked { .. } => Scan::Answers { len: by, complete: false },
            Scan::Malformed(e) => Scan::Malformed(e),
        },
    decreases src.len() - start,
{
    let tail = src.skip(by as int);
    assert(tail.skip(start as int) =~= src.skip((by + start) as int));
    if let Ok(Some((tag, len))) = read_header(tail.skip(start as int)) {
        let end = start + len + 1;
        if end <= tail.len() && !is_async_tag(tag) && tag != READY_FOR_QUERY_TAG {
            lemma_scan_shifted(src, by, end);
        }
    }
}

/// Answers that complete nothing leave the requests as they are.
pub proof fn lemma_incomplete_keeps_queue(res: Seq<ResponseSender>)
    requires
        res.len() > 0,
        all_expect(res),
    ensures
        queue_after(res, false) == res,
{
    assert(res[0].msg_count > 0);
    assert(queue_after(res, false) =~= res);
}

proof fn lemma_queue_expects(res: Seq<ResponseSender>, complete: bool)
    requires
        res.len() > 0,
        all_expect(res),
    ensures
        all_expect(queue_after(res, complete)),
{
    let queue = queue_after(res, complete);
    assert(res[0].msg_count > 0);
    assert forall|i: int| 0 <= i < queue.len() implies (#[trigger] queue[i]).msg_count > 0 by {
        if res[0].answered(complete).msg_count == 0 {
            assert(queue[i] == res[i + 1]);
        }
    }
}

proof fn lemma_first_for(first: DeliveryView, later: Seq<DeliveryView>, k: int)
    ensures
        ({
            let sent = seq![first] + later;
            let at = if first.finish {
                k - 1
            } else {
                k
            };
            &&& finished(sent) == finished(later) + if first.finish {
                1nat
            } else {
                0nat
            }
            &&& completed(sent, k) == completed(later, at) + if k == 0 && first.complete {
                1nat
            } else {
                0nat
            }
            &&& bytes_for(sent, k) == if k == 0 {
                first.bytes + bytes_for(later, at)
            } else {
                bytes_for(later, at)
            }
        }),
{
    let sent = seq![first] + later;
    assert(sent.drop_first() =~= later);
}

/// Whether decoding `first` and then, with the requests that still wait, what was left of it and
/// `second`, comes to the same as decoding both at once: the same end, the same requests that wait
/// and bytes that are left, as many requests finished, and for the request at `k` the same bytes
/// and as many completed answers.
pub open spec fn pieces_agree(
    first: Seq<u8>,
    second: Seq<u8>,
    res: Seq<ResponseSender>,
    k: int,
) -> bool {
    let one = decode(first, res);
    let two = decode(one.rest + second, one.res);
    let both = decode(first + second, res);
    &&& two.end == both.end
    &&& two.res == both.res
    &&& two.rest == both.rest
    &&& finished(one.sent + two.sent) == finished(both.sent)
    &&& bytes_for(one.sent + two.sent, k) == bytes_for(both.sent, k)
    &&& completed(one.sent + two.sent, k) == completed(both.sent, k)
}

/// Answers that end no request, with nothing whole behind them, and more bytes after these.
#[verifier::spinoff_prover]
proof fn lemma_open_answers_go_on(
    first: Seq<u8>,
    second: Seq<u8>,
    res: Seq<ResponseSender>,
    len: nat,
    k: int,
)
    requires
        all_expect(res),
        scan(first) == (Scan::Answers { len, complete: false }),
        decode(first, res).end is More,
        !(decode(first + second, res).end is Malformed),
    ensures
        pieces_agree(first, second, res, k),
{
    let all = first + second;
    let one = decode(first, res);
    let two = decode(one.rest + second, one.res);
    let both = decode(all, res);
    lemma_scan_from(first, 0);
    lemma_scan_with_more(first, second, 0);
    assert(res.len() > 0);
    lemma_decode_answers(first, res, len, false);
    lemma_incomplete_keeps_queue(res);
    let tail = first.skip(len as int);
    let head = one.sent[0];
    // what is behind the answers in the first piece is partial
    lemma_scan_shifted(first, len, 0);
    lemma_scan_from(tail, 0);
    lemma_stopped_answers(first, 0);
    assert(one.sent.drop_first() =~= Seq::<DeliveryView>::empty());
    assert(one.sent =~= seq![head]);
    assert(one.rest == tail);
    assert(all.skip(len as int) =~= tail + second);
    lemma_scan_shifted(all, len, 0);
    lemma_scan_from(tail + second, 0);
    lemma_first_for(head, two.sent, k);
    match scan(tail + second) {
        Scan::Answers { len: further, complete } => {
            lemma_decode_answers(tail + second, res, further, complete);
            lemma_decode_answers(all, res, len + further, complete);
            assert(all.skip((len + further) as int) =~= (tail + second).skip(
                further as int,
            ));
            let later = two.sent.drop_first();
            let joint = both.sent[0];
            assert(both.sent.drop_first() == later);
            assert(both.sent =~= seq![joint] + later);
            assert(two.sent =~= seq![two.sent[0]] + later);
            assert(joint.bytes =~= head.bytes + two.sent[0].bytes);
            lemma_first_for(joint, later, k);
            lemma_first_for(two.sent[0], later, k);
            if k == 0 {
                let at = if joint.finish {
                    k - 1
                } else {
                    k
                };
                assert(head.bytes + (two.sent[0].bytes + bytes_for(later, at))
                    =~= joint.bytes + bytes_for(later, at));
            }
        },
        Scan::Malformed(_) => {
            assert(both.end is Malformed);
        },
        _ => {
            lemma_decode_answers(all, res, len, false);
            assert(all.take(len as int) =~= first.take(len as int));
            assert(both.sent =~= seq![head] + two.sent);
            assert(one.sent + two.sent =~= both.sent);
        },
    }
}

/// It does not matter in which pieces the bytes of the server arrive: decoding a first piece and
/// then, with the requests that still wait, what was left of it and a second piece, comes to the
/// same as decoding both pieces at once. Every request gets the same bytes and as many completed
/// answers, the same requests still wait, and the same bytes are left. The one exception is a
/// malformed header, which ends decoding before the answers that came with it are handed out.
#[verifier::spinoff_prover]
pub proof fn law_pieces_do_not_matter(
    first: Seq<u8>,
    second: Seq<u8>,
    res: Seq<ResponseSender>,
    k: int,
)
    requires
        all_expect(res),
        decode(first, res).end is More,
        !(decode(first + second, res).end is Malformed),
    ensures
        pieces_agree(first, second, res, k),
    decreases first.len(),
{
    let all = first + second;
    let one = decode(first, res);
    let two = decode(one.rest + second, one.res);
    let both = decode(all, res);
    lemma_scan_from(first, 0);
    lemma_scan_with_more(first, second, 0);
    match scan(first) {
        Scan::Answers { len, complete: true } => {
            assert(res.len() > 0);
            lemma_decode_answers(first, res, len, true);
            lemma_decode_answers(all, res, len, true);
            lemma_queue_expects(res, true);
            let queue = queue_after(res, true);
            let tail = first.skip(len as int);
            assert(all.skip(len as int) =~= tail + second);
            assert(all.take(len as int) =~= first.take(len as int));
            let head = one.sent[0];
            let at = if head.finish {
                k - 1
            } else {
                k
            };
            law_pieces_do_not_matter(tail, second, queue, at);
            let later = one.sent.drop_first() + two.sent;
            assert(one.sent + two.sent =~= seq![head] + later);
            assert(both.sent =~= seq![head] + both.sent.drop_first());
            lemma_first_for(head, later, k);
            lemma_first_for(head, both.sent.drop_first(), k);
        },
        Scan::Answers { len, complete: false } => {
            lemma_open_answers_go_on(first, second, res, len, k);
        },
        _ => {
            assert(one.sent + two.sent =~= two.sent);
        },
    }
}

/// Where answers end without ending a request, what follows them is partial or not asked for.
pub proof fn lemma_stopped_answers(src: Seq<u8>, start: nat)
    requires
        start <= src.len(),
    ensures
        scan_from(src, start) matches Scan::Answers { len, complete: false } ==> {
            scan(src.skip(len as int)) is More || scan(src.skip(len as int)) is Unasked
        },
    decreases src.len() - start,
{
    lemma_scan_from(src, start);
    let here = src.skip(start as int);
    assert(here.skip(0) =~= here);
    if let Ok(Some((tag, len))) = read_header(here) {
        let end = start + len + 1;
        if end <= src.len() && !is_async_tag(tag) && tag != READY_FOR_QUERY_TAG {
            lemma_stopped_answers(src, end);
        }
    }
}

/// A message that was not asked for is not held up by bytes that arrive behind it: it comes out
/// after the same answers, with the same requests waiting, and the later bytes are left.
pub proof fn law_unasked_message_is_not_held_up(
    first: Seq<u8>,
    second: Seq<u8>,
    res: Seq<ResponseSender>,
)
    requires
        all_expect(res),
        decode(first, res).end is Unasked,
    ensures
        ({
            let one = decode(first, res);
            let both = decode(first + second, res);
            &&& both.end == one.end
            &&& both.res == one.res
            &&& both.sent == one.sent
            &&& both.rest == one.rest + second
        }),
    decreases first.len(),
{
    let all = first + second;
    lemma_scan_from(first, 0);
    lemma_scan_with_more(first, second, 0);
    match scan(first) {
        Scan::Answers { len, complete } => {
            let tail = first.skip(len as int);
            assert(all.skip(len as int) =~= tail + second);
            assert(all.take(len as int) =~= first.take(len as int));
            if !complete {
                lemma_stopped_answers(first, 0);
                lemma_scan_with_more(tail, second, 0);
                lemma_scan_shifted(all, len, 0);
            }
            lemma_decode_answers(first, res, len, complete);
            lemma_decode_answers(all, res, len, complete);
            lemma_queue_expects(res, complete);
            law_unasked_message_is_not_held_up(tail, second, queue_after(res, complete));
        },
        Scan::Unasked { len } => {
            assert(all.skip(len as int) =~= first.skip(len as int) + second);
            assert(all.take(len as int) =~= first.take(len as int));
        },
        _ => {},
    }
}

/// A request whose writing fails after it appended `partly` leaves no trace.
pub proof fn law_failed_request_leaves_no_trace(
    state: StateView,
    partly: Seq<u8>,
    waits: Seq<ResponseSender>,
)
    ensures
        state.sent(state.buf + partly, false, waits) == state,
{
    assert(cut_back(state.buf + partly, state.buf.len()) =~= state.buf);
}

/// Requests are written, and wait for their answers, in the order in which they were made.
pub proof fn law_requests_keep_their_order(
    state: StateView,
    one: Seq<u8>,
    one_waits: Seq<ResponseSender>,
    two: Seq<u8>,
    two_waits: Seq<ResponseSender>,
)
    ensures
        ({
            let after_one = state.sent(state.buf + one, true, one_waits);
            let after_two = after_one.sent(after_one.buf + two, true, two_waits);
            &&& after_two.buf == state.buf + one + two
            &&& after_two.res == state.res + one_waits + two_waits
            &&& after_two.closed == state.closed
        }),
{
}

/// Requests that wait expect answers, whatever is sent, written or decoded.
pub proof fn law_waiting_requests_expect_answers(
    state: StateView,
    written: Seq<u8>,
    ok: bool,
    sender: ResponseSender,
    src: Seq<u8>,
)
    requires
        state.wf(),
        sender.msg_count > 0,
    ensures
        state.sent(written, ok, Seq::empty()).wf(),
        state.sent(written, ok, seq![sender]).wf(),
        state.answered(src).wf(),
{
    let plain = state.sent(written, ok, Seq::empty()).res;
    let with = state.sent(written, ok, seq![sender]).res;
    assert forall|i: int| 0 <= i < plain.len() implies (#[trigger] plain[i]).msg_count > 0 by {
        assert(plain[i] == state.res[i]);
    }
    assert forall|i: int| 0 <= i < with.len() implies (#[trigger] with[i]).msg_count > 0 by {
        if i < state.res.len() {
            assert(with[i] == state.res[i]);
        }
    }
    if state.res.len() > 0 {
        law_each_request_gets_its_answers(src, state.res, 0);
    } else {
        law_answers_come_in_order(src, state.res);
    }
}

/// The driver closes only when all bytes are written: as long as there are any, it is asked to
/// write them, closed or not.
pub proof fn law_bytes_are_written_before_closing(state: StateView)
    ensures
        state.wait() == Some(WaitState::WantWrite) <==> state.buf.len() > 0,
        state.wait() == Some(WaitState::WantClose) <==> state.buf.len() == 0 && state.closed,
        state.wait() is None <==> state.buf.len() == 0 && !state.closed,
{
}

/// Bytes put into the shared state make a running driver wait for the connection to be writable.
pub proof fn law_new_bytes_wake_the_driver(driver: GenericDriver, state: StateView)
    requires
        driver.driver_state is Running,
        state.buf.len() > 0,
    ensures
        driver.step(state) is Select,
        state.wait() == Some(WaitState::WantWrite),
        driver.after_wait(WaitState::WantWrite).step(state) == (Step::Select { writable: true }),
{
}

/// The driver shuts the connection down only when it is closing, has nothing to write or to
/// flush, and no request waits. A driver that is closing no longer waits for the shared state.
pub proof fn law_shutdown_only_when_idle(driver: GenericDriver, state: StateView)
    ensures
        driver.step(state) is Shutdown <==> driver.driver_state is Closing && !driver.wants_write()
            && state.res.len() == 0,
        driver.driver_state is Closing ==> !(driver.step(state) is Select),
{
}

/// After a write error the driver only reads: whatever answers come, it waits for the connection
/// to be readable and no longer for it to be writable, until no request waits, and then it shuts
/// down. A connection that is ready is read from and not written to.
pub proof fn law_write_error_leaves_reading(
    driver: GenericDriver,
    state: StateView,
    e: io::Error,
    src: Seq<u8>,
    readable: bool,
    writable: bool,
)
    ensures
        ({
            let after = driver.after_write_err(e);
            let later = state.after_write_err().answered(src);
            &&& after.step(later) == if later.res.len() == 0 {
                Step::Shutdown
            } else {
                Step::Ready { writable: false }
            }
            &&& after.ready_action(readable, writable) == if readable {
                ReadyAction::Read
            } else {
                ReadyAction::Nothing
            }
        }),
{
}

/// The driver turns to flushing with the write that takes the last byte, and with no other.
pub proof fn law_last_write_turns_to_flushing(driver: GenericDriver, state: StateView, n: int)
    requires
        driver.write_state is WantWrite,
        0 < n <= state.buf.len(),
    ensures
        driver.after_write(state.written(n).buf).write_state is WantFlush <==> n == state.buf.len(),
        driver.after_write(state.written(n).buf).write_state is WantWrite <==> n < state.buf.len(),
        driver.after_write(state.written(n).buf).driver_state == driver.driver_state,
{
}

/// Something that happens to a driver and to the state it shares.
pub enum Event {
    /// The driver was asked for something by the shared state.
    Wait(WaitState),
    /// That many bytes were written.
    Written(int),
    /// What was written was flushed.
    Flushed,
    /// Writing or flushing failed.
    Failed(io::Error),
    /// The driver put a message behind what is to be written.
    Message(Seq<u8>),
    /// A request was made, after which the buffer held `written`. It waits as `waits` if it went
    /// well.
    Request { written: Seq<u8>, ok: bool, waits: Seq<ResponseSender> },
    /// The state was closed.
    Close,
    /// Bytes of the server were decoded.
    Received(Seq<u8>),
    /// The connection was shut down.
    Shutdown,
}

impl Event {
    /// Whether the event can happen.
    pub open spec fn possible(self, driver: GenericDriver, state: StateView) -> bool {
        match self {
            Event::Wait(wait) => driver.step(state) is Select && state.wait() == Some(wait),
            Event::Written(n) => driver.write_state is WantWrite && 0 < n <= state.buf.len(),
            Event::Flushed => driver.write_state is WantFlush,
            Event::Failed(_) => driver.wants_write(),
            Event::Request { .. } => !state.closed,
            Event::Shutdown => driver.step(state) is Shutdown,
            _ => true,
        }
    }

    /// The driver after the event.
    pub open spec fn driver(self, driver: GenericDriver, state: StateView) -> GenericDriver {
        match self {
            Event::Wait(wait) => driver.after_wait(wait),
            Event::Written(n) => driver.after_write(state.written(n).buf),
            Event::Flushed => driver.after_flush(),
            Event::Failed(e) => driver.after_write_err(e),
            Event::Message(_) => driver.after_wait(WaitState::WantWrite),
            Event::Shutdown => driver.after_wait(WaitState::WantClose),
            _ => driver,
        }
    }

    /// The state after the event.
    pub open spec fn state(self, state: StateView) -> StateView {
        match self {
            Event::Written(n) => state.written(n),
            Event::Failed(_) => state.after_write_err(),
            Event::Message(bytes) => state.appended(bytes),
            Event::Request { written, ok, waits } => state.sent(written, ok, waits),
            Event::Close => state.shut(),
            Event::Received(src) => state.answered(src),
            _ => state,
        }
    }

    /// Whether no byte that is to be written is dropped: writing does not fail, and a request
    /// leaves what was in the buffer before it.
    pub open spec fn keeps_bytes(self, state: StateView) -> bool {
        match self {
            Event::Failed(_) => false,
            Event::Request { written, .. } => state.buf.is_prefix_of(written),
            _ => true,
        }
    }

    /// The bytes that the event puts behind those to be written.
    pub open spec fn appended(self, state: StateView) -> Seq<u8> {
        match self {
            Event::Message(bytes) => bytes,
            Event::Request { written, ok: true, .. } => written.skip(state.buf.len() as int),
            _ => Seq::empty(),
        }
    }

    /// The bytes that the event hands to the connection.
    pub open spec fn written(self, state: StateView) -> Seq<u8> {
        match self {
            Event::Written(n) => state.buf.take(n),
            _ => Seq::empty(),
        }
    }
}

/// What comes of a run of events: the driver and the state after it, the bytes put behind those to
/// be written, the bytes handed to the connection, whether each event could happen, and whether no
/// byte was dropped.
pub struct Run {
    pub driver: GenericDriver,
    pub state: StateView,
    pub appended: Seq<u8>,
    pub written: Seq<u8>,
    pub possible: bool,
    pub keeps_bytes: bool,
}

/// What comes of the events `events`, the first of which finds `driver` and `state`.
pub open spec fn run(driver: GenericDriver, state: StateView, events: Seq<Event>) -> Run
    decreases events.len(),
{
    if events.len() == 0 {
        Run {
            driver,
            state,
            appended: Seq::empty(),
            written: Seq::empty(),
            possible: true,
            keeps_bytes: true,
        }
    } else {
        let before = run(driver, state, events.drop_last());
        let event = events.last();
        Run {
            driver: event.driver(before.driver, before.state),
            state: event.state(before.state),
            appended: before.appended + event.appended(before.state),
            written: before.written + event.written(before.state),
            possible: before.possible && event.possible(before.driver, before.state),
            keeps_bytes: before.keeps_bytes && event.keeps_bytes(before.state),
        }
    }
}

/// Whether a driver that is closing has closed the state, and is at writing as long as there are
/// bytes to be written.
pub open spec fn closes_orderly(driver: GenericDriver, state: StateView) -> bool {
    driver.driver_state is Closing ==> {
        &&& state.closed
        &&& state.buf.len() > 0 ==> driver.write_state is WantWrite
    }
}

/// Whatever happens, a driver that is closing has closed the state, and is at writing as long as
/// there are bytes to be written. So it shuts down only when the state is closed, nothing is to be
/// written and no request waits.
pub proof fn law_closing_is_orderly(driver: GenericDriver, state: StateView, events: Seq<Event>)
    requires
        closes_orderly(driver, state),
        run(driver, state, events).possible,
    ensures
        ({
            let after = run(driver, state, events);
            &&& closes_orderly(after.driver, after.state)
            &&& after.driver.step(after.state) is Shutdown ==> {
                &&& after.state.closed
                &&& after.state.buf.len() == 0
                &&& after.state.res.len() == 0
            }
        }),
    decreases events.len(),
{
    if events.len() > 0 {
        law_closing_is_orderly(driver, state, events.drop_last());
    }
}

/// All bytes are written once and in order, however many each write takes and whatever is put
/// behind them in between: what was written and what is left are the first bytes followed by all
/// that were appended, unless writing fails or a request drops bytes that were there before it.
pub proof fn law_bytes_are_written_in_order(
    driver: GenericDriver,
    state: StateView,
    events: Seq<Event>,
)
    requires
        run(driver, state, events).possible,
        run(driver, state, events).keeps_bytes,
    ensures
        ({
            let after = run(driver, state, events);
            after.written + after.state.buf == state.buf + after.appended
        }),
    decreases events.len(),
{
    let after = run(driver, state, events);
    if events.len() > 0 {
        law_bytes_are_written_in_order(driver, state, events.drop_last());
        let before = run(driver, state, events.drop_last());
        let event = events.last();
        let buf = before.state.buf;
        assert(event.written(before.state) + after.state.buf =~= buf + event.appended(
            before.state,
        ));
        assert(after.written + after.state.buf =~= before.written + (event.written(before.state)
            + after.state.buf));
        assert(before.written + (buf + event.appended(before.state)) =~= (before.written + buf)
            + event.appended(before.state));
        assert((state.buf + before.appended) + event.appended(before.state) =~= state.buf
            + after.appended);
    } else {
        assert(after.written + after.state.buf =~= state.buf + after.appended);
    }
}

/// Whether everything that was written was flushed: each write has a flush behind it.
pub open spec fn all_flushed(events: Seq<Event>) -> bool {
    forall|i: int|
        0 <= i < events.len() && (#[trigger] events[i]) is Written ==> exists|j: int|
            i < j < events.len() && (#[trigger] events[j]) is Flushed
}

/// Whether writing and flushing never fail.
pub open spec fn none_fails(events: Seq<Event>) -> bool {
    forall|i: int| 0 <= i < events.len() ==> !((#[trigger] events[i]) is Failed)
}

/// A driver that has nothing to write or to flush has flushed all that it wrote, and so has one
/// that comes to shut the connection down, unless writing or flushing failed.
pub proof fn law_what_is_written_is_flushed(
    driver: GenericDriver,
    state: StateView,
    events: Seq<Event>,
)
    requires
        run(driver, state, events).possible,
        none_fails(events),
    ensures
        ({
            let after = run(driver, state, events);
            &&& !after.driver.wants_write() ==> all_flushed(events)
            &&& after.driver.step(after.state) is Shutdown ==> all_flushed(events)
        }),
    decreases events.len(),
{
    if events.len() > 0 {
        let earlier = events.drop_last();
        assert forall|i: int| 0 <= i < earlier.len() implies !((#[trigger] earlier[i]) is Failed) by {
            assert(earlier[i] == events[i]);
        }
        law_what_is_written_is_flushed(driver, state, earlier);
        let after = run(driver, state, events);
        assert(!(events[events.len() - 1] is Failed));
        if !after.driver.wants_write() {
            assert forall|i: int| 0 <= i < events.len() && (
            #[trigger] events[i]) is Written implies exists|j: int|
                i < j < events.len() && (#[trigger] events[j]) is Flushed by {
                if events.last() is Flushed {
                    assert(events[events.len() - 1] is Flushed);
                } else {
                    assert(all_flushed(earlier));
                    assert(earlier[i] == events[i]);
                    let j = choose|j: int| i < j < earlier.len() && (#[trigger] earlier[j]) is Flushed;
                    assert(events[j] is Flushed);
                }
            }
        }
    }
}

proof fn lemma_kept_bytes_never_fail(driver: GenericDriver, state: StateView, events: Seq<Event>)
    requires
        run(driver, state, events).keeps_bytes,
    ensures
        none_fails(events),
    decreases events.len(),
{
    if events.len() > 0 {
        let earlier = events.drop_last();
        lemma_kept_bytes_never_fail(driver, state, earlier);
        assert forall|i: int| 0 <= i < events.len() implies !((#[trigger] events[i]) is Failed) by {
            if i < earlier.len() {
                assert(events[i] == earlier[i]);
            }
        }
    }
}

/// A new driver that comes to shut the connection down has written all bytes that were appended,
/// in order, and flushed them, and every request has its answers, unless bytes were dropped on the
/// way.
pub proof fn law_all_is_done_by_shutdown(driver: GenericDriver, state: StateView, events: Seq<Event>)
    requires
        driver.driver_state is Running,
        state.buf.len() == 0,
        run(driver, state, events).possible,
        run(driver, state, events).keeps_bytes,
        run(driver, state, events).driver.step(run(driver, state, events).state) is Shutdown,
    ensures
        run(driver, state, events).written == run(driver, state, events).appended,
        all_flushed(events),
        run(driver, state, events).state.res.len() == 0,
{
    law_closing_is_orderly(driver, state, events);
    law_bytes_are_written_in_order(driver, state, events);
    lemma_kept_bytes_never_fail(driver, state, events);
    law_what_is_written_is_flushed(driver, state, events);
    let after = run(driver, state, events);
    assert(after.written + after.state.buf =~= after.written);
    assert(state.buf + after.appended =~= after.appended);
}

/// What the shared state asks of the driver, it still asks for after requests that only append and
/// after it was closed: what the driver was asked for holds when it comes to do it.
pub proof fn law_what_is_asked_for_stays(
    driver: GenericDriver,
    state: StateView,
    wait: WaitState,
    event: Event,
)
    requires
        state.wait() == Some(wait),
        event is Request || event is Close,
        event.possible(driver, state),
        event.keeps_bytes(state),
    ensures
        event.state(state).wait() == Some(wait),
{
}

} // verus!
