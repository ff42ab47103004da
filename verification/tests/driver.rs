use std::io;

use bytes::BytesMut;
use postgres_protocol::message::backend;
use xitca_core::postgres::codec::{
    received, scan_slice, ResponseMessage, ResponseSender, Scanned, SenderState,
};
use xitca_core::postgres::driver::{
    AfterWait, Delivery, DriverState, GenericDriver, OutOfBound, ReadyAction, State, Step,
    WaitState, WriteAction, WriteEvent, WriteState, WriteStep,
};
use xitca_core::postgres::error::{DriverDown, Error};

fn message(tag: u8, body: &[u8]) -> Vec<u8> {
    let mut bytes = vec![tag];
    bytes.extend(((body.len() + 4) as u32).to_be_bytes());
    bytes.extend(body);
    bytes
}

/// A data row without columns.
fn row() -> Vec<u8> {
    message(b'D', &[0, 0])
}

fn ready() -> Vec<u8> {
    message(b'Z', b"I")
}

fn status() -> Vec<u8> {
    message(b'S', b"key\0value\0")
}

fn joined(parts: &[Vec<u8>]) -> Vec<u8> {
    parts.concat()
}

fn buffer(bytes: &[u8]) -> BytesMut {
    BytesMut::from(bytes)
}

fn put(bytes: &'static [u8]) -> impl FnOnce(&mut BytesMut) -> Result<(), Error> {
    move |buf| {
        buf.extend_from_slice(bytes);
        Ok(())
    }
}

fn refuse(bytes: &'static [u8]) -> impl FnOnce(&mut BytesMut) -> Result<(), Error> {
    move |buf| {
        buf.extend_from_slice(bytes);
        Err(Error::from(io::Error::from(io::ErrorKind::InvalidInput)))
    }
}

fn waiting(counts: &[usize]) -> State {
    let mut state = State::new();
    for (id, count) in counts.iter().enumerate() {
        state.send_multi(put(b"q"), *count, id as u64).unwrap();
    }
    state
}

fn broken() -> io::Error {
    io::Error::from(io::ErrorKind::BrokenPipe)
}

fn kind(error: Error) -> io::ErrorKind {
    match error {
        Error::Io(e) => e.kind(),
        Error::DriverDown(_) => unreachable!("driver down"),
    }
}

fn decode(
    state: &mut State,
    read_buf: &mut BytesMut,
    sent: &mut Vec<Delivery>,
) -> Result<Option<backend::Message>, Error> {
    match GenericDriver::try_decode(state, read_buf, sent) {
        Ok(res) => res,
        Err(OutOfBound(_)) => unreachable!("out of bound"),
    }
}

fn summary(sent: &[Delivery]) -> Vec<(u64, Vec<u8>, bool, SenderState)> {
    sent.iter()
        .map(|delivery| (delivery.id, delivery.buf.to_vec(), delivery.complete, delivery.state))
        .collect()
}

#[test]
fn requests_are_written_and_wait_in_order() {
    let mut state = State::new();
    assert!(state.wait().is_none());
    state.send(put(b"one"), 7).unwrap();
    state.send_one_way(put(b"two")).unwrap();
    state.send_multi(put(b"three"), 3, 9).unwrap();
    assert_eq!(&state.buf[..], b"onetwothree");
    assert_eq!(
        Vec::from(state.res),
        vec![
            ResponseSender { id: 7, msg_count: 1 },
            ResponseSender { id: 9, msg_count: 3 }
        ]
    );
}

#[test]
fn failed_requests_leave_no_trace() {
    let mut state = State::new();
    state.send(put(b"one"), 1).unwrap();
    assert_eq!(kind(state.send(refuse(b"half"), 2).unwrap_err()), io::ErrorKind::InvalidInput);
    assert!(state.send_one_way(refuse(b"half")).is_err());
    assert!(state.send_multi(refuse(b"half"), 4, 3).is_err());
    assert_eq!(&state.buf[..], b"one");
    assert_eq!(Vec::from(state.res), vec![ResponseSender { id: 1, msg_count: 1 }]);
}

#[test]
fn a_request_that_empties_the_buffer_and_fails_adds_nothing() {
    let mut state = State::new();
    state.send_one_way(put(b"one")).unwrap();
    let res = state.send_one_way(|buf: &mut BytesMut| {
        buf.clear();
        Err(Error::from(DriverDown))
    });
    assert!(res.is_err());
    assert!(state.buf.is_empty());
}

#[test]
fn closed_states_refuse_requests() {
    let mut state = State::new();
    state.send_one_way(put(b"one")).unwrap();
    state.close();
    assert!(matches!(state.send(put(b"two"), 1), Err(Error::DriverDown(DriverDown))));
    assert!(matches!(state.send_one_way(put(b"two")), Err(Error::DriverDown(DriverDown))));
    assert!(matches!(state.send_multi(put(b"two"), 2, 1), Err(Error::DriverDown(DriverDown))));
    assert_eq!(&state.buf[..], b"one");
    assert!(state.res.is_empty());
}

#[test]
fn bytes_are_written_before_closing() {
    let mut state = State::new();
    state.send_one_way(put(b"one")).unwrap();
    assert_eq!(state.wait(), Some(WaitState::WantWrite));
    state.close();
    assert_eq!(state.wait(), Some(WaitState::WantWrite));
    state.buf.clear();
    assert_eq!(state.wait(), Some(WaitState::WantClose));
}

#[test]
fn new_bytes_wake_the_driver() {
    let (mut driver, mut state) = GenericDriver::new();
    assert!(!driver.want_write());
    assert_eq!(driver.try_next(&state), Step::Select { writable: false });
    state.send(put(b"one"), 1).unwrap();
    assert_eq!(driver.on_wait(state.wait().unwrap()), AfterWait::Ready);
    assert_eq!(driver.try_next(&state), Step::Select { writable: true });
    assert_eq!(driver.try_write(), WriteAction::Write);
}

#[test]
fn bytes_are_written_in_pieces_and_flushed() {
    let (mut driver, mut state) = GenericDriver::new();
    driver.send(&mut state, &buffer(b"hello"));
    assert_eq!(driver.write_state, WriteState::WantWrite);
    assert!(matches!(driver.on_write(&mut state, WriteEvent::Done(2)), WriteStep::Again));
    assert_eq!(&state.buf[..], b"llo");
    assert_eq!(driver.try_write(), WriteAction::Write);
    assert!(matches!(driver.on_write(&mut state, WriteEvent::WouldBlock), WriteStep::Pause));
    assert_eq!(&state.buf[..], b"llo");
    assert!(matches!(driver.on_write(&mut state, WriteEvent::Done(3)), WriteStep::Again));
    assert!(state.buf.is_empty());
    assert_eq!(driver.try_write(), WriteAction::Flush);
    assert!(matches!(driver.on_flush(WriteEvent::WouldBlock), WriteStep::Pause));
    assert_eq!(driver.write_state, WriteState::WantFlush);
    assert!(matches!(driver.on_flush(WriteEvent::Done(0)), WriteStep::Pause));
    assert_eq!(driver.write_state, WriteState::Waiting);
}

#[test]
fn messages_past_the_requests_come_behind_them() {
    let (mut driver, mut state) = GenericDriver::new();
    state.send(put(b"one"), 1).unwrap();
    driver.send(&mut state, &buffer(b"two"));
    assert_eq!(&state.buf[..], b"onetwo");
    assert_eq!(state.res.len(), 1);
}

#[test]
fn writing_fails_where_no_byte_is_taken() {
    let (mut driver, mut state) = GenericDriver::new();
    driver.send(&mut state, &buffer(b"hello"));
    assert!(matches!(driver.on_write(&mut state, WriteEvent::Done(0)), WriteStep::WriteZero));
    assert_eq!(&state.buf[..], b"hello");
    match driver.on_write(&mut state, WriteEvent::Failed(broken())) {
        WriteStep::Failed(e) => assert_eq!(e.kind(), io::ErrorKind::BrokenPipe),
        _ => unreachable!("no error"),
    }
    driver.on_write(&mut state, WriteEvent::Done(5));
    assert!(matches!(driver.on_flush(WriteEvent::Failed(broken())), WriteStep::Failed(_)));
    assert_eq!(driver.write_state, WriteState::WantFlush);
}

#[test]
fn a_write_error_leaves_reading() {
    let (mut driver, mut state) = GenericDriver::new();
    state.send(put(b"one"), 1).unwrap();
    driver.on_wait(WaitState::WantWrite);
    driver.on_write_err(&mut state, broken());
    assert!(state.buf.is_empty());
    assert!(state.closed);
    assert_eq!(driver.try_next(&state), Step::Ready { writable: false });

    let mut read_buf = buffer(&ready());
    let mut sent = Vec::new();
    assert!(matches!(
        decode(&mut state, &mut read_buf, &mut sent),
        Ok(None)
    ));
    assert_eq!(sent.len(), 1);
    assert_eq!(driver.try_next(&state), Step::Shutdown);
    match driver.on_shutdown() {
        Err(e) => assert_eq!(kind(e), io::ErrorKind::BrokenPipe),
        Ok(_) => unreachable!("no error"),
    }
    assert!(matches!(driver.on_shutdown(), Ok(None)));
}

#[test]
fn the_driver_shuts_down_only_when_idle() {
    let (mut driver, mut state) = GenericDriver::new();
    state.send(put(b"one"), 1).unwrap();
    assert_eq!(driver.on_wait(WaitState::WantClose), AfterWait::Again);
    assert!(matches!(driver.driver_state, DriverState::Closing(None)));
    assert_eq!(driver.try_next(&state), Step::Ready { writable: false });
    state.res.clear();
    driver.on_wait(WaitState::WantWrite);
    assert_eq!(driver.try_next(&state), Step::Ready { writable: true });
    driver.on_write(&mut state, WriteEvent::Done(3));
    assert_eq!(driver.try_next(&state), Step::Ready { writable: true });
    driver.on_flush(WriteEvent::Done(0));
    assert_eq!(driver.try_next(&state), Step::Shutdown);
    assert!(matches!(driver.on_shutdown(), Ok(None)));
}

#[test]
fn answers_go_to_the_requests_in_order() {
    let mut state = waiting(&[1, 2, 1]);
    let first = joined(&[row(), row(), ready()]);
    let mut read_buf = buffer(&joined(&[first.clone(), ready(), row(), ready(), row()]));
    read_buf.extend(&row()[..3]);
    let mut sent = Vec::new();
    assert!(matches!(
        decode(&mut state, &mut read_buf, &mut sent),
        Ok(None)
    ));
    assert_eq!(
        summary(&sent),
        vec![
            (0, first, true, SenderState::Finish),
            (1, ready(), true, SenderState::Continue),
            (1, joined(&[row(), ready()]), true, SenderState::Finish),
            (2, row(), false, SenderState::Continue),
        ]
    );
    assert_eq!(&read_buf[..], &row()[..3]);
    assert_eq!(Vec::from(state.res), vec![ResponseSender { id: 2, msg_count: 1 }]);
}

#[test]
fn unasked_messages_are_returned_one_by_one() {
    let mut state = waiting(&[1]);
    let mut read_buf = buffer(&joined(&[row(), status(), row(), ready(), status()]));
    let mut sent = Vec::new();
    match decode(&mut state, &mut read_buf, &mut sent) {
        Ok(Some(backend::Message::ParameterStatus(body))) => {
            assert_eq!(body.name().unwrap(), "key");
            assert_eq!(body.value().unwrap(), "value");
        }
        _ => unreachable!("no parameter status"),
    }
    assert_eq!(summary(&sent), vec![(0, row(), false, SenderState::Continue)]);
    assert!(matches!(
        decode(&mut state, &mut read_buf, &mut sent),
        Ok(Some(backend::Message::ParameterStatus(_)))
    ));
    assert_eq!(sent.len(), 2);
    assert!(state.res.is_empty());
    assert!(read_buf.is_empty());
    for (tag, body) in [(b'N', &b"SNOTICE\0\0"[..]), (b'A', &b"\0\0\0\x01channel\0text\0"[..])] {
        let mut read_buf = buffer(&message(tag, body));
        let res = decode(&mut state, &mut read_buf, &mut sent);
        match res.ok().unwrap().unwrap() {
            backend::Message::NoticeResponse(_) => assert_eq!(tag, b'N'),
            backend::Message::NotificationResponse(body) => {
                assert_eq!(tag, b'A');
                assert_eq!(body.process_id(), 1);
            }
            _ => unreachable!("other message"),
        }
    }
}

#[test]
fn answers_without_a_request_are_out_of_bound() {
    let answers = joined(&[ready(), row(), ready(), ready()]);
    let mut state = waiting(&[1, 2]);
    let mut read_buf = buffer(&joined(&[answers.clone(), row(), ready(), status()]));
    let mut sent = Vec::new();
    match GenericDriver::try_decode(&mut state, &mut read_buf, &mut sent) {
        Err(OutOfBound(buf)) => assert_eq!(&buf[..], &joined(&[row(), ready()])[..]),
        Ok(_) => unreachable!("in bound"),
    }
    assert_eq!(
        summary(&sent),
        vec![
            (0, ready(), true, SenderState::Finish),
            (1, joined(&[row(), ready()]), true, SenderState::Continue),
            (1, ready(), true, SenderState::Finish),
        ]
    );
    assert_eq!(&read_buf[..], &status()[..]);
    assert!(state.res.is_empty());

    for tail in [vec![], status(), row()[..6].to_vec(), joined(&[status(), row()])] {
        let mut state = waiting(&[1, 2]);
        let mut read_buf = buffer(&joined(&[answers.clone(), tail]));
        assert!(GenericDriver::try_decode(&mut state, &mut read_buf, &mut Vec::new()).is_ok());
    }
}

#[test]
fn a_request_may_expect_no_completed_answer() {
    let mut state = State::new();
    state.send_multi(put(b"q"), 0, 5).unwrap();
    state.send(put(b"q"), 6).unwrap();
    assert_eq!(state.res[0], ResponseSender { id: 5, msg_count: 0 });
    assert_eq!(&state.buf[..], b"qq");

    let mut sent = Vec::new();
    assert!(decode(&mut state, &mut buffer(&row()), &mut sent).is_ok());
    assert_eq!(summary(&sent), vec![(5, row(), false, SenderState::Finish)]);
    assert_eq!(state.res[0].id, 6);

    let mut state = waiting(&[0]);
    let res = GenericDriver::try_decode(&mut state, &mut buffer(&ready()), &mut sent);
    assert!(matches!(res, Err(OutOfBound(_))));
    assert_eq!(state.res.len(), 1);
}

#[test]
fn ready_connections_are_read_first() {
    let (mut driver, _) = GenericDriver::new();
    assert_eq!(driver.on_ready(true, true), ReadyAction::Read);
    assert_eq!(driver.on_ready(false, true), ReadyAction::Nothing);
    driver.on_wait(WaitState::WantWrite);
    assert_eq!(driver.on_ready(true, true), ReadyAction::ReadThenWrite);
    assert_eq!(driver.on_ready(true, false), ReadyAction::Read);
    assert_eq!(driver.on_ready(false, true), ReadyAction::Write);
    assert_eq!(driver.on_ready(false, false), ReadyAction::Nothing);
}

#[test]
fn read_errors_end_the_driver_and_write_errors_do_not() {
    assert!(GenericDriver::on_read(Ok(())).is_ok());
    let error = GenericDriver::on_read(Err(broken())).unwrap_err();
    assert_eq!(kind(error), io::ErrorKind::BrokenPipe);

    let (mut driver, mut state) = GenericDriver::new();
    driver.send(&mut state, &buffer(b"hello"));
    driver.on_written(&mut state, Ok(()));
    assert_eq!(driver.write_state, WriteState::WantWrite);
    assert_eq!(&state.buf[..], b"hello");
    driver.on_written(&mut state, Err(broken()));
    assert_eq!(driver.write_state, WriteState::Waiting);
    assert!(matches!(driver.driver_state, DriverState::Closing(Some(_))));
    assert!(state.closed && state.buf.is_empty());
    assert_eq!(driver.on_ready(true, true), ReadyAction::Read);
}

#[test]
fn all_is_written_and_answered_by_shutdown() {
    let (mut driver, mut state) = GenericDriver::new();
    let mut written = Vec::new();
    let mut write = |driver: &mut GenericDriver, state: &mut State, n: usize| {
        written.extend_from_slice(&state.buf[..n]);
        assert!(matches!(driver.on_write(state, WriteEvent::Done(n)), WriteStep::Again));
    };
    state.send(put(b"one"), 1).unwrap();
    assert_eq!(driver.on_wait(state.wait().unwrap()), AfterWait::Ready);
    write(&mut driver, &mut state, 2);
    state.send(put(b"two"), 2).unwrap();
    write(&mut driver, &mut state, 4);
    // a request that comes between the last write and the flush
    state.send_one_way(put(b"three")).unwrap();
    state.close();
    assert_eq!(driver.try_write(), WriteAction::Flush);
    driver.on_flush(WriteEvent::Done(0));
    assert_eq!(driver.try_next(&state), Step::Select { writable: false });
    assert_eq!(state.wait(), Some(WaitState::WantWrite));
    driver.on_wait(WaitState::WantWrite);
    write(&mut driver, &mut state, 5);
    driver.on_flush(WriteEvent::Done(0));
    assert_eq!(state.wait(), Some(WaitState::WantClose));
    driver.on_wait(WaitState::WantClose);
    assert_eq!(driver.try_next(&state), Step::Ready { writable: false });
    let mut read_buf = buffer(&joined(&[ready(), ready()]));
    assert!(decode(&mut state, &mut read_buf, &mut Vec::new()).is_ok());
    assert_eq!(driver.try_next(&state), Step::Shutdown);
    assert_eq!(written, b"onetwothree");
}

#[test]
fn what_is_asked_for_stays() {
    let mut state = State::new();
    state.send_one_way(put(b"one")).unwrap();
    let asked = state.wait();
    state.send(put(b"two"), 1).unwrap();
    assert_eq!(state.wait(), asked);
    state.close();
    assert_eq!(state.wait(), asked);
}

#[test]
fn pieces_do_not_matter() {
    let bytes = joined(&[row(), ready(), row(), row(), ready(), ready()]);
    for cut in 0..=bytes.len() {
        let mut state = waiting(&[1, 2]);
        let mut read_buf = buffer(&bytes[..cut]);
        let mut sent = Vec::new();
        assert!(decode(&mut state, &mut read_buf, &mut sent).is_ok());
        read_buf.extend(&bytes[cut..]);
        assert!(decode(&mut state, &mut read_buf, &mut sent).is_ok());
        assert!(read_buf.is_empty());
        assert!(state.res.is_empty());
        for (id, expected) in [
            (0u64, joined(&[row(), ready()])),
            (1, joined(&[row(), row(), ready(), ready()])),
        ] {
            let got: Vec<u8> = sent
                .iter()
                .filter(|delivery| delivery.id == id)
                .flat_map(|delivery| delivery.buf.to_vec())
                .collect();
            assert_eq!(got, expected);
        }
    }
}

#[test]
fn malformed_headers_are_errors() {
    for len in [0u32, 3, 0x8000_0000, u32::MAX] {
        let mut bytes = joined(&[ready(), row()]);
        bytes.push(b'D');
        bytes.extend(len.to_be_bytes());
        let mut state = waiting(&[1, 1]);
        let mut read_buf = buffer(&bytes);
        let mut sent = Vec::new();
        let res = decode(&mut state, &mut read_buf, &mut sent);
        assert!(matches!(res, Err(Error::Io(_))));
        assert_eq!(summary(&sent), vec![(0, ready(), true, SenderState::Finish)]);
        assert_eq!(read_buf.len(), bytes.len() - ready().len());
    }
}

#[test]
fn unasked_messages_that_spell_nothing_are_errors() {
    let mut state = State::new();
    let mut read_buf = buffer(&joined(&[message(b'S', b"key"), status()]));
    let mut sent = Vec::new();
    assert!(matches!(
        decode(&mut state, &mut read_buf, &mut sent),
        Err(Error::Io(_))
    ));
    assert_eq!(&read_buf[..], &status()[..]);
}

#[test]
fn messages_are_scanned() {
    assert!(matches!(scan_slice(&[]), Scanned::More));
    assert!(matches!(scan_slice(&row()[..6]), Scanned::More));
    let rows = joined(&[row(), row()]);
    assert!(matches!(scan_slice(&rows), Scanned::Answers { len: 14, complete: false }));
    let all = joined(&[rows, ready(), row()]);
    assert!(matches!(scan_slice(&all), Scanned::Answers { len: 20, complete: true }));
    assert!(matches!(scan_slice(&status()), Scanned::Unasked { len: 15 }));
    assert!(matches!(scan_slice(b"D\0\0\0\x03"), Scanned::Malformed(_)));
}

#[test]
fn responses_are_taken_from_the_buffer() {
    let mut read_buf = buffer(&joined(&[row(), ready(), status()]));
    match ResponseMessage::try_from_buf(&mut read_buf) {
        Ok(Some(ResponseMessage::Normal { buf, complete })) => {
            assert_eq!(&buf[..], &joined(&[row(), ready()])[..]);
            assert!(complete);
        }
        _ => unreachable!("no answer"),
    }
    assert!(matches!(
        ResponseMessage::try_from_buf(&mut read_buf),
        Ok(Some(ResponseMessage::Async(backend::Message::ParameterStatus(_))))
    ));
    assert!(matches!(ResponseMessage::try_from_buf(&mut read_buf), Ok(None)));
}

#[test]
fn messages_are_received_one_by_one() {
    let mut read_buf = buffer(&joined(&[ready(), row()]));
    read_buf.extend(&row()[..5]);
    assert!(matches!(
        GenericDriver::recv(&mut read_buf),
        Some(Ok(backend::Message::ReadyForQuery(_)))
    ));
    assert!(matches!(GenericDriver::recv(&mut read_buf), Some(Ok(backend::Message::DataRow(_)))));
    assert!(GenericDriver::recv(&mut read_buf).is_none());
    assert_eq!(&read_buf[..], &row()[..5]);
    let mut read_buf = buffer(b"D\0\0\0\x03");
    assert!(matches!(GenericDriver::recv(&mut read_buf), Some(Err(Error::Io(_)))));
    assert_eq!(read_buf.len(), 5);
    let mut read_buf = buffer(&joined(&[message(b'!', b""), ready()]));
    assert!(matches!(GenericDriver::recv(&mut read_buf), Some(Err(Error::Io(_)))));
    assert_eq!(&read_buf[..], &ready()[..]);
}

#[test]
fn parse_results_become_driver_results() {
    assert!(received(Ok(None)).is_none());
    assert!(matches!(
        received(Ok(Some(backend::Message::BindComplete))),
        Some(Ok(backend::Message::BindComplete))
    ));
    assert!(matches!(received(Err(broken())), Some(Err(Error::Io(_)))));
}

#[test]
fn a_request_finishes_with_its_last_answer() {
    let mut sender = ResponseSender { id: 4, msg_count: 2 };
    assert_eq!(sender.send(false), SenderState::Continue);
    assert_eq!(sender.send(true), SenderState::Continue);
    assert_eq!(sender.send(true), SenderState::Finish);
    assert_eq!(sender, ResponseSender { id: 4, msg_count: 0 });
}

#[test]
fn requests_that_wait_expect_answers() {
    let mut state = waiting(&[2, 3]);
    let mut read_buf = buffer(&joined(&[ready(), ready(), ready()]));
    let mut sent = Vec::new();
    assert!(decode(&mut state, &mut read_buf, &mut sent).is_ok());
    assert!(state.res.iter().all(|sender| sender.msg_count > 0));
    assert_eq!(Vec::from(state.res), vec![ResponseSender { id: 1, msg_count: 2 }]);
}

#[test]
fn unasked_messages_are_not_held_up() {
    let first = joined(&[row(), status()]);
    for more in [vec![], ready()[..2].to_vec(), joined(&[row(), ready(), status()])] {
        let mut state = waiting(&[1]);
        let mut read_buf = buffer(&joined(&[first.clone(), more.clone()]));
        let mut sent = Vec::new();
        assert!(matches!(
            decode(&mut state, &mut read_buf, &mut sent),
            Ok(Some(backend::Message::ParameterStatus(_)))
        ));
        assert_eq!(summary(&sent), vec![(0, row(), false, SenderState::Continue)]);
        assert_eq!(&read_buf[..], &more[..]);
        assert_eq!(state.res.len(), 1);
    }
}

#[test]
fn errors_are_those_of_the_parser() {
    let mut state = State::new();
    let mut sent = Vec::new();
    let malformed = b"D\0\0\0\x03";
    let expected = backend::Header::parse(malformed).err().unwrap();
    let error = decode(&mut state, &mut buffer(malformed), &mut sent).err().unwrap();
    assert_eq!(expected.kind(), io::ErrorKind::InvalidData);
    match error {
        Error::Io(e) => assert_eq!((e.kind(), e.to_string()), (expected.kind(), expected.to_string())),
        Error::DriverDown(_) => unreachable!("driver down"),
    }

    for bytes in [malformed.to_vec(), message(b'!', b""), message(b'S', b"key")] {
        let expected = backend::Message::parse(&mut buffer(&bytes)).err().unwrap();
        match GenericDriver::recv(&mut buffer(&bytes)) {
            Some(Err(Error::Io(e))) => {
                assert_eq!((e.kind(), e.to_string()), (expected.kind(), expected.to_string()))
            }
            _ => unreachable!("no error"),
        }
    }

    let unasked = message(b'S', b"key");
    let error = decode(&mut state, &mut buffer(&unasked), &mut sent).err().unwrap();
    assert_eq!(kind(error), io::ErrorKind::UnexpectedEof);
}

#[test]
fn what_is_written_is_flushed_before_shutdown() {
    let (mut driver, mut state) = GenericDriver::new();
    driver.send(&mut state, &buffer(b"bye"));
    state.close();
    driver.on_write(&mut state, WriteEvent::Done(3));
    assert_eq!(state.wait(), Some(WaitState::WantClose));
    driver.on_wait(WaitState::WantClose);
    assert_eq!(driver.try_next(&state), Step::Ready { writable: true });
    assert_eq!(driver.on_ready(false, true), ReadyAction::Write);
    assert_eq!(driver.try_write(), WriteAction::Flush);
    driver.on_flush(WriteEvent::Done(0));
    assert_eq!(driver.try_next(&state), Step::Shutdown);
}
