//! The driver of a connection: what it queues, what it does next, and what it makes of the
//! server's answers.
//!
//! The driver itself does no input or output. It says what to do, and is told what came of it.
use std::collections::VecDeque;
use std::io;

use bytes::{Buf, BytesMut};
use postgres_protocol::message::backend;
use vstd::prelude::*;

use crate::buffer::{contents, room};

use super::codec::{
    backend_message, can_hold_message, declared_length, is_partial, lemma_scan_from, scan,
    parse_message, received, ResponseMessage, ResponseSender, Scan, SenderState,
};
use super::error::{DriverDown, Error};

verus! {

/// What those who make requests share with the driver.
pub struct State {
    /// Whether no further request is taken.
    pub closed: bool,
    /// The bytes to be written.
    pub buf: BytesMut,
    /// The requests that wait for answers, the oldest first.
    pub res: VecDeque<ResponseSender>,
}

/// What a [`State`] holds.
pub struct StateView {
    pub closed: bool,
    pub buf: Seq<u8>,
    pub res: Seq<ResponseSender>,
}

impl View for State {
    type V = StateView;

    open spec fn view(&self) -> StateView {
        StateView { closed: self.closed, buf: contents(self.buf), res: self.res@ }
    }
}

/// What the driver has to do for the state it shares.
#[derive(Debug, Clone, Copy, PartialEq, Eq, Structural)]
pub enum WaitState {
    /// There are bytes to be written.
    WantWrite,
    /// All is written and no further request will come.
    WantClose,
}

/// Whether each of the requests `res` still expects an answer.
pub open spec fn all_expect(res: Seq<ResponseSender>) -> bool {
    forall|i: int| 0 <= i < res.len() ==> (#[trigger] res[i]).msg_count > 0
}

impl StateView {
    /// Every request that waits still expects an answer.
    pub open spec fn wf(self) -> bool {
        all_expect(self.res)
    }

    /// The state after a request was written into the buffer, which then held `written`. If the
    /// writing failed, the buffer is cut back to where it was. If it went well, `waits` joins the
    /// requests that wait.
    pub open spec fn sent(self, written: Seq<u8>, ok: bool, waits: Seq<ResponseSender>) -> StateView {
        if ok {
            StateView { buf: written, res: self.res + waits, ..self }
        } else {
            StateView { buf: cut_back(written, self.buf.len()), ..self }
        }
    }

    /// The state with `bytes` behind what is to be written.
    pub open spec fn appended(self, bytes: Seq<u8>) -> StateView {
        StateView { buf: self.buf + bytes, ..self }
    }

    /// The state after the first `n` bytes were written.
    pub open spec fn written(self, n: int) -> StateView {
        StateView { buf: self.buf.skip(n), ..self }
    }

    /// The state that takes no further request.
    pub open spec fn shut(self) -> StateView {
        StateView { closed: true, ..self }
    }

    /// The state after writing failed: without bytes to be written, and closed.
    pub open spec fn after_write_err(self) -> StateView {
        StateView { closed: true, buf: Seq::empty(), ..self }
    }

    /// The state after the bytes `src` of the server were decoded.
    pub open spec fn answered(self, src: Seq<u8>) -> StateView {
        StateView { res: decode(src, self.res).res, ..self }
    }

    /// What the driver has to do, if anything.
    pub open spec fn wait(self) -> Option<WaitState> {
        if self.buf.len() > 0 {
            Some(WaitState::WantWrite)
        } else if self.closed {
            Some(WaitState::WantClose)
        } else {
            None
        }
    }
}

/// What is left of a buffer that held `after` when it is cut back to `len` bytes.
pub open spec fn cut_back(after: Seq<u8>, len: nat) -> Seq<u8> {
    if len <= after.len() {
        after.take(len as int)
    } else {
        after
    }
}

impl State {
    /// A state without requests.
    pub fn new() -> (state: Self)
        ensures
            state@ == (StateView { closed: false, buf: Seq::empty(), res: Seq::empty() }),
    {
        State { closed: false, buf: BytesMut::new(), res: VecDeque::new() }
    }

    /// Writes a request that no answer is expected to. It is refused once the state is closed.
    pub fn send_one_way<F>(&mut self, func: F) -> (res: Result<(), Error>) where
        F: FnOnce(&mut BytesMut) -> Result<(), Error>,

        requires
            !old(self).closed ==> forall|buf: &mut BytesMut|
                *buf == old(self).buf ==> #[trigger] call_requires(func, (buf,)),
        ensures
            old(self).closed ==> {
                &&& res == Err::<(), Error>(Error::DriverDown(DriverDown))
                &&& final(self)@ == old(self)@
            },
            !old(self).closed ==> exists|buf: &mut BytesMut|
                {
                    &&& *buf == old(self).buf
                    &&& #[trigger] call_ensures(func, (buf,), res)
                    &&& final(self)@ == old(self)@.sent(
                        contents(*final(buf)),
                        res is Ok,
                        Seq::empty(),
                    )
                },
            old(self)@.wf() ==> final(self)@.wf(),
    {
        if self.closed {
            return Err(Error::from(DriverDown));
        }
        let len = self.buf.len();
        let res = func(&mut self.buf);
        if res.is_err() {
            self.buf.truncate(len);
        }
        assert(self.res@ + Seq::empty() =~= self.res@);
        res
    }

    /// Writes a request that one answer is expected to. It is refused once the state is closed.
    pub fn send<F>(&mut self, func: F, id: u64) -> (res: Result<(), Error>) where
        F: FnOnce(&mut BytesMut) -> Result<(), Error>,

        requires
            !old(self).closed ==> forall|buf: &mut BytesMut|
                *buf == old(self).buf ==> #[trigger] call_requires(func, (buf,)),
        ensures
            old(self).closed ==> {
                &&& res == Err::<(), Error>(Error::DriverDown(DriverDown))
                &&& final(self)@ == old(self)@
            },
            !old(self).closed ==> exists|buf: &mut BytesMut|
                {
                    &&& *buf == old(self).buf
                    &&& #[trigger] call_ensures(func, (buf,), res)
                    &&& final(self)@ == old(self)@.sent(
                        contents(*final(buf)),
                        res is Ok,
                        seq![ResponseSender { id, msg_count: 1 }],
                    )
                },
            old(self)@.wf() ==> final(self)@.wf(),
    {
        self.send_multi(func, 1, id)
    }

    /// Writes a request that `msg_count` answers are expected to. It is refused once the state is
    /// closed.
    pub fn send_multi<F>(&mut self, func: F, msg_count: usize, id: u64) -> (res: Result<
        (),
        Error,
    >) where F: FnOnce(&mut BytesMut) -> Result<(), Error>,
        requires
            !old(self).closed ==> forall|buf: &mut BytesMut|
                *buf == old(self).buf ==> #[trigger] call_requires(func, (buf,)),
        ensures
            old(self).closed ==> {
                &&& res == Err::<(), Error>(Error::DriverDown(DriverDown))
                &&& final(self)@ == old(self)@
            },
            !old(self).closed ==> exists|buf: &mut BytesMut|
                {
                    &&& *buf == old(self).buf
                    &&& #[trigger] call_ensures(func, (buf,), res)
                    &&& final(self)@ == old(self)@.sent(
                        contents(*final(buf)),
                        res is Ok,
                        seq![ResponseSender { id, msg_count }],
                    )
                },
            old(self)@.wf() && msg_count > 0 ==> final(self)@.wf(),
    {
        let res = self.send_one_way(func);
        if res.is_ok() {
            self.res.push_back(ResponseSender { id, msg_count });
        }
        proof {
            if res is Ok {
                assert(old(self)@.res + Seq::empty() =~= old(self)@.res);
                assert(self.res@ =~= old(self)@.res + seq![ResponseSender { id, msg_count }]);
                assert(forall|i: int|
                    0 <= i < old(self)@.res.len() ==> self.res@[i] == #[trigger] old(self)@.res[i]);
            }
        }
        res
    }

    /// What the driver has to do, if anything.
    pub fn wait(&self) -> (wait: Option<WaitState>)
        ensures
            wait == self@.wait(),
    {
        if !self.buf.is_empty() {
            Some(WaitState::WantWrite)
        } else if self.closed {
            Some(WaitState::WantClose)
        } else {
            None
        }
    }

    /// Takes no further request from now on.
    pub fn close(&mut self)
        ensures
            final(self)@ == old(self)@.shut(),
    {
        self.closed = true;
    }
}

/// Answers for a request.
pub struct Delivery {
    /// The number of the request.
    pub id: u64,
    /// The answers.
    pub buf: BytesMut,
    /// Whether they complete one of the answers that the request expects.
    pub complete: bool,
    /// Whether the request still waits.
    pub state: SenderState,
}

/// What a [`Delivery`] holds.
pub struct DeliveryView {
    pub id: u64,
    pub bytes: Seq<u8>,
    pub complete: bool,
    pub finish: bool,
}

impl View for Delivery {
    type V = DeliveryView;

    open spec fn view(&self) -> DeliveryView {
        DeliveryView {
            id: self.id,
            bytes: contents(self.buf),
            complete: self.complete,
            finish: self.state is Finish,
        }
    }
}

/// What a list of deliveries holds.
pub open spec fn sent_view(sent: Seq<Delivery>) -> Seq<DeliveryView> {
    Seq::new(sent.len(), |i: int| sent[i]@)
}

/// Answers that no request waits for.
pub struct OutOfBound(pub BytesMut);

/// Why decoding stopped.
pub enum DecodeEnd {
    /// There is no further whole message.
    More,
    /// These bytes are a whole message that was not asked for.
    Unasked(Seq<u8>),
    /// The header of a message is malformed, and gives this error.
    Malformed(io::Error),
    /// These bytes are answers that no request waits for.
    OutOfBound(Seq<u8>),
}

/// What comes of decoding: the bytes left, the requests that still wait, the answers handed out,
/// and why it stopped.
pub struct Decoded {
    pub rest: Seq<u8>,
    pub res: Seq<ResponseSender>,
    pub sent: Seq<DeliveryView>,
    pub end: DecodeEnd,
}

/// Whether the oldest of the requests `res` can take answers that end one answer if `complete`.
pub open spec fn can_take(res: Seq<ResponseSender>, complete: bool) -> bool {
    res.len() > 0 && (complete ==> res[0].msg_count > 0)
}

/// Decodes the bytes `src` that came from the server while the requests `res` wait. Answers go to
/// the oldest request until it has all that it expects.
pub open spec fn decode(src: Seq<u8>, res: Seq<ResponseSender>) -> Decoded
    decreases src.len(),
{
    match scan(src) {
        Scan::More => Decoded { rest: src, res, sent: Seq::empty(), end: DecodeEnd::More },
        Scan::Malformed(e) => Decoded {
            rest: src,
            res,
            sent: Seq::empty(),
            end: DecodeEnd::Malformed(e),
        },
        Scan::Unasked { len } => Decoded {
            rest: src.skip(len as int),
            res,
            sent: Seq::empty(),
            end: DecodeEnd::Unasked(src.take(len as int)),
        },
        Scan::Answers { len, complete } => if !can_take(res, complete) {
            Decoded {
                rest: src.skip(len as int),
                res,
                sent: Seq::empty(),
                end: DecodeEnd::OutOfBound(src.take(len as int)),
            }
        } else {
            proof {
                lemma_scan_from(src, 0);
            }
            let front = res[0].answered(complete);
            let finish = front.msg_count == 0;
            let next = decode(
                src.skip(len as int),
                if finish {
                    res.skip(1)
                } else {
                    res.update(0, front)
                },
            );
            let first = DeliveryView {
                id: front.id,
                bytes: src.take(len as int),
                complete,
                finish,
            };
            Decoded { sent: seq![first] + next.sent, ..next }
        },
    }
}

/// How far the driver is with writing.
#[derive(Debug, Clone, Copy, PartialEq, Eq, Structural)]
pub enum WriteState {
    /// There is nothing to write.
    Waiting,
    /// There are bytes to write.
    WantWrite,
    /// All bytes are written but not yet flushed.
    WantFlush,
}

/// How far the driver is with its life.
#[derive(Debug)]
pub enum DriverState {
    /// It takes requests.
    Running,
    /// It ends as soon as it can, with the error if there is one.
    Closing(Option<io::Error>),
}

/// What to do to the connection in order to write.
#[derive(Debug, Clone, Copy, PartialEq, Eq, Structural)]
pub enum WriteAction {
    /// Write from the start of the buffer.
    Write,
    /// Flush what was written.
    Flush,
}

/// What came of writing or flushing.
#[derive(Debug)]
pub enum WriteEvent {
    /// That many bytes were written. Flushing reports none.
    Done(usize),
    /// The connection was not ready.
    WouldBlock,
    /// It failed.
    Failed(io::Error),
}

/// How writing goes on.
#[derive(Debug)]
pub enum WriteStep {
    /// With the next action.
    Again,
    /// Not for now.
    Pause,
    /// It failed because the connection took no byte.
    WriteZero,
    /// It failed.
    Failed(io::Error),
}

/// What the driver does next.
#[derive(Debug, Clone, Copy, PartialEq, Eq, Structural)]
pub enum Step {
    /// Wait for the shared state and for the connection to be readable, and writable too if
    /// `writable`.
    Select { writable: bool },
    /// Wait for the connection to be readable, and writable too if `writable`.
    Ready { writable: bool },
    /// Shut the connection down and end.
    Shutdown,
}

/// What the driver does to a connection that is ready.
#[derive(Debug, Clone, Copy, PartialEq, Eq, Structural)]
pub enum ReadyAction {
    /// Read, and if that went well, write.
    ReadThenWrite,
    /// Read.
    Read,
    /// Write.
    Write,
    /// Nothing.
    Nothing,
}

/// What the driver does once the shared state wants something.
#[derive(Debug, Clone, Copy, PartialEq, Eq, Structural)]
pub enum AfterWait {
    /// Wait for the connection to be readable or writable.
    Ready,
    /// Ask for the next step.
    Again,
}

/// The driver of a connection.
pub struct GenericDriver {
    /// How far it is with its life.
    pub driver_state: DriverState,
    /// How far it is with writing.
    pub write_state: WriteState,
}

impl GenericDriver {
    /// Whether the driver has something to write or to flush.
    pub open spec fn wants_write(self) -> bool {
        !(self.write_state is Waiting)
    }

    /// What the driver does next.
    pub open spec fn step(self, inner: StateView) -> Step {
        match self.driver_state {
            DriverState::Running => Step::Select { writable: self.wants_write() },
            DriverState::Closing(_) => if !self.wants_write() && inner.res.len() == 0 {
                Step::Shutdown
            } else {
                Step::Ready { writable: self.wants_write() }
            },
        }
    }

    /// The driver after the shared state asked for `wait`.
    pub open spec fn after_wait(self, wait: WaitState) -> GenericDriver {
        match wait {
            WaitState::WantWrite => GenericDriver { write_state: WriteState::WantWrite, ..self },
            WaitState::WantClose => GenericDriver {
                driver_state: DriverState::Closing(None),
                ..self
            },
        }
    }

    /// The driver after a write that leaves `left` in the buffer.
    pub open spec fn after_write(self, left: Seq<u8>) -> GenericDriver {
        if left.len() == 0 {
            GenericDriver { write_state: WriteState::WantFlush, ..self }
        } else {
            self
        }
    }

    /// The driver after a flush.
    pub open spec fn after_flush(self) -> GenericDriver {
        GenericDriver { write_state: WriteState::Waiting, ..self }
    }

    /// The driver after writing failed with `e`: it only reads, and ends with the error.
    pub open spec fn after_write_err(self, e: io::Error) -> GenericDriver {
        GenericDriver {
            driver_state: DriverState::Closing(Some(e)),
            write_state: WriteState::Waiting,
        }
    }

    /// What the driver does to a connection that is ready. It reads first, and writes only where
    /// there is something to write or to flush.
    pub open spec fn ready_action(self, readable: bool, writable: bool) -> ReadyAction {
        match (readable, writable && self.wants_write()) {
            (true, true) => ReadyAction::ReadThenWrite,
            (true, false) => ReadyAction::Read,
            (false, true) => ReadyAction::Write,
            (false, false) => ReadyAction::Nothing,
        }
    }

    /// A driver and the state it shares, both without work.
    pub fn new() -> (res: (Self, State))
        ensures
            res.0 == (GenericDriver {
                driver_state: DriverState::Running,
                write_state: WriteState::Waiting,
            }),
            res.1@ == (StateView { closed: false, buf: Seq::empty(), res: Seq::empty() }),
    {
        (
            GenericDriver { driver_state: DriverState::Running, write_state: WriteState::Waiting },
            State::new(),
        )
    }

    /// Whether the driver has something to write or to flush.
    pub fn want_write(&self) -> (want: bool)
        ensures
            want == self.wants_write(),
    {
        !matches!(self.write_state, WriteState::Waiting)
    }

    /// Puts `msg` behind what is to be written, past the requests.
    pub fn send(&mut self, inner: &mut State, msg: &BytesMut)
        requires
            room(old(inner)@.buf, contents(*msg).len() as int),
        ensures
            *final(self) == old(self).after_wait(WaitState::WantWrite),
            final(inner)@ == old(inner)@.appended(contents(*msg)),
    {
        inner.buf.extend_from_slice(&**msg);
        self.write_state = WriteState::WantWrite;
    }

    /// What the driver does next.
    pub fn try_next(&self, inner: &State) -> (step: Step)
        ensures
            step == self.step(inner@),
    {
        let writable = self.want_write();
        match self.driver_state {
            DriverState::Running => Step::Select { writable },
            DriverState::Closing(_) => {
                if !writable && inner.res.len() == 0 {
                    // no interest to write to io and all response have been finished so
                    // shutdown io and exit.
                    Step::Shutdown
                } else {
                    Step::Ready { writable }
                }
            },
        }
    }

    /// Goes on after the shared state asked for `wait`.
    pub fn on_wait(&mut self, wait: WaitState) -> (after: AfterWait)
        ensures
            *final(self) == old(self).after_wait(wait),
            after is Ready <==> wait is WantWrite,
    {
        match wait {
            WaitState::WantWrite => {
                self.write_state = WriteState::WantWrite;
                AfterWait::Ready
            },
            WaitState::WantClose => {
                self.driver_state = DriverState::Closing(None);
                AfterWait::Again
            },
        }
    }

    /// What the driver does to a connection that turned out to be `readable` and `writable`.
    pub fn on_ready(&self, readable: bool, writable: bool) -> (action: ReadyAction)
        ensures
            action == self.ready_action(readable, writable),
    {
        let write = writable && self.want_write();
        if readable {
            if write {
                ReadyAction::ReadThenWrite
            } else {
                ReadyAction::Read
            }
        } else if write {
            ReadyAction::Write
        } else {
            ReadyAction::Nothing
        }
    }

    /// Goes on after reading came to `outcome`. A driver that cannot read ends with the error.
    pub fn on_read(outcome: Result<(), io::Error>) -> (res: Result<(), Error>)
        ensures
            res == match outcome {
                Ok(_) => Ok::<(), Error>(()),
                Err(e) => Err(Error::Io(e)),
            },
    {
        match outcome {
            Ok(_) => Ok(()),
            Err(e) => Err(Error::from(e)),
        }
    }

    /// Goes on after writing came to `outcome`. A driver that cannot write does not end at once:
    /// it keeps the error, and only reads from now on.
    pub fn on_written(&mut self, inner: &mut State, outcome: Result<(), io::Error>)
        ensures
            match outcome {
                Ok(_) => *final(self) == *old(self) && final(inner)@ == old(inner)@,
                Err(e) => {
                    &&& *final(self) == old(self).after_write_err(e)
                    &&& final(inner)@ == old(inner)@.after_write_err()
                },
            },
    {
        if let Err(e) = outcome {
            self.on_write_err(inner, e);
        }
    }

    /// What the driver ends with once the connection is shut down: its error, if it has one. The
    /// error is given out once.
    pub fn on_shutdown(&mut self) -> (end: Result<Option<backend::Message>, Error>)
        requires
            old(self).driver_state is Closing,
        ensures
            *final(self) == (GenericDriver {
                driver_state: DriverState::Closing(None),
                ..*old(self)
            }),
            match old(self).driver_state->Closing_0 {
                Some(e) => end == Err::<Option<backend::Message>, Error>(Error::Io(e)),
                None => end == Ok::<Option<backend::Message>, Error>(None),
            },
    {
        let mut state = DriverState::Closing(None);
        core::mem::swap(&mut state, &mut self.driver_state);
        match state {
            DriverState::Closing(Some(e)) => Err(Error::from(e)),
            _ => Ok(None),
        }
    }

    /// What to do to the connection in order to write.
    pub fn try_write(&self) -> (action: WriteAction)
        requires
            self.wants_write(),
        ensures
            action is Flush <==> self.write_state is WantFlush,
    {
        match self.write_state {
            WriteState::WantFlush => WriteAction::Flush,
            _ => WriteAction::Write,
        }
    }

    /// Goes on after a flush. A flush that would block is tried again when the connection is
    /// writable.
    pub fn on_flush(&mut self, event: WriteEvent) -> (step: WriteStep)
        requires
            old(self).write_state is WantFlush,
        ensures
            match event {
                WriteEvent::Done(_) => {
                    &&& step is Pause
                    &&& *final(self) == old(self).after_flush()
                },
                WriteEvent::WouldBlock => step is Pause && *final(self) == *old(self),
                WriteEvent::Failed(e) => {
                    &&& step matches WriteStep::Failed(same) && same == e
                    &&& *final(self) == *old(self)
                },
            },
    {
        match event {
            WriteEvent::Done(_) => {
                self.write_state = WriteState::Waiting;
                WriteStep::Pause
            },
            WriteEvent::WouldBlock => WriteStep::Pause,
            WriteEvent::Failed(e) => WriteStep::Failed(e),
        }
    }

    /// Goes on after a write. What was written leaves the buffer. Once the buffer is empty it is
    /// flushed.
    pub fn on_write(&mut self, inner: &mut State, event: WriteEvent) -> (step: WriteStep)
        requires
            old(self).write_state is WantWrite,
            event matches WriteEvent::Done(n) ==> n <= old(inner)@.buf.len(),
        ensures
            match event {
                WriteEvent::Done(n) if n > 0 => {
                    &&& step is Again
                    &&& final(inner)@ == old(inner)@.written(n as int)
                    &&& *final(self) == old(self).after_write(final(inner)@.buf)
                },
                WriteEvent::Done(_) => {
                    &&& step is WriteZero
                    &&& *final(self) == *old(self)
                    &&& final(inner)@ == old(inner)@
                },
                WriteEvent::WouldBlock => {
                    &&& step is Pause
                    &&& *final(self) == *old(self)
                    &&& final(inner)@ == old(inner)@
                },
                WriteEvent::Failed(e) => {
                    &&& step matches WriteStep::Failed(same) && same == e
                    &&& *final(self) == *old(self)
                    &&& final(inner)@ == old(inner)@
                },
            },
    {
        match event {
            WriteEvent::Done(n) => {
                if n == 0 {
                    return WriteStep::WriteZero;
                }
                inner.buf.advance(n);

                if inner.buf.is_empty() {
                    self.write_state = WriteState::WantFlush;
                }
                WriteStep::Again
            },
            WriteEvent::WouldBlock => WriteStep::Pause,
            WriteEvent::Failed(e) => WriteStep::Failed(e),
        }
    }

    /// Goes on after writing failed: the driver only reads from now on. What was not written is
    /// dropped, no further request is taken, and the driver ends with the error once it has the
    /// answers to the requests that wait.
    pub fn on_write_err(&mut self, inner: &mut State, e: io::Error)
        ensures
            final(inner)@ == old(inner)@.after_write_err(),
            *final(self) == old(self).after_write_err(e),
    {
        inner.buf.clear();
        // close shared state early so that it can be observed at once
        inner.closed = true;
        self.write_state = WriteState::Waiting;
        self.driver_state = DriverState::Closing(Some(e));
    }

    /// Takes the message at the start of `read_buf` out of it. `None` asks for more bytes.
    pub fn recv(read_buf: &mut BytesMut) -> (res: Option<Result<backend::Message, Error>>)
        requires
            can_hold_message(contents(*old(read_buf))),
        ensures
            is_partial(contents(*old(read_buf))) ==> {
                &&& res is None
                &&& contents(*final(read_buf)) == contents(*old(read_buf))
            },
            !is_partial(contents(*old(read_buf))) && declared_length(contents(*old(read_buf)))
                < 4 ==> {
                &&& res matches Some(Err(Error::Io(e)))
                &&& backend_message(contents(*old(read_buf)).take(5)) == Err::<
                    backend::Message,
                    io::Error,
                >(e)
                &&& contents(*final(read_buf)) == contents(*old(read_buf))
            },
            !is_partial(contents(*old(read_buf))) && declared_length(contents(*old(read_buf)))
                >= 4 ==> {
                let end = (declared_length(contents(*old(read_buf))) + 1) as int;
                &&& contents(*final(read_buf)) == contents(*old(read_buf)).skip(end)
                &&& match backend_message(contents(*old(read_buf)).take(end)) {
                    Ok(spelled) => res matches Some(Ok(m)) && m == spelled,
                    Err(e) => res matches Some(Err(Error::Io(same))) && same == e,
                }
            },
    {
        received(parse_message(read_buf))
    }

    /// Hands the answers in `read_buf` to the requests that wait for them, until it meets a
    /// message that was not asked for, which it returns, or runs out of whole messages. What was
    /// handed out is appended to `sent`, also where an error comes in between, or answers that no
    /// request waits for.
    pub fn try_decode(
        inner: &mut State,
        read_buf: &mut BytesMut,
        sent: &mut Vec<Delivery>,
    ) -> (res: Result<Result<Option<backend::Message>, Error>, OutOfBound>)
        ensures
            ({
                let decoded = decode(contents(*old(read_buf)), old(inner)@.res);
                &&& contents(*final(read_buf)) == decoded.rest
                &&& final(inner)@ == old(inner)@.answered(contents(*old(read_buf)))
                &&& old(inner)@.wf() ==> final(inner)@.wf()
                &&& sent_view(final(sent)@) == sent_view(old(sent)@) + decoded.sent
                &&& match decoded.end {
                    DecodeEnd::More => res matches Ok(Ok(None)),
                    DecodeEnd::Unasked(message) => match backend_message(message) {
                        Ok(spelled) => res matches Ok(Ok(Some(m))) && m == spelled,
                        Err(e) => res matches Ok(Err(Error::Io(same))) && same == e,
                    },
                    DecodeEnd::Malformed(e) => res matches Ok(Err(Error::Io(same))) && same == e,
                    DecodeEnd::OutOfBound(answers) => res matches Err(OutOfBound(buf)) && contents(
                        buf,
                    ) == answers,
                }
            }),
    {
        let ghost all = decode(contents(*read_buf), inner.res@);
        loop
            invariant
                old(inner)@.wf() ==> all_expect(inner.res@),
                inner.closed == old(inner).closed,
                inner.buf == old(inner).buf,
                all == decode(contents(*old(read_buf)), old(inner)@.res),
                ({
                    let now = decode(contents(*read_buf), inner.res@);
                    &&& now.rest == all.rest
                    &&& now.res == all.res
                    &&& now.end == all.end
                    &&& sent_view(sent@) + now.sent == sent_view(old(sent)@) + all.sent
                }),
            decreases contents(*read_buf).len(),
        {
            let ghost src = contents(*read_buf);
            let ghost queue = inner.res@;
            let ghost handed = sent_view(sent@);
            proof {
                lemma_scan_from(src, 0);
            }
            match ResponseMessage::try_from_buf(read_buf) {
                Err(e) => {
                    assert(handed + decode(src, queue).sent =~= handed);
                    return Ok(Err(e));
                },
                Ok(None) => {
                    assert(handed + decode(src, queue).sent =~= handed);
                    return Ok(Ok(None));
                },
                Ok(Some(ResponseMessage::Async(message))) => {
                    assert(handed + decode(src, queue).sent =~= handed);
                    return Ok(Ok(Some(message)));
                },
                Ok(Some(ResponseMessage::Normal { buf, complete })) => {
                    let mut front = match inner.res.pop_front() {
                        Some(front) => front,
                        None => {
                            assert(handed + decode(src, queue).sent =~= handed);
                            return Err(OutOfBound(buf));
                        },
                    };
                    if complete && front.msg_count == 0 {
                        inner.res.push_front(front);
                        proof {
                            assert(inner.res@ =~= queue);
                            assert(handed + decode(src, queue).sent =~= handed);
                        }
                        return Err(OutOfBound(buf));
                    }
                    let id = front.id;
                    let state = front.send(complete);
                    if let SenderState::Continue = state {
                        inner.res.push_front(front);
                    }
                    sent.push(Delivery { id, buf, complete, state });
                    proof {
                        let next = if front.msg_count == 0 {
                            queue.skip(1)
                        } else {
                            queue.update(0, front)
                        };
                        assert(inner.res@ =~= next);
                        let last = sent@.last();
                        assert(sent_view(sent@) =~= handed.push(last@));
                        let rest = decode(contents(*read_buf), next).sent;
                        assert(handed + (seq![last@] + rest) =~= handed.push(last@) + rest);
                    }
                },
            }
        }
    }
}

} // verus!
