//! Messages of the server, and the requests that wait for them.
use std::io;

use bytes::BytesMut;
use postgres_protocol::message::backend;
use vstd::prelude::*;
use vstd::slice::slice_subrange;

use crate::buffer::{be_value, contents};

use super::error::Error;

verus! {

/// [`postgres_protocol::message::backend::Message`], a message of the server.
#[verifier::external_type_specification]
#[verifier::external_body]
pub struct ExMessage(backend::Message);

/// What `Message::parse` makes of the bytes of one whole message, or of a header that declares a
/// length below four: the message that they spell, or the error where they spell none.
pub uninterp spec fn backend_message(message: Seq<u8>) -> Result<backend::Message, io::Error>;

/// The error that `Header::parse` gives for the five bytes of a malformed header.
pub uninterp spec fn header_error(header: Seq<u8>) -> io::Error;

/// The tag of the message that ends the answer to a request, the letter Z.
pub const READY_FOR_QUERY_TAG: u8 = 0x5A;

/// The tag of a message that warns of something, the letter N.
pub const NOTICE_RESPONSE_TAG: u8 = 0x4E;

/// The tag of a message from a channel that the client listens to, the letter A.
pub const NOTIFICATION_RESPONSE_TAG: u8 = 0x41;

/// The tag of a message that reports the value of a parameter, the letter S.
pub const PARAMETER_STATUS_TAG: u8 = 0x53;

/// The length that the message at the start of `src` declares. It counts all of the message but
/// the tag.
pub open spec fn declared_length(src: Seq<u8>) -> nat {
    be_value(src.subrange(1, 5))
}

/// Reads the tag and the length of the message at the start of `src`. `Ok(None)` asks for more
/// bytes. A length below four, or of more than 31 bits, is an error.
pub open spec fn read_header(src: Seq<u8>) -> Result<Option<(u8, nat)>, io::Error> {
    if src.len() < 5 {
        Ok(None)
    } else if declared_length(src) < 4 || declared_length(src) > i32::MAX {
        Err(header_error(src.take(5)))
    } else {
        Ok(Some((src[0], declared_length(src))))
    }
}

/// `Header::parse` with `Header::tag` and `Header::len`: the tag and the length of the message at
/// the start of `src`. Which error a malformed header gives depends on the bytes of the header
/// alone, and is not said.
#[verifier::external_body]
fn parse_header(src: &[u8]) -> (header: io::Result<Option<(u8, i32)>>)
    ensures
        match header {
            Ok(None) => read_header(src@) == Ok::<Option<(u8, nat)>, io::Error>(None),
            Ok(Some((tag, len))) => len >= 4 && read_header(src@) == Ok::<
                Option<(u8, nat)>,
                io::Error,
            >(Some((tag, len as nat))),
            Err(e) => read_header(src@) is Err && e == header_error(src@.take(5)),
        },
{
    backend::Header::parse(src).map(|header| header.map(|header| (header.tag(), header.len())))
}

/// Whether the message at the start of `src` is not there as a whole.
pub open spec fn is_partial(src: Seq<u8>) -> bool {
    src.len() < 5 || (declared_length(src) >= 4 && src.len() < declared_length(src) + 1)
}

/// Whether a buffer can hold the whole of the message at the start of `src`.
pub open spec fn can_hold_message(src: Seq<u8>) -> bool {
    src.len() >= 5 && is_partial(src) ==> declared_length(src) + 1 <= isize::MAX
}

/// `Message::parse`: takes the message at the start of `src` out of it. A partial message is left
/// where it is, and room is made for the rest of it. So is a message whose length is below four,
/// which is an error. A whole message is taken, also where its bytes spell none, which is an
/// error. What the bytes of a message spell, and which error comes where they spell none, depends
/// on these bytes alone, and is not said.
#[verifier::external_body]
pub(crate) fn parse_message(src: &mut BytesMut) -> (message: io::Result<Option<backend::Message>>)
    requires
        can_hold_message(contents(*old(src))),
    ensures
        is_partial(contents(*old(src))) ==> {
            &&& message matches Ok(None)
            &&& contents(*final(src)) == contents(*old(src))
        },
        !is_partial(contents(*old(src))) && declared_length(contents(*old(src))) < 4 ==> {
            &&& message matches Err(e)
            &&& backend_message(contents(*old(src)).take(5)) == Err::<backend::Message, io::Error>(
                e,
            )
            &&& contents(*final(src)) == contents(*old(src))
        },
        !is_partial(contents(*old(src))) && declared_length(contents(*old(src))) >= 4 ==> {
            let end = (declared_length(contents(*old(src))) + 1) as int;
            &&& contents(*final(src)) == contents(*old(src)).skip(end)
            &&& match backend_message(contents(*old(src)).take(end)) {
                Ok(spelled) => message matches Ok(Some(m)) && m == spelled,
                Err(e) => message matches Err(same) && same == e,
            }
        },
{
    backend::Message::parse(src)
}

/// What an attempt to parse a message came to: a message, an error, or `None` while the message
/// is partial.
pub fn received(parsed: io::Result<Option<backend::Message>>) -> (res: Option<
    Result<backend::Message, Error>,
>)
    ensures
        res == match parsed {
            Ok(None) => None::<Result<backend::Message, Error>>,
            Ok(Some(message)) => Some(Ok(message)),
            Err(e) => Some(Err(Error::Io(e))),
        },
{
    match parsed {
        Ok(None) => None,
        Ok(Some(message)) => Some(Ok(message)),
        Err(e) => Some(Err(Error::from(e))),
    }
}

/// Whether a message with this tag comes from the server unasked.
pub open spec fn is_async_tag(tag: u8) -> bool {
    tag == NOTICE_RESPONSE_TAG || tag == NOTIFICATION_RESPONSE_TAG || tag == PARAMETER_STATUS_TAG
}

/// What stands at the start of the bytes that came from the server.
pub enum Scan {
    /// Nothing yet that could be taken.
    More,
    /// That many bytes of whole answers, the last of which ends its request if `complete`.
    Answers { len: nat, complete: bool },
    /// One whole message of that many bytes that was not asked for.
    Unasked { len: nat },
    /// A message whose header is malformed, with the error it gives.
    Malformed(io::Error),
}

/// Looks at the messages in `src` from `start` on, all those before `start` being whole answers
/// none of which ends its request. Answers are taken together, up to the first that ends its
/// request. A message that was not asked for is taken alone.
pub open spec fn scan_from(src: Seq<u8>, start: nat) -> Scan
    decreases src.len() - start,
{
    let so_far = if start == 0 {
        Scan::More
    } else {
        Scan::Answers { len: start, complete: false }
    };
    if start > src.len() {
        so_far
    } else {
        match read_header(src.skip(start as int)) {
            Err(e) => Scan::Malformed(e),
            Ok(None) => so_far,
            Ok(Some((tag, len))) => {
                let end = start + len + 1;
                if src.len() < end {
                    so_far
                } else if is_async_tag(tag) {
                    if start == 0 {
                        Scan::Unasked { len: end }
                    } else {
                        so_far
                    }
                } else if tag == READY_FOR_QUERY_TAG {
                    Scan::Answers { len: end, complete: true }
                } else {
                    scan_from(src, end)
                }
            },
        }
    }
}

/// Looks at the messages at the start of `src`.
pub open spec fn scan(src: Seq<u8>) -> Scan {
    scan_from(src, 0)
}

/// Something that came from the server.
pub enum ResponseMessage {
    /// Answers to the oldest request that still waits. The last of them ends it if `complete`.
    Normal { buf: BytesMut, complete: bool },
    /// A message that was not asked for.
    Async(backend::Message),
}

pub proof fn lemma_scan_from(src: Seq<u8>, start: nat)
    requires
        start <= src.len(),
    ensures
        match scan_from(src, start) {
            Scan::More => start == 0,
            Scan::Answers { len, complete } => {
                &&& start <= len <= src.len()
                &&& len > 0
                &&& complete ==> len > start
            },
            Scan::Unasked { len } => {
                &&& start == 0
                &&& 5 <= len <= src.len()
                &&& len == declared_length(src) + 1
                &&& len <= i32::MAX + 1
            },
            Scan::Malformed(_) => true,
        },
    decreases src.len() - start,
{
    if start == 0 {
        assert(src.skip(0) =~= src);
    }
    if let Ok(Some((tag, len))) = read_header(src.skip(start as int)) {
        let end = start + len + 1;
        if end <= src.len() && !is_async_tag(tag) && tag != READY_FOR_QUERY_TAG {
            lemma_scan_from(src, end);
        }
    }
}

/// What stands at the start of the bytes that came from the server, as [`Scan`] says it.
#[derive(Debug)]
pub enum Scanned {
    /// Nothing yet that could be taken.
    More,
    /// That many bytes of whole answers, the last of which ends its request if `complete`.
    Answers { len: usize, complete: bool },
    /// One whole message of that many bytes that was not asked for.
    Unasked { len: usize },
    /// A message whose header is malformed, with the error it gives.
    Malformed(io::Error),
}

impl View for Scanned {
    type V = Scan;

    open spec fn view(&self) -> Scan {
        match *self {
            Scanned::More => Scan::More,
            Scanned::Answers { len, complete } => Scan::Answers { len: len as nat, complete },
            Scanned::Unasked { len } => Scan::Unasked { len: len as nat },
            Scanned::Malformed(e) => Scan::Malformed(e),
        }
    }
}

/// Looks at the messages at the start of `src`.
pub fn scan_slice(src: &[u8]) -> (scanned: Scanned)
    ensures
        scanned@ == scan(src@),
{
    let total = src.len();
    let mut tail: usize = 0;
    loop
        invariant
            tail <= total == src@.len(),
            scan_from(src@, tail as nat) == scan(src@),
        decreases total - tail,
    {
        let slice = slice_subrange(src, tail, total);
        assert(slice@ =~= src@.skip(tail as int));
        let so_far = if tail == 0 {
            Scanned::More
        } else {
            Scanned::Answers { len: tail, complete: false }
        };
        let (tag, len) = match parse_header(slice) {
            Err(e) => return Scanned::Malformed(e),
            Ok(None) => return so_far,
            Ok(Some(header)) => header,
        };
        let len = len as usize;
        if total - tail <= len {
            return so_far;
        }
        let end: usize = tail + len + 1;
        if tag == NOTICE_RESPONSE_TAG || tag == NOTIFICATION_RESPONSE_TAG || tag
            == PARAMETER_STATUS_TAG {
            if tail > 0 {
                return so_far;
            }
            return Scanned::Unasked { len: end };
        }
        if tag == READY_FOR_QUERY_TAG {
            return Scanned::Answers { len: end, complete: true };
        }
        tail = end;
    }
}

impl ResponseMessage {
    /// Takes what stands at the start of `src` out of it.
    pub fn try_from_buf(src: &mut BytesMut) -> (res: Result<Option<Self>, Error>)
        ensures
            match scan(contents(*old(src))) {
                Scan::More => {
                    &&& res matches Ok(None)
                    &&& contents(*final(src)) == contents(*old(src))
                },
                Scan::Answers { len, complete } => {
                    &&& res matches Ok(Some(ResponseMessage::Normal { buf, complete: c }))
                    &&& contents(buf) == contents(*old(src)).take(len as int)
                    &&& c == complete
                    &&& contents(*final(src)) == contents(*old(src)).skip(len as int)
                },
                Scan::Unasked { len } => {
                    &&& contents(*final(src)) == contents(*old(src)).skip(len as int)
                    &&& match backend_message(contents(*old(src)).take(len as int)) {
                        Ok(spelled) => res matches Ok(Some(ResponseMessage::Async(m))) && m
                            == spelled,
                        Err(e) => res matches Err(Error::Io(same)) && same == e,
                    }
                },
                Scan::Malformed(e) => {
                    &&& res matches Err(Error::Io(same))
                    &&& same == e
                    &&& contents(*final(src)) == contents(*old(src))
                },
            },
    {
        proof {
            lemma_scan_from(contents(*src), 0);
        }
        match scan_slice(&**src) {
            Scanned::More => Ok(None),
            Scanned::Answers { len, complete } => Ok(
                Some(ResponseMessage::Normal { buf: src.split_to(len), complete }),
            ),
            Scanned::Unasked { .. } => match received(parse_message(src)) {
                Some(Ok(message)) => Ok(Some(ResponseMessage::Async(message))),
                Some(Err(e)) => Err(e),
                None => Ok(None),
            },
            Scanned::Malformed(e) => Err(Error::from(e)),
        }
    }
}

/// Whether a request still waits for answers.
#[derive(Debug, Clone, Copy, PartialEq, Eq, Structural)]
pub enum SenderState {
    /// It still waits.
    Continue,
    /// It has got all of its answers.
    Finish,
}

/// A request that waits for answers.
#[derive(Debug, Clone, Copy, PartialEq, Eq, Structural)]
pub struct ResponseSender {
    /// The number by which the one who made the request knows it.
    pub id: u64,
    /// The number of answers that are still to be completed.
    pub msg_count: usize,
}

impl ResponseSender {
    /// The request after answers that complete one more of the expected ones if `complete`.
    pub open spec fn answered(self, complete: bool) -> ResponseSender {
        ResponseSender {
            id: self.id,
            msg_count: if complete {
                (self.msg_count - 1) as usize
            } else {
                self.msg_count
            },
        }
    }

    /// Notes answers that complete one more of the expected ones if `complete`.
    pub fn send(&mut self, complete: bool) -> (state: SenderState)
        requires
            complete ==> old(self).msg_count > 0,
        ensures
            *final(self) == old(self).answered(complete),
            state is Finish <==> final(self).msg_count == 0,
    {
        if complete {
            self.msg_count = self.msg_count - 1;
        }
        if self.msg_count == 0 {
            SenderState::Finish
        } else {
            SenderState::Continue
        }
    }
}

} // verus!
