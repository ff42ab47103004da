//! The date of HTTP messages, kept as the bytes of the `date` header.
use std::time::{Duration, SystemTime, UNIX_EPOCH};

use httpdate::HttpDate;
use tokio::time::Instant;
use vstd::prelude::*;
use vstd::utf8::encode_utf8;

verus! {

/// [`tokio::time::Instant`], a point on a clock that never runs backwards.
#[verifier::external_type_specification]
#[verifier::external_body]
pub struct ExInstant(Instant);

/// `Instant::now` of tokio: the present. Nothing is claimed of it.
#[verifier::external_body]
fn instant_now() -> Instant {
    Instant::now()
}

/// The number of bytes in an HTTP date.
pub const DATE_VALUE_LENGTH: usize = 29;

/// The first second that an HTTP date cannot name, counted from the Unix epoch: the start of the
/// year 10000.
pub const DATE_LIMIT: u64 = 253_402_300_800;

/// The bytes of the HTTP date that lies `secs` seconds behind the Unix epoch, such as
/// `Sun, 06 Nov 1994 08:49:37 GMT`.
pub uninterp spec fn http_date(secs: u64) -> Seq<u8>;

/// `HttpDate::from` and its `Display`: the HTTP date that lies `secs` seconds behind the Unix
/// epoch. It is always of one length. A later time than the limit makes `HttpDate::from` panic.
#[verifier::external_body]
fn format_http_date(secs: u64) -> (date: String)
    requires
        secs < DATE_LIMIT,
    ensures
        encode_utf8(date@) == http_date(secs),
        encode_utf8(date@).len() == DATE_VALUE_LENGTH,
{
    HttpDate::from(UNIX_EPOCH + Duration::from_secs(secs)).to_string()
}

/// `SystemTime::now`: the whole seconds since the Unix epoch, or `None` where the clock is set to
/// a time before it. Nothing is claimed of the time.
#[verifier::external_body]
fn clock_seconds() -> (secs: Option<u64>) {
    SystemTime::now().duration_since(UNIX_EPOCH).ok().map(|since| since.as_secs())
}

/// Whether `secs` can be what the system clock gave when it was read: the seconds since the Unix
/// epoch, or `None` for a time before it.
pub closed spec fn clock_gave(secs: Option<u64>) -> bool {
    call_ensures(clock_seconds, (), secs)
}

/// Whether `now` can be what the clock that never runs backwards gave when it was read.
pub closed spec fn instant_gave(now: Instant) -> bool {
    call_ensures(instant_now, (), now)
}

/// What a clock gave comes from a call of that clock, and from nothing else.
proof fn law_readings_are_those_of_the_clocks(secs: Option<u64>, now: Instant)
    ensures
        clock_gave(secs) <==> call_ensures(clock_seconds, (), secs),
        instant_gave(now) <==> call_ensures(instant_now, (), now),
{
}

/// A source of the current date and time.
///
/// This is usually backed by a timer of low resolution, which spares system calls. The date and
/// the instant can change from one call to the next, so which they are is left to each source.
pub trait DateTime {
    /// The number of bytes handed out by [`DateTime::with_date`].
    const DATE_VALUE_LENGTH: usize;

    /// Hands the bytes of the current date to `f`, once, and returns what `f` returns.
    fn with_date<F, O>(&self, f: F) -> (out: O) where F: FnOnce(&[u8]) -> O
        requires
            forall|bytes: &[u8]|
                bytes@.len() == Self::DATE_VALUE_LENGTH ==> #[trigger] call_requires(f, (bytes,)),
        ensures
            exists|bytes: &[u8]|
                bytes@.len() == Self::DATE_VALUE_LENGTH && #[trigger] call_ensures(
                    f,
                    (bytes,),
                    out,
                ),
    ;

    /// The current instant.
    fn now(&self) -> Instant;
}

/// A date with the instant at which it was taken.
#[derive(Copy, Clone)]
pub struct DateTimeState {
    /// The bytes of the date.
    pub date: [u8; DATE_VALUE_LENGTH],
    /// The instant.
    pub now: Instant,
}

impl DateTimeState {
    /// The date that lies `secs` seconds behind the Unix epoch, taken at `now`.
    pub fn at(secs: u64, now: Instant) -> (state: Self)
        requires
            secs < DATE_LIMIT,
        ensures
            state.date@ == http_date(secs),
            state.now == now,
    {
        let mut state = DateTimeState { date: [0;DATE_VALUE_LENGTH], now };
        let text = format_http_date(secs);
        state.write_str(text.as_str());
        state
    }

    /// The date that a clock shows at `now`, given the seconds since the Unix epoch. `None` where
    /// the clock shows a time before the epoch, which is given as `None`, or one that no HTTP date
    /// can name.
    pub fn from_clock(secs: Option<u64>, now: Instant) -> (state: Option<Self>)
        ensures
            state is Some <==> (secs matches Some(s) && s < DATE_LIMIT),
            state matches Some(state) ==> state.date@ == http_date(secs->0) && state.now == now,
    {
        match secs {
            Some(secs) if secs < DATE_LIMIT => Some(DateTimeState::at(secs, now)),
            _ => None,
        }
    }

    /// The date that `clock` shows at the present that `instant` gives. Each is asked once. `None`
    /// where the clock shows a time that no HTTP date can name.
    fn read<C, N>(clock: C, instant: N) -> (state: Option<Self>) where
        C: Fn() -> Option<u64>,
        N: Fn() -> Instant,

        requires
            call_requires(clock, ()),
            call_requires(instant, ()),
        ensures
            exists|secs: Option<u64>, now: Instant| #[trigger]
                call_ensures(clock, (), secs) && #[trigger] call_ensures(instant, (), now) && (
                state is Some <==> (secs matches Some(s) && s < DATE_LIMIT)) && (
                state matches Some(state) ==> state.date@ == http_date(secs->0) && state.now
                    == now),
    {
        let now = instant();
        let secs = clock();
        DateTimeState::from_clock(secs, now)
    }

    /// The present. `None` where the system clock shows a time that no HTTP date can name.
    pub fn new() -> (state: Option<Self>)
        ensures
            state matches Some(state) ==> exists|secs: u64|
                secs < DATE_LIMIT && state.date@ == #[trigger] http_date(secs),
            exists|secs: Option<u64>, now: Instant| #[trigger]
                clock_gave(secs) && #[trigger] instant_gave(now) && (state is Some <==> (
                secs matches Some(s) && s < DATE_LIMIT)) && (state matches Some(state)
                    ==> state.date@ == http_date(secs->0) && state.now == now),
    {
        let state = DateTimeState::read(clock_seconds, instant_now);
        proof {
            let (secs, now) = choose|secs: Option<u64>, now: Instant| #[trigger]
                call_ensures(clock_seconds, (), secs) && #[trigger] call_ensures(
                    instant_now,
                    (),
                    now,
                ) && (state is Some <==> (secs matches Some(s) && s < DATE_LIMIT)) && (
                state matches Some(state) ==> state.date@ == http_date(secs->0) && state.now
                    == now);
            assert(clock_gave(secs) && instant_gave(now));
        }
        state
    }

    /// Overwrites the date with the bytes of `s`.
    pub fn write_str(&mut self, s: &str)
        requires
            encode_utf8(s@).len() == DATE_VALUE_LENGTH,
        ensures
            final(self).date@ == encode_utf8(s@),
            final(self).now == old(self).now,
    {
        let bytes = s.as_bytes();
        let mut i: usize = 0;
        while i < DATE_VALUE_LENGTH
            invariant
                i <= DATE_VALUE_LENGTH == bytes@.len(),
                bytes@ == encode_utf8(s@),
                self.now == old(self).now,
                forall|j: int| 0 <= j < i ==> self.date@[j] == bytes@[j],
            decreases DATE_VALUE_LENGTH - i,
        {
            self.date[i] = bytes[i];
            i += 1;
        }
        assert(self.date@ =~= bytes@);
    }
}

impl DateTime for DateTimeState {
    const DATE_VALUE_LENGTH: usize = DATE_VALUE_LENGTH;

    fn with_date<F, O>(&self, f: F) -> (out: O) where F: FnOnce(&[u8]) -> O
        ensures
            exists|bytes: &[u8]|
                bytes@ == self.date@ && #[trigger] call_ensures(f, (bytes,), out),
    {
        let bytes = self.date.as_slice();
        f(bytes)
    }

    fn now(&self) -> (now: Instant)
        ensures
            now == self.now,
    {
        self.now
    }
}

/// The date handed out always has the length that is announced, which is 29 bytes. Every second of
/// the 2932897 days from the start of 1970 to the end of 9999 has a date.
pub proof fn law_date_has_its_length(state: DateTimeState)
    ensures
        state.date@.len() == <DateTimeState as DateTime>::DATE_VALUE_LENGTH,
        state.date@.len() == 29,
        DATE_LIMIT == 2_932_897 * 86_400,
{
}

} // verus!
