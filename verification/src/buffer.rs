//! Growable byte buffers and big-endian integers.
//!
//! The buffers are those of the `bytes` crate. What a buffer holds is named by [`contents`] and
//! [`frozen`], and the operations the library uses are specified over these two names.
//!
//! None of the specifications speaks of capacity. An operation that grows a buffer asks that what
//! the buffer then holds is within what one allocation may hold. The allocation itself can be
//! larger, by spare capacity and by bytes dropped at the front. That it cannot be made, for want of
//! memory or of address space, lies outside of all specifications.
use bytes::{Buf, BufMut, Bytes, BytesMut};
use vstd::arithmetic::power::pow;
use vstd::prelude::*;

verus! {

/// [`bytes::BytesMut`], a buffer that owns its bytes and can grow.
#[verifier::external_type_specification]
#[verifier::external_body]
pub struct ExBytesMut(BytesMut);

/// [`bytes::Bytes`], a buffer whose bytes no longer change.
#[verifier::external_type_specification]
#[verifier::external_body]
pub struct ExBytes(Bytes);

/// The bytes that a growable buffer holds, first to last.
pub uninterp spec fn contents(buf: BytesMut) -> Seq<u8>;

/// The bytes that a frozen buffer holds, first to last.
pub uninterp spec fn frozen(buf: Bytes) -> Seq<u8>;

/// Whether `held` with `more` bytes behind it is within what one allocation may hold.
pub open spec fn room(held: Seq<u8>, more: int) -> bool {
    held.len() + more <= isize::MAX
}

/// `BytesMut::new`: the new buffer is empty.
pub assume_specification[ BytesMut::new ]() -> (buf: BytesMut)
    ensures
        contents(buf) == Seq::<u8>::empty(),
;

/// `BytesMut::len`: the number of bytes held.
pub assume_specification[ BytesMut::len ](buf: &BytesMut) -> (len: usize)
    ensures
        len == contents(*buf).len(),
;

/// `BytesMut::is_empty`: whether no byte is held.
pub assume_specification[ BytesMut::is_empty ](buf: &BytesMut) -> (empty: bool)
    ensures
        empty == (contents(*buf).len() == 0),
;

/// `BytesMut::reserve`: makes room and leaves the bytes held as they are.
pub assume_specification[ BytesMut::reserve ](buf: &mut BytesMut, additional: usize)
    requires
        room(contents(*old(buf)), additional as int),
    ensures
        contents(*final(buf)) == contents(*old(buf)),
;

/// `BytesMut::split_to`: takes the first `at` bytes out and leaves the others. It panics where
/// fewer than `at` bytes are held.
pub assume_specification[ BytesMut::split_to ](buf: &mut BytesMut, at: usize) -> (head: BytesMut)
    requires
        at <= contents(*old(buf)).len(),
    ensures
        contents(head) == contents(*old(buf)).take(at as int),
        contents(*final(buf)) == contents(*old(buf)).skip(at as int),
;

/// `BytesMut::truncate`: drops the bytes from `len` on, and does nothing where there are none.
pub assume_specification[ BytesMut::truncate ](buf: &mut BytesMut, len: usize)
    ensures
        contents(*final(buf)) == if len <= contents(*old(buf)).len() {
            contents(*old(buf)).take(len as int)
        } else {
            contents(*old(buf))
        },
;

/// `BytesMut::clear`: drops every byte.
pub assume_specification[ BytesMut::clear ](buf: &mut BytesMut)
    ensures
        contents(*final(buf)) == Seq::<u8>::empty(),
;

/// `BytesMut::extend_from_slice`: appends `extend`.
pub assume_specification[ BytesMut::extend_from_slice ](buf: &mut BytesMut, extend: &[u8])
    requires
        room(contents(*old(buf)), extend@.len() as int),
    ensures
        contents(*final(buf)) == contents(*old(buf)) + extend@,
;

/// `BytesMut::freeze`: the same bytes, no longer to be changed.
pub assume_specification[ BytesMut::freeze ](buf: BytesMut) -> (res: Bytes)
    ensures
        frozen(res) == contents(buf),
;

/// `Buf::advance` of `BytesMut`: drops the first `cnt` bytes. It panics where fewer than `cnt`
/// bytes are held.
pub assume_specification[ <BytesMut as Buf>::advance ](buf: &mut BytesMut, cnt: usize)
    requires
        cnt <= contents(*old(buf)).len(),
    ensures
        contents(*final(buf)) == contents(*old(buf)).skip(cnt as int),
;

/// `BufMut::put_slice` of `BytesMut`: appends `src`.
pub assume_specification[ <BytesMut as BufMut>::put_slice ](buf: &mut BytesMut, src: &[u8])
    requires
        room(contents(*old(buf)), src@.len() as int),
    ensures
        contents(*final(buf)) == contents(*old(buf)) + src@,
;

/// `BufMut::put_u16` of `BytesMut`: appends the two bytes of `n`, most significant first.
#[verifier::external_body]
pub(crate) fn put_u16(buf: &mut BytesMut, n: u16)
    requires
        room(contents(*old(buf)), 2),
    ensures
        contents(*final(buf)) == contents(*old(buf)) + be_bytes(n as nat, 2),
{
    buf.put_u16(n)
}

/// `BufMut::put_u64` of `BytesMut`: appends the eight bytes of `n`, most significant first.
#[verifier::external_body]
pub(crate) fn put_u64(buf: &mut BytesMut, n: u64)
    requires
        room(contents(*old(buf)), 8),
    ensures
        contents(*final(buf)) == contents(*old(buf)) + be_bytes(n as nat, 8),
{
    buf.put_u64(n)
}

/// `Deref::deref` of `BytesMut`: the bytes held, as a slice.
pub assume_specification[ <BytesMut as core::ops::Deref>::deref ](buf: &BytesMut) -> (slice: &[u8])
    ensures
        slice@ == contents(*buf),
;

/// `DerefMut::deref_mut` of `BytesMut`: the bytes held, as a slice through which they change.
pub assume_specification[ <BytesMut as core::ops::DerefMut>::deref_mut ](buf: &mut BytesMut) -> (slice: &mut [u8])
    ensures
        slice@ == contents(*old(buf)),
        contents(*final(buf)) == final(slice)@,
;

/// The number whose bytes, most significant first, are `bytes`.
pub open spec fn be_value(bytes: Seq<u8>) -> nat
    decreases bytes.len(),
{
    if bytes.len() == 0 {
        0
    } else {
        be_value(bytes.drop_last()) * 256 + bytes.last() as nat
    }
}

/// The `width` low bytes of `value`, most significant first.
pub open spec fn be_bytes(value: nat, width: nat) -> Seq<u8>
    decreases width,
{
    if width == 0 {
        Seq::empty()
    } else {
        be_bytes(value / 256, (width - 1) as nat).push((value % 256) as u8)
    }
}

pub proof fn lemma_be_bytes_len(value: nat, width: nat)
    ensures
        be_bytes(value, width).len() == width,
    decreases width,
{
    if width > 0 {
        lemma_be_bytes_len(value / 256, (width - 1) as nat);
    }
}

pub proof fn lemma_be_value_bound(bytes: Seq<u8>)
    ensures
        be_value(bytes) < pow(256, bytes.len()),
    decreases bytes.len(),
{
    reveal(pow);
    if bytes.len() > 0 {
        lemma_be_value_bound(bytes.drop_last());
    }
}

/// A number that fits in `width` bytes is read back from the bytes written for it.
pub proof fn lemma_be_bytes_read_back(value: nat, width: nat)
    requires
        value < pow(256, width),
    ensures
        be_value(be_bytes(value, width)) == value,
    decreases width,
{
    reveal(pow);
    if width > 0 {
        let high = be_bytes(value / 256, (width - 1) as nat);
        lemma_be_bytes_read_back(value / 256, (width - 1) as nat);
        assert(be_bytes(value, width).drop_last() =~= high);
    }
}

pub proof fn lemma_pow_256()
    ensures
        pow(256, 2) == 0x1_0000,
        pow(256, 4) == 0x1_0000_0000,
        pow(256, 8) == 0x1_0000_0000_0000_0000,
{
    reveal(pow);
    assert(pow(256, 0) == 1);
    assert(pow(256, 1) == 256);
    assert(pow(256, 2) == 0x1_0000);
    assert(pow(256, 3) == 0x100_0000);
    assert(pow(256, 4) == 0x1_0000_0000);
    assert(pow(256, 5) == 0x100_0000_0000);
    assert(pow(256, 6) == 0x1_0000_0000_0000);
    assert(pow(256, 7) == 0x100_0000_0000_0000);
}

/// The number at `bytes[at..at + width]`, most significant byte first.
pub(crate) fn read_be(bytes: &[u8], at: usize, width: usize) -> (value: u64)
    requires
        at + width <= bytes@.len(),
        width <= 8,
    ensures
        value == be_value(bytes@.subrange(at as int, at + width)),
{
    let mut value: u64 = 0;
    let mut i: usize = 0;
    proof {
        lemma_pow_256();
    }
    while i < width
        invariant
            i <= width <= 8,
            at + width <= bytes@.len() == bytes.len(),
            value == be_value(bytes@.subrange(at as int, at + i)),
            pow(256, 8) == 0x1_0000_0000_0000_0000,
        decreases width - i,
    {
        let ghost longer = bytes@.subrange(at as int, at + i + 1);
        proof {
            assert(longer.drop_last() =~= bytes@.subrange(at as int, at + i));
            lemma_be_value_bound(longer);
            vstd::arithmetic::power::lemma_pow_increases(256, (i + 1) as nat, 8);
        }
        value = value * 256 + bytes[at + i] as u64;
        i += 1;
    }
    value
}

} // verus!
