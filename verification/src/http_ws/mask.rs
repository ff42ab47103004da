//! Masking of payloads.
use vstd::prelude::*;

verus! {

/// `payload` with byte `i` combined by exclusive or with byte `i % 4` of `key`.
pub open spec fn masked(payload: Seq<u8>, key: Seq<u8>) -> Seq<u8> {
    Seq::new(payload.len(), |i: int| payload[i] ^ key[i % 4])
}

/// Masking twice with one key gives the payload back.
pub proof fn law_mask_undoes_itself(payload: Seq<u8>, key: Seq<u8>)
    requires
        key.len() == 4,
    ensures
        masked(masked(payload, key), key) == payload,
{
    assert forall|i: int| 0 <= i < payload.len() implies masked(masked(payload, key), key)[i]
        == payload[i] by {
        let b = payload[i];
        let k = key[i % 4];
        assert((b ^ k) ^ k == b) by (bit_vector);
    }
    assert(masked(masked(payload, key), key) =~= payload);
}

/// Masks the bytes of `buf` with `mask`, in place.
pub fn apply_mask(buf: &mut [u8], mask: [u8; 4])
    ensures
        final(buf)@ == masked(old(buf)@, mask@),
        final(buf)@.len() == old(buf)@.len(),
        forall|i: int|
            0 <= i < old(buf)@.len() ==> #[trigger] final(buf)@[i] == old(buf)@[i] ^ mask@[i % 4],
{
    let len = buf.len();
    let mut i: usize = 0;
    while i < len
        invariant
            i <= len,
            len == buf@.len() == old(buf)@.len(),
            forall|j: int| i <= j < len ==> buf@[j] == old(buf)@[j],
            forall|j: int| 0 <= j < i ==> buf@[j] == old(buf)@[j] ^ mask@[j % 4],
        decreases len - i,
    {
        let key: u8 = mask[i % 4];
        buf[i] = buf[i] ^ key;
        i += 1;
    }
    assert(buf@ =~= masked(old(buf)@, mask@));
}

} // verus!
