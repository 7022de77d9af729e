//! Payload masking: each byte is XORed with the key byte at its index modulo four.

use vstd::prelude::*;

verus! {

/// `data` with each byte XORed with `key[i % 4]`.
pub open spec fn masked(data: Seq<u8>, key: Seq<u8>) -> Seq<u8> {
    Seq::new(data.len(), |i: int| data[i] ^ key[i % 4])
}

/// Masks (or unmasks) `data` with `key`.
pub fn mask_data(key: [u8; 4], data: &[u8]) -> (r: Vec<u8>)
    ensures
        r@ == masked(data@, key@),
{
    let mut out: Vec<u8> = Vec::with_capacity(data.len());
    let mut i: usize = 0;
    while i < data.len()
        invariant
            i <= data@.len(),
            out@ == masked(data@.take(i as int), key@),
        decreases data@.len() - i,
    {
        out.push(data[i] ^ key[i % 4]);
        i = i + 1;
        assert(out@ =~= masked(data@.take(i as int), key@));
    }
    assert(data@.take(i as int) =~= data@);
    out
}

/// Unmasking what was masked with the same key gives the bytes back.
pub proof fn lemma_mask_symmetric(data: Seq<u8>, key: Seq<u8>)
    requires
        key.len() == 4,
    ensures
        masked(masked(data, key), key) == data,
{
    assert forall|i: int| 0 <= i < data.len() implies #[trigger] masked(masked(data, key), key)[i]
        == data[i] by {
        let a = data[i];
        let k = key[i % 4];
        assert((a ^ k) ^ k == a) by (bit_vector);
    }
    assert(masked(masked(data, key), key) =~= data);
}

} // verus!
