//! The masking transform that client frames go through on the wire.

use vstd::prelude::*;

verus! {

/// The payload `data` with byte `i` combined by exclusive or with byte
/// `i mod 4` of the key.
pub open spec fn mask_bytes(data: Seq<u8>, key: [u8; 4]) -> Seq<u8> {
    Seq::new(data.len(), |i: int| data[i] ^ key[i % 4])
}

/// The four bytes of a key in order.
pub open spec fn key_bytes(key: [u8; 4]) -> Seq<u8> {
    seq![key[0], key[1], key[2], key[3]]
}

proof fn lemma_xor_twice(a: u8, b: u8)
    ensures
        (a ^ b) ^ b == a,
{
    assert((a ^ b) ^ b == a) by (bit_vector);
}

/// Masking is its own inverse: applying a key twice gives the payload back.
pub proof fn lemma_mask_involution(data: Seq<u8>, key: [u8; 4])
    ensures
        mask_bytes(mask_bytes(data, key), key) == data,
{
    let once = mask_bytes(data, key);
    let twice = mask_bytes(once, key);
    assert forall|i: int| 0 <= i < data.len() implies twice[i] == data[i] by {
        lemma_xor_twice(data[i], key[i % 4]);
    }
    assert(twice =~= data);
}

/// Returns `data` masked with `key`.
pub fn masked(data: &[u8], key: [u8; 4]) -> (r: Vec<u8>)
    ensures
        r@ == mask_bytes(data@, key),
{
    let mut out: Vec<u8> = Vec::new();
    let n: usize = data.len();
    let mut i: usize = 0;
    while i < n
        invariant
            n == data@.len(),
            i <= n,
            out@.len() == i,
            forall|j: int| 0 <= j < i ==> out@[j] == data@[j] ^ key[j % 4],
        decreases n - i,
    {
        out.push(data[i] ^ key[i % 4]);
        i += 1;
    }
    assert(out@ =~= mask_bytes(data@, key));
    out
}

/// Masks `data` in place with `key`.
pub fn apply_mask(data: &mut Vec<u8>, key: [u8; 4])
    ensures
        final(data)@ == mask_bytes(old(data)@, key),
{
    let n: usize = data.len();
    let mut i: usize = 0;
    while i < n
        invariant
            n == data@.len(),
            n == old(data)@.len(),
            i <= n,
            forall|j: int| 0 <= j < i ==> data@[j] == old(data)@[j] ^ key[j % 4],
            forall|j: int| i <= j < n ==> data@[j] == old(data)@[j],
        decreases n - i,
    {
        let b: u8 = data[i] ^ key[i % 4];
        data.set(i, b);
        i += 1;
    }
    assert(data@ =~= mask_bytes(old(data)@, key));
}

} // verus!
