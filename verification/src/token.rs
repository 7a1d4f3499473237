//! The key and the accept token of the opening exchange, and the random
//! bytes that keys and masks are made of.

use vstd::prelude::*;
use crate::base64::{digit, digit_value, encode_base64, lemma_encoded_len, value_of, PAD};
use crate::bytes::{append_bytes, append_text, ascii};

verus! {

/// The fixed text that is hashed together with a key.
pub open spec fn guid() -> Seq<u8> {
    ascii("258EAFA5-E914-47DA-95CA-C5AB0DC85B11"@)
}

/// The SHA-1 digest of `data`.
pub uninterp spec fn sha1_digest(data: Seq<u8>) -> Seq<u8>;

/// `openssl::sha::sha1`: the twenty bytes of the SHA-1 digest of `data`.
#[verifier::external_body]
fn sha1_of(data: &[u8]) -> (r: [u8; 20])
    ensures
        r@ == sha1_digest(data@),
        r@.len() == 20,
{
    openssl::sha::sha1(data)
}

/// The longest buffer that OpenSSL fills with random bytes in one call.
pub const MAX_RANDOM: usize = 0x7fff_ffff;

/// `openssl::rand::rand_bytes`: overwrites the bytes of `buf` with random
/// ones and says whether OpenSSL could do so. The length stays; nothing is
/// known of the bytes.
#[verifier::external_body]
fn fill_random(buf: &mut Vec<u8>) -> (r: bool)
    requires
        old(buf)@.len() <= MAX_RANDOM,
    ensures
        final(buf)@.len() == old(buf)@.len(),
{
    openssl::rand::rand_bytes(buf.as_mut_slice()).is_ok()
}

/// A buffer of `n` zero bytes.
pub fn zeros(n: usize) -> (r: Vec<u8>)
    ensures
        r@ == Seq::new(n as nat, |i: int| 0u8),
{
    let mut out: Vec<u8> = Vec::new();
    let mut i: usize = 0;
    while i < n
        invariant
            i <= n,
            out@ == Seq::new(i as nat, |j: int| 0u8),
        decreases n - i,
    {
        out.push(0);
        i += 1;
        assert(out@ =~= Seq::new(i as nat, |j: int| 0u8));
    }
    out
}

/// What becomes of a buffer that OpenSSL was asked to fill: the buffer
/// where it did, and nothing where it did not.
pub fn filled(buf: Vec<u8>, done: bool) -> (r: Option<Vec<u8>>)
    ensures
        r == (if done {
            Some(buf)
        } else {
            None
        }),
{
    if done {
        Some(buf)
    } else {
        None
    }
}

/// `n` random bytes, or nothing where OpenSSL has none to give or `n` is
/// more than it gives at once.
pub fn random_bytes(n: usize) -> (r: Option<Vec<u8>>)
    ensures
        r matches Some(bytes) ==> bytes@.len() == n,
        n > MAX_RANDOM ==> r is None,
{
    if n > MAX_RANDOM {
        return None;
    }
    let mut out = zeros(n);
    let done = fill_random(&mut out);
    filled(out, done)
}

/// The masking key that four bytes make, in their order: nothing where
/// there are no bytes, or not four of them.
pub fn mask_of(bytes: Option<Vec<u8>>) -> (r: Option<[u8; 4]>)
    ensures
        match bytes {
            Some(b) => if b@.len() == 4 {
                r matches Some(key) && key@ == b@
            } else {
                r is None
            },
            None => r is None,
        },
{
    match bytes {
        Some(b) => {
            if b.len() == 4 {
                let key: [u8; 4] = [b[0], b[1], b[2], b[3]];
                assert(key@ =~= b@);
                Some(key)
            } else {
                None
            }
        },
        None => None,
    }
}

/// A fresh masking key, or nothing where OpenSSL has no random bytes to
/// give.
pub fn random_mask() -> (r: Option<[u8; 4]>) {
    mask_of(random_bytes(4))
}

/// What is hashed for a key: the key, then the fixed text.
pub open spec fn token_input(key: Seq<u8>) -> Seq<u8> {
    key + guid()
}

/// The accept token that answers a key: the base64 encoding of the SHA-1
/// digest of the key followed by the fixed text.
pub open spec fn accept_token(key: Seq<u8>) -> Seq<u8> {
    encode_base64(sha1_digest(token_input(key)))
}

/// The bytes that are hashed for `key`.
pub fn token_input_of(key: &[u8]) -> (r: Vec<u8>)
    ensures
        r@ == token_input(key@),
{
    let mut input: Vec<u8> = Vec::new();
    append_bytes(&mut input, key);
    append_text(&mut input, "258EAFA5-E914-47DA-95CA-C5AB0DC85B11");
    input
}

/// The accept token for a digest.
pub fn token_of_digest(digest: &[u8]) -> (r: Vec<u8>)
    ensures
        r@ == encode_base64(digest@),
{
    crate::base64::encode(digest)
}

/// The length of every accept token: the base64 of twenty bytes.
pub const TOKEN_LEN: usize = 28;

/// Computes the accept token that answers `key`: twenty-eight characters.
pub fn accept_token_for(key: &[u8]) -> (r: Vec<u8>)
    ensures
        r@ == accept_token(key@),
        r@.len() == TOKEN_LEN,
{
    let input = token_input_of(key);
    let digest = sha1_of(input.as_slice());
    proof {
        lemma_encoded_len(digest@);
    }
    token_of_digest(digest.as_slice())
}

/// Whether `key` has the shape of sixteen bytes in base64: twenty-two
/// characters of the alphabet, the last of which leaves its low four bits
/// clear, and two padding characters.
pub open spec fn is_key(key: Seq<u8>) -> bool {
    &&& key.len() == 24
    &&& forall|i: int| 0 <= i < 22 ==> digit_value(#[trigger] key[i]) is Some
    &&& digit_value(key[21]) matches Some(v) && v % 16 == 0
    &&& key[22] == PAD
    &&& key[23] == PAD
}

/// Whether `key` has the shape of sixteen bytes in base64.
pub fn check_key(key: &[u8]) -> (r: bool)
    ensures
        r == is_key(key@),
{
    if key.len() != 24 {
        return false;
    }
    let mut i: usize = 0;
    while i < 22
        invariant
            key@.len() == 24,
            i <= 22,
            forall|j: int| 0 <= j < i ==> digit_value(#[trigger] key@[j]) is Some,
        decreases 22 - i,
    {
        if value_of(key[i]).is_none() {
            return false;
        }
        i += 1;
    }
    match value_of(key[21]) {
        Some(v) => v % 16 == 0 && key[22] == PAD && key[23] == PAD,
        None => false,
    }
}

proof fn lemma_digit_value(v: int)
    requires
        0 <= v < 64,
    ensures
        digit_value(digit(v)) == Some(v),
{
}

/// The base64 encoding of any sixteen bytes has the shape of a key.
pub proof fn lemma_encoded_nonce_is_key(nonce: Seq<u8>)
    requires
        nonce.len() == 16,
    ensures
        is_key(encode_base64(nonce)),
{
    let key = encode_base64(nonce);
    lemma_encoded_len(nonce);
    let r1 = nonce.skip(3);
    let r2 = r1.skip(3);
    let r3 = r2.skip(3);
    let r4 = r3.skip(3);
    let r5 = r4.skip(3);
    lemma_encoded_len(r1);
    lemma_encoded_len(r2);
    lemma_encoded_len(r3);
    lemma_encoded_len(r4);
    lemma_encoded_len(r5);
    let last = r5[0];
    assert(encode_base64(r5) == seq![
        digit((last / 4) as int),
        digit((last % 4) * 16),
        PAD,
        PAD,
    ]);
    assert(key[20] == encode_base64(r5)[0]);
    assert(key[21] == encode_base64(r5)[1]);
    assert(key[22] == encode_base64(r5)[2]);
    assert(key[23] == encode_base64(r5)[3]);
    lemma_digit_value((last / 4) as int);
    lemma_digit_value((last % 4) * 16);
    assert forall|i: int| 0 <= i < 22 implies digit_value(#[trigger] key[i]) is Some by {
        if i < 20 {
            crate::base64::lemma_encoded_digits(nonce, i);
        }
    }
}

} // verus!
