//! Base64 in the standard alphabet with padding, as the opening exchange
//! uses it for the key and the accept token.

use vstd::prelude::*;

verus! {

/// The padding character `=`.
pub const PAD: u8 = 61;

/// The character that stands for the six-bit value `v`.
pub open spec fn digit(v: int) -> u8 {
    if v < 26 {
        (65 + v) as u8
    } else if v < 52 {
        (97 + (v - 26)) as u8
    } else if v < 62 {
        (48 + (v - 52)) as u8
    } else if v == 62 {
        43
    } else {
        47
    }
}

/// The six-bit value that a character of the alphabet stands for.
pub open spec fn digit_value(c: u8) -> Option<int> {
    if 65 <= c <= 90 {
        Some(c - 65)
    } else if 97 <= c <= 122 {
        Some(c - 97 + 26)
    } else if 48 <= c <= 57 {
        Some(c - 48 + 52)
    } else if c == 43 {
        Some(62)
    } else if c == 47 {
        Some(63)
    } else {
        None
    }
}

/// The encoding of `data`: four characters for every three bytes, the last
/// group padded where one or two bytes are left.
pub open spec fn encode_base64(data: Seq<u8>) -> Seq<u8>
    decreases data.len(),
{
    if data.len() == 0 {
        Seq::empty()
    } else if data.len() == 1 {
        seq![digit((data[0] / 4) as int), digit((data[0] % 4) * 16), PAD, PAD]
    } else if data.len() == 2 {
        seq![
            digit((data[0] / 4) as int),
            digit((data[0] % 4) * 16 + data[1] / 16),
            digit((data[1] % 16) * 4),
            PAD,
        ]
    } else {
        seq![
            digit((data[0] / 4) as int),
            digit((data[0] % 4) * 16 + data[1] / 16),
            digit((data[1] % 16) * 4 + data[2] / 64),
            digit((data[2] % 64) as int),
        ] + encode_base64(data.skip(3))
    }
}

fn digit_of(v: u8) -> (r: u8)
    requires
        v < 64,
    ensures
        r == digit(v as int),
        digit_value(r) == Some(v as int),
{
    if v < 26 {
        65 + v
    } else if v < 52 {
        97 + (v - 26)
    } else if v < 62 {
        48 + (v - 52)
    } else if v == 62 {
        43
    } else {
        47
    }
}

/// The value of a character of the alphabet, if it is one.
pub fn value_of(c: u8) -> (r: Option<u8>)
    ensures
        match digit_value(c) {
            Some(v) => r == Some(v as u8) && 0 <= v < 64,
            None => r is None,
        },
{
    if 65 <= c && c <= 90 {
        Some(c - 65)
    } else if 97 <= c && c <= 122 {
        Some(c - 97 + 26)
    } else if 48 <= c && c <= 57 {
        Some(c - 48 + 52)
    } else if c == 43 {
        Some(62)
    } else if c == 47 {
        Some(63)
    } else {
        None
    }
}

/// Encodes `data`.
pub fn encode(data: &[u8]) -> (r: Vec<u8>)
    ensures
        r@ == encode_base64(data@),
{
    let n: usize = data.len();
    let mut out: Vec<u8> = Vec::new();
    let mut i: usize = 0;
    assert(data@.skip(0) =~= data@);
    while n - i >= 3
        invariant
            n == data@.len(),
            i <= n,
            encode_base64(data@) == out@ + encode_base64(data@.skip(i as int)),
        decreases n - i,
    {
        let a: u8 = data[i];
        let b: u8 = data[i + 1];
        let c: u8 = data[i + 2];
        let ghost before = out@;
        let ghost rest = data@.skip(i as int);
        out.push(digit_of(a / 4));
        out.push(digit_of((a % 4) * 16 + b / 16));
        out.push(digit_of((b % 16) * 4 + c / 64));
        out.push(digit_of(c % 64));
        proof {
            assert(rest.skip(3) =~= data@.skip(i + 3));
            assert(out@ + encode_base64(data@.skip(i + 3)) =~= before + encode_base64(rest));
        }
        i += 3;
    }
    let ghost before = out@;
    let ghost rest = data@.skip(i as int);
    if n - i == 1 {
        let a: u8 = data[i];
        out.push(digit_of(a / 4));
        out.push(digit_of((a % 4) * 16));
        out.push(PAD);
        out.push(PAD);
        assert(out@ =~= before + encode_base64(rest));
    } else if n - i == 2 {
        let a: u8 = data[i];
        let b: u8 = data[i + 1];
        out.push(digit_of(a / 4));
        out.push(digit_of((a % 4) * 16 + b / 16));
        out.push(digit_of((b % 16) * 4));
        out.push(PAD);
        assert(out@ =~= before + encode_base64(rest));
    } else {
        assert(out@ =~= before + encode_base64(rest));
    }
    out
}

/// The length of an encoding: four characters for every three bytes begun.
pub proof fn lemma_encoded_len(data: Seq<u8>)
    ensures
        encode_base64(data).len() == 4 * ((data.len() + 2) / 3),
    decreases data.len(),
{
    if data.len() >= 3 {
        lemma_encoded_len(data.skip(3));
    }
}

/// Every character of an encoding is of the alphabet, but for the padding,
/// which stands only at the end and only where a last group is short.
pub proof fn lemma_encoded_digits(data: Seq<u8>, i: int)
    requires
        0 <= i < encode_base64(data).len(),
    ensures
        i < 4 * (data.len() / 3) ==> digit_value(encode_base64(data)[i]) is Some,
    decreases data.len(),
{
    lemma_encoded_len(data);
    if data.len() >= 3 {
        let rest = data.skip(3);
        lemma_encoded_len(rest);
        if i >= 4 {
            lemma_encoded_digits(rest, i - 4);
            assert(encode_base64(data)[i] == encode_base64(rest)[i - 4]);
        }
    }
}

/// Every character of an encoding is of the alphabet or the padding.
pub proof fn lemma_encoded_chars(data: Seq<u8>, i: int)
    requires
        0 <= i < encode_base64(data).len(),
    ensures
        digit_value(encode_base64(data)[i]) is Some || encode_base64(data)[i] == PAD,
    decreases data.len(),
{
    if data.len() >= 3 {
        if i >= 4 {
            lemma_encoded_chars(data.skip(3), i - 4);
            assert(encode_base64(data)[i] == encode_base64(data.skip(3))[i - 4]);
        }
    }
}

} // verus!
