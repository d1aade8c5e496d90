use vstd::prelude::*;

use crate::json::hex_digit_lower;
use crate::text::push_char;
use sha2::Digest;

verus! {

/// The SHA-256 digest of a byte sequence.
pub uninterp spec fn sha256(data: Seq<u8>) -> Seq<u8>;

/// `sha2::Sha256` over `data`: the digest, which is 32 bytes long (the output type of
/// `Sha256` is a 32-byte array).
#[verifier::external_body]
fn sha256_digest(data: &[u8]) -> (r: Vec<u8>)
    ensures
        r@ == sha256(data@),
        r@.len() == 32,
{
    let mut hasher = sha2::Sha256::new();
    hasher.update(data);
    hasher.finalize().to_vec()
}

/// Each byte as two lowercase hexadecimal digits (`{:02x}`).
pub open spec fn hex_lower(bytes: Seq<u8>) -> Seq<char>
    decreases bytes.len(),
{
    if bytes.len() == 0 {
        Seq::empty()
    } else {
        hex_lower(bytes.drop_last()) + seq![
            hex_digit_lower(bytes.last() as int / 16),
            hex_digit_lower(bytes.last() as int % 16),
        ]
    }
}

/// A lowercase hexadecimal digit.
pub open spec fn is_lower_hex(c: char) -> bool {
    ('0' <= c && c <= '9') || ('a' <= c && c <= 'f')
}

pub proof fn lemma_hex_lower(bytes: Seq<u8>)
    ensures
        hex_lower(bytes).len() == 2 * bytes.len(),
        forall|i: int| 0 <= i < hex_lower(bytes).len() ==> is_lower_hex(#[trigger] hex_lower(bytes)[i]),
    decreases bytes.len(),
{
    if bytes.len() > 0 {
        lemma_hex_lower(bytes.drop_last());
        let h = hex_lower(bytes.drop_last());
        let t = seq![hex_digit_lower(bytes.last() as int / 16), hex_digit_lower(bytes.last() as int % 16)];
        assert forall|i: int| 0 <= i < (h + t).len() implies is_lower_hex(#[trigger] (h + t)[i]) by {
            if i >= h.len() {
                let n = if i == h.len() { bytes.last() as int / 16 } else { bytes.last() as int % 16 };
                assert(0 <= n < 16);
                assert(t[i - h.len()] == hex_digit_lower(n));
            }
        }
    }
}

fn hex_char(n: u8) -> (c: char)
    requires
        n < 16,
    ensures
        c == hex_digit_lower(n as int),
{
    if n < 10 {
        if n == 0 { '0' } else if n == 1 { '1' } else if n == 2 { '2' } else if n == 3 { '3' }
        else if n == 4 { '4' } else if n == 5 { '5' } else if n == 6 { '6' } else if n == 7 { '7' }
        else if n == 8 { '8' } else { '9' }
    } else {
        if n == 10 { 'a' } else if n == 11 { 'b' } else if n == 12 { 'c' } else if n == 13 { 'd' }
        else if n == 14 { 'e' } else { 'f' }
    }
}

/// Lowercase hexadecimal of the SHA-256 digest of `bytes`.
pub fn sha256_hex(bytes: &[u8]) -> (s: String)
    ensures
        s@ == hex_lower(sha256(bytes@)),
        s@.len() == 64,
        forall|i: int| 0 <= i < s@.len() ==> is_lower_hex(#[trigger] s@[i]),
{
    let out = sha256_digest(bytes);
    let mut s = String::new();
    let mut i: usize = 0;
    while i < out.len()
        invariant
            i <= out.len(),
            s@ == hex_lower(out@.take(i as int)),
        decreases out.len() - i,
    {
        let b = out[i];
        proof {
            assert(out@.take(i + 1).drop_last() == out@.take(i as int));
            assert(out@.take(i + 1).last() == b);
        }
        push_char(&mut s, hex_char(b / 16));
        push_char(&mut s, hex_char(b % 16));
        i = i + 1;
    }
    assert(out@.take(out.len() as int) == out@);
    proof {
        lemma_hex_lower(out@);
    }
    s
}

} // verus!
