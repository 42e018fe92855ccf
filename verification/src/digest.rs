//! SHA-256 digests in hexadecimal.
use sha2::{Digest, Sha256};
use vstd::prelude::*;

verus! {

/// The SHA-256 digest of a byte string.
pub uninterp spec fn sha256(data: Seq<u8>) -> Seq<u8>;

/// Calls `Sha256::digest`. The contract names the digest and says that it is
/// 32 bytes long.
#[verifier::external_body]
fn sha256_bytes(data: &Vec<u8>) -> (res: Vec<u8>)
    ensures
        res@ == sha256(data@),
        res@.len() == 32,
{
    Sha256::digest(data).to_vec()
}

/// The lower-case hexadecimal digit for a value below sixteen.
pub open spec fn hex_char(d: u8) -> char {
    if d < 10 {
        (48 + d) as char
    } else {
        (87 + d) as char
    }
}

/// Two lower-case hexadecimal digits for each byte, high digit first.
pub open spec fn hex_text(bytes: Seq<u8>) -> Seq<char> {
    Seq::new(
        2 * bytes.len(),
        |i: int|
            if i % 2 == 0 {
                hex_char((bytes[i / 2] / 16) as u8)
            } else {
                hex_char((bytes[i / 2] % 16) as u8)
            },
    )
}

/// Calls `hex::encode`, which writes each byte as two lower-case digits.
#[verifier::external_body]
fn hex_encode(bytes: &Vec<u8>) -> (res: String)
    ensures
        res@ == hex_text(bytes@),
{
    hex::encode(bytes)
}

/// The SHA-256 digest of `data` in hexadecimal.
pub fn sha256_hex(data: &Vec<u8>) -> (res: String)
    ensures
        res@ == hex_text(sha256(data@)),
        res@.len() == 64,
{
    hex_encode(&sha256_bytes(data))
}

/// Different byte strings have different hexadecimal texts.
pub proof fn law_hex_is_unambiguous(a: Seq<u8>, b: Seq<u8>)
    requires
        hex_text(a) == hex_text(b),
    ensures
        a == b,
{
    assert(hex_text(a).len() == 2 * a.len());
    assert(hex_text(b).len() == 2 * b.len());
    assert forall|i: int| 0 <= i < a.len() implies a[i] == b[i] by {
        assert((2 * i) / 2 == i && (2 * i) % 2 == 0);
        assert((2 * i + 1) / 2 == i && (2 * i + 1) % 2 == 1);
        assert(hex_text(a)[2 * i] == hex_char((a[i] / 16) as u8));
        assert(hex_text(b)[2 * i] == hex_char((b[i] / 16) as u8));
        assert(hex_text(a)[2 * i + 1] == hex_char((a[i] % 16) as u8));
        assert(hex_text(b)[2 * i + 1] == hex_char((b[i] % 16) as u8));
        lemma_hex_char((a[i] / 16) as u8, (b[i] / 16) as u8);
        lemma_hex_char((a[i] % 16) as u8, (b[i] % 16) as u8);
    }
    assert(a == b);
}

proof fn lemma_hex_char(d: u8, e: u8)
    requires
        d < 16,
        e < 16,
        hex_char(d) == hex_char(e),
    ensures
        d == e,
{
    assert(hex_char(d) as u32 == if d < 10 {
        48 + d
    } else {
        87 + d
    });
    assert(hex_char(e) as u32 == if e < 10 {
        48 + e
    } else {
        87 + e
    });
}

/// The digits are the decimal digits and the small letters from a to f, in the
/// order of their values.
pub proof fn law_hex_digits(d: u8)
    requires
        d < 16,
    ensures
        hex_char(d) == "0123456789abcdef"@[d as int],
{
    reveal_strlit("0123456789abcdef");
}

} // verus!
