//! Digests and text encodings of bytes, computed by the `sha2`, `base64`
//! and `hex` crates.
use vstd::prelude::*;
use base64::Engine;
use sha2::Digest;

verus! {

/// The SHA-256 digest of `data`, as `sha2::Sha256::digest` computes it.
pub uninterp spec fn sha256_digest(data: Seq<u8>) -> Seq<u8>;

/// Calls `sha2::Sha256::digest`; the contract names the digest and states its
/// documented length of 32 bytes, not the hash function itself.
#[verifier::external_body]
pub(crate) fn sha256(data: &[u8]) -> (r: Vec<u8>)
    ensures
        r@ == sha256_digest(data@),
        r@.len() == 32,
{
    sha2::Sha256::digest(data).to_vec()
}

/// Length of the base64 text for `n` bytes: four characters per three bytes,
/// and for a last partial group either four characters (padded) or two or
/// three (unpadded).
pub open spec fn base64_len(n: nat, padded: bool) -> nat {
    let rem = n % 3;
    (n / 3) * 4 + if rem == 0 {
        0nat
    } else if padded {
        4nat
    } else if rem == 1 {
        2nat
    } else {
        3nat
    }
}

/// `base64::engine::general_purpose::STANDARD.encode(data)`: the standard
/// alphabet with `=` padding.
pub uninterp spec fn base64_standard(data: Seq<u8>) -> Seq<char>;

/// `base64::engine::general_purpose::URL_SAFE_NO_PAD.encode(data)`: the
/// URL-safe alphabet without padding.
pub uninterp spec fn base64_url_no_pad(data: Seq<u8>) -> Seq<char>;

/// Calls `STANDARD.encode`, which panics when the encoded length overflows
/// `usize`; the contract names the text and states its length, not the
/// alphabet mapping.
#[verifier::external_body]
pub(crate) fn encode_base64_standard(data: &[u8]) -> (r: String)
    requires
        base64_len(data@.len(), true) <= usize::MAX,
    ensures
        r@ == base64_standard(data@),
        r@.len() == base64_len(data@.len(), true),
{
    base64::engine::general_purpose::STANDARD.encode(data)
}

/// Calls `URL_SAFE_NO_PAD.encode`, which panics when the encoded length
/// overflows `usize`; the contract names the text and states its length, not
/// the alphabet mapping.
#[verifier::external_body]
pub(crate) fn encode_base64_url_no_pad(data: &[u8]) -> (r: String)
    requires
        base64_len(data@.len(), false) <= usize::MAX,
    ensures
        r@ == base64_url_no_pad(data@),
        r@.len() == base64_len(data@.len(), false),
{
    base64::engine::general_purpose::URL_SAFE_NO_PAD.encode(data)
}

/// Lower-case hexadecimal digit for `v` (0 to 15).
pub open spec fn hex_digit(v: int) -> char {
    if v < 10 {
        ((v + 48) as u32) as char
    } else {
        ((v + 87) as u32) as char
    }
}

/// `data` as lower-case hexadecimal, two digits per byte, high half first.
pub open spec fn hex_lower(data: Seq<u8>) -> Seq<char>
    decreases data.len(),
{
    if data.len() == 0 {
        Seq::empty()
    } else {
        hex_lower(data.drop_last()).push(hex_digit(data.last() as int / 16)).push(
            hex_digit(data.last() as int % 16),
        )
    }
}

/// Two hexadecimal digits stand for each byte.
pub proof fn lemma_hex_lower_len(data: Seq<u8>)
    ensures
        hex_lower(data).len() == 2 * data.len(),
    decreases data.len(),
{
    if data.len() > 0 {
        lemma_hex_lower_len(data.drop_last());
    }
}

fn hex_digit_exec(v: u8) -> (r: char)
    requires
        v < 16,
    ensures
        r == hex_digit(v as int),
{
    if v < 10 {
        (48 + v) as char
    } else {
        (87 + v) as char
    }
}

/// `data` as lower-case hexadecimal, two digits per byte, as `hex::encode`
/// writes it.
pub(crate) fn encode_hex(data: &[u8]) -> (r: String)
    ensures
        r@ == hex_lower(data@),
{
    let mut digits: Vec<char> = Vec::new();
    for i in 0..data.len()
        invariant
            digits@ == hex_lower(data@.take(i as int)),
    {
        let b = data[i];
        digits.push(hex_digit_exec(b / 16));
        digits.push(hex_digit_exec(b % 16));
        assert(data@.take(i + 1).drop_last() =~= data@.take(i as int));
    }
    assert(data@.take(data@.len() as int) =~= data@);
    crate::text::string_of(&digits)
}

} // verus!
