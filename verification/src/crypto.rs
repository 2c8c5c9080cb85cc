//! Message authentication and Base64, as the TURN REST credentials use them.
use base64::Engine;
use hmac::Mac;
use vstd::prelude::*;

verus! {

/// The HMAC-SHA1 tag (RFC 2104 over SHA-1) of `message` under `key`.
pub uninterp spec fn hmac_sha1(key: Seq<u8>, message: Seq<u8>) -> Seq<u8>;

/// `Hmac::<Sha1>::new_from_slice(key)`, `update(message)`, then
/// `finalize().into_bytes()` from the `hmac` and `sha1` crates. The tag is
/// named, not stated; it is 20 bytes long, the SHA-1 output size. HMAC takes
/// keys of any length, so `new_from_slice` does not fail.
#[verifier::external_body]
pub(crate) fn hmac_sha1_tag(key: &[u8], message: &[u8]) -> (tag: Vec<u8>)
    ensures
        tag@ == hmac_sha1(key@, message@),
        tag@.len() == 20,
{
    let mut mac = hmac::Hmac::<sha1::Sha1>::new_from_slice(key).expect("HMAC accepts any key");
    mac.update(message);
    mac.finalize().into_bytes().to_vec()
}

/// The character of the standard Base64 alphabet for the six-bit value `v`.
pub open spec fn base64_digit(v: nat) -> char {
    if v < 26 {
        (('A' as u32) + v) as char
    } else if v < 52 {
        (('a' as u32) + (v - 26)) as char
    } else if v < 62 {
        (('0' as u32) + (v - 52)) as char
    } else if v == 62 {
        '+'
    } else {
        '/'
    }
}

/// Standard Base64 (RFC 4648, section 4) with `=` padding.
pub open spec fn base64_standard(d: Seq<u8>) -> Seq<char>
    decreases d.len(),
{
    if d.len() == 0 {
        Seq::empty()
    } else if d.len() == 1 {
        seq![
            base64_digit(d[0] as nat / 4),
            base64_digit((d[0] as nat % 4) * 16),
            '=',
            '=',
        ]
    } else if d.len() == 2 {
        seq![
            base64_digit(d[0] as nat / 4),
            base64_digit((d[0] as nat % 4) * 16 + d[1] as nat / 16),
            base64_digit((d[1] as nat % 16) * 4),
            '=',
        ]
    } else {
        seq![
            base64_digit(d[0] as nat / 4),
            base64_digit((d[0] as nat % 4) * 16 + d[1] as nat / 16),
            base64_digit((d[1] as nat % 16) * 4 + d[2] as nat / 64),
            base64_digit(d[2] as nat % 64),
        ] + base64_standard(d.skip(3))
    }
}

/// `base64::engine::general_purpose::STANDARD.encode(data)`: standard Base64
/// with padding. The engine panics only where the encoded length overflows
/// `usize`, which the bound on `data` rules out.
#[verifier::external_body]
pub(crate) fn base64_encode(data: &[u8]) -> (s: String)
    requires
        data@.len() <= 0x1000_0000,
    ensures
        s@ == base64_standard(data@),
{
    base64::engine::general_purpose::STANDARD.encode(data)
}

} // verus!
