//! The calls into the hash, cipher, checksum, random-number and TLS crates,
//! each with the contract that the library relies on.
use vstd::prelude::*;
use aes::Aes128;
use aes::cipher::{KeyIvInit, StreamCipher};
use ctr::Ctr128BE;
use hmac::{Hmac, Mac};
use openssl::error::ErrorStack;
use openssl::ssl::SslRef;
use sha1::Sha1;

verus! {

/// The tag length of HMAC-SHA1.
pub const HMAC_SHA1_LEN: usize = 20;

/// HMAC-SHA1 (RFC 2104) of `message` under `key`.
pub uninterp spec fn hmac_sha1(key: Seq<u8>, message: Seq<u8>) -> Seq<u8>;

/// The AES-128 counter-mode keystream (`Ctr128BE<Aes128>`) of `len` bytes for
/// `key` and initial counter block `iv`.
pub uninterp spec fn aes128_ctr_keystream(key: Seq<u8>, iv: Seq<u8>, len: nat) -> Seq<u8>;

/// The CRC-32 (IEEE) checksum of `data`, as `crc32fast::hash` computes it.
pub uninterp spec fn crc32(data: Seq<u8>) -> u32;

/// The CRC-32C (Castagnoli) checksum of `data`, as `crc32c::crc32c` computes it.
pub uninterp spec fn crc32c(data: Seq<u8>) -> u32;

/// The characters of `bytes` decoded as UTF-8, with U+FFFD in place of each
/// invalid sequence, as `String::from_utf8_lossy` computes them.
pub uninterp spec fn utf8_lossy(bytes: Seq<u8>) -> Seq<char>;

/// The first `n` bytes of `s`.
pub open spec fn first_bytes(s: Seq<u8>, n: int) -> Seq<u8> {
    Seq::new(n as nat, |i: int| s[i])
}

/// `data` XORed bytewise with `stream`.
pub open spec fn xor_bytes(data: Seq<u8>, stream: Seq<u8>) -> Seq<u8> {
    Seq::new(data.len(), |i: int| data[i] ^ stream[i])
}

/// Calls `Hmac::<Sha1>::new_from_slice`, `Mac::update` and `Mac::finalize`:
/// returns the 20-byte HMAC-SHA1 tag of `message` under `key`. HMAC accepts
/// keys of any length, so the key is never refused.
#[verifier::external_body]
pub(crate) fn hmac_sha1_tag(key: &[u8], message: &[u8]) -> (tag: Vec<u8>)
    ensures
        tag@ == hmac_sha1(key@, message@),
        tag@.len() == HMAC_SHA1_LEN,
{
    let mut mac = Hmac::<Sha1>::new_from_slice(key).unwrap();
    mac.update(message);
    mac.finalize().into_bytes().to_vec()
}

/// Calls `Mac::verify_slice` on HMAC-SHA1 of `message` under `key`: true
/// exactly when `tag` is the whole 20-byte tag.
#[verifier::external_body]
pub(crate) fn hmac_sha1_verify(key: &[u8], message: &[u8], tag: &[u8]) -> (ok: bool)
    ensures
        ok == (tag@.len() == HMAC_SHA1_LEN && tag@ == first_bytes(hmac_sha1(key@, message@), HMAC_SHA1_LEN as int)),
{
    let mut mac = Hmac::<Sha1>::new_from_slice(key).unwrap();
    mac.update(message);
    mac.verify_slice(tag).is_ok()
}

/// Calls `Mac::verify_truncated_left` on HMAC-SHA1 of `message` under `key`:
/// true exactly when `tag` is a non-empty prefix of the tag.
#[verifier::external_body]
pub(crate) fn hmac_sha1_verify_truncated(key: &[u8], message: &[u8], tag: &[u8]) -> (ok: bool)
    ensures
        ok == (0 < tag@.len() <= HMAC_SHA1_LEN && tag@ == first_bytes(hmac_sha1(key@, message@), tag@.len() as int)),
{
    let mut mac = Hmac::<Sha1>::new_from_slice(key).unwrap();
    mac.update(message);
    mac.verify_truncated_left(tag).is_ok()
}

/// Calls `Ctr128BE::<Aes128>::new` and `StreamCipher::apply_keystream`: XORs
/// `data` with the keystream for `key` and `iv`. The 128-bit counter starts
/// at zero and cannot run out for a slice, so the call does not panic.
#[verifier::external_body]
pub(crate) fn aes128_ctr_apply(key: &[u8; 16], iv: &[u8; 16], data: &mut [u8])
    ensures
        final(data)@ == xor_bytes(old(data)@, aes128_ctr_keystream(key@, iv@, old(data)@.len())),
{
    let mut cipher = Ctr128BE::<Aes128>::new(key.into(), iv.into());
    cipher.apply_keystream(data);
}

/// Calls `crc32fast::hash`.
#[verifier::external_body]
pub(crate) fn crc32_hash(data: &[u8]) -> (r: u32)
    ensures
        r == crc32(data@),
{
    crc32fast::hash(data)
}

/// Calls `crc32c::crc32c`.
#[verifier::external_body]
pub(crate) fn crc32c_checksum(data: &[u8]) -> (r: u32)
    ensures
        r == crc32c(data@),
{
    crc32c::crc32c(data)
}

/// Calls `String::from_utf8_lossy`; valid UTF-8 decodes unchanged.
#[verifier::external_body]
pub(crate) fn utf8_lossy_string(bytes: &[u8]) -> (s: String)
    ensures
        s@ == utf8_lossy(bytes@),
        vstd::utf8::valid_utf8(bytes@) ==> s@ == vstd::utf8::decode_utf8(bytes@),
{
    String::from_utf8_lossy(bytes).into_owned()
}

/// Calls `rand::random_range(1..=u32::MAX)`: a random non-zero value.
#[verifier::external_body]
pub(crate) fn random_nonzero_u32() -> (r: u32)
    ensures
        r != 0,
{
    rand::random_range(1..=u32::MAX)
}

/// Calls `rand::random::<u32>()`: any value may come back.
#[verifier::external_body]
pub(crate) fn random_u32() -> u32 {
    rand::random::<u32>()
}

#[verifier::external_type_specification]
#[verifier::external_body]
pub struct ExSslRef(SslRef);

#[verifier::external_type_specification]
#[verifier::external_body]
pub struct ExErrorStack(ErrorStack);

/// The label under which DTLS-SRTP keying material is exported (RFC 5764, section 4.2).
pub open spec fn dtls_srtp_label() -> Seq<char> {
    "EXTRACTOR-dtls_srtp"@
}

/// `SslRef::export_keying_material` (RFC 5705) fills `out` with secret
/// material of the session; only its length is known here. The library
/// exports only DTLS-SRTP keys, so the `requires` fixes the arguments to
/// the DTLS-SRTP label, no context and 60 bytes (two 16-byte keys and two
/// 14-byte salts); the outside function itself accepts any of them.
pub assume_specification[ SslRef::export_keying_material ](
    ssl: &SslRef,
    out: &mut [u8],
    label: &str,
    context: Option<&[u8]>,
) -> (r: Result<(), ErrorStack>)
    requires
        label@ == dtls_srtp_label(),
        context is None,
        old(out)@.len() == 60,
    ensures
        final(out)@.len() == old(out)@.len(),
;

} // verus!
