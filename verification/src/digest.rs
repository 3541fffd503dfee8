//! Payload and endpoint fingerprints: SHA-256 and MD5 digests written as
//! lower-case hexadecimal text.

use vstd::prelude::*;
use crate::hex::{hex_lower, hex_lower_chars};
use crate::text::string_from_chars;

verus! {

/// The SHA-256 digest of `data`, as `ring` computes it.
pub uninterp spec fn sha256(data: Seq<u8>) -> Seq<u8>;

/// The MD5 digest of `data`, as the `md5` crate computes it.
pub uninterp spec fn md5(data: Seq<u8>) -> Seq<u8>;

/// `ring::digest::Context` with `ring::digest::SHA256`, fed `data` once and
/// finished. The digest is taken as a function of `data` alone, and its
/// length is the 32 bytes of `SHA256.output_len`; nothing else about its
/// bytes is stated.
#[verifier::external_body]
fn sha256_digest(data: &[u8]) -> (r: Vec<u8>)
    ensures
        r@ == sha256(data@),
        r@.len() == 32,
{
    let mut ctx = ring::digest::Context::new(&ring::digest::SHA256);
    ctx.update(data);
    ctx.finish().as_ref().to_vec()
}

/// `md5::compute(data)`, whose `Digest` holds a `[u8; 16]`. The digest is
/// taken as a function of `data` alone; nothing else about its bytes is
/// stated.
#[verifier::external_body]
fn md5_digest(data: &[u8]) -> (r: Vec<u8>)
    ensures
        r@ == md5(data@),
        r@.len() == 16,
{
    md5::compute(data).0.to_vec()
}

/// The SHA-256 digest of `b` in lower-case hexadecimal: the key under which a
/// payload already found leaking is remembered.
pub fn sha256_encode(b: &[u8]) -> (r: String)
    ensures
        r@ == hex_lower(sha256(b@)),
        r@.len() == 64,
{
    let d = sha256_digest(b);
    let h = hex_lower_chars(&d);
    string_from_chars(&h)
}

/// The MD5 digest of `b` in lower-case hexadecimal: the fingerprint of an
/// endpoint.
pub fn md5_encode(b: &[u8]) -> (r: String)
    ensures
        r@ == hex_lower(md5(b@)),
        r@.len() == 32,
{
    let d = md5_digest(b);
    let h = hex_lower_chars(&d);
    string_from_chars(&h)
}

} // verus!
