//! Key generation, deterministic identity derivation, and the trusted
//! boundary to the cryptographic and encoding primitives: SHA-256 digests,
//! base64, Ed25519 key handling and signature checks, and the wall clock.
//!
//! Every call into an outside crate lives behind a small wrapper whose
//! contract names exactly what the call returns; all logic built on those
//! results is verified.

use vstd::prelude::*;

use crate::model::{PublicKey, Timestamp, ts_wf};
use chrono::{Datelike, Timelike};
use ring::signature::KeyPair;

verus! {

/// The SHA-256 digest of the UTF-8 bytes of a character sequence.
pub uninterp spec fn sha256_of_str(s: Seq<char>) -> Seq<u8>;

/// The base64 (RFC 4648, padded) encoding of a byte sequence.
pub uninterp spec fn base64_of(b: Seq<u8>) -> Seq<char>;

/// The base64 decoding of a character sequence; `None` where the input is
/// not valid padded base64.
pub uninterp spec fn base64_decode_of(s: Seq<char>) -> Option<Seq<u8>>;

/// Whether `sig` is a valid Ed25519 signature by the key `pk` over the
/// UTF-8 bytes of `msg`.
pub uninterp spec fn ed25519_verifies(pk: Seq<u8>, msg: Seq<char>, sig: Seq<u8>) -> bool;

/// The Ed25519 public key carried by a PKCS#8 v2 document; `None` where
/// the bytes are not such a document.
pub uninterp spec fn ed25519_pub_of_pkcs8(pkcs8: Seq<u8>) -> Option<Seq<u8>>;

/// Relies on `ring::digest::digest` with `SHA256`: the digest is a function
/// of the input bytes alone, and is 32 bytes long.
#[verifier::external_body]
pub fn sha256_str(s: &str) -> (r: Vec<u8>)
    ensures
        r@ == sha256_of_str(s@),
        r@.len() == 32,
{
    ring::digest::digest(&ring::digest::SHA256, s.as_bytes()).as_ref().to_vec()
}

/// Relies on `data_encoding::BASE64.encode`: the encoding is a function of
/// the input bytes alone.
#[verifier::external_body]
pub fn b64_encode(b: &[u8]) -> (r: String)
    ensures
        r@ == base64_of(b@),
{
    data_encoding::BASE64.encode(b)
}

/// Relies on `data_encoding::BASE64.decode`: decoding is a function of the
/// input characters alone, succeeding exactly on valid padded base64.
#[verifier::external_body]
pub fn b64_decode(s: &str) -> (r: Result<Vec<u8>, ()>)
    ensures
        r is Ok <==> base64_decode_of(s@) is Some,
        r is Ok ==> r->Ok_0@ == base64_decode_of(s@)->Some_0,
{
    match data_encoding::BASE64.decode(s.as_bytes()) {
        Ok(v) => Ok(v),
        Err(_) => Err(()),
    }
}

/// Relies on `ring::signature::UnparsedPublicKey::verify` with `ED25519`:
/// acceptance is a function of key, message and signature bytes alone.
#[verifier::external_body]
pub fn ed25519_verify(pk: &[u8], msg: &str, sig: &[u8]) -> (r: bool)
    ensures
        r == ed25519_verifies(pk@, msg@, sig@),
{
    ring::signature::UnparsedPublicKey::new(&ring::signature::ED25519, pk)
        .verify(msg.as_bytes(), sig)
        .is_ok()
}

/// Relies on `ring::signature::Ed25519KeyPair::generate_pkcs8` with a
/// `SystemRandom` source: the result is a fresh PKCS#8 v2 document, or an
/// error when the entropy source fails. Nothing is promised of the bytes.
#[verifier::external_body]
fn ed25519_generate_pkcs8() -> (r: Result<Vec<u8>, ()>) {
    let rng = ring::rand::SystemRandom::new();
    match ring::signature::Ed25519KeyPair::generate_pkcs8(&rng) {
        Ok(doc) => Ok(doc.as_ref().to_vec()),
        Err(_) => Err(()),
    }
}

/// Relies on `ring::signature::Ed25519KeyPair::from_pkcs8` and
/// `KeyPair::public_key`: the public key a PKCS#8 document carries is a
/// function of the document bytes alone.
#[verifier::external_body]
pub fn ed25519_public_key_bytes(pkcs8: &[u8]) -> (r: Result<Vec<u8>, ()>)
    ensures
        r is Ok <==> ed25519_pub_of_pkcs8(pkcs8@) is Some,
        r is Ok ==> r->Ok_0@ == ed25519_pub_of_pkcs8(pkcs8@)->Some_0,
{
    match ring::signature::Ed25519KeyPair::from_pkcs8(pkcs8) {
        Ok(kp) => Ok(kp.public_key().as_ref().to_vec()),
        Err(_) => Err(()),
    }
}

/// Relies on `chrono::Utc::now` and the `Datelike` / `Timelike` accessors,
/// whose documentation bounds month to 1..=12, day to 1..=31, hour to
/// 0..=23, and minute and second to 0..=59. The clock itself promises
/// nothing about the year.
#[verifier::external_body]
fn now_parts() -> (r: (i32, u32, u32, u32, u32, u32))
    ensures
        1 <= r.1 <= 12,
        1 <= r.2 <= 31,
        r.3 < 24,
        r.4 < 60,
        r.5 < 60,
{
    let n = chrono::Utc::now();
    (n.year(), n.month(), n.day(), n.hour(), n.minute(), n.second())
}

/// The current UTC time as a well-formed timestamp. Years outside the
/// four-digit range the canonical text form can carry are clamped.
pub fn now_timestamp() -> (r: Timestamp)
    ensures
        ts_wf(r),
{
    let (y, mo, d, h, mi, s) = now_parts();
    let year: u16 = if y < 1 {
        1
    } else if y > 9999 {
        9999
    } else {
        y as u16
    };
    Timestamp {
        year,
        month: mo as u8,
        day: d as u8,
        hour: h as u8,
        minute: mi as u8,
        second: s as u8,
    }
}

/// Whether two string slices hold the same characters.
pub fn str_eq(a: &str, b: &str) -> (r: bool)
    ensures
        r == (a@ == b@),
{
    let sa: String = a.to_owned();
    let sb: String = b.to_owned();
    sa == sb
}

/// The identity derived from an encoded root public key: the fixed prefix,
/// then the base64 of the SHA-256 of the encoded key string itself (the
/// hash is over the encoded string, not the raw key bytes).
pub open spec fn spec_identity_id(encoded_key: Seq<char>) -> Seq<char> {
    "idp:key:sha256:"@ + base64_of(sha256_of_str(encoded_key))
}

/// Deterministic identity derivation from the root public key's encoded
/// form; total over every input string.
pub fn derive_identity_id(encoded_key: &str) -> (r: String)
    ensures
        r@ == spec_identity_id(encoded_key@),
{
    let digest = sha256_str(encoded_key);
    let tail = b64_encode(digest.as_slice());
    let mut out: String = ("idp:key:sha256:").to_owned();
    out.append(tail.as_str());
    out
}

/// Identity derivation is a pure function of the encoded key: equal inputs
/// give equal identities, on every call and in every implementation that
/// satisfies `spec_identity_id`.
pub proof fn lemma_identity_id_deterministic(a: Seq<char>, b: Seq<char>)
    requires
        a == b,
    ensures
        spec_identity_id(a) == spec_identity_id(b),
{
}

/// The result of key generation: the shareable public descriptor and the
/// secret private-key bytes, which never enter the document.
pub struct GeneratedKeyPair {
    pub public_key: PublicKey,
    pub private_key_bytes: Vec<u8>,
}

/// Generates a fresh Ed25519 keypair. On success the descriptor carries
/// the root key id, the algorithm tag, the base64 of the public key that
/// the private PKCS#8 document determines, and active status. Fails only
/// when the entropy source fails; the caller decides any retry.
pub fn generate_ed25519_keypair() -> (r: Result<GeneratedKeyPair, String>)
    ensures
        r matches Ok(kp) ==> {
            &&& kp.public_key.key_id@ == "root-key-01"@
            &&& kp.public_key.algorithm@ == "Ed25519"@
            &&& kp.public_key.status@ == "active"@
            &&& ed25519_pub_of_pkcs8(kp.private_key_bytes@) is Some
            &&& kp.public_key.value@ == base64_of(
                ed25519_pub_of_pkcs8(kp.private_key_bytes@)->Some_0,
            )
        },
{
    let pkcs8 = match ed25519_generate_pkcs8() {
        Ok(b) => b,
        Err(()) => {
            return Err(("key generation failed: entropy source").to_owned());
        },
    };
    let pub_bytes = match ed25519_public_key_bytes(pkcs8.as_slice()) {
        Ok(b) => b,
        Err(()) => {
            return Err(("key generation failed: key material rejected").to_owned());
        },
    };
    let value = b64_encode(pub_bytes.as_slice());
    Ok(
        GeneratedKeyPair {
            public_key: PublicKey {
                key_id: ("root-key-01").to_owned(),
                algorithm: ("Ed25519").to_owned(),
                value,
                status: ("active").to_owned(),
            },
            private_key_bytes: pkcs8,
        },
    )
}

} // verus!
