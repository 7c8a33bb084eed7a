//! Signature primitives of the cryptography library, each behind a
//! contract that names its answer: for fixed inputs the answer is fixed.
use openssl::bn::{BigNum, BigNumContext};
use openssl::ec::{EcGroup, EcKey, EcPoint};
use openssl::ecdsa::EcdsaSig;
use openssl::hash::{hash, MessageDigest};
use openssl::nid::Nid;
use openssl::pkey::{Id, PKey};
use openssl::rsa::Rsa;
use openssl::sign::Verifier;
use vstd::prelude::*;

verus! {

/// Message digests that DNSSEC signatures use.
#[derive(Debug, Clone, Copy, PartialEq, Eq, Hash, Structural)]
pub enum Digest {
    Sha1,
    Sha256,
    Sha384,
    Sha512,
}

/// Elliptic curves that DNSSEC keys use.
#[derive(Debug, Clone, Copy, PartialEq, Eq, Hash, Structural)]
pub enum Curve {
    P256,
    P384,
}

/// Whether `sig` is a valid RSA PKCS #1 v1.5 signature over `msg` under the
/// modulus `n` and exponent `e`.
pub uninterp spec fn rsa_accepts(digest: Digest, n: Seq<u8>, e: Seq<u8>, msg: Seq<u8>, sig: Seq<u8>) -> bool;

/// Whether `point`, in uncompressed SEC1 form, lies on `curve`.
pub uninterp spec fn ec_point_valid(curve: Curve, point: Seq<u8>) -> bool;

/// The digest of `msg`.
pub uninterp spec fn digest_of(digest: Digest, msg: Seq<u8>) -> Seq<u8>;

/// Whether ECDSA verification with public point `point` accepts the
/// signature (`r`, `s`) over the message digest `digest`.
pub uninterp spec fn ecdsa_accepts(curve: Curve, point: Seq<u8>, digest: Seq<u8>, r: Seq<u8>, s: Seq<u8>) -> bool;

/// Whether `sig` is a valid Ed25519 signature over `msg` under the raw public key `key`.
pub uninterp spec fn ed25519_accepts(key: Seq<u8>, msg: Seq<u8>, sig: Seq<u8>) -> bool;

/// Relies on openssl's RSA verification with PKCS #1 v1.5 padding
/// (`BigNum::from_slice`, `Rsa::from_public_components`, `PKey::from_rsa`,
/// `Verifier::new`, `Verifier::verify_oneshot`): it accepts only valid
/// signatures. It may refuse a valid one (a policy of the system's OpenSSL
/// configuration can forbid a digest, and any failure counts as a refusal),
/// so a refusal says nothing. `BigNum::from_slice` panics on inputs over
/// `i32::MAX` octets.
#[verifier::external_body]
pub(crate) fn rsa_verify(digest: Digest, n: &[u8], e: &[u8], msg: &[u8], sig: &[u8]) -> (r: bool)
    requires
        n@.len() <= 65535,
        e@.len() <= 65535,
    ensures
        r ==> rsa_accepts(digest, n@, e@, msg@, sig@),
{
    let md = match digest {
        Digest::Sha1 => MessageDigest::sha1(),
        Digest::Sha256 => MessageDigest::sha256(),
        Digest::Sha384 => MessageDigest::sha384(),
        Digest::Sha512 => MessageDigest::sha512(),
    };
    let (Ok(n), Ok(e)) = (BigNum::from_slice(n), BigNum::from_slice(e)) else { return false };
    let Ok(key) = Rsa::from_public_components(n, e).and_then(PKey::from_rsa) else { return false };
    let Ok(mut verifier) = Verifier::new(md, &key) else { return false };
    verifier.verify_oneshot(sig, msg).unwrap_or(false)
}

/// Relies on openssl's `EcGroup::from_curve_name` and `EcPoint::from_bytes`,
/// which fails on a point that is not on the curve or not well encoded.
#[verifier::external_body]
pub(crate) fn ec_point_on_curve(curve: Curve, point: &[u8]) -> (r: bool)
    ensures
        r == ec_point_valid(curve, point@),
{
    let nid = match curve {
        Curve::P256 => Nid::X9_62_PRIME256V1,
        Curve::P384 => Nid::SECP384R1,
    };
    let Ok(group) = EcGroup::from_curve_name(nid) else { return false };
    let Ok(mut ctx) = BigNumContext::new() else { return false };
    EcPoint::from_bytes(&group, point, &mut ctx).is_ok()
}

/// Relies on openssl's `hash`: the digest of `msg`; a failure of openssl gives `None`.
#[verifier::external_body]
pub(crate) fn message_digest(digest: Digest, msg: &[u8]) -> (r: Option<Vec<u8>>)
    ensures
        r matches Some(d) ==> d@ == digest_of(digest, msg@),
{
    let md = match digest {
        Digest::Sha1 => MessageDigest::sha1(),
        Digest::Sha256 => MessageDigest::sha256(),
        Digest::Sha384 => MessageDigest::sha384(),
        Digest::Sha512 => MessageDigest::sha512(),
    };
    match hash(md, msg) {
        Ok(d) => Some(d.to_vec()),
        Err(_) => None,
    }
}

/// Relies on openssl's ECDSA verification of a digest (`EcGroup::from_curve_name`,
/// `EcPoint::from_bytes`, `EcKey::from_public_key`,
/// `EcdsaSig::from_private_components`, `EcdsaSig::verify`): its answer for
/// these inputs; any failure of openssl counts as a rejection.
/// `BigNum::from_slice` and `EcdsaSig::verify` panic on inputs over
/// `i32::MAX` octets.
#[verifier::external_body]
pub(crate) fn ecdsa_verify(curve: Curve, point: &[u8], digest: &[u8], r: &[u8], s: &[u8]) -> (ok: bool)
    requires
        digest@.len() <= 65535,
        r@.len() <= 65535,
        s@.len() <= 65535,
    ensures
        ok == ecdsa_accepts(curve, point@, digest@, r@, s@),
{
    let nid = match curve {
        Curve::P256 => Nid::X9_62_PRIME256V1,
        Curve::P384 => Nid::SECP384R1,
    };
    let Ok(group) = EcGroup::from_curve_name(nid) else { return false };
    let Ok(mut ctx) = BigNumContext::new() else { return false };
    let Ok(point) = EcPoint::from_bytes(&group, point, &mut ctx) else { return false };
    let Ok(key) = EcKey::from_public_key(&group, &point) else { return false };
    let (Ok(r), Ok(s)) = (BigNum::from_slice(r), BigNum::from_slice(s)) else { return false };
    let Ok(sig) = EcdsaSig::from_private_components(r, s) else { return false };
    sig.verify(digest, &key).unwrap_or(false)
}

/// Relies on openssl's Ed25519 verification (`PKey::public_key_from_raw_bytes`,
/// `Verifier::new_without_digest`, `Verifier::verify_oneshot`): it accepts
/// only valid signatures. It may refuse a valid one (by a policy of the
/// system's OpenSSL configuration, or any failure), so a refusal says nothing.
#[verifier::external_body]
pub(crate) fn ed25519_verify(key: &[u8], msg: &[u8], sig: &[u8]) -> (r: bool)
    ensures
        r ==> ed25519_accepts(key@, msg@, sig@),
{
    let Ok(key) = PKey::public_key_from_raw_bytes(key, Id::ED25519) else { return false };
    let Ok(mut verifier) = Verifier::new_without_digest(&key) else { return false };
    verifier.verify_oneshot(sig, msg).unwrap_or(false)
}

} // verus!
