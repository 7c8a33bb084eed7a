//! DNSSEC public keys: the DNS layout of each algorithm's key and signature
//! bytes, and verification through the cryptography library.
use crate::codec::{be16_value, emit_bytes};
use crate::crypto::{
    digest_of, ec_point_on_curve, ec_point_valid, ecdsa_accepts, ecdsa_verify, ed25519_accepts,
    ed25519_verify, message_digest, rsa_accepts, rsa_verify, Curve, Digest,
};
use crate::error::ProtoError;
use vstd::prelude::*;
use vstd::slice::{slice_subrange, slice_to_vec};

verus! {

/// DNSSEC signing algorithms, by their assigned numbers.
#[derive(Debug, Clone, Copy, PartialEq, Eq, Hash, Structural)]
pub enum Algorithm {
    /// RSA/MD5 (1), deprecated.
    RSAMD5,
    /// DSA/SHA-1 (3), deprecated.
    DSA,
    /// RSA/SHA-1 (5).
    RSASHA1,
    /// RSA/SHA-1 for NSEC3 zones (7).
    RSASHA1NSEC3SHA1,
    /// RSA/SHA-256 (8).
    RSASHA256,
    /// RSA/SHA-512 (10).
    RSASHA512,
    /// ECDSA on P-256 with SHA-256 (13).
    ECDSAP256SHA256,
    /// ECDSA on P-384 with SHA-384 (14).
    ECDSAP384SHA384,
    /// Ed25519 (15).
    ED25519,
    /// Any other number.
    Unknown(u8),
}

pub open spec fn algorithm_code(a: Algorithm) -> u8 {
    match a {
        Algorithm::RSAMD5 => 1,
        Algorithm::DSA => 3,
        Algorithm::RSASHA1 => 5,
        Algorithm::RSASHA1NSEC3SHA1 => 7,
        Algorithm::RSASHA256 => 8,
        Algorithm::RSASHA512 => 10,
        Algorithm::ECDSAP256SHA256 => 13,
        Algorithm::ECDSAP384SHA384 => 14,
        Algorithm::ED25519 => 15,
        Algorithm::Unknown(v) => v,
    }
}

/// The algorithms whose keys this library can verify with.
pub open spec fn algorithm_supported(a: Algorithm) -> bool {
    match a {
        Algorithm::RSASHA1 | Algorithm::RSASHA1NSEC3SHA1 | Algorithm::RSASHA256
        | Algorithm::RSASHA512 | Algorithm::ECDSAP256SHA256 | Algorithm::ECDSAP384SHA384
        | Algorithm::ED25519 => true,
        _ => false,
    }
}

impl Algorithm {
    /// The algorithm with number `v`.
    pub fn from_u8(v: u8) -> (r: Algorithm)
        ensures
            algorithm_code(r) == v,
            r is Unknown ==> v != 1 && v != 3 && v != 5 && v != 7 && v != 8 && v != 10 && v
                != 13 && v != 14 && v != 15,
    {
        match v {
            1 => Algorithm::RSAMD5,
            3 => Algorithm::DSA,
            5 => Algorithm::RSASHA1,
            7 => Algorithm::RSASHA1NSEC3SHA1,
            8 => Algorithm::RSASHA256,
            10 => Algorithm::RSASHA512,
            13 => Algorithm::ECDSAP256SHA256,
            14 => Algorithm::ECDSAP384SHA384,
            15 => Algorithm::ED25519,
            _ => Algorithm::Unknown(v),
        }
    }

    /// The algorithm's number.
    pub fn to_u8(&self) -> (r: u8)
        ensures
            r == algorithm_code(*self),
    {
        match self {
            Algorithm::RSAMD5 => 1,
            Algorithm::DSA => 3,
            Algorithm::RSASHA1 => 5,
            Algorithm::RSASHA1NSEC3SHA1 => 7,
            Algorithm::RSASHA256 => 8,
            Algorithm::RSASHA512 => 10,
            Algorithm::ECDSAP256SHA256 => 13,
            Algorithm::ECDSAP384SHA384 => 14,
            Algorithm::ED25519 => 15,
            Algorithm::Unknown(v) => *v,
        }
    }

    /// Whether keys of this algorithm can be decoded and used to verify.
    pub fn is_supported(&self) -> (r: bool)
        ensures
            r == algorithm_supported(*self),
    {
        match self {
            Algorithm::RSASHA1 | Algorithm::RSASHA1NSEC3SHA1 | Algorithm::RSASHA256
            | Algorithm::RSASHA512 | Algorithm::ECDSAP256SHA256 | Algorithm::ECDSAP384SHA384
            | Algorithm::ED25519 => true,
            _ => false,
        }
    }
}

/// An RSA key in DNS form: the exponent length in one octet, or a zero
/// octet and the length in two; then the exponent; then the modulus.
pub open spec fn rsa_pack(e: Seq<u8>, n: Seq<u8>) -> Seq<u8> {
    if e.len() > 255 {
        seq![0u8, (e.len() / 256) as u8, (e.len() % 256) as u8] + e + n
    } else {
        seq![e.len() as u8] + e + n
    }
}

/// The exponent and modulus of an RSA key in DNS form; both must be non-empty.
pub open spec fn rsa_layout(k: Seq<u8>) -> Option<(Seq<u8>, Seq<u8>)> {
    if k.len() < 1 {
        None
    } else if k[0] != 0 {
        let el = k[0] as int;
        if 1 + el < k.len() {
            Some((k.subrange(1, 1 + el), k.subrange(1 + el, k.len() as int)))
        } else {
            None
        }
    } else if k.len() < 3 {
        None
    } else {
        let el = be16_value(k[1], k[2]) as int;
        if el > 0 && 3 + el < k.len() {
            Some((k.subrange(3, 3 + el), k.subrange(3 + el, k.len() as int)))
        } else {
            None
        }
    }
}

/// A public key ready to verify with, as plain values.
pub enum KeyView {
    Rsa { digest: Digest, exponent: Seq<u8>, modulus: Seq<u8> },
    Ec { curve: Curve, digest: Digest, point: Seq<u8> },
    Ed25519 { key: Seq<u8> },
}

/// The key that DNSKEY public key bytes `k` of algorithm `a` hold: RSA in
/// exponent-length form, ECDSA as the raw point (x then y) on its curve,
/// Ed25519 as 32 raw octets. Keys over 65535 octets are refused.
pub open spec fn key_decoding(a: Algorithm, k: Seq<u8>) -> Option<KeyView> {
    if k.len() > 65535 {
        None
    } else {
        match a {
            Algorithm::RSASHA1 | Algorithm::RSASHA1NSEC3SHA1 | Algorithm::RSASHA256
            | Algorithm::RSASHA512 => match rsa_layout(k) {
                Some((e, n)) => Some(
                    KeyView::Rsa {
                        digest: if a is RSASHA256 {
                            Digest::Sha256
                        } else if a is RSASHA512 {
                            Digest::Sha512
                        } else {
                            Digest::Sha1
                        },
                        exponent: e,
                        modulus: n,
                    },
                ),
                None => None,
            },
            Algorithm::ECDSAP256SHA256 => if k.len() == 64 && ec_point_valid(
                Curve::P256,
                seq![4u8] + k,
            ) {
                Some(KeyView::Ec { curve: Curve::P256, digest: Digest::Sha256, point: seq![4u8] + k })
            } else {
                None
            },
            Algorithm::ECDSAP384SHA384 => if k.len() == 96 && ec_point_valid(
                Curve::P384,
                seq![4u8] + k,
            ) {
                Some(KeyView::Ec { curve: Curve::P384, digest: Digest::Sha384, point: seq![4u8] + k })
            } else {
                None
            },
            Algorithm::ED25519 => if k.len() == 32 {
                Some(KeyView::Ed25519 { key: k })
            } else {
                None
            },
            _ => None,
        }
    }
}

/// The octets of one coordinate on `c`.
pub open spec fn coordinate_len(c: Curve) -> int {
    match c {
        Curve::P256 => 32,
        Curve::P384 => 48,
    }
}

/// Whether `sig` is a valid signature over `msg` under the key bytes `k` of
/// algorithm `a`.
pub open spec fn signature_valid(a: Algorithm, k: Seq<u8>, msg: Seq<u8>, sig: Seq<u8>) -> bool {
    match key_decoding(a, k) {
        Some(key) => key_accepts(key, msg, sig),
        None => false,
    }
}

/// Whether `sig` is a valid signature over `msg` under the decoded key `key`.
/// An ECDSA signature is r then s, one coordinate each.
pub open spec fn key_accepts(key: KeyView, msg: Seq<u8>, sig: Seq<u8>) -> bool {
    match key {
        KeyView::Rsa { digest, exponent, modulus } => rsa_accepts(
            digest,
            modulus,
            exponent,
            msg,
            sig,
        ),
        KeyView::Ec { curve, digest, point } => {
            let c = coordinate_len(curve);
            &&& sig.len() == 2 * c
            &&& ecdsa_accepts(
                curve,
                point,
                digest_of(digest, msg),
                sig.subrange(0, c),
                sig.subrange(c, 2 * c),
            )
        },
        KeyView::Ed25519 { key } => ed25519_accepts(key, msg, sig),
    }
}

/// A public key decoded from DNSKEY bytes.
#[derive(Debug, Clone, PartialEq, Eq)]
pub enum DecodedKey {
    Rsa { digest: Digest, exponent: Vec<u8>, modulus: Vec<u8> },
    Ec { curve: Curve, digest: Digest, point: Vec<u8> },
    Ed25519 { key: Vec<u8> },
}

impl View for DecodedKey {
    type V = KeyView;

    open spec fn view(&self) -> KeyView {
        match self {
            DecodedKey::Rsa { digest, exponent, modulus } => KeyView::Rsa {
                digest: *digest,
                exponent: exponent@,
                modulus: modulus@,
            },
            DecodedKey::Ec { curve, digest, point } => KeyView::Ec {
                curve: *curve,
                digest: *digest,
                point: point@,
            },
            DecodedKey::Ed25519 { key } => KeyView::Ed25519 { key: key@ },
        }
    }
}

fn decode_rsa(public_key: &[u8], digest: Digest) -> (res: Result<DecodedKey, ProtoError>)
    ensures
        match res {
            Ok(k) => rsa_layout(public_key@) matches Some((e, n)) && k@ == (KeyView::Rsa {
                digest,
                exponent: e,
                modulus: n,
            }),
            Err(e) => rsa_layout(public_key@) is None && e == ProtoError::MalformedKey,
        },
{
    let len = public_key.len();
    if len < 1 {
        return Err(ProtoError::MalformedKey);
    }
    let (start, el): (usize, usize) = if public_key[0] != 0 {
        (1, public_key[0] as usize)
    } else {
        if len < 3 {
            return Err(ProtoError::MalformedKey);
        }
        let el = (public_key[1] as usize) * 256 + public_key[2] as usize;
        if el == 0 {
            return Err(ProtoError::MalformedKey);
        }
        (3, el)
    };
    if len - start <= el {
        return Err(ProtoError::MalformedKey);
    }
    let exponent = slice_to_vec(slice_subrange(public_key, start, start + el));
    let modulus = slice_to_vec(slice_subrange(public_key, start + el, len));
    Ok(DecodedKey::Rsa { digest, exponent, modulus })
}

/// Decodes DNSKEY public key bytes for `algorithm`. Fails with
/// `UnsupportedAlgorithm` for an algorithm this library cannot verify
/// with, and with `MalformedKey` when the bytes do not have the
/// algorithm's layout or the point is not on the curve.
pub fn decode_public_key(public_key: &[u8], algorithm: Algorithm) -> (res: Result<DecodedKey, ProtoError>)
    ensures
        match res {
            Ok(k) => key_decoding(algorithm, public_key@) == Some(k@),
            Err(e) => key_decoding(algorithm, public_key@) is None && (e
                == ProtoError::UnsupportedAlgorithm <==> !algorithm_supported(algorithm)) && (e
                == ProtoError::UnsupportedAlgorithm || e == ProtoError::MalformedKey),
        },
{
    if !algorithm.is_supported() {
        return Err(ProtoError::UnsupportedAlgorithm);
    }
    if public_key.len() > 65535 {
        return Err(ProtoError::MalformedKey);
    }
    match algorithm {
        Algorithm::RSASHA1 | Algorithm::RSASHA1NSEC3SHA1 => decode_rsa(public_key, Digest::Sha1),
        Algorithm::RSASHA256 => decode_rsa(public_key, Digest::Sha256),
        Algorithm::RSASHA512 => decode_rsa(public_key, Digest::Sha512),
        Algorithm::ECDSAP256SHA256 | Algorithm::ECDSAP384SHA384 => {
            let (curve, digest, width): (Curve, Digest, usize) = if algorithm == Algorithm::ECDSAP256SHA256 {
                (Curve::P256, Digest::Sha256, 64)
            } else {
                (Curve::P384, Digest::Sha384, 96)
            };
            if public_key.len() != width {
                return Err(ProtoError::MalformedKey);
            }
            let mut point: Vec<u8> = Vec::new();
            point.push(4);
            emit_bytes(&mut point, public_key);
            assert(point@ =~= seq![4u8] + public_key@);
            if !ec_point_on_curve(curve, point.as_slice()) {
                return Err(ProtoError::MalformedKey);
            }
            Ok(DecodedKey::Ec { curve, digest, point })
        },
        _ => {
            if public_key.len() != 32 {
                return Err(ProtoError::MalformedKey);
            }
            Ok(DecodedKey::Ed25519 { key: slice_to_vec(public_key) })
        },
    }
}

/// Verifies a signature over `message` with the decoded key `key`.
fn verify_with(key: &DecodedKey, message: &[u8], signature: &[u8]) -> (ok: bool)
    requires
        key@ matches KeyView::Rsa { exponent, modulus, .. } ==> exponent.len() <= 65535
            && modulus.len() <= 65535,
    ensures
        ok ==> key_accepts(key@, message@, signature@),
{
    match key {
        DecodedKey::Rsa { digest, exponent, modulus } => {
            rsa_verify(*digest, modulus.as_slice(), exponent.as_slice(), message, signature)
        },
        DecodedKey::Ec { curve, digest, point } => {
            let c: usize = match curve {
                Curve::P256 => 32,
                Curve::P384 => 48,
            };
            if signature.len() != 2 * c {
                return false;
            }
            let d = match message_digest(*digest, message) {
                Some(d) => d,
                None => return false,
            };
            if d.len() > 65535 {
                return false;
            }
            let r = slice_subrange(signature, 0, c);
            let s = slice_subrange(signature, c, 2 * c);
            ecdsa_verify(*curve, point.as_slice(), d.as_slice(), r, s)
        },
        DecodedKey::Ed25519 { key } => ed25519_verify(key.as_slice(), message, signature),
    }
}

/// Keys that verify signatures over DNS data.
pub trait PublicKey {
    /// The key bytes in DNSKEY form.
    spec fn key_bytes(&self) -> Seq<u8>;

    /// The algorithm the key is for.
    spec fn key_algorithm(&self) -> Algorithm;

    /// The key bytes in DNSKEY form.
    fn public_bytes(&self) -> (r: &[u8])
        ensures
            r@ == self.key_bytes(),
    ;

    /// Checks `signature` over `message`. Fails with `UnsupportedAlgorithm`
    /// or `MalformedKey` exactly when the key cannot be decoded for its
    /// algorithm (see `decode_public_key`); otherwise succeeds only when the
    /// signature is valid, and fails with `BadSignature` when the
    /// cryptography library does not accept it (see `signature_verdict`).
    fn verify(&self, message: &[u8], signature: &[u8]) -> (res: Result<(), ProtoError>)
        ensures
            key_decoding(self.key_algorithm(), self.key_bytes()) is None <==> (res == Err::<
                (),
                ProtoError,
            >(ProtoError::UnsupportedAlgorithm) || res == Err::<(), ProtoError>(
                ProtoError::MalformedKey,
            )),
            res == Err::<(), ProtoError>(ProtoError::UnsupportedAlgorithm) <==> !algorithm_supported(
                self.key_algorithm(),
            ),
            key_decoding(self.key_algorithm(), self.key_bytes()) is Some ==> (res is Ok || res
                == Err::<(), ProtoError>(ProtoError::BadSignature)),
            res is Ok ==> signature_valid(self.key_algorithm(), self.key_bytes(), message@, signature@),
    ;

    /// The algorithm the key is for.
    fn algorithm(&self) -> (r: Algorithm)
        ensures
            r == self.key_algorithm(),
    ;
}

/// The outcome of a signature check, from the decoded key (or why it could
/// not be decoded) and whether the cryptography library accepted the
/// signature: the decoding error, success, or `BadSignature`.
pub fn signature_verdict(decoded: &Result<DecodedKey, ProtoError>, accepted: bool) -> (r: Result<(), ProtoError>)
    ensures
        match decoded {
            Err(e) => r == Err::<(), ProtoError>(*e),
            Ok(_) => if accepted {
                r is Ok
            } else {
                r == Err::<(), ProtoError>(ProtoError::BadSignature)
            },
        },
{
    match decoded {
        Err(e) => Err(*e),
        Ok(_) => if accepted {
            Ok(())
        } else {
            Err(ProtoError::BadSignature)
        },
    }
}

/// Public key bytes in DNSKEY form, with their algorithm.
#[derive(Debug, Clone, PartialEq, Eq)]
pub struct PublicKeyBuf {
    key_buf: Vec<u8>,
    algorithm: Algorithm,
}

impl PublicKeyBuf {
    /// A key from DNSKEY-form bytes.
    pub fn new(key_buf: Vec<u8>, algorithm: Algorithm) -> (r: PublicKeyBuf)
        ensures
            r.key_bytes() == key_buf@,
            r.key_algorithm() == algorithm,
    {
        PublicKeyBuf { key_buf, algorithm }
    }

    /// An RSA key from its exponent and modulus, packed in DNS form.
    pub fn from_rsa(exponent: &[u8], modulus: &[u8], algorithm: Algorithm) -> (r: PublicKeyBuf)
        requires
            exponent@.len() <= 65535,
        ensures
            r.key_bytes() == rsa_pack(exponent@, modulus@),
            r.key_algorithm() == algorithm,
    {
        let mut key_buf: Vec<u8> = Vec::new();
        let el = exponent.len();
        if el > 255 {
            key_buf.push(0);
            key_buf.push((el / 256) as u8);
        }
        key_buf.push((el % 256) as u8);
        emit_bytes(&mut key_buf, exponent);
        emit_bytes(&mut key_buf, modulus);
        assert(key_buf@ =~= rsa_pack(exponent@, modulus@));
        PublicKeyBuf { key_buf, algorithm }
    }

    /// An ECDSA key from its curve and its public point in uncompressed SEC1
    /// form; the leading form octet is dropped, as DNSKEY data omits it.
    pub fn from_ec(curve: Curve, point: &[u8]) -> (res: Result<PublicKeyBuf, ProtoError>)
        ensures
            res is Ok <==> point@.len() == 1 + 2 * coordinate_len(curve) && point@[0] == 4,
            res matches Ok(k) ==> k.key_bytes() == point@.subrange(1, point@.len() as int)
                && k.key_algorithm() == (if curve == Curve::P256 {
                Algorithm::ECDSAP256SHA256
            } else {
                Algorithm::ECDSAP384SHA384
            }),
    {
        let (algorithm, c): (Algorithm, usize) = match curve {
            Curve::P256 => (Algorithm::ECDSAP256SHA256, 32),
            Curve::P384 => (Algorithm::ECDSAP384SHA384, 48),
        };
        if point.len() != 1 + 2 * c || point[0] != 4 {
            return Err(ProtoError::MalformedKey);
        }
        let key_buf = slice_to_vec(slice_subrange(point, 1, point.len()));
        Ok(PublicKeyBuf { key_buf, algorithm })
    }

    /// The key bytes.
    pub fn into_inner(self) -> (r: Vec<u8>)
        ensures
            r@ == self.key_bytes(),
    {
        self.key_buf
    }
}

impl PublicKey for PublicKeyBuf {
    closed spec fn key_bytes(&self) -> Seq<u8> {
        self.key_buf@
    }

    closed spec fn key_algorithm(&self) -> Algorithm {
        self.algorithm
    }

    fn public_bytes(&self) -> (r: &[u8]) {
        self.key_buf.as_slice()
    }

    fn verify(&self, message: &[u8], signature: &[u8]) -> (res: Result<(), ProtoError>) {
        let decoded = decode_public_key(self.key_buf.as_slice(), self.algorithm);
        let accepted = match &decoded {
            Ok(key) => verify_with(key, message, signature),
            Err(_) => false,
        };
        signature_verdict(&decoded, accepted)
    }

    fn algorithm(&self) -> (r: Algorithm) {
        self.algorithm
    }
}

/// An RSA key packed in DNS form unpacks to the same exponent and modulus.
pub proof fn lemma_rsa_pack_round_trip(e: Seq<u8>, n: Seq<u8>)
    requires
        1 <= e.len() <= 65535,
        n.len() >= 1,
    ensures
        rsa_layout(rsa_pack(e, n)) == Some((e, n)),
{
    let k = rsa_pack(e, n);
    if e.len() > 255 {
        assert(be16_value(k[1], k[2]) == e.len());
        assert(k.subrange(3, 3 + e.len() as int) =~= e);
        assert(k.subrange(3 + e.len() as int, k.len() as int) =~= n);
    } else {
        assert(k.subrange(1, 1 + e.len() as int) =~= e);
        assert(k.subrange(1 + e.len() as int, k.len() as int) =~= n);
    }
}

} // verus!
