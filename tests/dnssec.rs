use hickory_proto::crypto::Curve;
use hickory_proto::dnssec::{digest_matches, ds_matches_key, rrsig_in_window, signed_link};
use hickory_proto::name::Name;
use openssl::bn::BigNumContext;
use openssl::ec::{EcGroup, EcKey, PointConversionForm};
use openssl::ecdsa::EcdsaSig;
use openssl::hash::MessageDigest;
use openssl::nid::Nid;
use openssl::pkey::PKey;
use openssl::rsa::Rsa;
use openssl::sign::Signer;
use hickory_proto::error::ProtoError;
use hickory_proto::public_key::{
    decode_public_key, signature_verdict, Algorithm, DecodedKey, PublicKey, PublicKeyBuf,
};

fn hex(s: &str) -> Vec<u8> {
    (0..s.len())
        .step_by(2)
        .map(|i| u8::from_str_radix(&s[i..i + 2], 16).unwrap())
        .collect()
}

const ED25519_KEY: &str = "d75a980182b10ab7d54bfed3c964073a0ee172f3daa62325af021a68f707511a";
const ED25519_SIG: &str = "e5564300c360ac729086e2cc806e828a84877f1eb8e5d974d873e065224901555fb8821590a33bacc61e39701cf9b46bd25bf5f0595bbe24655141438e7a100b";

#[test]
fn ed25519_signature_verifies() {
    let key = PublicKeyBuf::new(hex(ED25519_KEY), Algorithm::ED25519);
    assert_eq!(key.algorithm(), Algorithm::ED25519);
    assert_eq!(key.public_bytes(), hex(ED25519_KEY).as_slice());
    assert_eq!(key.verify(b"", &hex(ED25519_SIG)), Ok(()));
    let mut bad = hex(ED25519_SIG);
    bad[0] ^= 1;
    assert_eq!(key.verify(b"", &bad), Err(ProtoError::BadSignature));
    assert_eq!(key.verify(b"x", &hex(ED25519_SIG)), Err(ProtoError::BadSignature));
}

#[test]
fn unsupported_algorithms_fail_explicitly() {
    assert_eq!(
        decode_public_key(&[1, 2, 3], Algorithm::RSAMD5),
        Err(ProtoError::UnsupportedAlgorithm)
    );
    assert_eq!(
        decode_public_key(&[1, 2, 3], Algorithm::Unknown(200)),
        Err(ProtoError::UnsupportedAlgorithm)
    );
    let key = PublicKeyBuf::new(vec![0; 32], Algorithm::DSA);
    assert_eq!(key.verify(b"m", &[0; 64]), Err(ProtoError::UnsupportedAlgorithm));
}

#[test]
fn malformed_keys_fail_at_construction() {
    assert_eq!(
        decode_public_key(&[0; 31], Algorithm::ED25519),
        Err(ProtoError::MalformedKey)
    );
    assert_eq!(
        decode_public_key(&[0; 63], Algorithm::ECDSAP256SHA256),
        Err(ProtoError::MalformedKey)
    );
    // 64 zero octets are no point on P-256
    assert_eq!(
        decode_public_key(&[0; 64], Algorithm::ECDSAP256SHA256),
        Err(ProtoError::MalformedKey)
    );
    // exponent length runs past the end
    assert_eq!(
        decode_public_key(&[5, 1, 2], Algorithm::RSASHA256),
        Err(ProtoError::MalformedKey)
    );
    // no modulus
    assert_eq!(
        decode_public_key(&[1, 3], Algorithm::RSASHA256),
        Err(ProtoError::MalformedKey)
    );
}

#[test]
fn rsa_key_layout_round_trips() {
    let short = PublicKeyBuf::from_rsa(&[1, 0, 1], &[0xc5, 0x07], Algorithm::RSASHA256);
    assert_eq!(short.public_bytes(), &[3, 1, 0, 1, 0xc5, 0x07]);
    match decode_public_key(short.public_bytes(), Algorithm::RSASHA256).unwrap() {
        DecodedKey::Rsa { exponent, modulus, .. } => {
            assert_eq!(exponent, vec![1, 0, 1]);
            assert_eq!(modulus, vec![0xc5, 0x07]);
        }
        other => panic!("unexpected key {other:?}"),
    }
    let long_e = vec![7u8; 300];
    let long = PublicKeyBuf::from_rsa(&long_e, &[9], Algorithm::RSASHA1);
    assert_eq!(&long.public_bytes()[..3], &[0, 1, 44]);
    match decode_public_key(long.public_bytes(), Algorithm::RSASHA1).unwrap() {
        DecodedKey::Rsa { exponent, modulus, .. } => {
            assert_eq!(exponent, long_e);
            assert_eq!(modulus, vec![9]);
        }
        other => panic!("unexpected key {other:?}"),
    }
    assert_eq!(long.into_inner().len(), 304);
}

#[test]
fn ec_key_drops_the_form_octet() {
    let mut point = vec![4u8];
    point.extend_from_slice(&[1; 64]);
    let key = PublicKeyBuf::from_ec(Curve::P256, &point).unwrap();
    assert_eq!(key.algorithm(), Algorithm::ECDSAP256SHA256);
    assert_eq!(key.public_bytes(), &[1; 64][..]);
    assert_eq!(PublicKeyBuf::from_ec(Curve::P384, &point), Err(ProtoError::MalformedKey));
}

#[test]
fn algorithm_numbers() {
    assert_eq!(Algorithm::from_u8(13), Algorithm::ECDSAP256SHA256);
    assert_eq!(Algorithm::ECDSAP384SHA384.to_u8(), 14);
    assert_eq!(Algorithm::from_u8(99), Algorithm::Unknown(99));
    assert!(Algorithm::ED25519.is_supported());
    assert!(!Algorithm::DSA.is_supported());
}

const DNSKEY: [u8; 16] = [1, 1, 3, 8, 3, 1, 0, 1, 0xb5, 0x3c, 0x91, 0x07, 0x22, 0x8e, 0x11, 0x02];

#[test]
fn key_tag_of_a_dnskey() {
    assert_eq!(hickory_proto::dnssec::key_tag(&DNSKEY), 32991);
    assert_eq!(hickory_proto::dnssec::key_tag(&[]), 0);
}

#[test]
fn ds_digest_matches_the_key() {
    let owner = Name::from_utf8("example.com.").unwrap();
    let sha256 = hex("300ae298c33a96c6a65f006f66c0b27d93faeaee79ea0df748fbc8cd6a6ea89f");
    let sha1 = hex("aa84aae823c2c7c36228b74d94efab7549e1e9ba");
    assert!(ds_matches_key(&owner, &DNSKEY, 2, &sha256));
    assert!(ds_matches_key(&owner, &DNSKEY, 1, &sha1));
    assert!(!ds_matches_key(&owner, &DNSKEY, 1, &sha256));
    assert!(!ds_matches_key(&owner, &DNSKEY, 3, &sha256));
    let other = Name::from_utf8("example.net.").unwrap();
    assert!(!ds_matches_key(&other, &DNSKEY, 2, &sha256));
    let mut tampered = sha256.clone();
    tampered[31] ^= 1;
    assert!(!ds_matches_key(&owner, &DNSKEY, 2, &tampered));
}

#[test]
fn signature_window_uses_serial_arithmetic() {
    assert!(rrsig_in_window(100, 200, 150));
    assert!(rrsig_in_window(100, 200, 100));
    assert!(rrsig_in_window(100, 200, 200));
    assert!(!rrsig_in_window(100, 200, 201));
    assert!(!rrsig_in_window(100, 200, 99));
    // a window across the wrap of 32-bit time
    assert!(rrsig_in_window(0xffff_fff0, 0x10, 0x5));
    assert!(!rrsig_in_window(0xffff_fff0, 0x10, 0x11));
    let expired = signed_link(true, true, 100, 200, 300);
    assert!(expired.delegation_signed && expired.key_matches && !expired.signature_valid);
    assert!(signed_link(true, true, 100, 200, 150).signature_valid);
}

#[test]
fn rsa_sha256_signature_verifies() {
    let rsa = Rsa::generate(2048).unwrap();
    let key = PublicKeyBuf::from_rsa(&rsa.e().to_vec(), &rsa.n().to_vec(), Algorithm::RSASHA256);
    let pkey = PKey::from_rsa(rsa).unwrap();
    let mut signer = Signer::new(MessageDigest::sha256(), &pkey).unwrap();
    let sig = signer.sign_oneshot_to_vec(b"signed data").unwrap();
    assert_eq!(key.verify(b"signed data", &sig), Ok(()));
    assert_eq!(key.verify(b"signed datA", &sig), Err(ProtoError::BadSignature));
    let sha1_key = PublicKeyBuf::new(key.public_bytes().to_vec(), Algorithm::RSASHA1);
    assert_eq!(sha1_key.verify(b"signed data", &sig), Err(ProtoError::BadSignature));
}

fn pad32(v: Vec<u8>) -> Vec<u8> {
    let mut out = vec![0u8; 32 - v.len()];
    out.extend_from_slice(&v);
    out
}

#[test]
fn ecdsa_p256_signature_verifies() {
    let group = EcGroup::from_curve_name(Nid::X9_62_PRIME256V1).unwrap();
    let ec = EcKey::generate(&group).unwrap();
    let mut ctx = BigNumContext::new().unwrap();
    let point = ec
        .public_key()
        .to_bytes(&group, PointConversionForm::UNCOMPRESSED, &mut ctx)
        .unwrap();
    let key = PublicKeyBuf::from_ec(Curve::P256, &point).unwrap();
    assert!(matches!(
        decode_public_key(key.public_bytes(), Algorithm::ECDSAP256SHA256),
        Ok(DecodedKey::Ec { .. })
    ));
    let digest = openssl::sha::sha256(b"signed data");
    let sig = EcdsaSig::sign(&digest, &ec).unwrap();
    let mut raw = pad32(sig.r().to_vec());
    raw.extend_from_slice(&pad32(sig.s().to_vec()));
    assert_eq!(key.verify(b"signed data", &raw), Ok(()));
    assert_eq!(key.verify(b"other data", &raw), Err(ProtoError::BadSignature));
    assert_eq!(key.verify(b"signed data", &raw[..63]), Err(ProtoError::BadSignature));
}

#[test]
fn verdicts_follow_decoding_and_acceptance() {
    let key = decode_public_key(&[7; 32], Algorithm::ED25519);
    assert_eq!(signature_verdict(&key, true), Ok(()));
    assert_eq!(signature_verdict(&key, false), Err(ProtoError::BadSignature));
    let bad = decode_public_key(&[7; 31], Algorithm::ED25519);
    assert_eq!(signature_verdict(&bad, true), Err(ProtoError::MalformedKey));
    let unsupported = decode_public_key(&[7; 32], Algorithm::DSA);
    assert_eq!(signature_verdict(&unsupported, true), Err(ProtoError::UnsupportedAlgorithm));
    assert!(digest_matches(&[1, 2], &[1, 2]));
    assert!(!digest_matches(&[1, 2], &[1, 3]));
    assert!(!digest_matches(&[1, 2], &[1]));
}
