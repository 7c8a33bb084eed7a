use hickory_proto::error::ProtoError;
use hickory_proto::name::Name;
use hickory_proto::public_key::{Algorithm, PublicKeyBuf};
use hickory_proto::rrsig::{rrset_signed_data, verify_rrset, Rrsig};
use openssl::pkey::PKey;
use openssl::sign::Signer;

fn rrsig_rdata(signature: &[u8]) -> Vec<u8> {
    let mut d = vec![0, 1, 15, 2, 0, 0, 0x0e, 0x10]; // A, Ed25519, 2 labels, TTL 3600
    d.extend_from_slice(&[0, 0, 0x03, 0xe8]); // expiration 1000
    d.extend_from_slice(&[0, 0, 0, 100]); // inception 100
    d.extend_from_slice(&[0x12, 0x34]); // key tag
    d.extend_from_slice(&[7, b'e', b'x', b'a', b'm', b'p', b'l', b'e', 0]);
    d.extend_from_slice(signature);
    d
}

#[test]
fn rrsig_fields_read_back() {
    let r = Rrsig::read(&rrsig_rdata(&[1, 2, 3])).unwrap();
    assert_eq!(r.type_covered, 1);
    assert_eq!(r.algorithm, 15);
    assert_eq!(r.labels, 2);
    assert_eq!(r.original_ttl, 3600);
    assert_eq!(r.expiration, 1000);
    assert_eq!(r.inception, 100);
    assert_eq!(r.key_tag, 0x1234);
    assert_eq!(r.signer, Name::from_utf8("example.").unwrap());
    assert_eq!(r.signature, vec![1, 2, 3]);
    assert!(Rrsig::read(&rrsig_rdata(&[])[..17]).is_err());
}

#[test]
fn signed_data_is_canonical() {
    let r = Rrsig::read(&rrsig_rdata(&[])).unwrap();
    let owner = Name::from_utf8("WWW.Example.").unwrap();
    let data = r.signed_data(&owner, 1, &[vec![1, 2, 3, 4]]).unwrap();
    let mut expected = rrsig_rdata(&[]);
    expected.extend_from_slice(&[3, b'w', b'w', b'w', 7, b'e', b'x', b'a', b'm', b'p', b'l', b'e', 0]);
    expected.extend_from_slice(&[0, 1, 0, 1, 0, 0, 0x0e, 0x10, 0, 4, 1, 2, 3, 4]);
    assert_eq!(data, expected);
    assert_eq!(
        r.signed_data(&owner, 1, &[vec![1, 2, 3, 5], vec![1, 2, 3, 4]]),
        Err(ProtoError::NotCanonical)
    );
    assert_eq!(
        r.signed_data(&owner, 1, &[vec![1, 2], vec![1, 2]]),
        Err(ProtoError::NotCanonical)
    );
    assert!(r.signed_data(&owner, 1, &[vec![1, 2], vec![1, 2, 0], vec![2]]).is_ok());
}

#[test]
fn rrset_signature_verifies_end_to_end() {
    let signing = PKey::generate_ed25519().unwrap();
    let key = PublicKeyBuf::new(signing.raw_public_key().unwrap(), Algorithm::ED25519);
    let owner = Name::from_utf8("www.example.").unwrap();
    let rdatas = vec![vec![192, 0, 2, 1], vec![192, 0, 2, 2]];
    let unsigned = Rrsig::read(&rrsig_rdata(&[])).unwrap();
    let data = unsigned.signed_data(&owner, 1, &rdatas).unwrap();
    let mut signer = Signer::new_without_digest(&signing).unwrap();
    let signature = signer.sign_oneshot_to_vec(&data).unwrap();
    let rrsig = Rrsig::read(&rrsig_rdata(&signature)).unwrap();
    assert_eq!(verify_rrset(&key, &rrsig, &owner, 1, &rdatas, 500), Ok(()));
    // outside the window
    assert_eq!(
        verify_rrset(&key, &rrsig, &owner, 1, &rdatas, 1001),
        Err(ProtoError::OutsideValidity)
    );
    // a changed record
    let changed = vec![vec![192, 0, 2, 1], vec![192, 0, 2, 3]];
    assert_eq!(
        verify_rrset(&key, &rrsig, &owner, 1, &changed, 500),
        Err(ProtoError::BadSignature)
    );
    // another algorithm's key
    let rsa = PublicKeyBuf::new(vec![1, 3, 5], Algorithm::RSASHA256);
    assert_eq!(
        verify_rrset(&rsa, &rrsig, &owner, 1, &rdatas, 500),
        Err(ProtoError::BadSignature)
    );
}

#[test]
fn checks_before_the_signature() {
    let key = PublicKeyBuf::new(vec![7; 32], Algorithm::ED25519);
    let rrsig = Rrsig::read(&rrsig_rdata(&[0; 64])).unwrap();
    let owner = Name::from_utf8("www.example.").unwrap();
    let rdatas = vec![vec![1], vec![2]];
    assert_eq!(
        rrset_signed_data(&key, &rrsig, &owner, 1, &rdatas, 99),
        Err(ProtoError::OutsideValidity)
    );
    let rsa = PublicKeyBuf::new(vec![1, 3, 5], Algorithm::RSASHA256);
    assert_eq!(
        rrset_signed_data(&rsa, &rrsig, &owner, 1, &rdatas, 500),
        Err(ProtoError::BadSignature)
    );
    let reversed = vec![vec![2], vec![1]];
    assert_eq!(
        rrset_signed_data(&key, &rrsig, &owner, 1, &reversed, 500),
        Err(ProtoError::NotCanonical)
    );
    let data = rrset_signed_data(&key, &rrsig, &owner, 1, &rdatas, 500).unwrap();
    assert_eq!(data, rrsig.signed_data(&owner, 1, &rdatas).unwrap());
    let short_key = PublicKeyBuf::new(vec![7; 31], Algorithm::ED25519);
    assert_eq!(
        verify_rrset(&short_key, &rrsig, &owner, 1, &rdatas, 500),
        Err(ProtoError::MalformedKey)
    );
}
