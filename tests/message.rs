use hickory_proto::error::ProtoError;
use hickory_proto::message::{Message, Query};
use hickory_proto::name::Name;
use hickory_proto::resolver::ResponseCode;

fn response_with_pointer() -> Vec<u8> {
    vec![
        0x12, 0x34, 0x81, 0x83, 0, 1, 0, 1, 0, 0, 0, 0, // header, NXDOMAIN
        3, b'f', b'o', b'o', 3, b'c', b'o', b'm', 0, 0, 1, 0, 1, // question
        0xc0, 12, 0, 1, 0, 1, 0, 0, 0, 60, 0, 4, 1, 2, 3, 4, // answer via pointer
    ]
}

#[test]
fn decodes_a_message_with_a_compressed_name() {
    let m = Message::from_vec(&response_with_pointer()).unwrap();
    assert_eq!(m.id(), 0x1234);
    assert_eq!(m.response_code(), ResponseCode::NXDomain);
    assert!(m.recursion_desired());
    assert!(!m.authenticated_data());
    assert_eq!(m.queries().len(), 1);
    let foo = Name::from_utf8("foo.com.").unwrap();
    assert_eq!(m.queries()[0].name, foo);
    assert_eq!(m.answers().len(), 1);
    assert_eq!(m.answers()[0].name, foo);
    assert_eq!(m.answers()[0].ttl, 60);
    assert_eq!(m.answers()[0].rdata, vec![1, 2, 3, 4]);
    assert!(m.name_servers().is_empty());
    assert!(m.additionals().is_empty());
}

#[test]
fn rejects_count_mismatch_and_trailing_bytes() {
    let mut extra = response_with_pointer();
    extra.push(0);
    assert_eq!(Message::from_vec(&extra), Err(ProtoError::CountMismatch));
    let mut short = response_with_pointer();
    short.pop();
    assert!(Message::from_vec(&short).is_err());
}

#[test]
fn rejects_pointer_loops_and_forward_pointers() {
    let mut self_pointer = vec![0, 0, 0, 0, 0, 1, 0, 0, 0, 0, 0, 0];
    self_pointer.extend_from_slice(&[0xc0, 12, 0, 1, 0, 1]);
    assert_eq!(Message::from_vec(&self_pointer), Err(ProtoError::BadPointer));
    let mut forward = vec![0, 0, 0, 0, 0, 1, 0, 0, 0, 0, 0, 0];
    forward.extend_from_slice(&[0xc0, 14, 0, 0, 1, 0, 1]);
    assert_eq!(Message::from_vec(&forward), Err(ProtoError::BadPointer));
}

#[test]
fn query_message_has_one_question() {
    let q = Query {
        name: Name::from_utf8("example.com").unwrap(),
        query_type: 1,
        query_class: 1,
    };
    let m = Message::query(7, q.clone(), true);
    assert_eq!(m.id(), 7);
    assert!(m.recursion_desired());
    assert_eq!(m.queries(), &vec![q]);
}

#[test]
fn names_parse_and_compare() {
    let a = Name::from_utf8("Example.COM").unwrap();
    let b = Name::from_utf8("example.com.").unwrap();
    assert_eq!(a.num_labels(), 2);
    assert!(a.eq_ignore_case(&b));
    assert!(!a.eq_case_sensitive(&b));
    assert!(b.eq_case_sensitive(&b.clone()));
    assert_eq!(Name::from_utf8("a..b"), Err(ProtoError::BadLabel));
    assert_eq!(Name::from_utf8(""), Err(ProtoError::BadLabel));
    assert_eq!(Name::from_utf8(&"x".repeat(64)), Err(ProtoError::BadLabel));
    let long = vec!["abcdefghi"; 30].join(".");
    assert_eq!(Name::from_utf8(&long), Err(ProtoError::NameTooLong));
    assert_eq!(Name::root().num_labels(), 0);
}

#[test]
fn case_randomization_keeps_the_name_up_to_case() {
    let n = Name::from_utf8("example.com").unwrap();
    let random: Vec<u8> = (0..13u8).collect();
    let r = n.randomize_case(&random);
    assert!(r.eq_ignore_case(&n));
    // odd octets, at wire positions 1, 3, 5, 7, 9 and 11, choose upper case
    assert_eq!(r, Name::from_utf8("ExAmPlE.CoM").unwrap());
}

#[test]
fn encodes_names_uncompressed_and_reads_back() {
    let m = Message::from_vec(&response_with_pointer()).unwrap();
    let bytes = m.to_vec().unwrap();
    assert_eq!(bytes.len(), response_with_pointer().len() + 7);
    assert_eq!(&bytes[..12], &response_with_pointer()[..12]);
    assert_eq!(&bytes[25..34], &[3, b'f', b'o', b'o', 3, b'c', b'o', b'm', 0]);
    assert_eq!(Message::from_vec(&bytes).unwrap(), m);
}

#[test]
fn query_message_wire_form() {
    let q = Query {
        name: Name::from_utf8("a.").unwrap(),
        query_type: 28,
        query_class: 1,
    };
    let bytes = Message::query(0x0102, q, false).to_vec().unwrap();
    assert_eq!(
        bytes,
        vec![1, 2, 0, 0, 0, 1, 0, 0, 0, 0, 0, 0, 1, b'a', 0, 0, 28, 0, 1]
    );
}

#[test]
fn record_data_reads_as_svcb_only_for_svcb_types() {
    let mut m = vec![0, 0, 0x81, 0x80, 0, 0, 0, 2, 0, 0, 0, 0];
    // an HTTPS record for the root: priority 1, target ".", port 443
    m.extend_from_slice(&[0, 0, 65, 0, 1, 0, 0, 0, 10, 0, 9, 0, 1, 0, 0, 3, 0, 2, 1, 187]);
    // an A record for the root
    m.extend_from_slice(&[0, 0, 1, 0, 1, 0, 0, 0, 10, 0, 4, 1, 2, 3, 4]);
    let msg = Message::from_vec(&m).unwrap();
    let https = msg.answers()[0].svcb_data().unwrap();
    assert_eq!(https.svc_priority(), 1);
    assert_eq!(
        https.svc_params()[0],
        (
            hickory_proto::svcb::SvcParamKey::Port,
            hickory_proto::svcb::SvcParamValue::Port(443)
        )
    );
    assert!(msg.answers()[1].svcb_data().is_err());
}

#[test]
fn wire_length_of_names() {
    assert_eq!(hickory_proto::name::name_wire_len(&Name::root()), 1);
    let n = Name::from_utf8("www.example.com").unwrap();
    assert_eq!(hickory_proto::name::name_wire_len(&n), 17);
}

#[test]
fn ns_data_is_decompressed() {
    let mut m = vec![0, 9, 0x80, 0, 0, 0, 0, 0, 0, 1, 0, 0];
    // authority: testing. NS ns1.testing. (the target compressed against the owner)
    m.extend_from_slice(&[7, b't', b'e', b's', b't', b'i', b'n', b'g', 0]);
    m.extend_from_slice(&[0, 2, 0, 1, 0, 0, 0, 60, 0, 6, 3, b'n', b's', b'1', 0xc0, 12]);
    let msg = Message::from_vec(&m).unwrap();
    let ns = &msg.name_servers()[0];
    assert_eq!(ns.rdata, vec![3, b'n', b's', b'1', 7, b't', b'e', b's', b't', b'i', b'n', b'g', 0]);
    assert_eq!(ns.name_target().unwrap(), Name::from_utf8("ns1.testing.").unwrap());
    // re-encoded without compression, it reads back the same
    assert_eq!(Message::from_vec(&msg.to_vec().unwrap()).unwrap(), msg);
    // NS data that does not end where its length says is refused
    let mut bad = m.clone();
    bad[30] = 7;
    bad.push(0);
    assert!(Message::from_vec(&bad).is_err());
}

#[test]
fn zone_membership_ignores_case() {
    let zone = Name::from_utf8("Testing.").unwrap();
    assert!(Name::from_utf8("ns1.testing").unwrap().is_in_zone(&zone));
    assert!(zone.is_in_zone(&zone));
    assert!(zone.is_in_zone(&Name::root()));
    assert!(!Name::from_utf8("testing.example").unwrap().is_in_zone(&zone));
    assert!(!Name::root().is_in_zone(&zone));
}

#[test]
fn names_present_as_text() {
    assert_eq!(Name::root().to_text(), ".");
    assert_eq!(Name::from_utf8("www.Example.com").unwrap().to_text(), "www.Example.com.");
    let odd = Name::from_labels(vec![vec![b'a', b'.', b'\\'], vec![0, b' ', 200]]).unwrap();
    assert_eq!(odd.to_text(), "a\\.\\\\.\\000\\032\\200.");
}

#[test]
fn first_question_is_replaced() {
    let m = Message::from_vec(&response_with_pointer()).unwrap();
    let q = Query {
        name: Name::from_utf8("FOO.com").unwrap(),
        query_type: 1,
        query_class: 1,
    };
    let m2 = m.clone().with_first_query(q.clone());
    assert_eq!(m2.queries(), &vec![q.clone()]);
    assert_eq!(m2.answers(), m.answers());
    let empty = Message::from_vec(&[0, 1, 0, 0, 0, 0, 0, 0, 0, 0, 0, 0]).unwrap();
    assert_eq!(empty.clone().with_first_query(q), empty);
}
