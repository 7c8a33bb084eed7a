use hickory_proto::cache::{rrset_ttl, RecordCache};
use hickory_proto::dns_request::{DnsRequest, DnsRequestOptions};
use hickory_proto::message::{Message, Query};
use hickory_proto::name::Name;
use hickory_proto::resolver::{
    accept_echo, chain_status, finish, referral_event, response_answers, response_event, Action, Event,
    ResolutionContext, Resolution,
    ResponseCode,
    ValidationStatus, ZoneLink, DEFAULT_MAX_HOPS, DEFAULT_MAX_RETRIES,
};

fn secure_link() -> ZoneLink {
    ZoneLink {
        delegation_signed: true,
        proven_unsigned: false,
        key_matches: true,
        signature_valid: true,
    }
}

#[test]
fn five_signed_zones_give_an_authenticated_answer() {
    let links = vec![secure_link(); 5];
    let status = chain_status(&links);
    assert_eq!(status, ValidationStatus::Secure);
    assert_eq!(
        finish(ResponseCode::NoError, status, true),
        Resolution::Answer { authenticated: true }
    );
}

#[test]
fn broken_links_fail_validation() {
    let mut links = vec![secure_link(); 4];
    links[2].signature_valid = false;
    assert_eq!(chain_status(&links), ValidationStatus::Bogus);
    assert_eq!(
        finish(ResponseCode::NoError, ValidationStatus::Bogus, true),
        Resolution::ServFail
    );
    links[2] = ZoneLink {
        delegation_signed: false,
        proven_unsigned: false,
        key_matches: false,
        signature_valid: false,
    };
    assert_eq!(chain_status(&links), ValidationStatus::Indeterminate);
    assert_eq!(
        finish(ResponseCode::NoError, ValidationStatus::Indeterminate, true),
        Resolution::ServFail
    );
}

#[test]
fn unsigned_zone_nxdomain() {
    let links = vec![
        secure_link(),
        ZoneLink {
            delegation_signed: false,
            proven_unsigned: true,
            key_matches: false,
            signature_valid: false,
        },
    ];
    let status = chain_status(&links);
    assert_eq!(status, ValidationStatus::Insecure);
    assert_eq!(
        finish(ResponseCode::NXDomain, status, true),
        Resolution::NxDomain { authenticated: false }
    );
    assert_eq!(
        finish(ResponseCode::NXDomain, ValidationStatus::Indeterminate, false),
        Resolution::NxDomain { authenticated: false }
    );
    assert_eq!(
        finish(ResponseCode::Refused, ValidationStatus::Insecure, false),
        Resolution::ServFail
    );
}

#[test]
fn case_randomized_echo_must_match_exactly() {
    let sent = Name::from_utf8("hIcKoRy-DnS.tEsTiNg").unwrap();
    let spoofed = Name::from_utf8("hickory-dns.testing").unwrap();
    assert!(!accept_echo(&sent, &spoofed, true));
    assert!(accept_echo(&sent, &sent.clone(), true));
    assert!(accept_echo(&sent, &spoofed, false));
    let other = Name::from_utf8("example.testing").unwrap();
    assert!(!accept_echo(&sent, &other, false));
}

#[test]
fn referral_loop_without_glue_stops_within_budget() {
    let mut ctx = ResolutionContext::new(DEFAULT_MAX_HOPS, DEFAULT_MAX_RETRIES);
    let mut queries = 0;
    let mut action = ctx.on_event(Event::Begin);
    let zone = Name::from_utf8("testing.").unwrap();
    loop {
        match action {
            Action::Query | Action::ResolveNameServer => queries += 1,
            Action::Fail(r) => {
                assert_eq!(r, Resolution::ServFail);
                break;
            }
            Action::Finish => panic!("no answer was given"),
        }
        // every server refers back to the same zone, without glue
        action = ctx.on_event(Event::Referral {
            zone: zone.clone(),
            glue: false,
            ns_in_zone: false,
        });
    }
    assert!(queries < 20);
    assert_eq!(queries, 2);
}

#[test]
fn glueless_self_referral_fails_at_once() {
    let mut ctx = ResolutionContext::new(3, 0);
    assert_eq!(ctx.on_event(Event::Begin), Action::Query);
    let zone = Name::from_utf8(".").unwrap();
    let a = ctx.on_event(Event::Referral { zone, glue: false, ns_in_zone: true });
    assert_eq!(a, Action::Fail(Resolution::ServFail));
    assert_eq!(ctx.remaining(), 2);
}

#[test]
fn budget_bounds_the_queries() {
    let mut ctx = ResolutionContext::new(3, 0);
    let mut queries = 0;
    let mut action = ctx.on_event(Event::Begin);
    let mut depth = 0;
    while matches!(action, Action::Query | Action::ResolveNameServer) {
        queries += 1;
        depth += 1;
        let zone = Name::from_utf8(&format!("z{depth}.testing")).unwrap();
        action = ctx.on_event(Event::Referral { zone, glue: true, ns_in_zone: true });
    }
    assert_eq!(action, Action::Fail(Resolution::ServFail));
    assert_eq!(queries, 3);
    let mut ctx = ResolutionContext::new(1, 0);
    assert_eq!(ctx.on_event(Event::Begin), Action::Query);
    assert_eq!(
        ctx.on_event(Event::Timeout { alternate: true }),
        Action::Fail(Resolution::Timeout)
    );
    // a retry after a timeout spends a retry, not a hop
    let mut ctx = ResolutionContext::new(1, 1);
    assert_eq!(ctx.on_event(Event::Begin), Action::Query);
    assert_eq!(ctx.remaining(), 0);
    assert_eq!(ctx.on_event(Event::Timeout { alternate: true }), Action::Query);
    assert_eq!(ctx.remaining(), 0);
    assert_eq!(
        ctx.on_event(Event::Timeout { alternate: true }),
        Action::Fail(Resolution::Timeout)
    );
    let mut ctx = ResolutionContext::new(1, 1);
    assert_eq!(ctx.on_event(Event::Begin), Action::Query);
    assert_eq!(
        ctx.on_event(Event::Timeout { alternate: false }),
        Action::Fail(Resolution::Timeout)
    );
    assert_eq!(ctx.on_event(Event::Final), Action::Finish);
}

#[test]
fn cached_glue_answers_later_lookup() {
    let mut cache = RecordCache::new();
    let sibling = Name::from_utf8("sibling.testing.").unwrap();
    let domain = Name::from_utf8("hickory-dns.testing.").unwrap();
    let secure = ValidationStatus::Secure;
    // the NS answer for the domain, with glue for its server in the sibling zone
    cache.insert(domain.clone(), 2, 1, vec![b"sibling".to_vec()], secure, 86400, 1000);
    let ttl = rrset_ttl(&[300, 86400]);
    cache.insert(sibling.clone(), 1, 1, vec![vec![10, 0, 0, 5]], secure, ttl, 1000);
    let (later, status) = cache.lookup(&sibling, 1, 1, 1200).unwrap();
    assert_eq!(later, &vec![vec![10, 0, 0, 5]]);
    assert_eq!(status, secure);
    assert!(cache.lookup(&sibling, 1, 1, 1300).is_none());
    assert!(cache.lookup(&sibling, 28, 1, 1200).is_none());
    let insecure = ValidationStatus::Insecure;
    cache.insert(sibling.clone(), 1, 1, vec![vec![10, 0, 0, 6]], insecure, 10, 2000);
    assert_eq!(
        cache.lookup(&sibling, 1, 1, 2005),
        Some((&vec![vec![10, 0, 0, 6]], insecure))
    );
    assert_eq!(cache.lookup(&domain, 2, 1, 2005).unwrap().0.len(), 1);
    // owner names compare without case
    let upper = Name::from_utf8("SIBLING.Testing.").unwrap();
    assert_eq!(cache.lookup(&upper, 1, 1, 2005).unwrap().0, &vec![vec![10, 0, 0, 6]]);
}

#[test]
fn rrset_ttl_is_the_least() {
    assert_eq!(rrset_ttl(&[]), 0);
    assert_eq!(rrset_ttl(&[300, 60, 86400]), 60);
}

#[test]
fn request_keeps_message_options_and_original_query() {
    let q = Query {
        name: Name::from_utf8("Example.com").unwrap(),
        query_type: 1,
        query_class: 1,
    };
    let options = DnsRequestOptions::default();
    assert_eq!(options.max_request_depth, 26);
    assert!(options.recursion_desired);
    assert!(!options.case_randomization);
    let m = Message::query(1, q.clone(), true);
    let req = DnsRequest::new(m.clone(), options);
    assert!(req.original_query().is_none());
    let req = req.with_original_query(Some(q.clone()));
    assert_eq!(req.original_query(), Some(&q));
    assert_eq!(req.options(), &options);
    assert_eq!(req.message(), &m);
    let (m2, o2) = req.into_parts();
    assert_eq!(m2, m);
    assert_eq!(o2, options);
    let from = DnsRequest::from(m.clone());
    assert_eq!(from.options(), &DnsRequestOptions::default());
}

#[test]
fn referral_events() {
    let q = Name::from_utf8("www.hickory-dns.testing").unwrap();
    let zone = Name::from_utf8("testing").unwrap();
    let ns_in = vec![Name::from_utf8("ns1.testing").unwrap()];
    let ns_out = vec![Name::from_utf8("ns.sibling.example").unwrap()];
    let glue = vec![Name::from_utf8("NS1.testing").unwrap()];
    match referral_event(&q, &zone, &ns_in, &glue) {
        Some(Event::Referral { zone: z, glue, ns_in_zone }) => {
            assert_eq!(z, zone);
            assert!(glue);
            assert!(ns_in_zone);
        }
        _ => panic!("expected a referral"),
    }
    match referral_event(&q, &zone, &ns_in, &[]) {
        Some(Event::Referral { glue, ns_in_zone, .. }) => assert!(!glue && ns_in_zone),
        _ => panic!("expected a referral"),
    }
    match referral_event(&q, &zone, &ns_out, &glue) {
        Some(Event::Referral { glue, ns_in_zone, .. }) => assert!(!glue && !ns_in_zone),
        _ => panic!("expected a referral"),
    }
    let elsewhere = Name::from_utf8("example").unwrap();
    assert!(referral_event(&q, &elsewhere, &ns_in, &glue).is_none());
    assert!(referral_event(&q, &zone, &[], &glue).is_none());
}

fn referral_bytes(owner2: &[u8]) -> Vec<u8> {
    let mut m = vec![0, 9, 0x80, 0, 0, 0, 0, 0, 0, 2, 0, 1];
    // testing. NS ns1.testing.
    m.extend_from_slice(&[7, b't', b'e', b's', b't', b'i', b'n', b'g', 0]);
    m.extend_from_slice(&[0, 2, 0, 1, 0, 0, 0, 60, 0, 6, 3, b'n', b's', b'1', 0xc0, 12]);
    // <owner2> NS ns2.example.
    m.extend_from_slice(owner2);
    m.extend_from_slice(&[0, 2, 0, 1, 0, 0, 0, 60, 0, 13]);
    m.extend_from_slice(&[3, b'n', b's', b'2', 7, b'e', b'x', b'a', b'm', b'p', b'l', b'e', 0]);
    // additional: ns1.testing. A 10.0.0.1
    m.extend_from_slice(&[3, b'n', b's', b'1', 0xc0, 12, 0, 1, 0, 1, 0, 0, 0, 60, 0, 4, 10, 0, 0, 1]);
    m
}

#[test]
fn responses_become_events() {
    let qname = Name::from_utf8("www.hickory-dns.testing.").unwrap();
    let referral = Message::from_vec(&referral_bytes(&[0xc0, 12])).unwrap();
    match response_event(&referral, &qname) {
        Some(Event::Referral { zone, glue, ns_in_zone }) => {
            assert_eq!(zone, Name::from_utf8("testing.").unwrap());
            assert!(glue);
            assert!(!ns_in_zone);
        }
        _ => panic!("expected a referral"),
    }
    // NS records that disagree on their owner cannot be followed
    let split = Message::from_vec(&referral_bytes(&[0])).unwrap();
    assert!(response_event(&split, &qname).is_none());
    // a referral that does not cover the query name
    let other = Name::from_utf8("www.example.").unwrap();
    assert!(response_event(&referral, &other).is_none());
    // NXDOMAIN and NODATA are final
    let nx = Message::from_vec(&[0, 9, 0x80, 3, 0, 0, 0, 0, 0, 0, 0, 0]).unwrap();
    assert!(matches!(response_event(&nx, &qname), Some(Event::Final)));
    let nodata = Message::from_vec(&[0, 9, 0x80, 0, 0, 0, 0, 0, 0, 0, 0, 0]).unwrap();
    assert!(matches!(response_event(&nodata, &qname), Some(Event::Final)));
}

#[test]
fn responses_must_echo_id_and_name() {
    let sent = Name::from_utf8("fOo.CoM").unwrap();
    let q = Query { name: sent.clone(), query_type: 1, query_class: 1 };
    let reply = Message::query(7, q.clone(), true);
    assert!(response_answers(7, &sent, &reply, true));
    assert!(!response_answers(8, &sent, &reply, true));
    let lower = Query { name: Name::from_utf8("foo.com").unwrap(), query_type: 1, query_class: 1 };
    let spoof = Message::query(7, lower.clone(), true);
    assert!(!response_answers(7, &sent, &spoof, true));
    assert!(response_answers(7, &sent, &spoof, false));
    let bare = Message::from_vec(&[0, 7, 0x80, 0, 0, 0, 0, 0, 0, 0, 0, 0]).unwrap();
    assert!(!response_answers(7, &sent, &bare, false));
    // the client sees its own question again
    let req = DnsRequest::new(Message::query(7, q.clone(), true), DnsRequestOptions::default())
        .with_original_query(Some(lower.clone()));
    let restored = req.restore_original_query(reply.clone());
    assert_eq!(restored.queries(), &vec![lower]);
    let plain = DnsRequest::new(Message::query(7, q, true), DnsRequestOptions::default());
    assert_eq!(plain.restore_original_query(reply.clone()), reply);
}
