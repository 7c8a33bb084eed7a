use hickory_proto::error::ProtoError;
use hickory_proto::message::Message;
use hickory_proto::name::Name;
use hickory_proto::svcb::{
    Alpn, EchConfigList, IpHint, Mandatory, SvcParamKey, SvcParamValue, Unknown, A, AAAA, SVCB,
};

#[test]
fn read_svcb_key() {
    assert_eq!(SvcParamKey::Mandatory, 0.into());
    assert_eq!(SvcParamKey::Alpn, 1.into());
    assert_eq!(SvcParamKey::NoDefaultAlpn, 2.into());
    assert_eq!(SvcParamKey::Port, 3.into());
    assert_eq!(SvcParamKey::Ipv4Hint, 4.into());
    assert_eq!(SvcParamKey::EchConfigList, 5.into());
    assert_eq!(SvcParamKey::Ipv6Hint, 6.into());
    assert_eq!(SvcParamKey::Key(65280), 65280.into());
    assert_eq!(SvcParamKey::Key(65534), 65534.into());
    assert_eq!(SvcParamKey::Key65535, 65535.into());
    assert_eq!(SvcParamKey::Unknown(65279), 65279.into());
}

#[test]
fn read_svcb_key_to_u16() {
    assert_eq!(u16::from(SvcParamKey::Mandatory), 0);
    assert_eq!(u16::from(SvcParamKey::Alpn), 1);
    assert_eq!(u16::from(SvcParamKey::NoDefaultAlpn), 2);
    assert_eq!(u16::from(SvcParamKey::Port), 3);
    assert_eq!(u16::from(SvcParamKey::Ipv4Hint), 4);
    assert_eq!(u16::from(SvcParamKey::EchConfigList), 5);
    assert_eq!(u16::from(SvcParamKey::Ipv6Hint), 6);
    assert_eq!(u16::from(SvcParamKey::Key(65280)), 65280);
    assert_eq!(u16::from(SvcParamKey::Key(65534)), 65534);
    assert_eq!(u16::from(SvcParamKey::Key65535), 65535);
    assert_eq!(u16::from(SvcParamKey::Unknown(65279)), 65279);
}

fn test_encode_decode(rdata: SVCB) {
    let bytes = rdata.to_bytes().expect("failed to emit SVCB");
    let read_rdata = SVCB::read_data(&bytes).expect("failed to read back");
    assert_eq!(rdata, read_rdata);
}

#[test]
fn test_encode_decode_svcb() {
    test_encode_decode(SVCB::new(
        0,
        Name::from_utf8("www.example.com.").unwrap(),
        vec![],
    ));
    test_encode_decode(SVCB::new(
        0,
        Name::from_utf8(".").unwrap(),
        vec![(
            SvcParamKey::Alpn,
            SvcParamValue::Alpn(Alpn(vec!["h2".to_string()])),
        )],
    ));
    test_encode_decode(SVCB::new(
        0,
        Name::from_utf8("example.com.").unwrap(),
        vec![
            (
                SvcParamKey::Mandatory,
                SvcParamValue::Mandatory(Mandatory(vec![SvcParamKey::Alpn])),
            ),
            (
                SvcParamKey::Alpn,
                SvcParamValue::Alpn(Alpn(vec!["h2".to_string()])),
            ),
        ],
    ));
}

#[test]
#[should_panic]
fn test_encode_decode_svcb_bad_order() {
    test_encode_decode(SVCB::new(
        0,
        Name::from_utf8(".").unwrap(),
        vec![
            (
                SvcParamKey::Alpn,
                SvcParamValue::Alpn(Alpn(vec!["h2".to_string()])),
            ),
            (
                SvcParamKey::Mandatory,
                SvcParamValue::Mandatory(Mandatory(vec![SvcParamKey::Alpn])),
            ),
        ],
    ));
}

#[test]
fn test_no_panic() {
    const BUF: &[u8] = &[
        255, 121, 0, 0, 0, 0, 40, 255, 255, 160, 160, 0, 0, 0, 64, 0, 1, 255, 158, 0, 0, 0, 8, 0,
        0, 7, 7, 0, 0, 0, 0, 0, 0, 0,
    ];
    assert!(Message::from_vec(BUF).is_err());
}

#[test]
fn test_unrestricted_output_size() {
    let svcb = SVCB::new(
        8224,
        Name::from_utf8(".").unwrap(),
        vec![(
            SvcParamKey::Unknown(8224),
            SvcParamValue::Unknown(Unknown(vec![32; 257])),
        )],
    );

    let mut buf = Vec::new();
    svcb.emit(&mut buf).unwrap();
}

#[test]
fn test_unknown_value_round_trip() {
    let svcb = SVCB::new(
        8224,
        Name::from_utf8(".").unwrap(),
        vec![(
            SvcParamKey::Unknown(8224),
            SvcParamValue::Unknown(Unknown(vec![32; 10])),
        )],
    );

    let mut buf = Vec::new();
    svcb.emit(&mut buf).unwrap();

    let decoded = SVCB::read_data(&buf).unwrap();

    assert_eq!(svcb, decoded);
}

fn full_record() -> SVCB {
    SVCB::new(
        1,
        Name::from_utf8("svc.example.net").unwrap(),
        vec![
            (
                SvcParamKey::Mandatory,
                SvcParamValue::Mandatory(Mandatory(vec![SvcParamKey::Port, SvcParamKey::Ipv4Hint])),
            ),
            (
                SvcParamKey::Alpn,
                SvcParamValue::Alpn(Alpn(vec!["h2".to_string(), "h3".to_string()])),
            ),
            (SvcParamKey::NoDefaultAlpn, SvcParamValue::NoDefaultAlpn),
            (SvcParamKey::Port, SvcParamValue::Port(8443)),
            (
                SvcParamKey::Ipv4Hint,
                SvcParamValue::Ipv4Hint(IpHint(vec![A([192, 0, 2, 1]), A([192, 0, 2, 2])])),
            ),
            (
                SvcParamKey::EchConfigList,
                SvcParamValue::EchConfigList(EchConfigList(vec![0, 4, 1, 2, 3, 4])),
            ),
            (
                SvcParamKey::Ipv6Hint,
                SvcParamValue::Ipv6Hint(IpHint(vec![AAAA([
                    0x20, 0x01, 0x0d, 0xb8, 0, 0, 0, 0, 0, 0, 0, 0, 0, 0, 0, 1,
                ])])),
            ),
            (
                SvcParamKey::Key(65333),
                SvcParamValue::Unknown(Unknown(vec![b'e', b'x'])),
            ),
        ],
    )
}

#[test]
fn round_trip_every_kind_of_parameter() {
    let r = full_record();
    let bytes = r.to_bytes().unwrap();
    assert_eq!(SVCB::read_data(&bytes).unwrap(), r);
}

#[test]
fn exact_wire_form() {
    let r = SVCB::new(
        1,
        Name::from_utf8("a.b").unwrap(),
        vec![(SvcParamKey::Port, SvcParamValue::Port(53))],
    );
    assert_eq!(
        r.to_bytes().unwrap(),
        vec![0, 1, 1, b'a', 1, b'b', 0, 0, 3, 0, 2, 0, 53]
    );
}

#[test]
fn truncated_record_is_rejected() {
    let r = full_record();
    let bytes = r.to_bytes().unwrap();
    assert!(SVCB::read_data(&bytes[..bytes.len() - 1]).is_err());
    let plain = SVCB::new(0, Name::from_utf8("example.com.").unwrap(), vec![]);
    let bytes = plain.to_bytes().unwrap();
    assert!(SVCB::read_data(&bytes[..bytes.len() - 1]).is_err());
}

#[test]
fn decode_rejects_repeated_and_descending_keys() {
    // port=53 twice
    let repeated = [0, 1, 0, 0, 3, 0, 2, 0, 53, 0, 3, 0, 2, 0, 53];
    assert_eq!(
        SVCB::read_data(&repeated),
        Err(ProtoError::ParamsOutOfOrder)
    );
    // port, then alpn
    let descending = [0, 1, 0, 0, 3, 0, 2, 0, 53, 0, 1, 0, 3, 2, b'h', b'2'];
    assert_eq!(
        SVCB::read_data(&descending),
        Err(ProtoError::ParamsOutOfOrder)
    );
}

#[test]
fn encode_rejects_repeated_keys() {
    let r = SVCB::new(
        1,
        Name::root(),
        vec![
            (SvcParamKey::Port, SvcParamValue::Port(1)),
            (SvcParamKey::Port, SvcParamValue::Port(2)),
        ],
    );
    assert_eq!(r.to_bytes(), Err(ProtoError::ParamsOutOfOrder));
    let mut out = vec![9];
    assert!(r.emit(&mut out).is_err());
    assert_eq!(out, vec![9]);
}

#[test]
fn malformed_values_are_rejected() {
    // no-default-alpn with a value
    assert_eq!(
        SVCB::read_data(&[0, 1, 0, 0, 2, 0, 1, 7]),
        Err(ProtoError::MalformedParam)
    );
    // port of three octets
    assert_eq!(
        SVCB::read_data(&[0, 1, 0, 0, 3, 0, 3, 0, 53, 0]),
        Err(ProtoError::MalformedParam)
    );
    // empty mandatory list
    assert_eq!(
        SVCB::read_data(&[0, 1, 0, 0, 0, 0, 0]),
        Err(ProtoError::MalformedParam)
    );
    // ipv4 hint of five octets
    assert_eq!(
        SVCB::read_data(&[0, 1, 0, 0, 4, 0, 5, 1, 2, 3, 4, 5]),
        Err(ProtoError::MalformedParam)
    );
    // alpn id running past its value
    assert!(SVCB::read_data(&[0, 1, 0, 0, 1, 0, 2, 5, b'h']).is_err());
    // alpn id that is not UTF-8
    assert_eq!(
        SVCB::read_data(&[0, 1, 0, 0, 1, 0, 2, 1, 0xff]),
        Err(ProtoError::NotUtf8)
    );
    // value length past the end of the record
    assert_eq!(
        SVCB::read_data(&[0, 1, 0, 0, 3, 0, 9, 0, 53]),
        Err(ProtoError::UnexpectedEnd)
    );
    // two octets left over after the parameters
    assert_eq!(
        SVCB::read_data(&[0, 1, 0, 0, 3, 0, 2, 0, 53, 0, 4]),
        Err(ProtoError::UnexpectedEnd)
    );
}

#[test]
fn encode_rejects_values_of_the_wrong_kind_or_shape() {
    // keys that do not match their values are the caller's concern: the
    // record is written as given, keys in order
    let wrong_kind = SVCB::new(
        1,
        Name::root(),
        vec![(SvcParamKey::Alpn, SvcParamValue::Port(443))],
    );
    assert_eq!(
        wrong_kind.to_bytes(),
        Ok(vec![0, 1, 0, 0, 1, 0, 2, 1, 187])
    );
    let odd_key = SVCB::new(
        1,
        Name::root(),
        vec![(SvcParamKey::Key(5), SvcParamValue::Unknown(Unknown(vec![7])))],
    );
    assert_eq!(odd_key.to_bytes(), Ok(vec![0, 1, 0, 0, 5, 0, 1, 7]));
    let mut repeated_bad = vec![
        (SvcParamKey::Port, SvcParamValue::Port(1)),
        (SvcParamKey::Alpn, SvcParamValue::Port(2)),
    ];
    assert_eq!(
        SVCB::new(1, Name::root(), repeated_bad.clone()).to_bytes(),
        Err(ProtoError::ParamsOutOfOrder)
    );
    repeated_bad.reverse();
    assert!(SVCB::new(1, Name::root(), repeated_bad).to_bytes().is_ok());
    let empty_alpn = SVCB::new(
        1,
        Name::root(),
        vec![(SvcParamKey::Alpn, SvcParamValue::Alpn(Alpn(vec![])))],
    );
    assert_eq!(empty_alpn.to_bytes(), Err(ProtoError::MalformedParam));
    let long_id = SVCB::new(
        1,
        Name::root(),
        vec![(
            SvcParamKey::Alpn,
            SvcParamValue::Alpn(Alpn(vec!["x".repeat(256)])),
        )],
    );
    assert_eq!(long_id.to_bytes(), Err(ProtoError::MalformedParam));
    let too_long = SVCB::new(
        1,
        Name::root(),
        vec![(
            SvcParamKey::Unknown(7),
            SvcParamValue::Unknown(Unknown(vec![0; 65536])),
        )],
    );
    assert_eq!(too_long.to_bytes(), Err(ProtoError::LengthOverflow));
}

#[test]
fn value_emit_writes_length_then_value() {
    let mut out = Vec::new();
    SvcParamValue::Alpn(Alpn(vec!["h2".to_string()]))
        .emit(&mut out)
        .unwrap();
    assert_eq!(out, vec![0, 3, 2, b'h', b'2']);
}

#[test]
fn ech_config_presentation_is_base64() {
    assert_eq!(EchConfigList(vec![1, 2, 3]).to_base64(), "AQID");
    assert_eq!(EchConfigList(vec![0xff]).to_base64(), "/w==");
}

#[test]
fn getters_return_the_parts() {
    let r = full_record();
    assert_eq!(r.svc_priority(), 1);
    assert_eq!(r.target_name(), &Name::from_utf8("svc.example.net.").unwrap());
    assert_eq!(r.svc_params().len(), 8);
}

#[test]
fn keys_parse_from_presentation_text() {
    assert_eq!(SvcParamKey::from_str("mandatory"), Ok(SvcParamKey::Mandatory));
    assert_eq!(SvcParamKey::from_str("alpn"), Ok(SvcParamKey::Alpn));
    assert_eq!(SvcParamKey::from_str("no-default-alpn"), Ok(SvcParamKey::NoDefaultAlpn));
    assert_eq!(SvcParamKey::from_str("port"), Ok(SvcParamKey::Port));
    assert_eq!(SvcParamKey::from_str("ipv4hint"), Ok(SvcParamKey::Ipv4Hint));
    assert_eq!(SvcParamKey::from_str("ech"), Ok(SvcParamKey::EchConfigList));
    assert_eq!(SvcParamKey::from_str("ipv6hint"), Ok(SvcParamKey::Ipv6Hint));
    assert_eq!(SvcParamKey::from_str("key65535"), Ok(SvcParamKey::Key65535));
    assert_eq!(SvcParamKey::from_str("key65333"), Ok(SvcParamKey::Key(65333)));
    assert_eq!(SvcParamKey::from_str("key+7"), Ok(SvcParamKey::Key(7)));
    assert_eq!(SvcParamKey::from_str("key65536"), Err(ProtoError::MalformedParam));
    assert_eq!(SvcParamKey::from_str("key"), Err(ProtoError::MalformedParam));
    assert_eq!(SvcParamKey::from_str("key1x"), Err(ProtoError::MalformedParam));
    assert_eq!(SvcParamKey::from_str("unknown7"), Err(ProtoError::MalformedParam));
    assert_eq!(SvcParamKey::from_str("PORT"), Err(ProtoError::MalformedParam));
}

#[test]
fn keys_present_as_text() {
    assert_eq!(SvcParamKey::Mandatory.to_text(), "mandatory");
    assert_eq!(SvcParamKey::NoDefaultAlpn.to_text(), "no-default-alpn");
    assert_eq!(SvcParamKey::EchConfigList.to_text(), "ech");
    assert_eq!(SvcParamKey::Key(65333).to_text(), "key65333");
    assert_eq!(SvcParamKey::Key65535.to_text(), "key65535");
    assert_eq!(SvcParamKey::Unknown(7).to_text(), "unknown7");
    assert_eq!(SvcParamKey::Unknown(0).to_text(), "unknown0");
    assert_eq!(
        Mandatory(vec![SvcParamKey::Key(65444), SvcParamKey::Ipv6Hint]).to_text(),
        "key65444,ipv6hint,"
    );
    for k in [SvcParamKey::Alpn, SvcParamKey::Port, SvcParamKey::Key(65280)] {
        assert_eq!(SvcParamKey::from_str(&k.to_text()), Ok(k));
    }
}

#[test]
fn values_and_records_present_as_text() {
    assert_eq!(
        SvcParamValue::Alpn(Alpn(vec!["h2".to_string(), "h3".to_string()])).to_text(),
        "h2,h3,"
    );
    assert_eq!(SvcParamValue::NoDefaultAlpn.to_text(), "");
    assert_eq!(SvcParamValue::Port(8443).to_text(), "8443");
    assert_eq!(
        SvcParamValue::Ipv4Hint(IpHint(vec![A([192, 0, 2, 1]), A([10, 0, 0, 255])])).to_text(),
        "192.0.2.1,10.0.0.255,"
    );
    assert_eq!(
        SvcParamValue::Ipv6Hint(IpHint(vec![AAAA([
            0x20, 0x01, 0x0d, 0xb8, 0, 0, 0, 0, 0, 0, 0, 0, 0, 0, 0, 1,
        ])]))
        .to_text(),
        "2001:db8:0:0:0:0:0:1,"
    );
    assert_eq!(
        SvcParamValue::EchConfigList(EchConfigList(vec![1, 2, 3])).to_text(),
        "\"AQID\""
    );
    assert_eq!(
        SvcParamValue::Unknown(Unknown(vec![b'e', b'x', 0xff])).to_text(),
        "\"ex\u{fffd}\","
    );
    let r = SVCB::new(
        1,
        Name::from_utf8("svc.example.net").unwrap(),
        vec![
            (
                SvcParamKey::Alpn,
                SvcParamValue::Alpn(Alpn(vec!["h3".to_string()])),
            ),
            (SvcParamKey::Port, SvcParamValue::Port(8002)),
        ],
    );
    assert_eq!(r.to_text(), "1 svc.example.net. alpn=h3, port=8002");
    let alias = SVCB::new(0, Name::root(), vec![]);
    assert_eq!(alias.to_text(), "0 .");
}
