use dns_codec::buffer::DnsBuffer;
use dns_codec::name::NameTable;
use dns_codec::record::Domain;
use dns_codec::record::DnsRecord;
use dns_codec::record::RClass;
use dns_codec::record::RDataType;
use dns_codec::record::RecordType;

fn question(name: &[u8], rtype: RDataType) -> DnsRecord {
    DnsRecord {
        domain: Domain::Domain(name.to_vec()),
        rtype,
        rclass: RClass::IN,
        ttl: None,
        data_len: None,
    }
}

#[test]
fn rdata_type_codes_round_trip() {
    assert_eq!(RDataType::from_num(1).to_num(), 1);
    assert_eq!(RDataType::from_num(2).to_num(), 2);
    assert_eq!(RDataType::from_num(16).to_num(), 16);
    assert_eq!(RDataType::from_num(28).to_num(), 28);
    assert_eq!(RDataType::from_num(99).to_num(), 99);
    assert!(matches!(RDataType::from_num(1), RDataType::A(None)));
    assert!(matches!(RDataType::from_num(2), RDataType::NS(None)));
    assert!(matches!(RDataType::from_num(16), RDataType::TXT(None)));
    assert!(matches!(RDataType::from_num(28), RDataType::AAAA(None)));
    assert!(matches!(RDataType::from_num(99), RDataType::UNKNOWN(99, None)));
}

#[test]
fn has_data_distinguishes_placeholders() {
    assert!(!RDataType::A(None).has_data());
    assert!(RDataType::A(Some(1)).has_data());
    assert!(!RDataType::UNKNOWN(99, None).has_data());
    assert!(RDataType::UNKNOWN(99, Some(vec![1])).has_data());
}

#[test]
fn rclass_codes_round_trip() {
    assert_eq!(RClass::from_num(1), RClass::IN);
    assert_eq!(RClass::from_num(254), RClass::SOMETHING(254));
    assert_eq!(RClass::IN.to_num(), 1);
    assert_eq!(RClass::SOMETHING(254).to_num(), 254);
}

#[test]
fn domain_get_string_renders_the_bytes() {
    let d = Domain::Domain(b"mail.example.org".to_vec());
    assert_eq!(d.get_string(), "mail.example.org".to_string());
}

#[test]
fn question_record_round_trips() {
    let rec = question(b"abc.com", RDataType::A(None));
    let mut b = DnsBuffer::new();
    let mut t = NameTable::new();
    rec.write(&mut b, &mut t).unwrap();
    // Name (9 bytes), type (2), class (2): no ttl, length or rdata.
    assert_eq!(b.pos, 13);
    b.seek(0).unwrap();
    let back = DnsRecord::from_buf(&mut b, RecordType::QUESTION).unwrap();
    assert_eq!(back.domain.get_string(), "abc.com");
    assert!(matches!(back.rtype, RDataType::A(None)));
    assert_eq!(back.rclass, RClass::IN);
    assert_eq!(back.ttl, None);
    assert_eq!(back.data_len, None);
    assert_eq!(b.pos, 13);
}

#[test]
fn a_record_round_trips() {
    let rec = DnsRecord {
        domain: Domain::Domain(b"abc.com".to_vec()),
        rtype: RDataType::A(Some(0x01020304)),
        rclass: RClass::IN,
        ttl: Some(300),
        data_len: Some(4),
    };
    let mut b = DnsBuffer::new();
    let mut t = NameTable::new();
    rec.write(&mut b, &mut t).unwrap();
    b.seek(0).unwrap();
    let back = DnsRecord::from_buf(&mut b, RecordType::OTHER).unwrap();
    assert_eq!(back.domain.get_string(), "abc.com");
    assert!(matches!(back.rtype, RDataType::A(Some(0x01020304))));
    assert_eq!(back.ttl, Some(300));
    assert_eq!(back.data_len, Some(4));
}

#[test]
fn aaaa_record_round_trips() {
    let groups = (0x20010DB8, 0x00000000, 0x12345678, 0x9ABCDEF0);
    let rec = DnsRecord {
        domain: Domain::Domain(b"six.example".to_vec()),
        rtype: RDataType::AAAA(Some(groups)),
        rclass: RClass::IN,
        ttl: Some(60),
        data_len: Some(16),
    };
    let mut b = DnsBuffer::new();
    let mut t = NameTable::new();
    rec.write(&mut b, &mut t).unwrap();
    b.seek(0).unwrap();
    let back = DnsRecord::from_buf(&mut b, RecordType::OTHER).unwrap();
    match back.rtype {
        RDataType::AAAA(Some(g)) => assert_eq!(g, groups),
        other => panic!("expected an AAAA payload, got {:?}", other),
    }
}

#[test]
fn unknown_rdata_bytes_are_preserved() {
    let rec = DnsRecord {
        domain: Domain::Domain(b"odd.example".to_vec()),
        rtype: RDataType::UNKNOWN(99, Some(vec![0xDE, 0xAD, 0xBE])),
        rclass: RClass::SOMETHING(3),
        ttl: Some(1),
        data_len: Some(3),
    };
    let mut b = DnsBuffer::new();
    let mut t = NameTable::new();
    rec.write(&mut b, &mut t).unwrap();
    b.seek(0).unwrap();
    let back = DnsRecord::from_buf(&mut b, RecordType::OTHER).unwrap();
    match back.rtype {
        RDataType::UNKNOWN(code, Some(raw)) => {
            assert_eq!(code, 99);
            assert_eq!(raw, vec![0xDE, 0xAD, 0xBE]);
        },
        other => panic!("expected an opaque payload, got {:?}", other),
    }
    assert_eq!(back.rclass, RClass::SOMETHING(3));
}

#[test]
fn txt_decode_takes_exactly_the_declared_length() {
    // Assemble the record by hand: name, type 16, class 1, ttl, length 3,
    // then three raw bytes.
    let mut b = DnsBuffer::new();
    let mut t = NameTable::new();
    dns_codec::name::write_name(&mut b, &b"txt.example".to_vec(), &mut t).unwrap();
    b.write_u16(16).unwrap();
    b.write_u16(1).unwrap();
    b.write_u32(120).unwrap();
    b.write_u16(3).unwrap();
    b.write(b'a').unwrap();
    b.write(b'b').unwrap();
    b.write(b'c').unwrap();
    let end = b.pos;
    b.seek(0).unwrap();
    let back = DnsRecord::from_buf(&mut b, RecordType::OTHER).unwrap();
    match back.rtype {
        RDataType::TXT(Some(raw)) => assert_eq!(raw, b"abc".to_vec()),
        other => panic!("expected a text payload, got {:?}", other),
    }
    assert_eq!(b.pos, end, "decode must consume the declared rdata length");
}

#[test]
fn ns_record_target_may_compress() {
    let rec = DnsRecord {
        domain: Domain::Domain(b"sub.example.net".to_vec()),
        rtype: RDataType::NS(Some(b"ns.example.net".to_vec())),
        rclass: RClass::IN,
        ttl: Some(600),
        data_len: Some(16),
    };
    let mut b = DnsBuffer::new();
    let mut t = NameTable::new();
    rec.write(&mut b, &mut t).unwrap();
    b.seek(0).unwrap();
    let back = DnsRecord::from_buf(&mut b, RecordType::OTHER).unwrap();
    match back.rtype {
        RDataType::NS(Some(target)) => assert_eq!(target, b"ns.example.net".to_vec()),
        other => panic!("expected a name payload, got {:?}", other),
    }
}
