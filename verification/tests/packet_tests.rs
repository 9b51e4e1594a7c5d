use dns_codec::buffer::DnsBuffer;
use dns_codec::header::DnsHeader;
use dns_codec::packet::DnsPacket;
use dns_codec::record::Domain;
use dns_codec::record::DnsRecord;
use dns_codec::record::RClass;
use dns_codec::record::RDataType;

#[test]
fn whole_message_round_trips() {
    let mut header = DnsHeader::new();
    header.id = 0x1234;
    header.recursion_desired = true;
    header.response = true;
    header.questions = 1;
    header.answers = 1;
    let packet = DnsPacket {
        header,
        questions: vec![DnsRecord {
            domain: Domain::Domain(b"a.example.com".to_vec()),
            rtype: RDataType::A(None),
            rclass: RClass::IN,
            ttl: None,
            data_len: None,
        }],
        answers: vec![DnsRecord {
            domain: Domain::Domain(b"a.example.com".to_vec()),
            rtype: RDataType::A(Some(7)),
            rclass: RClass::IN,
            ttl: Some(3600),
            data_len: Some(4),
        }],
        authorities: Vec::new(),
        resources: Vec::new(),
    };

    let mut buf = DnsBuffer::new();
    packet.write(&mut buf).unwrap();

    // The question's name starts at offset 12; the answer reuses it as a
    // bare backreference.
    assert_eq!(&buf.buf[31..33], &[0xC0, 0x0C]);

    buf.seek(0).unwrap();
    let back = DnsPacket::from_buf(&mut buf).unwrap();
    assert_eq!(back.header, packet.header);
    assert_eq!(back.questions.len(), 1);
    assert_eq!(back.answers.len(), 1);
    assert_eq!(back.questions[0].domain.get_string(), "a.example.com");
    assert_eq!(back.answers[0].domain.get_string(), "a.example.com");
    assert!(matches!(back.answers[0].rtype, RDataType::A(Some(7))));
    assert_eq!(back.answers[0].ttl, Some(3600));
}

#[test]
fn decode_reads_exactly_the_announced_counts() {
    let mut header = DnsHeader::new();
    header.questions = 2;
    let packet = DnsPacket {
        header,
        questions: vec![
            DnsRecord {
                domain: Domain::Domain(b"one.test".to_vec()),
                rtype: RDataType::A(None),
                rclass: RClass::IN,
                ttl: None,
                data_len: None,
            },
            DnsRecord {
                domain: Domain::Domain(b"two.test".to_vec()),
                rtype: RDataType::AAAA(None),
                rclass: RClass::IN,
                ttl: None,
                data_len: None,
            },
        ],
        answers: Vec::new(),
        authorities: Vec::new(),
        resources: Vec::new(),
    };
    let mut buf = DnsBuffer::new();
    packet.write(&mut buf).unwrap();
    buf.seek(0).unwrap();
    let back = DnsPacket::from_buf(&mut buf).unwrap();
    assert_eq!(back.questions.len(), 2);
    assert_eq!(back.answers.len(), 0);
    assert_eq!(back.questions[1].domain.get_string(), "two.test");
    assert!(matches!(back.questions[1].rtype, RDataType::AAAA(None)));
}

#[test]
fn an_empty_message_is_just_its_header() {
    let packet = DnsPacket::new();
    let mut buf = DnsBuffer::new();
    packet.write(&mut buf).unwrap();
    assert_eq!(buf.pos, 12);
    buf.seek(0).unwrap();
    let back = DnsPacket::from_buf(&mut buf).unwrap();
    assert_eq!(back.header, packet.header);
    assert!(back.questions.is_empty());
    assert!(back.answers.is_empty());
    assert!(back.authorities.is_empty());
    assert!(back.resources.is_empty());
}

#[test]
fn truncated_header_fails_to_decode() {
    let mut buf = DnsBuffer::new();
    buf.seek(505).unwrap();
    assert!(DnsPacket::from_buf(&mut buf).is_err());
}
