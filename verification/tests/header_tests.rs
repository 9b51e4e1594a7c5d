use dns_codec::buffer::DnsBuffer;
use dns_codec::header::DnsHeader;
use dns_codec::header::ResultCode;

#[test]
fn query_header_encodes_to_known_bytes() {
    // id 6969, recursion desired, a query with one question.
    let mut h = DnsHeader::new();
    h.id = 6969;
    h.recursion_desired = true;
    h.questions = 1;
    let mut b = DnsBuffer::new();
    h.write(&mut b).unwrap();
    assert_eq!(
        &b.buf[0..12],
        &[0x1B, 0x39, 0x01, 0x00, 0x00, 0x01, 0x00, 0x00, 0x00, 0x00, 0x00, 0x00]
    );
    assert_eq!(b.pos, 12);
}

#[test]
fn header_round_trips_through_the_wire() {
    let mut h = DnsHeader::new();
    h.id = 0xBEEF;
    h.recursion_desired = true;
    h.truncated_message = true;
    h.authoritative_answer = true;
    h.opcode = 0x0A;
    h.response = true;
    h.rescode = ResultCode::NXDOMAIN;
    h.checking_disabled = true;
    h.authed_data = true;
    h.z = true;
    h.recursion_available = true;
    h.questions = 3;
    h.answers = 7;
    h.authoritative_entries = 11;
    h.resource_entries = 13;
    let mut b = DnsBuffer::new();
    h.write(&mut b).unwrap();
    b.seek(0).unwrap();
    let mut back = DnsHeader::new();
    back.read(&mut b).unwrap();
    assert_eq!(back, h);
    assert_eq!(b.pos, 12);
}

#[test]
fn header_write_fails_when_it_cannot_fit() {
    let h = DnsHeader::new();
    let mut b = DnsBuffer::new();
    b.seek(501).unwrap();
    assert!(h.write(&mut b).is_err());
    b.seek(500).unwrap();
    assert!(h.write(&mut b).is_ok());
}

#[test]
fn rescode_known_values_round_trip() {
    let codes = [
        ResultCode::NOERROR,
        ResultCode::FORMERR,
        ResultCode::SERVFAIL,
        ResultCode::NXDOMAIN,
        ResultCode::NOTIMP,
        ResultCode::REFUSED,
    ];
    for (i, c) in codes.iter().enumerate() {
        assert_eq!(ResultCode::from_num(i as u8), *c);
        assert_eq!(c.to_num(), i as u8);
    }
}

#[test]
fn rescode_unknown_values_decode_to_noerror() {
    assert_eq!(ResultCode::from_num(6), ResultCode::NOERROR);
    assert_eq!(ResultCode::from_num(15), ResultCode::NOERROR);
}
