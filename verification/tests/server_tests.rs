use dns_codec::buffer::DnsBuffer;
use dns_codec::header::DnsHeader;
use dns_codec::header::ResultCode;
use dns_codec::packet::DnsPacket;
use dns_codec::record::Domain;
use dns_codec::record::DnsRecord;
use dns_codec::record::RClass;
use dns_codec::record::RDataType;
use dns_codec::server::Cache;
use dns_codec::server::ServerAction;
use dns_codec::server::handle_query;
use dns_codec::server::handle_reply;

fn question(name: &[u8]) -> DnsRecord {
    DnsRecord {
        domain: Domain::Domain(name.to_vec()),
        rtype: RDataType::A(None),
        rclass: RClass::IN,
        ttl: None,
        data_len: None,
    }
}

fn answer(name: &[u8], addr: u32) -> DnsRecord {
    DnsRecord {
        domain: Domain::Domain(name.to_vec()),
        rtype: RDataType::A(Some(addr)),
        rclass: RClass::IN,
        ttl: Some(300),
        data_len: Some(4),
    }
}

fn query_packet(id: u16, name: &[u8]) -> DnsPacket {
    let mut header = DnsHeader::new();
    header.id = id;
    header.recursion_desired = true;
    header.questions = 1;
    DnsPacket {
        header,
        questions: vec![question(name)],
        answers: Vec::new(),
        authorities: Vec::new(),
        resources: Vec::new(),
    }
}

fn decode(mut buf: DnsBuffer) -> DnsPacket {
    buf.seek(0).unwrap();
    DnsPacket::from_buf(&mut buf).unwrap()
}

#[test]
fn cache_lookup_finds_what_insert_stored() {
    let mut cache = Cache::new();
    assert!(cache.lookup(&b"a.com".to_vec()).is_none());
    cache.insert(b"a.com".to_vec(), RDataType::A(Some(7)));
    assert!(matches!(
        cache.lookup(&b"a.com".to_vec()),
        Some(RDataType::A(Some(7)))
    ));
    assert!(cache.lookup(&b"b.com".to_vec()).is_none());
}

#[test]
fn cache_insert_overwrites_in_place() {
    let mut cache = Cache::new();
    cache.insert(b"a.com".to_vec(), RDataType::A(Some(1)));
    cache.insert(b"a.com".to_vec(), RDataType::A(Some(2)));
    assert_eq!(cache.entries.len(), 1);
    assert!(matches!(
        cache.lookup(&b"a.com".to_vec()),
        Some(RDataType::A(Some(2)))
    ));
}

/// Encodes a packet so tests can hand `handle_query` the wire bytes too.
fn wire_of(packet: &DnsPacket) -> DnsBuffer {
    let mut buf = DnsBuffer::new();
    packet.write(&mut buf).unwrap();
    buf
}

#[test]
fn seeded_domain_is_answered_from_the_cache() {
    // With youtube.com pre-seeded as A(0.0.0.2), the query is answered
    // directly: the action is a response, not an upstream forward.
    let mut cache = Cache::new();
    cache.insert(b"youtube.com".to_vec(), RDataType::A(Some(2)));
    let query = query_packet(77, b"youtube.com");
    let raw = wire_of(&query);
    match handle_query(&cache, &query, &raw) {
        ServerAction::Respond(buf) => {
            let response = decode(buf);
            assert_eq!(response.header.id, 77);
            assert!(response.header.response);
            assert!(response.header.recursion_available);
            assert_eq!(response.header.rescode, ResultCode::NOERROR);
            assert_eq!(response.header.answers, 1);
            assert_eq!(response.answers.len(), 1);
            assert_eq!(response.answers[0].domain.get_string(), "youtube.com");
            assert!(matches!(response.answers[0].rtype, RDataType::A(Some(2))));
            assert_eq!(response.answers[0].ttl, Some(1000));
            assert_eq!(response.questions.len(), 1);
            assert_eq!(response.questions[0].domain.get_string(), "youtube.com");
        },
        other => panic!("expected a direct response, got {:?}", kind_of(&other)),
    }
}

#[test]
fn unseeded_domain_forwards_then_caches() {
    let mut cache = Cache::new();
    let query = query_packet(5, b"unknown.example");
    let raw = wire_of(&query);

    // First query: a miss, so the original bytes go upstream unmodified.
    let forwarded = match handle_query(&cache, &query, &raw) {
        ServerAction::Forward(buf) => {
            assert_eq!(buf.buf, raw.buf);
            assert_eq!(buf.pos, raw.pos);
            decode(buf)
        },
        other => panic!("expected an upstream forward, got {:?}", kind_of(&other)),
    };
    assert_eq!(forwarded.header.id, 5);
    assert_eq!(forwarded.questions.len(), 1);
    assert_eq!(forwarded.questions[0].domain.get_string(), "unknown.example");

    // The upstream reply is relayed and its answer learned.
    let mut reply = query_packet(5, b"unknown.example");
    reply.header.response = true;
    reply.header.answers = 1;
    reply.answers.push(answer(b"unknown.example", 9));
    match handle_reply(&mut cache, &query, &reply) {
        ServerAction::Respond(buf) => {
            let relayed = decode(buf);
            assert_eq!(relayed.answers.len(), 1);
            assert!(matches!(relayed.answers[0].rtype, RDataType::A(Some(9))));
        },
        other => panic!("expected a relayed response, got {:?}", kind_of(&other)),
    }

    // A second identical query is now served from the cache: no forward.
    match handle_query(&cache, &query, &raw) {
        ServerAction::Respond(buf) => {
            let response = decode(buf);
            assert_eq!(response.answers.len(), 1);
            assert!(matches!(response.answers[0].rtype, RDataType::A(Some(9))));
        },
        other => panic!("expected a cached response, got {:?}", kind_of(&other)),
    }
}

#[test]
fn servfail_echoes_the_query_without_answers() {
    let query = query_packet(42, b"slow.example");
    let mut buf = dns_codec::server::build_servfail(&query).unwrap();
    buf.seek(0).unwrap();
    let response = DnsPacket::from_buf(&mut buf).unwrap();
    assert_eq!(response.header.id, 42);
    assert!(response.header.response);
    assert_eq!(response.header.rescode, ResultCode::SERVFAIL);
    assert_eq!(response.header.answers, 0);
    assert!(response.answers.is_empty());
    assert_eq!(response.questions.len(), 1);
    assert_eq!(response.questions[0].domain.get_string(), "slow.example");
}

#[test]
fn a_query_without_questions_is_dropped() {
    let cache = Cache::new();
    let mut query = query_packet(1, b"any.example");
    query.questions.clear();
    query.header.questions = 0;
    let raw = wire_of(&query);
    assert!(matches!(
        handle_query(&cache, &query, &raw),
        ServerAction::Drop
    ));
}

fn kind_of(a: &ServerAction) -> &'static str {
    match a {
        ServerAction::Respond(_) => "Respond",
        ServerAction::Forward(_) => "Forward",
        ServerAction::Drop => "Drop",
    }
}
