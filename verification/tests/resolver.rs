use dns_server::cache::MemoryCacheBase;
use dns_server::helpers::UnixTimeProvider;
use dns_server::models::record::RawRecord;
use dns_server::models::{
    new_packet_buffer, DnsPacket, DnsPacketBase, DnsPacketBuilder, MessageType, OpCode, QueryClass,
    QueryType, Question, ResultCode,
};
use dns_server::server::{
    datagram_of, default_response_request_builder_from, failure_response, lookup_local,
    upstream_datagram, Resolver, Step,
};

#[derive(Clone)]
struct Noon;

impl UnixTimeProvider for Noon {
    fn unix_time_as_secs(&self) -> u64 {
        43_200
    }
}

fn resolver() -> Resolver<Noon> {
    Resolver::new(MemoryCacheBase::with_clock(Noon))
}

fn question(name: &str) -> Question {
    Question { q_name: name.to_string(), q_type: QueryType::A, q_class: QueryClass::IN }
}

fn query(id: u16, name: &str) -> DnsPacket {
    DnsPacketBuilder::default().id(id).recursion_desired(true).with_question(question(name)).build()
}

fn lines(text: &str) -> Vec<String> {
    text.lines().map(|l| l.to_string()).collect()
}

fn upstream_reply(id: u16, name: &str, code: ResultCode, records: &[(u32, [u8; 4])]) -> Vec<u8> {
    let answers = records
        .iter()
        .map(|(ttl, ip)| RawRecord {
            name: name.to_string(),
            query_type: QueryType::A,
            query_class: QueryClass::IN,
            ttl: *ttl,
            rdata_length: 4,
            rdata: ip.to_vec(),
        })
        .collect();
    let reply = DnsPacketBuilder::default()
        .id(id)
        .message_type(MessageType::Response)
        .recursion_desired(true)
        .recursion_available(true)
        .result_code(code)
        .with_question(question(name))
        .with_base(DnsPacketBase { answers, authorities: vec![], additional: vec![] })
        .build();
    datagram_of(&reply).unwrap()
}

fn reply(step: Step) -> DnsPacket {
    match step {
        Step::Reply(packet) => packet,
        Step::ReadZone => panic!("the zone file is asked for"),
        Step::AskUpstream(_) => panic!("the upstream resolver is asked"),
    }
}

#[test]
fn response_skeleton_mirrors_the_request() {
    let request = query(0x4242, "example.com");
    let p = default_response_request_builder_from(&request).build();
    assert_eq!(p.id(), 0x4242);
    assert!(p.recursion_desired());
    assert!(!p.meta.header.recursion_available);
    assert_eq!(p.meta.header.message_type, MessageType::Response);
    assert_eq!(p.meta.header.opcode, OpCode::Query);
    assert_eq!(p.result_code(), ResultCode::NoError);
    assert!(p.questions().is_empty());
    let failure = failure_response(&request, ResultCode::ServerFailure);
    assert_eq!(failure.id(), 0x4242);
    assert_eq!(failure.result_code(), ResultCode::ServerFailure);
}

#[test]
fn zone_hit() {
    let mut resolver = resolver();
    let request = query(0x1234, "example.com");
    assert!(matches!(resolver.lookup(&request, 100), Step::ReadZone));
    let zone = lines("# the zone\n\nother.org IN A 9.9.9.9\nexample.com IN A 1.2.3.4\n");
    let response = reply(resolver.zone_read(&request, Some(&zone), 100));
    assert_eq!(response.id(), 0x1234);
    assert_eq!(response.meta.header.message_type, MessageType::Response);
    assert!(response.recursion_desired());
    assert!(!response.meta.header.recursion_available);
    assert_eq!(response.result_code(), ResultCode::NoError);
    assert_eq!(response.meta.header.question_entities_count(), 1);
    assert_eq!(response.questions().len(), 1);
    assert_eq!(response.questions()[0].name(), "example.com");
    assert_eq!(response.questions()[0].q_type, QueryType::A);
    assert_eq!(response.questions()[0].q_class, QueryClass::IN);
    assert_eq!(response.meta.header.answer_entities_count(), 1);
    let answer = &response.base().answers[0];
    assert_eq!(answer.name, "example.com");
    assert_eq!(answer.query_class, QueryClass::IN);
    assert_eq!(answer.query_type, QueryType::A);
    assert_eq!(answer.ttl, 300);
    assert_eq!(answer.rdata, vec![1, 2, 3, 4]);

    // The answer is kept without expiration: the next query is served from the cache.
    let second = reply(resolver.lookup(&query(0x9999, "example.com"), u64::MAX));
    assert_eq!(second.id(), 0x9999);
    assert_eq!(second.questions()[0].name(), "example.com");
    assert_eq!(second.base().answers[0].rdata, vec![1, 2, 3, 4]);
}

#[test]
fn zone_gives_one_answer_for_every_line_of_the_name() {
    let request = query(1, "two.example");
    let zone = lines("two.example IN A 1.1.1.1\nx.example IN A 5.5.5.5\nTWO.example IN A 2.2.2.2");
    let response = lookup_local(&request, &zone).unwrap().unwrap();
    assert_eq!(response.meta.header.answer_entities_count(), 2);
    assert_eq!(response.base().answers[0].rdata, vec![1, 1, 1, 1]);
    assert_eq!(response.base().answers[1].rdata, vec![2, 2, 2, 2]);
    assert!(lookup_local(&query(1, "none.example"), &zone).unwrap().is_none());
}

#[test]
fn broken_zone_file_gives_server_failure() {
    let mut resolver = resolver();
    let request = query(5, "example.com");
    let zone = lines("example.com IN A 1.2.3.4\nbroken line\n");
    let response = reply(resolver.zone_read(&request, Some(&zone), 0));
    assert_eq!(response.id(), 5);
    assert_eq!(response.result_code(), ResultCode::ServerFailure);
    assert!(response.base().answers.is_empty());
    // Nothing was kept.
    assert!(matches!(resolver.lookup(&request, 0), Step::ReadZone));
    let unread = reply(resolver.zone_read(&request, None, 0));
    assert_eq!(unread.result_code(), ResultCode::ServerFailure);
}

#[test]
fn zone_miss_then_upstream_no_error_is_cached() {
    let mut resolver = resolver();
    let request = query(0x0102, "elsewhere.org");
    assert!(matches!(resolver.lookup(&request, 1000), Step::ReadZone));
    let zone = lines("example.com IN A 1.2.3.4");
    let sent = match resolver.zone_read(&request, Some(&zone), 1000) {
        Step::AskUpstream(datagram) => datagram,
        _ => panic!("the upstream resolver is not asked"),
    };
    assert_eq!(sent.len(), 512);
    let asked = DnsPacket::from_bytes(&sent).unwrap();
    assert_eq!(asked.id(), 0x0102);
    assert!(asked.recursion_desired());
    assert_eq!(asked.meta.header.message_type, MessageType::Query);
    assert_eq!(asked.questions().len(), 1);
    assert_eq!(asked.questions()[0].name(), "elsewhere.org");

    let answer = upstream_reply(0x0102, "elsewhere.org", ResultCode::NoError, &[(60, [8, 8, 4, 4])]);
    let response = resolver.upstream_answered(&request, Some(&answer), 1000);
    assert_eq!(response.id(), 0x0102);
    assert!(response.meta.header.recursion_available);
    assert_eq!(response.base().answers[0].ttl, 60);
    assert_eq!(response.base().answers[0].rdata, vec![8, 8, 4, 4]);

    // Within 60 seconds the cache answers.
    let cached = reply(resolver.lookup(&query(7, "elsewhere.org"), 1059));
    assert_eq!(cached.id(), 7);
    assert!(!cached.meta.header.recursion_available);
    assert_eq!(cached.base().answers[0].rdata, vec![8, 8, 4, 4]);
    // After that it does not.
    assert!(matches!(resolver.lookup(&query(8, "elsewhere.org"), 1060), Step::ReadZone));
}

#[test]
fn upstream_reply_is_kept_for_its_least_ttl() {
    let mut resolver = resolver();
    let request = query(1, "multi.org");
    let answer = upstream_reply(1, "multi.org", ResultCode::NoError, &[(90, [1, 1, 1, 1]), (30, [2, 2, 2, 2])]);
    resolver.upstream_answered(&request, Some(&answer), 0);
    assert!(matches!(resolver.lookup(&request, 29), Step::Reply(_)));
    assert!(matches!(resolver.lookup(&request, 30), Step::ReadZone));
}

#[test]
fn upstream_reply_without_records_is_kept_for_no_time() {
    let mut resolver = resolver();
    let request = query(1, "empty.org");
    let answer = upstream_reply(1, "empty.org", ResultCode::NoError, &[]);
    let response = resolver.upstream_answered(&request, Some(&answer), 10);
    assert_eq!(response.result_code(), ResultCode::NoError);
    assert!(matches!(resolver.lookup(&request, 10), Step::ReadZone));
}

#[test]
fn upstream_name_error_is_passed_on_and_not_cached() {
    let mut resolver = resolver();
    let request = query(0x0A0B, "nowhere.org");
    let answer = upstream_reply(0x0A0B, "nowhere.org", ResultCode::NameError, &[(60, [1, 2, 3, 4])]);
    let response = resolver.upstream_answered(&request, Some(&answer), 500);
    assert_eq!(response.result_code().code(), 3);
    assert_eq!(response.id(), 0x0A0B);
    // The second query goes the whole way again.
    assert!(matches!(resolver.lookup(&request, 500), Step::ReadZone));
    assert!(matches!(resolver.zone_read(&request, Some(&vec![]), 500), Step::AskUpstream(_)));
}

#[test]
fn failed_upstream_exchange_gives_server_failure() {
    let mut resolver = resolver();
    let request = query(3, "elsewhere.org");
    let none = resolver.upstream_answered(&request, None, 0);
    assert_eq!(none.result_code(), ResultCode::ServerFailure);
    assert_eq!(none.id(), 3);
    let garbage = resolver.upstream_answered(&request, Some(&[1, 2, 3]), 0);
    assert_eq!(garbage.result_code(), ResultCode::ServerFailure);
    let bad_rcode = resolver.upstream_answered(&request, Some(&[0, 3, 0x80, 0x0F, 0, 0, 0, 0, 0, 0, 0, 0]), 0);
    assert_eq!(bad_rcode.result_code(), ResultCode::ServerFailure);
    assert!(matches!(resolver.lookup(&request, 0), Step::ReadZone));
}

#[test]
fn request_without_question_gets_format_error() {
    let mut resolver = resolver();
    let request = DnsPacket::from_bytes(&[0xCA, 0xFE, 0x01, 0x00, 0, 0, 0, 0, 0, 0, 0, 0]).unwrap();
    let response = reply(resolver.lookup(&request, 0));
    assert_eq!(response.result_code().code(), 1);
    assert_eq!(response.id(), 0xCAFE);
    assert_eq!(response.meta.header.message_type, MessageType::Response);
    assert!(response.recursion_desired());
    let sent = datagram_of(&response).unwrap();
    assert_eq!(&sent[..12], &[0xCA, 0xFE, 0x81, 0x01, 0, 0, 0, 0, 0, 0, 0, 0]);
    assert!(sent[12..].iter().all(|b| *b == 0));
}

#[test]
fn query_that_does_not_fit_a_datagram_gives_server_failure() {
    let mut resolver = resolver();
    let name = vec!["a".repeat(63); 9].join(".");
    let request = query(2, &name);
    assert!(upstream_datagram(2, &request.questions()[0]).is_err());
    let response = reply(resolver.zone_read(&request, Some(&vec![]), 0));
    assert_eq!(response.result_code(), ResultCode::ServerFailure);
}

#[test]
fn upstream_datagram_holds_the_query() {
    let datagram = upstream_datagram(0x0506, &question("ab.c")).unwrap();
    let mut expected = new_packet_buffer();
    let head = [5, 6, 1, 0, 0, 1, 0, 0, 0, 0, 0, 0, 2, b'a', b'b', 1, b'c', 0, 0, 1, 0, 1];
    expected[..head.len()].copy_from_slice(&head);
    assert_eq!(datagram, expected);
}

#[test]
fn resolver_reads_the_clock_of_its_cache() {
    assert_eq!(resolver().now(), 43_200);
}
