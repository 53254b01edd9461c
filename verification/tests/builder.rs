use dns_server::error::DnsError;
use dns_server::models::packet_builder::QuestionBuilder;
use dns_server::models::record::RawRecord;
use dns_server::models::{
    DnsPacketBase, DnsPacketBuilder, MessageType, OpCode, QueryClass, QueryType, Question,
    RawRecordType, ResultCode,
};

#[test]
fn build_defaults() {
    let p = DnsPacketBuilder::default().id(77).build();
    assert_eq!(p.id(), 77);
    assert_eq!(p.meta.header.message_type, MessageType::Query);
    assert_eq!(p.meta.header.opcode, OpCode::Query);
    assert!(!p.meta.header.authoritative_answer);
    assert!(!p.meta.header.truncation);
    assert!(!p.recursion_desired());
    assert!(!p.meta.header.recursion_available);
    assert_eq!(p.result_code(), ResultCode::NoError);
    assert_eq!(p.meta.header.question_entities_count(), 0);
    assert_eq!(p.meta.header.answer_entities_count(), 0);
    assert_eq!(p.meta.header.authority_entities_count(), 0);
    assert_eq!(p.meta.header.additional_entities_count(), 0);
    assert!(p.questions().is_empty());
}

#[test]
fn build_takes_the_fresh_id_only_where_none_was_set() {
    assert_eq!(DnsPacketBuilder::default().build_with_id(5).id(), 5);
    assert_eq!(DnsPacketBuilder::default().id(9).build_with_id(5).id(), 9);
}

#[test]
fn build_without_id_gives_some_id() {
    // Any id may come out; the rest of the message does not depend on it.
    let p = DnsPacketBuilder::default().recursion_desired(true).build();
    assert!(p.recursion_desired());
    assert_eq!(p.result_code(), ResultCode::NoError);
    let ids: Vec<u16> = (0..64).map(|_| DnsPacketBuilder::default().build().id()).collect();
    assert!(ids.iter().any(|id| *id != ids[0]));
}

#[test]
fn build_sets_the_options() {
    let p = DnsPacketBuilder::default()
        .id(1)
        .message_type(MessageType::Response)
        .recursion_desired(true)
        .recursion_available(true)
        .result_code(ResultCode::ServerFailure)
        .build();
    assert_eq!(p.meta.header.message_type, MessageType::Response);
    assert!(p.recursion_desired());
    assert!(p.meta.header.recursion_available);
    assert_eq!(p.result_code(), ResultCode::ServerFailure);
}

#[test]
fn counts_follow_the_lists() {
    let p = DnsPacketBuilder::default()
        .id(1)
        .with_question(Question {
            q_name: "q.example".to_string(),
            q_type: QueryType::A,
            q_class: QueryClass::IN,
        })
        .new_raw_record()
        .name("a.example".to_string())
        .rdata(vec![1, 2, 3, 4])
        .add_raw_record(RawRecordType::Answer)
        .unwrap()
        .new_raw_record()
        .name("b.example".to_string())
        .add_raw_record(RawRecordType::Answer)
        .unwrap()
        .new_raw_record()
        .name("ns.example".to_string())
        .query_type(QueryType::Unknown(2))
        .query_class(QueryClass::Unknown(3))
        .ttl(99)
        .add_raw_record(RawRecordType::_Authority)
        .unwrap()
        .new_raw_record()
        .name("x.example".to_string())
        .add_raw_record(RawRecordType::_Additional)
        .unwrap()
        .build();
    assert_eq!(p.meta.header.question_entities_count(), 1);
    assert_eq!(p.meta.header.answer_entities_count(), 2);
    assert_eq!(p.meta.header.authority_entities_count(), 1);
    assert_eq!(p.meta.header.additional_entities_count(), 1);
    assert_eq!(p.base().answers[0].name, "a.example");
    assert_eq!(p.base().answers[0].rdata_length, 4);
    assert_eq!(p.base().answers[0].rdata, vec![1, 2, 3, 4]);
    // Defaults of a record: type A, class IN, TTL 15, no data.
    assert_eq!(p.base().answers[1].query_type, QueryType::A);
    assert_eq!(p.base().answers[1].query_class, QueryClass::IN);
    assert_eq!(p.base().answers[1].ttl, 15);
    assert_eq!(p.base().answers[1].rdata_length, 0);
    assert!(p.base().answers[1].rdata.is_empty());
    assert_eq!(p.base().authorities[0].query_type, QueryType::Unknown(2));
    assert_eq!(p.base().authorities[0].query_class, QueryClass::Unknown(3));
    assert_eq!(p.base().authorities[0].ttl, 99);
    assert_eq!(p.base().additional[0].name, "x.example");
}

#[test]
fn record_without_name_is_refused() {
    let r = DnsPacketBuilder::default().new_raw_record().ttl(1).add_raw_record(RawRecordType::Answer);
    assert!(matches!(r, Err(DnsError::MissingName)));
}

#[test]
fn question_builder_adds_a_question() {
    let p = DnsPacketBuilder::default()
        .id(3)
        ._new_question()
        .q_name("one.example".to_string())
        .add_question()
        .unwrap()
        ._new_question()
        .q_name("two.example".to_string())
        .q_type(QueryType::Unknown(16))
        .q_class(QueryClass::Unknown(2))
        .add_question()
        .unwrap()
        .build();
    assert_eq!(p.meta.header.question_entities_count(), 2);
    assert_eq!(p.questions()[0].name(), "one.example");
    assert_eq!(p.questions()[0].q_type, QueryType::A);
    assert_eq!(p.questions()[0].q_class, QueryClass::IN);
    assert_eq!(p.questions()[1].q_type, QueryType::Unknown(16));
    assert_eq!(p.questions()[1].q_class, QueryClass::Unknown(2));
    let missing = DnsPacketBuilder::default()._new_question().q_type(QueryType::A).add_question();
    assert!(matches!(missing, Err(DnsError::MissingName)));
}

#[test]
fn a_bundle_replaces_the_records_added_one_by_one() {
    let bundle = DnsPacketBase {
        answers: vec![],
        authorities: vec![RawRecord {
            name: "only".to_string(),
            query_type: QueryType::A,
            query_class: QueryClass::IN,
            ttl: 1,
            rdata_length: 0,
            rdata: vec![],
        }],
        additional: vec![],
    };
    let p = DnsPacketBuilder::default()
        .id(1)
        .new_raw_record()
        .name("dropped".to_string())
        .add_raw_record(RawRecordType::Answer)
        .unwrap()
        .with_base(bundle)
        .build();
    assert_eq!(p.meta.header.answer_entities_count(), 0);
    assert_eq!(p.meta.header.authority_entities_count(), 1);
    assert!(p.base().answers.is_empty());
    assert_eq!(p.base().authorities[0].name, "only");
}

#[test]
fn question_builder_starts_from_an_empty_message() {
    let p = QuestionBuilder::default()
        .q_name("lone.example".to_string())
        .add_question()
        .unwrap()
        .id(2)
        .build();
    assert_eq!(p.meta.header.question_entities_count(), 1);
    assert_eq!(p.questions()[0].name(), "lone.example");
    assert_eq!(p.meta.header.answer_entities_count(), 0);
}
