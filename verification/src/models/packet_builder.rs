//! Building messages step by step.

use crate::error::DnsError;
use crate::models::enums::{MessageType, OpCode, QueryClass, QueryType, ResultCode};
use crate::models::header::Header;
use crate::models::packet::{
    questions_view, records_view, BaseView, DnsPacket, DnsPacketBase, DnsPacketMeta, PacketView,
};
use crate::models::question::{Question, QuestionView};
use crate::models::record::{RawRecord, RecordView};
use vstd::prelude::*;

verus! {

/// The TTL of a record that was given none.
pub const DEFAULT_TTL: u32 = 15;

/// Builds a message from options, questions and records.
pub struct DnsPacketBuilder {
    id: Option<u16>,
    recursion_desired: bool,
    recursion_available: bool,
    result_code: Option<ResultCode>,
    message_type: Option<MessageType>,
    questions: Vec<Question>,
    base: Option<DnsPacketBase>,
    answers: Vec<RawRecord>,
    authorities: Vec<RawRecord>,
    additional: Vec<RawRecord>,
}

/// What a builder has been told so far.
pub struct BuilderView {
    pub id: Option<u16>,
    pub recursion_desired: bool,
    pub recursion_available: bool,
    pub result_code: Option<ResultCode>,
    pub message_type: Option<MessageType>,
    pub questions: Seq<QuestionView>,
    pub base: Option<BaseView>,
    pub answers: Seq<RecordView>,
    pub authorities: Seq<RecordView>,
    pub additional: Seq<RecordView>,
}

/// Builds one record and adds it to a message that is being built.
pub struct RawRecordBuilder {
    packet_builder: DnsPacketBuilder,
    name: Option<String>,
    query_type: Option<QueryType>,
    query_class: Option<QueryClass>,
    ttl: Option<u32>,
    rdata: Option<Vec<u8>>,
}

/// What a record builder has been told so far.
pub struct RawRecordBuilderView {
    pub packet_builder: BuilderView,
    pub name: Option<Seq<char>>,
    pub query_type: Option<QueryType>,
    pub query_class: Option<QueryClass>,
    pub ttl: Option<u32>,
    pub rdata: Option<Seq<u8>>,
}

/// The section that a record goes to.
pub enum RawRecordType {
    Answer,
    _Authority,
    _Additional,
}

/// Builds one question and adds it to a message that is being built.
pub struct QuestionBuilder {
    packet_builder: DnsPacketBuilder,
    q_type: Option<QueryType>,
    q_class: Option<QueryClass>,
    q_name: Option<String>,
}

/// What a question builder has been told so far.
pub struct QuestionBuilderView {
    pub packet_builder: BuilderView,
    pub q_type: Option<QueryType>,
    pub q_class: Option<QueryClass>,
    pub q_name: Option<Seq<char>>,
}

/// A length as a header count or a length field holds it: its low 16 bits.
pub open spec fn count_of(len: nat) -> u16 {
    (len % 0x1_0000) as u16
}

fn count(len: usize) -> (n: u16)
    ensures
        n == count_of(len as nat),
{
    assert(len as u16 == len % 0x1_0000) by (bit_vector);
    #[verifier::truncate]
    (len as u16)
}

impl BuilderView {
    /// A builder that has been told nothing.
    pub open spec fn empty() -> BuilderView {
        BuilderView {
            id: None,
            recursion_desired: false,
            recursion_available: false,
            result_code: None,
            message_type: None,
            questions: Seq::empty(),
            base: None,
            answers: Seq::empty(),
            authorities: Seq::empty(),
            additional: Seq::empty(),
        }
    }

    /// The builder with one more record in the section named.
    pub open spec fn with_record(self, section: RawRecordType, record: RecordView) -> BuilderView {
        match section {
            RawRecordType::Answer => BuilderView { answers: self.answers.push(record), ..self },
            RawRecordType::_Authority => BuilderView {
                authorities: self.authorities.push(record),
                ..self
            },
            RawRecordType::_Additional => BuilderView {
                additional: self.additional.push(record),
                ..self
            },
        }
    }

    /// The record sections of the message: the bundle that was set, if one
    /// was, else the records that were added one by one.
    pub open spec fn sections(self) -> BaseView {
        match self.base {
            Some(base) => base,
            None => BaseView {
                answers: self.answers,
                authorities: self.authorities,
                additional: self.additional,
            },
        }
    }

    /// The message that is built, with `fresh_id` as its id where none was set.
    /// The opcode is `Query`, and the message is neither authoritative nor
    /// truncated. The header counts are taken from the lists.
    pub open spec fn built(self, fresh_id: u16) -> PacketView {
        let base = self.sections();
        PacketView {
            header: Header {
                id: match self.id {
                    Some(id) => id,
                    None => fresh_id,
                },
                message_type: match self.message_type {
                    Some(message_type) => message_type,
                    None => MessageType::Query,
                },
                opcode: OpCode::Query,
                authoritative_answer: false,
                truncation: false,
                recursion_desired: self.recursion_desired,
                recursion_available: self.recursion_available,
                result_code: match self.result_code {
                    Some(result_code) => result_code,
                    None => ResultCode::NoError,
                },
                question_entities_count: count_of(self.questions.len()),
                answer_entities_count: count_of(base.answers.len()),
                authority_entities_count: count_of(base.authorities.len()),
                additional_entities_count: count_of(base.additional.len()),
            },
            questions: self.questions,
            base,
        }
    }
}

/// In a message that was built from lists of fewer than 65,536 entries, the
/// header counts are the lengths of the lists.
pub proof fn lemma_built_counts(builder: BuilderView, fresh_id: u16)
    requires
        builder.questions.len() <= 0xFFFF,
        builder.sections().answers.len() <= 0xFFFF,
        builder.sections().authorities.len() <= 0xFFFF,
        builder.sections().additional.len() <= 0xFFFF,
    ensures
        ({
            let p = builder.built(fresh_id);
            &&& p.header.wf()
            &&& p.header.question_entities_count == p.questions.len()
            &&& p.header.answer_entities_count == p.base.answers.len()
            &&& p.header.authority_entities_count == p.base.authorities.len()
            &&& p.header.additional_entities_count == p.base.additional.len()
        }),
{
}

impl RawRecordBuilderView {
    /// The record that is added: type `A`, class `IN`, a TTL of 15 seconds
    /// and no data, where nothing else was said.
    pub open spec fn record(self) -> RecordView {
        let rdata = match self.rdata {
            Some(rdata) => rdata,
            None => Seq::empty(),
        };
        RecordView {
            name: self.name->0,
            query_type: match self.query_type {
                Some(query_type) => query_type,
                None => QueryType::A,
            },
            query_class: match self.query_class {
                Some(query_class) => query_class,
                None => QueryClass::IN,
            },
            ttl: match self.ttl {
                Some(ttl) => ttl,
                None => DEFAULT_TTL,
            },
            rdata_length: count_of(rdata.len()),
            rdata,
        }
    }
}

impl QuestionBuilderView {
    /// The question that is added: type `A` and class `IN` where nothing
    /// else was said.
    pub open spec fn question(self) -> QuestionView {
        QuestionView {
            name: self.q_name->0,
            q_type: match self.q_type {
                Some(q_type) => q_type,
                None => QueryType::A,
            },
            q_class: match self.q_class {
                Some(q_class) => q_class,
                None => QueryClass::IN,
            },
        }
    }
}

impl View for DnsPacketBuilder {
    type V = BuilderView;

    closed spec fn view(&self) -> BuilderView {
        BuilderView {
            id: self.id,
            recursion_desired: self.recursion_desired,
            recursion_available: self.recursion_available,
            result_code: self.result_code,
            message_type: self.message_type,
            questions: questions_view(self.questions@),
            base: match self.base {
                Some(base) => Some(base@),
                None => None,
            },
            answers: records_view(self.answers@),
            authorities: records_view(self.authorities@),
            additional: records_view(self.additional@),
        }
    }
}

impl View for RawRecordBuilder {
    type V = RawRecordBuilderView;

    closed spec fn view(&self) -> RawRecordBuilderView {
        RawRecordBuilderView {
            packet_builder: self.packet_builder@,
            name: match self.name {
                Some(name) => Some(name@),
                None => None,
            },
            query_type: self.query_type,
            query_class: self.query_class,
            ttl: self.ttl,
            rdata: match self.rdata {
                Some(rdata) => Some(rdata@),
                None => None,
            },
        }
    }
}

impl View for QuestionBuilder {
    type V = QuestionBuilderView;

    closed spec fn view(&self) -> QuestionBuilderView {
        QuestionBuilderView {
            packet_builder: self.packet_builder@,
            q_type: self.q_type,
            q_class: self.q_class,
            q_name: match self.q_name {
                Some(name) => Some(name@),
                None => None,
            },
        }
    }
}

impl Default for DnsPacketBuilder {
    fn default() -> (b: Self)
        ensures
            b@ == BuilderView::empty(),
    {
        let b = DnsPacketBuilder {
            id: None,
            recursion_desired: false,
            recursion_available: false,
            result_code: None,
            message_type: None,
            questions: Vec::new(),
            base: None,
            answers: Vec::new(),
            authorities: Vec::new(),
            additional: Vec::new(),
        };
        proof {
            assert(b@.questions =~= Seq::empty());
            assert(b@.answers =~= Seq::empty());
            assert(b@.authorities =~= Seq::empty());
            assert(b@.additional =~= Seq::empty());
        }
        b
    }
}

impl Default for QuestionBuilder {
    fn default() -> (b: Self)
        ensures
            b@ == (QuestionBuilderView {
                packet_builder: BuilderView::empty(),
                q_type: None,
                q_class: None,
                q_name: None,
            }),
    {
        DnsPacketBuilder::default()._new_question()
    }
}

impl RawRecordBuilder {
    /// Sets the name of the record.
    pub fn name(self, name: String) -> (b: Self)
        ensures
            b@ == (RawRecordBuilderView { name: Some(name@), ..self@ }),
    {
        let mut builder = self;
        builder.name = Some(name);
        builder
    }

    /// Sets the type of the record.
    pub fn query_type(self, query_type: QueryType) -> (b: Self)
        ensures
            b@ == (RawRecordBuilderView { query_type: Some(query_type), ..self@ }),
    {
        let mut builder = self;
        builder.query_type = Some(query_type);
        builder
    }

    /// Sets the class of the record.
    pub fn query_class(self, query_class: QueryClass) -> (b: Self)
        ensures
            b@ == (RawRecordBuilderView { query_class: Some(query_class), ..self@ }),
    {
        let mut builder = self;
        builder.query_class = Some(query_class);
        builder
    }

    /// Sets the TTL of the record.
    pub fn ttl(self, ttl: u32) -> (b: Self)
        ensures
            b@ == (RawRecordBuilderView { ttl: Some(ttl), ..self@ }),
    {
        let mut builder = self;
        builder.ttl = Some(ttl);
        builder
    }

    /// Sets the data of the record.
    pub fn rdata(self, rdata: Vec<u8>) -> (b: Self)
        ensures
            b@ == (RawRecordBuilderView { rdata: Some(rdata@), ..self@ }),
    {
        let mut builder = self;
        builder.rdata = Some(rdata);
        builder
    }

    /// Finishes the record and adds it to the section named. A record
    /// without a name is refused.
    pub fn add_raw_record(self, record_type: RawRecordType) -> (r: Result<
        DnsPacketBuilder,
        DnsError,
    >)
        ensures
            self@.name is None ==> r is Err && r->Err_0 == DnsError::MissingName,
            self@.name is Some ==> r is Ok && r->Ok_0@ == self@.packet_builder.with_record(
                record_type,
                self@.record(),
            ),
    {
        let mut packet_builder = self.packet_builder;
        let rdata = match self.rdata {
            Some(rdata) => rdata,
            None => Vec::new(),
        };

        let raw_record = RawRecord {
            name: match self.name {
                Some(name) => name,
                None => {
                    return Err(DnsError::MissingName);
                },
            },
            query_type: match self.query_type {
                Some(query_type) => query_type,
                None => QueryType::A,
            },
            query_class: match self.query_class {
                Some(query_class) => query_class,
                None => QueryClass::IN,
            },
            ttl: match self.ttl {
                Some(ttl) => ttl,
                None => DEFAULT_TTL,
            },
            rdata_length: count(rdata.len()),
            rdata,
        };
        let ghost before = packet_builder@;

        match record_type {
            RawRecordType::Answer => {
                packet_builder.answers.push(raw_record);
                assert(packet_builder@.answers =~= before.answers.push(raw_record@));
            },
            RawRecordType::_Authority => {
                packet_builder.authorities.push(raw_record);
                assert(packet_builder@.authorities =~= before.authorities.push(raw_record@));
            },
            RawRecordType::_Additional => {
                packet_builder.additional.push(raw_record);
                assert(packet_builder@.additional =~= before.additional.push(raw_record@));
            },
        }

        Ok(packet_builder)
    }
}

impl QuestionBuilder {
    /// Sets the type of the question.
    pub fn q_type(self, q_type: QueryType) -> (b: Self)
        ensures
            b@ == (QuestionBuilderView { q_type: Some(q_type), ..self@ }),
    {
        let mut builder = self;
        builder.q_type = Some(q_type);
        builder
    }

    /// Sets the class of the question.
    pub fn q_class(self, q_class: QueryClass) -> (b: Self)
        ensures
            b@ == (QuestionBuilderView { q_class: Some(q_class), ..self@ }),
    {
        let mut builder = self;
        builder.q_class = Some(q_class);
        builder
    }

    /// Sets the name of the question.
    pub fn q_name(self, q_name: String) -> (b: Self)
        ensures
            b@ == (QuestionBuilderView { q_name: Some(q_name@), ..self@ }),
    {
        let mut builder = self;
        builder.q_name = Some(q_name);
        builder
    }

    /// Finishes the question and adds it. A question without a name is refused.
    pub fn add_question(self) -> (r: Result<DnsPacketBuilder, DnsError>)
        ensures
            self@.q_name is None ==> r is Err && r->Err_0 == DnsError::MissingName,
            self@.q_name is Some ==> r is Ok && r->Ok_0@ == (BuilderView {
                questions: self@.packet_builder.questions.push(self@.question()),
                ..self@.packet_builder
            }),
    {
        let mut packet_builder = self.packet_builder;
        let ghost before = packet_builder@;
        let question = Question {
            q_name: match self.q_name {
                Some(name) => name,
                None => {
                    return Err(DnsError::MissingName);
                },
            },
            q_type: match self.q_type {
                Some(q_type) => q_type,
                None => QueryType::A,
            },
            q_class: match self.q_class {
                Some(q_class) => q_class,
                None => QueryClass::IN,
            },
        };
        packet_builder.questions.push(question);
        assert(packet_builder@.questions =~= before.questions.push(question@));

        Ok(packet_builder)
    }
}

/// Calls `rand::random` for a 16-bit number. Trusted, and nothing is claimed
/// of the number: any id may come back.
#[verifier::external_body]
fn random_id() -> u16 {
    rand::random()
}

impl DnsPacketBuilder {
    /// Sets the recursion-desired bit.
    pub fn recursion_desired(self, recursion_desired: bool) -> (b: Self)
        ensures
            b@ == (BuilderView { recursion_desired, ..self@ }),
    {
        let mut builder = self;
        builder.recursion_desired = recursion_desired;
        builder
    }

    /// Sets the recursion-available bit.
    pub fn recursion_available(self, recursion_available: bool) -> (b: Self)
        ensures
            b@ == (BuilderView { recursion_available, ..self@ }),
    {
        let mut builder = self;
        builder.recursion_available = recursion_available;
        builder
    }

    /// Sets the transaction id.
    pub fn id(self, id: u16) -> (b: Self)
        ensures
            b@ == (BuilderView { id: Some(id), ..self@ }),
    {
        let mut builder = self;
        builder.id = Some(id);
        builder
    }

    /// Sets the message type.
    pub fn message_type(self, message_type: MessageType) -> (b: Self)
        ensures
            b@ == (BuilderView { message_type: Some(message_type), ..self@ }),
    {
        let mut builder = self;
        builder.message_type = Some(message_type);
        builder
    }

    /// Sets the result code.
    pub fn result_code(self, result_code: ResultCode) -> (b: Self)
        ensures
            b@ == (BuilderView { result_code: Some(result_code), ..self@ }),
    {
        let mut builder = self;
        builder.result_code = Some(result_code);
        builder
    }

    /// Starts a question that will be added to this builder.
    pub fn _new_question(self) -> (b: QuestionBuilder)
        ensures
            b@ == (QuestionBuilderView {
                packet_builder: self@,
                q_type: None,
                q_class: None,
                q_name: None,
            }),
    {
        QuestionBuilder { packet_builder: self, q_type: None, q_class: None, q_name: None }
    }

    /// Starts a record that will be added to this builder.
    pub fn new_raw_record(self) -> (b: RawRecordBuilder)
        ensures
            b@ == (RawRecordBuilderView {
                packet_builder: self@,
                name: None,
                query_type: None,
                query_class: None,
                ttl: None,
                rdata: None,
            }),
    {
        RawRecordBuilder {
            packet_builder: self,
            name: None,
            query_type: None,
            query_class: None,
            ttl: None,
            rdata: None,
        }
    }

    /// Adds a question.
    pub fn with_question(self, question: Question) -> (b: Self)
        ensures
            b@ == (BuilderView { questions: self@.questions.push(question@), ..self@ }),
    {
        let mut builder = self;
        builder.questions.push(question);
        assert(builder@.questions =~= self@.questions.push(question@));
        builder
    }

    /// Sets the record sections as a bundle; it replaces the records that
    /// are added one by one.
    pub fn with_base(self, base: DnsPacketBase) -> (b: Self)
        ensures
            b@ == (BuilderView { base: Some(base@), ..self@ }),
    {
        let mut builder = self;
        builder.base = Some(base);
        builder
    }

    /// Builds the message, with `fresh_id` as its id if none was set.
    pub fn build_with_id(self, fresh_id: u16) -> (p: DnsPacket)
        ensures
            p@ == self@.built(fresh_id),
    {
        let base = match self.base {
            Some(base) => base,
            None => DnsPacketBase {
                answers: self.answers,
                authorities: self.authorities,
                additional: self.additional,
            },
        };

        DnsPacket {
            meta: DnsPacketMeta {
                header: Header {
                    id: match self.id {
                        Some(id) => id,
                        None => fresh_id,
                    },
                    message_type: match self.message_type {
                        Some(message_type) => message_type,
                        None => MessageType::Query,
                    },
                    opcode: OpCode::Query,
                    authoritative_answer: false,
                    truncation: false,
                    recursion_desired: self.recursion_desired,
                    recursion_available: self.recursion_available,
                    result_code: match self.result_code {
                        Some(result_code) => result_code,
                        None => ResultCode::NoError,
                    },
                    question_entities_count: count(self.questions.len()),
                    answer_entities_count: count(base.answers.len()),
                    authority_entities_count: count(base.authorities.len()),
                    additional_entities_count: count(base.additional.len()),
                },
                questions: self.questions,
            },
            base,
        }
    }

    /// Builds the message. Where no id was set, the message gets a random one.
    pub fn build(self) -> (p: DnsPacket)
        ensures
            p@ == self@.built(p@.header.id),
    {
        let fresh_id = match self.id {
            Some(id) => id,
            None => random_id(),
        };
        self.build_with_id(fresh_id)
    }
}

} // verus!
