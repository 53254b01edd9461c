//! The rules of resolution: the cache first, then the zone file, then the
//! upstream resolver. Reading the zone file and talking to the upstream
//! resolver are left to the caller, who is told what to do next.

pub mod zone;

use crate::cache::{added, after_get, found, CacheItemPolicy, Entries, MemoryCacheBase};
use crate::error::DnsError;
use crate::helpers::UnixTimeProvider;
use crate::models::enums::{MessageType, ResultCode};
use crate::models::packet::{
    least_ttl, questions_view, write_result, BaseView, DnsPacket, DnsPacketBase, PacketView,
};
use crate::models::packet_builder::{BuilderView, DnsPacketBuilder, RawRecordType};
use crate::models::question::{Question, QuestionView};
use crate::models::record::RecordView;
use crate::models::{new_packet_buffer, PACKET_BUFFER_LEN};
use crate::server::zone::{zone_answer, zone_line};
use crate::smart_buffer::text::{lower_text, lowercase};
use crate::smart_buffer::wire::written;
use std::time::Duration;
use vstd::prelude::*;

verus! {

/// What every response to a request starts from: the id and the
/// recursion-desired bit of the request, recursion not available, and the
/// message type `Response`.
pub open spec fn response_skeleton(request: PacketView) -> BuilderView {
    BuilderView {
        id: Some(request.header.id),
        recursion_desired: request.header.recursion_desired,
        recursion_available: false,
        message_type: Some(MessageType::Response),
        ..BuilderView::empty()
    }
}

/// The response that reports a failure: no question and no record.
pub open spec fn error_response(request: PacketView, code: ResultCode) -> PacketView {
    (BuilderView { result_code: Some(code), ..response_skeleton(request) }).built(0)
}

/// The response that answers the first question of a request with a bundle
/// of records. The question is echoed.
pub open spec fn hit_response(request: PacketView, base: BaseView) -> PacketView {
    (BuilderView {
        questions: seq![request.questions[0]],
        base: Some(base),
        ..response_skeleton(request)
    }).built(0)
}

/// The query that is sent upstream for a question: the id of the request,
/// recursion desired, and the question alone.
pub open spec fn upstream_query(id: u16, question: QuestionView) -> PacketView {
    (BuilderView {
        id: Some(id),
        recursion_desired: true,
        questions: seq![question],
        ..BuilderView::empty()
    }).built(0)
}

/// A bundle that holds answers only.
pub open spec fn answers_only(answers: Seq<RecordView>) -> BaseView {
    BaseView { answers, authorities: Seq::empty(), additional: Seq::empty() }
}

/// The texts of the lines of a zone file.
pub open spec fn lines_text(lines: Seq<String>) -> Seq<Seq<char>> {
    lines.map_values(|line: String| line@)
}

/// The answers that the lines of a zone file give for the name `wanted`,
/// after those in `found`. The first line that is broken ends the search.
pub open spec fn zone_answers(lines: Seq<Seq<char>>, wanted: Seq<char>, found: Seq<RecordView>) -> Result<
    Seq<RecordView>,
    DnsError,
>
    decreases lines.len(),
{
    if lines.len() == 0 {
        Ok(found)
    } else {
        match zone_answer(lines[0], wanted) {
            Err(e) => Err(e),
            Ok(None) => zone_answers(lines.drop_first(), wanted, found),
            Ok(Some(record)) => zone_answers(lines.drop_first(), wanted, found.push(record)),
        }
    }
}

/// A packet in a datagram buffer of 512 bytes.
pub open spec fn datagram(packet: PacketView) -> Seq<u8> {
    written(Seq::new(PACKET_BUFFER_LEN as nat, |i: int| 0u8), 0, packet.encoding().data)
}

/// The seconds for which an upstream response is kept: its least TTL, or
/// none at all where it holds no record.
pub open spec fn ttl_secs(least: Option<u32>) -> u64 {
    match least {
        Some(ttl) => ttl as u64,
        None => 0,
    }
}

/// What the caller has to do next for a request.
pub enum Step {
    /// Send this response.
    Reply(DnsPacket),
    /// Read the zone file and hand its lines to `zone_read`.
    ReadZone,
    /// Send this datagram upstream and hand the answer to `upstream_answered`.
    AskUpstream(Vec<u8>),
}

/// The resolver: the rules, and the cache that they fill and read.
pub struct Resolver<T: UnixTimeProvider> {
    cache: MemoryCacheBase<T>,
}

/// Starts the response to a request.
pub fn default_response_request_builder_from(request: &DnsPacket) -> (builder: DnsPacketBuilder)
    ensures
        builder@ == response_skeleton(request@),
{
    DnsPacketBuilder::default().id(request.id()).recursion_desired(
        request.recursion_desired(),
    ).recursion_available(false).message_type(MessageType::Response)
}

/// The response that reports a failure.
pub fn failure_response(request: &DnsPacket, code: ResultCode) -> (response: DnsPacket)
    ensures
        response@ == error_response(request@, code),
{
    default_response_request_builder_from(request).result_code(code).build_with_id(0)
}

/// Encodes a packet into a fresh datagram buffer of 512 bytes.
pub fn datagram_of(packet: &DnsPacket) -> (r: Result<Vec<u8>, DnsError>)
    ensures
        match write_result(PACKET_BUFFER_LEN as int, packet@.encoding()) {
            Ok(_) => r is Ok && r->Ok_0@ == datagram(packet@),
            Err(e) => r is Err && r->Err_0 == e,
        },
{
    let mut buf = new_packet_buffer();
    match packet.to_bytes(&mut buf) {
        Ok(_) => Ok(buf),
        Err(e) => Err(e),
    }
}

/// The datagram that asks the upstream resolver for a question.
pub fn upstream_datagram(id: u16, question: &Question) -> (r: Result<Vec<u8>, DnsError>)
    ensures
        match write_result(PACKET_BUFFER_LEN as int, upstream_query(id, question@).encoding()) {
            Ok(_) => r is Ok && r->Ok_0@ == datagram(upstream_query(id, question@)),
            Err(e) => r is Err && r->Err_0 == e,
        },
{
    let request = DnsPacketBuilder::default().id(id).recursion_desired(true).with_question(
        question.clone(),
    ).build_with_id(0);
    assert(request@.questions =~= upstream_query(id, question@).questions);
    datagram_of(&request)
}

/// Looks the first question of a request up in the lines of the zone file.
/// The response holds one answer for every line that names the question's
/// name, in the order of the lines; without such a line there is none.
pub fn lookup_local(request: &DnsPacket, lines: &Vec<String>) -> (r: Result<
    Option<DnsPacket>,
    DnsError,
>)
    requires
        request@.questions.len() > 0,
    ensures
        match zone_answers(
            lines_text(lines@),
            lower_text(request@.questions[0].name),
            Seq::empty(),
        ) {
            Err(e) => r is Err && r->Err_0 == e,
            Ok(answers) => if answers.len() == 0 {
                r is Ok && r->Ok_0 is None
            } else {
                r is Ok && r->Ok_0 is Some && r->Ok_0->0@ == hit_response(
                    request@,
                    answers_only(answers),
                )
            },
        },
{
    let questions = request.questions();
    assert(questions_view(questions@)[0] == questions@[0]@);
    let question = &questions[0];
    let wanted = lowercase(question.name().as_str());

    let mut response_builder = default_response_request_builder_from(request).with_question(
        question.clone(),
    );
    let ghost all = lines_text(lines@);
    let ghost start = response_builder@;
    let ghost mut answers: Seq<RecordView> = Seq::empty();
    let mut found = false;
    let mut i: usize = 0;
    proof {
        assert(all.skip(0) =~= all);
        assert(start.answers =~= answers);
    }
    while i < lines.len()
        invariant
            i <= lines.len(),
            all == lines_text(lines@),
            request@.questions.len() > 0,
            wanted@ == lower_text(request@.questions[0].name),
            found == (answers.len() > 0),
            response_builder@ == (BuilderView { answers, ..start }),
            zone_answers(all, wanted@, Seq::empty()) == zone_answers(
                all.skip(i as int),
                wanted@,
                answers,
            ),
        decreases lines.len() - i,
    {
        proof {
            assert(all.skip(i as int).drop_first() =~= all.skip(i + 1));
            assert(all.skip(i as int)[0] == lines@[i as int]@);
        }
        match zone_line(lines[i].as_str(), wanted.as_str()) {
            Err(e) => {
                return Err(e);
            },
            Ok(None) => {},
            Ok(Some(record)) => {
                let added = response_builder.new_raw_record().name(record.name).query_class(
                    record.query_class,
                ).query_type(record.query_type).ttl(record.ttl).rdata(record.rdata).add_raw_record(
                    RawRecordType::Answer,
                );
                response_builder = match added {
                    Ok(builder) => builder,
                    Err(e) => {
                        return Err(e);
                    },
                };
                proof {
                    answers = answers.push(record@);
                }
                found = true;
            },
        }
        i += 1;
    }

    if found {
        let response = response_builder.build_with_id(0);
        proof {
            assert(start.questions =~= seq![request@.questions[0]]);
        }
        Ok(Some(response))
    } else {
        Ok(None)
    }
}

impl<T: UnixTimeProvider> Resolver<T> {
    /// The entries of the cache.
    pub closed spec fn entries(&self) -> Entries {
        self.cache.entries()
    }

    /// The cache is well-formed.
    pub closed spec fn wf(&self) -> bool {
        self.cache.wf()
    }

    /// The hard cap of the cache of the resolver.
    pub closed spec fn limit(&self) -> usize {
        self.cache.limit()
    }

    /// The clock that the cache of the resolver goes by.
    pub closed spec fn clock(&self) -> T {
        self.cache.clock()
    }

    /// A well-formed resolver has finitely many entries in its cache.
    pub proof fn lemma_entries_finite(&self)
        requires
            self.wf(),
        ensures
            self.entries().dom().finite(),
            self.limit() > 0,
    {
        self.cache.lemma_entries_finite();
    }

    /// A resolver on top of a cache.
    pub fn new(cache: MemoryCacheBase<T>) -> (resolver: Self)
        requires
            cache.wf(),
        ensures
            resolver.wf(),
            resolver.clock() == cache.clock(),
            resolver.limit() == cache.limit(),
            resolver.entries() == cache.entries(),
    {
        Self { cache }
    }

    /// The time that the clock of the cache shows: what the clock's own
    /// `unix_time_as_secs` returns, whatever that is.
    pub fn now(&self) -> (now: u64)
        ensures
            call_ensures(T::unix_time_as_secs, (&self.clock(),), now),
    {
        self.cache.now()
    }

    /// Looks the first question of a request up in the cache at `now`.
    pub fn lookup_cache(&mut self, request: &DnsPacket, now: u64) -> (response: Option<DnsPacket>)
        requires
            old(self).wf(),
            request@.questions.len() > 0,
        ensures
            final(self).wf(),
            final(self).clock() == old(self).clock(),
            final(self).limit() == old(self).limit(),
            final(self).entries() == after_get(
                old(self).entries(),
                request@.questions[0].name,
                now,
            ),
            match found(old(self).entries(), request@.questions[0].name, now) {
                Some(base) => response is Some && response->0@ == hit_response(request@, base),
                None => response is None,
            },
    {
        let questions = request.questions();
        assert(questions_view(questions@)[0] == questions@[0]@);
        let question = &questions[0];

        match self.cache.get_at(question.name(), now) {
            Some(cached) => {
                let base: DnsPacketBase = (*cached).clone();
                let response = default_response_request_builder_from(request).with_question(
                    question.clone(),
                ).with_base(base).build_with_id(0);
                assert(response@.questions =~= seq![request@.questions[0]]);
                Some(response)
            },
            None => None,
        }
    }

    /// Keeps the records of an upstream response for as long as the least
    /// of their TTLs says; a response without records is kept for no time.
    pub fn cache_response_with_ttl(&mut self, question: &Question, response: &DnsPacket, now: u64)
        requires
            old(self).wf(),
        ensures
            final(self).wf(),
            final(self).clock() == old(self).clock(),
            final(self).limit() == old(self).limit(),
            added(
                old(self).entries(),
                old(self).limit(),
                question@.name,
                response@.base,
                Some(ttl_secs(least_ttl(response@.base.records()))),
                now,
                final(self).entries(),
            ),
    {
        let ttl = match response.min_ttl() {
            Some(ttl) => ttl as u64,
            None => 0,
        };
        self.cache.add_at(
            question.name().clone(),
            response.base().clone(),
            CacheItemPolicy::AbsoluteExpiration(Duration::from_secs(ttl)),
            now,
        );
    }

    /// Keeps the records of a response without expiration.
    pub fn cache_response_without_ttl(
        &mut self,
        question: &Question,
        response: &DnsPacket,
        now: u64,
    )
        requires
            old(self).wf(),
        ensures
            final(self).wf(),
            final(self).clock() == old(self).clock(),
            final(self).limit() == old(self).limit(),
            added(
                old(self).entries(),
                old(self).limit(),
                question@.name,
                response@.base,
                None,
                now,
                final(self).entries(),
            ),
    {
        self.cache.add_at(
            question.name().clone(),
            response.base().clone(),
            CacheItemPolicy::NoExpiration,
            now,
        );
    }

    /// The first step for a request. A request without a question is
    /// answered with `FormatError`. A request whose first question is found
    /// in the cache is answered from there. For any other, the zone file is
    /// to be read.
    pub fn lookup(&mut self, request: &DnsPacket, now: u64) -> (step: Step)
        requires
            old(self).wf(),
        ensures
            final(self).wf(),
            final(self).clock() == old(self).clock(),
            final(self).limit() == old(self).limit(),
            request@.questions.len() == 0 ==> final(self).entries() == old(self).entries()
                && step is Reply && step->Reply_0@ == error_response(
                request@,
                ResultCode::FormatError,
            ),
            request@.questions.len() > 0 ==> final(self).entries() == after_get(
                old(self).entries(),
                request@.questions[0].name,
                now,
            ) && match found(old(self).entries(), request@.questions[0].name, now) {
                Some(base) => step is Reply && step->Reply_0@ == hit_response(request@, base),
                None => step is ReadZone,
            },
    {
        let questions = request.questions();
        assert(questions_view(questions@).len() == questions@.len());
        if questions.len() == 0 {
            return Step::Reply(failure_response(request, ResultCode::FormatError));
        }
        match self.lookup_cache(request, now) {
            Some(response) => Step::Reply(response),
            None => Step::ReadZone,
        }
    }

    /// The step after the zone file was read, or could not be read (`None`).
    /// A file that could not be read or is broken gives `ServerFailure`.
    /// Answers from the file are sent and kept in the cache without
    /// expiration. Without an answer, the upstream resolver is to be asked;
    /// if the query does not fit a datagram, the step is `ServerFailure` too.
    pub fn zone_read(&mut self, request: &DnsPacket, lines: Option<&Vec<String>>, now: u64) -> (step:
        Step)
        requires
            old(self).wf(),
            request@.questions.len() > 0,
        ensures
            final(self).wf(),
            final(self).clock() == old(self).clock(),
            final(self).limit() == old(self).limit(),
            match lines {
                None => final(self).entries() == old(self).entries() && step is Reply
                    && step->Reply_0@ == error_response(request@, ResultCode::ServerFailure),
                Some(lines) => match zone_answers(
                    lines_text(lines@),
                    lower_text(request@.questions[0].name),
                    Seq::empty(),
                ) {
                    Err(_) => final(self).entries() == old(self).entries() && step is Reply
                        && step->Reply_0@ == error_response(request@, ResultCode::ServerFailure),
                    Ok(answers) => if answers.len() > 0 {
                        &&& added(
                            old(self).entries(),
                            old(self).limit(),
                            request@.questions[0].name,
                            answers_only(answers),
                            None,
                            now,
                            final(self).entries(),
                        )
                        &&& step is Reply
                        &&& step->Reply_0@ == hit_response(request@, answers_only(answers))
                    } else {
                        &&& final(self).entries() == old(self).entries()
                        &&& match write_result(
                            PACKET_BUFFER_LEN as int,
                            upstream_query(request@.header.id, request@.questions[0]).encoding(),
                        ) {
                            Ok(_) => step is AskUpstream && step->AskUpstream_0@ == datagram(
                                upstream_query(request@.header.id, request@.questions[0]),
                            ),
                            Err(_) => step is Reply && step->Reply_0@ == error_response(
                                request@,
                                ResultCode::ServerFailure,
                            ),
                        }
                    },
                },
            },
    {
        let questions = request.questions();
        assert(questions_view(questions@)[0] == questions@[0]@);
        let question = &questions[0];
        let lines = match lines {
            Some(lines) => lines,
            None => {
                return Step::Reply(failure_response(request, ResultCode::ServerFailure));
            },
        };
        match lookup_local(request, lines) {
            Err(_) => Step::Reply(failure_response(request, ResultCode::ServerFailure)),
            Ok(Some(response)) => {
                self.cache_response_without_ttl(question, &response, now);
                Step::Reply(response)
            },
            Ok(None) => match upstream_datagram(request.id(), question) {
                Ok(query) => Step::AskUpstream(query),
                Err(_) => Step::Reply(failure_response(request, ResultCode::ServerFailure)),
            },
        }
    }

    /// The response after the upstream resolver has answered with a
    /// datagram, or has not (`None`). An answer that is missing or cannot be
    /// decoded gives `ServerFailure`. Any other answer is passed on as it is;
    /// its records are kept in the cache if and only if its result code is
    /// `NoError`, for as long as the least of their TTLs says.
    pub fn upstream_answered(&mut self, request: &DnsPacket, answer: Option<&[u8]>, now: u64) -> (response:
        DnsPacket)
        requires
            old(self).wf(),
            request@.questions.len() > 0,
        ensures
            final(self).wf(),
            final(self).clock() == old(self).clock(),
            final(self).limit() == old(self).limit(),
            match answer {
                None => final(self).entries() == old(self).entries() && response@
                    == error_response(request@, ResultCode::ServerFailure),
                Some(bytes) => match PacketView::parse(bytes@) {
                    Err(_) => final(self).entries() == old(self).entries() && response@
                        == error_response(request@, ResultCode::ServerFailure),
                    Ok(decoded) => {
                        &&& response@ == decoded
                        &&& if decoded.header.result_code == ResultCode::NoError {
                            added(
                                old(self).entries(),
                                old(self).limit(),
                                request@.questions[0].name,
                                decoded.base,
                                Some(ttl_secs(least_ttl(decoded.base.records()))),
                                now,
                                final(self).entries(),
                            )
                        } else {
                            final(self).entries() == old(self).entries()
                        }
                    },
                },
            },
    {
        let questions = request.questions();
        assert(questions_view(questions@)[0] == questions@[0]@);
        let question = &questions[0];
        let bytes = match answer {
            Some(bytes) => bytes,
            None => {
                return failure_response(request, ResultCode::ServerFailure);
            },
        };
        match DnsPacket::from_bytes(bytes) {
            Ok(result) => {
                if result.result_code() == ResultCode::NoError {
                    self.cache_response_with_ttl(question, &result, now);
                }
                result
            },
            Err(_) => failure_response(request, ResultCode::ServerFailure),
        }
    }
}

} // verus!
