//! A whole DNS message and its encoding.

use crate::error::DnsError;
use crate::models::enums::ResultCode;
use crate::models::header::{Header, HEADER_LEN};
use crate::models::question::{Question, QuestionView};
use crate::models::record::{RawRecord, RecordView};
use crate::smart_buffer::wire::{
    lemma_u16_round_trip, u16_from_be, u16_to_be, written, Encoding, Parse,
};
use crate::smart_buffer::{lemma_followed_by_assoc, lemma_writes_part, lemma_writes_stuck, SmartBuffer};
use vstd::prelude::*;
use vstd::slice::slice_to_vec;

verus! {

/// A DNS message.
#[derive(Debug)]
pub struct DnsPacket {
    pub meta: DnsPacketMeta,
    pub base: DnsPacketBase,
}

/// The header and the questions of a message.
#[derive(Debug)]
pub struct DnsPacketMeta {
    pub header: Header,
    pub questions: Vec<Question>,
}

/// The three record sections of a message.
#[derive(Debug)]
pub struct DnsPacketBase {
    pub answers: Vec<RawRecord>,
    pub authorities: Vec<RawRecord>,
    pub additional: Vec<RawRecord>,
}

/// The three record sections as plain values.
pub struct BaseView {
    pub answers: Seq<RecordView>,
    pub authorities: Seq<RecordView>,
    pub additional: Seq<RecordView>,
}

/// A message as a plain value.
pub struct PacketView {
    pub header: Header,
    pub questions: Seq<QuestionView>,
    pub base: BaseView,
}

/// Questions as plain values.
pub open spec fn questions_view(questions: Seq<Question>) -> Seq<QuestionView> {
    questions.map_values(|q: Question| q@)
}

/// Records as plain values.
pub open spec fn records_view(records: Seq<RawRecord>) -> Seq<RecordView> {
    records.map_values(|r: RawRecord| r@)
}

impl View for DnsPacketBase {
    type V = BaseView;

    open spec fn view(&self) -> BaseView {
        BaseView {
            answers: records_view(self.answers@),
            authorities: records_view(self.authorities@),
            additional: records_view(self.additional@),
        }
    }
}

impl Clone for DnsPacketBase {
    fn clone(&self) -> (c: Self)
        ensures
            c@ == self@,
    {
        let c = DnsPacketBase {
            answers: self.answers.clone(),
            authorities: self.authorities.clone(),
            additional: self.additional.clone(),
        };
        proof {
            assert(records_view(c.answers@) =~= records_view(self.answers@));
            assert(records_view(c.authorities@) =~= records_view(self.authorities@));
            assert(records_view(c.additional@) =~= records_view(self.additional@));
        }
        c
    }
}

impl View for DnsPacket {
    type V = PacketView;

    open spec fn view(&self) -> PacketView {
        PacketView {
            header: self.meta.header,
            questions: questions_view(self.meta.questions@),
            base: self.base@,
        }
    }
}

/// Reads `n` more questions at `at`, after those in `done`.
pub open spec fn parse_questions(buf: Seq<u8>, at: int, n: nat, done: Seq<QuestionView>) -> Parse<
    Seq<QuestionView>,
>
    decreases n,
{
    if n == 0 {
        Parse { value: Ok(done), cursor: at }
    } else {
        let first = QuestionView::parse(buf, at);
        match first.value {
            Err(e) => Parse { value: Err(e), cursor: first.cursor },
            Ok(q) => parse_questions(buf, first.cursor, (n - 1) as nat, done.push(q)),
        }
    }
}

/// Reads `n` more records at `at`, after those in `done`.
pub open spec fn parse_records(buf: Seq<u8>, at: int, n: nat, done: Seq<RecordView>) -> Parse<
    Seq<RecordView>,
>
    decreases n,
{
    if n == 0 {
        Parse { value: Ok(done), cursor: at }
    } else {
        let first = RecordView::parse(buf, at);
        match first.value {
            Err(e) => Parse { value: Err(e), cursor: first.cursor },
            Ok(r) => parse_records(buf, first.cursor, (n - 1) as nat, done.push(r)),
        }
    }
}

/// Questions on the wire, one after the other.
pub open spec fn questions_encoding(questions: Seq<QuestionView>) -> Encoding
    decreases questions.len(),
{
    if questions.len() == 0 {
        Encoding::of(Seq::empty())
    } else {
        questions[0].encoding().followed_by(questions_encoding(questions.drop_first()))
    }
}

/// Records on the wire, one after the other.
pub open spec fn records_encoding(records: Seq<RecordView>) -> Encoding
    decreases records.len(),
{
    if records.len() == 0 {
        Encoding::of(Seq::empty())
    } else {
        records[0].encoding().followed_by(records_encoding(records.drop_first()))
    }
}

/// The least TTL among the records, if there is a record.
pub open spec fn is_min_ttl(records: Seq<RecordView>, min: Option<u32>) -> bool {
    match min {
        None => records.len() == 0,
        Some(ttl) => {
            &&& exists|i: int| 0 <= i < records.len() && #[trigger] records[i].ttl == ttl
            &&& forall|i: int| 0 <= i < records.len() ==> ttl <= #[trigger] records[i].ttl
        },
    }
}

impl BaseView {
    /// All records of the three sections.
    pub open spec fn records(self) -> Seq<RecordView> {
        self.answers + self.authorities + self.additional
    }
}

impl PacketView {
    /// The header counts are the lengths of the four lists, every record's
    /// length field is the length of its data, and the header is well-formed.
    pub open spec fn wf(self) -> bool {
        &&& self.header.wf()
        &&& self.header.question_entities_count == self.questions.len()
        &&& self.header.answer_entities_count == self.base.answers.len()
        &&& self.header.authority_entities_count == self.base.authorities.len()
        &&& self.header.additional_entities_count == self.base.additional.len()
        &&& forall|i: int| 0 <= i < self.base.records().len() ==> #[trigger] self.base.records()[i].wf()
    }

    /// The message on the wire: header, questions, answers, authorities, additionals.
    pub open spec fn encoding(self) -> Encoding {
        Encoding::of(self.header.encoding()).followed_by(
            questions_encoding(self.questions),
        ).followed_by(records_encoding(self.base.answers)).followed_by(
            records_encoding(self.base.authorities),
        ).followed_by(records_encoding(self.base.additional))
    }

    /// The message that a datagram holds: the header, then as many questions,
    /// answers, authorities and additionals as the header counts.
    pub open spec fn parse(buf: Seq<u8>) -> Result<PacketView, DnsError> {
        let header = Header::parse(buf, 0);
        match header.value {
            Err(e) => Err(e),
            Ok(h) => {
                let questions = parse_questions(
                    buf,
                    header.cursor,
                    h.question_entities_count as nat,
                    Seq::empty(),
                );
                match questions.value {
                    Err(e) => Err(e),
                    Ok(qs) => {
                        let answers = parse_records(
                            buf,
                            questions.cursor,
                            h.answer_entities_count as nat,
                            Seq::empty(),
                        );
                        match answers.value {
                            Err(e) => Err(e),
                            Ok(ans) => {
                                let authorities = parse_records(
                                    buf,
                                    answers.cursor,
                                    h.authority_entities_count as nat,
                                    Seq::empty(),
                                );
                                match authorities.value {
                                    Err(e) => Err(e),
                                    Ok(auths) => {
                                        let additional = parse_records(
                                            buf,
                                            authorities.cursor,
                                            h.additional_entities_count as nat,
                                            Seq::empty(),
                                        );
                                        match additional.value {
                                            Err(e) => Err(e),
                                            Ok(adds) => Ok(
                                                PacketView {
                                                    header: h,
                                                    questions: qs,
                                                    base: BaseView {
                                                        answers: ans,
                                                        authorities: auths,
                                                        additional: adds,
                                                    },
                                                },
                                            ),
                                        }
                                    },
                                }
                            },
                        }
                    },
                }
            },
        }
    }
}

/// The encoding of a message starts with its header.
pub proof fn lemma_encoding_starts_with_header(p: PacketView)
    ensures
        p.encoding().data.len() >= p.header.encoding().len(),
        p.encoding().data.subrange(0, p.header.encoding().len() as int) == p.header.encoding(),
{
    let h = Encoding::of(p.header.encoding());
    let e1 = h.followed_by(questions_encoding(p.questions));
    let e2 = e1.followed_by(records_encoding(p.base.answers));
    let e3 = e2.followed_by(records_encoding(p.base.authorities));
    let e4 = e3.followed_by(records_encoding(p.base.additional));
    let n = h.data.len() as int;
    assert(e1.data.subrange(0, n) =~= h.data);
    assert(e2.data.subrange(0, n) =~= h.data);
    assert(e3.data.subrange(0, n) =~= h.data);
    assert(e4.data.subrange(0, n) =~= h.data);
}

/// After a message whose header counts are the lengths of its lists was
/// encoded into a buffer that holds at least the header, the four counts in
/// the buffer are the lengths of the four lists.
pub proof fn lemma_encoded_counts(p: PacketView, buf: Seq<u8>)
    requires
        p.wf(),
        buf.len() >= HEADER_LEN,
    ensures
        ({
            let out = written(buf, 0, p.encoding().data);
            &&& u16_from_be(out[4], out[5]) == p.questions.len()
            &&& u16_from_be(out[6], out[7]) == p.base.answers.len()
            &&& u16_from_be(out[8], out[9]) == p.base.authorities.len()
            &&& u16_from_be(out[10], out[11]) == p.base.additional.len()
        }),
{
    lemma_encoding_starts_with_header(p);
    let head = p.header.encoding();
    let data = p.encoding().data;
    lemma_u16_round_trip(p.header.question_entities_count);
    lemma_u16_round_trip(p.header.answer_entities_count);
    lemma_u16_round_trip(p.header.authority_entities_count);
    lemma_u16_round_trip(p.header.additional_entities_count);
    assert(head.len() == 12);
    assert forall|i: int| 0 <= i < 12 implies data[i] == head[i] by {
        assert(data.subrange(0, 12)[i] == data[i]);
    }
    assert(head[4] == u16_to_be(p.header.question_entities_count)[0]);
    assert(head[5] == u16_to_be(p.header.question_entities_count)[1]);
    assert(head[6] == u16_to_be(p.header.answer_entities_count)[0]);
    assert(head[7] == u16_to_be(p.header.answer_entities_count)[1]);
    assert(head[8] == u16_to_be(p.header.authority_entities_count)[0]);
    assert(head[9] == u16_to_be(p.header.authority_entities_count)[1]);
    assert(head[10] == u16_to_be(p.header.additional_entities_count)[0]);
    assert(head[11] == u16_to_be(p.header.additional_entities_count)[1]);
}

/// How a write of `e` into `room` bytes ends.
pub open spec fn write_result(room: int, e: Encoding) -> Result<(), DnsError> {
    if e.data.len() > room {
        Err(DnsError::BufferOverflow)
    } else if !e.complete {
        Err(DnsError::LabelTooLong)
    } else {
        Ok(())
    }
}

fn read_questions(smart_buf: &mut SmartBuffer, count: u16) -> (r: Result<Vec<Question>, DnsError>)
    ensures
        final(smart_buf).bytes() == old(smart_buf).bytes(),
        final(smart_buf).cursor() == parse_questions(
            old(smart_buf).bytes(),
            old(smart_buf).cursor(),
            count as nat,
            Seq::empty(),
        ).cursor,
        match parse_questions(
            old(smart_buf).bytes(),
            old(smart_buf).cursor(),
            count as nat,
            Seq::empty(),
        ).value {
            Ok(v) => r is Ok && questions_view(r->Ok_0@) == v && v.len() == count,
            Err(e) => r == Err::<Vec<Question>, DnsError>(e),
        },
{
    let ghost s0 = *smart_buf;
    let mut questions: Vec<Question> = Vec::with_capacity(count as usize);
    let mut i: u16 = 0;
    assert(questions_view(questions@) =~= Seq::empty());
    while i < count
        invariant
            i <= count,
            s0 == *old(smart_buf),
            smart_buf.bytes() == s0.bytes(),
            questions@.len() == i,
            parse_questions(
                s0.bytes(),
                smart_buf.cursor(),
                (count - i) as nat,
                questions_view(questions@),
            ) == parse_questions(s0.bytes(), s0.cursor(), count as nat, Seq::empty()),
        decreases count - i,
    {
        let ghost before = questions@;
        let question = Question::from_bytes(smart_buf)?;
        questions.push(question);
        assert(questions_view(questions@) =~= questions_view(before).push(question@));
        i += 1;
    }
    Ok(questions)
}

fn read_records(smart_buf: &mut SmartBuffer, count: u16) -> (r: Result<Vec<RawRecord>, DnsError>)
    ensures
        final(smart_buf).bytes() == old(smart_buf).bytes(),
        final(smart_buf).cursor() == parse_records(
            old(smart_buf).bytes(),
            old(smart_buf).cursor(),
            count as nat,
            Seq::empty(),
        ).cursor,
        match parse_records(
            old(smart_buf).bytes(),
            old(smart_buf).cursor(),
            count as nat,
            Seq::empty(),
        ).value {
            Ok(v) => {
                &&& r is Ok
                &&& records_view(r->Ok_0@) == v
                &&& v.len() == count
                &&& forall|k: int| 0 <= k < v.len() ==> (#[trigger] v[k]).wf()
            },
            Err(e) => r == Err::<Vec<RawRecord>, DnsError>(e),
        },
{
    let ghost s0 = *smart_buf;
    let mut records: Vec<RawRecord> = Vec::with_capacity(count as usize);
    let mut i: u16 = 0;
    assert(records_view(records@) =~= Seq::empty());
    while i < count
        invariant
            i <= count,
            s0 == *old(smart_buf),
            smart_buf.bytes() == s0.bytes(),
            records@.len() == i,
            forall|k: int| 0 <= k < i ==> (#[trigger] records_view(records@)[k]).wf(),
            parse_records(
                s0.bytes(),
                smart_buf.cursor(),
                (count - i) as nat,
                records_view(records@),
            ) == parse_records(s0.bytes(), s0.cursor(), count as nat, Seq::empty()),
        decreases count - i,
    {
        let ghost before = records@;
        let record = RawRecord::from_bytes(smart_buf)?;
        records.push(record);
        assert(records_view(records@) =~= records_view(before).push(record@));
        i += 1;
    }
    Ok(records)
}

/// The lesser of two TTLs, where none stands for a run without records.
pub open spec fn spec_least(a: Option<u32>, b: Option<u32>) -> Option<u32> {
    match (a, b) {
        (None, _) => b,
        (_, None) => a,
        (Some(x), Some(y)) => Some(if x <= y {
            x
        } else {
            y
        }),
    }
}

/// The least TTL among the records; none if there is no record.
pub open spec fn least_ttl(records: Seq<RecordView>) -> Option<u32>
    decreases records.len(),
{
    if records.len() == 0 {
        None
    } else {
        spec_least(least_ttl(records.drop_last()), Some(records.last().ttl))
    }
}

/// `least_ttl` is the TTL of one of the records, and no record has a lesser one.
pub proof fn lemma_least_ttl_is_min(records: Seq<RecordView>)
    ensures
        is_min_ttl(records, least_ttl(records)),
    decreases records.len(),
{
    if records.len() > 0 {
        let front = records.drop_last();
        lemma_least_ttl_is_min(front);
        let last = records.len() - 1;
        assert(records[last].ttl == records.last().ttl);
        if let Some(m) = least_ttl(front) {
            let w = choose|w: int| 0 <= w < front.len() && #[trigger] front[w].ttl == m;
            assert(records[w].ttl == m);
        }
        assert forall|i: int| 0 <= i < records.len() implies least_ttl(records)->0
            <= #[trigger] records[i].ttl by {
            if i < last {
                assert(records[i] == front[i]);
            }
        }
    }
}

/// The least TTL of two runs of records is the least TTL of both together.
pub proof fn lemma_least_ttl_concat(a: Seq<RecordView>, b: Seq<RecordView>)
    ensures
        least_ttl(a + b) == spec_least(least_ttl(a), least_ttl(b)),
    decreases b.len(),
{
    if b.len() == 0 {
        assert(a + b =~= a);
    } else {
        lemma_least_ttl_concat(a, b.drop_last());
        assert((a + b).drop_last() =~= a + b.drop_last());
    }
}

fn min_ttl_of(records: &Vec<RawRecord>) -> (min: Option<u32>)
    ensures
        min == least_ttl(records_view(records@)),
{
    let mut min: Option<u32> = None;
    let mut i: usize = 0;
    while i < records.len()
        invariant
            i <= records.len(),
            min == least_ttl(records_view(records@).take(i as int)),
        decreases records.len() - i,
    {
        proof {
            let next = records_view(records@).take(i + 1);
            assert(next.drop_last() =~= records_view(records@).take(i as int));
        }
        min = least(min, Some(records[i].ttl));
        i += 1;
    }
    assert(records_view(records@).take(i as int) =~= records_view(records@));
    min
}

#[verifier::when_used_as_spec(spec_least)]
fn least(a: Option<u32>, b: Option<u32>) -> (min: Option<u32>)
    ensures
        min == spec_least(a, b),
{
    match (a, b) {
        (None, _) => b,
        (_, None) => a,
        (Some(x), Some(y)) => Some(if x <= y {
            x
        } else {
            y
        }),
    }
}

fn write_questions(questions: &Vec<Question>, smart_buf: &mut SmartBuffer) -> (r: Result<
    (),
    DnsError,
>)
    ensures
        old(smart_buf).writes(questions_encoding(questions_view(questions@)), final(smart_buf), r),
{
    let ghost s0 = *smart_buf;
    let ghost all = questions_view(questions@);
    let ghost mut done = Encoding::of(Seq::empty());
    let _start = smart_buf.position();
    let mut i: usize = 0;
    proof {
        assert(all.skip(0) =~= all);
        assert(smart_buf.bytes() =~= written(s0.bytes(), s0.cursor(), done.data));
        assert(done.followed_by(questions_encoding(all)).data =~= questions_encoding(all).data);
    }
    while i < questions.len()
        invariant
            s0 == *old(smart_buf),
            all == questions_view(questions@),
            i <= questions.len(),
            s0.writes(done, &*smart_buf, Ok(())),
            questions_encoding(all) == done.followed_by(questions_encoding(all.skip(i as int))),
        decreases questions.len() - i,
    {
        let ghost s1 = *smart_buf;
        let ghost rest = questions_encoding(all.skip(i + 1));
        let r = questions[i].to_bytes(smart_buf);
        proof {
            assert(all.skip(i as int).drop_first() =~= all.skip(i + 1));
            lemma_writes_part(&s0, done, &s1, all[i as int].encoding(), &*smart_buf, r, rest);
        }
        if r.is_err() {
            return r;
        }
        proof {
            lemma_followed_by_assoc(done, all[i as int].encoding(), rest);
            done = done.followed_by(all[i as int].encoding());
        }
        i += 1;
    }
    assert(done.followed_by(questions_encoding(all.skip(i as int))).data =~= done.data);
    Ok(())
}

fn write_records(records: &Vec<RawRecord>, smart_buf: &mut SmartBuffer) -> (r: Result<(), DnsError>)
    ensures
        old(smart_buf).writes(records_encoding(records_view(records@)), final(smart_buf), r),
{
    let ghost s0 = *smart_buf;
    let ghost all = records_view(records@);
    let ghost mut done = Encoding::of(Seq::empty());
    let _start = smart_buf.position();
    let mut i: usize = 0;
    proof {
        assert(all.skip(0) =~= all);
        assert(smart_buf.bytes() =~= written(s0.bytes(), s0.cursor(), done.data));
        assert(done.followed_by(records_encoding(all)).data =~= records_encoding(all).data);
    }
    while i < records.len()
        invariant
            s0 == *old(smart_buf),
            all == records_view(records@),
            i <= records.len(),
            s0.writes(done, &*smart_buf, Ok(())),
            records_encoding(all) == done.followed_by(records_encoding(all.skip(i as int))),
        decreases records.len() - i,
    {
        let ghost s1 = *smart_buf;
        let ghost rest = records_encoding(all.skip(i + 1));
        let r = records[i].to_bytes(smart_buf);
        proof {
            assert(all.skip(i as int).drop_first() =~= all.skip(i + 1));
            lemma_writes_part(&s0, done, &s1, all[i as int].encoding(), &*smart_buf, r, rest);
        }
        if r.is_err() {
            return r;
        }
        proof {
            lemma_followed_by_assoc(done, all[i as int].encoding(), rest);
            done = done.followed_by(all[i as int].encoding());
        }
        i += 1;
    }
    assert(done.followed_by(records_encoding(all.skip(i as int))).data =~= done.data);
    Ok(())
}

impl DnsPacket {
    /// Decodes a datagram.
    pub fn from_bytes(buf: &[u8]) -> (r: Result<Self, DnsError>)
        ensures
            match PacketView::parse(buf@) {
                Ok(v) => r is Ok && r->Ok_0@ == v,
                Err(e) => r == Err::<DnsPacket, DnsError>(e),
            },
            r is Ok ==> r->Ok_0@.wf(),
    {
        let mut smart_buf = SmartBuffer::new(slice_to_vec(buf));

        let header = Header::from_bytes(&mut smart_buf)?;
        let questions = read_questions(&mut smart_buf, header.question_entities_count())?;
        let answers = read_records(&mut smart_buf, header.answer_entities_count())?;
        let authorities = read_records(&mut smart_buf, header.authority_entities_count())?;
        let additional = read_records(&mut smart_buf, header.additional_entities_count())?;

        Ok(
            Self {
                meta: DnsPacketMeta { header, questions },
                base: DnsPacketBase { answers, authorities, additional },
            },
        )
    }

    fn write_to(&self, smart_buf: &mut SmartBuffer) -> (r: Result<(), DnsError>)
        ensures
            old(smart_buf).writes(self@.encoding(), final(smart_buf), r),
    {
        let ghost s0 = *smart_buf;
        let ghost e0 = Encoding::of(self@.header.encoding());
        let ghost e1 = questions_encoding(self@.questions);
        let ghost e2 = records_encoding(self@.base.answers);
        let ghost e3 = records_encoding(self@.base.authorities);
        let ghost e4 = records_encoding(self@.base.additional);
        let ghost d1 = e0.followed_by(e1);
        let ghost d2 = d1.followed_by(e2);
        let ghost d3 = d2.followed_by(e3);
        let r0 = self.meta.header.to_bytes(smart_buf);
        if r0.is_err() {
            proof {
                lemma_writes_stuck(&s0, e0, &*smart_buf, r0, e1);
                lemma_writes_stuck(&s0, d1, &*smart_buf, r0, e2);
                lemma_writes_stuck(&s0, d2, &*smart_buf, r0, e3);
                lemma_writes_stuck(&s0, d3, &*smart_buf, r0, e4);
            }
            return r0;
        }
        let ghost s1 = *smart_buf;
        let r1 = write_questions(&self.meta.questions, smart_buf);
        proof {
            lemma_writes_part(&s0, e0, &s1, e1, &*smart_buf, r1, e2);
        }
        if r1.is_err() {
            proof {
                lemma_writes_stuck(&s0, d2, &*smart_buf, r1, e3);
                lemma_writes_stuck(&s0, d3, &*smart_buf, r1, e4);
            }
            return r1;
        }
        let ghost s2 = *smart_buf;
        let r2 = write_records(&self.base.answers, smart_buf);
        proof {
            lemma_writes_part(&s0, d1, &s2, e2, &*smart_buf, r2, e3);
        }
        if r2.is_err() {
            proof {
                lemma_writes_stuck(&s0, d3, &*smart_buf, r2, e4);
            }
            return r2;
        }
        let ghost s3 = *smart_buf;
        let r3 = write_records(&self.base.authorities, smart_buf);
        proof {
            lemma_writes_part(&s0, d2, &s3, e3, &*smart_buf, r3, e4);
        }
        if r3.is_err() {
            return r3;
        }
        let ghost s4 = *smart_buf;
        let r4 = write_records(&self.base.additional, smart_buf);
        proof {
            lemma_writes_part(&s0, d3, &s4, e4, &*smart_buf, r4, Encoding::of(Seq::empty()));
        }
        r4
    }

    /// Encodes the message from the start of `buf` on. What does not fit is
    /// not written, and the bytes behind the message are left as they are.
    pub fn to_bytes(&self, buf: &mut Vec<u8>) -> (r: Result<(), DnsError>)
        ensures
            final(buf)@ == written(old(buf)@, 0, self@.encoding().data),
            r == write_result(old(buf)@.len() as int, self@.encoding()),
    {
        let mut owned: Vec<u8> = Vec::new();
        std::mem::swap(buf, &mut owned);
        let mut smart_buf = SmartBuffer::new(owned);
        let r = self.write_to(&mut smart_buf);
        *buf = smart_buf.into_inner();
        r
    }

    /// The transaction id.
    pub fn id(&self) -> (id: u16)
        ensures
            id == self@.header.id,
    {
        self.meta.header.id
    }

    /// The questions.
    pub fn questions(&self) -> (questions: &[Question])
        ensures
            questions_view(questions@) == self@.questions,
    {
        self.meta.questions.as_slice()
    }

    /// The recursion-desired bit.
    pub fn recursion_desired(&self) -> (rd: bool)
        ensures
            rd == self@.header.recursion_desired,
    {
        self.meta.header.recursion_desired
    }

    /// The least TTL among all records of the three sections; none if there
    /// is no record.
    pub fn min_ttl(&self) -> (min: Option<u32>)
        ensures
            min == least_ttl(self@.base.records()),
            is_min_ttl(self@.base.records(), min),
    {
        let ttl1 = min_ttl_of(&self.base.answers);
        let ttl2 = min_ttl_of(&self.base.authorities);
        let ttl3 = min_ttl_of(&self.base.additional);
        proof {
            lemma_least_ttl_concat(self@.base.answers, self@.base.authorities);
            lemma_least_ttl_concat(
                self@.base.answers + self@.base.authorities,
                self@.base.additional,
            );
            lemma_least_ttl_is_min(self@.base.records());
        }
        least(least(ttl1, ttl2), ttl3)
    }

    /// The three record sections as a bundle.
    pub fn base(&self) -> (base: &DnsPacketBase)
        ensures
            base@ == self@.base,
    {
        &self.base
    }

    /// The result code.
    pub fn result_code(&self) -> (code: ResultCode)
        ensures
            code == self@.header.result_code,
    {
        self.meta.header.result_code
    }
}

} // verus!
