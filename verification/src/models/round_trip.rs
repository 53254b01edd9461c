//! Decoding what was encoded gives the message back, with its names in the
//! form in which they come back from the wire.

use crate::error::DnsError;
use crate::models::header::Header;
use crate::models::packet::{
    parse_questions, parse_records, questions_encoding, records_encoding, write_result, BaseView,
    PacketView,
};
use crate::models::question::QuestionView;
use crate::models::record::RecordView;
use crate::smart_buffer::wire::{lemma_subrange_parts, written, Encoding, Parse};
use vstd::prelude::*;

verus! {

/// The questions in canonical form.
pub open spec fn canonical_questions(questions: Seq<QuestionView>) -> Seq<QuestionView> {
    questions.map_values(|q: QuestionView| q.canonical())
}

/// The records in canonical form.
pub open spec fn canonical_records(records: Seq<RecordView>) -> Seq<RecordView> {
    records.map_values(|r: RecordView| r.canonical())
}

/// Every question is regular.
pub open spec fn regular_questions(questions: Seq<QuestionView>) -> bool {
    forall|i: int| 0 <= i < questions.len() ==> (#[trigger] questions[i]).regular()
}

/// Every record is regular.
pub open spec fn regular_records(records: Seq<RecordView>) -> bool {
    forall|i: int| 0 <= i < records.len() ==> (#[trigger] records[i]).regular()
}

impl PacketView {
    /// Every question and every record is regular: its name is the empty
    /// one or has labels of 1 to 63 bytes each, its type and class are the
    /// variants that their numbers stand for, and a record's length field
    /// says how long its data is.
    pub open spec fn regular(self) -> bool {
        &&& regular_questions(self.questions)
        &&& regular_records(self.base.answers)
        &&& regular_records(self.base.authorities)
        &&& regular_records(self.base.additional)
    }

    /// The message with every name in the form in which it comes back from
    /// the wire.
    pub open spec fn canonical(self) -> PacketView {
        PacketView {
            header: self.header,
            questions: canonical_questions(self.questions),
            base: BaseView {
                answers: canonical_records(self.base.answers),
                authorities: canonical_records(self.base.authorities),
                additional: canonical_records(self.base.additional),
            },
        }
    }
}

/// Regular questions are written in full. Where their encoding lies in a
/// buffer, reading as many questions there gives them in canonical form,
/// after those in `done`.
pub proof fn lemma_questions_round_trip(
    questions: Seq<QuestionView>,
    buf: Seq<u8>,
    at: int,
    done: Seq<QuestionView>,
)
    requires
        regular_questions(questions),
        0 <= at,
        at + questions_encoding(questions).data.len() <= buf.len(),
        buf.subrange(at, at + questions_encoding(questions).data.len()) == questions_encoding(
            questions,
        ).data,
    ensures
        questions_encoding(questions).complete,
        parse_questions(buf, at, questions.len(), done) == (Parse::<Seq<QuestionView>> {
            value: Ok(done + canonical_questions(questions)),
            cursor: at + questions_encoding(questions).data.len(),
        }),
    decreases questions.len(),
{
    if questions.len() == 0 {
        assert(done + canonical_questions(questions) =~= done);
    } else {
        let first = questions[0];
        let rest = questions.drop_first();
        let e = first.encoding();
        let tail = questions_encoding(rest);
        assert(regular_questions(rest)) by {
            assert forall|i: int| 0 <= i < rest.len() implies (#[trigger] rest[i]).regular() by {
                assert(rest[i] == questions[i + 1]);
            }
        }
        assert(first.regular());
        assert(e.complete) by {
            crate::smart_buffer::wire::lemma_name_encoding_complete(
                vstd::utf8::encode_utf8(first.name),
            );
        }
        assert(questions_encoding(questions).data =~= e.data + tail.data);
        lemma_subrange_parts(buf, at, e.data, tail.data);
        first.lemma_round_trip(buf, at);
        lemma_questions_round_trip(rest, buf, at + e.data.len(), done.push(first.canonical()));
        assert(done.push(first.canonical()) + canonical_questions(rest) =~= done
            + canonical_questions(questions));
    }
}

/// Regular records are written in full. Where their encoding lies in a
/// buffer, reading as many records there gives them in canonical form, after
/// those in `done`.
pub proof fn lemma_records_round_trip(
    records: Seq<RecordView>,
    buf: Seq<u8>,
    at: int,
    done: Seq<RecordView>,
)
    requires
        regular_records(records),
        0 <= at,
        at + records_encoding(records).data.len() <= buf.len(),
        buf.subrange(at, at + records_encoding(records).data.len()) == records_encoding(
            records,
        ).data,
    ensures
        records_encoding(records).complete,
        parse_records(buf, at, records.len(), done) == (Parse::<Seq<RecordView>> {
            value: Ok(done + canonical_records(records)),
            cursor: at + records_encoding(records).data.len(),
        }),
    decreases records.len(),
{
    if records.len() == 0 {
        assert(done + canonical_records(records) =~= done);
    } else {
        let first = records[0];
        let rest = records.drop_first();
        let e = first.encoding();
        let tail = records_encoding(rest);
        assert(regular_records(rest)) by {
            assert forall|i: int| 0 <= i < rest.len() implies (#[trigger] rest[i]).regular() by {
                assert(rest[i] == records[i + 1]);
            }
        }
        assert(first.regular());
        assert(e.complete) by {
            crate::smart_buffer::wire::lemma_name_encoding_complete(
                vstd::utf8::encode_utf8(first.name),
            );
        }
        assert(records_encoding(records).data =~= e.data + tail.data);
        lemma_subrange_parts(buf, at, e.data, tail.data);
        first.lemma_round_trip(buf, at);
        lemma_records_round_trip(rest, buf, at + e.data.len(), done.push(first.canonical()));
        assert(done.push(first.canonical()) + canonical_records(rest) =~= done
            + canonical_records(records));
    }
}

/// Where the encoding of a regular message lies at the start of a buffer,
/// each of its five parts is read back in its place.
proof fn lemma_sections_round_trip(p: PacketView, out: Seq<u8>)
    requires
        p.header.wf(),
        p.regular(),
        p.encoding().data.len() <= out.len(),
        out.subrange(0, p.encoding().data.len() as int) == p.encoding().data,
    ensures
        ({
            let at1 = p.header.encoding().len() as int;
            let at2 = at1 + questions_encoding(p.questions).data.len();
            let at3 = at2 + records_encoding(p.base.answers).data.len();
            let at4 = at3 + records_encoding(p.base.authorities).data.len();
            let at5 = at4 + records_encoding(p.base.additional).data.len();
            &&& Header::parse(out, 0) == (Parse::<Header> { value: Ok(p.header), cursor: at1 })
            &&& parse_questions(out, at1, p.questions.len(), Seq::empty()) == (Parse::<
                Seq<QuestionView>,
            > { value: Ok(canonical_questions(p.questions)), cursor: at2 })
            &&& parse_records(out, at2, p.base.answers.len(), Seq::empty()) == (Parse::<
                Seq<RecordView>,
            > { value: Ok(canonical_records(p.base.answers)), cursor: at3 })
            &&& parse_records(out, at3, p.base.authorities.len(), Seq::empty()) == (Parse::<
                Seq<RecordView>,
            > { value: Ok(canonical_records(p.base.authorities)), cursor: at4 })
            &&& parse_records(out, at4, p.base.additional.len(), Seq::empty()) == (Parse::<
                Seq<RecordView>,
            > { value: Ok(canonical_records(p.base.additional)), cursor: at5 })
        }),
{
    let h = p.header.encoding();
    let q = questions_encoding(p.questions);
    let an = records_encoding(p.base.answers);
    let au = records_encoding(p.base.authorities);
    let ad = records_encoding(p.base.additional);
    let all = p.encoding().data;
    lemma_sections_complete(p);
    assert(all =~= h + (q.data + (an.data + (au.data + ad.data))));
    lemma_subrange_parts(out, 0, h, q.data + (an.data + (au.data + ad.data)));
    p.header.lemma_round_trip(out, 0);
    let at1 = h.len() as int;
    lemma_subrange_parts(out, at1, q.data, an.data + (au.data + ad.data));
    lemma_questions_round_trip(p.questions, out, at1, Seq::empty());
    let at2 = at1 + q.data.len();
    lemma_subrange_parts(out, at2, an.data, au.data + ad.data);
    lemma_records_round_trip(p.base.answers, out, at2, Seq::empty());
    let at3 = at2 + an.data.len();
    lemma_subrange_parts(out, at3, au.data, ad.data);
    lemma_records_round_trip(p.base.authorities, out, at3, Seq::empty());
    let at4 = at3 + au.data.len();
    lemma_records_round_trip(p.base.additional, out, at4, Seq::empty());
    assert(Seq::<QuestionView>::empty() + canonical_questions(p.questions)
        =~= canonical_questions(p.questions));
    assert(Seq::<RecordView>::empty() + canonical_records(p.base.answers) =~= canonical_records(
        p.base.answers,
    ));
    assert(Seq::<RecordView>::empty() + canonical_records(p.base.authorities)
        =~= canonical_records(p.base.authorities));
    assert(Seq::<RecordView>::empty() + canonical_records(p.base.additional)
        =~= canonical_records(p.base.additional));
}

/// Round trip: a well-formed, regular message that fits a buffer is encoded
/// in full, and decoding the buffer gives the message back, with its names
/// in canonical form. No name of the encoding is compressed.
pub proof fn lemma_packet_round_trip(p: PacketView, buf: Seq<u8>)
    requires
        p.wf(),
        p.regular(),
        p.encoding().data.len() <= buf.len(),
    ensures
        write_result(buf.len() as int, p.encoding()) is Ok,
        PacketView::parse(written(buf, 0, p.encoding().data)) == Ok::<PacketView, DnsError>(
            p.canonical(),
        ),
{
    let out = written(buf, 0, p.encoding().data);
    assert(out.subrange(0, p.encoding().data.len() as int) =~= p.encoding().data);
    lemma_sections_complete(p);
    lemma_sections_round_trip(p, out);
}

/// Every section of a regular message is written in full.
pub proof fn lemma_sections_complete(p: PacketView)
    requires
        p.regular(),
    ensures
        questions_encoding(p.questions).complete,
        records_encoding(p.base.answers).complete,
        records_encoding(p.base.authorities).complete,
        records_encoding(p.base.additional).complete,
        p.encoding().complete,
{
    lemma_questions_complete(p.questions);
    lemma_records_complete(p.base.answers);
    lemma_records_complete(p.base.authorities);
    lemma_records_complete(p.base.additional);
}

/// Regular questions are written in full.
pub proof fn lemma_questions_complete(questions: Seq<QuestionView>)
    requires
        regular_questions(questions),
    ensures
        questions_encoding(questions).complete,
    decreases questions.len(),
{
    if questions.len() > 0 {
        let rest = questions.drop_first();
        assert forall|i: int| 0 <= i < rest.len() implies (#[trigger] rest[i]).regular() by {
            assert(rest[i] == questions[i + 1]);
        }
        assert(questions[0].regular());
        crate::smart_buffer::wire::lemma_name_encoding_complete(
            vstd::utf8::encode_utf8(questions[0].name),
        );
        lemma_questions_complete(rest);
    }
}

/// Regular records are written in full.
pub proof fn lemma_records_complete(records: Seq<RecordView>)
    requires
        regular_records(records),
    ensures
        records_encoding(records).complete,
    decreases records.len(),
{
    if records.len() > 0 {
        let rest = records.drop_first();
        assert forall|i: int| 0 <= i < rest.len() implies (#[trigger] rest[i]).regular() by {
            assert(rest[i] == records[i + 1]);
        }
        assert(records[0].regular());
        crate::smart_buffer::wire::lemma_name_encoding_complete(
            vstd::utf8::encode_utf8(records[0].name),
        );
        lemma_records_complete(rest);
    }
}

} // verus!
