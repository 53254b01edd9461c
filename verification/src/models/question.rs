//! A question: the name asked for, with its type and class.

use crate::error::DnsError;
use crate::models::enums::{QueryClass, QueryType};
use crate::smart_buffer::wire::{
    canonical_name, labels_fit, lemma_name_encoding_complete, lemma_name_round_trip,
    lemma_subrange_parts, lemma_u16_round_trip, name_encoding, parse_name, parse_u16, u16_to_be,
    Encoding, Parse,
};
use crate::smart_buffer::{lemma_writes_part, SmartBuffer};
use vstd::prelude::*;
use vstd::utf8::encode_utf8;

verus! {

/// A question of a message.
#[derive(Debug)]
pub struct Question {
    pub q_name: String,
    pub q_type: QueryType,
    pub q_class: QueryClass,
}

/// A question as a plain value.
pub struct QuestionView {
    pub name: Seq<char>,
    pub q_type: QueryType,
    pub q_class: QueryClass,
}

impl View for Question {
    type V = QuestionView;

    open spec fn view(&self) -> QuestionView {
        QuestionView { name: self.q_name@, q_type: self.q_type, q_class: self.q_class }
    }
}

impl Clone for Question {
    fn clone(&self) -> (c: Self)
        ensures
            c == *self,
    {
        Question { q_name: self.q_name.clone(), q_type: self.q_type, q_class: self.q_class }
    }
}

impl QuestionView {
    /// The type and the class on the wire.
    pub open spec fn tail(self) -> Seq<u8> {
        u16_to_be(self.q_type.spec_code()) + u16_to_be(self.q_class.spec_code())
    }

    /// The question on the wire: the name, the type, the class.
    pub open spec fn encoding(self) -> Encoding {
        name_encoding(encode_utf8(self.name)).followed_by(Encoding::of(self.tail()))
    }

    /// A question read at `at`.
    pub open spec fn parse(buf: Seq<u8>, at: int) -> Parse<QuestionView> {
        let name = parse_name(buf, at);
        let q_type = parse_u16(buf, name.cursor);
        let q_class = parse_u16(buf, q_type.cursor);
        if name.value is Err {
            Parse { value: Err(name.value->Err_0), cursor: name.cursor }
        } else if q_type.value is Err {
            Parse { value: Err(q_type.value->Err_0), cursor: q_type.cursor }
        } else if q_class.value is Err {
            Parse { value: Err(q_class.value->Err_0), cursor: q_class.cursor }
        } else {
            Parse {
                value: Ok(
                    QuestionView {
                        name: name.value->Ok_0,
                        q_type: QueryType::of_code(q_type.value->Ok_0),
                        q_class: QueryClass::of_code(q_class.value->Ok_0),
                    },
                ),
                cursor: q_class.cursor,
            }
        }
    }
}

impl QuestionView {
    /// The name is the empty one or has labels of 1 to 63 bytes each, and
    /// type and class are the variants that their numbers stand for.
    pub open spec fn regular(self) -> bool {
        &&& labels_fit(encode_utf8(self.name))
        &&& self.q_type.canonical()
        &&& self.q_class.canonical()
    }

    /// The question with its name in the form in which it comes back from
    /// the wire.
    pub open spec fn canonical(self) -> QuestionView {
        QuestionView { name: canonical_name(self.name), ..self }
    }

    /// A regular question is written in full. Where its encoding lies in a
    /// buffer, reading it there gives the question in canonical form and ends
    /// behind it.
    pub proof fn lemma_round_trip(self, buf: Seq<u8>, at: int)
        requires
            self.regular(),
            0 <= at,
            at + self.encoding().data.len() <= buf.len(),
            buf.subrange(at, at + self.encoding().data.len()) == self.encoding().data,
        ensures
            self.encoding().complete,
            QuestionView::parse(buf, at) == (Parse::<QuestionView> {
                value: Ok(self.canonical()),
                cursor: at + self.encoding().data.len(),
            }),
    {
        let name = name_encoding(encode_utf8(self.name));
        let t = u16_to_be(self.q_type.spec_code());
        let c = u16_to_be(self.q_class.spec_code());
        lemma_name_encoding_complete(encode_utf8(self.name));
        assert(self.encoding().data =~= name.data + (t + c));
        lemma_subrange_parts(buf, at, name.data, t + c);
        lemma_name_round_trip(buf, at, encode_utf8(self.name));
        let at1 = at + name.data.len();
        lemma_subrange_parts(buf, at1, t, c);
        lemma_u16_round_trip(self.q_type.spec_code());
        lemma_u16_round_trip(self.q_class.spec_code());
        assert(buf[at1] == buf.subrange(at1, at1 + 2)[0]);
        assert(buf[at1 + 1] == buf.subrange(at1, at1 + 2)[1]);
        assert(buf[at1 + 2] == buf.subrange(at1 + 2, at1 + 4)[0]);
        assert(buf[at1 + 3] == buf.subrange(at1 + 2, at1 + 4)[1]);
    }
}

impl Question {
    /// Reads a question at the cursor.
    pub fn from_bytes(smart_buf: &mut SmartBuffer) -> (r: Result<Self, DnsError>)
        ensures
            old(smart_buf).reads_view(
                QuestionView::parse(old(smart_buf).bytes(), old(smart_buf).cursor()),
                final(smart_buf),
                r,
            ),
    {
        let q_name = smart_buf.read_qname()?;
        let q_type = QueryType::from(smart_buf.read_u16()?);
        let q_class = QueryClass::from(smart_buf.read_u16()?);

        Ok(Self { q_name, q_type, q_class })
    }

    /// Writes the question at the cursor.
    pub fn to_bytes(&self, smart_buf: &mut SmartBuffer) -> (r: Result<(), DnsError>)
        ensures
            old(smart_buf).writes(self@.encoding(), final(smart_buf), r),
    {
        let ghost s0 = *smart_buf;
        let ghost name = name_encoding(encode_utf8(self.q_name@));
        let ghost e_type = Encoding::of(u16_to_be(self.q_type.spec_code()));
        let ghost e_class = Encoding::of(u16_to_be(self.q_class.spec_code()));
        proof {
            assert(e_type.followed_by(e_class).data =~= self@.tail());
        }
        let r0 = smart_buf.write_qname(self.q_name.as_str());
        if r0.is_err() {
            proof {
                crate::smart_buffer::lemma_writes_stuck(&s0, name, &*smart_buf, r0, Encoding::of(self@.tail()));
            }
            return r0;
        }
        let ghost s1 = *smart_buf;
        let r1 = smart_buf.write_u16(u16::from(self.q_type));
        proof {
            lemma_writes_part(&s0, name, &s1, e_type, &*smart_buf, r1, e_class);
        }
        if r1.is_err() {
            return r1;
        }
        let ghost s2 = *smart_buf;
        let r2 = smart_buf.write_u16(u16::from(self.q_class));
        proof {
            lemma_writes_part(&s0, name.followed_by(e_type), &s2, e_class, &*smart_buf, r2, Encoding::of(Seq::empty()));
            crate::smart_buffer::lemma_followed_by_assoc(name, e_type, e_class);
        }
        r2
    }

    /// The name that is asked for.
    pub fn name(&self) -> (name: &String)
        ensures
            name@ == self@.name,
    {
        &self.q_name
    }
}

} // verus!
