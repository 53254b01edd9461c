//! A resource record with its data kept raw.

use crate::error::DnsError;
use crate::models::enums::{QueryClass, QueryType};
use crate::smart_buffer::wire::{
    canonical_name, labels_fit, lemma_name_encoding_complete, lemma_name_round_trip,
    lemma_subrange_parts, lemma_u16_round_trip, lemma_u32_round_trip, name_encoding, parse_name,
    parse_slice, parse_u16, parse_u32, u16_to_be, u32_to_be, Encoding, Parse,
};
use crate::smart_buffer::{lemma_followed_by_assoc, lemma_writes_part, lemma_writes_stuck, SmartBuffer};
use vstd::prelude::*;
use vstd::utf8::encode_utf8;

verus! {

/// A resource record. Its data is kept as the bytes that came.
#[derive(Debug)]
pub struct RawRecord {
    pub name: String,
    pub query_type: QueryType,
    pub query_class: QueryClass,
    pub ttl: u32,
    pub rdata_length: u16,
    pub rdata: Vec<u8>,
}

/// A record as a plain value.
pub struct RecordView {
    pub name: Seq<char>,
    pub query_type: QueryType,
    pub query_class: QueryClass,
    pub ttl: u32,
    pub rdata_length: u16,
    pub rdata: Seq<u8>,
}

impl View for RawRecord {
    type V = RecordView;

    open spec fn view(&self) -> RecordView {
        RecordView {
            name: self.name@,
            query_type: self.query_type,
            query_class: self.query_class,
            ttl: self.ttl,
            rdata_length: self.rdata_length,
            rdata: self.rdata@,
        }
    }
}

impl Clone for RawRecord {
    fn clone(&self) -> (c: Self)
        ensures
            c@ == self@,
    {
        RawRecord {
            name: self.name.clone(),
            query_type: self.query_type,
            query_class: self.query_class,
            ttl: self.ttl,
            rdata_length: self.rdata_length,
            rdata: self.rdata.clone(),
        }
    }
}

impl RecordView {
    /// The length field says how long the data is.
    pub open spec fn wf(self) -> bool {
        self.rdata_length == self.rdata.len()
    }

    /// The fixed fields on the wire: type, class, TTL and the length of the data.
    pub open spec fn fixed(self) -> Seq<u8> {
        u16_to_be(self.query_type.spec_code()) + u16_to_be(self.query_class.spec_code())
            + u32_to_be(self.ttl) + u16_to_be(self.rdata_length)
    }

    /// The record on the wire: the name, the fixed fields, the data.
    pub open spec fn encoding(self) -> Encoding {
        name_encoding(encode_utf8(self.name)).followed_by(Encoding::of(self.fixed() + self.rdata))
    }

    /// A record read at `at`.
    pub open spec fn parse(buf: Seq<u8>, at: int) -> Parse<RecordView> {
        let name = parse_name(buf, at);
        let query_type = parse_u16(buf, name.cursor);
        let query_class = parse_u16(buf, query_type.cursor);
        let ttl = parse_u32(buf, query_class.cursor);
        let rdata_length = parse_u16(buf, ttl.cursor);
        let rdata = parse_slice(buf, rdata_length.cursor, rdata_length.value->Ok_0 as int);
        if name.value is Err {
            Parse { value: Err(name.value->Err_0), cursor: name.cursor }
        } else if query_type.value is Err {
            Parse { value: Err(query_type.value->Err_0), cursor: query_type.cursor }
        } else if query_class.value is Err {
            Parse { value: Err(query_class.value->Err_0), cursor: query_class.cursor }
        } else if ttl.value is Err {
            Parse { value: Err(ttl.value->Err_0), cursor: ttl.cursor }
        } else if rdata_length.value is Err {
            Parse { value: Err(rdata_length.value->Err_0), cursor: rdata_length.cursor }
        } else if rdata.value is Err {
            Parse { value: Err(rdata.value->Err_0), cursor: rdata.cursor }
        } else {
            Parse {
                value: Ok(
                    RecordView {
                        name: name.value->Ok_0,
                        query_type: QueryType::of_code(query_type.value->Ok_0),
                        query_class: QueryClass::of_code(query_class.value->Ok_0),
                        ttl: ttl.value->Ok_0,
                        rdata_length: rdata_length.value->Ok_0,
                        rdata: rdata.value->Ok_0,
                    },
                ),
                cursor: rdata.cursor,
            }
        }
    }
}

impl RecordView {
    /// The name is the empty one or has labels of 1 to 63 bytes each, type
    /// and class are the variants that their numbers stand for, and the
    /// length field says how long the data is.
    pub open spec fn regular(self) -> bool {
        &&& labels_fit(encode_utf8(self.name))
        &&& self.query_type.canonical()
        &&& self.query_class.canonical()
        &&& self.wf()
    }

    /// The record with its name in the form in which it comes back from the
    /// wire.
    pub open spec fn canonical(self) -> RecordView {
        RecordView { name: canonical_name(self.name), ..self }
    }

    /// A regular record is written in full. Where its encoding lies in a
    /// buffer, reading it there gives the record in canonical form and ends
    /// behind it.
    pub proof fn lemma_round_trip(self, buf: Seq<u8>, at: int)
        requires
            self.regular(),
            0 <= at,
            at + self.encoding().data.len() <= buf.len(),
            buf.subrange(at, at + self.encoding().data.len()) == self.encoding().data,
        ensures
            self.encoding().complete,
            RecordView::parse(buf, at) == (Parse::<RecordView> {
                value: Ok(self.canonical()),
                cursor: at + self.encoding().data.len(),
            }),
    {
        let name = name_encoding(encode_utf8(self.name));
        let t = u16_to_be(self.query_type.spec_code());
        let c = u16_to_be(self.query_class.spec_code());
        let ttl = u32_to_be(self.ttl);
        let len = u16_to_be(self.rdata_length);
        let after_name = t + c + ttl + len + self.rdata;
        lemma_name_encoding_complete(encode_utf8(self.name));
        assert(self.encoding().data =~= name.data + after_name);
        lemma_subrange_parts(buf, at, name.data, after_name);
        lemma_name_round_trip(buf, at, encode_utf8(self.name));
        let at1 = at + name.data.len();
        assert(after_name =~= t + (c + ttl + len + self.rdata));
        lemma_subrange_parts(buf, at1, t, c + ttl + len + self.rdata);
        assert(c + ttl + len + self.rdata =~= c + (ttl + len + self.rdata));
        lemma_subrange_parts(buf, at1 + 2, c, ttl + len + self.rdata);
        assert(ttl + len + self.rdata =~= ttl + (len + self.rdata));
        lemma_subrange_parts(buf, at1 + 4, ttl, len + self.rdata);
        lemma_subrange_parts(buf, at1 + 8, len, self.rdata);
        lemma_u16_round_trip(self.query_type.spec_code());
        lemma_u16_round_trip(self.query_class.spec_code());
        lemma_u32_round_trip(self.ttl);
        lemma_u16_round_trip(self.rdata_length);
        assert(buf[at1] == buf.subrange(at1, at1 + 2)[0]);
        assert(buf[at1 + 1] == buf.subrange(at1, at1 + 2)[1]);
        assert(buf[at1 + 2] == buf.subrange(at1 + 2, at1 + 4)[0]);
        assert(buf[at1 + 3] == buf.subrange(at1 + 2, at1 + 4)[1]);
        assert(buf[at1 + 4] == buf.subrange(at1 + 4, at1 + 8)[0]);
        assert(buf[at1 + 5] == buf.subrange(at1 + 4, at1 + 8)[1]);
        assert(buf[at1 + 6] == buf.subrange(at1 + 4, at1 + 8)[2]);
        assert(buf[at1 + 7] == buf.subrange(at1 + 4, at1 + 8)[3]);
        assert(buf[at1 + 8] == buf.subrange(at1 + 8, at1 + 10)[0]);
        assert(buf[at1 + 9] == buf.subrange(at1 + 8, at1 + 10)[1]);
    }
}

impl RawRecord {
    /// Reads a record at the cursor.
    pub fn from_bytes(smart_buf: &mut SmartBuffer) -> (r: Result<Self, DnsError>)
        ensures
            old(smart_buf).reads_view(
                RecordView::parse(old(smart_buf).bytes(), old(smart_buf).cursor()),
                final(smart_buf),
                r,
            ),
            r is Ok ==> r->Ok_0@.wf(),
    {
        let name = smart_buf.read_qname()?;

        let query_type = QueryType::from(smart_buf.read_u16()?);
        let query_class = QueryClass::from(smart_buf.read_u16()?);
        let ttl = smart_buf.read_u32()?;
        let rdata_length = smart_buf.read_u16()?;
        proof {
            smart_buf.lemma_cursor_not_negative();
        }
        let rdata = smart_buf.read_slice(rdata_length as usize)?;

        Ok(Self { name, query_type, query_class, ttl, rdata_length, rdata })
    }

    /// Writes the record at the cursor.
    pub fn to_bytes(&self, smart_buf: &mut SmartBuffer) -> (r: Result<(), DnsError>)
        ensures
            old(smart_buf).writes(self@.encoding(), final(smart_buf), r),
    {
        let ghost s0 = *smart_buf;
        let ghost name = name_encoding(encode_utf8(self.name@));
        let ghost e1 = Encoding::of(u16_to_be(self.query_type.spec_code()));
        let ghost e2 = Encoding::of(u16_to_be(self.query_class.spec_code()));
        let ghost e3 = Encoding::of(u32_to_be(self.ttl));
        let ghost e4 = Encoding::of(u16_to_be(self.rdata_length));
        let ghost e5 = Encoding::of(self.rdata@);
        let ghost t5 = e5;
        let ghost t4 = e4.followed_by(t5);
        let ghost t3 = e3.followed_by(t4);
        let ghost t2 = e2.followed_by(t3);
        let ghost t1 = e1.followed_by(t2);
        proof {
            assert(t1.data =~= self@.fixed() + self@.rdata);
        }
        let r0 = smart_buf.write_qname(self.name.as_str());
        if r0.is_err() {
            proof {
                lemma_writes_stuck(&s0, name, &*smart_buf, r0, t1);
            }
            return r0;
        }
        let ghost s1 = *smart_buf;
        let ghost d1 = name.followed_by(e1);
        let r1 = smart_buf.write_u16(u16::from(self.query_type));
        proof {
            lemma_writes_part(&s0, name, &s1, e1, &*smart_buf, r1, t2);
        }
        if r1.is_err() {
            return r1;
        }
        let ghost s2 = *smart_buf;
        let ghost d2 = d1.followed_by(e2);
        let r2 = smart_buf.write_u16(u16::from(self.query_class));
        proof {
            lemma_writes_part(&s0, d1, &s2, e2, &*smart_buf, r2, t3);
            lemma_followed_by_assoc(name, e1, t2);
        }
        if r2.is_err() {
            return r2;
        }
        let ghost s3 = *smart_buf;
        let ghost d3 = d2.followed_by(e3);
        let r3 = smart_buf.write_u32(self.ttl);
        proof {
            lemma_writes_part(&s0, d2, &s3, e3, &*smart_buf, r3, t4);
            lemma_followed_by_assoc(d1, e2, t3);
        }
        if r3.is_err() {
            return r3;
        }
        let ghost s4 = *smart_buf;
        let ghost d4 = d3.followed_by(e4);
        let r4 = smart_buf.write_u16(self.rdata_length);
        proof {
            lemma_writes_part(&s0, d3, &s4, e4, &*smart_buf, r4, t5);
            lemma_followed_by_assoc(d2, e3, t4);
        }
        if r4.is_err() {
            return r4;
        }
        let ghost s5 = *smart_buf;
        let r5 = smart_buf.write_slice(self.rdata.as_slice());
        proof {
            lemma_writes_part(&s0, d4, &s5, e5, &*smart_buf, r5, Encoding::of(Seq::empty()));
            lemma_followed_by_assoc(d3, e4, t5);
        }
        r5
    }
}

} // verus!
