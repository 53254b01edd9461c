//! The twelve-byte header of a DNS message.

use crate::error::DnsError;
use crate::models::enums::{MessageType, OpCode, ResultCode};
use crate::smart_buffer::wire::{lemma_u16_round_trip, u16_from_be, u16_to_be, Encoding, Parse};
use crate::smart_buffer::{lemma_writes_piece, lemma_writes_stuck, SmartBuffer};
use vstd::prelude::*;

verus! {

/// The number of bytes of a header on the wire.
pub const HEADER_LEN: usize = 12;

/// The header of a message: its id, its flags and the four counts.
#[derive(Clone, Copy, Debug)]
pub struct Header {
    pub id: u16,
    pub message_type: MessageType,
    pub opcode: OpCode,
    pub authoritative_answer: bool,
    pub truncation: bool,
    pub recursion_desired: bool,
    pub recursion_available: bool,
    pub result_code: ResultCode,
    pub question_entities_count: u16,
    pub answer_entities_count: u16,
    pub authority_entities_count: u16,
    pub additional_entities_count: u16,
}

/// A flag as a bit: 1 if it is set, else 0.
pub open spec fn spec_bit(b: bool) -> u8 {
    if b {
        1
    } else {
        0
    }
}

/// A flag as a bit.
#[verifier::when_used_as_spec(spec_bit)]
pub fn bit(b: bool) -> (v: u8)
    ensures
        v == spec_bit(b),
{
    if b {
        1
    } else {
        0
    }
}

impl Header {
    /// The opcode fits its four bits and is the variant that its number stands
    /// for. Headers that were decoded or built are such.
    pub open spec fn wf(self) -> bool {
        &&& self.opcode.spec_code() < 16
        &&& self.opcode == OpCode::of_code(self.opcode.spec_code())
    }

    /// The first byte of the flags word: bit 7 the message type, bits 6 to 3
    /// the opcode, then authoritative-answer, truncation, recursion-desired.
    pub open spec fn flags_hi(self) -> u8 {
        bit(self.recursion_desired) | (bit(self.truncation) << 1) | (bit(
            self.authoritative_answer,
        ) << 2) | (self.opcode.spec_code() << 3) | (self.message_type.spec_code() << 7)
    }

    /// The second byte of the flags word: bit 7 recursion-available, three
    /// reserved bits that are zero, and the result code in the low four bits.
    pub open spec fn flags_lo(self) -> u8 {
        self.result_code.spec_code() | (bit(self.recursion_available) << 7)
    }

    /// The header on the wire.
    pub open spec fn encoding(self) -> Seq<u8> {
        u16_to_be(self.id) + seq![self.flags_hi(), self.flags_lo()] + u16_to_be(
            self.question_entities_count,
        ) + u16_to_be(self.answer_entities_count) + u16_to_be(self.authority_entities_count)
            + u16_to_be(self.additional_entities_count)
    }

    /// The result code that a flags word holds, if it holds one.
    pub open spec fn result_code_of(flags: u16) -> Result<ResultCode, DnsError> {
        ResultCode::of_code((flags & 0x0F) as u8)
    }

    /// The header that an id, a flags word with the given result code, and
    /// four counts stand for. The reserved bits 6 to 4 are ignored.
    pub open spec fn of_words(
        id: u16,
        flags: u16,
        result_code: ResultCode,
        counts: (u16, u16, u16, u16),
    ) -> Header {
        Header {
            id,
            message_type: if flags & 0x8000 != 0 {
                MessageType::Response
            } else {
                MessageType::Query
            },
            opcode: OpCode::of_code(((flags >> 11) & 0x0F) as u8),
            authoritative_answer: flags & 0x0400 != 0,
            truncation: flags & 0x0200 != 0,
            recursion_desired: flags & 0x0100 != 0,
            recursion_available: flags & 0x0080 != 0,
            result_code,
            question_entities_count: counts.0,
            answer_entities_count: counts.1,
            authority_entities_count: counts.2,
            additional_entities_count: counts.3,
        }
    }

    /// A header read at `at`: twelve bytes, unless the result code is above 5,
    /// which is found after four.
    pub open spec fn parse(buf: Seq<u8>, at: int) -> Parse<Header> {
        let flags = u16_from_be(buf[at + 2], buf[at + 3]);
        if at + 4 > buf.len() {
            Parse { value: Err(DnsError::BufferOverflow), cursor: buf.len() as int }
        } else if Self::result_code_of(flags) is Err {
            Parse { value: Err(DnsError::UnknownResultCode), cursor: at + 4 }
        } else if at + HEADER_LEN > buf.len() {
            Parse { value: Err(DnsError::BufferOverflow), cursor: buf.len() as int }
        } else {
            Parse {
                value: Ok(
                    Self::of_words(
                        u16_from_be(buf[at], buf[at + 1]),
                        flags,
                        Self::result_code_of(flags)->Ok_0,
                        (
                            u16_from_be(buf[at + 4], buf[at + 5]),
                            u16_from_be(buf[at + 6], buf[at + 7]),
                            u16_from_be(buf[at + 8], buf[at + 9]),
                            u16_from_be(buf[at + 10], buf[at + 11]),
                        ),
                    ),
                ),
                cursor: at + HEADER_LEN,
            }
        }
    }

    /// A header that was read is well-formed.
    pub proof fn lemma_of_words_wf(
        id: u16,
        flags: u16,
        result_code: ResultCode,
        counts: (u16, u16, u16, u16),
    )
        ensures
            Self::of_words(id, flags, result_code, counts).wf(),
    {
        assert((((flags >> 11) & 0x0F) as u8) < 16) by (bit_vector);
    }

    /// The flags word of a well-formed header holds its fields.
    pub proof fn lemma_flags_round_trip(self)
        requires
            self.wf(),
        ensures
            Self::result_code_of(u16_from_be(self.flags_hi(), self.flags_lo())) == Ok::<
                ResultCode,
                DnsError,
            >(self.result_code),
            Self::of_words(
                self.id,
                u16_from_be(self.flags_hi(), self.flags_lo()),
                self.result_code,
                (
                    self.question_entities_count,
                    self.answer_entities_count,
                    self.authority_entities_count,
                    self.additional_entities_count,
                ),
            ) == self,
    {
        let hi = self.flags_hi();
        let lo = self.flags_lo();
        let f = u16_from_be(hi, lo);
        let rd = bit(self.recursion_desired);
        let tc = bit(self.truncation);
        let aa = bit(self.authoritative_answer);
        let ra = bit(self.recursion_available);
        let op = self.opcode.spec_code();
        let qr = self.message_type.spec_code();
        let rc = self.result_code.spec_code();
        assert(((hi as u16) << 8) | (lo as u16) == (hi as int * 0x100 + lo as int) as u16)
            by (bit_vector);
        assert({
            &&& (f & 0x8000 != 0) == (qr == 1)
            &&& ((f >> 11) & 0x0F) as u8 == op
            &&& (f & 0x0400 != 0) == (aa == 1)
            &&& (f & 0x0200 != 0) == (tc == 1)
            &&& (f & 0x0100 != 0) == (rd == 1)
            &&& (f & 0x0080 != 0) == (ra == 1)
            &&& (f & 0x0F) as u8 == rc
        }) by (bit_vector)
            requires
                f == ((hi as u16) << 8) | (lo as u16),
                hi == rd | (tc << 1) | (aa << 2) | (op << 3) | (qr << 7),
                lo == rc | (ra << 7),
                rd <= 1,
                tc <= 1,
                aa <= 1,
                ra <= 1,
                qr <= 1,
                op < 16,
                rc <= 5,
        ;
    }

    /// Where the encoding of a well-formed header lies in a buffer, reading
    /// it there gives the header and ends behind it.
    pub proof fn lemma_round_trip(self, buf: Seq<u8>, at: int)
        requires
            self.wf(),
            0 <= at,
            at + HEADER_LEN <= buf.len(),
            buf.subrange(at, at + HEADER_LEN) == self.encoding(),
        ensures
            Self::parse(buf, at) == (Parse::<Header> { value: Ok(self), cursor: at + HEADER_LEN }),
    {
        let e = self.encoding();
        assert forall|i: int| 0 <= i < 12 implies buf[at + i] == e[i] by {
            assert(buf.subrange(at, at + HEADER_LEN)[i] == buf[at + i]);
        }
        self.lemma_flags_round_trip();
        lemma_u16_round_trip(self.id);
        lemma_u16_round_trip(self.question_entities_count);
        lemma_u16_round_trip(self.answer_entities_count);
        lemma_u16_round_trip(self.authority_entities_count);
        lemma_u16_round_trip(self.additional_entities_count);
        assert(buf[at + 0] == e[0] && buf[at + 1] == e[1] && buf[at + 2] == e[2] && buf[at + 3]
            == e[3] && buf[at + 4] == e[4] && buf[at + 5] == e[5] && buf[at + 6] == e[6] && buf[at
            + 7] == e[7] && buf[at + 8] == e[8] && buf[at + 9] == e[9] && buf[at + 10] == e[10]
            && buf[at + 11] == e[11]);
        assert(e[0] == u16_to_be(self.id)[0] && e[1] == u16_to_be(self.id)[1]);
        assert(e[2] == self.flags_hi() && e[3] == self.flags_lo());
        assert(e[4] == u16_to_be(self.question_entities_count)[0] && e[5] == u16_to_be(
            self.question_entities_count,
        )[1]);
        assert(e[6] == u16_to_be(self.answer_entities_count)[0] && e[7] == u16_to_be(
            self.answer_entities_count,
        )[1]);
        assert(e[8] == u16_to_be(self.authority_entities_count)[0] && e[9] == u16_to_be(
            self.authority_entities_count,
        )[1]);
        assert(e[10] == u16_to_be(self.additional_entities_count)[0] && e[11] == u16_to_be(
            self.additional_entities_count,
        )[1]);
    }

    /// Reads a header at the cursor.
    pub fn from_bytes(smart_buf: &mut SmartBuffer) -> (r: Result<Self, DnsError>)
        ensures
            old(smart_buf).reads(
                Self::parse(old(smart_buf).bytes(), old(smart_buf).cursor()),
                final(smart_buf),
                r,
            ),
            r is Ok ==> r->Ok_0.wf(),
    {
        let id = smart_buf.read_u16()?;

        let flags = smart_buf.read_u16()?;

        let message_type = if (flags & 0x8000) != 0 {
            MessageType::Response
        } else {
            MessageType::Query
        };
        let opcode = OpCode::from(((flags >> 11) & 0x0F) as u8);
        let authoritative_answer = (flags & 0x0400) != 0;
        let truncation = (flags & 0x0200) != 0;
        let recursion_desired = (flags & 0x0100) != 0;
        let recursion_available = (flags & 0x0080) != 0;
        let result_code = ResultCode::try_from((flags & 0x0F) as u8)?;

        let question_entities_count = smart_buf.read_u16()?;
        let answer_entities_count = smart_buf.read_u16()?;
        let authority_entities_count = smart_buf.read_u16()?;
        let additional_entities_count = smart_buf.read_u16()?;
        proof {
            Self::lemma_of_words_wf(
                id,
                flags,
                result_code,
                (
                    question_entities_count,
                    answer_entities_count,
                    authority_entities_count,
                    additional_entities_count,
                ),
            );
        }

        Ok(
            Self {
                id,
                message_type,
                opcode,
                authoritative_answer,
                truncation,
                recursion_desired,
                recursion_available,
                result_code,
                question_entities_count,
                answer_entities_count,
                authority_entities_count,
                additional_entities_count,
            },
        )
    }

    /// Writes the header at the cursor.
    pub fn to_bytes(&self, smart_buf: &mut SmartBuffer) -> (r: Result<(), DnsError>)
        ensures
            old(smart_buf).writes(Encoding::of(self.encoding()), final(smart_buf), r),
    {
        let ghost s0 = *smart_buf;
        let ghost whole = self.encoding();
        let ghost upto0 = u16_to_be(self.id);
        let r0 = smart_buf.write_u16(self.id);
        proof {
            assert(whole.subrange(0, 2) =~= upto0);
        }
        if r0.is_err() {
            proof {
                lemma_writes_stuck(&s0, Encoding::of(upto0), &*smart_buf, r0, Encoding::of(whole.subrange(2, 12)));
                assert(Encoding::of(upto0).followed_by(Encoding::of(whole.subrange(2, 12))).data =~= whole);
            }
            return r0;
        }
        let hi = bit(self.recursion_desired) | (bit(self.truncation) << 1) | (bit(
            self.authoritative_answer,
        ) << 2) | (u8::from(self.opcode) << 3) | (self.message_type.code() << 7);
        let ghost s1 = *smart_buf;
        let ghost upto1 = upto0 + seq![hi];
        let r1 = smart_buf.write_u8(hi);
        proof {
            assert(whole.subrange(0, 3) =~= upto1);
            lemma_writes_piece(&s0, upto0, &s1, seq![hi], &*smart_buf, r1, whole);
        }
        if r1.is_err() {
            return r1;
        }
        let lo = self.result_code.code() | (bit(self.recursion_available) << 7);
        let ghost s2 = *smart_buf;
        let ghost upto2 = upto1 + seq![lo];
        let r2 = smart_buf.write_u8(lo);
        proof {
            assert(whole.subrange(0, 4) =~= upto2);
            lemma_writes_piece(&s0, upto1, &s2, seq![lo], &*smart_buf, r2, whole);
        }
        if r2.is_err() {
            return r2;
        }
        let ghost s3 = *smart_buf;
        let ghost upto3 = upto2 + u16_to_be(self.question_entities_count);
        let r3 = smart_buf.write_u16(self.question_entities_count);
        proof {
            assert(whole.subrange(0, 6) =~= upto3);
            lemma_writes_piece(&s0, upto2, &s3, u16_to_be(self.question_entities_count), &*smart_buf, r3, whole);
        }
        if r3.is_err() {
            return r3;
        }
        let ghost s4 = *smart_buf;
        let ghost upto4 = upto3 + u16_to_be(self.answer_entities_count);
        let r4 = smart_buf.write_u16(self.answer_entities_count);
        proof {
            assert(whole.subrange(0, 8) =~= upto4);
            lemma_writes_piece(&s0, upto3, &s4, u16_to_be(self.answer_entities_count), &*smart_buf, r4, whole);
        }
        if r4.is_err() {
            return r4;
        }
        let ghost s5 = *smart_buf;
        let ghost upto5 = upto4 + u16_to_be(self.authority_entities_count);
        let r5 = smart_buf.write_u16(self.authority_entities_count);
        proof {
            assert(whole.subrange(0, 10) =~= upto5);
            lemma_writes_piece(&s0, upto4, &s5, u16_to_be(self.authority_entities_count), &*smart_buf, r5, whole);
        }
        if r5.is_err() {
            return r5;
        }
        let ghost s6 = *smart_buf;
        let r6 = smart_buf.write_u16(self.additional_entities_count);
        proof {
            assert(whole.subrange(0, 12) =~= upto5 + u16_to_be(self.additional_entities_count));
            assert(whole =~= upto5 + u16_to_be(self.additional_entities_count));
            lemma_writes_piece(&s0, upto5, &s6, u16_to_be(self.additional_entities_count), &*smart_buf, r6, whole);
        }
        r6
    }

    /// The number of questions that the header counts.
    pub fn question_entities_count(&self) -> (n: u16)
        ensures
            n == self.question_entities_count,
    {
        self.question_entities_count
    }

    /// The number of answers that the header counts.
    pub fn answer_entities_count(&self) -> (n: u16)
        ensures
            n == self.answer_entities_count,
    {
        self.answer_entities_count
    }

    /// The number of authority records that the header counts.
    pub fn authority_entities_count(&self) -> (n: u16)
        ensures
            n == self.authority_entities_count,
    {
        self.authority_entities_count
    }

    /// The number of additional records that the header counts.
    pub fn additional_entities_count(&self) -> (n: u16)
        ensures
            n == self.additional_entities_count,
    {
        self.additional_entities_count
    }
}

} // verus!
