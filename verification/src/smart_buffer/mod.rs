//! A cursor over a byte buffer, for reading and writing the primitives of the
//! DNS wire format.

pub mod text;
pub mod wire;

use crate::error::DnsError;
use crate::smart_buffer::text::{lowercase, utf8_lossy};
use crate::smart_buffer::wire::{
    labels_encoding, lemma_first_dot, name_encoding, name_from, parse_name, parse_slice, parse_u16, parse_u32,
    parse_u8, push_label, u16_to_be, u32_to_be, written, Encoding, Parse, DOT, MAX_JUMPS, MAX_LABEL_LEN,
};
use vstd::prelude::*;
use vstd::slice::slice_subrange;
use vstd::string::StringExecFns;
use vstd::utf8::encode_utf8;

verus! {

/// A byte buffer with a cursor: reads and writes start at the cursor and
/// move it on.
pub struct SmartBuffer {
    buf: Vec<u8>,
    pos: usize,
}

impl SmartBuffer {
    /// The cursor never lies behind the end of the buffer.
    #[verifier::type_invariant]
    spec fn in_bounds(&self) -> bool {
        self.pos <= self.buf.len()
    }

    /// The bytes of the buffer.
    pub closed spec fn bytes(&self) -> Seq<u8> {
        self.buf@
    }

    /// The position of the next read or write.
    pub closed spec fn cursor(&self) -> int {
        self.pos as int
    }

    /// The cursor is a position.
    pub proof fn lemma_cursor_not_negative(&self)
        ensures
            0 <= self.cursor(),
    {
    }

    /// This buffer has become `after` by a read that returned `r`, as `p` describes it.
    pub open spec fn reads<T>(&self, p: Parse<T>, after: &SmartBuffer, r: Result<T, DnsError>) -> bool {
        &&& after.bytes() == self.bytes()
        &&& after.cursor() == p.cursor
        &&& r == p.value
    }

    /// As `reads`, for a value that is described by its view.
    pub open spec fn reads_view<T: View>(
        &self,
        p: Parse<T::V>,
        after: &SmartBuffer,
        r: Result<T, DnsError>,
    ) -> bool {
        &&& after.bytes() == self.bytes()
        &&& after.cursor() == p.cursor
        &&& match p.value {
            Ok(v) => r is Ok && r->Ok_0@ == v,
            Err(e) => r == Err::<T, DnsError>(e),
        }
    }

    /// This buffer has become `after` by a write of `e` that returned `r`: what
    /// fits of the data is in the buffer, and the write succeeded if all of it
    /// did and the encoder did not give up.
    pub open spec fn writes(&self, e: Encoding, after: &SmartBuffer, r: Result<(), DnsError>) -> bool {
        &&& after.bytes() == written(self.bytes(), self.cursor(), e.data)
        &&& after.cursor() == if self.cursor() + e.data.len() <= self.bytes().len() {
            self.cursor() + e.data.len()
        } else {
            self.bytes().len() as int
        }
        &&& r == if self.cursor() + e.data.len() > self.bytes().len() {
            Err::<(), DnsError>(DnsError::BufferOverflow)
        } else if !e.complete {
            Err(DnsError::LabelTooLong)
        } else {
            Ok(())
        }
    }

    /// A buffer with the cursor at its start.
    pub fn new(buf: Vec<u8>) -> (sb: Self)
        ensures
            sb.bytes() == buf@,
            sb.cursor() == 0,
    {
        Self { buf, pos: 0 }
    }

    /// Where the cursor stands: at a position of the buffer or at its end.
    pub fn position(&self) -> (pos: usize)
        ensures
            pos == self.cursor(),
            pos <= self.bytes().len(),
    {
        proof {
            use_type_invariant(self);
        }
        self.pos
    }

    /// Gives the buffer back.
    pub fn into_inner(self) -> (buf: Vec<u8>)
        ensures
            buf@ == self.bytes(),
    {
        self.buf
    }

    fn get(&self, pos: usize) -> (r: Result<u8, DnsError>)
        ensures
            r == parse_u8(self.bytes(), pos as int).value,
    {
        if pos < self.buf.len() {
            Ok(self.buf[pos])
        } else {
            Err(DnsError::BufferOverflow)
        }
    }

    /// The `len` bytes from `start` on, where they lie in the buffer.
    fn get_slice(&self, start: usize, len: usize) -> (r: Result<&[u8], DnsError>)
        ensures
            start + len <= self.bytes().len() ==> r is Ok && r->Ok_0@ == self.bytes().subrange(
                start as int,
                start + len,
            ),
            start + len > self.bytes().len() ==> r == Err::<&[u8], DnsError>(
                DnsError::BufferOverflow,
            ),
    {
        if start > self.buf.len() || len > self.buf.len() - start {
            return Err(DnsError::BufferOverflow);
        }
        Ok(slice_subrange(self.buf.as_slice(), start, start + len))
    }

    fn next_byte(&mut self) -> (r: Result<u8, DnsError>)
        ensures
            old(self).reads(parse_u8(old(self).bytes(), old(self).cursor()), final(self), r),
    {
        if self.pos < self.buf.len() {
            let byte = self.buf[self.pos];
            self.pos += 1;
            Ok(byte)
        } else {
            Err(DnsError::BufferOverflow)
        }
    }

    /// Moves the cursor to a position of the buffer or to its end.
    fn seek(&mut self, pos: usize) -> (r: Result<(), DnsError>)
        ensures
            final(self).bytes() == old(self).bytes(),
            pos <= old(self).bytes().len() ==> r is Ok && final(self).cursor() == pos,
            pos > old(self).bytes().len() ==> r == Err::<(), DnsError>(DnsError::BufferOverflow)
                && final(self).cursor() == old(self).cursor(),
    {
        if pos > self.buf.len() {
            return Err(DnsError::BufferOverflow);
        }
        self.pos = pos;
        Ok(())
    }

    /// Reads a big-endian `u16`.
    pub fn read_u16(&mut self) -> (r: Result<u16, DnsError>)
        ensures
            old(self).reads(parse_u16(old(self).bytes(), old(self).cursor()), final(self), r),
    {
        proof {
            use_type_invariant(&*self);
        }
        let b0 = self.next_byte()?;
        let b1 = self.next_byte()?;
        assert(((b0 as u16) << 8) | (b1 as u16) == (b0 as int * 0x100 + b1 as int) as u16)
            by (bit_vector);
        Ok(((b0 as u16) << 8) | (b1 as u16))
    }

    /// Reads a big-endian `u32`.
    pub fn read_u32(&mut self) -> (r: Result<u32, DnsError>)
        ensures
            old(self).reads(parse_u32(old(self).bytes(), old(self).cursor()), final(self), r),
    {
        proof {
            use_type_invariant(&*self);
        }
        let b0 = self.next_byte()?;
        let b1 = self.next_byte()?;
        let b2 = self.next_byte()?;
        let b3 = self.next_byte()?;
        assert(((b0 as u32) << 24) | ((b1 as u32) << 16) | ((b2 as u32) << 8) | (b3 as u32) == (b0
            as int * 0x100_0000 + b1 as int * 0x1_0000 + b2 as int * 0x100 + b3 as int) as u32)
            by (bit_vector);
        Ok(((b0 as u32) << 24) | ((b1 as u32) << 16) | ((b2 as u32) << 8) | (b3 as u32))
    }

    /// Reads `len` raw bytes.
    pub fn read_slice(&mut self, len: usize) -> (r: Result<Vec<u8>, DnsError>)
        ensures
            old(self).reads_view(
                parse_slice(old(self).bytes(), old(self).cursor(), len as int),
                final(self),
                r,
            ),
    {
        proof {
            use_type_invariant(&*self);
        }
        if len > self.buf.len() - self.pos {
            return Err(DnsError::BufferOverflow);
        }
        let res = vstd::slice::slice_to_vec(
            slice_subrange(self.buf.as_slice(), self.pos, self.pos + len),
        );
        self.pos += len;
        Ok(res)
    }

    fn write_byte(&mut self, byte: u8) -> (r: Result<(), DnsError>)
        ensures
            old(self).writes(Encoding::of(seq![byte]), final(self), r),
    {
        proof {
            use_type_invariant(&*self);
        }
        if self.pos >= self.buf.len() {
            assert(self.buf@ =~= written(self.buf@, self.pos as int, seq![byte]));
            return Err(DnsError::BufferOverflow);
        }
        self.buf[self.pos] = byte;
        self.pos += 1;
        assert(self.buf@ =~= written(old(self).buf@, old(self).pos as int, seq![byte]));
        Ok(())
    }

    /// Writes one byte.
    pub fn write_u8(&mut self, val: u8) -> (r: Result<(), DnsError>)
        ensures
            old(self).writes(Encoding::of(seq![val]), final(self), r),
    {
        self.write_byte(val)?;
        Ok(())
    }

    /// Writes a `u16` big-endian.
    pub fn write_u16(&mut self, val: u16) -> (r: Result<(), DnsError>)
        ensures
            old(self).writes(Encoding::of(u16_to_be(val)), final(self), r),
    {
        let b0 = (val >> 8) as u8;
        let b1 = (val & 0xFF) as u8;
        assert(b0 == (val as int / 0x100) as u8 && b1 == (val as int % 0x100) as u8) by {
            assert((val >> 8) as u8 == (val / 0x100) as u8 && (val & 0xFF) as u8 == (val % 0x100)
                as u8) by (bit_vector);
        }
        let ghost e0 = Encoding::of(seq![b0]);
        let ghost e1 = Encoding::of(seq![b1]);
        assert(e0.followed_by(e1).data =~= u16_to_be(val));
        let ghost s0 = *self;
        if let Err(e) = self.write_byte(b0) {
            proof {
                lemma_writes_stuck(&s0, e0, &*self, Err(e), e1);
            }
            return Err(e);
        }
        let ghost s1 = *self;
        let r = self.write_byte(b1);
        proof {
            lemma_writes_then(&s0, e0, &s1, e1, &*self, r);
        }
        r
    }

    /// Writes a `u32` big-endian.
    pub fn write_u32(&mut self, val: u32) -> (r: Result<(), DnsError>)
        ensures
            old(self).writes(Encoding::of(u32_to_be(val)), final(self), r),
    {
        let hi = (val >> 16) as u16;
        let lo = (val & 0xFFFF) as u16;
        assert(u16_to_be(hi) + u16_to_be(lo) =~= u32_to_be(val)) by {
            assert(((val >> 16) as u16 / 0x100) as u8 == (val / 0x100_0000) as u8 && ((val >> 16)
                as u16 % 0x100) as u8 == (val / 0x1_0000 % 0x100) as u8 && ((val & 0xFFFF) as u16
                / 0x100) as u8 == (val / 0x100 % 0x100) as u8 && ((val & 0xFFFF) as u16 % 0x100)
                as u8 == (val % 0x100) as u8) by (bit_vector);
        }
        let ghost e0 = Encoding::of(u16_to_be(hi));
        let ghost e1 = Encoding::of(u16_to_be(lo));
        let ghost s0 = *self;
        if let Err(e) = self.write_u16(hi) {
            proof {
                lemma_writes_stuck(&s0, e0, &*self, Err(e), e1);
            }
            return Err(e);
        }
        let ghost s1 = *self;
        let r = self.write_u16(lo);
        proof {
            lemma_writes_then(&s0, e0, &s1, e1, &*self, r);
        }
        r
    }

    /// Writes raw bytes, as many as fit.
    pub fn write_slice(&mut self, slice: &[u8]) -> (r: Result<(), DnsError>)
        ensures
            old(self).writes(Encoding::of(slice@), final(self), r),
    {
        let ghost s0 = *self;
        let mut i: usize = 0;
        proof {
            use_type_invariant(&*self);
            assert(self.bytes() =~= written(s0.bytes(), s0.cursor(), slice@.take(0)));
        }
        while i < slice.len()
            invariant
                i <= slice.len(),
                s0 == *old(self),
                s0.writes(Encoding::of(slice@.take(i as int)), &*self, Ok(())),
            decreases slice.len() - i,
        {
            let ghost s1 = *self;
            let ghost done = Encoding::of(slice@.take(i as int));
            let ghost next = Encoding::of(seq![slice@[i as int]]);
            let r = self.write_byte(slice[i]);
            proof {
                lemma_writes_then(&s0, done, &s1, next, &*self, r);
                assert(done.followed_by(next).data =~= slice@.take(i + 1));
            }
            if let Err(e) = r {
                proof {
                    let rest = Encoding::of(slice@.skip(i + 1));
                    lemma_writes_stuck(&s0, done.followed_by(next), &*self, r, rest);
                    assert(done.followed_by(next).followed_by(rest).data =~= slice@);
                }
                return Err(e);
            }
            i += 1;
        }
        assert(slice@.take(i as int) =~= slice@);
        Ok(())
    }

    /// Writes a name given in text form, label by label, without compression.
    /// The empty name is written as the zero byte alone.
    pub fn write_qname(&mut self, qname: &str) -> (r: Result<(), DnsError>)
        ensures
            old(self).writes(name_encoding(encode_utf8(qname@)), final(self), r),
    {
        let bytes = qname.as_bytes();
        if bytes.len() == 0 {
            return self.write_u8(0);
        }
        let ghost s0 = *self;
        let ghost whole = labels_encoding(bytes@);
        let ghost mut done: Seq<u8> = Seq::empty();
        let mut start: usize = 0;
        proof {
            use_type_invariant(&*self);
            assert(self.bytes() =~= written(s0.bytes(), s0.cursor(), done));
            assert(bytes@.skip(0) =~= bytes@);
            assert(Encoding::of(done).followed_by(whole).data =~= whole.data);
        }
        loop
            invariant
                s0 == *old(self),
                bytes@ == encode_utf8(qname@),
                bytes.len() > 0,
                whole == labels_encoding(bytes@),
                start <= bytes.len(),
                s0.writes(Encoding::of(done), &*self, Ok(())),
                whole == Encoding::of(done).followed_by(labels_encoding(bytes@.skip(start as int))),
            decreases bytes.len() - start,
        {
            let mut end = start;
            while end < bytes.len() && bytes[end] != DOT
                invariant
                    start <= end <= bytes.len(),
                    forall|k: int| start <= k < end ==> bytes@[k] != DOT,
                decreases bytes.len() - end,
            {
                end += 1;
            }
            let len = end - start;
            let ghost rest = bytes@.skip(start as int);
            proof {
                lemma_first_dot(rest, len as int);
            }
            if len > MAX_LABEL_LEN {
                assert(whole.data =~= done);
                return Err(DnsError::LabelTooLong);
            }
            let ghost head = Encoding::of(seq![len as u8]);
            let ghost label = Encoding::of(rest.take(len as int));
            let ghost tail = if end >= bytes.len() {
                Encoding::of(seq![0u8])
            } else {
                labels_encoding(rest.skip(len + 1))
            };
            let ghost so_far = Encoding::of(done).followed_by(head);
            assert(whole == so_far.followed_by(label.followed_by(tail))) by {
                assert(whole.data =~= so_far.followed_by(label.followed_by(tail)).data);
            }
            assert(whole == so_far.followed_by(label).followed_by(tail)) by {
                assert(whole.data =~= so_far.followed_by(label).followed_by(tail).data);
            }
            let ghost s1 = *self;
            let r1 = self.write_u8(len as u8);
            proof {
                lemma_writes_then(&s0, Encoding::of(done), &s1, head, &*self, r1);
            }
            if let Err(e) = r1 {
                proof {
                    lemma_writes_stuck(&s0, so_far, &*self, r1, label.followed_by(tail));
                }
                return Err(e);
            }
            let ghost s2 = *self;
            let r2 = self.write_slice(slice_subrange(bytes, start, end));
            proof {
                assert(bytes@.subrange(start as int, end as int) =~= rest.take(len as int));
                lemma_writes_then(&s0, so_far, &s2, label, &*self, r2);
            }
            if let Err(e) = r2 {
                proof {
                    lemma_writes_stuck(&s0, so_far.followed_by(label), &*self, r2, tail);
                }
                return Err(e);
            }
            proof {
                done = so_far.followed_by(label).data;
            }
            if end >= bytes.len() {
                let ghost s3 = *self;
                let r3 = self.write_u8(0);
                proof {
                    lemma_writes_then(&s0, Encoding::of(done), &s3, tail, &*self, r3);
                }
                return r3;
            }
            start = end + 1;
            assert(rest.skip(len + 1) =~= bytes@.skip(start as int));
        }
    }

    /// Reads a name, following compression pointers, and gives it in text
    /// form: the labels lower-cased and joined by dots.
    pub fn read_qname(&mut self) -> (r: Result<String, DnsError>)
        ensures
            old(self).reads_view(
                parse_name(old(self).bytes(), old(self).cursor()),
                final(self),
                r,
            ),
    {
        let ghost s0 = *self;
        let mut result = String::new();
        let mut pos = self.pos;
        let mut jumps_cnt: usize = 0;
        loop
            invariant
                s0 == *old(self),
                self.bytes() == s0.bytes(),
                jumps_cnt <= MAX_JUMPS + 1,
                name_from(s0.bytes(), pos as int, self.cursor(), jumps_cnt as nat, result@)
                    == parse_name(s0.bytes(), s0.cursor()),
            decreases MAX_JUMPS + 1 - jumps_cnt, self.buf.len() - pos,
        {
            if jumps_cnt > MAX_JUMPS {
                return Err(DnsError::NameLoop);
            }
            let len = self.get(pos)?;
            if (len & 0xC0) == 0xC0 {
                assert(len >= 0xC0) by (bit_vector)
                    requires
                        len & 0xC0 == 0xC0,
                ;
                if jumps_cnt == 0 {
                    match (pos + 1).checked_add(1) {
                        Some(behind) => self.seek(behind)?,
                        None => {
                            return Err(DnsError::BufferOverflow);
                        },
                    }
                }
                let lo = self.get(pos + 1)?;
                assert(((((len as u16) ^ 0xC0) << 8) | (lo as u16)) == (len as int - 0xC0) * 0x100
                    + lo as int) by (bit_vector)
                    requires
                        len >= 0xC0,
                ;
                pos = ((((len as u16) ^ 0xC0) << 8) | (lo as u16)) as usize;
                jumps_cnt += 1;
            } else {
                assert(len < 0xC0) by (bit_vector)
                    requires
                        len & 0xC0 != 0xC0,
                ;
                if len == 0 {
                    if jumps_cnt == 0 {
                        self.seek(pos + 1)?;
                    }
                    return Ok(result);
                }
                if len as usize > MAX_LABEL_LEN {
                    return Err(DnsError::BufferOverflow);
                }
                let label = self.get_slice(pos + 1, len as usize)?;
                let text = lowercase(utf8_lossy(label).as_str());
                let ghost name = result@;
                if !result.as_str().is_empty() {
                    result.append(".");
                }
                result.append(text.as_str());
                proof {
                    reveal_strlit(".");
                    assert("."@ =~= seq!['.']);
                    assert(result@ =~= push_label(name, text@));
                }
                pos += 1 + len as usize;
            }
        }
    }
}

/// A write followed by a second one is one write of both encodings.
pub proof fn lemma_writes_then(
    s0: &SmartBuffer,
    e1: Encoding,
    s1: &SmartBuffer,
    e2: Encoding,
    s2: &SmartBuffer,
    r2: Result<(), DnsError>,
)
    requires
        s0.writes(e1, s1, Ok(())),
        s1.writes(e2, s2, r2),
    ensures
        s0.writes(e1.followed_by(e2), s2, r2),
{
    assert(s2.bytes() =~= written(s0.bytes(), s0.cursor(), e1.data + e2.data));
}

/// A write that failed has done all that a longer one would have done.
pub proof fn lemma_writes_stuck(
    s0: &SmartBuffer,
    e1: Encoding,
    s1: &SmartBuffer,
    r1: Result<(), DnsError>,
    e2: Encoding,
)
    requires
        s0.writes(e1, s1, r1),
        r1 is Err,
    ensures
        s0.writes(e1.followed_by(e2), s1, r1),
{
    assert(s1.bytes() =~= written(s0.bytes(), s0.cursor(), e1.followed_by(e2).data));
}

/// One more part of an encoding is written: if it went in, the parts so far are
/// in; if it did not, the write of all parts has failed in the same way.
pub proof fn lemma_writes_part(
    s0: &SmartBuffer,
    done: Encoding,
    s1: &SmartBuffer,
    part: Encoding,
    s2: &SmartBuffer,
    r: Result<(), DnsError>,
    rest: Encoding,
)
    requires
        s0.writes(done, s1, Ok(())),
        s1.writes(part, s2, r),
    ensures
        r is Ok ==> s0.writes(done.followed_by(part), s2, Ok(())),
        r is Err ==> s0.writes(done.followed_by(part).followed_by(rest), s2, r),
        r is Err ==> s0.writes(done.followed_by(part.followed_by(rest)), s2, r),
{
    lemma_writes_then(s0, done, s1, part, s2, r);
    if r is Err {
        lemma_writes_stuck(s0, done.followed_by(part), s2, r, rest);
        lemma_followed_by_assoc(done, part, rest);
    }
}

/// It does not matter how a chain of encodings is bracketed.
pub proof fn lemma_followed_by_assoc(a: Encoding, b: Encoding, c: Encoding)
    ensures
        a.followed_by(b).followed_by(c) == a.followed_by(b.followed_by(c)),
{
    assert(a.followed_by(b).followed_by(c).data =~= a.followed_by(b.followed_by(c)).data);
}

/// One more piece of `whole` is written: if it went in, the pieces so far are
/// in; if it did not, the write of `whole` has failed in the same way.
pub proof fn lemma_writes_piece(
    s0: &SmartBuffer,
    done: Seq<u8>,
    s1: &SmartBuffer,
    piece: Seq<u8>,
    s2: &SmartBuffer,
    r: Result<(), DnsError>,
    whole: Seq<u8>,
)
    requires
        s0.writes(Encoding::of(done), s1, Ok(())),
        s1.writes(Encoding::of(piece), s2, r),
        done.len() + piece.len() <= whole.len(),
        whole.subrange(0, (done.len() + piece.len()) as int) == done + piece,
    ensures
        r is Ok ==> s0.writes(Encoding::of(done + piece), s2, Ok(())),
        r is Err ==> s0.writes(Encoding::of(whole), s2, r),
{
    lemma_writes_then(s0, Encoding::of(done), s1, Encoding::of(piece), s2, r);
    if r is Err {
        let n = (done.len() + piece.len()) as int;
        let rest = Encoding::of(whole.subrange(n, whole.len() as int));
        lemma_writes_stuck(s0, Encoding::of(done + piece), s2, r, rest);
        assert(Encoding::of(done + piece).followed_by(rest).data =~= whole) by {
            assert(whole =~= whole.subrange(0, n) + whole.subrange(n, whole.len() as int));
        }
    }
}

} // verus!
