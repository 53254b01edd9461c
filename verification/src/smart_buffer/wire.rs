//! The wire format of the primitives, as functions on byte sequences.

use crate::error::DnsError;
use crate::smart_buffer::text::label_text;
use vstd::prelude::*;

verus! {

/// The outcome of a read that starts at some position of a buffer: the value
/// or the error, and where the cursor is left.
pub struct Parse<T> {
    pub value: Result<T, DnsError>,
    pub cursor: int,
}

/// What an encoder tries to put on the wire. `data` are the bytes it hands to
/// the buffer, in order; `complete` is false when it gave up on a label that is
/// too long, after having handed over `data`.
pub struct Encoding {
    pub data: Seq<u8>,
    pub complete: bool,
}

impl Encoding {
    /// An encoding that cannot give up.
    pub open spec fn of(data: Seq<u8>) -> Encoding {
        Encoding { data, complete: true }
    }

    /// This encoding followed by `next`, which is not reached if this one gave up.
    pub open spec fn followed_by(self, next: Encoding) -> Encoding {
        if self.complete {
            Encoding { data: self.data + next.data, complete: next.complete }
        } else {
            self
        }
    }
}

/// The buffer after `data` was written from position `at` on, as far as it fits.
pub open spec fn written(buf: Seq<u8>, at: int, data: Seq<u8>) -> Seq<u8> {
    Seq::new(
        buf.len(),
        |i: int|
            if at <= i < at + data.len() {
                data[i - at]
            } else {
                buf[i]
            },
    )
}

/// The number that two bytes hold, the high byte first.
pub open spec fn u16_from_be(b0: u8, b1: u8) -> u16 {
    (b0 as int * 0x100 + b1 as int) as u16
}

/// The number that four bytes hold, the high byte first.
pub open spec fn u32_from_be(b0: u8, b1: u8, b2: u8, b3: u8) -> u32 {
    (b0 as int * 0x100_0000 + b1 as int * 0x1_0000 + b2 as int * 0x100 + b3 as int) as u32
}

/// The two bytes of a number, the high byte first.
pub open spec fn u16_to_be(v: u16) -> Seq<u8> {
    seq![(v as int / 0x100) as u8, (v as int % 0x100) as u8]
}

/// The four bytes of a number, the high byte first.
pub open spec fn u32_to_be(v: u32) -> Seq<u8> {
    seq![
        (v as int / 0x100_0000) as u8,
        (v as int / 0x1_0000 % 0x100) as u8,
        (v as int / 0x100 % 0x100) as u8,
        (v as int % 0x100) as u8,
    ]
}

/// One byte at `at`.
pub open spec fn parse_u8(buf: Seq<u8>, at: int) -> Parse<u8> {
    if at < buf.len() {
        Parse { value: Ok(buf[at]), cursor: at + 1 }
    } else {
        Parse { value: Err(DnsError::BufferOverflow), cursor: at }
    }
}

/// A big-endian `u16` at `at`. A failed read has consumed what was left.
pub open spec fn parse_u16(buf: Seq<u8>, at: int) -> Parse<u16> {
    if at + 2 <= buf.len() {
        Parse { value: Ok(u16_from_be(buf[at], buf[at + 1])), cursor: at + 2 }
    } else {
        Parse { value: Err(DnsError::BufferOverflow), cursor: buf.len() as int }
    }
}

/// A big-endian `u32` at `at`. A failed read has consumed what was left.
pub open spec fn parse_u32(buf: Seq<u8>, at: int) -> Parse<u32> {
    if at + 4 <= buf.len() {
        Parse {
            value: Ok(u32_from_be(buf[at], buf[at + 1], buf[at + 2], buf[at + 3])),
            cursor: at + 4,
        }
    } else {
        Parse { value: Err(DnsError::BufferOverflow), cursor: buf.len() as int }
    }
}

/// `len` raw bytes at `at`. A failed read has consumed nothing.
pub open spec fn parse_slice(buf: Seq<u8>, at: int, len: int) -> Parse<Seq<u8>> {
    if at + len <= buf.len() {
        Parse { value: Ok(buf.subrange(at, at + len)), cursor: at + len }
    } else {
        Parse { value: Err(DnsError::BufferOverflow), cursor: at }
    }
}

/// The byte that separates the labels of a name in its text form.
pub const DOT: u8 = 0x2E;

/// The longest label that can be written or read.
pub const MAX_LABEL_LEN: usize = 63;

/// How many compression pointers one name may follow.
pub const MAX_JUMPS: usize = 10;

/// The length of the first label of a name in text form: the number of bytes
/// before the first dot.
pub open spec fn first_dot(name: Seq<u8>) -> nat
    decreases name.len(),
{
    if name.len() == 0 || name[0] == DOT {
        0
    } else {
        1 + first_dot(name.skip(1))
    }
}

/// The labels of a name on the wire: each dot-delimited label as its length
/// and its bytes, then a zero byte. The encoder gives up before the first
/// label of more than 63 bytes.
pub open spec fn labels_encoding(name: Seq<u8>) -> Encoding
    decreases name.len(),
{
    let n = first_dot(name);
    if n > MAX_LABEL_LEN {
        Encoding { data: Seq::empty(), complete: false }
    } else {
        let label = Encoding::of(seq![n as u8] + name.take(n as int));
        if n >= name.len() {
            label.followed_by(Encoding::of(seq![0u8]))
        } else {
            label.followed_by(labels_encoding(name.skip(n as int + 1)))
        }
    }
}

/// A name on the wire. The empty name, the root, has no label and is the
/// zero byte alone; any other name is its labels and the zero byte. Nothing
/// is compressed.
pub open spec fn name_encoding(name: Seq<u8>) -> Encoding {
    if name.len() == 0 {
        Encoding::of(seq![0u8])
    } else {
        labels_encoding(name)
    }
}

/// The text of a name with one more label at its end.
pub open spec fn push_label(name: Seq<char>, label: Seq<char>) -> Seq<char> {
    if name.len() == 0 {
        label
    } else {
        name + seq!['.'] + label
    }
}

/// The offset that a compression pointer holds in its two bytes.
pub open spec fn pointer_target(b0: u8, b1: u8) -> int {
    (b0 as int - 0xC0) * 0x100 + b1 as int
}

/// Reads on in a name. `pos` is where the next length byte lies, `cursor`
/// where the buffer's cursor stands, `jumps` how many pointers were followed
/// and `name` the text of the labels read so far.
///
/// A length byte of 192 or more starts a pointer of two bytes. The first
/// pointer of a name moves the cursor behind itself. A length byte from 64 to
/// 191 is refused. Without a pointer, the cursor ends behind the closing zero
/// byte. Every byte that is read has to lie in the buffer, and nothing else is
/// asked of the buffer: a name may end with its last byte.
pub open spec fn name_from(buf: Seq<u8>, pos: int, cursor: int, jumps: nat, name: Seq<char>) -> Parse<
    Seq<char>,
>
    decreases MAX_JUMPS + 1 - jumps, buf.len() - pos,
{
    if jumps > MAX_JUMPS {
        Parse { value: Err(DnsError::NameLoop), cursor }
    } else if !(0 <= pos < buf.len()) {
        Parse { value: Err(DnsError::BufferOverflow), cursor }
    } else if buf[pos] >= 0xC0 {
        if pos + 1 >= buf.len() {
            Parse { value: Err(DnsError::BufferOverflow), cursor }
        } else {
            name_from(
                buf,
                pointer_target(buf[pos], buf[pos + 1]),
                if jumps == 0 {
                    pos + 2
                } else {
                    cursor
                },
                jumps + 1,
                name,
            )
        }
    } else if buf[pos] == 0 {
        if jumps > 0 {
            Parse { value: Ok(name), cursor }
        } else {
            Parse { value: Ok(name), cursor: pos + 1 }
        }
    } else if buf[pos] > MAX_LABEL_LEN || pos + 1 + buf[pos] > buf.len() {
        Parse { value: Err(DnsError::BufferOverflow), cursor }
    } else {
        name_from(
            buf,
            pos + 1 + buf[pos],
            cursor,
            jumps,
            push_label(name, label_text(buf.subrange(pos + 1, pos + 1 + buf[pos]))),
        )
    }
}

/// A name read at `at`: its labels lower-cased and joined by dots.
pub open spec fn parse_name(buf: Seq<u8>, at: int) -> Parse<Seq<char>> {
    name_from(buf, at, at, 0, Seq::empty())
}

/// Reading two bytes that were written for a number gives the number.
pub proof fn lemma_u16_round_trip(v: u16)
    ensures
        u16_to_be(v).len() == 2,
        u16_from_be(u16_to_be(v)[0], u16_to_be(v)[1]) == v,
{
}

/// Reading four bytes that were written for a number gives the number.
pub proof fn lemma_u32_round_trip(v: u32)
    ensures
        u32_to_be(v).len() == 4,
        u32_from_be(u32_to_be(v)[0], u32_to_be(v)[1], u32_to_be(v)[2], u32_to_be(v)[3]) == v,
{
}

/// A name that consists of a pointer to itself is refused as a loop: the
/// pointer is followed eleven times and no further.
pub proof fn lemma_self_pointer_is_loop(buf: Seq<u8>, at: int)
    requires
        0 <= at,
        at + 2 <= buf.len(),
        buf[at] >= 0xC0,
        pointer_target(buf[at], buf[at + 1]) == at,
    ensures
        parse_name(buf, at) == (Parse::<Seq<char>> {
            value: Err(DnsError::NameLoop),
            cursor: at + 2,
        }),
{
    reveal_with_fuel(name_from, 13);
}

/// A read that has one pointer more behind it ends as the read without it,
/// where that one succeeds, unless it runs out of pointers.
pub proof fn lemma_one_more_jump(
    buf: Seq<u8>,
    pos: int,
    cursor: int,
    other_cursor: int,
    jumps: nat,
    name: Seq<char>,
)
    requires
        name_from(buf, pos, cursor, jumps, name).value is Ok,
    ensures
        name_from(buf, pos, other_cursor, jumps + 1, name).value == name_from(
            buf,
            pos,
            cursor,
            jumps,
            name,
        ).value || name_from(buf, pos, other_cursor, jumps + 1, name).value == Err::<
            Seq<char>,
            DnsError,
        >(DnsError::NameLoop),
        name_from(buf, pos, other_cursor, jumps + 1, name).cursor == other_cursor,
    decreases MAX_JUMPS + 1 - jumps, buf.len() - pos,
{
    if jumps + 1 > MAX_JUMPS {
    } else if buf[pos] >= 0xC0 {
        lemma_one_more_jump(
            buf,
            pointer_target(buf[pos], buf[pos + 1]),
            if jumps == 0 {
                pos + 2
            } else {
                cursor
            },
            other_cursor,
            jumps + 1,
            name,
        );
    } else if buf[pos] == 0 {
    } else {
        lemma_one_more_jump(
            buf,
            pos + 1 + buf[pos],
            cursor,
            other_cursor,
            jumps,
            push_label(name, label_text(buf.subrange(pos + 1, pos + 1 + buf[pos]))),
        );
    }
}

/// A name that is written as a pointer reads as the name that the pointer
/// points to, where that name can be read, unless the two together follow
/// more than ten pointers. The cursor ends behind the pointer.
pub proof fn lemma_pointer_reads_target(buf: Seq<u8>, at: int)
    requires
        0 <= at,
        at + 2 <= buf.len(),
        buf[at] >= 0xC0,
        parse_name(buf, pointer_target(buf[at], buf[at + 1])).value is Ok,
    ensures
        parse_name(buf, at).value == parse_name(buf, pointer_target(buf[at], buf[at + 1])).value
            || parse_name(buf, at).value == Err::<Seq<char>, DnsError>(DnsError::NameLoop),
        parse_name(buf, at).cursor == at + 2,
{
    let target = pointer_target(buf[at], buf[at + 1]);
    lemma_one_more_jump(buf, target, target, at + 2, 0, Seq::empty());
}

/// Every label of a name in text form, which has a label, has from 1 to 63
/// bytes.
pub open spec fn each_label_fits(name: Seq<u8>) -> bool
    decreases name.len(),
{
    let n = first_dot(name);
    1 <= n <= MAX_LABEL_LEN && (n >= name.len() || each_label_fits(name.skip(n as int + 1)))
}

/// The name is the empty one, or every label of it has from 1 to 63 bytes.
pub open spec fn labels_fit(name: Seq<u8>) -> bool {
    name.len() == 0 || each_label_fits(name)
}

/// The text that reading makes of the written labels of a name, after the
/// labels in `so_far`: each label as `label_text` gives it, joined by dots.
pub open spec fn canonical_from(name: Seq<u8>, so_far: Seq<char>) -> Seq<char>
    decreases name.len(),
{
    let n = first_dot(name);
    let with_label = push_label(so_far, label_text(name.take(n as int)));
    if n >= name.len() {
        with_label
    } else {
        canonical_from(name.skip(n as int + 1), with_label)
    }
}

/// The text that reading makes of a written name, given in bytes.
pub open spec fn canonical_text(name: Seq<u8>) -> Seq<char> {
    if name.len() == 0 {
        Seq::empty()
    } else {
        canonical_from(name, Seq::empty())
    }
}

/// The form in which a name comes back from the wire: every label
/// lower-cased. The empty name stays empty.
pub open spec fn canonical_name(name: Seq<char>) -> Seq<char> {
    canonical_text(vstd::utf8::encode_utf8(name))
}

/// The first dot lies within the name or at its end.
pub proof fn lemma_first_dot_bound(name: Seq<u8>)
    ensures
        first_dot(name) <= name.len(),
    decreases name.len(),
{
    if name.len() > 0 && name[0] != DOT {
        lemma_first_dot_bound(name.skip(1));
    }
}

/// A part of a buffer that holds two runs of bytes holds each of them.
pub proof fn lemma_subrange_parts(buf: Seq<u8>, at: int, x: Seq<u8>, y: Seq<u8>)
    requires
        0 <= at,
        at + x.len() + y.len() <= buf.len(),
        buf.subrange(at, at + x.len() + y.len()) == x + y,
    ensures
        buf.subrange(at, at + x.len()) == x,
        buf.subrange(at + x.len(), at + x.len() + y.len()) == y,
{
    let both = buf.subrange(at, at + x.len() + y.len());
    assert forall|i: int| 0 <= i < x.len() implies buf[at + i] == x[i] by {
        assert(both[i] == (x + y)[i]);
    }
    assert forall|i: int| 0 <= i < y.len() implies buf[at + x.len() + i] == y[i] by {
        assert(both[x.len() + i] == (x + y)[x.len() + i]);
    }
    assert(buf.subrange(at, at + x.len()) =~= x);
    assert(buf.subrange(at + x.len(), at + x.len() + y.len()) =~= y);
}

/// Labels that fit are written in full. Where their encoding lies in a
/// buffer, reading it there gives their text after `so_far` and ends behind
/// it.
pub proof fn lemma_labels_round_trip(
    buf: Seq<u8>,
    pos: int,
    cursor: int,
    name: Seq<u8>,
    so_far: Seq<char>,
)
    requires
        each_label_fits(name),
        0 <= pos,
        pos + labels_encoding(name).data.len() <= buf.len(),
        buf.subrange(pos, pos + labels_encoding(name).data.len()) == labels_encoding(name).data,
    ensures
        labels_encoding(name).complete,
        name_from(buf, pos, cursor, 0, so_far) == (Parse::<Seq<char>> {
            value: Ok(canonical_from(name, so_far)),
            cursor: pos + labels_encoding(name).data.len(),
        }),
    decreases name.len(),
{
    let n = first_dot(name);
    lemma_first_dot_bound(name);
    let e = labels_encoding(name);
    let label = name.take(n as int);
    let head = seq![n as u8] + label;
    let with_label = push_label(so_far, label_text(label));
    if n >= name.len() {
        let tail = seq![0u8];
        assert(e.data =~= head + tail);
        lemma_subrange_parts(buf, pos, head, tail);
        lemma_subrange_parts(buf, pos, seq![n as u8], label);
        assert(buf[pos] == buf.subrange(pos, pos + 1)[0]);
        assert(buf[pos + 1 + n] == buf.subrange(pos + 1 + n, pos + 2 + n)[0]);
        assert(name_from(buf, pos + 1 + n, cursor, 0, with_label) == (Parse::<Seq<char>> {
            value: Ok(with_label),
            cursor: pos + 2 + n,
        }));
    } else {
        let rest = name.skip(n as int + 1);
        let tail = labels_encoding(rest).data;
        lemma_labels_encoding_complete(rest);
        assert(e.data =~= head + tail);
        lemma_subrange_parts(buf, pos, head, tail);
        lemma_subrange_parts(buf, pos, seq![n as u8], label);
        assert(buf[pos] == buf.subrange(pos, pos + 1)[0]);
        lemma_labels_round_trip(buf, pos + 1 + n, cursor, rest, with_label);
    }
}

/// Labels that fit are written in full.
pub proof fn lemma_labels_encoding_complete(name: Seq<u8>)
    requires
        each_label_fits(name),
    ensures
        labels_encoding(name).complete,
    decreases name.len(),
{
    let n = first_dot(name);
    if n < name.len() {
        lemma_labels_encoding_complete(name.skip(n as int + 1));
    }
}

/// A name whose labels fit, the empty name among them, is written in full.
pub proof fn lemma_name_encoding_complete(name: Seq<u8>)
    requires
        labels_fit(name),
    ensures
        name_encoding(name).complete,
{
    if name.len() > 0 {
        lemma_labels_encoding_complete(name);
    }
}

/// A name whose labels fit is written in full. Where its encoding lies in
/// a buffer, reading it there gives the name in canonical form and ends
/// behind it. The name may end with the last byte of the buffer.
pub proof fn lemma_name_round_trip(buf: Seq<u8>, at: int, name: Seq<u8>)
    requires
        labels_fit(name),
        0 <= at,
        at + name_encoding(name).data.len() <= buf.len(),
        buf.subrange(at, at + name_encoding(name).data.len()) == name_encoding(name).data,
    ensures
        name_encoding(name).complete,
        parse_name(buf, at) == (Parse::<Seq<char>> {
            value: Ok(canonical_text(name)),
            cursor: at + name_encoding(name).data.len(),
        }),
{
    if name.len() == 0 {
        assert(buf[at] == buf.subrange(at, at + 1)[0]);
    } else {
        lemma_labels_round_trip(buf, at, at, name, Seq::empty());
    }
}

/// `first_dot` is the position of the first dot, or the length where there is none.
pub proof fn lemma_first_dot(name: Seq<u8>, n: int)
    requires
        0 <= n <= name.len(),
        forall|k: int| 0 <= k < n ==> name[k] != DOT,
        n < name.len() ==> name[n] == DOT,
    ensures
        first_dot(name) == n,
    decreases n,
{
    if n > 0 {
        lemma_first_dot(name.skip(1), n - 1);
    }
}

} // verus!
