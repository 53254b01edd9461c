//! The zone file: lines of `NAME CLASS TYPE RDATA`, with blank lines and
//! comment lines between them.

use crate::error::DnsError;
use crate::models::enums::{QueryClass, QueryType};
use crate::models::packet_builder::count_of;
use crate::models::record::{RawRecord, RecordView};
use crate::smart_buffer::text::{lower_text, lowercase, same_text};
use vstd::prelude::*;
use vstd::string::StrSliceExecFns;

verus! {

/// The TTL of every record that the zone file gives.
pub const ZONE_TTL: u32 = 300;

/// The characters of a text.
pub fn chars_of(text: &str) -> (chars: Vec<char>)
    ensures
        chars@ == text@,
{
    let mut chars: Vec<char> = Vec::new();
    for c in it: text.chars()
        invariant
            chars@ == it.seq().take(it.index() as int),
            it.seq() == text@,
    {
        chars.push(c);
    }
    chars
}

/// The characters that separate tokens: those with the Unicode property
/// `White_Space`.
pub open spec fn is_space(c: char) -> bool {
    let u = c as u32;
    ||| 0x09 <= u <= 0x0D
    ||| u == 0x20
    ||| u == 0x85
    ||| u == 0xA0
    ||| u == 0x1680
    ||| 0x2000 <= u <= 0x200A
    ||| u == 0x2028
    ||| u == 0x2029
    ||| u == 0x202F
    ||| u == 0x205F
    ||| u == 0x3000
}

/// Whether a character separates tokens.
#[verifier::when_used_as_spec(is_space)]
pub fn is_whitespace(c: char) -> (space: bool)
    ensures
        space == is_space(c),
{
    let u = c as u32;
    (0x09 <= u && u <= 0x0D) || u == 0x20 || u == 0x85 || u == 0xA0 || u == 0x1680 || (0x2000 <= u
        && u <= 0x200A) || u == 0x2028 || u == 0x2029 || u == 0x202F || u == 0x205F || u == 0x3000
}

/// The length of the token that a text starts with: the number of characters
/// before the first space.
pub open spec fn word_len(text: Seq<char>) -> nat
    decreases text.len(),
{
    if text.len() == 0 || is_space(text[0]) {
        0
    } else {
        1 + word_len(text.skip(1))
    }
}

/// The first token of a text lies within it, and it is not empty where the
/// text starts with a character that is not a space.
pub proof fn lemma_word_len_bounds(text: Seq<char>)
    ensures
        word_len(text) <= text.len(),
        text.len() > 0 && !is_space(text[0]) ==> word_len(text) >= 1,
    decreases text.len(),
{
    if text.len() > 0 && !is_space(text[0]) {
        lemma_word_len_bounds(text.skip(1));
    }
}

/// The tokens of a line: its runs of characters that are not spaces.
pub open spec fn tokens(line: Seq<char>) -> Seq<Seq<char>>
    decreases line.len(),
{
    if line.len() == 0 {
        Seq::empty()
    } else if is_space(line[0]) {
        tokens(line.skip(1))
    } else {
        proof {
            lemma_word_len_bounds(line);
        }
        seq![line.take(word_len(line) as int)] + tokens(line.skip(word_len(line) as int))
    }
}

/// The position of the first `sep` in a text, or its length where there is none.
pub open spec fn until(text: Seq<char>, sep: char) -> nat
    decreases text.len(),
{
    if text.len() == 0 || text[0] == sep {
        0
    } else {
        1 + until(text.skip(1), sep)
    }
}

/// The parts that `sep` divides a text into. There is always one part, and
/// parts can be empty.
pub open spec fn parts(text: Seq<char>, sep: char) -> Seq<Seq<char>>
    decreases text.len(),
{
    let n = until(text, sep);
    if n >= text.len() {
        seq![text]
    } else {
        seq![text.take(n as int)] + parts(text.skip(n as int + 1), sep)
    }
}

/// The decimal digits.
pub open spec fn is_digit(c: char) -> bool {
    '0' <= c <= '9'
}

/// The value of a decimal digit.
pub open spec fn digit(c: char) -> int {
    c as u32 - '0' as u32
}

/// The number that one part of a dotted quad stands for: one to three
/// decimal digits, without a leading zero before another digit, at most 255.
pub open spec fn octet_of(part: Seq<char>) -> Option<u8> {
    if part.len() == 1 && is_digit(part[0]) {
        Some(digit(part[0]) as u8)
    } else if part.len() == 2 && is_digit(part[0]) && is_digit(part[1]) && part[0] != '0' {
        Some((digit(part[0]) * 10 + digit(part[1])) as u8)
    } else if part.len() == 3 && is_digit(part[0]) && is_digit(part[1]) && is_digit(part[2])
        && part[0] != '0' && digit(part[0]) * 100 + digit(part[1]) * 10 + digit(part[2]) <= 255 {
        Some((digit(part[0]) * 100 + digit(part[1]) * 10 + digit(part[2])) as u8)
    } else {
        None
    }
}

/// The four bytes of an IPv4 address in dotted-quad form.
pub open spec fn ipv4_of(text: Seq<char>) -> Option<Seq<u8>> {
    let quad = parts(text, '.');
    if quad.len() == 4 && octet_of(quad[0]) is Some && octet_of(quad[1]) is Some && octet_of(
        quad[2],
    ) is Some && octet_of(quad[3]) is Some {
        Some(
            seq![
                octet_of(quad[0])->0,
                octet_of(quad[1])->0,
                octet_of(quad[2])->0,
                octet_of(quad[3])->0,
            ],
        )
    } else {
        None
    }
}

/// What a line of the zone file gives for the name `wanted`, which is in
/// lower case. A line without tokens and a line whose first token is `#` give
/// nothing. Any other line has four tokens. If its name, lower-cased, is the
/// name wanted, the line gives a record of class `IN` and type `A` with a TTL
/// of 300 seconds and the four bytes of its address.
pub open spec fn zone_answer(line: Seq<char>, wanted: Seq<char>) -> Result<
    Option<RecordView>,
    DnsError,
> {
    let t = tokens(line);
    if t.len() == 0 || t[0] == "#"@ {
        Ok(None)
    } else if t.len() != 4 {
        Err(DnsError::BrokenBindFile)
    } else if lower_text(t[0]) != wanted {
        Ok(None)
    } else if QueryClass::of_text(t[1]) is Err || QueryType::of_text(t[2]) is Err || ipv4_of(
        t[3],
    ) is None {
        Err(DnsError::BrokenBindFile)
    } else {
        Ok(
            Some(
                RecordView {
                    name: lower_text(t[0]),
                    query_type: QueryType::of_text(t[2])->Ok_0,
                    query_class: QueryClass::of_text(t[1])->Ok_0,
                    ttl: ZONE_TTL,
                    rdata_length: 4,
                    rdata: ipv4_of(t[3])->0,
                },
            ),
        )
    }
}

/// A text without a space before position `n`, and with one at `n` if it is
/// longer, starts with a token of length `n`.
pub proof fn lemma_word_len(text: Seq<char>, n: int)
    requires
        0 <= n <= text.len(),
        forall|k: int| 0 <= k < n ==> !is_space(text[k]),
        n < text.len() ==> is_space(text[n]),
    ensures
        word_len(text) == n,
    decreases n,
{
    if n > 0 {
        lemma_word_len(text.skip(1), n - 1);
    }
}

/// A text without `sep` before position `n`, and with one at `n` if it is
/// longer, has its first `sep` at `n`.
pub proof fn lemma_until(text: Seq<char>, sep: char, n: int)
    requires
        0 <= n <= text.len(),
        forall|k: int| 0 <= k < n ==> text[k] != sep,
        n < text.len() ==> text[n] == sep,
    ensures
        until(text, sep) == n,
    decreases n,
{
    if n > 0 {
        lemma_until(text.skip(1), sep, n - 1);
    }
}

/// The texts that lie in `text` at the given ranges.
pub open spec fn texts_at(text: Seq<char>, ranges: Seq<(usize, usize)>) -> Seq<Seq<char>> {
    ranges.map_values(|r: (usize, usize)| text.subrange(r.0 as int, r.1 as int))
}

/// Where the tokens of a line lie.
fn token_ranges(chars: &[char]) -> (ranges: Vec<(usize, usize)>)
    ensures
        texts_at(chars@, ranges@) == tokens(chars@),
        forall|k: int| 0 <= k < ranges.len() ==> (#[trigger] ranges[k]).0 <= ranges[k].1 <= chars.len(),
{
    let mut ranges: Vec<(usize, usize)> = Vec::new();
    let n = chars.len();
    let mut i: usize = 0;
    proof {
        assert(chars@.skip(0) =~= chars@);
        assert(texts_at(chars@, ranges@) + tokens(chars@) =~= tokens(chars@));
    }
    while i < n
        invariant
            n == chars.len(),
            i <= n,
            forall|k: int| 0 <= k < ranges.len() ==> (#[trigger] ranges[k]).0 <= ranges[k].1 <= chars.len(),
            tokens(chars@) == texts_at(chars@, ranges@) + tokens(chars@.skip(i as int)),
        decreases n - i,
    {
        let ghost rest = chars@.skip(i as int);
        if is_whitespace(chars[i]) {
            assert(rest.skip(1) =~= chars@.skip(i + 1));
            i += 1;
        } else {
            let start = i;
            let mut end = i;
            while end < n && !is_whitespace(chars[end])
                invariant
                    n == chars.len(),
                    start <= end <= n,
                    forall|k: int| start <= k < end ==> !is_space(chars@[k]),
                decreases n - end,
            {
                end += 1;
            }
            proof {
                lemma_word_len(rest, end - start);
                assert(rest.take(end - start) =~= chars@.subrange(start as int, end as int));
                assert(rest.skip(end - start) =~= chars@.skip(end as int));
            }
            let ghost before = ranges@;
            ranges.push((start, end));
            proof {
                assert(texts_at(chars@, ranges@) =~= texts_at(chars@, before).push(
                    chars@.subrange(start as int, end as int),
                ));
                assert(texts_at(chars@, before) + (seq![rest.take(end - start)] + tokens(
                    rest.skip(end - start),
                )) =~= texts_at(chars@, ranges@) + tokens(chars@.skip(end as int)));
            }
            i = end;
        }
    }
    assert(texts_at(chars@, ranges@) + tokens(chars@.skip(i as int)) =~= texts_at(
        chars@,
        ranges@,
    ));
    ranges
}

/// Where the parts lie that `sep` divides a text into.
fn part_ranges(chars: &[char], sep: char) -> (ranges: Vec<(usize, usize)>)
    ensures
        texts_at(chars@, ranges@) == parts(chars@, sep),
        forall|k: int| 0 <= k < ranges.len() ==> (#[trigger] ranges[k]).0 <= ranges[k].1 <= chars.len(),
{
    let mut ranges: Vec<(usize, usize)> = Vec::new();
    let n = chars.len();
    let mut start: usize = 0;
    proof {
        assert(chars@.skip(0) =~= chars@);
        assert(texts_at(chars@, ranges@) + parts(chars@, sep) =~= parts(chars@, sep));
    }
    loop
        invariant
            n == chars.len(),
            start <= n,
            forall|k: int| 0 <= k < ranges.len() ==> (#[trigger] ranges[k]).0 <= ranges[k].1 <= chars.len(),
            parts(chars@, sep) == texts_at(chars@, ranges@) + parts(chars@.skip(start as int), sep),
        decreases n - start,
    {
        let ghost rest = chars@.skip(start as int);
        let mut end = start;
        while end < n && chars[end] != sep
            invariant
                n == chars.len(),
                start <= end <= n,
                forall|k: int| start <= k < end ==> chars@[k] != sep,
            decreases n - end,
        {
            end += 1;
        }
        proof {
            lemma_until(rest, sep, end - start);
            assert(rest.take(end - start) =~= chars@.subrange(start as int, end as int));
            assert(rest =~= chars@.subrange(start as int, n as int));
        }
        let ghost before = ranges@;
        ranges.push((start, end));
        proof {
            assert(texts_at(chars@, ranges@) =~= texts_at(chars@, before).push(
                chars@.subrange(start as int, end as int),
            ));
        }
        if end >= n {
            proof {
                assert(texts_at(chars@, before) + seq![rest] =~= texts_at(chars@, ranges@));
            }
            return ranges;
        }
        proof {
            assert(rest.skip(end - start + 1) =~= chars@.skip(end + 1));
            assert(texts_at(chars@, before) + (seq![rest.take(end - start)] + parts(
                rest.skip(end - start + 1),
                sep,
            )) =~= texts_at(chars@, ranges@) + parts(chars@.skip(end + 1), sep));
        }
        start = end + 1;
    }
}

/// The value of a decimal digit.
fn digit_value(c: char) -> (v: Option<u32>)
    ensures
        is_digit(c) ==> v == Some(digit(c) as u32),
        !is_digit(c) ==> v is None,
{
    if '0' <= c && c <= '9' {
        Some(c as u32 - '0' as u32)
    } else {
        None
    }
}

/// Reads one part of a dotted quad.
fn parse_octet(part: &[char]) -> (octet: Option<u8>)
    ensures
        octet == octet_of(part@),
{
    let n = part.len();
    if n == 0 || n > 3 {
        return None;
    }
    if n > 1 && part[0] == '0' {
        return None;
    }
    let mut value: u32 = 0;
    let mut i: usize = 0;
    while i < n
        invariant
            n == part.len(),
            1 <= n <= 3,
            i <= n,
            forall|k: int| 0 <= k < i ==> is_digit(part@[k]),
            i == 0 ==> value == 0,
            i == 1 ==> value == digit(part@[0]),
            i == 2 ==> value == digit(part@[0]) * 10 + digit(part@[1]),
            i == 3 ==> value == digit(part@[0]) * 100 + digit(part@[1]) * 10 + digit(part@[2]),
        decreases n - i,
    {
        match digit_value(part[i]) {
            Some(d) => {
                value = value * 10 + d;
            },
            None => {
                return None;
            },
        }
        i += 1;
    }
    if value > 255 {
        return None;
    }
    Some(value as u8)
}

/// Reads an IPv4 address in dotted-quad form.
pub fn parse_ipv4(text: &[char]) -> (octets: Option<Vec<u8>>)
    ensures
        match ipv4_of(text@) {
            Some(quad) => octets is Some && octets->0@ == quad,
            None => octets is None,
        },
{
    let ranges = part_ranges(text, '.');
    if ranges.len() != 4 {
        return None;
    }
    let mut octets: Vec<u8> = Vec::with_capacity(4);
    let mut i: usize = 0;
    while i < 4
        invariant
            i <= 4,
            ranges.len() == 4,
            texts_at(text@, ranges@) == parts(text@, '.'),
            forall|k: int| 0 <= k < ranges.len() ==> (#[trigger] ranges[k]).0 <= ranges[k].1 <= text.len(),
            octets.len() == i,
            forall|k: int|
                0 <= k < i ==> octet_of(parts(text@, '.')[k]) == Some(#[trigger] octets[k]),
        decreases 4 - i,
    {
        let r = ranges[i];
        assert(texts_at(text@, ranges@)[i as int] == text@.subrange(r.0 as int, r.1 as int));
        match parse_octet(vstd::slice::slice_subrange(text, r.0, r.1)) {
            Some(octet) => {
                octets.push(octet);
            },
            None => {
                return None;
            },
        }
        i += 1;
    }
    proof {
        let quad = parts(text@, '.');
        assert(quad.len() == 4);
        assert(octet_of(quad[0]) == Some(octets[0]));
        assert(octet_of(quad[1]) == Some(octets[1]));
        assert(octet_of(quad[2]) == Some(octets[2]));
        assert(octet_of(quad[3]) == Some(octets[3]));
        assert(octets@ =~= ipv4_of(text@)->0);
    }
    Some(octets)
}

/// Reads one line of the zone file for the name `wanted`.
pub fn zone_line(line: &str, wanted: &str) -> (r: Result<Option<RawRecord>, DnsError>)
    ensures
        match zone_answer(line@, wanted@) {
            Ok(Some(record)) => r is Ok && r->Ok_0 is Some && r->Ok_0->0@ == record,
            Ok(None) => r is Ok && r->Ok_0 is None,
            Err(e) => r is Err && r->Err_0 == e,
        },
{
    let chars = chars_of(line);
    let ranges = token_ranges(chars.as_slice());
    if ranges.len() == 0 {
        return Ok(None);
    }
    let t0 = ranges[0];
    assert(texts_at(chars@, ranges@)[0] == chars@.subrange(t0.0 as int, t0.1 as int));
    let first = line.substring_char(t0.0, t0.1);
    if same_text(first, "#") {
        return Ok(None);
    }
    if ranges.len() != 4 {
        return Err(DnsError::BrokenBindFile);
    }
    let name = lowercase(first);
    if !same_text(name.as_str(), wanted) {
        return Ok(None);
    }
    let t1 = ranges[1];
    let t2 = ranges[2];
    let t3 = ranges[3];
    assert(texts_at(chars@, ranges@)[1] == chars@.subrange(t1.0 as int, t1.1 as int));
    assert(texts_at(chars@, ranges@)[2] == chars@.subrange(t2.0 as int, t2.1 as int));
    assert(texts_at(chars@, ranges@)[3] == chars@.subrange(t3.0 as int, t3.1 as int));
    let query_class = match QueryClass::try_from(line.substring_char(t1.0, t1.1)) {
        Ok(query_class) => query_class,
        Err(_) => {
            return Err(DnsError::BrokenBindFile);
        },
    };
    let query_type = match QueryType::try_from(line.substring_char(t2.0, t2.1)) {
        Ok(query_type) => query_type,
        Err(_) => {
            return Err(DnsError::BrokenBindFile);
        },
    };
    let rdata = match parse_ipv4(vstd::slice::slice_subrange(chars.as_slice(), t3.0, t3.1)) {
        Some(rdata) => rdata,
        None => {
            return Err(DnsError::BrokenBindFile);
        },
    };
    Ok(Some(RawRecord { name, query_type, query_class, ttl: ZONE_TTL, rdata_length: 4, rdata }))
}

} // verus!
