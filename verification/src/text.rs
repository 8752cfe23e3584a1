//! Text addressed by byte offsets.
//!
//! Syntax spans count bytes of the UTF-8 encoding, while the contracts of this
//! library speak of characters. The functions here cross from one to the other.

use vstd::prelude::*;
use vstd::string::*;
use vstd::utf8::*;
use crate::error::Error;

verus! {

/// The UTF-8 encoding of `text`.
pub open spec fn bytes_of(text: Seq<char>) -> Seq<u8> {
    encode_utf8(text)
}

/// The number of bytes of the encoding of `text`.
pub open spec fn byte_count(text: Seq<char>) -> int {
    bytes_of(text).len() as int
}

/// `[from, to)` lies within the encoding of `text`.
pub open spec fn in_bounds(text: Seq<char>, from: int, to: int) -> bool {
    0 <= from <= to <= bytes_of(text).len()
}

/// `[from, to)` lies within the encoding of `text` and neither end falls
/// inside a character.
pub open spec fn is_text_range(text: Seq<char>, from: int, to: int) -> bool {
    &&& in_bounds(text, from, to)
    &&& is_char_boundary(bytes_of(text), from)
    &&& is_char_boundary(bytes_of(text), to)
}

/// Why `[from, to)` is no text range of `text`, when it is none.
pub open spec fn span_error(text: Seq<char>, from: int, to: int) -> Error {
    if in_bounds(text, from, to) {
        Error::Encoding
    } else {
        Error::InvalidSpan
    }
}

/// The characters encoded by bytes `[from, to)` of `text`.
pub open spec fn byte_slice(text: Seq<char>, from: int, to: int) -> Seq<char> {
    decode_utf8(bytes_of(text).subrange(from, to))
}

/// A character boundary of a text stays one in every prefix that reaches it.
proof fn lemma_boundary_in_prefix(bytes: Seq<u8>, from: int, to: int)
    requires
        valid_utf8(bytes),
        0 <= from <= to <= bytes.len(),
        is_char_boundary(bytes, from),
        is_char_boundary(bytes, to),
    ensures
        valid_utf8(bytes.subrange(0, to)),
        is_char_boundary(bytes.subrange(0, to), from),
{
    valid_utf8_split(bytes, to);
    let head = bytes.subrange(0, to);
    if from == to {
        is_char_boundary_start_end_of_seq(head);
    } else {
        is_char_boundary_iff_not_is_continuation_byte(bytes, from);
        is_char_boundary_iff_not_is_continuation_byte(head, from);
    }
}

/// The number of bytes in the encoding of `text`.
pub fn byte_len(text: &str) -> (n: usize)
    ensures
        n == bytes_of(text@).len(),
{
    text.as_bytes().len()
}

/// The part of `text` between byte offsets `from` and `to`.
pub fn slice<'a>(text: &'a str, from: usize, to: usize) -> (r: Result<&'a str, Error>)
    ensures
        r is Ok <==> is_text_range(text@, from as int, to as int),
        r matches Ok(s) ==> s@ == byte_slice(text@, from as int, to as int),
        r matches Err(e) ==> e == span_error(text@, from as int, to as int),
{
    broadcast use encode_utf8_valid_utf8, encode_utf8_decode_utf8;
    if from > to || to > byte_len(text) {
        return Err(Error::InvalidSpan);
    }
    if !text.is_char_boundary(from) || !text.is_char_boundary(to) {
        return Err(Error::Encoding);
    }
    proof {
        lemma_boundary_in_prefix(text.spec_bytes(), from as int, to as int);
    }
    let (head, _) = text.split_at(to);
    let (_, s) = head.split_at(from);
    assert(s.spec_bytes() == text.spec_bytes().subrange(from as int, to as int));
    Ok(s)
}

/// A range between two character boundaries is valid text, and an offset
/// within it is a boundary of the range exactly when it is one of the whole.
proof fn lemma_boundary_in_range(bytes: Seq<u8>, from: int, at: int, to: int)
    requires
        valid_utf8(bytes),
        0 <= from <= at <= to <= bytes.len(),
        is_char_boundary(bytes, from),
        is_char_boundary(bytes, to),
    ensures
        valid_utf8(bytes.subrange(from, to)),
        is_char_boundary(bytes.subrange(from, to), at - from) <==> is_char_boundary(bytes, at),
{
    lemma_boundary_in_prefix(bytes, from, to);
    let head = bytes.subrange(0, to);
    valid_utf8_split(head, from);
    let part = bytes.subrange(from, to);
    assert(head.subrange(from, head.len() as int) =~= part);
    if at == to {
        is_char_boundary_start_end_of_seq(part);
    } else {
        is_char_boundary_iff_not_is_continuation_byte(bytes, at);
        is_char_boundary_iff_not_is_continuation_byte(part, at - from);
    }
}

/// Two text ranges that meet are one text range, and its characters are
/// those of the first followed by those of the second.
pub proof fn lemma_slices_join(text: Seq<char>, from: int, mid: int, to: int)
    requires
        is_text_range(text, from, mid),
        is_text_range(text, mid, to),
    ensures
        is_text_range(text, from, to),
        byte_slice(text, from, to) == byte_slice(text, from, mid) + byte_slice(text, mid, to),
{
    broadcast use encode_utf8_valid_utf8;

    let bytes = bytes_of(text);
    let part = bytes.subrange(from, to);
    lemma_boundary_in_range(bytes, from, mid, to);
    decode_utf8_split(part, mid - from);
    assert(part.subrange(0, mid - from) =~= bytes.subrange(from, mid));
    assert(part.subrange(mid - from, part.len() as int) =~= bytes.subrange(mid, to));
}

/// The whole of a text is a text range, and its characters are the text.
pub proof fn lemma_whole_text(text: Seq<char>)
    ensures
        is_text_range(text, 0, bytes_of(text).len() as int),
        byte_slice(text, 0, bytes_of(text).len() as int) == text,
{
    broadcast use encode_utf8_valid_utf8, encode_utf8_decode_utf8;

    let bytes = bytes_of(text);
    is_char_boundary_start_end_of_seq(bytes);
    assert(bytes.subrange(0, bytes.len() as int) =~= bytes);
}

/// The encoding of two texts, one after the other, is the encoding of the
/// first followed by that of the second.
pub proof fn lemma_bytes_of_concat(a: Seq<char>, b: Seq<char>)
    ensures
        bytes_of(a + b) == bytes_of(a) + bytes_of(b),
    decreases a.len(),
{
    if a.len() > 0 {
        lemma_bytes_of_concat(a.drop_first(), b);
        assert((a + b).drop_first() =~= a.drop_first() + b);
    }
}

/// Where one text follows another, the place at which they meet lies
/// between characters.
proof fn lemma_concat_boundary(a: Seq<char>, b: Seq<char>)
    ensures
        is_char_boundary(bytes_of(a + b), bytes_of(a).len() as int),
{
    broadcast use encode_utf8_valid_utf8;

    let whole = bytes_of(a + b);
    let at = bytes_of(a).len() as int;
    lemma_bytes_of_concat(a, b);
    if bytes_of(b).len() == 0 {
        is_char_boundary_start_end_of_seq(whole);
    } else {
        is_char_boundary_start_end_of_seq(bytes_of(b));
        is_char_boundary_iff_not_is_continuation_byte(bytes_of(b), 0);
        is_char_boundary_iff_not_is_continuation_byte(whole, at);
    }
}

/// A text that stands between two others is found again at the offsets at
/// which it starts and ends.
pub proof fn lemma_slice_of_concat(a: Seq<char>, b: Seq<char>, c: Seq<char>)
    ensures
        is_text_range(a + b + c, byte_count(a), byte_count(a) + byte_count(b)),
        byte_slice(a + b + c, byte_count(a), byte_count(a) + byte_count(b)) == b,
{
    broadcast use encode_utf8_decode_utf8;

    let from = bytes_of(a).len() as int;
    let to = from + bytes_of(b).len();
    lemma_bytes_of_concat(a + b, c);
    lemma_bytes_of_concat(a, b);
    lemma_concat_boundary(a + b, c);
    lemma_concat_boundary(a, b + c);
    lemma_bytes_of_concat(a, b + c);
    assert(a + (b + c) =~= a + b + c);
    assert(bytes_of(a + b + c).subrange(from, to) =~= bytes_of(b));
}

/// The offset at which the line that holds byte `at` starts: the offset
/// after the nearest line feed before `at`, or zero where there is none.
pub open spec fn line_start(bytes: Seq<u8>, at: int) -> int
    decreases at,
{
    if at <= 0 {
        0
    } else if bytes[at - 1] == 0x0a {
        at
    } else {
        line_start(bytes, at - 1)
    }
}

/// A line starts between characters.
proof fn lemma_line_start_is_boundary(bytes: Seq<u8>, at: int)
    requires
        valid_utf8(bytes),
        0 <= at <= bytes.len(),
    ensures
        0 <= line_start(bytes, at) <= at,
        is_char_boundary(bytes, line_start(bytes, at)),
    decreases at,
{
    if at <= 0 {
    } else if bytes[at - 1] == 0x0a {
        is_char_boundary_iff_not_is_continuation_byte(bytes, at - 1);
        valid_utf8_split(bytes, at - 1);
        let tail = bytes.subrange(at - 1, bytes.len() as int);
        assert(is_char_boundary(tail, 1)) by {
            reveal_with_fuel(is_char_boundary, 2);
        }
        if at < bytes.len() {
            is_char_boundary_iff_not_is_continuation_byte(tail, 1);
            is_char_boundary_iff_not_is_continuation_byte(bytes, at);
        } else {
            is_char_boundary_start_end_of_seq(bytes);
        }
    } else {
        lemma_line_start_is_boundary(bytes, at - 1);
    }
}

/// Whether `c` is white space to `char::is_whitespace`: whether it has
/// the Unicode property White_Space.
pub uninterp spec fn white_space(c: char) -> bool;

/// `char::is_whitespace` of std. The contract gives its result a name, and
/// claims of it what the examples in its documentation show: that the space,
/// the line feed and the no-break space are white space, and that the
/// letter in the last of the examples is not.
pub assume_specification[ char::is_whitespace ](c: char) -> (b: bool)
    ensures
        b == white_space(c),
        c == ' ' || c == '\n' || c == '\u{a0}' ==> b,
        c == '\u{8d8a}' ==> !b,
;

/// The number of white space characters with which `line` begins.
pub open spec fn blank_len(line: Seq<char>) -> int
    decreases line.len(),
{
    if line.len() == 0 || !white_space(line[0]) {
        0
    } else {
        1 + blank_len(line.drop_first())
    }
}

/// The white space that stands between the start of the line of byte `at`
/// and the first other character of the line, or `at` if that comes first.
pub open spec fn indent_at(text: Seq<char>, at: int) -> Seq<char> {
    let line = byte_slice(text, line_start(bytes_of(text), at), at);
    line.take(blank_len(line))
}

/// A line that begins with `n` white space characters, and then ends or goes
/// on with another character, begins with exactly `n`.
proof fn lemma_blank_len(line: Seq<char>, n: int)
    requires
        0 <= n <= line.len(),
        forall|k: int| 0 <= k < n ==> white_space(#[trigger] line[k]),
        n == line.len() || !white_space(line[n]),
    ensures
        blank_len(line) == n,
    decreases n,
{
    if n > 0 {
        let rest = line.drop_first();
        assert forall|k: int| 0 <= k < n - 1 implies white_space(#[trigger] rest[k]) by {
            assert(rest[k] == line[k + 1]);
        }
        lemma_blank_len(rest, n - 1);
    }
}

/// The indentation of the line on which the byte at offset `at` stands.
pub fn line_indent<'a>(text: &'a str, at: usize) -> (r: Result<&'a str, Error>)
    ensures
        r is Ok <==> is_text_range(text@, 0, at as int),
        r matches Ok(s) ==> s@ == indent_at(text@, at as int),
        r matches Err(e) ==> e == span_error(text@, 0, at as int),
{
    broadcast use encode_utf8_valid_utf8;

    let bytes = text.as_bytes();
    if at > bytes.len() {
        return Err(Error::InvalidSpan);
    }
    if !text.is_char_boundary(at) {
        return Err(Error::Encoding);
    }
    proof {
        is_char_boundary_start_end_of_seq(bytes@);
    }
    let mut start: usize = at;
    while start > 0 && bytes[start - 1] != 0x0a
        invariant
            start <= at <= bytes@.len(),
            line_start(bytes@, start as int) == line_start(bytes@, at as int),
        decreases start,
    {
        start -= 1;
    }
    proof {
        lemma_line_start_is_boundary(bytes@, at as int);
    }
    let line = match slice(text, start, at) {
        Ok(line) => line,
        Err(e) => {
            return Err(e);
        },
    };
    let len = line.unicode_len();
    let mut n: usize = 0;
    while n < len && line.get_char(n).is_whitespace()
        invariant
            n <= len == line@.len(),
            forall|k: int| 0 <= k < n ==> white_space(#[trigger] line@[k]),
        decreases len - n,
    {
        n += 1;
    }
    proof {
        lemma_blank_len(line@, n as int);
    }
    Ok(line.substring_char(0, n))
}

/// `text` with the bytes `[from, to)` replaced by `instead`.
pub open spec fn replaced(text: Seq<char>, from: int, to: int, instead: Seq<char>) -> Seq<char> {
    byte_slice(text, 0, from) + instead + byte_slice(text, to, bytes_of(text).len() as int)
}

/// `text` with the part between byte offsets `from` and `to` replaced by
/// `instead`.
pub fn replace<'a>(text: &'a str, from: usize, to: usize, instead: &str) -> (r: Result<String, Error>)
    ensures
        r is Ok <==> is_text_range(text@, from as int, to as int),
        r matches Ok(out) ==> out@ == replaced(text@, from as int, to as int, instead@),
        r matches Err(e) ==> e == span_error(text@, from as int, to as int),
{
    broadcast use encode_utf8_valid_utf8;

    match slice(text, from, to) {
        Ok(_) => {},
        Err(e) => {
            return Err(e);
        },
    }
    proof {
        is_char_boundary_start_end_of_seq(bytes_of(text@));
    }
    let head = match slice(text, 0, from) {
        Ok(s) => s,
        Err(e) => {
            return Err(e);
        },
    };
    let tail = match slice(text, to, byte_len(text)) {
        Ok(s) => s,
        Err(e) => {
            return Err(e);
        },
    };
    let mut out = head.to_owned();
    out.append(instead);
    out.append(tail);
    Ok(out)
}

} // verus!
