//! Matching on the raw bytes of the text: insignificant whitespace, exact
//! literals, and the facts about code-point boundaries that keep a cursor
//! from ever splitting a character.

use vstd::prelude::*;
use vstd::string::StringSliceAdditionalSpecFns;
use vstd::utf8::*;

verus! {

/// The ASCII white space: space, tab, line feed, vertical tab, form feed and
/// carriage return.
pub open spec fn is_space(b: u8) -> bool {
    b == 0x20 || (0x09 <= b && b <= 0x0d)
}

/// The first offset at or after `pos` that holds no white space, or the
/// length of `bytes` when only white space follows.
pub open spec fn skip_spaces(bytes: Seq<u8>, pos: int) -> int
    decreases bytes.len() - pos,
{
    if 0 <= pos < bytes.len() && is_space(bytes[pos]) {
        skip_spaces(bytes, pos + 1)
    } else {
        pos
    }
}

/// `lit` stands in `bytes` at `pos`.
pub open spec fn occurs_at(bytes: Seq<u8>, pos: int, lit: Seq<u8>) -> bool {
    &&& 0 <= pos
    &&& pos + lit.len() <= bytes.len()
    &&& bytes.subrange(pos, pos + lit.len()) == lit
}

/// Skipping white space never moves backwards nor past the end, and stops
/// at the end or on a byte that is no white space.
pub proof fn lemma_skip_spaces(bytes: Seq<u8>, pos: int)
    requires
        0 <= pos <= bytes.len(),
    ensures
        pos <= skip_spaces(bytes, pos) <= bytes.len(),
        skip_spaces(bytes, pos) < bytes.len() ==> !is_space(bytes[skip_spaces(bytes, pos)]),
        forall|i: int| pos <= i < skip_spaces(bytes, pos) ==> is_space(#[trigger] bytes[i]),
    decreases bytes.len() - pos,
{
    if pos < bytes.len() && is_space(bytes[pos]) {
        lemma_skip_spaces(bytes, pos + 1);
    }
}

/// A prefix of valid UTF-8 that is itself valid UTF-8 ends on a boundary.
pub proof fn lemma_valid_prefix_is_boundary(bytes: Seq<u8>, index: int)
    requires
        valid_utf8(bytes),
        partial_valid_utf8(bytes, index),
    ensures
        is_char_boundary(bytes, index),
    decreases bytes.len(),
{
    if index != 0 {
        let prefix = bytes.subrange(0, index);
        let k = length_of_first_scalar(bytes);
        assert(valid_first_scalar(prefix));
        assert(length_of_first_scalar(prefix) == k);
        assert(k <= index);
        let rest = pop_first_scalar(bytes);
        assert(pop_first_scalar(prefix) =~= rest.subrange(0, index - k));
        lemma_valid_prefix_is_boundary(rest, index - k);
    }
}

/// One ASCII byte after a boundary is followed by a boundary.
pub proof fn lemma_boundary_after_ascii(bytes: Seq<u8>, index: int)
    requires
        valid_utf8(bytes),
        is_char_boundary(bytes, index),
        0 <= index < bytes.len(),
        bytes[index] <= 0x7f,
    ensures
        is_char_boundary(bytes, index + 1),
{
    valid_utf8_split(bytes, index);
    let tail = bytes.subrange(index, bytes.len() as int);
    assert(tail[0] == bytes[index]);
    assert(valid_first_scalar(tail));
    partial_valid_utf8_extend(bytes, index);
    lemma_valid_prefix_is_boundary(bytes, index + 1);
}

/// A valid UTF-8 literal that stands at a boundary ends on a boundary.
pub proof fn lemma_boundary_after_literal(bytes: Seq<u8>, index: int, lit: Seq<u8>)
    requires
        valid_utf8(bytes),
        valid_utf8(lit),
        is_char_boundary(bytes, index),
        occurs_at(bytes, index, lit),
    ensures
        is_char_boundary(bytes, index + lit.len()),
{
    valid_utf8_split(bytes, index);
    valid_utf8_concat(bytes.subrange(0, index), lit);
    assert(bytes.subrange(0, index) + lit =~= bytes.subrange(0, index + lit.len()));
    lemma_valid_prefix_is_boundary(bytes, index + lit.len());
}

/// Skipping white space from a boundary stops on a boundary.
pub proof fn lemma_boundary_after_spaces(bytes: Seq<u8>, pos: int)
    requires
        valid_utf8(bytes),
        0 <= pos <= bytes.len(),
        is_char_boundary(bytes, pos),
    ensures
        is_char_boundary(bytes, skip_spaces(bytes, pos)),
    decreases bytes.len() - pos,
{
    if pos < bytes.len() && is_space(bytes[pos]) {
        lemma_boundary_after_ascii(bytes, pos);
        lemma_boundary_after_spaces(bytes, pos + 1);
    }
}

/// The encoding of a text that is not empty is not empty.
pub proof fn lemma_encoding_not_empty(chars: Seq<char>)
    requires
        chars.len() > 0,
    ensures
        encode_utf8(chars).len() > 0,
{
    assert(encode_scalar(chars[0] as u32).len() > 0);
}

/// A boundary of the rest of a text after a boundary is a boundary of the
/// text.
pub proof fn lemma_boundary_in_tail(bytes: Seq<u8>, from: int, len: int)
    requires
        valid_utf8(bytes),
        0 <= from <= bytes.len(),
        is_char_boundary(bytes, from),
        0 <= len <= bytes.len() - from,
        is_char_boundary(bytes.subrange(from, bytes.len() as int), len),
    ensures
        is_char_boundary(bytes, from + len),
{
    let tail = bytes.subrange(from, bytes.len() as int);
    valid_utf8_split(bytes, from);
    valid_utf8_split(tail, len);
    valid_utf8_concat(bytes.subrange(0, from), tail.subrange(0, len));
    assert(bytes.subrange(0, from) + tail.subrange(0, len) =~= bytes.subrange(0, from + len));
    lemma_valid_prefix_is_boundary(bytes, from + len);
}

/// Finds the end of the white space that starts at `pos`.
pub fn skip_whitespace(bytes: &[u8], pos: usize) -> (end: usize)
    requires
        pos <= bytes@.len(),
    ensures
        end == skip_spaces(bytes@, pos as int),
        pos <= end <= bytes@.len(),
{
    let mut end: usize = pos;
    proof {
        lemma_skip_spaces(bytes@, pos as int);
    }
    while end < bytes.len() && is_space_byte(bytes[end])
        invariant
            pos <= end <= bytes@.len(),
            skip_spaces(bytes@, end as int) == skip_spaces(bytes@, pos as int),
        decreases bytes@.len() - end,
    {
        end = end + 1;
    }
    end
}

/// Tells whether a byte is ASCII white space.
pub fn is_space_byte(b: u8) -> (r: bool)
    ensures
        r == is_space(b),
{
    b == 0x20 || (0x09 <= b && b <= 0x0d)
}

/// Tells whether `lit` stands in `bytes` at `pos`.
pub fn starts_with_at(bytes: &[u8], pos: usize, lit: &[u8]) -> (r: bool)
    requires
        pos <= bytes@.len(),
    ensures
        r == occurs_at(bytes@, pos as int, lit@),
{
    if lit.len() > bytes.len() - pos {
        return false;
    }
    let total: usize = bytes.len();
    let mut i: usize = 0;
    while i < lit.len()
        invariant
            total == bytes@.len(),
            pos + lit@.len() <= bytes@.len(),
            i <= lit@.len(),
            forall|j: int| 0 <= j < i ==> bytes@[pos + j] == lit@[j],
        decreases lit@.len() - i,
    {
        if bytes[pos + i] != lit[i] {
            proof {
                let ghost window = bytes@.subrange(pos as int, pos + lit@.len());
                assert(window[i as int] == bytes@[pos + i]);
            }
            return false;
        }
        i = i + 1;
    }
    assert(bytes@.subrange(pos as int, pos + lit@.len()) =~= lit@);
    true
}

/// A boundary of a text is a boundary of every prefix that ends on a
/// boundary after it.
pub proof fn lemma_boundary_in_prefix(bytes: Seq<u8>, start: int, end: int)
    requires
        valid_utf8(bytes),
        0 <= start <= end <= bytes.len(),
        is_char_boundary(bytes, start),
        is_char_boundary(bytes, end),
    ensures
        valid_utf8(bytes.subrange(0, end)),
        is_char_boundary(bytes.subrange(0, end), start),
{
    valid_utf8_split(bytes, start);
    valid_utf8_split(bytes, end);
    let head = bytes.subrange(0, end);
    assert(head.subrange(0, start) =~= bytes.subrange(0, start));
    lemma_valid_prefix_is_boundary(head, start);
}

/// The part of `text` from `start` up to `end`, borrowed from it.
pub fn slice<'a>(text: &'a str, start: usize, end: usize) -> (part: &'a str)
    requires
        start <= end <= text.spec_bytes().len(),
        is_char_boundary(text.spec_bytes(), start as int),
        is_char_boundary(text.spec_bytes(), end as int),
    ensures
        part.spec_bytes() == text.spec_bytes().subrange(start as int, end as int),
{
    proof {
        encode_utf8_valid_utf8(text@);
        lemma_boundary_in_prefix(text.spec_bytes(), start as int, end as int);
    }
    let head = text.split_at(end).0;
    let part = head.split_at(start).1;
    assert(part.spec_bytes() =~= text.spec_bytes().subrange(start as int, end as int));
    part
}

} // verus!
