//! The two matchers that read the text itself: the exact text and the
//! pattern.

use vstd::prelude::*;
use vstd::string::StringSliceAdditionalSpecFns;
use vstd::utf8::*;
use crate::cursor::{step_outcome, Error, Step};
use crate::grammar::words_bytes;
use crate::pattern::find_first;
use crate::progress::{cursor_at, lemma_match_text, lemma_pattern_outcome, sound};
use crate::semantics::{match_pattern, match_text, pattern_outcome};
use crate::text::{skip_whitespace, starts_with_at};
use crate::value::Value;

verus! {

/// Matches `literal` in `text` at `pos`, after any white space. A failure
/// expects the literal at the offset after the white space.
pub fn match_literal<'input>(text: &'input str, pos: usize, literal: &'input str) -> (step: Step<
    'input,
>)
    requires
        cursor_at(text.spec_bytes(), pos as int),
    ensures
        step_outcome(step) == match_text(text.spec_bytes(), pos as int, literal@),
        sound(text.spec_bytes(), pos as int, literal@.len() > 0, step_outcome(step)),
{
    proof {
        lemma_match_text(text.spec_bytes(), pos as int, literal@);
    }
    let bytes = text.as_bytes();
    let from = skip_whitespace(bytes, pos);
    let wanted = literal.as_bytes();
    if starts_with_at(bytes, from, wanted) {
        let total: usize = bytes.len();
        assert(from + wanted@.len() <= total);
        let end = from + wanted.len();
        Ok((end, Value::Text { start: from, end }))
    } else {
        Err(Error { expected: literal, offset: from })
    }
}

/// Tells whether the first `end` bytes of `bytes` are one of `keywords`.
pub fn is_keyword(bytes: &[u8], end: usize, keywords: &Vec<&str>) -> (found: bool)
    requires
        end <= bytes@.len(),
    ensures
        found == words_bytes(keywords@).contains(bytes@.subrange(0, end as int)),
{
    let ghost word = bytes@.subrange(0, end as int);
    let mut i: usize = 0;
    while i < keywords.len()
        invariant
            i <= keywords@.len(),
            end <= bytes@.len(),
            word == bytes@.subrange(0, end as int),
            forall|j: int| 0 <= j < i ==> words_bytes(keywords@)[j] != word,
        decreases keywords@.len() - i,
    {
        let keyword = keywords[i].as_bytes();
        if keyword.len() == end && starts_with_at(bytes, 0, keyword) {
            assert(words_bytes(keywords@)[i as int] == word);
            return true;
        }
        proof {
            if words_bytes(keywords@)[i as int] == word {
                assert(keyword@.len() == end);
            }
        }
        i = i + 1;
    }
    false
}

/// Decides what a search for a pattern in the text from `pos` on comes to,
/// when `found` is where its first match starts and ends in that rest. The
/// match counts if it starts right at `pos`, ends inside the text without
/// splitting a code point, and is none of `keywords`. A failure expects
/// `expected` at `pos`.
pub fn accept_match<'input>(
    text: &'input str,
    pos: usize,
    found: Option<(usize, usize)>,
    keywords: &Vec<&str>,
    expected: &'input str,
) -> (step: Step<'input>)
    requires
        cursor_at(text.spec_bytes(), pos as int),
    ensures
        step_outcome(step) == pattern_outcome(
            text.spec_bytes(),
            pos as int,
            found,
            words_bytes(keywords@),
            expected@,
        ),
        sound(text.spec_bytes(), pos as int, false, step_outcome(step)),
{
    proof {
        lemma_pattern_outcome(
            text.spec_bytes(),
            pos as int,
            found,
            words_bytes(keywords@),
            expected@,
        );
    }
    let parts = text.split_at(pos);
    let tail = parts.1;
    assert(tail.spec_bytes() == text.spec_bytes().subrange(
        pos as int,
        text.spec_bytes().len() as int,
    ));
    match found {
        Some((start, end)) => {
            if start == 0 && end <= tail.as_bytes().len() && tail.is_char_boundary(end)
                && !is_keyword(tail.as_bytes(), end, keywords) {
                let total: usize = text.as_bytes().len();
                assert(pos + end <= total);
                let stop = pos + end;
                Ok((stop, Value::Text { start: pos, end: stop }))
            } else {
                Err(Error { expected, offset: pos })
            }
        },
        None => Err(Error { expected, offset: pos }),
    }
}

/// Matches `pattern` in `text` right at `pos`: no white space is skipped.
/// The match has to start at `pos` and be none of `keywords`; its value
/// spans the text from `pos` to where it ends. A failure expects `expected`
/// at `pos`.
pub fn match_identifier<'input>(
    text: &'input str,
    pos: usize,
    pattern: &str,
    keywords: &Vec<&str>,
    expected: &'input str,
) -> (step: Step<'input>)
    requires
        cursor_at(text.spec_bytes(), pos as int),
    ensures
        step_outcome(step) == match_pattern(
            text.spec_bytes(),
            pos as int,
            pattern@,
            words_bytes(keywords@),
            expected@,
        ),
        sound(text.spec_bytes(), pos as int, false, step_outcome(step)),
{
    let parts = text.split_at(pos);
    let tail = parts.1;
    proof {
        encode_utf8_decode_utf8(tail@);
        assert(tail.spec_bytes() == text.spec_bytes().subrange(
            pos as int,
            text.spec_bytes().len() as int,
        ));
    }
    let found = find_first(pattern, tail);
    accept_match(text, pos, found, keywords, expected)
}

} // verus!
