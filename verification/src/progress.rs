//! Every outcome stays inside the text: a match never moves the cursor
//! backwards nor off a code-point boundary, a solid symbol consumes text, a
//! failure lies at or after the offset where the symbol was tried.

use vstd::prelude::*;
use vstd::utf8::*;
use crate::pattern::first_match;
use crate::semantics::{
    accepted_end, match_pattern, match_text, merge, parse_choice, parse_group, parse_node,
    parse_repeat, parse_rule, pattern_outcome, Diagnostic, Outcome,
};
use crate::syntax::{BodyShape, Ranking, Shape, Syntax};
use crate::text::{
    lemma_boundary_after_literal, lemma_boundary_after_spaces, lemma_boundary_in_tail,
    lemma_encoding_not_empty, lemma_skip_spaces, skip_spaces,
};
use crate::value::Tree;

verus! {

/// `pos` is an offset of `text` at which a symbol can be tried.
pub open spec fn cursor_at(text: Seq<u8>, pos: int) -> bool {
    &&& valid_utf8(text)
    &&& 0 <= pos <= text.len()
    &&& is_char_boundary(text, pos)
}

/// `out` is a sound outcome of a symbol tried at `pos`: a match ends at a
/// cursor at or after `pos`, after it where the symbol is solid, and its
/// tree lies within the text; a failure lies between `pos` and the end.
pub open spec fn sound(text: Seq<u8>, pos: int, solid: bool, out: Outcome) -> bool {
    match out {
        Outcome::Match { end, tree } => {
            &&& pos <= end
            &&& cursor_at(text, end)
            &&& solid ==> pos < end
            &&& tree.within(text)
        },
        Outcome::Fail(d) => pos <= d.offset <= text.len(),
    }
}

/// All of `acc` lie within `text`.
pub open spec fn all_within(acc: Seq<Tree>, text: Seq<u8>) -> bool {
    forall|i: int| 0 <= i < acc.len() ==> (#[trigger] acc[i]).within(text)
}

/// The outcome of an exact text is sound, and consumes text where the
/// literal is not empty.
pub proof fn lemma_match_text(text: Seq<u8>, pos: int, literal: Seq<char>)
    requires
        cursor_at(text, pos),
    ensures
        sound(text, pos, literal.len() > 0, match_text(text, pos, literal)),
{
    lemma_skip_spaces(text, pos);
    lemma_boundary_after_spaces(text, pos);
    let from = skip_spaces(text, pos);
    encode_utf8_valid_utf8(literal);
    if literal.len() > 0 {
        lemma_encoding_not_empty(literal);
    }
    if crate::text::occurs_at(text, from, encode_utf8(literal)) {
        lemma_boundary_after_literal(text, from, encode_utf8(literal));
    }
}

/// The outcome of a pattern is sound, whatever the search has found.
pub proof fn lemma_pattern_outcome(
    text: Seq<u8>,
    from: int,
    found: Option<(usize, usize)>,
    keywords: Seq<Seq<u8>>,
    expected: Seq<char>,
)
    requires
        cursor_at(text, from),
    ensures
        sound(text, from, false, pattern_outcome(text, from, found, keywords, expected)),
{
    let tail = text.subrange(from, text.len() as int);
    match accepted_end(tail, found, keywords) {
        Some(len) => {
            lemma_boundary_in_tail(text, from, len);
        },
        None => {},
    }
}

/// The outcome of a pattern is sound.
pub proof fn lemma_match_pattern(
    text: Seq<u8>,
    pos: int,
    pattern: Seq<char>,
    keywords: Seq<Seq<u8>>,
    expected: Seq<char>,
)
    requires
        cursor_at(text, pos),
    ensures
        sound(text, pos, false, match_pattern(text, pos, pattern, keywords, expected)),
{
    let tail = text.subrange(pos, text.len() as int);
    lemma_pattern_outcome(text, pos, first_match(pattern, decode_utf8(tail)), keywords, expected);
}

/// The outcome of every symbol of a grammar without left recursion is
/// sound.
pub proof fn lemma_node_sound(syn: Syntax, rk: Ranking, text: Seq<u8>, n: int, pos: int)
    requires
        syn.ranked_by(rk),
        0 <= n < syn.nodes.len(),
        cursor_at(text, pos),
    ensures
        sound(text, pos, rk.node_solid[n], parse_node(syn, rk, text, n, pos)),
    decreases text.len() - pos, rk.node(n), 1nat, 0nat,
{
    assert(syn.node_ranked(rk, n));
    match syn.nodes[n] {
        Shape::Text(literal) => {
            lemma_match_text(text, pos, literal);
        },
        Shape::Option(m) => {
            lemma_node_sound(syn, rk, text, m as int, pos);
        },
        Shape::Repeat(m) => {
            lemma_repeat_sound(syn, rk, text, n, pos, pos, Seq::empty());
        },
        Shape::Elem(m) => {
            lemma_node_sound(syn, rk, text, m as int, pos);
        },
        Shape::Group(elems) => {
            lemma_group_sound(syn, rk, text, n, pos, 0, pos, Seq::empty());
        },
        Shape::Choice(alts) => {
            lemma_choice_sound(syn, rk, text, n, pos, 0, None);
        },
        Shape::Symbol(r) => {
            lemma_rule_sound(syn, rk, text, r as int, pos);
        },
    }
}

/// The outcome of every rule of a grammar without left recursion is sound.
pub proof fn lemma_rule_sound(syn: Syntax, rk: Ranking, text: Seq<u8>, r: int, pos: int)
    requires
        syn.ranked_by(rk),
        0 <= r < syn.rules.len(),
        cursor_at(text, pos),
    ensures
        sound(text, pos, rk.rule_solid[r], parse_rule(syn, rk, text, r, pos)),
    decreases text.len() - pos, rk.rule(r), 1nat, 0nat,
{
    assert(syn.rule_ranked(rk, r));
    match syn.rules[r].body {
        BodyShape::Pending => {},
        BodyShape::Expr(m) => {
            lemma_node_sound(syn, rk, text, m as int, pos);
        },
        BodyShape::Pattern { pattern, keywords, expected } => {
            lemma_match_pattern(text, pos, pattern, keywords, expected);
        },
    }
}

/// The rest of a sequence is sound: it ends after the start of the sequence
/// where one of its elements is solid.
pub proof fn lemma_group_sound(
    syn: Syntax,
    rk: Ranking,
    text: Seq<u8>,
    n: int,
    start: int,
    i: int,
    cur: int,
    acc: Seq<Tree>,
)
    requires
        syn.ranked_by(rk),
        0 <= n < syn.nodes.len(),
        syn.nodes[n] is Group,
        0 <= i <= syn.nodes[n]->Group_0.len(),
        0 <= start <= cur,
        cursor_at(text, cur),
        rk.solid_before(syn.nodes[n]->Group_0, i) ==> start < cur,
        all_within(acc, text),
    ensures
        sound(text, cur, false, parse_group(syn, rk, text, n, start, i, cur, acc)),
        parse_group(syn, rk, text, n, start, i, cur, acc) matches Outcome::Match { end, .. }
            ==> (rk.solid_before(syn.nodes[n]->Group_0, syn.nodes[n]->Group_0.len() as int)
            ==> start < end),
    decreases text.len() - start, rk.node(n), 0nat, syn.nodes[n]->Group_0.len() - i,
{
    let elems = syn.nodes[n]->Group_0;
    assert(syn.node_ranked(rk, n));
    if i < elems.len() {
        let e = elems[i] as int;
        assert(elems[i] < syn.nodes.len());
        lemma_node_sound(syn, rk, text, e, cur);
        match parse_node(syn, rk, text, e, cur) {
            Outcome::Match { end, tree } => {
                let next = if syn.bound(e) {
                    acc.push(tree)
                } else {
                    acc
                };
                assert(all_within(next, text));
                lemma_group_sound(syn, rk, text, n, start, i + 1, end, next);
            },
            Outcome::Fail(d) => {},
        }
    }
}

/// The rest of an ordered choice is sound, and solid where all its
/// alternatives are.
pub proof fn lemma_choice_sound(
    syn: Syntax,
    rk: Ranking,
    text: Seq<u8>,
    n: int,
    pos: int,
    i: int,
    best: Option<Diagnostic>,
)
    requires
        syn.ranked_by(rk),
        0 <= n < syn.nodes.len(),
        syn.nodes[n] is Choice,
        0 <= i <= syn.nodes[n]->Choice_0.len(),
        cursor_at(text, pos),
        best matches Some(d) ==> pos <= d.offset <= text.len(),
    ensures
        sound(text, pos, rk.node_solid[n], parse_choice(syn, rk, text, n, pos, i, best)),
    decreases text.len() - pos, rk.node(n), 0nat, syn.nodes[n]->Choice_0.len() - i,
{
    let alts = syn.nodes[n]->Choice_0;
    assert(syn.node_ranked(rk, n));
    if i < alts.len() {
        let a = alts[i] as int;
        assert(alts[i] < syn.nodes.len());
        lemma_node_sound(syn, rk, text, a, pos);
        match parse_node(syn, rk, text, a, pos) {
            Outcome::Match { end, tree } => {},
            Outcome::Fail(d) => {
                lemma_choice_sound(syn, rk, text, n, pos, i + 1, Some(merge(best, d)));
            },
        }
    }
}

/// The rest of a repetition matches, and is sound.
pub proof fn lemma_repeat_sound(
    syn: Syntax,
    rk: Ranking,
    text: Seq<u8>,
    n: int,
    start: int,
    cur: int,
    acc: Seq<Tree>,
)
    requires
        syn.ranked_by(rk),
        0 <= n < syn.nodes.len(),
        syn.nodes[n] is Repeat,
        0 <= start <= cur,
        cursor_at(text, cur),
        all_within(acc, text),
    ensures
        parse_repeat(syn, rk, text, n, start, cur, acc) is Match,
        sound(text, cur, false, parse_repeat(syn, rk, text, n, start, cur, acc)),
    decreases text.len() - start, rk.node(n), 0nat, text.len() - cur,
{
    let m = syn.nodes[n]->Repeat_0 as int;
    assert(syn.node_ranked(rk, n));
    lemma_node_sound(syn, rk, text, m, cur);
    match parse_node(syn, rk, text, m, cur) {
        Outcome::Match { end, tree } => {
            assert(all_within(acc.push(tree), text));
            if cur < end {
                lemma_repeat_sound(syn, rk, text, n, start, end, acc.push(tree));
            }
        },
        Outcome::Fail(_) => {},
    }
}

} // verus!
