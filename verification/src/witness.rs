//! The outcome of a parse does not depend on the ranking that shows the
//! grammar free of left recursion: every such ranking passes every test on
//! levels that the definition of an outcome makes.

use vstd::prelude::*;
use crate::progress::{cursor_at, lemma_node_sound};
use crate::semantics::{
    merge, parse_choice, parse_group, parse_node, parse_repeat, parse_rule, Diagnostic, Outcome,
};
use crate::syntax::{BodyShape, Ranking, Shape, Syntax};
use crate::value::Tree;

verus! {

/// A symbol has the same outcome under any two rankings of its grammar.
pub proof fn lemma_node_any_ranking(
    syn: Syntax,
    a: Ranking,
    b: Ranking,
    text: Seq<u8>,
    n: int,
    pos: int,
)
    requires
        syn.ranked_by(a),
        syn.ranked_by(b),
        0 <= n < syn.nodes.len(),
        cursor_at(text, pos),
    ensures
        parse_node(syn, a, text, n, pos) == parse_node(syn, b, text, n, pos),
    decreases text.len() - pos, a.node(n), 1nat, 0nat,
{
    assert(syn.node_ranked(a, n));
    assert(syn.node_ranked(b, n));
    match syn.nodes[n] {
        Shape::Text(literal) => {},
        Shape::Option(m) => {
            lemma_node_any_ranking(syn, a, b, text, m as int, pos);
        },
        Shape::Repeat(m) => {
            lemma_repeat_any_ranking(syn, a, b, text, n, pos, pos, Seq::empty());
        },
        Shape::Elem(m) => {
            lemma_node_any_ranking(syn, a, b, text, m as int, pos);
        },
        Shape::Group(elems) => {
            lemma_group_any_ranking(syn, a, b, text, n, pos, 0, pos, Seq::empty());
        },
        Shape::Choice(alts) => {
            lemma_choice_any_ranking(syn, a, b, text, n, pos, 0, None);
        },
        Shape::Symbol(r) => {
            lemma_rule_any_ranking(syn, a, b, text, r as int, pos);
        },
    }
}

/// A rule has the same outcome under any two rankings of its grammar.
pub proof fn lemma_rule_any_ranking(
    syn: Syntax,
    a: Ranking,
    b: Ranking,
    text: Seq<u8>,
    r: int,
    pos: int,
)
    requires
        syn.ranked_by(a),
        syn.ranked_by(b),
        0 <= r < syn.rules.len(),
        cursor_at(text, pos),
    ensures
        parse_rule(syn, a, text, r, pos) == parse_rule(syn, b, text, r, pos),
    decreases text.len() - pos, a.rule(r), 1nat, 0nat,
{
    assert(syn.rule_ranked(a, r));
    assert(syn.rule_ranked(b, r));
    match syn.rules[r].body {
        BodyShape::Pending => {},
        BodyShape::Expr(m) => {
            lemma_node_any_ranking(syn, a, b, text, m as int, pos);
        },
        BodyShape::Pattern { .. } => {},
    }
}

proof fn lemma_group_any_ranking(
    syn: Syntax,
    a: Ranking,
    b: Ranking,
    text: Seq<u8>,
    n: int,
    start: int,
    i: int,
    cur: int,
    acc: Seq<Tree>,
)
    requires
        syn.ranked_by(a),
        syn.ranked_by(b),
        0 <= n < syn.nodes.len(),
        syn.nodes[n] is Group,
        0 <= i <= syn.nodes[n]->Group_0.len(),
        0 <= start <= cur,
        cursor_at(text, cur),
        a.solid_before(syn.nodes[n]->Group_0, i) ==> start < cur,
        b.solid_before(syn.nodes[n]->Group_0, i) ==> start < cur,
    ensures
        parse_group(syn, a, text, n, start, i, cur, acc) == parse_group(
            syn,
            b,
            text,
            n,
            start,
            i,
            cur,
            acc,
        ),
    decreases text.len() - start, a.node(n), 0nat, syn.nodes[n]->Group_0.len() - i,
{
    let elems = syn.nodes[n]->Group_0;
    assert(syn.node_ranked(a, n));
    assert(syn.node_ranked(b, n));
    if i < elems.len() {
        let e = elems[i] as int;
        assert(elems[i] < syn.nodes.len());
        lemma_node_any_ranking(syn, a, b, text, e, cur);
        lemma_node_sound(syn, a, text, e, cur);
        lemma_node_sound(syn, b, text, e, cur);
        match parse_node(syn, a, text, e, cur) {
            Outcome::Match { end, tree } => {
                let next = if syn.bound(e) {
                    acc.push(tree)
                } else {
                    acc
                };
                lemma_group_any_ranking(syn, a, b, text, n, start, i + 1, end, next);
            },
            Outcome::Fail(_) => {},
        }
    }
}

proof fn lemma_choice_any_ranking(
    syn: Syntax,
    a: Ranking,
    b: Ranking,
    text: Seq<u8>,
    n: int,
    pos: int,
    i: int,
    best: Option<Diagnostic>,
)
    requires
        syn.ranked_by(a),
        syn.ranked_by(b),
        0 <= n < syn.nodes.len(),
        syn.nodes[n] is Choice,
        0 <= i <= syn.nodes[n]->Choice_0.len(),
        cursor_at(text, pos),
    ensures
        parse_choice(syn, a, text, n, pos, i, best) == parse_choice(syn, b, text, n, pos, i, best),
    decreases text.len() - pos, a.node(n), 0nat, syn.nodes[n]->Choice_0.len() - i,
{
    let alts = syn.nodes[n]->Choice_0;
    assert(syn.node_ranked(a, n));
    assert(syn.node_ranked(b, n));
    if i < alts.len() {
        let alt = alts[i] as int;
        assert(alts[i] < syn.nodes.len());
        lemma_node_any_ranking(syn, a, b, text, alt, pos);
        match parse_node(syn, a, text, alt, pos) {
            Outcome::Match { .. } => {},
            Outcome::Fail(d) => {
                lemma_choice_any_ranking(syn, a, b, text, n, pos, i + 1, Some(merge(best, d)));
            },
        }
    }
}

proof fn lemma_repeat_any_ranking(
    syn: Syntax,
    a: Ranking,
    b: Ranking,
    text: Seq<u8>,
    n: int,
    start: int,
    cur: int,
    acc: Seq<Tree>,
)
    requires
        syn.ranked_by(a),
        syn.ranked_by(b),
        0 <= n < syn.nodes.len(),
        syn.nodes[n] is Repeat,
        0 <= start <= cur,
        cursor_at(text, cur),
    ensures
        parse_repeat(syn, a, text, n, start, cur, acc) == parse_repeat(
            syn,
            b,
            text,
            n,
            start,
            cur,
            acc,
        ),
    decreases text.len() - start, a.node(n), 0nat, text.len() - cur,
{
    let m = syn.nodes[n]->Repeat_0 as int;
    assert(syn.node_ranked(a, n));
    assert(syn.node_ranked(b, n));
    lemma_node_any_ranking(syn, a, b, text, m, cur);
    lemma_node_sound(syn, a, text, m, cur);
    match parse_node(syn, a, text, m, cur) {
        Outcome::Match { end, tree } => {
            if cur < end {
                lemma_repeat_any_ranking(syn, a, b, text, n, start, end, acc.push(tree));
            }
        },
        Outcome::Fail(_) => {},
    }
}

/// Any ranking that shows a grammar free of left recursion gives the
/// outcomes of its rules.
pub proof fn lemma_rule_at_by(syn: Syntax, rk: Ranking, text: Seq<u8>, r: int, pos: int)
    requires
        syn.ranked_by(rk),
        0 <= r < syn.rules.len(),
        cursor_at(text, pos),
    ensures
        syn.rule_at(text, r, pos) == parse_rule(syn, rk, text, r, pos),
{
    lemma_rule_any_ranking(syn, syn.ranking(), rk, text, r, pos);
}

/// Any ranking that shows a grammar free of left recursion gives the
/// outcomes of its symbols.
pub proof fn lemma_node_at_by(syn: Syntax, rk: Ranking, text: Seq<u8>, n: int, pos: int)
    requires
        syn.ranked_by(rk),
        0 <= n < syn.nodes.len(),
        cursor_at(text, pos),
    ensures
        syn.node_at(text, n, pos) == parse_node(syn, rk, text, n, pos),
{
    lemma_node_any_ranking(syn, syn.ranking(), rk, text, n, pos);
}

} // verus!
