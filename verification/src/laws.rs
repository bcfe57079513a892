//! What holds of every grammar without left recursion and of every text.

use vstd::prelude::*;
use crate::cursor::{entry_outcome, step_outcome, Step};
use crate::engine::ready;
use crate::memo::Memo;
use crate::progress::{cursor_at, lemma_node_sound, lemma_repeat_sound, lemma_rule_sound, sound};
use crate::semantics::{farther, merge, parse_choice, parse_node, parse_repeat, Diagnostic, Outcome};
use crate::syntax::{Ranking, Syntax};
use crate::value::Tree;

verus! {

/// A rule that matches never moves the cursor backwards, nor out of the
/// text, nor into the middle of a code point; a rule that fails reports an
/// offset between the cursor and the end of the text.
pub proof fn lemma_rule_moves_forward(syn: Syntax, text: Seq<u8>, r: int, pos: int)
    requires
        syn.wf(),
        0 <= r < syn.rules.len(),
        cursor_at(text, pos),
    ensures
        sound(text, pos, false, syn.rule_at(text, r, pos)),
{
    lemma_rule_sound(syn, syn.ranking(), text, r, pos);
}

/// A symbol that matches never moves the cursor backwards, nor out of the
/// text, nor into the middle of a code point; a symbol that fails reports
/// an offset between the cursor and the end of the text.
pub proof fn lemma_node_moves_forward(syn: Syntax, text: Seq<u8>, n: int, pos: int)
    requires
        syn.wf(),
        0 <= n < syn.nodes.len(),
        cursor_at(text, pos),
    ensures
        sound(text, pos, false, syn.node_at(text, n, pos)),
{
    lemma_node_sound(syn, syn.ranking(), text, n, pos);
}

/// Two results that each stand for the outcome of one rule at one offset
/// of one text stand for the same outcome: parsing has no hidden input.
pub proof fn lemma_parse_is_a_function(
    syn: Syntax,
    text: Seq<u8>,
    r: int,
    pos: int,
    first: Step,
    second: Step,
)
    requires
        step_outcome(first) == syn.rule_at(text, r, pos),
        step_outcome(second) == syn.rule_at(text, r, pos),
    ensures
        step_outcome(first) == step_outcome(second),
{
}

/// An entry of a memo cache is what the rule yields when it is parsed
/// with no cache at all, so a parse with any cache and a parse with an
/// empty one agree.
pub proof fn lemma_memo_is_transparent(
    syn: Syntax,
    memo: Memo,
    text: Seq<u8>,
    r: int,
    pos: usize,
)
    requires
        ready(syn, memo, text),
        0 <= r < syn.rules.len(),
        memo@[r].contains_key(pos),
    ensures
        entry_outcome(memo@[r][pos]) == syn.rule_at(text, r, pos as int),
{
}

/// The outcome of the alternative at `j` of the alternatives `alts`.
#[verifier::opaque]
pub open spec fn alternative(
    syn: Syntax,
    text: Seq<u8>,
    alts: Seq<usize>,
    j: int,
    pos: int,
) -> Outcome {
    syn.node_at(text, alts[j] as int, pos)
}

proof fn lemma_choice_from(
    syn: Syntax,
    rk: Ranking,
    text: Seq<u8>,
    n: int,
    pos: int,
    i: int,
    k: int,
    best: Option<Diagnostic>,
)
    requires
        syn.ranked_by(rk),
        0 <= n < syn.nodes.len(),
        syn.nodes[n] is Choice,
        0 <= i <= k < syn.nodes[n]->Choice_0.len(),
        0 <= pos <= text.len(),
        forall|j: int|
            i <= j < k ==> parse_node(syn, rk, text, syn.nodes[n]->Choice_0[j] as int, pos) is Fail,
        parse_node(syn, rk, text, syn.nodes[n]->Choice_0[k] as int, pos) is Match,
    ensures
        parse_choice(syn, rk, text, n, pos, i, best) == (Outcome::Match {
            end: parse_node(syn, rk, text, syn.nodes[n]->Choice_0[k] as int, pos)->end,
            tree: Tree::Alt {
                index: k,
                value: Box::new(
                    parse_node(syn, rk, text, syn.nodes[n]->Choice_0[k] as int, pos)->tree,
                ),
            },
        }),
    decreases k - i,
{
    let alts = syn.nodes[n]->Choice_0;
    assert(syn.node_ranked(rk, n));
    assert(alts[i] < syn.nodes.len());
    if i < k {
        let d = parse_node(syn, rk, text, alts[i] as int, pos)->Fail_0;
        lemma_choice_from(syn, rk, text, n, pos, i + 1, k, Some(merge(best, d)));
    }
}

/// An ordered choice yields what its first matching alternative yields,
/// whatever the alternatives after it would do.
pub proof fn lemma_choice_takes_first_match(syn: Syntax, text: Seq<u8>, n: int, pos: int, k: int)
    requires
        syn.wf(),
        0 <= n < syn.nodes.len(),
        syn.nodes[n] is Choice,
        0 <= k < syn.nodes[n]->Choice_0.len(),
        0 <= pos <= text.len(),
        forall|j: int| 0 <= j < k ==> alternative(syn, text, syn.nodes[n]->Choice_0, j, pos) is Fail,
        alternative(syn, text, syn.nodes[n]->Choice_0, k, pos) is Match,
    ensures
        syn.node_at(text, n, pos) == (Outcome::Match {
            end: alternative(syn, text, syn.nodes[n]->Choice_0, k, pos)->end,
            tree: Tree::Alt {
                index: k,
                value: Box::new(alternative(syn, text, syn.nodes[n]->Choice_0, k, pos)->tree),
            },
        }),
{
    let rk = syn.ranking();
    let alts = syn.nodes[n]->Choice_0;
    reveal(alternative);
    assert forall|j: int| 0 <= j < k implies parse_node(
        syn,
        rk,
        text,
        alts[j] as int,
        pos,
    ) is Fail by {
        assert(alternative(syn, text, alts, j, pos) is Fail);
    }
    lemma_choice_from(syn, rk, text, n, pos, 0, k, None);
}

/// `d` is the failure of the alternative at `k`; no alternative from `from`
/// on fails farther into the text, and those after `k` fail nearer.
pub open spec fn farthest_at(
    syn: Syntax,
    text: Seq<u8>,
    alts: Seq<usize>,
    from: int,
    pos: int,
    d: Diagnostic,
    k: int,
) -> bool {
    &&& from <= k < alts.len()
    &&& alternative(syn, text, alts, k, pos) == Outcome::Fail(d)
    &&& forall|j: int|
        from <= j < alts.len() ==> (#[trigger] alternative(syn, text, alts, j, pos))->Fail_0.offset
            <= d.offset
    &&& forall|j: int|
        k < j < alts.len() ==> (#[trigger] alternative(syn, text, alts, j, pos))->Fail_0.offset
            < d.offset
}

/// `d` is the farthest of the failures of the alternatives from `from` on,
/// and the last of these where several lie equally far.
pub open spec fn is_farthest(
    syn: Syntax,
    text: Seq<u8>,
    alts: Seq<usize>,
    from: int,
    pos: int,
    d: Diagnostic,
) -> bool {
    exists|k: int| farthest_at(syn, text, alts, from, pos, d, k)
}

/// Every alternative from `from` on fails nearer than `d`.
pub open spec fn all_nearer(
    syn: Syntax,
    text: Seq<u8>,
    alts: Seq<usize>,
    from: int,
    pos: int,
    d: Diagnostic,
) -> bool {
    forall|j: int|
        from <= j < alts.len() ==> (#[trigger] alternative(syn, text, alts, j, pos))->Fail_0.offset
            < d.offset
}

proof fn lemma_choice_all_fail(
    syn: Syntax,
    rk: Ranking,
    text: Seq<u8>,
    n: int,
    pos: int,
    i: int,
    best: Option<Diagnostic>,
)
    requires
        syn.ranked_by(rk),
        rk == syn.ranking(),
        0 <= n < syn.nodes.len(),
        syn.nodes[n] is Choice,
        0 <= i <= syn.nodes[n]->Choice_0.len(),
        0 <= pos <= text.len(),
        forall|j: int|
            i <= j < syn.nodes[n]->Choice_0.len() ==> #[trigger] alternative(
                syn,
                text,
                syn.nodes[n]->Choice_0,
                j,
                pos,
            ) is Fail,
    ensures
        parse_choice(syn, rk, text, n, pos, i, best) is Fail,
        best matches Some(kept) ==> {
            let d = parse_choice(syn, rk, text, n, pos, i, best)->Fail_0;
            let alts = syn.nodes[n]->Choice_0;
            ||| is_farthest(syn, text, alts, i, pos, d) && kept.offset <= d.offset
            ||| d == kept && all_nearer(syn, text, alts, i, pos, d)
        },
        best is None && i < syn.nodes[n]->Choice_0.len() ==> is_farthest(
            syn,
            text,
            syn.nodes[n]->Choice_0,
            i,
            pos,
            parse_choice(syn, rk, text, n, pos, i, best)->Fail_0,
        ),
    decreases syn.nodes[n]->Choice_0.len() - i,
{
    let alts = syn.nodes[n]->Choice_0;
    assert(syn.node_ranked(rk, n));
    if i < alts.len() {
        assert(alts[i] < syn.nodes.len());
        let out = alternative(syn, text, alts, i, pos);
        assert(out is Fail);
        assert(out == parse_node(syn, rk, text, alts[i] as int, pos)) by {
            reveal(alternative);
        }
        let here = out->Fail_0;
        let next = merge(best, here);
        let rest = parse_choice(syn, rk, text, n, pos, i + 1, Some(next));
        lemma_choice_all_fail(syn, rk, text, n, pos, i + 1, Some(next));
        assert(parse_choice(syn, rk, text, n, pos, i, best) == rest);
        let d = rest->Fail_0;
        if is_farthest(syn, text, alts, i + 1, pos, d) && next.offset <= d.offset {
            let from = i + 1;
            let k = choose|k: int| farthest_at(syn, text, alts, from, pos, d, k);
            assert(here.offset <= next.offset);
            assert(farthest_at(syn, text, alts, i, pos, d, k));
        } else {
            assert(d == next);
            assert(all_nearer(syn, text, alts, i + 1, pos, d));
            if next == here {
                assert(farthest_at(syn, text, alts, i, pos, d, i));
            } else {
                assert(best is Some && next == best->Some_0);
                assert(here.offset < d.offset);
                assert(all_nearer(syn, text, alts, i, pos, d));
            }
        }
    }
}

/// When every alternative of an ordered choice fails, the choice fails
/// with the farthest of their failures, and with the last of these where
/// several lie equally far.
pub proof fn lemma_choice_reports_farthest(syn: Syntax, text: Seq<u8>, n: int, pos: int)
    requires
        syn.wf(),
        0 <= n < syn.nodes.len(),
        syn.nodes[n] is Choice,
        syn.nodes[n]->Choice_0.len() > 0,
        0 <= pos <= text.len(),
        forall|j: int|
            0 <= j < syn.nodes[n]->Choice_0.len() ==> #[trigger] alternative(
                syn,
                text,
                syn.nodes[n]->Choice_0,
                j,
                pos,
            ) is Fail,
    ensures
        syn.node_at(text, n, pos) is Fail,
        is_farthest(syn, text, syn.nodes[n]->Choice_0, 0, pos, syn.node_at(text, n, pos)->Fail_0),
{
    lemma_choice_all_fail(syn, syn.ranking(), text, n, pos, 0, None);
}

/// Of two failures the merge keeps the offset that lies farther.
pub proof fn lemma_farther_is_max(kept: Diagnostic, newer: Diagnostic)
    ensures
        farther(kept, newer).offset == if kept.offset >= newer.offset {
            kept.offset
        } else {
            newer.offset
        },
        farther(kept, newer) == kept || farther(kept, newer) == newer,
        kept.offset == newer.offset ==> farther(kept, newer) == newer,
{
}

/// A repetition never fails.
pub proof fn lemma_repeat_always_matches(syn: Syntax, text: Seq<u8>, n: int, pos: int)
    requires
        syn.wf(),
        0 <= n < syn.nodes.len(),
        syn.nodes[n] is Repeat,
        cursor_at(text, pos),
    ensures
        syn.node_at(text, n, pos) is Match,
        syn.node_at(text, n, pos)->tree is List,
{
    let rk = syn.ranking();
    lemma_repeat_sound(syn, rk, text, n, pos, pos, Seq::empty());
    lemma_repeat_yields_list(syn, rk, text, n, pos, pos, Seq::empty());
}

proof fn lemma_repeat_yields_list(
    syn: Syntax,
    rk: Ranking,
    text: Seq<u8>,
    n: int,
    start: int,
    cur: int,
    acc: Seq<Tree>,
)
    requires
        parse_repeat(syn, rk, text, n, start, cur, acc) is Match,
    ensures
        parse_repeat(syn, rk, text, n, start, cur, acc)->tree is List,
    decreases text.len() - cur,
{
    if 0 <= n < syn.nodes.len() && syn.nodes[n] is Repeat && 0 <= start <= cur <= text.len() {
        let m = syn.nodes[n]->Repeat_0;
        if rk.node(m as int) < rk.node(n) {
            match parse_node(syn, rk, text, m as int, cur) {
                Outcome::Match { end, tree } => {
                    if cur < end <= text.len() {
                        lemma_repeat_yields_list(syn, rk, text, n, start, end, acc.push(tree));
                    }
                },
                Outcome::Fail(_) => {},
            }
        }
    }
}

/// A repetition of a symbol that does not match yields the empty list and
/// leaves the cursor where it was.
pub proof fn lemma_repeat_of_no_match(syn: Syntax, text: Seq<u8>, n: int, pos: int)
    requires
        syn.wf(),
        0 <= n < syn.nodes.len(),
        syn.nodes[n] is Repeat,
        0 <= pos <= text.len(),
        syn.node_at(text, syn.nodes[n]->Repeat_0 as int, pos) is Fail,
    ensures
        syn.node_at(text, n, pos) == (Outcome::Match { end: pos, tree: Tree::List(Seq::empty()) }),
{
    let rk = syn.ranking();
    assert(syn.ranked_by(rk));
    assert(syn.node_ranked(rk, n));
    assert(syn.node_at(text, n, pos) == parse_repeat(syn, rk, text, n, pos, pos, Seq::empty()));
}

/// An optional symbol never fails: where its symbol does not match, it
/// yields nothing and leaves the cursor where it was.
pub proof fn lemma_option_always_matches(syn: Syntax, text: Seq<u8>, n: int, pos: int)
    requires
        syn.wf(),
        0 <= n < syn.nodes.len(),
        syn.nodes[n] is Option,
        0 <= pos <= text.len(),
    ensures
        syn.node_at(text, n, pos) is Match,
        syn.node_at(text, syn.nodes[n]->Option_0 as int, pos) is Fail ==> syn.node_at(text, n, pos)
            == (Outcome::Match { end: pos, tree: Tree::Absent }),
{
    let rk = syn.ranking();
    assert(syn.ranked_by(rk));
    assert(syn.node_ranked(rk, n));
}

} // verus!
