//! The laws of the engine, stated of the results that references to rules
//! return: whatever context and whatever cache a result came from.

use vstd::prelude::*;
use crate::cursor::{result_outcome, Input, ParseResult};
use crate::laws::{
    alternative, farthest_at, lemma_choice_reports_farthest, lemma_choice_takes_first_match, lemma_repeat_always_matches, lemma_repeat_of_no_match,
};
use crate::progress::lemma_rule_sound;
use crate::semantics::farther;
use crate::symbol::{Symbol, SymbolRef};
use crate::syntax::{Shape, Syntax};
use crate::value::{Tree, Value};

verus! {

/// The rule at `r` is defined by the symbol `shape`.
pub open spec fn defined_by(syn: Syntax, r: int, shape: Shape) -> bool {
    &&& 0 <= r < syn.rules.len()
    &&& syn.rules[r].body is Expr
    &&& syn.rules[r].body->Expr_0 < syn.nodes.len()
    &&& syn.nodes[syn.rules[r].body->Expr_0 as int] == shape
}

/// The symbol at `n` is a reference to the rule at `r`.
pub open spec fn refers_to(syn: Syntax, n: usize, r: usize) -> bool {
    n < syn.nodes.len() && syn.nodes[n as int] == Shape::Symbol(r)
}

/// A rule that is defined by a symbol yields what that symbol yields.
pub proof fn lemma_rule_is_its_body(syn: Syntax, text: Seq<u8>, r: int, pos: int)
    requires
        syn.wf(),
        0 <= r < syn.rules.len(),
        syn.rules[r].body is Expr,
        0 <= pos <= text.len(),
    ensures
        syn.rule_at(text, r, pos) == syn.node_at(text, syn.rules[r].body->Expr_0 as int, pos),
{
    assert(syn.rule_ranked(syn.ranking(), r));
}

/// A reference to a rule yields what the rule yields.
pub proof fn lemma_reference_is_its_rule(syn: Syntax, text: Seq<u8>, n: int, pos: int)
    requires
        syn.wf(),
        0 <= n < syn.nodes.len(),
        syn.nodes[n] is Symbol,
        0 <= pos <= text.len(),
    ensures
        syn.node_at(text, n, pos) == syn.rule_at(text, syn.nodes[n]->Symbol_0 as int, pos),
{
    assert(syn.node_ranked(syn.ranking(), n));
}

/// Two results of one rule at one cursor are the same outcome, that of the
/// grammar and the text alone: it does not matter which context gave them,
/// nor what its cache held.
pub proof fn lemma_results_agree<'input>(
    symbol: SymbolRef<'input>,
    input: Input<'input>,
    first: ParseResult<'input, Value>,
    second: ParseResult<'input, Value>,
)
    requires
        symbol.denotes(input, first),
        symbol.denotes(input, second),
    ensures
        result_outcome(first) == result_outcome(second),
        result_outcome(first) == symbol.syntax().rule_at(
            input.bytes(),
            symbol.rule() as int,
            input.offset as int,
        ),
        first is Ok <==> second is Ok,
        first matches Ok((rest, value)) ==> second matches Ok((again, same)) && again.offset
            == rest.offset && same@ == value@,
        first matches Err(error) ==> second matches Err(same) && same.offset == error.offset
            && same.expected@ == error.expected@,
{
}

/// A match never moves the cursor backwards, and a failure lies between the
/// cursor and the end of the text.
pub proof fn lemma_result_moves_forward<'input>(
    symbol: SymbolRef<'input>,
    input: Input<'input>,
    result: ParseResult<'input, Value>,
)
    requires
        symbol.syntax().wf(),
        symbol.rule() < symbol.syntax().rules.len(),
        input.wf(),
        symbol.denotes(input, result),
    ensures
        result matches Ok((rest, _)) ==> input.offset <= rest.offset <= input.bytes().len(),
        result matches Err(error) ==> input.offset <= error.offset <= input.bytes().len(),
{
    vstd::utf8::encode_utf8_valid_utf8(input.text@);
    lemma_rule_sound(
        symbol.syntax(),
        symbol.syntax().ranking(),
        input.bytes(),
        symbol.rule() as int,
        input.offset as int,
    );
}

/// Where the first alternative of an ordered choice matches, the choice
/// ends where it ends and yields its value, marked as the first: whether
/// and how a later alternative would match does not matter.
pub proof fn lemma_choice_yields_first<'input>(
    choice: SymbolRef<'input>,
    first: SymbolRef<'input>,
    alts: Seq<usize>,
    input: Input<'input>,
    of_first: ParseResult<'input, Value>,
    of_choice: ParseResult<'input, Value>,
)
    requires
        choice.syntax().wf(),
        first.syntax() == choice.syntax(),
        defined_by(choice.syntax(), choice.rule() as int, Shape::Choice(alts)),
        alts.len() > 0,
        refers_to(choice.syntax(), alts[0], first.rule()),
        input.wf(),
        first.denotes(input, of_first),
        choice.denotes(input, of_choice),
        of_first is Ok,
    ensures
        of_choice matches Ok((rest, value)) && rest.offset == of_first->Ok_0.0.offset && value@
            == (Tree::Alt { index: 0, value: Box::new(of_first->Ok_0.1@) }),
{
    let syn = choice.syntax();
    let text = input.bytes();
    let pos = input.offset as int;
    let body = syn.rules[choice.rule() as int].body->Expr_0 as int;
    lemma_rule_is_its_body(syn, text, choice.rule() as int, pos);
    lemma_reference_is_its_rule(syn, text, alts[0] as int, pos);
    assert(alternative(syn, text, alts, 0, pos) == syn.rule_at(text, first.rule() as int, pos))
        by {
        reveal(alternative);
    }
    lemma_choice_takes_first_match(syn, text, body, pos, 0);
}

/// Where both alternatives of an ordered choice of two fail, the choice
/// fails with the failure that lies farther into the text, whichever of
/// the two comes first, and with that of the second where both lie
/// equally far.
pub proof fn lemma_choice_reports_farther<'input>(
    choice: SymbolRef<'input>,
    first: SymbolRef<'input>,
    second: SymbolRef<'input>,
    alts: Seq<usize>,
    input: Input<'input>,
    of_first: ParseResult<'input, Value>,
    of_second: ParseResult<'input, Value>,
    of_choice: ParseResult<'input, Value>,
)
    requires
        choice.syntax().wf(),
        first.syntax() == choice.syntax(),
        second.syntax() == choice.syntax(),
        defined_by(choice.syntax(), choice.rule() as int, Shape::Choice(alts)),
        alts.len() == 2,
        refers_to(choice.syntax(), alts[0], first.rule()),
        refers_to(choice.syntax(), alts[1], second.rule()),
        input.wf(),
        first.denotes(input, of_first),
        second.denotes(input, of_second),
        choice.denotes(input, of_choice),
        of_first is Err,
        of_second is Err,
    ensures
        of_choice matches Err(error) && error@ == farther(of_first->Err_0@, of_second->Err_0@),
        of_choice->Err_0.offset == if of_first->Err_0.offset > of_second->Err_0.offset {
            of_first->Err_0.offset
        } else {
            of_second->Err_0.offset
        },
{
    let syn = choice.syntax();
    let text = input.bytes();
    let pos = input.offset as int;
    let body = syn.rules[choice.rule() as int].body->Expr_0 as int;
    lemma_rule_is_its_body(syn, text, choice.rule() as int, pos);
    lemma_reference_is_its_rule(syn, text, alts[0] as int, pos);
    lemma_reference_is_its_rule(syn, text, alts[1] as int, pos);
    assert(alternative(syn, text, alts, 0, pos) == syn.rule_at(text, first.rule() as int, pos))
        by {
        reveal(alternative);
    }
    assert(alternative(syn, text, alts, 1, pos) == syn.rule_at(text, second.rule() as int, pos))
        by {
        reveal(alternative);
    }
    assert forall|j: int| 0 <= j < alts.len() implies #[trigger] alternative(
        syn,
        text,
        alts,
        j,
        pos,
    ) is Fail by {
        assert(j == 0 || j == 1);
    }
    lemma_choice_reports_farthest(syn, text, body, pos);
    let d = syn.node_at(text, body, pos)->Fail_0;
    let k = choose|k: int| farthest_at(syn, text, alts, 0, pos, d, k);
    assert(k == 0 || k == 1);
    assert(alternative(syn, text, alts, 0, pos)->Fail_0.offset <= d.offset);
    assert(alternative(syn, text, alts, 1, pos)->Fail_0.offset <= d.offset);
}

/// A repetition never fails, and yields a list.
pub proof fn lemma_repetition_matches<'input>(
    repetition: SymbolRef<'input>,
    item: usize,
    input: Input<'input>,
    result: ParseResult<'input, Value>,
)
    requires
        repetition.syntax().wf(),
        defined_by(repetition.syntax(), repetition.rule() as int, Shape::Repeat(item)),
        input.wf(),
        repetition.denotes(input, result),
    ensures
        result matches Ok((_, value)) && value@ is List,
{
    let syn = repetition.syntax();
    let text = input.bytes();
    let pos = input.offset as int;
    let body = syn.rules[repetition.rule() as int].body->Expr_0 as int;
    vstd::utf8::encode_utf8_valid_utf8(input.text@);
    lemma_rule_is_its_body(syn, text, repetition.rule() as int, pos);
    lemma_repeat_always_matches(syn, text, body, pos);
}

/// A repetition of a rule that fails at the cursor yields the empty list
/// and leaves the cursor where it was.
pub proof fn lemma_repetition_of_failure<'input>(
    repetition: SymbolRef<'input>,
    repeated: SymbolRef<'input>,
    item: usize,
    input: Input<'input>,
    of_repeated: ParseResult<'input, Value>,
    of_repetition: ParseResult<'input, Value>,
)
    requires
        repetition.syntax().wf(),
        repeated.syntax() == repetition.syntax(),
        defined_by(repetition.syntax(), repetition.rule() as int, Shape::Repeat(item)),
        refers_to(repetition.syntax(), item, repeated.rule()),
        input.wf(),
        repeated.denotes(input, of_repeated),
        repetition.denotes(input, of_repetition),
        of_repeated is Err,
    ensures
        of_repetition matches Ok((rest, value)) && rest.offset == input.offset && value@
            == Tree::List(Seq::empty()),
{
    let syn = repetition.syntax();
    let text = input.bytes();
    let pos = input.offset as int;
    let body = syn.rules[repetition.rule() as int].body->Expr_0 as int;
    lemma_rule_is_its_body(syn, text, repetition.rule() as int, pos);
    lemma_reference_is_its_rule(syn, text, item as int, pos);
    lemma_repeat_of_no_match(syn, text, body, pos);
}

} // verus!
