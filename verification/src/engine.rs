//! The parser: every symbol and rule of a grammar tried against the text,
//! with the memo cache consulted and filled at every rule.

use std::rc::Rc;
use vstd::prelude::*;
use vstd::string::StringSliceAdditionalSpecFns;
use crate::cursor::{gives_out, step_outcome, Error, Step};
use crate::grammar::{Body, Grammar, Node};
use crate::matchers::{match_identifier, match_literal};
use crate::memo::Memo;
use crate::progress::{cursor_at, lemma_node_sound};
use crate::semantics::{parse_choice, parse_group, parse_repeat, Diagnostic};
use crate::syntax::Syntax;
use crate::value::{lemma_list_tree, share, trees, Tree, Value};

verus! {

/// The grammar has no left recursion, the cache has a table for each of its
/// rules, and every entry is the outcome of its rule in `text`.
pub open spec fn ready(syn: Syntax, memo: Memo, text: Seq<u8>) -> bool {
    &&& syn.wf()
    &&& memo@.len() == syn.rules.len()
    &&& memo.remembers(syn, text)
}

/// The model of the farthest failure so far.
pub open spec fn best_model(best: Option<Error>) -> Option<Diagnostic> {
    match best {
        Some(error) => Some(error@),
        None => None,
    }
}

/// Tries the rule at `r` at `pos`: the entry of the cache where there is
/// one, else the body of the rule, whose outcome is then entered. The value
/// of a match is shared with the cache, not copied.
pub fn try_rule<'input>(
    grammar: &Grammar<'input>,
    memo: &mut Memo<'input>,
    text: &'input str,
    r: usize,
    pos: usize,
) -> (step: Step<'input>)
    requires
        ready(grammar@, *old(memo), text.spec_bytes()),
        r < grammar@.rules.len(),
        cursor_at(text.spec_bytes(), pos as int),
    ensures
        ready(grammar@, *final(memo), text.spec_bytes()),
        final(memo).extends(*old(memo)),
        final(memo)@[r as int].contains_key(pos),
        gives_out(step, final(memo)@[r as int][pos]),
        step_outcome(step) == grammar@.rule_at(text.spec_bytes(), r as int, pos as int),
    decreases text.spec_bytes().len() - pos, grammar@.ranking().rule(r as int), 1nat, 0nat,
{
    let ghost syn = grammar@;
    let ghost rk = syn.ranking();
    let ghost bytes = text.spec_bytes();
    proof {
        assert(syn.rule_ranked(rk, r as int));
    }
    match memo.lookup(r, pos) {
        Some(step) => {
            return step;
        },
        None => {},
    }
    let step = match &grammar.rules[r].body {
        Body::Pending => {
            proof {
                reveal_strlit("");
                assert(""@ =~= Seq::<char>::empty());
            }
            Err(Error { expected: "", offset: pos })
        },
        Body::Expr(m) => try_node(grammar, memo, text, *m, pos),
        Body::Pattern { pattern, keywords, expected } => match_identifier(
            text,
            pos,
            pattern,
            keywords,
            expected,
        ),
    };
    match step {
        Ok((end, value)) => {
            let shared = Rc::new(value);
            memo.store(r, pos, Ok((end, share(&shared))));
            Ok((end, Value::Rule(shared)))
        },
        Err(error) => {
            memo.store(r, pos, Err(error));
            Err(error)
        },
    }
}

/// Tries the symbol at `n` at `pos`.
pub fn try_node<'input>(
    grammar: &Grammar<'input>,
    memo: &mut Memo<'input>,
    text: &'input str,
    n: usize,
    pos: usize,
) -> (step: Step<'input>)
    requires
        ready(grammar@, *old(memo), text.spec_bytes()),
        n < grammar@.nodes.len(),
        cursor_at(text.spec_bytes(), pos as int),
    ensures
        ready(grammar@, *final(memo), text.spec_bytes()),
        final(memo).extends(*old(memo)),
        step_outcome(step) == grammar@.node_at(text.spec_bytes(), n as int, pos as int),
    decreases text.spec_bytes().len() - pos, grammar@.ranking().node(n as int), 1nat, 0nat,
{
    let ghost syn = grammar@;
    let ghost rk = syn.ranking();
    proof {
        assert(syn.node_ranked(rk, n as int));
    }
    match &grammar.nodes[n] {
        Node::Text(literal) => match_literal(text, pos, literal),
        Node::Option(m) => {
            match try_node(grammar, memo, text, *m, pos) {
                Ok((end, value)) => Ok((end, Value::Present(Box::new(value)))),
                Err(_) => Ok((pos, Value::Absent)),
            }
        },
        Node::Repeat(m) => try_repeat(grammar, memo, text, n, *m, pos),
        Node::Elem(m) => try_node(grammar, memo, text, *m, pos),
        Node::Group(elems) => try_group(grammar, memo, text, n, elems, pos),
        Node::Choice(alts) => try_choice(grammar, memo, text, n, alts, pos),
        Node::Symbol(r) => try_rule(grammar, memo, text, *r, pos),
    }
}

/// Tries the elements of the sequence at `n` one after the other, each
/// where the one before it ended. The first that fails fails the sequence;
/// if none does, the values of the bound elements are the value.
pub fn try_group<'input>(
    grammar: &Grammar<'input>,
    memo: &mut Memo<'input>,
    text: &'input str,
    n: usize,
    elems: &Vec<usize>,
    pos: usize,
) -> (step: Step<'input>)
    requires
        ready(grammar@, *old(memo), text.spec_bytes()),
        n < grammar@.nodes.len(),
        grammar@.nodes[n as int] == crate::syntax::Shape::Group(elems@),
        cursor_at(text.spec_bytes(), pos as int),
    ensures
        ready(grammar@, *final(memo), text.spec_bytes()),
        final(memo).extends(*old(memo)),
        step_outcome(step) == grammar@.node_at(text.spec_bytes(), n as int, pos as int),
    decreases text.spec_bytes().len() - pos, grammar@.ranking().node(n as int), 0nat, 0nat,
{
    let ghost syn = grammar@;
    let ghost rk = syn.ranking();
    let ghost bytes = text.spec_bytes();
    let ghost whole = parse_group(syn, rk, bytes, n as int, pos as int, 0, pos as int, Seq::empty());
    proof {
        assert(syn.node_ranked(rk, n as int));
    }
    let mut acc: Vec<Value> = Vec::new();
    let mut cur: usize = pos;
    let mut i: usize = 0;
    assert(trees(acc@) =~= Seq::<Tree>::empty());
    while i < elems.len()
        invariant
            ready(syn, *memo, bytes),
            memo.extends(*old(memo)),
            syn == grammar@,
            rk == syn.ranking(),
            syn.ranked_by(rk),
            bytes == text.spec_bytes(),
            whole == syn.node_at(bytes, n as int, pos as int),
            n < syn.nodes.len(),
            syn.nodes[n as int] == crate::syntax::Shape::Group(elems@),
            syn.node_ranked(rk, n as int),
            i <= elems@.len(),
            pos <= cur,
            cursor_at(bytes, cur as int),
            rk.solid_before(elems@, i as int) ==> pos < cur,
            parse_group(syn, rk, bytes, n as int, pos as int, i as int, cur as int, trees(acc@))
                == whole,
        decreases elems@.len() - i,
    {
        let e = elems[i];
        assert(elems@[i as int] < syn.nodes.len());
        let bound = match &grammar.nodes[e] {
            Node::Elem(_) => true,
            _ => false,
        };
        assert(bound == syn.bound(e as int));
        proof {
            lemma_node_sound(syn, rk, bytes, e as int, cur as int);
        }
        match try_node(grammar, memo, text, e, cur) {
            Ok((end, value)) => {
                proof {
                    assert(rk.solid_before(elems@, i + 1) ==> pos < end);
                    if bound {
                        assert(trees(acc@.push(value)) =~= trees(acc@).push(value@));
                    }
                }
                if bound {
                    acc.push(value);
                }
                cur = end;
            },
            Err(error) => {
                return Err(error);
            },
        }
        i = i + 1;
    }
    proof {
        lemma_list_tree(acc);
    }
    Ok((cur, Value::Tuple(acc)))
}

/// Tries the alternatives of the ordered choice at `n` in order, each at
/// `pos`. The first that matches wins; if none does, the farthest of their
/// failures is the failure.
pub fn try_choice<'input>(
    grammar: &Grammar<'input>,
    memo: &mut Memo<'input>,
    text: &'input str,
    n: usize,
    alts: &Vec<usize>,
    pos: usize,
) -> (step: Step<'input>)
    requires
        ready(grammar@, *old(memo), text.spec_bytes()),
        n < grammar@.nodes.len(),
        grammar@.nodes[n as int] == crate::syntax::Shape::Choice(alts@),
        cursor_at(text.spec_bytes(), pos as int),
    ensures
        ready(grammar@, *final(memo), text.spec_bytes()),
        final(memo).extends(*old(memo)),
        step_outcome(step) == grammar@.node_at(text.spec_bytes(), n as int, pos as int),
    decreases text.spec_bytes().len() - pos, grammar@.ranking().node(n as int), 0nat, 0nat,
{
    let ghost syn = grammar@;
    let ghost rk = syn.ranking();
    let ghost bytes = text.spec_bytes();
    let ghost whole = parse_choice(syn, rk, bytes, n as int, pos as int, 0, None);
    proof {
        assert(syn.node_ranked(rk, n as int));
    }
    let mut best: Option<Error<'input>> = None;
    let mut i: usize = 0;
    while i < alts.len()
        invariant
            ready(syn, *memo, bytes),
            memo.extends(*old(memo)),
            syn == grammar@,
            rk == syn.ranking(),
            syn.ranked_by(rk),
            bytes == text.spec_bytes(),
            whole == syn.node_at(bytes, n as int, pos as int),
            n < syn.nodes.len(),
            syn.nodes[n as int] == crate::syntax::Shape::Choice(alts@),
            syn.node_ranked(rk, n as int),
            i <= alts@.len(),
            cursor_at(bytes, pos as int),
            parse_choice(syn, rk, bytes, n as int, pos as int, i as int, best_model(best))
                == whole,
        decreases alts@.len() - i,
    {
        let a = alts[i];
        assert(alts@[i as int] < syn.nodes.len());
        match try_node(grammar, memo, text, a, pos) {
            Ok((end, value)) => {
                return Ok((end, Value::Alt { index: i, value: Box::new(value) }));
            },
            Err(error) => {
                best = match best {
                    Some(kept) => Some(kept.farther(error)),
                    None => Some(error),
                };
            },
        }
        i = i + 1;
    }
    match best {
        Some(error) => Err(error),
        None => {
            proof {
                reveal_strlit("");
                assert(""@ =~= Seq::<char>::empty());
            }
            Err(Error { expected: "", offset: pos })
        },
    }
}

/// Tries the symbol at `m`, which the repetition at `n` repeats, again and
/// again, each time where the match before ended, until it fails or matches
/// without consuming text. The values of the matches are the value.
pub fn try_repeat<'input>(
    grammar: &Grammar<'input>,
    memo: &mut Memo<'input>,
    text: &'input str,
    n: usize,
    m: usize,
    pos: usize,
) -> (step: Step<'input>)
    requires
        ready(grammar@, *old(memo), text.spec_bytes()),
        n < grammar@.nodes.len(),
        grammar@.nodes[n as int] == crate::syntax::Shape::Repeat(m),
        cursor_at(text.spec_bytes(), pos as int),
    ensures
        ready(grammar@, *final(memo), text.spec_bytes()),
        final(memo).extends(*old(memo)),
        step_outcome(step) == grammar@.node_at(text.spec_bytes(), n as int, pos as int),
        step is Ok,
    decreases text.spec_bytes().len() - pos, grammar@.ranking().node(n as int), 0nat, 0nat,
{
    let ghost syn = grammar@;
    let ghost rk = syn.ranking();
    let ghost bytes = text.spec_bytes();
    let ghost whole = parse_repeat(syn, rk, bytes, n as int, pos as int, pos as int, Seq::empty());
    proof {
        assert(syn.node_ranked(rk, n as int));
    }
    let mut acc: Vec<Value> = Vec::new();
    let mut cur: usize = pos;
    assert(trees(acc@) =~= Seq::<Tree>::empty());
    loop
        invariant
            ready(syn, *memo, bytes),
            memo.extends(*old(memo)),
            syn == grammar@,
            rk == syn.ranking(),
            syn.ranked_by(rk),
            bytes == text.spec_bytes(),
            whole == syn.node_at(bytes, n as int, pos as int),
            n < syn.nodes.len(),
            syn.nodes[n as int] == crate::syntax::Shape::Repeat(m),
            syn.node_ranked(rk, n as int),
            pos <= cur,
            cursor_at(bytes, cur as int),
            parse_repeat(syn, rk, bytes, n as int, pos as int, cur as int, trees(acc@)) == whole,
        decreases bytes.len() - cur,
    {
        proof {
            lemma_node_sound(syn, rk, bytes, m as int, cur as int);
        }
        match try_node(grammar, memo, text, m, cur) {
            Ok((end, value)) => {
                proof {
                    assert(trees(acc@.push(value)) =~= trees(acc@).push(value@));
                }
                acc.push(value);
                if end > cur {
                    cur = end;
                } else {
                    proof {
                        lemma_list_tree(acc);
                    }
                    return Ok((end, Value::List(acc)));
                }
            },
            Err(_) => {
                proof {
                    lemma_list_tree(acc);
                }
                return Ok((cur, Value::List(acc)));
            },
        }
    }
}

} // verus!
