//! What parsing means: the outcome of every symbol and rule at every offset
//! of a text, as a function of the grammar and the text alone.

use vstd::prelude::*;
use vstd::utf8::*;
use crate::pattern::first_match;
use crate::syntax::{BodyShape, Ranking, Shape, Syntax};
use crate::text::{occurs_at, skip_spaces};
use crate::value::Tree;

verus! {

/// The model of a failure: what was expected, and the offset where it was
/// missing.
pub struct Diagnostic {
    pub expected: Seq<char>,
    pub offset: int,
}

/// The model of a parse result.
pub enum Outcome {
    /// The symbol matched up to `end` and yields `tree`.
    Match { end: int, tree: Tree },
    /// The symbol did not match.
    Fail(Diagnostic),
}

/// Of two failures the one farther into the text; of two at the same offset
/// the newer one.
pub open spec fn farther(kept: Diagnostic, newer: Diagnostic) -> Diagnostic {
    if newer.offset >= kept.offset {
        newer
    } else {
        kept
    }
}

/// The farthest failure so far, after one more.
pub open spec fn merge(best: Option<Diagnostic>, newer: Diagnostic) -> Diagnostic {
    match best {
        Some(kept) => farther(kept, newer),
        None => newer,
    }
}

/// The failure of a symbol that cannot be tried at `pos`. No symbol of a
/// well-formed grammar ever yields it on an offset inside the text.
pub open spec fn stuck(pos: int) -> Outcome {
    Outcome::Fail(Diagnostic { expected: Seq::empty(), offset: pos })
}

/// The outcome of an exact text at `pos`: white space is skipped, then the
/// bytes of `literal` must follow.
pub open spec fn match_text(text: Seq<u8>, pos: int, literal: Seq<char>) -> Outcome {
    let from = skip_spaces(text, pos);
    let bytes = encode_utf8(literal);
    if occurs_at(text, from, bytes) {
        Outcome::Match {
            end: from + bytes.len(),
            tree: Tree::Text { start: from, end: from + bytes.len() },
        }
    } else {
        Outcome::Fail(Diagnostic { expected: literal, offset: from })
    }
}

/// Where the match `found` in `tail` ends, if it counts: it has to start
/// `tail`, end inside it and on a boundary, and be none of the keywords.
pub open spec fn accepted_end(
    tail: Seq<u8>,
    found: Option<(usize, usize)>,
    keywords: Seq<Seq<u8>>,
) -> Option<int> {
    match found {
        Some((start, end)) => if start == 0 && end <= tail.len() && is_char_boundary(
            tail,
            end as int,
        ) && !keywords.contains(tail.subrange(0, end as int)) {
            Some(end as int)
        } else {
            None
        },
        None => None,
    }
}

/// The outcome of a pattern at `pos`, when `found` is what the search of
/// the text from `pos` on has found: a match that counts ends the pattern
/// and spans the text from `pos`; anything else is a failure at `pos`.
pub open spec fn pattern_outcome(
    text: Seq<u8>,
    pos: int,
    found: Option<(usize, usize)>,
    keywords: Seq<Seq<u8>>,
    expected: Seq<char>,
) -> Outcome {
    match accepted_end(text.subrange(pos, text.len() as int), found, keywords) {
        Some(len) => Outcome::Match {
            end: pos + len,
            tree: Tree::Text { start: pos, end: pos + len },
        },
        None => Outcome::Fail(Diagnostic { expected, offset: pos }),
    }
}

/// The outcome of a pattern at `pos`: a match of `pattern` must start
/// right at `pos`, white space or not, and be none of the keywords.
pub open spec fn match_pattern(
    text: Seq<u8>,
    pos: int,
    pattern: Seq<char>,
    keywords: Seq<Seq<u8>>,
    expected: Seq<char>,
) -> Outcome {
    let tail = text.subrange(pos, text.len() as int);
    pattern_outcome(text, pos, first_match(pattern, decode_utf8(tail)), keywords, expected)
}

/// The outcome of the symbol at `n` when it is tried at `pos`.
///
/// The tests on levels make the definition terminate. For a ranking that
/// witnesses the grammar they all hold.
pub open spec fn parse_node(syn: Syntax, rk: Ranking, text: Seq<u8>, n: int, pos: int) -> Outcome
    decreases text.len() - pos, rk.node(n), 1nat, 0nat,
{
    if !(0 <= n < syn.nodes.len() && 0 <= pos <= text.len()) {
        stuck(pos)
    } else {
        match syn.nodes[n] {
            Shape::Text(literal) => match_text(text, pos, literal),
            Shape::Option(m) => if rk.node(m as int) < rk.node(n) {
                match parse_node(syn, rk, text, m as int, pos) {
                    Outcome::Match { end, tree } => Outcome::Match {
                        end,
                        tree: Tree::Present(Box::new(tree)),
                    },
                    Outcome::Fail(_) => Outcome::Match { end: pos, tree: Tree::Absent },
                }
            } else {
                stuck(pos)
            },
            Shape::Repeat(m) => parse_repeat(syn, rk, text, n, pos, pos, Seq::empty()),
            Shape::Elem(m) => if rk.node(m as int) < rk.node(n) {
                parse_node(syn, rk, text, m as int, pos)
            } else {
                stuck(pos)
            },
            Shape::Group(elems) => parse_group(syn, rk, text, n, pos, 0, pos, Seq::empty()),
            Shape::Choice(alts) => parse_choice(syn, rk, text, n, pos, 0, None),
            Shape::Symbol(r) => if rk.rule(r as int) < rk.node(n) {
                parse_rule(syn, rk, text, r as int, pos)
            } else {
                stuck(pos)
            },
        }
    }
}

/// The outcome of the rule at `r` when it is tried at `pos`.
pub open spec fn parse_rule(syn: Syntax, rk: Ranking, text: Seq<u8>, r: int, pos: int) -> Outcome
    decreases text.len() - pos, rk.rule(r), 1nat, 0nat,
{
    if !(0 <= r < syn.rules.len() && 0 <= pos <= text.len()) {
        stuck(pos)
    } else {
        match syn.rules[r].body {
            BodyShape::Pending => stuck(pos),
            BodyShape::Expr(m) => if rk.node(m as int) < rk.rule(r) {
                parse_node(syn, rk, text, m as int, pos)
            } else {
                stuck(pos)
            },
            BodyShape::Pattern { pattern, keywords, expected } => match_pattern(
                text,
                pos,
                pattern,
                keywords,
                expected,
            ),
        }
    }
}

/// The outcome of the sequence at `n`, tried at `start`, once its first `i`
/// elements have matched up to `cur` and have left the values `acc`. The
/// first element that fails fails the sequence, with its own failure.
pub open spec fn parse_group(
    syn: Syntax,
    rk: Ranking,
    text: Seq<u8>,
    n: int,
    start: int,
    i: int,
    cur: int,
    acc: Seq<Tree>,
) -> Outcome
    decreases text.len() - start, rk.node(n), 0nat, syn.nodes[n]->Group_0.len() - i,
{
    if !(0 <= n < syn.nodes.len() && syn.nodes[n] is Group && 0 <= i) {
        stuck(cur)
    } else {
        let elems = syn.nodes[n]->Group_0;
        if i >= elems.len() {
            Outcome::Match { end: cur, tree: Tree::Tuple(acc) }
        } else if !(0 <= start <= cur <= text.len() && (cur > start || rk.node(elems[i] as int)
            < rk.node(n))) {
            stuck(cur)
        } else {
            match parse_node(syn, rk, text, elems[i] as int, cur) {
                Outcome::Match { end, tree } => parse_group(
                    syn,
                    rk,
                    text,
                    n,
                    start,
                    i + 1,
                    end,
                    if syn.bound(elems[i] as int) {
                        acc.push(tree)
                    } else {
                        acc
                    },
                ),
                Outcome::Fail(d) => Outcome::Fail(d),
            }
        }
    }
}

/// The outcome of the ordered choice at `n`, tried at `pos`, once its first
/// `i` alternatives have failed and `best` is the farthest of their
/// failures. The first alternative that matches wins.
pub open spec fn parse_choice(
    syn: Syntax,
    rk: Ranking,
    text: Seq<u8>,
    n: int,
    pos: int,
    i: int,
    best: Option<Diagnostic>,
) -> Outcome
    decreases text.len() - pos, rk.node(n), 0nat, syn.nodes[n]->Choice_0.len() - i,
{
    if !(0 <= n < syn.nodes.len() && syn.nodes[n] is Choice && 0 <= i && 0 <= pos <= text.len()) {
        stuck(pos)
    } else {
        let alts = syn.nodes[n]->Choice_0;
        if i >= alts.len() {
            match best {
                Some(d) => Outcome::Fail(d),
                None => stuck(pos),
            }
        } else if !(rk.node(alts[i] as int) < rk.node(n)) {
            stuck(pos)
        } else {
            match parse_node(syn, rk, text, alts[i] as int, pos) {
                Outcome::Match { end, tree } => Outcome::Match {
                    end,
                    tree: Tree::Alt { index: i, value: Box::new(tree) },
                },
                Outcome::Fail(d) => parse_choice(
                    syn,
                    rk,
                    text,
                    n,
                    pos,
                    i + 1,
                    Some(merge(best, d)),
                ),
            }
        }
    }
}

/// The outcome of the repetition at `n`, tried at `start`, once matches up
/// to `cur` have left the values `acc`. The repetition ends, and matches,
/// when its symbol fails or matches without consuming text.
pub open spec fn parse_repeat(
    syn: Syntax,
    rk: Ranking,
    text: Seq<u8>,
    n: int,
    start: int,
    cur: int,
    acc: Seq<Tree>,
) -> Outcome
    decreases text.len() - start, rk.node(n), 0nat, text.len() - cur,
{
    if !(0 <= n < syn.nodes.len() && syn.nodes[n] is Repeat && 0 <= start <= cur <= text.len()) {
        stuck(cur)
    } else {
        let m = syn.nodes[n]->Repeat_0;
        if !(rk.node(m as int) < rk.node(n)) {
            stuck(cur)
        } else {
            match parse_node(syn, rk, text, m as int, cur) {
                Outcome::Match { end, tree } => if cur < end <= text.len() {
                    parse_repeat(syn, rk, text, n, start, end, acc.push(tree))
                } else {
                    Outcome::Match { end, tree: Tree::List(acc.push(tree)) }
                },
                Outcome::Fail(_) => Outcome::Match { end: cur, tree: Tree::List(acc) },
            }
        }
    }
}

impl Syntax {
    /// The outcome of the rule at `r` when it is tried at `pos` of `text`.
    pub open spec fn rule_at(self, text: Seq<u8>, r: int, pos: int) -> Outcome {
        parse_rule(self, self.ranking(), text, r, pos)
    }

    /// The outcome of the symbol at `n` when it is tried at `pos` of `text`.
    pub open spec fn node_at(self, text: Seq<u8>, n: int, pos: int) -> Outcome {
        parse_node(self, self.ranking(), text, n, pos)
    }
}

} // verus!
