//! A small grammar of greetings and sums, with numbers for values:
//!
//! ```text
//! Hi     = "Hi"                  => 1
//! Ho     = "Ho"                  => 2
//! HiOrHo = Hi / Ho
//! Sum    = Sum1 / HiOrHo
//! Sum1   = <x:HiOrHo> "+" <y:Sum> => x + y * 10
//! HiHo   = Hi Ho                 => ()
//! Rep    = { HiOrHo }
//! ```

use vstd::prelude::*;
use vstd::string::StringSliceAdditionalSpecFns;
use crate::cursor::{Input, ParseResult};
use crate::grammar::{Body, Grammar, Node};
use crate::packrat::Packrat;
use crate::symbol::{follows, matched, Symbol};
use crate::syntax::{BodyShape, Ranking, RuleShape, Shape, Syntax};
use crate::value::{lemma_list_tree, Tree, Value};

verus! {

/// The place of the rule `Hi`.
pub const HI: usize = 0;

/// The place of the rule `Ho`.
pub const HO: usize = 1;

/// The place of the rule `HiOrHo`.
pub const HI_OR_HO: usize = 2;

/// The place of the rule `Sum`.
pub const SUM: usize = 3;

/// The place of the rule `Sum1`.
pub const SUM1: usize = 4;

/// The place of the rule `HiHo`.
pub const HI_HO: usize = 5;

/// The place of the rule `Rep`.
pub const REP: usize = 6;

/// The data that the grammar shares between its symbols: none.
pub struct Foo;

/// The model of the grammar.
pub open spec fn silly_syntax() -> Syntax {
    Syntax {
        nodes: seq![
            Shape::Text("Hi"@),
            Shape::Text("Ho"@),
            Shape::Symbol(HI),
            Shape::Symbol(HO),
            Shape::Choice(seq![2usize, 3usize]),
            Shape::Symbol(SUM1),
            Shape::Symbol(HI_OR_HO),
            Shape::Choice(seq![5usize, 6usize]),
            Shape::Elem(6),
            Shape::Text("+"@),
            Shape::Symbol(SUM),
            Shape::Elem(10),
            Shape::Group(seq![8usize, 9usize, 11usize]),
            Shape::Group(seq![2usize, 3usize]),
            Shape::Repeat(6),
        ],
        rules: seq![
            RuleShape { name: "Hi"@, body: BodyShape::Expr(0) },
            RuleShape { name: "Ho"@, body: BodyShape::Expr(1) },
            RuleShape { name: "HiOrHo"@, body: BodyShape::Expr(4) },
            RuleShape { name: "Sum"@, body: BodyShape::Expr(7) },
            RuleShape { name: "Sum1"@, body: BodyShape::Expr(12) },
            RuleShape { name: "HiHo"@, body: BodyShape::Expr(13) },
            RuleShape { name: "Rep"@, body: BodyShape::Expr(14) },
        ],
    }
}

/// Levels and solid symbols that show the grammar free of left recursion:
/// `Sum1` comes back to `Sum` only after `HiOrHo`, which consumes text.
pub open spec fn silly_ranking() -> Ranking {
    Ranking {
        node_level: seq![0nat, 0, 2, 2, 3, 9, 5, 10, 6, 0, 12, 13, 7, 3, 6],
        rule_level: seq![1nat, 1, 4, 11, 8, 4, 7],
        node_solid: seq![
            true,
            true,
            true,
            true,
            true,
            false,
            true,
            false,
            true,
            true,
            false,
            false,
            true,
            true,
            false,
        ],
        rule_solid: seq![true, true, true, false, false, false, false],
    }
}

/// The grammar has no left recursion.
pub proof fn lemma_silly_wf()
    ensures
        silly_syntax().ranked_by(silly_ranking()),
        silly_syntax().wf(),
{
    let syn = silly_syntax();
    let rk = silly_ranking();
    reveal_strlit("Hi");
    reveal_strlit("Ho");
    reveal_strlit("+");
    reveal_with_fuel(Ranking::solid_before, 4);
    assert(syn.node_ranked(rk, 0));
    assert(syn.node_ranked(rk, 1));
    assert(syn.node_ranked(rk, 2));
    assert(syn.node_ranked(rk, 3));
    assert(syn.node_ranked(rk, 4));
    assert(syn.node_ranked(rk, 5));
    assert(syn.node_ranked(rk, 6));
    assert(syn.node_ranked(rk, 7));
    assert(syn.node_ranked(rk, 8));
    assert(syn.node_ranked(rk, 9));
    assert(syn.node_ranked(rk, 10));
    assert(syn.node_ranked(rk, 11));
    assert(syn.node_ranked(rk, 12));
    assert(syn.node_ranked(rk, 13));
    assert(syn.node_ranked(rk, 14));
    assert(syn.rule_ranked(rk, 0));
    assert(syn.rule_ranked(rk, 1));
    assert(syn.rule_ranked(rk, 2));
    assert(syn.rule_ranked(rk, 3));
    assert(syn.rule_ranked(rk, 4));
    assert(syn.rule_ranked(rk, 5));
    assert(syn.rule_ranked(rk, 6));
    assert(syn.ranked_by(rk));
}

impl Foo {
    /// Builds the grammar.
    pub fn grammar<'input>(&self) -> (grammar: Grammar<'input>)
        ensures
            grammar@ == silly_syntax(),
    {
        let mut grammar = Grammar::new();
        grammar.add(Node::Text("Hi"));
        grammar.add(Node::Text("Ho"));
        grammar.add(Node::Symbol(HI));
        grammar.add(Node::Symbol(HO));
        grammar.add(Node::Choice(vec![2, 3]));
        grammar.add(Node::Symbol(SUM1));
        grammar.add(Node::Symbol(HI_OR_HO));
        grammar.add(Node::Choice(vec![5, 6]));
        grammar.add(Node::Elem(6));
        grammar.add(Node::Text("+"));
        grammar.add(Node::Symbol(SUM));
        grammar.add(Node::Elem(10));
        grammar.add(Node::Group(vec![8, 9, 11]));
        grammar.add(Node::Group(vec![2, 3]));
        grammar.add(Node::Repeat(6));
        grammar.rule("Hi", Body::Expr(0));
        grammar.rule("Ho", Body::Expr(1));
        grammar.rule("HiOrHo", Body::Expr(4));
        grammar.rule("Sum", Body::Expr(7));
        grammar.rule("Sum1", Body::Expr(12));
        grammar.rule("HiHo", Body::Expr(13));
        grammar.rule("Rep", Body::Expr(14));
        assert(grammar@.nodes =~= silly_syntax().nodes);
        assert(grammar@.rules =~= silly_syntax().rules);
        grammar
    }
}

/// The context that the symbols of the grammar parse with.
pub struct Parser<'input> {
    context: Packrat<'input>,
}

impl<'input> Parser<'input> {
    /// The grammar and its memo cache.
    pub closed spec fn context(self) -> Packrat<'input> {
        self.context
    }

    /// The cache holds outcomes in `text` only.
    pub open spec fn ready(self, text: Seq<u8>) -> bool {
        &&& self.context().syntax() == silly_syntax()
        &&& self.context().ready(text)
    }

    /// Nothing has been parsed yet.
    pub open spec fn fresh(self) -> bool {
        &&& self.context().syntax() == silly_syntax()
        &&& self.context().memo()@.len() == silly_syntax().rules.len()
        &&& self.context().memo().is_empty()
    }

    /// A context with an empty cache, ready for any text.
    pub fn new(base: Foo) -> (parser: Parser<'input>)
        ensures
            parser.fresh(),
            forall|text: Seq<u8>| #[trigger] parser.ready(text),
    {
        let grammar = base.grammar();
        let context = Packrat::new(grammar);
        proof {
            lemma_silly_wf();
        }
        Parser { context }
    }

    /// Parses the rule at `rule` from `input` on.
    fn apply(&mut self, rule: usize, input: Input<'input>) -> (result: ParseResult<
        'input,
        Value,
    >)
        requires
            old(self).ready(input.bytes()),
            rule < silly_syntax().rules.len(),
            input.wf(),
        ensures
            final(self).ready(input.bytes()),
            follows(silly_syntax(), rule as int, input, result),
            result matches Ok((_, value)) ==> value@ == matched(
                silly_syntax(),
                rule as int,
                input,
            ),
            result matches Ok((rest, _)) ==> {
                &&& rest.text == input.text
                &&& rest.wf()
                &&& rest.offset >= input.offset
            },
            result matches Err(error) ==> input.offset <= error.offset <= input.bytes().len(),
    {
        self.context.parse_rule(rule, input)
    }
}

/// The number of a `HiOrHo`: 1 for `Hi`, 2 for `Ho`.
pub open spec fn hi_or_ho(tree: Tree) -> u32 {
    match tree {
        Tree::Alt { index, .. } => if index == 0 {
            1
        } else {
            2
        },
        _ => 0,
    }
}

/// The number of a `Sum`: that of its `Sum1`, or of its `HiOrHo`.
pub open spec fn sum(tree: Tree) -> u32
    decreases tree, 1nat,
{
    match tree {
        Tree::Alt { index, value } => if index == 0 {
            sum1(*value)
        } else {
            hi_or_ho(*value)
        },
        _ => 0,
    }
}

/// The number of a `Sum1`: `x + y * 10`, in the arithmetic of `u32`.
pub open spec fn sum1(tree: Tree) -> u32
    decreases tree, 0nat,
{
    match tree {
        Tree::Tuple(items) => if items.len() == 2 {
            hi_or_ho(items[0]).wrapping_add(sum(items[1]).wrapping_mul(10))
        } else {
            0
        },
        _ => 0,
    }
}

/// The numbers of a `Rep`.
pub open spec fn rep(tree: Tree) -> Seq<u32> {
    match tree {
        Tree::List(items) => Seq::new(items.len(), |i: int| hi_or_ho(items[i])),
        _ => Seq::empty(),
    }
}

/// Computes the number of a `HiOrHo`.
pub fn eval_hi_or_ho(value: &Value) -> (number: u32)
    ensures
        number == hi_or_ho(value@),
{
    match value.peel() {
        Value::Alt { index, .. } => if *index == 0 {
            1
        } else {
            2
        },
        _ => 0,
    }
}

/// Computes the number of a `Sum`.
pub fn eval_sum(value: &Value) -> (number: u32)
    ensures
        number == sum(value@),
    decreases value@, 1nat,
{
    match value.peel() {
        Value::Alt { index, value: inner } => if *index == 0 {
            eval_sum1(inner)
        } else {
            eval_hi_or_ho(inner)
        },
        _ => 0,
    }
}

/// Computes the number of a `Sum1`.
pub fn eval_sum1(value: &Value) -> (number: u32)
    ensures
        number == sum1(value@),
    decreases value@, 0nat,
{
    match value.peel() {
        Value::Tuple(items) => {
            proof {
                lemma_list_tree(*items);
            }
            if items.len() == 2 {
                let x = eval_hi_or_ho(&items[0]);
                proof {
                    let parts = value@->Tuple_0;
                    assert(parts[1] == items@[1]@);
                    assert(decreases_to!(value@ => parts[1]));
                }
                let y = eval_sum(&items[1]);
                x.wrapping_add(y.wrapping_mul(10))
            } else {
                0
            }
        },
        _ => 0,
    }
}

/// Computes the numbers of a `Rep`.
pub fn eval_rep(value: &Value) -> (numbers: Vec<u32>)
    ensures
        numbers@ == rep(value@),
{
    let mut numbers: Vec<u32> = Vec::new();
    match value.peel() {
        Value::List(items) => {
            proof {
                lemma_list_tree(*items);
            }
            let mut i: usize = 0;
            while i < items.len()
                invariant
                    i <= items@.len(),
                    numbers@.len() == i,
                    forall|j: int| 0 <= j < i ==> numbers@[j] == hi_or_ho(items@[j]@),
                decreases items@.len() - i,
            {
                numbers.push(eval_hi_or_ho(&items[i]));
                i = i + 1;
            }
            assert(numbers@ =~= rep(value@));
        },
        _ => {
            assert(numbers@ =~= rep(value@));
        },
    }
    numbers
}

/// The symbol `Hi`: the text `Hi`, with the number 1.
pub struct Hi;

impl<'input> Symbol<'input, Parser<'input>> for Hi {
    type Output = u32;

    open spec fn ready(&self, grammar: Parser<'input>, text: Seq<u8>) -> bool {
        grammar.ready(text)
    }

    open spec fn denotes(&self, input: Input<'input>, result: ParseResult<'input, u32>) -> bool {
        &&& follows(silly_syntax(), HI as int, input, result)
        &&& result matches Ok((_, out)) ==> out == 1
    }

    fn pretty_print(&self) -> (text: String)
        ensures
            text@ == "Hi"@,
    {
        "Hi".to_owned()
    }

    fn parse(&self, grammar: &mut Parser<'input>, input: Input<'input>) -> (result: ParseResult<
        'input,
        u32,
    >) {
        match grammar.apply(HI, input) {
            Ok((rest, value)) => Ok((rest, 1)),
            Err(error) => Err(error),
        }
    }
}

/// The symbol `Ho`: the text `Ho`, with the number 2.
pub struct Ho;

impl<'input> Symbol<'input, Parser<'input>> for Ho {
    type Output = u32;

    open spec fn ready(&self, grammar: Parser<'input>, text: Seq<u8>) -> bool {
        grammar.ready(text)
    }

    open spec fn denotes(&self, input: Input<'input>, result: ParseResult<'input, u32>) -> bool {
        &&& follows(silly_syntax(), HO as int, input, result)
        &&& result matches Ok((_, out)) ==> out == 2
    }

    fn pretty_print(&self) -> (text: String)
        ensures
            text@ == "Ho"@,
    {
        "Ho".to_owned()
    }

    fn parse(&self, grammar: &mut Parser<'input>, input: Input<'input>) -> (result: ParseResult<
        'input,
        u32,
    >) {
        match grammar.apply(HO, input) {
            Ok((rest, value)) => Ok((rest, 2)),
            Err(error) => Err(error),
        }
    }
}

/// The symbol `HiOrHo`: `Hi` or else `Ho`, with the number of the one that matched.
pub struct HiOrHo;

impl<'input> Symbol<'input, Parser<'input>> for HiOrHo {
    type Output = u32;

    open spec fn ready(&self, grammar: Parser<'input>, text: Seq<u8>) -> bool {
        grammar.ready(text)
    }

    open spec fn denotes(&self, input: Input<'input>, result: ParseResult<'input, u32>) -> bool {
        &&& follows(silly_syntax(), HI_OR_HO as int, input, result)
        &&& result matches Ok((_, out)) ==> out
            == hi_or_ho(matched(silly_syntax(), HI_OR_HO as int, input))
    }

    fn pretty_print(&self) -> (text: String)
        ensures
            text@ == "HiOrHo"@,
    {
        "HiOrHo".to_owned()
    }

    fn parse(&self, grammar: &mut Parser<'input>, input: Input<'input>) -> (result: ParseResult<
        'input,
        u32,
    >) {
        match grammar.apply(HI_OR_HO, input) {
            Ok((rest, value)) => Ok((rest, eval_hi_or_ho(&value))),
            Err(error) => Err(error),
        }
    }
}

/// The symbol `Sum`: numbers joined by `+`, each worth ten times the one before it.
pub struct Sum;

impl<'input> Symbol<'input, Parser<'input>> for Sum {
    type Output = u32;

    open spec fn ready(&self, grammar: Parser<'input>, text: Seq<u8>) -> bool {
        grammar.ready(text)
    }

    open spec fn denotes(&self, input: Input<'input>, result: ParseResult<'input, u32>) -> bool {
        &&& follows(silly_syntax(), SUM as int, input, result)
        &&& result matches Ok((_, out)) ==> out == sum(matched(silly_syntax(), SUM as int, input))
    }

    fn pretty_print(&self) -> (text: String)
        ensures
            text@ == "Sum"@,
    {
        "Sum".to_owned()
    }

    fn parse(&self, grammar: &mut Parser<'input>, input: Input<'input>) -> (result: ParseResult<
        'input,
        u32,
    >) {
        match grammar.apply(SUM, input) {
            Ok((rest, value)) => Ok((rest, eval_sum(&value))),
            Err(error) => Err(error),
        }
    }
}

/// The symbol `Sum1`: a `HiOrHo`, a `+` and a `Sum`.
pub struct Sum1;

impl<'input> Symbol<'input, Parser<'input>> for Sum1 {
    type Output = u32;

    open spec fn ready(&self, grammar: Parser<'input>, text: Seq<u8>) -> bool {
        grammar.ready(text)
    }

    open spec fn denotes(&self, input: Input<'input>, result: ParseResult<'input, u32>) -> bool {
        &&& follows(silly_syntax(), SUM1 as int, input, result)
        &&& result matches Ok((_, out)) ==> out == sum1(matched(silly_syntax(), SUM1 as int, input))
    }

    fn pretty_print(&self) -> (text: String)
        ensures
            text@ == "Sum1"@,
    {
        "Sum1".to_owned()
    }

    fn parse(&self, grammar: &mut Parser<'input>, input: Input<'input>) -> (result: ParseResult<
        'input,
        u32,
    >) {
        match grammar.apply(SUM1, input) {
            Ok((rest, value)) => Ok((rest, eval_sum1(&value))),
            Err(error) => Err(error),
        }
    }
}

/// The symbol `HiHo`: `Hi` and then `Ho`.
pub struct HiHo;

impl<'input> Symbol<'input, Parser<'input>> for HiHo {
    type Output = ();

    open spec fn ready(&self, grammar: Parser<'input>, text: Seq<u8>) -> bool {
        grammar.ready(text)
    }

    open spec fn denotes(&self, input: Input<'input>, result: ParseResult<'input, ()>) -> bool {
        &&& follows(silly_syntax(), HI_HO as int, input, result)
        &&& result matches Ok((_, out)) ==> out == ()
    }

    fn pretty_print(&self) -> (text: String)
        ensures
            text@ == "HiHo"@,
    {
        "HiHo".to_owned()
    }

    fn parse(&self, grammar: &mut Parser<'input>, input: Input<'input>) -> (result: ParseResult<
        'input,
        (),
    >) {
        match grammar.apply(HI_HO, input) {
            Ok((rest, value)) => Ok((rest, ())),
            Err(error) => Err(error),
        }
    }
}

/// The symbol `Rep`: any number of `HiOrHo`, with their numbers.
pub struct Rep;

impl<'input> Symbol<'input, Parser<'input>> for Rep {
    type Output = Vec<u32>;

    open spec fn ready(&self, grammar: Parser<'input>, text: Seq<u8>) -> bool {
        grammar.ready(text)
    }

    open spec fn denotes(&self, input: Input<'input>, result: ParseResult<'input, Vec<u32>>) -> bool {
        &&& follows(silly_syntax(), REP as int, input, result)
        &&& result matches Ok((_, out)) ==> out@ == rep(matched(silly_syntax(), REP as int, input))
    }

    fn pretty_print(&self) -> (text: String)
        ensures
            text@ == "Rep"@,
    {
        "Rep".to_owned()
    }

    fn parse(&self, grammar: &mut Parser<'input>, input: Input<'input>) -> (result: ParseResult<
        'input,
        Vec<u32>,
    >) {
        match grammar.apply(REP, input) {
            Ok((rest, value)) => Ok((rest, eval_rep(&value))),
            Err(error) => Err(error),
        }
    }
}

/// Parses the start of `text` with `symbol` and a new context, and returns
/// the value. The symbol has to match.
pub fn should_parse_prefix<'input, P>(symbol: &P, text: &'input str) -> (out: P::Output) where
    P: Symbol<'input, Parser<'input>> + ?Sized,

    requires
        forall|parser: Parser<'input>|
            parser.fresh() ==> #[trigger] symbol.ready(parser, text.spec_bytes()),
        forall|result: ParseResult<'input, P::Output>| #[trigger]
            symbol.denotes(Input { text, offset: 0 }, result) ==> result is Ok,
    ensures
        exists|rest: Input<'input>| #[trigger]
            symbol.denotes(Input { text, offset: 0 }, Ok((rest, out))),
{
    let mut parser = Parser::new(Foo);
    let result = symbol.parse_prefix(&mut parser, text);
    let (rest, out) = result.unwrap();
    out
}

} // verus!
