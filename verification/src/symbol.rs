//! The contract of everything that parses: a symbol is applied to a cursor
//! and a context, and returns the cursor after the match with a value, or
//! the failure.

use vstd::prelude::*;
use vstd::string::StringSliceAdditionalSpecFns;
use crate::cursor::{result_outcome, Input, ParseResult};
use crate::packrat::Packrat;
use crate::semantics::Outcome;
use crate::syntax::Syntax;
use crate::value::{Tree, Value};

verus! {

/// A unit of a grammar. `G` is the context that it parses with.
///
/// A verified caller that is handed the context behind `&mut` cannot call a
/// symbol whose context names the lifetime of the text; it takes the context
/// by value, or makes it, and lends it out itself.
pub trait Symbol<'input, G> {
    /// What a match yields.
    type Output;

    /// The symbol can be applied with `grammar` to `text`. A symbol that
    /// does not say when it can be applied never can, as far as proofs go.
    open spec fn ready(&self, grammar: G, text: Seq<u8>) -> bool {
        false
    }

    /// `result` is what the symbol yields at `input`. A symbol that does not
    /// say what it yields may yield anything.
    open spec fn denotes(
        &self,
        input: Input<'input>,
        result: ParseResult<'input, Self::Output>,
    ) -> bool {
        true
    }

    /// Writes the symbol down.
    fn pretty_print(&self) -> String;

    /// Applies the symbol at the start of `text`.
    fn parse_prefix(&self, grammar: &mut G, text: &'input str) -> (result: ParseResult<
        'input,
        Self::Output,
    >)
        requires
            self.ready(*old(grammar), text.spec_bytes()),
        ensures
            self.ready(*final(grammar), text.spec_bytes()),
            self.denotes(Input { text, offset: 0 }, result),
            result matches Ok((rest, _)) ==> rest.text == text && rest.wf(),
            result matches Err(error) ==> error.offset <= text.spec_bytes().len(),
    {
        let input = Input::start(text);
        self.parse(grammar, input)
    }

    /// Applies the symbol at `input`. A match never moves the cursor
    /// backwards, and changes nothing of the context but its cache.
    fn parse(&self, grammar: &mut G, input: Input<'input>) -> (result: ParseResult<
        'input,
        Self::Output,
    >)
        requires
            self.ready(*old(grammar), input.bytes()),
            input.wf(),
        ensures
            self.ready(*final(grammar), input.bytes()),
            self.denotes(input, result),
            result matches Ok((rest, _)) ==> {
                &&& rest.text == input.text
                &&& rest.wf()
                &&& rest.offset >= input.offset
            },
            result matches Err(error) ==> input.offset <= error.offset <= input.bytes().len(),
    ;
}

/// The tree that the rule at `rule` of `syn` yields at `input`.
pub open spec fn matched<'input>(syn: Syntax, rule: int, input: Input<'input>) -> Tree {
    syn.rule_at(input.bytes(), rule, input.offset as int)->tree
}

/// `result` goes as the rule at `rule` of `syn` goes at `input`: where the
/// rule matches, it is a match, and its cursor stands in the same text
/// where the rule ends; where the rule fails, it is that failure.
pub open spec fn follows<'input, T>(
    syn: Syntax,
    rule: int,
    input: Input<'input>,
    result: ParseResult<'input, T>,
) -> bool {
    match syn.rule_at(input.bytes(), rule, input.offset as int) {
        Outcome::Match { end, .. } => {
            &&& result matches Ok((rest, _))
            &&& rest.text == input.text
            &&& rest.offset == end
        },
        Outcome::Fail(d) => result matches Err(error) && error@ == d,
    }
}

/// A reference to a named rule of a grammar.
pub struct SymbolRef<'input> {
    rule: usize,
    name: &'input str,
    syntax: Ghost<Syntax>,
}

impl<'input> SymbolRef<'input> {
    /// The place of the rule.
    pub closed spec fn rule(self) -> usize {
        self.rule
    }

    /// The grammar that the rule belongs to.
    pub closed spec fn syntax(self) -> Syntax {
        self.syntax@
    }

    /// The name of the rule.
    pub closed spec fn name(self) -> Seq<char> {
        self.name@
    }

    /// The rule of `context` at `rule`.
    pub fn new(context: &Packrat<'input>, rule: usize) -> (symbol: SymbolRef<'input>)
        requires
            rule < context.syntax().rules.len(),
        ensures
            symbol.rule() == rule,
            symbol.syntax() == context.syntax(),
            symbol.name() == context.syntax().rules[rule as int].name,
    {
        let grammar = context.grammar();
        SymbolRef { rule, name: grammar.rules[rule].name, syntax: Ghost(context.syntax()) }
    }
}

impl<'input> Symbol<'input, Packrat<'input>> for SymbolRef<'input> {
    type Output = Value;

    open spec fn ready(&self, grammar: Packrat<'input>, text: Seq<u8>) -> bool {
        &&& grammar.syntax() == self.syntax()
        &&& grammar.ready(text)
        &&& self.rule() < self.syntax().rules.len()
    }

    open spec fn denotes(&self, input: Input<'input>, result: ParseResult<'input, Value>) -> bool {
        &&& result_outcome(result) == self.syntax().rule_at(
            input.bytes(),
            self.rule() as int,
            input.offset as int,
        )
        &&& result matches Ok((rest, value)) ==> value@.within(input.bytes())
    }

    fn pretty_print(&self) -> (text: String)
        ensures
            text@ == self.name(),
    {
        self.name.to_owned()
    }

    fn parse(&self, grammar: &mut Packrat<'input>, input: Input<'input>) -> (result: ParseResult<
        'input,
        Value,
    >) {
        grammar.parse_rule(self.rule, input)
    }
}

/// A rule with a semantic action: the action turns the text and the value
/// of the rule into the output.
pub struct Action<'input, F> {
    pub target: SymbolRef<'input>,
    pub action: F,
}

impl<'input, T, F> Symbol<'input, Packrat<'input>> for Action<'input, F> where
    F: Fn(&'input str, Value) -> T,
 {
    type Output = T;

    open spec fn ready(&self, grammar: Packrat<'input>, text: Seq<u8>) -> bool {
        &&& self.target.ready(grammar, text)
        &&& forall|source: &'input str, value: Value|
            source.spec_bytes() == text && value@.within(text) ==> call_requires(
                self.action,
                (source, value),
            )
    }

    open spec fn denotes(&self, input: Input<'input>, result: ParseResult<'input, T>) -> bool {
        &&& follows(self.target.syntax(), self.target.rule() as int, input, result)
        &&& result matches Ok((_, out)) ==> exists|value: Value|
            value@ == matched(self.target.syntax(), self.target.rule() as int, input)
                && #[trigger] call_ensures(self.action, (input.text, value), out)
    }

    fn pretty_print(&self) -> (text: String)
        ensures
            text@ == self.target.name(),
    {
        self.target.name.to_owned()
    }

    fn parse(&self, grammar: &mut Packrat<'input>, input: Input<'input>) -> (result: ParseResult<
        'input,
        T,
    >) {
        match grammar.parse_rule(self.target.rule, input) {
            Ok((rest, value)) => {
                let ghost given = value;
                let out = (self.action)(input.text, value);
                let result: ParseResult<'input, T> = Ok((rest, out));
                assert(call_ensures(self.action, (input.text, given), result->Ok_0.1));
                result
            },
            Err(error) => Err(error),
        }
    }
}

} // verus!
