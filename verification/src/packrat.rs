//! The context of a parse: a grammar together with the memo cache of the
//! text that is being parsed.

use vstd::prelude::*;
use crate::cursor::{result_outcome, Input, ParseResult};
use crate::engine::{ready, try_node, try_rule};
use crate::grammar::Grammar;
use crate::memo::Memo;
use crate::progress::{lemma_node_sound, lemma_rule_sound};
use crate::syntax::Syntax;
use crate::value::Value;

verus! {

/// A grammar and the memo cache of one text. The cache may serve one text
/// only: start each other text with a new context, or clear this one.
pub struct Packrat<'input> {
    grammar: Grammar<'input>,
    memo: Memo<'input>,
}

impl<'input> Packrat<'input> {
    /// The model of the grammar.
    pub closed spec fn syntax(self) -> Syntax {
        self.grammar@
    }

    /// The memo cache.
    pub closed spec fn memo(self) -> Memo<'input> {
        self.memo
    }

    /// The grammar has no left recursion, and the cache holds outcomes in
    /// `text` only.
    pub open spec fn ready(self, text: Seq<u8>) -> bool {
        ready(self.syntax(), self.memo(), text)
    }

    /// A context for `grammar`, with an empty cache.
    pub fn new(grammar: Grammar<'input>) -> (context: Packrat<'input>)
        ensures
            context.syntax() == grammar@,
            context.memo()@.len() == grammar@.rules.len(),
            context.memo().is_empty(),
    {
        let memo = Memo::new(grammar.rules.len());
        Packrat { grammar, memo }
    }

    /// Empties the cache, so that another text can be parsed.
    pub fn clear(&mut self)
        ensures
            final(self).syntax() == old(self).syntax(),
            final(self).memo()@.len() == final(self).syntax().rules.len(),
            final(self).memo().is_empty(),
    {
        self.memo = Memo::new(self.grammar.rules.len());
    }

    /// The grammar.
    pub fn grammar(&self) -> (grammar: &Grammar<'input>)
        ensures
            grammar@ == self.syntax(),
    {
        &self.grammar
    }

    /// Parses the rule at `rule` from `input` on.
    pub fn parse_rule(&mut self, rule: usize, input: Input<'input>) -> (result: ParseResult<
        'input,
        Value,
    >)
        requires
            old(self).ready(input.bytes()),
            rule < old(self).syntax().rules.len(),
            input.wf(),
        ensures
            final(self).ready(input.bytes()),
            final(self).syntax() == old(self).syntax(),
            final(self).memo().extends(old(self).memo()),
            final(self).memo()@[rule as int].contains_key(input.offset),
            result matches Ok((_, value)) ==> final(self).memo()@[rule as int][input.offset]
                matches Ok((_, shared)) && value == Value::Rule(shared),
            result_outcome(result) == old(self).syntax().rule_at(
                input.bytes(),
                rule as int,
                input.offset as int,
            ),
            result matches Ok((rest, value)) ==> {
                &&& rest.text == input.text
                &&& rest.wf()
                &&& rest.offset >= input.offset
                &&& value@.within(input.bytes())
            },
            result matches Err(error) ==> input.offset <= error.offset <= input.bytes().len(),
    {
        proof {
            vstd::utf8::encode_utf8_valid_utf8(input.text@);
            lemma_rule_sound(
                self.syntax(),
                self.syntax().ranking(),
                input.bytes(),
                rule as int,
                input.offset as int,
            );
        }
        match try_rule(&self.grammar, &mut self.memo, input.text, rule, input.offset) {
            Ok((end, value)) => Ok((Input { text: input.text, offset: end }, value)),
            Err(error) => Err(error),
        }
    }

    /// Parses the symbol at `node` from `input` on.
    pub fn parse_node(&mut self, node: usize, input: Input<'input>) -> (result: ParseResult<
        'input,
        Value,
    >)
        requires
            old(self).ready(input.bytes()),
            node < old(self).syntax().nodes.len(),
            input.wf(),
        ensures
            final(self).ready(input.bytes()),
            final(self).syntax() == old(self).syntax(),
            final(self).memo().extends(old(self).memo()),
            result_outcome(result) == old(self).syntax().node_at(
                input.bytes(),
                node as int,
                input.offset as int,
            ),
            result matches Ok((rest, value)) ==> {
                &&& rest.text == input.text
                &&& rest.wf()
                &&& rest.offset >= input.offset
                &&& value@.within(input.bytes())
            },
            result matches Err(error) ==> input.offset <= error.offset <= input.bytes().len(),
    {
        proof {
            vstd::utf8::encode_utf8_valid_utf8(input.text@);
            lemma_node_sound(
                self.syntax(),
                self.syntax().ranking(),
                input.bytes(),
                node as int,
                input.offset as int,
            );
        }
        match try_node(&self.grammar, &mut self.memo, input.text, node, input.offset) {
            Ok((end, value)) => Ok((Input { text: input.text, offset: end }, value)),
            Err(error) => Err(error),
        }
    }
}

} // verus!
