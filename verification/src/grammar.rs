//! A grammar: the symbols and the named rules, built one by one.

use vstd::prelude::*;
use vstd::string::StringSliceAdditionalSpecFns;
use crate::syntax::{BodyShape, RuleShape, Shape, Syntax};

verus! {

/// What kind of symbol stands at a place of a grammar.
#[derive(Debug)]
pub enum Kind<NT> {
    /// An exact text.
    Text,
    /// A symbol that may be missing.
    Option,
    /// A symbol any number of times.
    Repeat,
    /// An element of a sequence whose value is kept.
    Elem,
    /// A group of symbols: a sequence, or an ordered choice.
    Group,
    /// A reference to a named rule.
    Symbol(NT),
}

/// One symbol of a grammar. A number names another symbol by its place in
/// the grammar, or, in `Symbol`, a rule by its place.
pub enum Node<'a> {
    /// An exact text, after any white space.
    Text(&'a str),
    /// A symbol that may be missing.
    Option(usize),
    /// A symbol any number of times.
    Repeat(usize),
    /// An element of a sequence whose value is kept.
    Elem(usize),
    /// A sequence of symbols.
    Group(Vec<usize>),
    /// An ordered choice between symbols.
    Choice(Vec<usize>),
    /// A reference to a named rule.
    Symbol(usize),
}

/// What a named rule stands for.
pub enum Body<'a> {
    /// Declared, with no definition yet.
    Pending,
    /// The symbol at this place.
    Expr(usize),
    /// A match of a regular expression, right at the cursor, that is none of
    /// the keywords. A failure reports `expected`.
    Pattern { pattern: &'a str, keywords: Vec<&'a str>, expected: &'a str },
}

/// A named rule.
pub struct Rule<'a> {
    pub name: &'a str,
    pub body: Body<'a>,
}

/// The kind of a symbol.
pub open spec fn kind_of(shape: Shape) -> Kind<usize> {
    match shape {
        Shape::Text(_) => Kind::Text,
        Shape::Option(_) => Kind::Option,
        Shape::Repeat(_) => Kind::Repeat,
        Shape::Elem(_) => Kind::Elem,
        Shape::Group(_) => Kind::Group,
        Shape::Choice(_) => Kind::Group,
        Shape::Symbol(rule) => Kind::Symbol(rule),
    }
}

/// The bytes of each of `words`, in order.
pub open spec fn words_bytes(words: Seq<&str>) -> Seq<Seq<u8>> {
    Seq::new(words.len(), |i: int| words[i].spec_bytes())
}

impl<'a> View for Node<'a> {
    type V = Shape;

    open spec fn view(&self) -> Shape {
        match self {
            Node::Text(literal) => Shape::Text(literal@),
            Node::Option(m) => Shape::Option(*m),
            Node::Repeat(m) => Shape::Repeat(*m),
            Node::Elem(m) => Shape::Elem(*m),
            Node::Group(elems) => Shape::Group(elems@),
            Node::Choice(alts) => Shape::Choice(alts@),
            Node::Symbol(r) => Shape::Symbol(*r),
        }
    }
}

impl<'a> View for Body<'a> {
    type V = BodyShape;

    open spec fn view(&self) -> BodyShape {
        match self {
            Body::Pending => BodyShape::Pending,
            Body::Expr(m) => BodyShape::Expr(*m),
            Body::Pattern { pattern, keywords, expected } => BodyShape::Pattern {
                pattern: pattern@,
                keywords: words_bytes(keywords@),
                expected: expected@,
            },
        }
    }
}

impl<'a> View for Rule<'a> {
    type V = RuleShape;

    open spec fn view(&self) -> RuleShape {
        RuleShape { name: self.name@, body: self.body@ }
    }
}

/// The symbols and the named rules of a grammar.
pub struct Grammar<'a> {
    pub nodes: Vec<Node<'a>>,
    pub rules: Vec<Rule<'a>>,
}

impl<'a> View for Grammar<'a> {
    type V = Syntax;

    open spec fn view(&self) -> Syntax {
        Syntax {
            nodes: Seq::new(self.nodes@.len(), |i: int| self.nodes@[i]@),
            rules: Seq::new(self.rules@.len(), |i: int| self.rules@[i]@),
        }
    }
}

impl<'a> Grammar<'a> {
    /// A grammar without symbols or rules.
    pub fn new() -> (grammar: Grammar<'a>)
        ensures
            grammar@.nodes.len() == 0,
            grammar@.rules.len() == 0,
    {
        Grammar { nodes: Vec::new(), rules: Vec::new() }
    }

    /// Adds a symbol and returns its place.
    pub fn add(&mut self, node: Node<'a>) -> (place: usize)
        ensures
            place == old(self)@.nodes.len(),
            final(self)@.nodes == old(self)@.nodes.push(node@),
            final(self)@.rules == old(self)@.rules,
    {
        let place = self.nodes.len();
        self.nodes.push(node);
        assert(self@.nodes =~= old(self)@.nodes.push(node@));
        place
    }

    /// Adds a rule with this name and body and returns its place.
    pub fn rule(&mut self, name: &'a str, body: Body<'a>) -> (place: usize)
        ensures
            place == old(self)@.rules.len(),
            final(self)@.rules == old(self)@.rules.push(RuleShape { name: name@, body: body@ }),
            final(self)@.nodes == old(self)@.nodes,
    {
        let place = self.rules.len();
        self.rules.push(Rule { name, body });
        assert(self@.rules =~= old(self)@.rules.push(RuleShape { name: name@, body: body@ }));
        place
    }

    /// The number of symbols.
    pub fn len(&self) -> (count: usize)
        ensures
            count == self@.nodes.len(),
    {
        self.nodes.len()
    }

    /// The number of rules.
    pub fn rule_count(&self) -> (count: usize)
        ensures
            count == self@.rules.len(),
    {
        self.rules.len()
    }

    /// What kind of symbol stands at `place`. Sequences and ordered choices
    /// are both groups.
    pub fn kind(&self, place: usize) -> (kind: Kind<usize>)
        requires
            place < self@.nodes.len(),
        ensures
            kind == kind_of(self@.nodes[place as int]),
    {
        match &self.nodes[place] {
            Node::Text(_) => Kind::Text,
            Node::Option(_) => Kind::Option,
            Node::Repeat(_) => Kind::Repeat,
            Node::Elem(_) => Kind::Elem,
            Node::Group(_) => Kind::Group,
            Node::Choice(_) => Kind::Group,
            Node::Symbol(rule) => Kind::Symbol(*rule),
        }
    }

    /// Gives the rule at `place` its body.
    pub fn define(&mut self, place: usize, body: Body<'a>)
        requires
            place < old(self)@.rules.len(),
        ensures
            final(self)@.rules == old(self)@.rules.update(
                place as int,
                RuleShape { name: old(self)@.rules[place as int].name, body: body@ },
            ),
            final(self)@.nodes == old(self)@.nodes,
    {
        let name = self.rules[place].name;
        self.rules.set(place, Rule { name, body });
        assert(self@.rules =~= old(self)@.rules.update(
            place as int,
            RuleShape { name: old(self)@.rules[place as int].name, body: body@ },
        ));
    }
}

} // verus!
