//! The mathematical model of a grammar: its symbols and named rules as plain
//! sequences, and the condition under which parsing with it terminates.

use vstd::prelude::*;

verus! {

/// The model of one symbol of a grammar. A number names another symbol by
/// its place in the grammar, or, in `Symbol`, a rule by its place.
pub enum Shape {
    /// An exact text, after any white space.
    Text(Seq<char>),
    /// A symbol that may be missing.
    Option(usize),
    /// A symbol any number of times.
    Repeat(usize),
    /// An element of a sequence whose value is kept.
    Elem(usize),
    /// A sequence of symbols.
    Group(Seq<usize>),
    /// An ordered choice between symbols.
    Choice(Seq<usize>),
    /// A reference to a named rule.
    Symbol(usize),
}

/// The model of what a named rule stands for.
pub enum BodyShape {
    /// Declared, with no definition yet.
    Pending,
    /// The symbol at this place.
    Expr(usize),
    /// A match of a regular expression, right at the cursor, that is none of
    /// the keywords. A failure reports `expected`.
    Pattern { pattern: Seq<char>, keywords: Seq<Seq<u8>>, expected: Seq<char> },
}

/// The model of a named rule.
pub struct RuleShape {
    pub name: Seq<char>,
    pub body: BodyShape,
}

/// The model of a grammar.
pub struct Syntax {
    pub nodes: Seq<Shape>,
    pub rules: Seq<RuleShape>,
}

/// A witness that a grammar has no left recursion: a level for every symbol
/// and rule, and the symbols and rules that are solid, which means that they
/// cannot match without consuming text.
pub struct Ranking {
    pub node_level: Seq<nat>,
    pub rule_level: Seq<nat>,
    pub node_solid: Seq<bool>,
    pub rule_solid: Seq<bool>,
}

impl Ranking {
    /// The level of the symbol at `n`.
    pub open spec fn node(self, n: int) -> nat {
        if 0 <= n < self.node_level.len() {
            self.node_level[n]
        } else {
            0
        }
    }

    /// The level of the rule at `r`.
    pub open spec fn rule(self, r: int) -> nat {
        if 0 <= r < self.rule_level.len() {
            self.rule_level[r]
        } else {
            0
        }
    }

    /// One of the first `count` of `elems` is solid.
    pub open spec fn solid_before(self, elems: Seq<usize>, count: int) -> bool
        decreases count,
    {
        &&& 0 < count <= elems.len()
        &&& (self.node_solid[elems[count - 1] as int] || self.solid_before(elems, count - 1))
    }
}

impl Syntax {
    /// The symbol at `n` names only symbols and rules that exist, sits above
    /// every symbol that it may try at its own offset, and is solid only
    /// with reason.
    pub open spec fn node_ranked(self, rk: Ranking, n: int) -> bool {
        let level = rk.node_level[n];
        let solid = rk.node_solid[n];
        match self.nodes[n] {
            Shape::Text(literal) => solid ==> literal.len() > 0,
            Shape::Option(m) => m < self.nodes.len() && rk.node_level[m as int] < level && !solid,
            Shape::Repeat(m) => m < self.nodes.len() && rk.node_level[m as int] < level && !solid,
            Shape::Elem(m) => {
                &&& m < self.nodes.len()
                &&& rk.node_level[m as int] < level
                &&& solid ==> rk.node_solid[m as int]
            },
            Shape::Group(elems) => {
                &&& forall|i: int|
                    0 <= i < elems.len() ==> {
                        &&& #[trigger] elems[i] < self.nodes.len()
                        &&& (rk.node_level[elems[i] as int] < level || rk.solid_before(elems, i))
                    }
                &&& solid ==> rk.solid_before(elems, elems.len() as int)
            },
            Shape::Choice(alts) => forall|i: int|
                0 <= i < alts.len() ==> {
                    &&& #[trigger] alts[i] < self.nodes.len()
                    &&& rk.node_level[alts[i] as int] < level
                    &&& solid ==> rk.node_solid[alts[i] as int]
                },
            Shape::Symbol(r) => {
                &&& r < self.rules.len()
                &&& rk.rule_level[r as int] < level
                &&& solid ==> rk.rule_solid[r as int]
            },
        }
    }

    /// The rule at `r` is defined, sits above its body, and is solid only
    /// with reason.
    pub open spec fn rule_ranked(self, rk: Ranking, r: int) -> bool {
        match self.rules[r].body {
            BodyShape::Pending => false,
            BodyShape::Expr(m) => {
                &&& m < self.nodes.len()
                &&& rk.node_level[m as int] < rk.rule_level[r]
                &&& rk.rule_solid[r] ==> rk.node_solid[m as int]
            },
            BodyShape::Pattern { .. } => !rk.rule_solid[r],
        }
    }

    /// `rk` witnesses that the grammar has no left recursion.
    pub open spec fn ranked_by(self, rk: Ranking) -> bool {
        &&& rk.node_level.len() == self.nodes.len()
        &&& rk.node_solid.len() == self.nodes.len()
        &&& rk.rule_level.len() == self.rules.len()
        &&& rk.rule_solid.len() == self.rules.len()
        &&& forall|n: int| 0 <= n < self.nodes.len() ==> #[trigger] self.node_ranked(rk, n)
        &&& forall|r: int| 0 <= r < self.rules.len() ==> #[trigger] self.rule_ranked(rk, r)
    }

    /// Every rule is defined, every reference names a symbol or rule that
    /// exists, and no symbol can call itself without consuming text.
    pub open spec fn wf(self) -> bool {
        exists|rk: Ranking| self.ranked_by(rk)
    }

    /// A witness of `wf`.
    pub open spec fn ranking(self) -> Ranking {
        choose|rk: Ranking| self.ranked_by(rk)
    }

    /// The symbol at `n` is an element whose value its sequence keeps.
    pub open spec fn bound(self, n: int) -> bool {
        0 <= n < self.nodes.len() && self.nodes[n] is Elem
    }
}

} // verus!
