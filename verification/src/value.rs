//! The values that a parse yields: the tree of what was matched.

use std::rc::Rc;
use vstd::prelude::*;
use vstd::utf8::is_char_boundary;

verus! {

/// The mathematical model of a parse value.
pub enum Tree {
    /// The bytes of the text from `start` up to `end`.
    Text { start: int, end: int },
    /// An optional symbol that did not match.
    Absent,
    /// An optional symbol that matched.
    Present(Box<Tree>),
    /// The matches of a repeated symbol, in order.
    List(Seq<Tree>),
    /// The bound elements of a sequence, in order.
    Tuple(Seq<Tree>),
    /// The alternative of an ordered choice that matched, and its value.
    Alt { index: int, value: Box<Tree> },
}

impl Tree {
    /// Every span of the tree lies inside `text` and splits no code point.
    pub open spec fn within(self, text: Seq<u8>) -> bool
        decreases self,
    {
        match self {
            Tree::Text { start, end } => {
                &&& 0 <= start <= end <= text.len()
                &&& is_char_boundary(text, start)
                &&& is_char_boundary(text, end)
            },
            Tree::Absent => true,
            Tree::Present(inner) => inner.within(text),
            Tree::List(items) => forall|i: int|
                0 <= i < items.len() ==> (#[trigger] items[i]).within(text),
            Tree::Tuple(items) => forall|i: int|
                0 <= i < items.len() ==> (#[trigger] items[i]).within(text),
            Tree::Alt { index, value } => 0 <= index && value.within(text),
        }
    }
}

/// A parse value: spans of the text, never copies of it.
#[derive(Debug, PartialEq, Eq)]
pub enum Value {
    /// The bytes of the text from `start` up to `end`.
    Text { start: usize, end: usize },
    /// An optional symbol that did not match.
    Absent,
    /// An optional symbol that matched.
    Present(Box<Value>),
    /// The matches of a repeated symbol, in order.
    List(Vec<Value>),
    /// The bound elements of a sequence, in order.
    Tuple(Vec<Value>),
    /// The alternative of an ordered choice that matched, and its value.
    Alt { index: usize, value: Box<Value> },
    /// The value of a named rule, shared with the memo cache. It stands for
    /// the same tree as the value that it shares.
    Rule(Rc<Value>),
}

impl Value {
    /// The tree that this value stands for.
    pub open spec fn tree(self) -> Tree
        decreases self,
    {
        match self {
            Value::Text { start, end } => Tree::Text { start: start as int, end: end as int },
            Value::Absent => Tree::Absent,
            Value::Present(inner) => Tree::Present(Box::new(inner.tree())),
            Value::List(items) => Tree::List(
                Seq::new(
                    items@.len(),
                    |i: int|
                        if 0 <= i < items@.len() {
                            items@[i].tree()
                        } else {
                            Tree::Absent
                        },
                ),
            ),
            Value::Tuple(items) => Tree::Tuple(
                Seq::new(
                    items@.len(),
                    |i: int|
                        if 0 <= i < items@.len() {
                            items@[i].tree()
                        } else {
                            Tree::Absent
                        },
                ),
            ),
            Value::Alt { index, value } => Tree::Alt {
                index: index as int,
                value: Box::new(value.tree()),
            },
            Value::Rule(shared) => shared.tree(),
        }
    }
}

impl View for Value {
    type V = Tree;

    open spec fn view(&self) -> Tree {
        self.tree()
    }
}

/// The trees of a sequence of values, in order.
pub open spec fn trees(values: Seq<Value>) -> Seq<Tree> {
    Seq::new(values.len(), |i: int| values[i].tree())
}

/// A list stands for the trees of its items.
pub proof fn lemma_list_tree(items: Vec<Value>)
    ensures
        Value::List(items).tree() == Tree::List(trees(items@)),
        Value::Tuple(items).tree() == Tree::Tuple(trees(items@)),
{
    assert(Value::List(items).tree()->List_0 =~= trees(items@));
    assert(Value::Tuple(items).tree()->Tuple_0 =~= trees(items@));
}

/// Another handle to a shared value, made by `Rc::clone`.
///
/// Nothing is proved of this function. It is taken on trust that the new
/// handle points to the value that `shared` points to, as the documentation
/// of `Rc` says.
#[verifier::external_body]
pub(crate) fn share(shared: &Rc<Value>) -> (handle: Rc<Value>)
    ensures
        handle == *shared,
{
    Rc::clone(shared)
}

impl Value {
    /// The value under the marks of named rules: it is no value of a rule
    /// itself, and stands for the same tree.
    pub fn peel(&self) -> (inner: &Value)
        ensures
            inner@ == self@,
            !(inner is Rule),
        decreases self,
    {
        match self {
            Value::Rule(shared) => shared.peel(),
            _ => self,
        }
    }

    /// A copy of the value that shares nothing with it: the values of named
    /// rules are copied out of their marks.
    pub fn duplicate(&self) -> (copy: Value)
        ensures
            copy@ == self@,
            !(copy is Rule),
        decreases self,
    {
        match self {
            Value::Text { start, end } => Value::Text { start: *start, end: *end },
            Value::Absent => Value::Absent,
            Value::Present(inner) => Value::Present(Box::new(inner.duplicate())),
            Value::List(items) => {
                let copies = Self::duplicate_all(items);
                proof {
                    lemma_list_tree(*items);
                    lemma_list_tree(copies);
                }
                Value::List(copies)
            },
            Value::Tuple(items) => {
                let copies = Self::duplicate_all(items);
                proof {
                    lemma_list_tree(*items);
                    lemma_list_tree(copies);
                }
                Value::Tuple(copies)
            },
            Value::Alt { index, value } => Value::Alt {
                index: *index,
                value: Box::new(value.duplicate()),
            },
            Value::Rule(shared) => shared.duplicate(),
        }
    }

    /// Copies of the values that share nothing with them, in order.
    pub fn duplicate_all(items: &Vec<Value>) -> (copies: Vec<Value>)
        ensures
            trees(copies@) == trees(items@),
        decreases items,
    {
        let mut copies: Vec<Value> = Vec::new();
        let mut i: usize = 0;
        while i < items.len()
            invariant
                i <= items@.len(),
                copies@.len() == i,
                forall|j: int| 0 <= j < i ==> copies@[j].tree() == items@[j].tree(),
            decreases items@.len() - i,
        {
            let copy = items[i].duplicate();
            copies.push(copy);
            i = i + 1;
        }
        assert(trees(copies@) =~= trees(items@));
        copies
    }
}

} // verus!
