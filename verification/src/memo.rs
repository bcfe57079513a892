//! The memo cache: the outcome of every rule at every offset where it has
//! been tried. The value of a match is held behind a shared handle, so that
//! a hit hands it out without copying it.

use std::collections::HashMap;
use vstd::prelude::*;
use crate::cursor::{entry_outcome, gives_out, step_outcome, Entry, Step};
use crate::progress::cursor_at;
use crate::syntax::Syntax;
use crate::value::{share, Value};

verus! {

broadcast use vstd::std_specs::hash::group_hash_axioms;

/// One table of a memo cache: results by the offset where the rule was
/// tried.
pub type Cache<T> = HashMap<usize, T>;

/// A memo cache: one table for each rule of a grammar.
pub struct Memo<'input> {
    tables: Vec<Cache<Entry<'input>>>,
}

impl<'input> View for Memo<'input> {
    type V = Seq<Map<usize, Entry<'input>>>;

    closed spec fn view(&self) -> Seq<Map<usize, Entry<'input>>> {
        Seq::new(self.tables@.len(), |r: int| self.tables@[r]@)
    }
}

impl<'input> Memo<'input> {
    /// Every entry is the outcome, in `text`, of its rule of `syn` at its
    /// offset.
    pub open spec fn remembers(self, syn: Syntax, text: Seq<u8>) -> bool {
        forall|r: int, pos: usize|
            0 <= r < self@.len() && #[trigger] self@[r].contains_key(pos) ==> {
                &&& r < syn.rules.len()
                &&& cursor_at(text, pos as int)
                &&& entry_outcome(self@[r][pos]) == syn.rule_at(text, r, pos as int)
            }
    }

    /// The cache holds every entry of `earlier`, unchanged.
    pub open spec fn extends(self, earlier: Memo<'input>) -> bool {
        &&& self@.len() == earlier@.len()
        &&& forall|r: int, pos: usize|
            0 <= r < earlier@.len() && #[trigger] earlier@[r].contains_key(pos) ==> {
                &&& self@[r].contains_key(pos)
                &&& self@[r][pos] == earlier@[r][pos]
            }
    }

    /// No table has an entry.
    pub open spec fn is_empty(self) -> bool {
        forall|r: int, pos: usize| 0 <= r < self@.len() ==> !(#[trigger] self@[r].contains_key(pos))
    }

    /// A cache of `rules` empty tables.
    pub fn new(rules: usize) -> (memo: Memo<'input>)
        ensures
            memo@.len() == rules,
            memo.is_empty(),
    {
        let mut tables: Vec<Cache<Entry<'input>>> = Vec::new();
        let mut r: usize = 0;
        while r < rules
            invariant
                r <= rules,
                tables@.len() == r,
                forall|i: int, pos: usize|
                    0 <= i < r ==> !(#[trigger] tables@[i]@.contains_key(pos)),
            decreases rules - r,
        {
            let table: Cache<Entry<'input>> = HashMap::new();
            tables.push(table);
            r = r + 1;
        }
        Memo { tables }
    }

    /// The entry of rule `r` at `pos`, if there is one, as a result of the
    /// rule: its value is the value of the entry itself, shared and not
    /// copied.
    pub fn lookup(&self, r: usize, pos: usize) -> (found: Option<Step<'input>>)
        requires
            r < self@.len(),
        ensures
            match found {
                Some(step) => {
                    &&& self@[r as int].contains_key(pos)
                    &&& step_outcome(step) == entry_outcome(self@[r as int][pos])
                    &&& gives_out(step, self@[r as int][pos])
                },
                None => !self@[r as int].contains_key(pos),
            },
    {
        match self.tables[r].get(&pos) {
            Some(Ok((end, shared))) => Some(Ok((*end, Value::Rule(share(shared))))),
            Some(Err(error)) => Some(Err(*error)),
            None => None,
        }
    }

    /// Enters `entry` for rule `r` at `pos`.
    pub fn store(&mut self, r: usize, pos: usize, entry: Entry<'input>)
        requires
            r < old(self)@.len(),
        ensures
            final(self)@ == old(self)@.update(r as int, old(self)@[r as int].insert(pos, entry)),
    {
        self.tables[r].insert(pos, entry);
        assert(self@ =~= old(self)@.update(r as int, old(self)@[r as int].insert(pos, entry)));
    }
}

} // verus!
