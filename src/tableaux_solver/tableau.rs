//! A tableau: the queue of alternative branches still to explore.

use std::collections::VecDeque;

use vstd::prelude::*;

use super::Theory;
use crate::formula::PropositionalFormula;

verus! {

/// A `Tableau` is a first-in first-out queue of alternative theories, one for each open branch
/// of the tableau tree that is still to be explored.
///
/// For example, the tableau tree
///
/// ```text
///     (a|b)
///     /   \
///    a     b
/// ```
///
/// has two branches, so two theories: `{ a }` and `{ b }`.
#[derive(Debug)]
pub struct Tableau {
    theories: VecDeque<Theory>,
}

impl View for Tableau {
    type V = Seq<Theory>;

    closed spec fn view(&self) -> Seq<Theory> {
        self.theories@
    }
}

impl Tableau {
    /// Construct a tableau with no theories.
    pub fn new() -> (r: Tableau)
        ensures
            r@ == Seq::<Theory>::empty(),
    {
        Tableau { theories: VecDeque::new() }
    }

    /// Construct a tableau whose single theory holds the single formula `formula`.
    pub fn from_starting_propositional_formula(formula: PropositionalFormula) -> (r: Tableau)
        ensures
            r@.len() == 1,
            r@[0].wf(),
            r@[0]@ == set![formula@],
            r@[0].weight() == formula@.weight(),
    {
        let mut theories = VecDeque::new();
        theories.push_back(Theory::from_propositional_formula(formula));
        Tableau { theories }
    }

    /// Whether the tableau holds no theory.
    pub fn is_empty(&self) -> (r: bool)
        ensures
            r == (self@.len() == 0),
    {
        self.theories.len() == 0
    }

    /// Take the theory at the front of the queue.
    pub fn pop_theory(&mut self) -> (r: Option<Theory>)
        ensures
            old(self)@.len() == 0 ==> r is None && final(self)@ == old(self)@,
            old(self)@.len() > 0 ==> r == Some(old(self)@[0]) && final(self)@ == old(
                self,
            )@.drop_first(),
    {
        self.theories.pop_front()
    }

    /// Add a theory at the back of the queue.
    pub fn push_theory(&mut self, theory: Theory)
        ensures
            final(self)@ == old(self)@.push(theory),
    {
        self.theories.push_back(theory)
    }

    /// Whether the queue holds a theory with the same members as `theory`, in any order.
    pub fn contains(&self, theory: &Theory) -> (r: bool)
        ensures
            r == exists|i: int| 0 <= i < self@.len() && (#[trigger] self@[i])@ == theory@,
    {
        let mut i: usize = 0;
        while i < self.theories.len()
            invariant
                i <= self@.len(),
                forall|j: int| 0 <= j < i ==> (#[trigger] self@[j])@ != theory@,
            decreases self@.len() - i,
        {
            if self.theories[i] == *theory {
                return true;
            }
            i += 1;
        }
        false
    }
}

} // verus!
