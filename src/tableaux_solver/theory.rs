//! A theory: a set of formulas, one branch of the tableau.

use vstd::prelude::*;

use crate::formula::{Formula, PropositionalFormula};

verus! {

/// The branch holds a variable together with its negation, so it closes.
pub open spec fn has_complementary_literals(s: Set<Formula>) -> bool {
    exists|name: Seq<char>|
        #[trigger] s.contains(Formula::Variable(name)) && s.contains(
            Formula::Negation(Box::new(Formula::Variable(name))),
        )
}

/// The literal `f` meets its complement in `s`: `f` is a variable `p` and `(-p)` is in `s`,
/// or `f` is `(-p)` and `p` is in `s`.
pub open spec fn complement_held(s: Set<Formula>, f: Formula) -> bool {
    match f {
        Formula::Variable(name) => s.contains(Formula::Negation(Box::new(Formula::Variable(name)))),
        Formula::Negation(inner) => inner.is_variable() && s.contains(*inner),
        _ => false,
    }
}

/// Every member of the set is a literal.
pub open spec fn all_literals(s: Set<Formula>) -> bool {
    forall|f: Formula| #[trigger] s.contains(f) ==> f.is_literal()
}

/// The total weight of a sequence of formulas.
pub open spec fn seq_weight(s: Seq<Formula>) -> nat
    decreases s.len(),
{
    if s.len() == 0 {
        0
    } else {
        seq_weight(s.drop_last()) + s.last().weight()
    }
}

proof fn lemma_weight_push(s: Seq<Formula>, f: Formula)
    ensures
        seq_weight(s.push(f)) == seq_weight(s) + f.weight(),
{
    assert(s.push(f).drop_last() =~= s);
}

proof fn lemma_weight_remove(s: Seq<Formula>, i: int)
    requires
        0 <= i < s.len(),
    ensures
        seq_weight(s.remove(i)) + s[i].weight() == seq_weight(s),
    decreases s.len(),
{
    if i == s.len() - 1 {
        assert(s.remove(i) =~= s.drop_last());
    } else {
        lemma_weight_remove(s.drop_last(), i);
        assert(s.remove(i).drop_last() =~= s.drop_last().remove(i));
        assert(s.remove(i).last() == s.last());
    }
}

proof fn lemma_remove_to_set(s: Seq<Formula>, i: int)
    requires
        0 <= i < s.len(),
        s.no_duplicates(),
    ensures
        s.remove(i).to_set() == s.to_set().remove(s[i]),
        s.remove(i).no_duplicates(),
{
    let r = s.remove(i);
    assert forall|x: Formula| r.to_set().contains(x) <==> s.to_set().remove(s[i]).contains(x) by {
        if r.contains(x) {
            let j = choose|j: int| 0 <= j < r.len() && r[j] == x;
            if j < i {
                assert(s[j] == x);
            } else {
                assert(s[j + 1] == x);
            }
        }
        if s.contains(x) && x != s[i] {
            let j = choose|j: int| 0 <= j < s.len() && s[j] == x;
            if j < i {
                assert(r[j] == x);
            } else {
                assert(r[j - 1] == x);
            }
        }
    }
    assert(r.to_set() =~= s.to_set().remove(s[i]));
    assert forall|a: int, b: int| 0 <= a < r.len() && 0 <= b < r.len() && a != b implies r[a]
        != r[b] by {
        let sa = if a < i { a } else { a + 1 };
        let sb = if b < i { b } else { b + 1 };
        assert(s[sa] == r[a] && s[sb] == r[b]);
    }
}

/// Adding a formula that a theory already holds leaves its members, and so their count,
/// unchanged: after `t1` is `t0` with `f` added and `t2` is `t1` with `f` added again, `t2`
/// has as many members as `t1`.
pub proof fn lemma_add_idempotent(t0: Set<Formula>, t1: Set<Formula>, t2: Set<Formula>, f: Formula)
    requires
        t1 == t0.insert(f),
        t2 == t1.insert(f),
    ensures
        t2 == t1,
        t2.len() == t1.len(),
{
    assert(t2 =~= t1);
}

/// A `Theory` is a set of formulas. It stands for one branch of the tableau tree: the branch
/// can be satisfied when all of its formulas hold together.
#[derive(Debug)]
pub struct Theory {
    formulas: Vec<PropositionalFormula>,
}

impl View for Theory {
    type V = Set<Formula>;

    closed spec fn view(&self) -> Set<Formula> {
        self.items().to_set()
    }
}

impl Theory {
    /// The members, in the order in which they were added.
    closed spec fn items(&self) -> Seq<Formula> {
        self.formulas@.map_values(|f: PropositionalFormula| f@)
    }

    /// Each member is held once.
    pub closed spec fn wf(&self) -> bool {
        self.items().no_duplicates()
    }

    /// The total weight of the members: every expansion step strictly lowers it.
    pub closed spec fn weight(&self) -> nat {
        seq_weight(self.items())
    }

    /// Construct an empty theory.
    pub fn new() -> (r: Theory)
        ensures
            r.wf(),
            r@ == Set::<Formula>::empty(),
            r.weight() == 0,
    {
        let r = Theory { formulas: Vec::new() };
        assert(r.items() =~= Seq::<Formula>::empty());
        r
    }

    /// Construct a theory that holds the single formula `formula`.
    pub fn from_propositional_formula(formula: PropositionalFormula) -> (r: Theory)
        ensures
            r.wf(),
            r@ == set![formula@],
            r.weight() == formula@.weight(),
    {
        let mut r = Theory::new();
        r.add(formula);
        assert(r@ =~= set![formula@]);
        r
    }

    /// The members of the theory, each once.
    pub fn formulas(&self) -> (r: &[PropositionalFormula])
        requires
            self.wf(),
        ensures
            r@.len() == self@.len(),
            forall|i: int| 0 <= i < r@.len() ==> self@.contains(#[trigger] r@[i]@),
    {
        proof {
            self.items().unique_seq_to_set();
            assert forall|i: int| 0 <= i < self.formulas@.len() implies self@.contains(
                #[trigger] self.formulas@[i]@,
            ) by {
                assert(self.items()[i] == self.formulas@[i]@);
            }
        }
        self.formulas.as_slice()
    }

    /// The position of `formula` among the members, if it is one.
    fn position(&self, formula: &PropositionalFormula) -> (r: Option<usize>)
        ensures
            match r {
                Some(i) => i < self.items().len() && self.items()[i as int] == formula@,
                None => !self@.contains(formula@),
            },
    {
        let mut i: usize = 0;
        while i < self.formulas.len()
            invariant
                i <= self.formulas@.len(),
                forall|j: int| 0 <= j < i ==> self.items()[j] != formula@,
            decreases self.formulas@.len() - i,
        {
            if self.formulas[i] == *formula {
                return Some(i);
            }
            i += 1;
        }
        None
    }

    /// Add `formula` to the theory; nothing changes if it is already a member.
    pub fn add(&mut self, formula: PropositionalFormula)
        requires
            old(self).wf(),
        ensures
            final(self).wf(),
            final(self)@ == old(self)@.insert(formula@),
            old(self)@.contains(formula@) ==> final(self).weight() == old(self).weight(),
            !old(self)@.contains(formula@) ==> final(self).weight() == old(self).weight()
                + formula@.weight(),
    {
        if self.position(&formula).is_none() {
            proof {
                lemma_weight_push(self.items(), formula@);
                self.items().lemma_push_to_set_commute(formula@);
            }
            let ghost before = self.items();
            self.formulas.push(formula);
            assert(self.items() =~= before.push(formula@));
        } else {
            proof {
                assert(old(self)@.insert(formula@) =~= old(self)@);
            }
        }
    }

    /// Remove `formula` from the theory; tells whether it was a member.
    fn remove(&mut self, formula: &PropositionalFormula) -> (removed: bool)
        requires
            old(self).wf(),
        ensures
            final(self).wf(),
            removed == old(self)@.contains(formula@),
            final(self)@ == old(self)@.remove(formula@),
            removed ==> final(self).weight() + formula@.weight() == old(self).weight(),
            !removed ==> *final(self) == *old(self),
    {
        match self.position(formula) {
            Some(i) => {
                let ghost before = self.items();
                proof {
                    lemma_weight_remove(before, i as int);
                    lemma_remove_to_set(before, i as int);
                    assert(before.to_set().contains(before[i as int]));
                }
                self.formulas.remove(i);
                assert(self.items() =~= before.remove(i as int));
                true
            },
            None => {
                assert(old(self)@.remove(formula@) =~= old(self)@);
                false
            },
        }
    }

    /// Whether the theory is fully expanded: each member is a literal.
    pub fn is_fully_expanded(&self) -> (r: bool)
        ensures
            r == all_literals(self@),
    {
        let mut i: usize = 0;
        while i < self.formulas.len()
            invariant
                i <= self.formulas@.len(),
                forall|j: int| 0 <= j < i ==> (#[trigger] self.items()[j]).is_literal(),
            decreases self.formulas@.len() - i,
        {
            if !self.formulas[i].is_literal() {
                assert(self@.contains(self.items()[i as int]));
                return false;
            }
            i += 1;
        }
        assert forall|f: Formula| #[trigger] self@.contains(f) implies f.is_literal() by {
            let j = choose|j: int| 0 <= j < self.items().len() && self.items()[j] == f;
        }
        true
    }

    /// Whether the theory holds a contradiction: a variable `p` together with its negation
    /// `(-p)`. Deeper negations such as `(-(-p))` are not literals and take no part.
    pub fn has_contradictions(&self) -> (r: bool)
        ensures
            r == has_complementary_literals(self@),
    {
        let mut i: usize = 0;
        while i < self.formulas.len()
            invariant
                i <= self.formulas@.len(),
                forall|j: int| 0 <= j < i ==> !complement_held(self@, #[trigger] self.items()[j]),
            decreases self.formulas@.len() - i,
        {
            assert(self.items()[i as int] == self.formulas@[i as int]@);
            if self.check_formula(&self.formulas[i]) {
                proof {
                    let f = self.items()[i as int];
                    assert(self@.contains(f));
                    if f is Negation {
                        assert(self@.contains(*f->Negation_0));
                    }
                }
                return true;
            }
            i += 1;
        }
        proof {
            if has_complementary_literals(self@) {
                let name = choose|name: Seq<char>|
                    #[trigger] self@.contains(Formula::Variable(name)) && self@.contains(
                        Formula::Negation(Box::new(Formula::Variable(name))),
                    );
                let j = choose|j: int|
                    0 <= j < self.items().len() && self.items()[j] == Formula::Variable(name);
                assert(!complement_held(self@, self.items()[j]));
            }
        }
        false
    }

    /// Whether the complementary literal of `formula` is a member: `(-p)` for a variable `p`,
    /// `p` for a negated variable `(-p)`. Other formulas have no complementary literal.
    fn check_formula(&self, formula: &PropositionalFormula) -> (r: bool)
        ensures
            r == complement_held(self@, formula@),
    {
        match formula {
            PropositionalFormula::Variable(_) => {
                let negation = PropositionalFormula::negated(Box::new(formula.clone()));
                self.position(&negation).is_some()
            },
            PropositionalFormula::Negation(inner) => {
                assert(formula@ == Formula::Negation(Box::new(inner@)));
                match &**inner {
                    PropositionalFormula::Variable(_) => self.position(&**inner).is_some(),
                    _ => false,
                }
            },
            _ => false,
        }
    }

    /// A member that is not a literal, if there is one.
    pub fn get_non_literal_formula(&mut self) -> (r: Option<PropositionalFormula>)
        ensures
            *final(self) == *old(self),
            match r {
                Some(f) => old(self)@.contains(f@) && !f@.is_literal(),
                None => all_literals(old(self)@),
            },
    {
        let mut i: usize = 0;
        while i < self.formulas.len()
            invariant
                i <= self.formulas@.len(),
                forall|j: int| 0 <= j < i ==> (#[trigger] self.items()[j]).is_literal(),
            decreases self.formulas@.len() - i,
        {
            if !self.formulas[i].is_literal() {
                assert(self@.contains(self.items()[i as int]));
                return Some(self.formulas[i].clone());
            }
            i += 1;
        }
        assert forall|f: Formula| #[trigger] self@.contains(f) implies f.is_literal() by {
            let j = choose|j: int| 0 <= j < self.items().len() && self.items()[j] == f;
        }
        None
    }

    /// Replace the member `existing` by `replacement`; nothing changes if `existing` is not a
    /// member.
    pub fn swap_formula(&mut self, existing: &PropositionalFormula, replacement: PropositionalFormula)
        requires
            old(self).wf(),
        ensures
            final(self).wf(),
            old(self)@.contains(existing@) ==> final(self)@ == old(self)@.remove(existing@).insert(
                replacement@,
            ),
            old(self)@.contains(existing@) ==> final(self).weight() + existing@.weight()
                <= old(self).weight() + replacement@.weight(),
            !old(self)@.contains(existing@) ==> *final(self) == *old(self),
    {
        if self.remove(existing) {
            self.add(replacement);
        }
    }

    /// Replace the member `existing` by the two formulas of `replacements`; nothing changes if
    /// `existing` is not a member.
    pub fn swap_formula2(
        &mut self,
        existing: &PropositionalFormula,
        replacements: (PropositionalFormula, PropositionalFormula),
    )
        requires
            old(self).wf(),
        ensures
            final(self).wf(),
            old(self)@.contains(existing@) ==> final(self)@ == old(self)@.remove(existing@).insert(
                replacements.0@,
            ).insert(replacements.1@),
            old(self)@.contains(existing@) ==> final(self).weight() + existing@.weight()
                <= old(self).weight() + replacements.0@.weight() + replacements.1@.weight(),
            !old(self)@.contains(existing@) ==> *final(self) == *old(self),
    {
        if self.remove(existing) {
            let (first, second) = replacements;
            self.add(first);
            self.add(second);
        }
    }
}

impl Theory {
    /// Whether every member of `other` is a member of this theory.
    fn includes(&self, other: &Theory) -> (r: bool)
        ensures
            r == other@.subset_of(self@),
    {
        let mut i: usize = 0;
        while i < other.formulas.len()
            invariant
                i <= other.formulas@.len(),
                forall|j: int| 0 <= j < i ==> self@.contains(#[trigger] other.items()[j]),
            decreases other.formulas@.len() - i,
        {
            assert(other.items()[i as int] == other.formulas@[i as int]@);
            if self.position(&other.formulas[i]).is_none() {
                assert(other@.contains(other.items()[i as int]));
                return false;
            }
            i += 1;
        }
        assert forall|f: Formula| other@.contains(f) implies self@.contains(f) by {
            let j = choose|j: int| 0 <= j < other.items().len() && other.items()[j] == f;
        }
        true
    }
}

impl PartialEq for Theory {
    /// Two theories are equal when they have the same members, whatever their order.
    fn eq(&self, other: &Theory) -> (r: bool) {
        let r = self.includes(other) && other.includes(self);
        assert(r ==> self@ =~= other@);
        r
    }
}

impl vstd::std_specs::cmp::PartialEqSpecImpl for Theory {
    open spec fn obeys_eq_spec() -> bool {
        true
    }

    open spec fn eq_spec(&self, other: &Theory) -> bool {
        self@ == other@
    }
}

impl Clone for Theory {
    /// An independent copy with the same members.
    fn clone(&self) -> (r: Theory)
        ensures
            r.wf() == self.wf(),
            r@ == self@,
            r.weight() == self.weight(),
    {
        let mut formulas: Vec<PropositionalFormula> = Vec::new();
        let mut i: usize = 0;
        while i < self.formulas.len()
            invariant
                i <= self.formulas@.len(),
                formulas@.len() == i,
                forall|j: int| 0 <= j < i ==> (#[trigger] formulas@[j])@ == self.formulas@[j]@,
            decreases self.formulas@.len() - i,
        {
            formulas.push(self.formulas[i].clone());
            i += 1;
        }
        let r = Theory { formulas };
        assert(r.items() =~= self.items());
        r
    }
}

} // verus!
