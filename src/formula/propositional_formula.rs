//! A propositional formula: its executable tree, its mathematical model and its meaning.

use vstd::prelude::*;

use super::Variable;

verus! {

/// The mathematical model of a propositional formula: the same tree, with each variable
/// given by its name.
pub enum Formula {
    Variable(Seq<char>),
    Negation(Box<Formula>),
    Conjunction(Box<Formula>, Box<Formula>),
    Disjunction(Box<Formula>, Box<Formula>),
    Implication(Box<Formula>, Box<Formula>),
    Biimplication(Box<Formula>, Box<Formula>),
}

/// A truth assignment: the truth value of each variable name.
pub type Valuation = spec_fn(Seq<char>) -> bool;

impl Formula {
    /// A literal is a variable or the negation of a variable (exactly one level deep).
    pub open spec fn is_literal(self) -> bool {
        match self {
            Formula::Variable(_) => true,
            Formula::Negation(inner) => inner.is_variable(),
            _ => false,
        }
    }

    pub open spec fn is_variable(self) -> bool {
        self is Variable
    }

    /// The truth value of the formula under the assignment `v`.
    pub open spec fn eval(self, v: Valuation) -> bool
        decreases self,
    {
        match self {
            Formula::Variable(name) => v(name),
            Formula::Negation(a) => !a.eval(v),
            Formula::Conjunction(a, b) => a.eval(v) && b.eval(v),
            Formula::Disjunction(a, b) => a.eval(v) || b.eval(v),
            Formula::Implication(a, b) => !a.eval(v) || b.eval(v),
            Formula::Biimplication(a, b) => a.eval(v) == b.eval(v),
        }
    }

    /// Some truth assignment makes the formula true.
    pub open spec fn satisfiable(self) -> bool {
        exists|v: Valuation| #[trigger] self.eval(v)
    }

    /// Every truth assignment makes the formula true.
    pub open spec fn valid(self) -> bool {
        forall|v: Valuation| #[trigger] self.eval(v)
    }

    /// A measure of the expansion work that the formula still holds: every tableau rule
    /// replaces a formula by formulas of strictly smaller total weight.
    pub open spec fn weight(self) -> nat
        decreases self,
    {
        match self {
            Formula::Variable(_) => 1,
            Formula::Negation(a) => a.weight() + 1,
            Formula::Conjunction(a, b) => a.weight() + b.weight() + 2,
            Formula::Disjunction(a, b) => a.weight() + b.weight() + 2,
            Formula::Implication(a, b) => a.weight() + b.weight() + 2,
            Formula::Biimplication(a, b) => 2 * a.weight() + 2 * b.weight() + 5,
        }
    }

    /// The number of nodes of the tree.
    pub open spec fn size(self) -> nat
        decreases self,
    {
        match self {
            Formula::Variable(_) => 1,
            Formula::Negation(a) => a.size() + 1,
            Formula::Conjunction(a, b) => a.size() + b.size() + 1,
            Formula::Disjunction(a, b) => a.size() + b.size() + 1,
            Formula::Implication(a, b) => a.size() + b.size() + 1,
            Formula::Biimplication(a, b) => a.size() + b.size() + 1,
        }
    }
}

/// A well-formed propositional formula, following the fully parenthesised grammar
///
/// ```text
/// <formula> ::= <variable>
///             | ( - <formula> )
///             | ( <formula> ^ <formula> )
///             | ( <formula> | <formula> )
///             | ( <formula> -> <formula> )
///             | ( <formula> <-> <formula> )
/// ```
///
/// Each node owns its sub-formulas; two formulas are equal when their trees are.
#[derive(Debug, Eq, Hash)]
pub enum PropositionalFormula {
    /// Base case: a single propositional variable.
    Variable(Variable),
    /// Negated formula.
    Negation(Box<PropositionalFormula>),
    /// Logical AND of the left and right sub-formulas.
    Conjunction(Box<PropositionalFormula>, Box<PropositionalFormula>),
    /// Logical OR of the left and right sub-formulas.
    Disjunction(Box<PropositionalFormula>, Box<PropositionalFormula>),
    /// Premise implies conclusion.
    Implication(Box<PropositionalFormula>, Box<PropositionalFormula>),
    /// Left holds exactly when right holds.
    Biimplication(Box<PropositionalFormula>, Box<PropositionalFormula>),
}

impl PropositionalFormula {
    /// The model of the tree (see `Formula`).
    pub open spec fn model(&self) -> Formula
        decreases self,
    {
        match self {
            PropositionalFormula::Variable(x) => Formula::Variable(x@),
            PropositionalFormula::Negation(a) => Formula::Negation(Box::new(a.model())),
            PropositionalFormula::Conjunction(a, b) => Formula::Conjunction(
                Box::new(a.model()),
                Box::new(b.model()),
            ),
            PropositionalFormula::Disjunction(a, b) => Formula::Disjunction(
                Box::new(a.model()),
                Box::new(b.model()),
            ),
            PropositionalFormula::Implication(a, b) => Formula::Implication(
                Box::new(a.model()),
                Box::new(b.model()),
            ),
            PropositionalFormula::Biimplication(a, b) => Formula::Biimplication(
                Box::new(a.model()),
                Box::new(b.model()),
            ),
        }
    }
}

impl View for PropositionalFormula {
    type V = Formula;

    open spec fn view(&self) -> Formula {
        self.model()
    }
}

impl PropositionalFormula {
    /// The formula made of the single variable `v`.
    pub fn variable(v: Variable) -> (r: PropositionalFormula)
        ensures
            r@ == Formula::Variable(v@),
    {
        PropositionalFormula::Variable(v)
    }

    /// The negation of `formula`.
    pub fn negated(formula: Box<PropositionalFormula>) -> (r: PropositionalFormula)
        ensures
            r@ == Formula::Negation(Box::new(formula@)),
    {
        PropositionalFormula::Negation(formula)
    }

    /// The conjunction of two sub-formulas.
    pub fn conjunction(
        left_sub_formula: Box<PropositionalFormula>,
        right_sub_formula: Box<PropositionalFormula>,
    ) -> (r: PropositionalFormula)
        ensures
            r@ == Formula::Conjunction(Box::new(left_sub_formula@), Box::new(right_sub_formula@)),
    {
        PropositionalFormula::Conjunction(left_sub_formula, right_sub_formula)
    }

    /// The disjunction of two sub-formulas.
    pub fn disjunction(
        left_sub_formula: Box<PropositionalFormula>,
        right_sub_formula: Box<PropositionalFormula>,
    ) -> (r: PropositionalFormula)
        ensures
            r@ == Formula::Disjunction(Box::new(left_sub_formula@), Box::new(right_sub_formula@)),
    {
        PropositionalFormula::Disjunction(left_sub_formula, right_sub_formula)
    }

    /// The implication from a premise to a conclusion.
    pub fn implication(
        left_sub_formula: Box<PropositionalFormula>,
        right_sub_formula: Box<PropositionalFormula>,
    ) -> (r: PropositionalFormula)
        ensures
            r@ == Formula::Implication(Box::new(left_sub_formula@), Box::new(right_sub_formula@)),
    {
        PropositionalFormula::Implication(left_sub_formula, right_sub_formula)
    }

    /// The biimplication of two sub-formulas.
    pub fn biimplication(
        left_sub_formula: Box<PropositionalFormula>,
        right_sub_formula: Box<PropositionalFormula>,
    ) -> (r: PropositionalFormula)
        ensures
            r@ == Formula::Biimplication(
                Box::new(left_sub_formula@),
                Box::new(right_sub_formula@),
            ),
    {
        PropositionalFormula::Biimplication(left_sub_formula, right_sub_formula)
    }

    /// Whether the formula is a literal: a variable `p`, or its negation `(-p)`.
    pub fn is_literal(&self) -> (r: bool)
        ensures
            r == self@.is_literal(),
    {
        match self {
            PropositionalFormula::Variable(_) => true,
            PropositionalFormula::Negation(inner) => {
                assert(self@ == Formula::Negation(Box::new(inner@)));
                match &**inner {
                    PropositionalFormula::Variable(_) => true,
                    _ => false,
                }
            },
            _ => false,
        }
    }
}

impl Clone for PropositionalFormula {
    fn clone(&self) -> (r: PropositionalFormula)
        ensures
            r@ == self@,
        decreases self,
    {
        match self {
            PropositionalFormula::Variable(x) => PropositionalFormula::Variable(x.clone()),
            PropositionalFormula::Negation(a) => PropositionalFormula::Negation(
                Box::new((&**a).clone()),
            ),
            PropositionalFormula::Conjunction(a, b) => PropositionalFormula::Conjunction(
                Box::new((&**a).clone()),
                Box::new((&**b).clone()),
            ),
            PropositionalFormula::Disjunction(a, b) => PropositionalFormula::Disjunction(
                Box::new((&**a).clone()),
                Box::new((&**b).clone()),
            ),
            PropositionalFormula::Implication(a, b) => PropositionalFormula::Implication(
                Box::new((&**a).clone()),
                Box::new((&**b).clone()),
            ),
            PropositionalFormula::Biimplication(a, b) => PropositionalFormula::Biimplication(
                Box::new((&**a).clone()),
                Box::new((&**b).clone()),
            ),
        }
    }
}

impl From<Variable> for PropositionalFormula {
    /// The formula made of the single variable `v`.
    fn from(v: Variable) -> PropositionalFormula {
        PropositionalFormula::Variable(v)
    }
}

impl vstd::std_specs::convert::FromSpecImpl<Variable> for PropositionalFormula {
    open spec fn obeys_from_spec() -> bool {
        true
    }

    open spec fn from_spec(v: Variable) -> PropositionalFormula {
        PropositionalFormula::Variable(v)
    }
}

impl PartialEq for PropositionalFormula {
    fn eq(&self, other: &PropositionalFormula) -> (r: bool)
        decreases self,
    {
        match (self, other) {
            (PropositionalFormula::Variable(x), PropositionalFormula::Variable(y)) => x == y,
            (PropositionalFormula::Negation(a), PropositionalFormula::Negation(c)) => {
                (&**a).eq(&**c)
            },
            (
                PropositionalFormula::Conjunction(a, b),
                PropositionalFormula::Conjunction(c, d),
            ) => (&**a).eq(&**c) && (&**b).eq(&**d),
            (
                PropositionalFormula::Disjunction(a, b),
                PropositionalFormula::Disjunction(c, d),
            ) => (&**a).eq(&**c) && (&**b).eq(&**d),
            (
                PropositionalFormula::Implication(a, b),
                PropositionalFormula::Implication(c, d),
            ) => (&**a).eq(&**c) && (&**b).eq(&**d),
            (
                PropositionalFormula::Biimplication(a, b),
                PropositionalFormula::Biimplication(c, d),
            ) => (&**a).eq(&**c) && (&**b).eq(&**d),
            _ => false,
        }
    }
}

impl vstd::std_specs::cmp::PartialEqSpecImpl for PropositionalFormula {
    open spec fn obeys_eq_spec() -> bool {
        true
    }

    open spec fn eq_spec(&self, other: &PropositionalFormula) -> bool {
        self@ == other@
    }
}

} // verus!
