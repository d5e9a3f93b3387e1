//! Unary and binary operators of propositional formulas.

use vstd::prelude::*;

verus! {

/// An operator is either unary (arity 1) or binary (arity 2).
#[derive(Debug, PartialEq, Eq, Structural, Hash, Copy, Clone)]
pub enum Operator {
    Unary(UnaryOperator),
    Binary(BinaryOperator),
}

/// The only unary operator is negation (logical NOT).
#[derive(Debug, PartialEq, Eq, Structural, Hash, Copy, Clone)]
pub enum UnaryOperator {
    Negation,
}

/// The four binary connectives.
#[derive(Debug, PartialEq, Eq, Structural, Hash, Copy, Clone)]
pub enum BinaryOperator {
    And,
    Or,
    Implication,
    Biimplication,
}

} // verus!
