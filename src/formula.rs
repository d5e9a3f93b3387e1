//! Abstract syntax tree of a well-formed propositional formula, and its meaning.

pub mod operators;
pub mod propositional_formula;
pub mod variable;

pub use operators::{BinaryOperator, Operator, UnaryOperator};
pub use propositional_formula::{Formula, PropositionalFormula};
pub use variable::Variable;
