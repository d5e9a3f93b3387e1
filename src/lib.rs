//! Propositional satisfiability and validity checking with the analytic tableau method.

pub mod formula;
pub mod lexer;
pub mod parser;
pub mod tableaux_solver;

use vstd::prelude::*;
use vstd::string::*;

use formula::{Formula, PropositionalFormula};
use lexer::is_blank;
use parser::{parse, parses_to};

verus! {

/// Why a text could not be decided.
#[derive(Debug, Clone, Copy, PartialEq, Eq, Structural)]
pub enum SolverError {
    /// The text is empty or holds only blanks.
    EmptyFormula,
    /// The text is not the written form of a formula.
    IllFormedFormula,
    /// Any other failure.
    UnknownError,
}

/// The text holds only blanks (or nothing at all).
pub open spec fn is_blank_text(s: Seq<char>) -> bool {
    forall|i: int| 0 <= i < s.len() ==> is_blank(#[trigger] s[i])
}

/// Some formula is written as `s`.
pub open spec fn is_well_formed(s: Seq<char>) -> bool {
    exists|f: Formula| #[trigger] parses_to(s, f)
}

fn blank_text(input: &str) -> (r: bool)
    ensures
        r == is_blank_text(input@),
{
    let n = input.unicode_len();
    let mut i: usize = 0;
    while i < n
        invariant
            n == input@.len(),
            i <= n,
            forall|j: int| 0 <= j < i ==> is_blank(#[trigger] input@[j]),
        decreases n - i,
    {
        let c = input.get_char(i);
        if !(c == ' ' || c == '\t' || c == '\n' || c == '\r') {
            return false;
        }
        i += 1;
    }
    true
}

/// Read a formula from its text: an empty or blank text is `EmptyFormula`, a text that is no
/// formula is `IllFormedFormula`.
pub fn parse_formula(input: &str) -> (r: Result<PropositionalFormula, SolverError>)
    ensures
        match r {
            Ok(f) => !is_blank_text(input@) && parses_to(input@, f@),
            Err(SolverError::EmptyFormula) => is_blank_text(input@),
            Err(SolverError::IllFormedFormula) => !is_blank_text(input@) && !is_well_formed(
                input@,
            ),
            Err(SolverError::UnknownError) => false,
        },
{
    if blank_text(input) {
        return Err(SolverError::EmptyFormula);
    }
    match parse(input) {
        Ok(f) => Ok(f),
        Err(_) => Err(SolverError::IllFormedFormula),
    }
}

/// Whether the formula written in `input` is satisfiable.
pub fn is_satisfiable(input: &str) -> (r: Result<bool, SolverError>)
    ensures
        r == Err::<bool, SolverError>(SolverError::EmptyFormula) <==> is_blank_text(input@),
        r == Err::<bool, SolverError>(SolverError::IllFormedFormula) <==> !is_blank_text(input@)
            && !is_well_formed(input@),
        r is Ok <==> !is_blank_text(input@) && is_well_formed(input@),
        forall|f: Formula| #[trigger]
            parses_to(input@, f) && !is_blank_text(input@) ==> r == Ok::<bool, SolverError>(
                f.satisfiable(),
            ),
{
    match parse_formula(input) {
        Ok(f) => {
            let r = tableaux_solver::is_satisfiable(&f);
            proof {
                assert forall|g: Formula| #[trigger] parses_to(input@, g) implies g == f@ by {
                    parser::lemma_single_reading(input@, f@, g);
                }
            }
            Ok(r)
        },
        Err(e) => Err(e),
    }
}

impl std::str::FromStr for PropositionalFormula {
    type Err = SolverError;

    fn from_str(s: &str) -> Result<Self, Self::Err> {
        parse_formula(s)
    }
}

} // verus!
