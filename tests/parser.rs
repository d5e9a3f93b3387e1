use libprop_sat_solver::formula::{PropositionalFormula, Variable};
use libprop_sat_solver::lexer::{lex, Token};
use libprop_sat_solver::parser::parse;

fn var(name: &str) -> Box<PropositionalFormula> {
    Box::new(PropositionalFormula::variable(Variable::new(name)))
}

#[test]
fn test_negation() {
    assert_eq!(vec![Token::Negation], lex("-").unwrap());
}

#[test]
fn test_and_operator() {
    assert_eq!(vec![Token::And], lex("^").unwrap());
}

#[test]
fn test_or_operator() {
    assert_eq!(vec![Token::Or], lex("|").unwrap());
}

#[test]
fn test_implication_operator() {
    assert_eq!(vec![Token::Implication], lex("->").unwrap());
}

#[test]
fn test_biimplication_operator() {
    assert_eq!(vec![Token::Biimplication], lex("<->").unwrap());
}

#[test]
fn test_space() {
    assert!(lex(" \t").unwrap().is_empty());
}

#[test]
fn simple_propositional_variable_formula() {
    let expected_formula = PropositionalFormula::variable(Variable::new("a"));
    assert_eq!(Ok(expected_formula), parse("a"));
}

#[test]
fn negated_formula() {
    let expected_formula = PropositionalFormula::negated(var("a"));
    assert_eq!(Ok(expected_formula), parse("(-a)"));
}

#[test]
fn conjunction_formula() {
    let expected_formula = PropositionalFormula::conjunction(var("a"), var("b"));
    assert_eq!(Ok(expected_formula), parse("(a^b)"));
}

#[test]
fn disjunction_formula() {
    let expected_formula = PropositionalFormula::disjunction(var("a"), var("b"));
    assert_eq!(Ok(expected_formula), parse("(a|b)"));
}

#[test]
fn implication_formula() {
    let expected_formula = PropositionalFormula::implication(var("a"), var("b"));
    assert_eq!(Ok(expected_formula), parse("(a->b)"));
}

#[test]
fn bimplication_formula() {
    let expected_formula = PropositionalFormula::biimplication(var("a"), var("b"));
    assert_eq!(Ok(expected_formula), parse("(a<->b)"));
}

#[test]
fn single_alpha() {
    assert_eq!(
        Ok(PropositionalFormula::variable(Variable::new("a"))),
        parse("a")
    );
}

#[test]
fn mixed() {
    assert_eq!(
        Ok(PropositionalFormula::variable(Variable::new("a0ax4d"))),
        parse("a0ax4d")
    );
}

#[test]
fn invalid_name_fails() {
    assert!(parse("_").is_err());
}

#[test]
fn nested_formula_with_blanks() {
    let expected = PropositionalFormula::biimplication(
        Box::new(PropositionalFormula::negated(Box::new(
            PropositionalFormula::conjunction(var("a"), var("b")),
        ))),
        Box::new(PropositionalFormula::disjunction(
            Box::new(PropositionalFormula::negated(var("a"))),
            Box::new(PropositionalFormula::negated(var("b"))),
        )),
    );
    assert_eq!(Ok(expected), parse("( (- (a ^ b)) <-> ((-a) | (-b)) )"));
}

#[test]
fn unparenthesised_or_unfinished_text_fails() {
    assert!(parse("a^b").is_err());
    assert!(parse("-a").is_err());
    assert!(parse("(a^b").is_err());
    assert!(parse("(a^b))").is_err());
    assert!(parse("(a b)").is_err());
    assert!(parse("").is_err());
}
