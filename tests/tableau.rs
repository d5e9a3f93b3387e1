use libprop_sat_solver::formula::{PropositionalFormula, Variable};
use libprop_sat_solver::tableaux_solver::{Tableau, Theory};

#[test]
fn test_empty_construction() {
    let empty_tab = Tableau::new();
    assert!(empty_tab.is_empty());
}

#[test]
fn test_single_construction() {
    let mut single_tab = Tableau::from_starting_propositional_formula(
        PropositionalFormula::variable(Variable::new("a")),
    );

    assert!(!single_tab.is_empty());
    assert!(single_tab.pop_theory().unwrap().formulas().iter().count() == 1);
}

#[test]
fn test_push_theory() {
    let mut tab = Tableau::new();
    assert!(tab.is_empty());

    tab.push_theory(Theory::from_propositional_formula(
        PropositionalFormula::variable(Variable::new("a")),
    ));

    assert!(!tab.is_empty());

    let theory = tab.pop_theory().unwrap();

    assert!(
        &PropositionalFormula::variable(Variable::new("a"))
            == theory.formulas().iter().next().unwrap()
    );
}

#[test]
fn test_pop_theory() {
    let mut tab = Tableau::from_starting_propositional_formula(PropositionalFormula::variable(
        Variable::new("a"),
    ));
    assert!(!tab.is_empty());

    let theory = tab.pop_theory().unwrap();

    assert!(
        &PropositionalFormula::variable(Variable::new("a"))
            == theory.formulas().iter().next().unwrap()
    );
}

#[test]
fn test_push_pop_theory() {
    let mut tab = Tableau::new();

    tab.push_theory(Theory::from_propositional_formula(
        PropositionalFormula::variable(Variable::new("a")),
    ));
    let _ = tab.pop_theory();

    assert!(tab.is_empty());
}

#[test]
fn test_contains_theory() {
    let tab = Tableau::from_starting_propositional_formula(PropositionalFormula::variable(
        Variable::new("a"),
    ));

    assert!(tab.contains(&Theory::from_propositional_formula(
        PropositionalFormula::variable(Variable::new("a"))
    )));
}

#[test]
fn test_does_not_contain_theory() {
    let tab = Tableau::from_starting_propositional_formula(PropositionalFormula::variable(
        Variable::new("a"),
    ));

    assert!(!tab.contains(&Theory::from_propositional_formula(
        PropositionalFormula::variable(Variable::new("b"))
    )));
}

#[test]
fn test_contains_theory_in_any_order() {
    let a = PropositionalFormula::variable(Variable::new("a"));
    let b = PropositionalFormula::negated(Box::new(PropositionalFormula::variable(Variable::new("b"))));

    let mut first = Theory::new();
    first.add(a.clone());
    first.add(b.clone());

    let mut second = Theory::new();
    second.add(b.clone());
    second.add(a.clone());

    let mut tab = Tableau::new();
    tab.push_theory(first);
    assert!(tab.contains(&second));

    let mut third = Theory::new();
    third.add(a);
    assert!(!tab.contains(&third));
}

#[test]
fn test_fifo_order() {
    let mut tab = Tableau::new();
    tab.push_theory(Theory::from_propositional_formula(
        PropositionalFormula::variable(Variable::new("a")),
    ));
    tab.push_theory(Theory::from_propositional_formula(
        PropositionalFormula::variable(Variable::new("b")),
    ));
    let first = tab.pop_theory().unwrap();
    assert_eq!(
        &PropositionalFormula::variable(Variable::new("a")),
        first.formulas().iter().next().unwrap()
    );
    let second = tab.pop_theory().unwrap();
    assert_eq!(
        &PropositionalFormula::variable(Variable::new("b")),
        second.formulas().iter().next().unwrap()
    );
    assert!(tab.pop_theory().is_none());
}
