use libprop_sat_solver::formula::{PropositionalFormula, Variable};
use libprop_sat_solver::tableaux_solver::{expand_non_literal_formula, is_satisfiable, is_valid, ExpansionKind};

#[test]
fn test_propositional_variable() {
    // a
    let formula = PropositionalFormula::variable(Variable::new("a"));

    assert!(is_satisfiable(&formula));
    assert!(!is_valid(&formula));
}

#[test]
fn test_conjunction_same_variable() {
    // (a^a)
    let formula = PropositionalFormula::conjunction(
        Box::new(PropositionalFormula::variable(Variable::new("a"))),
        Box::new(PropositionalFormula::variable(Variable::new("a"))),
    );

    assert!(is_satisfiable(&formula));
    assert!(!is_valid(&formula));
}

#[test]
fn test_conjunction_different_variables() {
    // (a^b)
    let formula = PropositionalFormula::conjunction(
        Box::new(PropositionalFormula::variable(Variable::new("a"))),
        Box::new(PropositionalFormula::variable(Variable::new("b"))),
    );

    assert!(is_satisfiable(&formula));
    assert!(!is_valid(&formula));
}

#[test]
fn test_disjunction_same_variable() {
    // (a|a)
    let formula = PropositionalFormula::disjunction(
        Box::new(PropositionalFormula::variable(Variable::new("a"))),
        Box::new(PropositionalFormula::variable(Variable::new("a"))),
    );

    assert!(is_satisfiable(&formula));
    assert!(!is_valid(&formula));
}

#[test]
fn test_disjunction_different_variables() {
    // (a|b)
    let formula = PropositionalFormula::disjunction(
        Box::new(PropositionalFormula::variable(Variable::new("a"))),
        Box::new(PropositionalFormula::variable(Variable::new("b"))),
    );

    assert!(is_satisfiable(&formula));
    assert!(!is_valid(&formula));
}

#[test]
fn test_implication_different_variables() {
    // (a->b)
    let formula = PropositionalFormula::implication(
        Box::new(PropositionalFormula::variable(Variable::new("a"))),
        Box::new(PropositionalFormula::variable(Variable::new("b"))),
    );

    assert!(is_satisfiable(&formula));
    assert!(!is_valid(&formula));
}

#[test]
fn test_biimplication_different_variables() {
    // (a<->b)
    let formula = PropositionalFormula::biimplication(
        Box::new(PropositionalFormula::variable(Variable::new("a"))),
        Box::new(PropositionalFormula::variable(Variable::new("b"))),
    );

    assert!(is_satisfiable(&formula));
    assert!(!is_valid(&formula));
}

#[test]
fn test_contradiction() {
    // (a^-a)
    let formula = PropositionalFormula::conjunction(
        Box::new(PropositionalFormula::variable(Variable::new("a"))),
        Box::new(PropositionalFormula::negated(Box::new(
            PropositionalFormula::variable(Variable::new("a")),
        ))),
    );

    assert!(!is_satisfiable(&formula));
    assert!(!is_valid(&formula));
}

#[test]
fn test_tautology_disjunction() {
    // (a|(-a))
    let formula = PropositionalFormula::disjunction(
        Box::new(PropositionalFormula::variable(Variable::new("a"))),
        Box::new(PropositionalFormula::negated(Box::new(
            PropositionalFormula::variable(Variable::new("a")),
        ))),
    );

    assert!(is_satisfiable(&formula));
    assert!(is_valid(&formula));
}

#[test]
fn test_tautology_disjunction_nested_negation() {
    // ((-a)|(-(-a)))
    let formula = PropositionalFormula::disjunction(
        Box::new(PropositionalFormula::negated(Box::new(
            PropositionalFormula::variable(Variable::new("a")),
        ))),
        Box::new(PropositionalFormula::negated(Box::new(
            PropositionalFormula::negated(Box::new(PropositionalFormula::variable(
                Variable::new("a"),
            ))),
        ))),
    );

    assert!(is_satisfiable(&formula));
    assert!(is_valid(&formula));
}

#[test]
fn test_tautology_implication_literal() {
    // (a->a)
    let formula = PropositionalFormula::implication(
        Box::new(PropositionalFormula::variable(Variable::new("a"))),
        Box::new(PropositionalFormula::variable(Variable::new("a"))),
    );

    assert!(is_satisfiable(&formula));
    assert!(is_valid(&formula));
}

#[test]
fn test_tautology_implication_negated_literal() {
    // ((-a)->(-a))
    let formula = PropositionalFormula::implication(
        Box::new(PropositionalFormula::negated(Box::new(
            PropositionalFormula::variable(Variable::new("a")),
        ))),
        Box::new(PropositionalFormula::negated(Box::new(
            PropositionalFormula::variable(Variable::new("a")),
        ))),
    );

    assert!(is_satisfiable(&formula));
    assert!(is_valid(&formula));
}

#[test]
fn test_tautology_biimplication_literal() {
    // (a<->a)
    let formula = PropositionalFormula::biimplication(
        Box::new(PropositionalFormula::variable(Variable::new("a"))),
        Box::new(PropositionalFormula::variable(Variable::new("a"))),
    );

    assert!(is_satisfiable(&formula));
    assert!(is_valid(&formula));
}

#[test]
fn test_tautology_biimplication_negated_literal() {
    // ((-a)<->(-a))
    let formula = PropositionalFormula::biimplication(
        Box::new(PropositionalFormula::negated(Box::new(
            PropositionalFormula::variable(Variable::new("a")),
        ))),
        Box::new(PropositionalFormula::negated(Box::new(
            PropositionalFormula::variable(Variable::new("a")),
        ))),
    );

    assert!(is_satisfiable(&formula));
    assert!(is_valid(&formula));
}

fn var(name: &str) -> Box<PropositionalFormula> {
    Box::new(PropositionalFormula::variable(Variable::new(name)))
}

fn not(f: Box<PropositionalFormula>) -> Box<PropositionalFormula> {
    Box::new(PropositionalFormula::negated(f))
}

#[test]
fn test_conjunction_implies_left_is_valid() {
    // ((a^b)->a)
    let formula = PropositionalFormula::implication(
        Box::new(PropositionalFormula::conjunction(var("a"), var("b"))),
        var("a"),
    );

    assert!(is_satisfiable(&formula));
    assert!(is_valid(&formula));
}

#[test]
fn test_validity_is_unsatisfiability_of_negation() {
    let formulas = vec![
        *var("a"),
        PropositionalFormula::implication(var("a"), var("b")),
        PropositionalFormula::disjunction(var("a"), not(var("a"))),
        PropositionalFormula::biimplication(
            Box::new(PropositionalFormula::implication(var("a"), var("b"))),
            Box::new(PropositionalFormula::disjunction(not(var("a")), var("b"))),
        ),
    ];
    for formula in formulas {
        let negated = PropositionalFormula::negated(Box::new(formula.clone()));
        assert_eq!(is_valid(&formula), !is_satisfiable(&negated));
    }
}

#[test]
fn test_de_morgan_is_valid() {
    // ((-(a^b))<->((-a)|(-b)))
    let formula = PropositionalFormula::biimplication(
        not(Box::new(PropositionalFormula::conjunction(var("a"), var("b")))),
        Box::new(PropositionalFormula::disjunction(not(var("a")), not(var("b")))),
    );
    assert!(is_valid(&formula));
}

#[test]
fn test_negated_biimplication_satisfiable() {
    // (-(a<->b)) holds when a and b differ; (-(a<->a)) never holds
    let differ = PropositionalFormula::negated(Box::new(PropositionalFormula::biimplication(
        var("a"),
        var("b"),
    )));
    assert!(is_satisfiable(&differ));
    assert!(!is_valid(&differ));

    let same = PropositionalFormula::negated(Box::new(PropositionalFormula::biimplication(
        var("a"),
        var("a"),
    )));
    assert!(!is_satisfiable(&same));
}

#[test]
fn test_unsatisfiable_three_variables() {
    // ((a|b)^((-a)^((b->c)^(-c))))
    let formula = PropositionalFormula::conjunction(
        Box::new(PropositionalFormula::disjunction(var("a"), var("b"))),
        Box::new(PropositionalFormula::conjunction(
            not(var("a")),
            Box::new(PropositionalFormula::conjunction(
                Box::new(PropositionalFormula::implication(var("b"), var("c"))),
                not(var("c")),
            )),
        )),
    );
    assert!(!is_satisfiable(&formula));
}

#[test]
fn test_expand_double_negation() {
    match expand_non_literal_formula(&PropositionalFormula::negated(not(var("a")))) {
        Some(ExpansionKind::Alpha(a, None)) => assert_eq!(*var("a"), *a),
        _ => panic!("expected an alpha expansion to a single formula"),
    }
}

#[test]
fn test_expand_biimplication() {
    match expand_non_literal_formula(&PropositionalFormula::biimplication(var("a"), var("b"))) {
        Some(ExpansionKind::Alpha(first, Some(second))) => {
            assert_eq!(PropositionalFormula::implication(var("a"), var("b")), *first);
            assert_eq!(PropositionalFormula::implication(var("b"), var("a")), *second);
        }
        _ => panic!("expected an alpha expansion to two formulas"),
    }
}

#[test]
fn test_expand_negated_biimplication() {
    let formula =
        PropositionalFormula::negated(Box::new(PropositionalFormula::biimplication(var("a"), var("b"))));
    match expand_non_literal_formula(&formula) {
        Some(ExpansionKind::Beta(first, second)) => {
            assert_eq!(PropositionalFormula::conjunction(var("a"), not(var("b"))), *first);
            assert_eq!(PropositionalFormula::conjunction(var("b"), not(var("a"))), *second);
        }
        _ => panic!("expected a beta expansion"),
    }
}

#[test]
fn test_expand_rules() {
    match expand_non_literal_formula(&PropositionalFormula::implication(var("a"), var("b"))) {
        Some(ExpansionKind::Beta(first, second)) => {
            assert_eq!(*not(var("a")), *first);
            assert_eq!(*var("b"), *second);
        }
        _ => panic!("expected a beta expansion"),
    }
    match expand_non_literal_formula(&PropositionalFormula::negated(Box::new(
        PropositionalFormula::implication(var("a"), var("b")),
    ))) {
        Some(ExpansionKind::Alpha(first, Some(second))) => {
            assert_eq!(*var("a"), *first);
            assert_eq!(*not(var("b")), *second);
        }
        _ => panic!("expected an alpha expansion"),
    }
    match expand_non_literal_formula(&PropositionalFormula::negated(Box::new(
        PropositionalFormula::disjunction(var("a"), var("b")),
    ))) {
        Some(ExpansionKind::Alpha(first, Some(second))) => {
            assert_eq!(*not(var("a")), *first);
            assert_eq!(*not(var("b")), *second);
        }
        _ => panic!("expected an alpha expansion"),
    }
    match expand_non_literal_formula(&PropositionalFormula::negated(Box::new(
        PropositionalFormula::conjunction(var("a"), var("b")),
    ))) {
        Some(ExpansionKind::Beta(first, second)) => {
            assert_eq!(*not(var("a")), *first);
            assert_eq!(*not(var("b")), *second);
        }
        _ => panic!("expected a beta expansion"),
    }
    match expand_non_literal_formula(&PropositionalFormula::conjunction(var("a"), var("b"))) {
        Some(ExpansionKind::Alpha(first, Some(second))) => {
            assert_eq!(*var("a"), *first);
            assert_eq!(*var("b"), *second);
        }
        _ => panic!("expected an alpha expansion"),
    }
    match expand_non_literal_formula(&PropositionalFormula::disjunction(var("a"), var("b"))) {
        Some(ExpansionKind::Beta(first, second)) => {
            assert_eq!(*var("a"), *first);
            assert_eq!(*var("b"), *second);
        }
        _ => panic!("expected a beta expansion"),
    }
}

#[test]
fn test_literals_have_no_expansion() {
    assert!(expand_non_literal_formula(&var("a")).is_none());
    assert!(expand_non_literal_formula(&not(var("a"))).is_none());
}

#[test]
fn test_terminates_on_nested_biimplications() {
    // (a<->(b<->(c<->(d<->e)))) is satisfiable and not valid;
    // ((a<->b)<->(b<->a)) is valid.
    let chain = PropositionalFormula::biimplication(
        var("a"),
        Box::new(PropositionalFormula::biimplication(
            var("b"),
            Box::new(PropositionalFormula::biimplication(
                var("c"),
                Box::new(PropositionalFormula::biimplication(var("d"), var("e"))),
            )),
        )),
    );
    assert!(is_satisfiable(&chain));
    assert!(!is_valid(&chain));

    let symmetric = PropositionalFormula::biimplication(
        Box::new(PropositionalFormula::biimplication(var("a"), var("b"))),
        Box::new(PropositionalFormula::biimplication(var("b"), var("a"))),
    );
    assert!(is_valid(&symmetric));
}
