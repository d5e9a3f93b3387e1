//! Satisfiability and validity of propositional formulas by the propositional tableau method.

pub mod tableau;
pub mod theory;

pub use tableau::Tableau;
pub use theory::Theory;

use vstd::prelude::*;

use crate::formula::propositional_formula::Valuation;
use crate::formula::{Formula, PropositionalFormula};
use theory::{all_literals, has_complementary_literals};

verus! {

/// The expansion of a non-literal formula.
pub enum ExpansionKind {
    /// The alpha rule: one branch, which receives one or two new formulas.
    ///
    /// | Form        | alpha 1  | alpha 2  |
    /// | ----------- | -------- | -------- |
    /// | `(A^B)`     | `A`      | `B`      |
    /// | `(A<->B)`   | `(A->B)` | `(B->A)` |
    /// | `(-(A|B))`  | `(-A)`   | `(-B)`   |
    /// | `(-(A->B))` | `A`      | `(-B)`   |
    /// | `(-(-A))`   | `A`      | -        |
    Alpha(Box<PropositionalFormula>, Option<Box<PropositionalFormula>>),
    /// The beta rule: two branches, each of which receives one new formula.
    ///
    /// | Form         | beta 1     | beta 2     |
    /// | ------------ | ---------- | ---------- |
    /// | `(A|B)`      | `A`        | `B`        |
    /// | `(-(A^B))`   | `(-A)`     | `(-B)`     |
    /// | `(A->B)`     | `(-A)`     | `B`        |
    /// | `(-(A<->B))` | `(A^(-B))` | `(B^(-A))` |
    Beta(Box<PropositionalFormula>, Box<PropositionalFormula>),
}

/// The model of an `ExpansionKind`.
pub enum Expansion {
    Alpha(Formula, Option<Formula>),
    Beta(Formula, Formula),
}

impl View for ExpansionKind {
    type V = Expansion;

    open spec fn view(&self) -> Expansion {
        match self {
            ExpansionKind::Alpha(a, b) => Expansion::Alpha(
                a@,
                match b {
                    Some(b) => Some(b@),
                    None => None,
                },
            ),
            ExpansionKind::Beta(a, b) => Expansion::Beta(a@, b@),
        }
    }
}

pub open spec fn neg(a: Formula) -> Formula {
    Formula::Negation(Box::new(a))
}

pub open spec fn conj(a: Formula, b: Formula) -> Formula {
    Formula::Conjunction(Box::new(a), Box::new(b))
}

pub open spec fn imp(a: Formula, b: Formula) -> Formula {
    Formula::Implication(Box::new(a), Box::new(b))
}

/// The tableau rule table: the expansion of each non-literal formula, and none for a literal.
pub open spec fn expansion(f: Formula) -> Option<Expansion> {
    match f {
        Formula::Variable(_) => None,
        Formula::Conjunction(a, b) => Some(Expansion::Alpha(*a, Some(*b))),
        Formula::Biimplication(a, b) => Some(Expansion::Alpha(imp(*a, *b), Some(imp(*b, *a)))),
        Formula::Disjunction(a, b) => Some(Expansion::Beta(*a, *b)),
        Formula::Implication(a, b) => Some(Expansion::Beta(neg(*a), *b)),
        Formula::Negation(inner) => match *inner {
            Formula::Variable(_) => None,
            Formula::Negation(a) => Some(Expansion::Alpha(*a, None)),
            Formula::Disjunction(a, b) => Some(Expansion::Alpha(neg(*a), Some(neg(*b)))),
            Formula::Implication(a, b) => Some(Expansion::Alpha(*a, Some(neg(*b)))),
            Formula::Conjunction(a, b) => Some(Expansion::Beta(neg(*a), neg(*b))),
            Formula::Biimplication(a, b) => Some(
                Expansion::Beta(conj(*a, neg(*b)), conj(*b, neg(*a))),
            ),
        },
    }
}

/// Exactly the non-literal formulas have an expansion.
pub proof fn lemma_expansion_exists(f: Formula)
    ensures
        expansion(f) is Some <==> !f.is_literal(),
{
}

/// Each rule preserves meaning: an alpha expansion holds exactly when all its formulas hold,
/// a beta expansion exactly when one of its two formulas holds.
pub proof fn lemma_expansion_sound(f: Formula, v: Valuation)
    requires
        expansion(f) is Some,
    ensures
        match expansion(f).unwrap() {
            Expansion::Alpha(a, None) => f.eval(v) == a.eval(v),
            Expansion::Alpha(a, Some(b)) => f.eval(v) == (a.eval(v) && b.eval(v)),
            Expansion::Beta(a, b) => f.eval(v) == (a.eval(v) || b.eval(v)),
        },
{
    reveal_with_fuel(Formula::eval, 3);
}

/// Each rule strictly lowers the weight: the formulas of an alpha expansion weigh less than
/// the expanded formula together, each formula of a beta expansion does alone.
pub proof fn lemma_expansion_decreases(f: Formula)
    requires
        expansion(f) is Some,
    ensures
        match expansion(f).unwrap() {
            Expansion::Alpha(a, None) => a.weight() < f.weight(),
            Expansion::Alpha(a, Some(b)) => a.weight() + b.weight() < f.weight(),
            Expansion::Beta(a, b) => a.weight() < f.weight() && b.weight() < f.weight(),
        },
{
    reveal_with_fuel(Formula::weight, 3);
}

fn boxed_negation(a: &PropositionalFormula) -> (r: Box<PropositionalFormula>)
    ensures
        r@ == neg(a@),
{
    Box::new(PropositionalFormula::negated(Box::new(a.clone())))
}

/// Classify a formula by the tableau rule that applies to it and return its expansion;
/// `None` for a literal, to which no rule applies.
pub fn expand_non_literal_formula(non_literal: &PropositionalFormula) -> (r: Option<ExpansionKind>)
    ensures
        match r {
            Some(k) => expansion(non_literal@) == Some(k@),
            None => expansion(non_literal@) is None,
        },
{
    match non_literal {
        PropositionalFormula::Variable(_) => None,
        // (A^B) => Alpha(A, B).
        PropositionalFormula::Conjunction(a, b) => {
            Some(ExpansionKind::Alpha(Box::new((&**a).clone()), Some(Box::new((&**b).clone()))))
        },
        // (A<->B) => Alpha((A->B), (B->A)).
        PropositionalFormula::Biimplication(a, b) => {
            let alpha_1 = PropositionalFormula::implication(
                Box::new((&**a).clone()),
                Box::new((&**b).clone()),
            );
            let alpha_2 = PropositionalFormula::implication(
                Box::new((&**b).clone()),
                Box::new((&**a).clone()),
            );
            Some(ExpansionKind::Alpha(Box::new(alpha_1), Some(Box::new(alpha_2))))
        },
        // (A|B) => Beta(A, B).
        PropositionalFormula::Disjunction(a, b) => {
            Some(ExpansionKind::Beta(Box::new((&**a).clone()), Box::new((&**b).clone())))
        },
        // (A->B) => Beta((-A), B).
        PropositionalFormula::Implication(a, b) => {
            Some(ExpansionKind::Beta(boxed_negation(&**a), Box::new((&**b).clone())))
        },
        PropositionalFormula::Negation(inner) => {
            assert(non_literal@ == neg(inner@));
            match &**inner {
                PropositionalFormula::Variable(_) => None,
                // (-(-A)) => Alpha(A).
                PropositionalFormula::Negation(a) => {
                    Some(ExpansionKind::Alpha(Box::new((&**a).clone()), None))
                },
                // (-(A|B)) => Alpha((-A), (-B)).
                PropositionalFormula::Disjunction(a, b) => {
                    Some(ExpansionKind::Alpha(boxed_negation(&**a), Some(boxed_negation(&**b))))
                },
                // (-(A->B)) => Alpha(A, (-B)).
                PropositionalFormula::Implication(a, b) => {
                    Some(
                        ExpansionKind::Alpha(
                            Box::new((&**a).clone()),
                            Some(boxed_negation(&**b)),
                        ),
                    )
                },
                // (-(A^B)) => Beta((-A), (-B)).
                PropositionalFormula::Conjunction(a, b) => {
                    Some(ExpansionKind::Beta(boxed_negation(&**a), boxed_negation(&**b)))
                },
                // (-(A<->B)) => Beta((A^(-B)), (B^(-A))).
                PropositionalFormula::Biimplication(a, b) => {
                    let beta_1 = PropositionalFormula::conjunction(
                        Box::new((&**a).clone()),
                        boxed_negation(&**b),
                    );
                    let beta_2 = PropositionalFormula::conjunction(
                        Box::new((&**b).clone()),
                        boxed_negation(&**a),
                    );
                    Some(ExpansionKind::Beta(Box::new(beta_1), Box::new(beta_2)))
                },
            }
        },
    }
}

/// Every member of the branch `s` holds under `v`.
pub open spec fn satisfies(s: Set<Formula>, v: Valuation) -> bool {
    forall|g: Formula| #[trigger] s.contains(g) ==> g.eval(v)
}

/// Some truth assignment makes every member of the branch `s` true.
pub open spec fn branch_satisfiable(s: Set<Formula>) -> bool {
    exists|v: Valuation| #[trigger] satisfies(s, v)
}

/// Some branch of the queue `q` can be satisfied.
pub open spec fn some_branch_satisfiable(q: Seq<Theory>) -> bool {
    exists|i: int| 0 <= i < q.len() && #[trigger] branch_satisfiable(q[i]@)
}

/// No two branches of the queue `q` have the same members.
pub open spec fn branches_distinct(q: Seq<Theory>) -> bool {
    forall|i: int, j: int| 0 <= i < j < q.len() ==> (#[trigger] q[i])@ != (#[trigger] q[j])@
}

pub open spec fn pow3(n: nat) -> nat
    decreases n,
{
    if n == 0 {
        1
    } else {
        3 * pow3((n - 1) as nat)
    }
}

/// The termination measure of the search: each branch of the queue counts for three to the
/// power of its weight.
pub open spec fn queue_measure(q: Seq<Theory>) -> nat
    decreases q.len(),
{
    if q.len() == 0 {
        0
    } else {
        pow3(q[0].weight()) + queue_measure(q.drop_first())
    }
}

proof fn lemma_pow3_grows(a: nat, b: nat)
    requires
        a < b,
    ensures
        1 <= pow3(a),
        3 * pow3(a) <= pow3(b),
    decreases b,
{
    if b == a + 1 {
        lemma_pow3_positive(a);
    } else {
        lemma_pow3_grows(a, (b - 1) as nat);
    }
}

proof fn lemma_pow3_positive(a: nat)
    ensures
        1 <= pow3(a),
    decreases a,
{
    if a > 0 {
        lemma_pow3_positive((a - 1) as nat);
    }
}

proof fn lemma_measure_push(q: Seq<Theory>, t: Theory)
    ensures
        queue_measure(q.push(t)) == queue_measure(q) + pow3(t.weight()),
    decreases q.len(),
{
    if q.len() > 0 {
        lemma_measure_push(q.drop_first(), t);
        assert(q.push(t).drop_first() =~= q.drop_first().push(t));
        assert(q.push(t)[0] == q[0]);
        assert(queue_measure(q.push(t)) == pow3(q[0].weight()) + queue_measure(
            q.drop_first().push(t),
        ));
    } else {
        let e = Seq::<Theory>::empty();
        assert(q.push(t).drop_first() =~= e);
        assert(q.push(t)[0] == t);
        assert(queue_measure(e) == 0);
        assert(queue_measure(q.push(t)) == pow3(t.weight()) + queue_measure(e));
    }
}

proof fn lemma_some_branch_push(q: Seq<Theory>, t: Theory)
    ensures
        some_branch_satisfiable(q.push(t)) == (some_branch_satisfiable(q) || branch_satisfiable(
            t@,
        )),
{
    let p = q.push(t);
    if some_branch_satisfiable(q) {
        let i = choose|i: int| 0 <= i < q.len() && #[trigger] branch_satisfiable(q[i]@);
        assert(p[i] == q[i]);
    }
    if branch_satisfiable(t@) {
        assert(p[q.len() as int] == t);
    }
    if some_branch_satisfiable(p) {
        let i = choose|i: int| 0 <= i < p.len() && #[trigger] branch_satisfiable(p[i]@);
        if i < q.len() {
            assert(p[i] == q[i]);
        }
    }
}

proof fn lemma_some_branch_pop(q: Seq<Theory>)
    requires
        q.len() > 0,
    ensures
        some_branch_satisfiable(q) == (branch_satisfiable(q[0]@) || some_branch_satisfiable(
            q.drop_first(),
        )),
{
    let r = q.drop_first();
    if some_branch_satisfiable(q) {
        let i = choose|i: int| 0 <= i < q.len() && #[trigger] branch_satisfiable(q[i]@);
        if i > 0 {
            assert(r[i - 1] == q[i]);
        }
    }
    if some_branch_satisfiable(r) {
        let i = choose|i: int| 0 <= i < r.len() && #[trigger] branch_satisfiable(r[i]@);
        assert(q[i + 1] == r[i]);
    }
    if branch_satisfiable(q[0]@) {
        assert(0 <= 0 < q.len());
    }
}

/// A fully expanded branch without a contradiction is satisfied by making true exactly the
/// variables that it holds.
pub proof fn lemma_open_branch(s: Set<Formula>)
    requires
        all_literals(s),
        !has_complementary_literals(s),
    ensures
        branch_satisfiable(s),
{
    let v: Valuation = |name: Seq<char>| s.contains(Formula::Variable(name));
    assert forall|g: Formula| #[trigger] s.contains(g) implies g.eval(v) by {
        assert(g.is_literal());
        match g {
            Formula::Negation(inner) => {
                let name = inner->Variable_0;
                assert(inner.eval(v) == v(name));
                assert(!s.contains(Formula::Variable(name)));
            },
            _ => {},
        }
    }
    assert(satisfies(s, v));
}

/// A branch that holds a variable and its negation cannot be satisfied.
pub proof fn lemma_closed_branch(s: Set<Formula>)
    requires
        has_complementary_literals(s),
    ensures
        !branch_satisfiable(s),
{
    let name = choose|name: Seq<char>|
        #[trigger] s.contains(Formula::Variable(name)) && s.contains(
            Formula::Negation(Box::new(Formula::Variable(name))),
        );
    assert forall|v: Valuation| !satisfies(s, v) by {
        let p = Formula::Variable(name);
        let n = Formula::Negation(Box::new(p));
        assert(s.contains(p) && s.contains(n));
        assert(n.eval(v) == !p.eval(v));
    }
}

proof fn lemma_alpha_branch(s: Set<Formula>, g: Formula, a: Formula, b: Formula)
    requires
        s.contains(g),
        forall|v: Valuation| #[trigger] g.eval(v) == (a.eval(v) && b.eval(v)),
    ensures
        branch_satisfiable(s.remove(g).insert(a).insert(b)) == branch_satisfiable(s),
{
    let t = s.remove(g).insert(a).insert(b);
    assert forall|v: Valuation| #[trigger] satisfies(t, v) == satisfies(s, v) by {
        if satisfies(s, v) {
            assert(g.eval(v));
        }
        if satisfies(t, v) {
            assert(t.contains(a) && t.contains(b));
            assert forall|h: Formula| #[trigger] s.contains(h) implies h.eval(v) by {
                if h != g {
                    assert(t.contains(h));
                }
            }
        }
    }
    if branch_satisfiable(s) {
        let v = choose|v: Valuation| #[trigger] satisfies(s, v);
        assert(satisfies(t, v));
    }
    if branch_satisfiable(t) {
        let v = choose|v: Valuation| #[trigger] satisfies(t, v);
        assert(satisfies(s, v));
    }
}

proof fn lemma_beta_branch(s: Set<Formula>, g: Formula, a: Formula, b: Formula)
    requires
        s.contains(g),
        forall|v: Valuation| #[trigger] g.eval(v) == (a.eval(v) || b.eval(v)),
    ensures
        branch_satisfiable(s) == (branch_satisfiable(s.remove(g).insert(a))
            || branch_satisfiable(s.remove(g).insert(b))),
{
    let ta = s.remove(g).insert(a);
    let tb = s.remove(g).insert(b);
    assert forall|v: Valuation| #[trigger] satisfies(s, v) == (satisfies(ta, v) || satisfies(tb, v)) by {
        if satisfies(s, v) {
            assert(g.eval(v));
            if a.eval(v) {
                assert(satisfies(ta, v));
            } else {
                assert(satisfies(tb, v));
            }
        }
        if satisfies(ta, v) {
            assert(ta.contains(a));
            assert forall|h: Formula| #[trigger] s.contains(h) implies h.eval(v) by {
                if h != g {
                    assert(ta.contains(h));
                }
            }
        }
        if satisfies(tb, v) {
            assert(tb.contains(b));
            assert forall|h: Formula| #[trigger] s.contains(h) implies h.eval(v) by {
                if h != g {
                    assert(tb.contains(h));
                }
            }
        }
    }
    if branch_satisfiable(s) {
        let v = choose|v: Valuation| #[trigger] satisfies(s, v);
        assert(satisfies(ta, v) || satisfies(tb, v));
    }
    if branch_satisfiable(ta) {
        let v = choose|v: Valuation| #[trigger] satisfies(ta, v);
        assert(satisfies(s, v));
    }
    if branch_satisfiable(tb) {
        let v = choose|v: Valuation| #[trigger] satisfies(tb, v);
        assert(satisfies(s, v));
    }
}

/// Add `theory` at the back of the queue, unless a theory with the same members is already
/// queued, or `theory` closes: neither can change whether some branch is satisfiable.
fn enqueue_branch(tableau: &mut Tableau, theory: Theory)
    requires
        theory.wf(),
        forall|i: int| 0 <= i < old(tableau)@.len() ==> (#[trigger] old(tableau)@[i]).wf(),
        branches_distinct(old(tableau)@),
    ensures
        forall|i: int| 0 <= i < final(tableau)@.len() ==> (#[trigger] final(tableau)@[i]).wf(),
        branches_distinct(final(tableau)@),
        some_branch_satisfiable(final(tableau)@) == (some_branch_satisfiable(old(tableau)@)
            || branch_satisfiable(theory@)),
        queue_measure(final(tableau)@) <= queue_measure(old(tableau)@) + pow3(theory.weight()),
{
    let ghost q = tableau@;
    proof {
        lemma_some_branch_push(q, theory);
        lemma_measure_push(q, theory);
    }
    if tableau.contains(&theory) {
        proof {
            let i = choose|i: int| 0 <= i < q.len() && (#[trigger] q[i])@ == theory@;
            if branch_satisfiable(theory@) {
                assert(branch_satisfiable(q[i]@));
            }
        }
    } else if theory.has_contradictions() {
        proof {
            lemma_closed_branch(theory@);
        }
    } else {
        tableau.push_theory(theory);
        proof {
            let p = tableau@;
            assert forall|i: int, j: int|
                0 <= i < j < p.len() implies (#[trigger] p[i])@ != (#[trigger] p[j])@ by {
                assert(p[i] == q[i]);
                if j < q.len() {
                    assert(p[j] == q[j]);
                }
            }
        }
    }
}

pub open spec fn pow5(n: nat) -> nat
    decreases n,
{
    if n == 0 {
        1
    } else {
        5 * pow5((n - 1) as nat)
    }
}

proof fn lemma_pow5_at_least_five(n: nat)
    requires
        n >= 1,
    ensures
        pow5(n) >= 5,
    decreases n,
{
    assert(pow5(n) == 5 * pow5((n - 1) as nat));
    if n > 1 {
        lemma_pow5_at_least_five((n - 1) as nat);
    } else {
        assert(pow5(0) == 1);
    }
}

proof fn lemma_pow5_add(a: nat, b: nat)
    ensures
        pow5(a + b) == pow5(a) * pow5(b),
    decreases a,
{
    if a > 0 {
        lemma_pow5_add((a - 1) as nat, b);
        assert(pow5(a) == 5 * pow5((a - 1) as nat));
        assert(pow5(a + b) == 5 * pow5((a - 1 + b) as nat));
        assert(5 * (pow5((a - 1) as nat) * pow5(b)) == (5 * pow5((a - 1) as nat)) * pow5(b))
            by (nonlinear_arith);
        assert(pow5(a) * pow5(b) == (5 * pow5((a - 1) as nat)) * pow5(b));
    } else {
        assert(pow5(0) == 1);
        assert(pow5(a + b) == pow5(b));
    }
}

proof fn lemma_pow3_monotonic(a: nat, b: nat)
    requires
        a <= b,
    ensures
        pow3(a) <= pow3(b),
{
    if a < b {
        lemma_pow3_grows(a, b);
    }
}

/// The weight of a formula is bounded by its size alone: `weight(f) < 5^size(f)`.
pub proof fn lemma_weight_bound(f: Formula)
    ensures
        f.weight() < pow5(f.size()),
    decreases f,
{
    match f {
        Formula::Variable(_) => {
            assert(pow5(1) == 5 * pow5(0));
        },
        Formula::Negation(a) => {
            lemma_weight_bound(*a);
            assert(pow5(a.size() + 1) == 5 * pow5(a.size()));
        },
        _ => {
            let (a, b) = match f {
                Formula::Conjunction(a, b) => (*a, *b),
                Formula::Disjunction(a, b) => (*a, *b),
                Formula::Implication(a, b) => (*a, *b),
                Formula::Biimplication(a, b) => (*a, *b),
                _ => (f, f),
            };
            lemma_weight_bound(a);
            lemma_weight_bound(b);
            lemma_first_size(a);
            lemma_first_size(b);
            lemma_pow5_at_least_five(a.size());
            lemma_pow5_at_least_five(b.size());
            lemma_pow5_add(a.size(), b.size());
            lemma_pow5_add(a.size() + b.size(), 1);
            assert(pow5(1) == 5 * pow5(0));
            let (x, y) = (pow5(a.size()), pow5(b.size()));
            assert(f.size() == a.size() + b.size() + 1);
            assert(pow5(f.size()) == x * y * 5);
            assert(2 * a.weight() + 2 * b.weight() + 5 < x * y * 5) by (nonlinear_arith)
                requires
                    a.weight() < x,
                    b.weight() < y,
                    x >= 5,
                    y >= 5,
            ;
        },
    }
}

proof fn lemma_first_size(f: Formula)
    ensures
        f.size() >= 1,
{
}

/// How many rounds the search may take on a formula of `n` nodes: `3^(5^n)`.
pub open spec fn round_bound(n: nat) -> nat {
    pow3(pow5(n))
}

/// Whether the formula is satisfiable: some truth assignment makes it true.
///
/// The search starts from the queue `[{ formula }]`. It takes the first theory of the queue:
/// when that theory is fully expanded and free of contradictions the formula is satisfiable;
/// otherwise one of its non-literal members is expanded, and the resulting branches go to the
/// back of the queue unless they close or are already queued. Once the queue is empty every
/// branch has closed, and the formula is unsatisfiable.
///
/// Every round lowers `queue_measure` of the queue, which starts at `3^weight(formula)`; the
/// number of rounds is therefore at most `round_bound(size(formula))`.
pub fn is_satisfiable(propositional_formula: &PropositionalFormula) -> (r: bool)
    ensures
        r == propositional_formula@.satisfiable(),
{
    let ghost f = propositional_formula@;
    let mut tableau = Tableau::from_starting_propositional_formula(propositional_formula.clone());
    proof {
        let s = tableau@[0]@;
        assert forall|v: Valuation| #[trigger] satisfies(s, v) == f.eval(v) by {
            assert(s.contains(f));
        }
        if f.satisfiable() {
            let v = choose|v: Valuation| #[trigger] f.eval(v);
            assert(satisfies(s, v));
        }
        if branch_satisfiable(s) {
            let v = choose|v: Valuation| #[trigger] satisfies(s, v);
            assert(f.eval(v));
        }
        lemma_some_branch_pop(tableau@);
        assert(!some_branch_satisfiable(tableau@.drop_first()));
    }
    let ghost mut rounds: nat = 0;
    proof {
        lemma_weight_bound(f);
        lemma_pow3_monotonic(f.weight(), pow5(f.size()));
        assert(tableau@.drop_first() =~= Seq::<Theory>::empty());
        assert(queue_measure(Seq::<Theory>::empty()) == 0);
    }
    while !tableau.is_empty()
        invariant
            f == propositional_formula@,
            rounds + queue_measure(tableau@) <= pow3(f.weight()),
            pow3(f.weight()) <= round_bound(f.size()),
            forall|i: int| 0 <= i < tableau@.len() ==> (#[trigger] tableau@[i]).wf(),
            branches_distinct(tableau@),
            some_branch_satisfiable(tableau@) == f.satisfiable(),
        decreases queue_measure(tableau@),
    {
        let ghost before = tableau@;
        proof {
            rounds = rounds + 1;
        }
        let mut theory = tableau.pop_theory().unwrap();
        proof {
            let rest = tableau@;
            assert forall|i: int, j: int|
                0 <= i < j < rest.len() implies (#[trigger] rest[i])@ != (#[trigger] rest[j])@ by {
                assert(rest[i] == before[i + 1] && rest[j] == before[j + 1]);
            }
            lemma_some_branch_pop(before);
            lemma_pow3_positive(theory.weight());
            assert(theory.wf());
        }
        if theory.is_fully_expanded() && !theory.has_contradictions() {
            proof {
                lemma_open_branch(theory@);
            }
            return true;
        } else {
            match theory.get_non_literal_formula() {
                Some(non_literal) => {
                    let ghost g = non_literal@;
                    proof {
                        lemma_expansion_exists(g);
                        lemma_expansion_decreases(g);
                    }
                    match expand_non_literal_formula(&non_literal) {
                        Some(ExpansionKind::Alpha(alpha_1, Some(alpha_2))) => {
                            let ghost (a, b) = (alpha_1@, alpha_2@);
                            proof {
                                assert forall|v: Valuation| #[trigger] g.eval(v) == (a.eval(v)
                                    && b.eval(v)) by {
                                    lemma_expansion_sound(g, v);
                                }
                                lemma_alpha_branch(theory@, g, a, b);
                            }
                            let mut new_theory = theory.clone();
                            new_theory.swap_formula2(&non_literal, (*alpha_1, *alpha_2));
                            proof {
                                lemma_pow3_grows(new_theory.weight(), theory.weight());
                            }
                            enqueue_branch(&mut tableau, new_theory);
                        },
                        Some(ExpansionKind::Alpha(alpha_1, None)) => {
                            let ghost a = alpha_1@;
                            proof {
                                assert forall|v: Valuation| #[trigger] g.eval(v) == (a.eval(v)
                                    && a.eval(v)) by {
                                    lemma_expansion_sound(g, v);
                                }
                                lemma_alpha_branch(theory@, g, a, a);
                                assert(theory@.remove(g).insert(a).insert(a) =~= theory@.remove(
                                    g,
                                ).insert(a));
                            }
                            let mut new_theory = theory.clone();
                            new_theory.swap_formula(&non_literal, *alpha_1);
                            proof {
                                lemma_pow3_grows(new_theory.weight(), theory.weight());
                            }
                            enqueue_branch(&mut tableau, new_theory);
                        },
                        Some(ExpansionKind::Beta(beta_1, beta_2)) => {
                            let ghost (a, b) = (beta_1@, beta_2@);
                            proof {
                                assert forall|v: Valuation| #[trigger] g.eval(v) == (a.eval(v)
                                    || b.eval(v)) by {
                                    lemma_expansion_sound(g, v);
                                }
                                lemma_beta_branch(theory@, g, a, b);
                            }
                            let mut new_theory_1 = theory.clone();
                            let mut new_theory_2 = theory.clone();
                            new_theory_1.swap_formula(&non_literal, *beta_1);
                            new_theory_2.swap_formula(&non_literal, *beta_2);
                            proof {
                                lemma_pow3_grows(new_theory_1.weight(), theory.weight());
                                lemma_pow3_grows(new_theory_2.weight(), theory.weight());
                            }
                            enqueue_branch(&mut tableau, new_theory_1);
                            enqueue_branch(&mut tableau, new_theory_2);
                        },
                        None => {},
                    }
                },
                None => {
                    proof {
                        lemma_closed_branch(theory@);
                    }
                },
            }
        }
    }
    false
}

/// Whether the formula is valid: every truth assignment makes it true. It is valid exactly
/// when its negation is unsatisfiable.
pub fn is_valid(formula: &PropositionalFormula) -> (r: bool)
    ensures
        r == formula@.valid(),
        r == !neg(formula@).satisfiable(),
{
    let negated_formula = PropositionalFormula::negated(Box::new(formula.clone()));
    proof {
        lemma_validity_by_refutation(formula@);
    }
    !is_satisfiable(&negated_formula)
}

/// A bare variable is satisfiable and not valid.
pub proof fn lemma_variable_satisfiable_not_valid(name: Seq<char>)
    ensures
        Formula::Variable(name).satisfiable(),
        !Formula::Variable(name).valid(),
{
    let t: Valuation = |x: Seq<char>| true;
    let u: Valuation = |x: Seq<char>| false;
    assert(Formula::Variable(name).eval(t));
    assert(!Formula::Variable(name).eval(u));
}

/// For every formula `a`: `(a^(-a))` is unsatisfiable, while `(a|(-a))`, `(a->a)` and
/// `(a<->a)` are valid.
pub proof fn lemma_contradiction_and_tautologies(a: Formula)
    ensures
        !conj(a, neg(a)).satisfiable(),
        !conj(a, neg(a)).valid(),
        Formula::Disjunction(Box::new(a), Box::new(neg(a))).valid(),
        Formula::Disjunction(Box::new(a), Box::new(neg(a))).satisfiable(),
        imp(a, a).valid(),
        Formula::Biimplication(Box::new(a), Box::new(a)).valid(),
{
    reveal_with_fuel(Formula::eval, 3);
    let t: Valuation = |x: Seq<char>| true;
    assert(!conj(a, neg(a)).eval(t));
    assert(Formula::Disjunction(Box::new(a), Box::new(neg(a))).eval(t));
    assert forall|v: Valuation| !#[trigger] conj(a, neg(a)).eval(v) by {}
    assert forall|v: Valuation| #[trigger] Formula::Disjunction(
        Box::new(a),
        Box::new(neg(a)),
    ).eval(v) by {}
    assert forall|v: Valuation| #[trigger] imp(a, a).eval(v) by {}
    assert forall|v: Valuation| #[trigger] Formula::Biimplication(Box::new(a), Box::new(a)).eval(
        v,
    ) by {}
}

/// `(-(-p))` does not close a branch together with `p`, and it expands to `p` alone.
pub proof fn lemma_double_negation(name: Seq<char>)
    ensures
        !has_complementary_literals(
            set![Formula::Variable(name), neg(neg(Formula::Variable(name)))],
        ),
        expansion(neg(neg(Formula::Variable(name)))) == Some(
            Expansion::Alpha(Formula::Variable(name), None),
        ),
{
    let s = set![Formula::Variable(name), neg(neg(Formula::Variable(name)))];
    assert forall|x: Seq<char>|
        !(#[trigger] s.contains(Formula::Variable(x)) && s.contains(
            Formula::Negation(Box::new(Formula::Variable(x))),
        )) by {
        if s.contains(Formula::Negation(Box::new(Formula::Variable(x)))) {
            assert(Formula::Negation(Box::new(Formula::Variable(x))) != Formula::Variable(name));
        }
    }
}

/// A formula is valid exactly when its negation is unsatisfiable.
pub proof fn lemma_validity_by_refutation(f: Formula)
    ensures
        f.valid() == !neg(f).satisfiable(),
{
    if !f.valid() {
        let v = choose|v: Valuation| !#[trigger] f.eval(v);
        assert(neg(f).eval(v));
    }
    if neg(f).satisfiable() {
        let v = choose|v: Valuation| #[trigger] neg(f).eval(v);
        assert(!f.eval(v));
    }
}

} // verus!
