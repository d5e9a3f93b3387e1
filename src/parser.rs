//! Parser for the fully parenthesised grammar of propositional formulas.

use vstd::prelude::*;

use crate::formula::{BinaryOperator, Formula, PropositionalFormula, Variable};
use crate::lexer::{lex, lex_spec, lexemes, Lexeme, Token};

verus! {

/// The model of a binary formula with main connective `op` (`And`, `Or`, `Implication` or
/// `Biimplication`).
pub open spec fn binary_of(op: Lexeme, a: Formula, b: Formula) -> Formula {
    match op {
        Lexeme::And => Formula::Conjunction(Box::new(a), Box::new(b)),
        Lexeme::Or => Formula::Disjunction(Box::new(a), Box::new(b)),
        Lexeme::Implication => Formula::Implication(Box::new(a), Box::new(b)),
        _ => Formula::Biimplication(Box::new(a), Box::new(b)),
    }
}

/// The token of a binary connective.
pub open spec fn lexeme_of(op: BinaryOperator) -> Lexeme {
    match op {
        BinaryOperator::And => Lexeme::And,
        BinaryOperator::Or => Lexeme::Or,
        BinaryOperator::Implication => Lexeme::Implication,
        BinaryOperator::Biimplication => Lexeme::Biimplication,
    }
}

pub open spec fn is_connective(t: Lexeme) -> bool {
    t is And || t is Or || t is Implication || t is Biimplication
}

/// The tokens of `( a op b )`.
pub open spec fn binary_tokens(a: Seq<Lexeme>, op: Lexeme, b: Seq<Lexeme>) -> Seq<Lexeme> {
    seq![Lexeme::LeftParen] + a + seq![op] + b + seq![Lexeme::RightParen]
}

/// The tokens in which a formula is written: every negation and every binary connective is
/// enclosed in its own pair of parentheses.
pub open spec fn tokens_of(f: Formula) -> Seq<Lexeme>
    decreases f,
{
    match f {
        Formula::Variable(name) => seq![Lexeme::Variable(name)],
        Formula::Negation(a) => seq![Lexeme::LeftParen, Lexeme::Negation] + tokens_of(*a) + seq![
            Lexeme::RightParen,
        ],
        Formula::Conjunction(a, b) => binary_tokens(tokens_of(*a), Lexeme::And, tokens_of(*b)),
        Formula::Disjunction(a, b) => binary_tokens(tokens_of(*a), Lexeme::Or, tokens_of(*b)),
        Formula::Implication(a, b) => binary_tokens(
            tokens_of(*a),
            Lexeme::Implication,
            tokens_of(*b),
        ),
        Formula::Biimplication(a, b) => binary_tokens(
            tokens_of(*a),
            Lexeme::Biimplication,
            tokens_of(*b),
        ),
    }
}

/// The text `s` is a written form of the formula `f`: its tokens are those of `f`.
pub open spec fn parses_to(s: Seq<char>, f: Formula) -> bool {
    lex_spec(s) == Some(tokens_of(f))
}

/// The tokens of `f` stand in `ts` from position `pos` on.
pub open spec fn matches_at(ts: Seq<Lexeme>, pos: int, f: Formula) -> bool {
    0 <= pos && pos + tokens_of(f).len() <= ts.len() && ts.subrange(
        pos,
        pos + tokens_of(f).len(),
    ) == tokens_of(f)
}

/// The connective, left and right sub-formulas of a binary formula.
pub open spec fn binary_parts(f: Formula) -> Option<(Lexeme, Formula, Formula)> {
    match f {
        Formula::Conjunction(a, b) => Some((Lexeme::And, *a, *b)),
        Formula::Disjunction(a, b) => Some((Lexeme::Or, *a, *b)),
        Formula::Implication(a, b) => Some((Lexeme::Implication, *a, *b)),
        Formula::Biimplication(a, b) => Some((Lexeme::Biimplication, *a, *b)),
        _ => None,
    }
}

proof fn lemma_first_token(f: Formula)
    ensures
        tokens_of(f).len() >= 1,
        tokens_of(f)[0] is Variable || tokens_of(f)[0] is LeftParen,
        tokens_of(f)[0] is Variable <==> f is Variable,
{
}

/// What the tokens of `g`, found at `pos`, say of `ts`.
proof fn lemma_shape(ts: Seq<Lexeme>, pos: int, g: Formula)
    requires
        matches_at(ts, pos, g),
    ensures
        pos < ts.len(),
        g is Variable <==> ts[pos] is Variable,
        g is Variable ==> ts[pos] == Lexeme::Variable(g->Variable_0),
        !(g is Variable) ==> ts[pos] is LeftParen && pos + 1 < ts.len(),
        g is Negation ==> ts[pos + 1] is Negation && matches_at(ts, pos + 2, *g->Negation_0) && {
            let e = pos + 2 + tokens_of(*g->Negation_0).len();
            e < ts.len() && ts[e] is RightParen && tokens_of(g).len() == e + 1 - pos
        },
        binary_parts(g) matches Some((op, a, b)) ==> {
            let e1 = pos + 1 + tokens_of(a).len();
            let e2 = e1 + 1 + tokens_of(b).len();
            &&& !(ts[pos + 1] is Negation)
            &&& matches_at(ts, pos + 1, a)
            &&& e1 < ts.len() && ts[e1] == op && is_connective(op)
            &&& matches_at(ts, e1 + 1, b)
            &&& e2 < ts.len() && ts[e2] is RightParen
            &&& tokens_of(g).len() == e2 + 1 - pos
            &&& g == binary_of(op, a, b)
        },
{
    let t = tokens_of(g);
    lemma_first_token(g);
    assert(ts[pos] == t[0]);
    match g {
        Formula::Variable(_) => {},
        Formula::Negation(a) => {
            let ta = tokens_of(*a);
            let na = ta.len() as int;
            assert(t[1] == Lexeme::Negation);
            assert(ts[pos + 1] == t[1]);
            assert(ts.subrange(pos + 2, pos + 2 + na) =~= t.subrange(2, 2 + na));
            assert(t.subrange(2, 2 + na) =~= ta);
            assert(ts[pos + 2 + na] == t[2 + na]);
        },
        _ => {
            let (op, a, b) = binary_parts(g).unwrap();
            let ta = tokens_of(a);
            let tb = tokens_of(b);
            let na = ta.len() as int;
            let nb = tb.len() as int;
            assert(t == binary_tokens(ta, op, tb));
            lemma_first_token(a);
            assert(t[1] == ta[0]);
            assert(ts[pos + 1] == t[1]);
            assert(ts.subrange(pos + 1, pos + 1 + na) =~= t.subrange(1, 1 + na));
            assert(t.subrange(1, 1 + na) =~= ta);
            assert(ts[pos + 1 + na] == t[1 + na]);
            let s2 = pos + 2 + na;
            assert(ts.subrange(s2, s2 + nb) =~= t.subrange(2 + na, 2 + na + nb));
            assert(t.subrange(2 + na, 2 + na + nb) =~= tb);
            assert(ts[s2 + nb] == t[2 + na + nb]);
        },
    }
}

/// A written formula reads one way only: two formulas found at the same position are equal.
proof fn lemma_unique_reading(ts: Seq<Lexeme>, pos: int, f: Formula, g: Formula)
    requires
        matches_at(ts, pos, f),
        matches_at(ts, pos, g),
    ensures
        f == g,
    decreases f,
{
    lemma_shape(ts, pos, f);
    lemma_shape(ts, pos, g);
    match f {
        Formula::Variable(_) => {},
        Formula::Negation(a) => {
            if binary_parts(g) is Some {
            } else {
                lemma_unique_reading(ts, pos + 2, *a, *g->Negation_0);
            }
        },
        _ => {
            let (op, a, b) = binary_parts(f).unwrap();
            let (op2, a2, b2) = binary_parts(g).unwrap();
            lemma_unique_reading(ts, pos + 1, a, a2);
            lemma_unique_reading(ts, pos + 2 + tokens_of(a).len(), b, b2);
        },
    }
}

/// A text is the written form of one formula at most.
pub proof fn lemma_single_reading(s: Seq<char>, f: Formula, g: Formula)
    requires
        parses_to(s, f),
        parses_to(s, g),
    ensures
        f == g,
{
    let ts = tokens_of(f);
    assert(ts.subrange(0, ts.len() as int) =~= ts);
    lemma_unique_reading(ts, 0, f, g);
}

/// Read one formula from `tokens`, starting at position `pos`; gives the formula and the
/// position just after it.
pub fn propositional_formula(tokens: &Vec<Token>, pos: usize) -> (r: Option<
    (PropositionalFormula, usize),
>)
    requires
        pos <= tokens@.len(),
    ensures
        match r {
            Some((f, end)) => matches_at(lexemes(tokens@), pos as int, f@) && end == pos
                + tokens_of(f@).len(),
            None => forall|g: Formula| !matches_at(lexemes(tokens@), pos as int, g),
        },
    decreases tokens@.len() - pos, 1nat,
{
    let ghost ts = lexemes(tokens@);
    if pos >= tokens.len() {
        proof {
            assert forall|g: Formula| !matches_at(ts, pos as int, g) by {
                lemma_first_token(g);
            }
        }
        return None;
    }
    let ghost t0 = ts[pos as int];
    match &tokens[pos] {
        Token::Variable(name) => {
            let f = PropositionalFormula::variable(Variable::new(name.as_str()));
            proof {
                assert(ts.subrange(pos as int, pos + 1) =~= tokens_of(f@));
            }
            Some((f, pos + 1))
        },
        Token::LeftParen => {
            if pos + 1 >= tokens.len() {
                proof {
                    assert forall|g: Formula| !matches_at(ts, pos as int, g) by {
                        if matches_at(ts, pos as int, g) {
                            lemma_shape(ts, pos as int, g);
                        }
                    }
                }
                return None;
            }
            if let Token::Negation = &tokens[pos + 1] {
                negated_formula(tokens, pos)            } else {
                parse_binary_formula(tokens, pos)
            }
        },
        _ => {
            proof {
                assert forall|g: Formula| !matches_at(ts, pos as int, g) by {
                    if matches_at(ts, pos as int, g) {
                        lemma_shape(ts, pos as int, g);
                    }
                }
            }
            None
        },
    }
}

/// Read a negated formula `( - <formula> )` from `tokens` at `pos`, where `pos` holds a left
/// parenthesis followed by a negation.
pub fn negated_formula(tokens: &Vec<Token>, pos: usize) -> (r: Option<
    (PropositionalFormula, usize),
>)
    requires
        pos + 1 < tokens@.len(),
        lexemes(tokens@)[pos as int] is LeftParen,
        lexemes(tokens@)[pos + 1] is Negation,
    ensures
        match r {
            Some((f, end)) => matches_at(lexemes(tokens@), pos as int, f@) && end == pos
                + tokens_of(f@).len(),
            None => forall|g: Formula| !matches_at(lexemes(tokens@), pos as int, g),
        },
    decreases tokens@.len() - pos, 0nat,
{
    let ghost ts = lexemes(tokens@);
    let n = tokens.len();
    let inner = propositional_formula(tokens, pos + 2);
    match inner {
        Some((a, end)) => {
            if end < n {
                if let Token::RightParen = &tokens[end] {
                    let f = PropositionalFormula::negated(Box::new(a));
                    proof {
                        assert(ts.subrange(pos as int, end + 1) =~= tokens_of(f@));
                    }
                    return Some((f, end + 1));
                }
            }
            proof {
                assert forall|g: Formula| !matches_at(ts, pos as int, g) by {
                    if matches_at(ts, pos as int, g) {
                        lemma_shape(ts, pos as int, g);
                        lemma_unique_reading(ts, pos + 2, a@, *g->Negation_0);
                    }
                }
            }
            None
        },
        None => {
            proof {
                assert forall|g: Formula| !matches_at(ts, pos as int, g) by {
                    if matches_at(ts, pos as int, g) {
                        lemma_shape(ts, pos as int, g);
                    }
                }
            }
            None
        },
    }
}

/// The binary connective that `token` stands for, if any.
fn binary_operator(token: &Token) -> (r: Option<BinaryOperator>)
    ensures
        r is Some <==> is_connective(token@),
        r matches Some(op) ==> token@ == lexeme_of(op),
{
    match token {
        Token::And => Some(BinaryOperator::And),
        Token::Or => Some(BinaryOperator::Or),
        Token::Implication => Some(BinaryOperator::Implication),
        Token::Biimplication => Some(BinaryOperator::Biimplication),
        _ => None,
    }
}

/// Read a binary formula `( <formula> <connective> <formula> )` from `tokens` at `pos`,
/// where `pos` holds a left parenthesis not followed by a negation.
pub fn parse_binary_formula(tokens: &Vec<Token>, pos: usize) -> (r: Option<
    (PropositionalFormula, usize),
>)
    requires
        pos + 1 < tokens@.len(),
        lexemes(tokens@)[pos as int] is LeftParen,
        !(lexemes(tokens@)[pos + 1] is Negation),
    ensures
        match r {
            Some((f, end)) => matches_at(lexemes(tokens@), pos as int, f@) && end == pos
                + tokens_of(f@).len(),
            None => forall|g: Formula| !matches_at(lexemes(tokens@), pos as int, g),
        },
    decreases tokens@.len() - pos, 0nat,
{
    let ghost ts = lexemes(tokens@);
    let n = tokens.len();
    let left = propositional_formula(tokens, pos + 1);
    let (a, e1) = match left {
        Some(x) => x,
        None => {
            proof {
                assert forall|g: Formula| !matches_at(ts, pos as int, g) by {
                    if matches_at(ts, pos as int, g) {
                        lemma_shape(ts, pos as int, g);
                    }
                }
            }
            return None;
        },
    };
    // The connective, then the right sub-formula, then the closing parenthesis.
    if e1 < n && n - e1 > 1 {
        if let Some(op) = binary_operator(&tokens[e1]) {
            let right = propositional_formula(tokens, e1 + 1);
            match right {
                Some((b, e2)) => {
                    if e2 < tokens.len() {
                        if let Token::RightParen = &tokens[e2] {
                            let la = Box::new(a);
                            let rb = Box::new(b);
                            let f = match op {
                                BinaryOperator::And => PropositionalFormula::conjunction(la, rb),
                                BinaryOperator::Or => PropositionalFormula::disjunction(la, rb),
                                BinaryOperator::Implication => PropositionalFormula::implication(
                                    la,
                                    rb,
                                ),
                                BinaryOperator::Biimplication => PropositionalFormula::biimplication(
                                    la,
                                    rb,
                                ),
                            };
                            proof {
                                assert(f@ == binary_of(ts[e1 as int], la@, rb@));
                                assert(ts.subrange(pos as int, e2 + 1) =~= binary_tokens(
                                    tokens_of(la@),
                                    ts[e1 as int],
                                    tokens_of(rb@),
                                ));
                            }
                            return Some((f, e2 + 1));
                        }
                    }
                    proof {
                        assert forall|g: Formula| !matches_at(ts, pos as int, g) by {
                            if matches_at(ts, pos as int, g) {
                                lemma_shape(ts, pos as int, g);
                                let (op, ga, gb) = binary_parts(g).unwrap();
                                lemma_unique_reading(ts, pos + 1, a@, ga);
                                lemma_unique_reading(ts, e1 + 1, b@, gb);
                            }
                        }
                    }
                    return None;
                },
                None => {
                    proof {
                        assert forall|g: Formula| !matches_at(ts, pos as int, g) by {
                            if matches_at(ts, pos as int, g) {
                                lemma_shape(ts, pos as int, g);
                                let (op, ga, gb) = binary_parts(g).unwrap();
                                lemma_unique_reading(ts, pos + 1, a@, ga);
                            }
                        }
                    }
                    return None;
                },
            }
        }
    }
    proof {
        assert forall|g: Formula| !matches_at(ts, pos as int, g) by {
            if matches_at(ts, pos as int, g) {
                lemma_shape(ts, pos as int, g);
                let (op, ga, gb) = binary_parts(g).unwrap();
                lemma_unique_reading(ts, pos + 1, a@, ga);
                lemma_first_token(gb);
            }
        }
    }
    None
}

/// Parse the text of one formula. Fails when the text is not the written form of a formula.
pub fn parse(input: &str) -> (r: Result<PropositionalFormula, String>)
    ensures
        match r {
            Ok(f) => parses_to(input@, f@),
            Err(_) => forall|g: Formula| !parses_to(input@, g),
        },
{
    let tokens = match lex(input) {
        Ok(tokens) => tokens,
        Err(_) => {
            return Err("failed to lex input".to_owned());
        },
    };
    let ghost ts = lexemes(tokens@);
    match propositional_formula(&tokens, 0) {
        Some((f, end)) => {
            if end == tokens.len() {
                proof {
                    assert(ts.subrange(0, ts.len() as int) =~= ts);
                }
                Ok(f)
            } else {
                proof {
                    assert forall|g: Formula| !parses_to(input@, g) by {
                        if parses_to(input@, g) {
                            assert(ts == tokens_of(g));
                            assert(ts.subrange(0, ts.len() as int) =~= ts);
                            assert(matches_at(ts, 0, g));
                            lemma_unique_reading(ts, 0, f@, g);
                            assert(ts.len() == tokens@.len());
                        }
                    }
                }
                Err("still input remaining".to_owned())
            }
        },
        None => {
            proof {
                assert forall|g: Formula| !parses_to(input@, g) by {
                    if parses_to(input@, g) {
                        assert(ts == tokens_of(g));
                        assert(ts.subrange(0, ts.len() as int) =~= ts);
                        assert(matches_at(ts, 0, g));
                    }
                }
            }
            Err("failed to parse input".to_owned())
        },
    }
}

} // verus!
