//! Lexer: turns the text of a formula into tokens.

use vstd::prelude::*;
use vstd::string::*;

verus! {

/// A token of a propositional formula.
#[derive(Debug, Clone, PartialEq, Eq, Hash)]
pub enum Token {
    Variable(String),
    LeftParen,
    RightParen,
    Negation,
    And,
    Or,
    Implication,
    Biimplication,
}

/// The model of a token: a variable is given by its name.
pub enum Lexeme {
    Variable(Seq<char>),
    LeftParen,
    RightParen,
    Negation,
    And,
    Or,
    Implication,
    Biimplication,
}

impl View for Token {
    type V = Lexeme;

    open spec fn view(&self) -> Lexeme {
        match self {
            Token::Variable(name) => Lexeme::Variable(name@),
            Token::LeftParen => Lexeme::LeftParen,
            Token::RightParen => Lexeme::RightParen,
            Token::Negation => Lexeme::Negation,
            Token::And => Lexeme::And,
            Token::Or => Lexeme::Or,
            Token::Implication => Lexeme::Implication,
            Token::Biimplication => Lexeme::Biimplication,
        }
    }
}

/// The models of a sequence of tokens.
pub open spec fn lexemes(tokens: Seq<Token>) -> Seq<Lexeme> {
    tokens.map_values(|t: Token| t@)
}

/// Where the lexer failed: the characters from `start` (inclusive) to `end` (exclusive)
/// start no token.
#[derive(Debug, Clone, PartialEq, Eq)]
pub struct LexError {
    pub start: usize,
    pub end: usize,
}

/// Blanks separate tokens and are otherwise skipped.
pub open spec fn is_blank(c: char) -> bool {
    c == ' ' || c == '\t' || c == '\n' || c == '\r'
}

/// A variable name starts with a letter `[a-zA-Z]`...
pub open spec fn is_name_start(c: char) -> bool {
    ('a' <= c && c <= 'z') || ('A' <= c && c <= 'Z')
}

/// ... and goes on with letters, digits and underscores `[a-zA-Z0-9_]`.
pub open spec fn is_name_char(c: char) -> bool {
    is_name_start(c) || ('0' <= c && c <= '9') || c == '_'
}

/// The number of name characters of `s` from position `i` on.
pub open spec fn name_run(s: Seq<char>, i: int) -> nat
    decreases s.len() - i,
{
    if 0 <= i < s.len() && is_name_char(s[i]) {
        1 + name_run(s, i + 1)
    } else {
        0
    }
}

pub open spec fn prepend(t: Lexeme, rest: Option<Seq<Lexeme>>) -> Option<Seq<Lexeme>> {
    match rest {
        Some(r) => Some(seq![t] + r),
        None => None,
    }
}

/// The tokens of `s` from position `i` on; `None` where some character starts no token.
///
/// Tokens are read longest first: `(`, `)`, `-` or `~` (negation), `&` or `^` (and), `|`
/// (or), `->` or `=>` (implication), `<->` or `<=>` (biimplication), and variable names.
pub open spec fn lex_from(s: Seq<char>, i: int) -> Option<Seq<Lexeme>>
    decreases s.len() - i via lex_from_decreases
{
    if i < 0 || i >= s.len() {
        Some(Seq::empty())
    } else {
        let c = s[i];
        let next = if i + 1 < s.len() { s[i + 1] } else { ' ' };
        let third = if i + 2 < s.len() { s[i + 2] } else { ' ' };
        if is_blank(c) {
            lex_from(s, i + 1)
        } else if c == '(' {
            prepend(Lexeme::LeftParen, lex_from(s, i + 1))
        } else if c == ')' {
            prepend(Lexeme::RightParen, lex_from(s, i + 1))
        } else if c == '-' && next == '>' {
            prepend(Lexeme::Implication, lex_from(s, i + 2))
        } else if c == '-' || c == '~' {
            prepend(Lexeme::Negation, lex_from(s, i + 1))
        } else if c == '&' || c == '^' {
            prepend(Lexeme::And, lex_from(s, i + 1))
        } else if c == '|' {
            prepend(Lexeme::Or, lex_from(s, i + 1))
        } else if c == '=' && next == '>' {
            prepend(Lexeme::Implication, lex_from(s, i + 2))
        } else if c == '<' && (next == '-' || next == '=') && third == '>' {
            prepend(Lexeme::Biimplication, lex_from(s, i + 3))
        } else if is_name_start(c) {
            let end = i + 1 + name_run(s, i + 1);
            prepend(Lexeme::Variable(s.subrange(i, end)), lex_from(s, end))
        } else {
            None
        }
    }
}

#[via_fn]
proof fn lex_from_decreases(s: Seq<char>, i: int) {
    if 0 <= i < s.len() {
        lemma_name_run_bound(s, i + 1);
    }
}

/// The tokens of the whole of `s`.
pub open spec fn lex_spec(s: Seq<char>) -> Option<Seq<Lexeme>> {
    lex_from(s, 0)
}

proof fn lemma_name_run_bound(s: Seq<char>, i: int)
    requires
        0 <= i <= s.len(),
    ensures
        i + name_run(s, i) <= s.len(),
        forall|k: int| i <= k < i + name_run(s, i) ==> is_name_char(#[trigger] s[k]),
        i + name_run(s, i) < s.len() ==> !is_name_char(s[i + name_run(s, i)]),
    decreases s.len() - i,
{
    if i < s.len() && is_name_char(s[i]) {
        lemma_name_run_bound(s, i + 1);
    }
}

fn is_blank_char(c: char) -> (r: bool)
    ensures
        r == is_blank(c),
{
    c == ' ' || c == '\t' || c == '\n' || c == '\r'
}

fn is_name_start_char(c: char) -> (r: bool)
    ensures
        r == is_name_start(c),
{
    ('a' <= c && c <= 'z') || ('A' <= c && c <= 'Z')
}

fn is_name_char_exec(c: char) -> (r: bool)
    ensures
        r == is_name_char(c),
{
    is_name_start_char(c) || ('0' <= c && c <= '9') || c == '_'
}

/// Lex the input text into tokens; fails at the first character that starts no token.
pub fn lex(input: &str) -> (r: Result<Vec<Token>, LexError>)
    ensures
        match r {
            Ok(tokens) => lex_spec(input@) == Some(lexemes(tokens@)),
            Err(e) => lex_spec(input@) is None && e.start < e.end <= input@.len(),
        },
{
    let ghost s = input@;
    let n = input.unicode_len();
    let mut tokens: Vec<Token> = Vec::new();
    let mut i: usize = 0;
    while i < n
        invariant
            s == input@,
            n == s.len(),
            i <= n,
            lex_spec(s) == match lex_from(s, i as int) {
                Some(rest) => Some(lexemes(tokens@) + rest),
                None => None,
            },
        decreases n - i,
    {
        let ghost before = tokens@;
        let c = input.get_char(i);
        let next = if n - i > 1 { input.get_char(i + 1) } else { ' ' };
        let third = if n - i > 2 { input.get_char(i + 2) } else { ' ' };
        let mut step: usize = 1;
        if is_blank_char(c) {
        } else if c == '(' {
            tokens.push(Token::LeftParen);
        } else if c == ')' {
            tokens.push(Token::RightParen);
        } else if c == '-' && next == '>' {
            tokens.push(Token::Implication);
            step = 2;
        } else if c == '-' || c == '~' {
            tokens.push(Token::Negation);
        } else if c == '&' || c == '^' {
            tokens.push(Token::And);
        } else if c == '|' {
            tokens.push(Token::Or);
        } else if c == '=' && next == '>' {
            tokens.push(Token::Implication);
            step = 2;
        } else if c == '<' && (next == '-' || next == '=') && third == '>' {
            tokens.push(Token::Biimplication);
            step = 3;
        } else if is_name_start_char(c) {
            let mut j: usize = i + 1;
            proof {
                lemma_name_run_bound(s, i + 1);
            }
            while j < n && is_name_char_exec(input.get_char(j))
                invariant
                    s == input@,
                    n == s.len(),
                    i + 1 <= j <= i + 1 + name_run(s, i + 1 as int),
                    i + 1 + name_run(s, i + 1 as int) <= n,
                    forall|k: int| i + 1 <= k < i + 1 + name_run(s, i + 1 as int) ==> is_name_char(
                        #[trigger] s[k],
                    ),
                    i + 1 + name_run(s, i + 1 as int) < n ==> !is_name_char(
                        s[i + 1 + name_run(s, i + 1 as int)],
                    ),
                decreases n - j,
            {
                j += 1;
            }
            let name = input.substring_char(i, j).to_owned();
            tokens.push(Token::Variable(name));
            step = j - i;
        } else {
            return Err(LexError { start: i, end: i + 1 });
        }
        proof {
            assert(lexemes(tokens@) =~= lexemes(before) + (lexemes(tokens@).subrange(
                before.len() as int,
                tokens@.len() as int,
            )));
        }
        i = i + step;
    }
    proof {
        assert(lex_from(s, i as int) == Some(Seq::<Lexeme>::empty()));
        assert(lexemes(tokens@) + Seq::<Lexeme>::empty() =~= lexemes(tokens@));
    }
    Ok(tokens)
}

} // verus!
