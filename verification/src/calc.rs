//! The grammar of the inline Calc: arithmetic with `+ - * / %`,
//! parentheses, unary `+`/`-`, and decimals.
//!
//! Recursive descent with the usual precedence (`* / %` bind tighter than
//! `+ -`, all left-associative). This module turns the input into an
//! [`Expr`] tree whose numbers are spans of the input; the front-end
//! evaluates the tree over `f64`. Where the input is malformed, the tree
//! holds the failure at the point where reading stopped, so that evaluating
//! it left to right reports the same first problem (a division by zero
//! before it, or the syntax error) that evaluating while reading would.

use vstd::prelude::*;

use crate::text::{char_is_whitespace, is_whitespace};

verus! {

/// Why an expression cannot be evaluated.
#[derive(Clone, Copy, PartialEq, Eq, Debug, Structural)]
pub enum CalcError {
    /// A char that is not part of the grammar.
    UnexpectedChar(char),
    /// A run of digits and points that is not a number, e.g. `1.2.3`: its
    /// char span in the input.
    BadNumber { start: usize, end: usize },
    /// The input ended where a number was expected.
    UnexpectedEnd,
    /// An operator or `)` stood where a number was expected.
    ExpectedNumber,
    /// A `(` was not closed.
    ExpectedParen,
    /// A complete expression was followed by more input.
    TrailingInput,
    /// A division or remainder by zero.
    DivideByZero,
}

/// A token of the expression grammar.
#[derive(Clone, Copy, PartialEq, Eq, Debug, Structural)]
pub enum Tok {
    /// A decimal number: the char span of its digits in the input.
    Num { start: usize, end: usize },
    Plus,
    Minus,
    Star,
    Slash,
    Percent,
    LParen,
    RParen,
}

/// A binary operator.
#[derive(Clone, Copy, PartialEq, Eq, Debug, Structural)]
pub enum BinOp {
    Add,
    Sub,
    Mul,
    Div,
    Rem,
}

/// A parsed expression. Evaluated left to right, it yields the value the
/// input denotes or the first error met.
#[derive(PartialEq, Eq, Debug)]
pub enum Expr {
    /// A decimal number: the char span of its digits in the input.
    Num { start: usize, end: usize },
    /// Unary minus.
    Neg(Box<Expr>),
    /// `left op right`; `/` and `%` fail on a zero right operand.
    Bin(BinOp, Box<Expr>, Box<Expr>),
    /// `(` and an expression with no `)` after it: evaluating it fails with
    /// [`CalcError::ExpectedParen`] once the inner expression is evaluated.
    Unclosed(Box<Expr>),
    /// A complete expression followed by more input: evaluating it fails
    /// with [`CalcError::TrailingInput`] once the expression is evaluated.
    Trailing(Box<Expr>),
    /// Reading stopped here with this error.
    Fail(CalcError),
}

/// A decimal digit.
pub open spec fn is_digit(c: char) -> bool {
    '0' <= c && c <= '9'
}

/// A char that continues a number: a digit or a point.
pub open spec fn is_num_char(c: char) -> bool {
    is_digit(c) || c == '.'
}

/// The end of the run of number chars starting at `i`.
pub open spec fn num_end(s: Seq<char>, i: int) -> int
    decreases s.len() - i,
{
    if 0 <= i < s.len() && is_num_char(s[i]) {
        num_end(s, i + 1)
    } else {
        i
    }
}

/// A run of number chars ends between its start and the end of the input.
pub proof fn lemma_num_end_bounds(s: Seq<char>, i: int)
    requires
        0 <= i <= s.len(),
    ensures
        i <= num_end(s, i) <= s.len(),
    decreases s.len() - i,
{
    if i < s.len() && is_num_char(s[i]) {
        lemma_num_end_bounds(s, i + 1);
    }
}

/// Whether a run of digits and points is a number, as `f64::from_str`
/// reads one: at least one digit and at most one point.
pub open spec fn valid_number(s: Seq<char>) -> bool {
    &&& exists|i: int| 0 <= i < s.len() && is_digit(#[trigger] s[i])
    &&& forall|i: int, j: int| 0 <= i < j < s.len() && s[i] == '.' ==> s[j] != '.'
}

/// The token a single char stands for, if it is an operator or a bracket.
pub open spec fn symbol(c: char) -> Option<Tok> {
    if c == '+' {
        Some(Tok::Plus)
    } else if c == '-' {
        Some(Tok::Minus)
    } else if c == '*' || c == '×' {
        Some(Tok::Star)
    } else if c == '/' || c == '÷' {
        Some(Tok::Slash)
    } else if c == '%' {
        Some(Tok::Percent)
    } else if c == '(' {
        Some(Tok::LParen)
    } else if c == ')' {
        Some(Tok::RParen)
    } else {
        None
    }
}

/// The tokens of `s` from index `i` on, or the first error met reading
/// them: white space is skipped, an operator or bracket is one token,
/// a run of digits and points is one number.
pub open spec fn lex(s: Seq<char>, i: int) -> Result<Seq<Tok>, CalcError>
    decreases s.len() - i,
{
    if i < 0 || i >= s.len() {
        Ok(Seq::empty())
    } else {
        let c = s[i];
        if char_is_whitespace(c) {
            lex(s, i + 1)
        } else if symbol(c) is Some {
            match lex(s, i + 1) {
                Ok(rest) => Ok(seq![symbol(c)->0] + rest),
                Err(e) => Err(e),
            }
        } else if is_num_char(c) {
            proof {
                lemma_num_end_bounds(s, i);
            }
            let e = num_end(s, i);
            if e <= i {
                Err(CalcError::UnexpectedChar(c))
            } else if !valid_number(s.subrange(i, e)) {
                Err(CalcError::BadNumber { start: i as usize, end: e as usize })
            } else {
                match lex(s, e) {
                    Ok(rest) => Ok(seq![Tok::Num { start: i as usize, end: e as usize }] + rest),
                    Err(err) => Err(err),
                }
            }
        } else {
            Err(CalcError::UnexpectedChar(c))
        }
    }
}

} // verus!

verus! {

/// `pre` in front of the tokens of `r` (an error stays as it is).
pub open spec fn prepended(pre: Seq<Tok>, r: Result<Seq<Tok>, CalcError>) -> Result<Seq<Tok>, CalcError> {
    match r {
        Ok(t) => Ok(pre + t),
        Err(e) => Err(e),
    }
}

/// The token a single char stands for, if it is an operator or a bracket.
fn symbol_of(c: char) -> (t: Option<Tok>)
    ensures
        t == symbol(c),
{
    if c == '+' {
        Some(Tok::Plus)
    } else if c == '-' {
        Some(Tok::Minus)
    } else if c == '*' || c == '×' {
        Some(Tok::Star)
    } else if c == '/' || c == '÷' {
        Some(Tok::Slash)
    } else if c == '%' {
        Some(Tok::Percent)
    } else if c == '(' {
        Some(Tok::LParen)
    } else if c == ')' {
        Some(Tok::RParen)
    } else {
        None
    }
}

/// Whether `s[a..b]` is a number: at least one digit and at most one point.
fn number_ok(s: &Vec<char>, a: usize, b: usize) -> (ok: bool)
    requires
        a <= b <= s@.len(),
    ensures
        ok == valid_number(s@.subrange(a as int, b as int)),
{
    let ghost sub = s@.subrange(a as int, b as int);
    let mut digit = false;
    let mut dot = false;
    let mut k = a;
    while k < b
        invariant
            a <= k <= b <= s@.len(),
            sub == s@.subrange(a as int, b as int),
            digit == exists|m: int| a <= m < k && is_digit(#[trigger] s@[m]),
            dot == exists|m: int| a <= m < k && #[trigger] s@[m] == '.',
            forall|m: int, n: int| a <= m < n < k && s@[m] == '.' ==> s@[n] != '.',
        decreases b - k,
    {
        let c = s[k];
        if c == '.' {
            if dot {
                proof {
                    let m = choose|m: int| a <= m < k && #[trigger] s@[m] == '.';
                    assert(sub[m - a] == '.' && sub[k - a] == '.');
                }
                return false;
            }
            dot = true;
        } else if '0' <= c && c <= '9' {
            digit = true;
        }
        k += 1;
    }
    proof {
        if digit {
            let m = choose|m: int| a <= m < b && is_digit(#[trigger] s@[m]);
            assert(sub[m - a] == s@[m]);
        } else {
            assert forall|i: int| 0 <= i < sub.len() implies !is_digit(#[trigger] sub[i]) by {
                assert(sub[i] == s@[a + i]);
            }
        }
        assert forall|i: int, j: int| 0 <= i < j < sub.len() && sub[i] == '.' implies sub[j] != '.' by {
            assert(sub[i] == s@[a + i] && sub[j] == s@[a + j]);
        }
    }
    digit
}

/// Read `s` into tokens: white space is skipped, each operator or
/// bracket is a token, each run of digits and points a number. Fails at the
/// first char outside the grammar or the first run that is not a number.
pub fn tokenize(s: &Vec<char>) -> (r: Result<Vec<Tok>, CalcError>)
    ensures
        match lex(s@, 0) {
            Ok(t) => r matches Ok(v) && v@ == t,
            Err(e) => r == Err::<Vec<Tok>, CalcError>(e),
        },
{
    let mut out: Vec<Tok> = Vec::new();
    let mut i: usize = 0;
    while i < s.len()
        invariant
            i <= s@.len(),
            lex(s@, 0) == prepended(out@, lex(s@, i as int)),
        decreases s.len() - i,
    {
        let c = s[i];
        if is_whitespace(c) {
            i += 1;
        } else {
            match symbol_of(c) {
                Some(t) => {
                    let ghost before = out@;
                    out.push(t);
                    proof {
                        match lex(s@, i + 1) {
                            Ok(rest) => {
                                assert(before + (seq![t] + rest) == out@ + rest);
                            },
                            Err(_) => {},
                        }
                    }
                    i += 1;
                },
                None => {
                    if c == '.' || ('0' <= c && c <= '9') {
                        let start = i;
                        let mut j = i;
                        while j < s.len() && (s[j] == '.' || ('0' <= s[j] && s[j] <= '9'))
                            invariant
                                start <= j <= s@.len(),
                                start < s@.len(),
                                is_num_char(s@[start as int]),
                                num_end(s@, start as int) == num_end(s@, j as int),
                            decreases s.len() - j,
                        {
                            j += 1;
                        }
                        proof {
                            lemma_num_end_bounds(s@, start as int + 1);
                        }
                        if !number_ok(s, start, j) {
                            return Err(CalcError::BadNumber { start, end: j });
                        }
                        let ghost before = out@;
                        let t = Tok::Num { start, end: j };
                        out.push(t);
                        proof {
                            match lex(s@, j as int) {
                                Ok(rest) => {
                                    assert(before + (seq![t] + rest) == out@ + rest);
                                },
                                Err(_) => {},
                            }
                        }
                        i = j;
                    } else {
                        return Err(CalcError::UnexpectedChar(c));
                    }
                },
            }
        }
    }
    assert(out@ + Seq::<Tok>::empty() == out@);
    Ok(out)
}

} // verus!

verus! {

/// The operator a token stands for between terms (`+ -`).
pub open spec fn additive(t: Tok) -> Option<BinOp> {
    match t {
        Tok::Plus => Some(BinOp::Add),
        Tok::Minus => Some(BinOp::Sub),
        _ => None,
    }
}

/// The operator a token stands for between factors (`* / %`).
pub open spec fn multiplicative(t: Tok) -> Option<BinOp> {
    match t {
        Tok::Star => Some(BinOp::Mul),
        Tok::Slash => Some(BinOp::Div),
        Tok::Percent => Some(BinOp::Rem),
        _ => None,
    }
}

/// `factor := number | '(' expr ')' | ('+' | '-') factor`, read from token
/// `p`: the tree, the token after it, and whether reading failed.
pub open spec fn factor_at(t: Seq<Tok>, p: int) -> (Expr, int, bool)
    decreases t.len() - p, 0int,
{
    if p < 0 || p >= t.len() {
        (Expr::Fail(CalcError::UnexpectedEnd), p, true)
    } else {
        match t[p] {
            Tok::Num { start, end } => (Expr::Num { start, end }, p + 1, false),
            Tok::Minus => {
                let r = factor_at(t, p + 1);
                (Expr::Neg(Box::new(r.0)), r.1, r.2)
            },
            Tok::Plus => factor_at(t, p + 1),
            Tok::LParen => {
                let r = expr_at(t, p + 1);
                if r.2 {
                    r
                } else if r.1 < t.len() && t[r.1] == Tok::RParen {
                    (r.0, r.1 + 1, false)
                } else {
                    (Expr::Unclosed(Box::new(r.0)), r.1, true)
                }
            },
            _ => (Expr::Fail(CalcError::ExpectedNumber), p + 1, true),
        }
    }
}

/// `(('*' | '/' | '%') factor)*` after the operand `acc`, read from token `p`.
pub open spec fn term_rest(t: Seq<Tok>, p: int, acc: Expr) -> (Expr, int, bool)
    decreases t.len() - p, 1int,
{
    if 0 <= p < t.len() && multiplicative(t[p]) is Some {
        let r = factor_at(t, p + 1);
        let e = Expr::Bin(multiplicative(t[p])->0, Box::new(acc), Box::new(r.0));
        if r.2 || r.1 <= p || r.1 > t.len() {
            (e, r.1, r.2)
        } else {
            term_rest(t, r.1, e)
        }
    } else {
        (acc, p, false)
    }
}

/// `term := factor (('*' | '/' | '%') factor)*`, read from token `p`.
pub open spec fn term_at(t: Seq<Tok>, p: int) -> (Expr, int, bool)
    decreases t.len() - p, 2int,
{
    let f = factor_at(t, p);
    if f.2 || f.1 <= p || f.1 > t.len() {
        f
    } else {
        term_rest(t, f.1, f.0)
    }
}

/// `(('+' | '-') term)*` after the operand `acc`, read from token `p`.
pub open spec fn expr_rest(t: Seq<Tok>, p: int, acc: Expr) -> (Expr, int, bool)
    decreases t.len() - p, 3int,
{
    if 0 <= p < t.len() && additive(t[p]) is Some {
        let r = term_at(t, p + 1);
        let e = Expr::Bin(additive(t[p])->0, Box::new(acc), Box::new(r.0));
        if r.2 || r.1 <= p || r.1 > t.len() {
            (e, r.1, r.2)
        } else {
            expr_rest(t, r.1, e)
        }
    } else {
        (acc, p, false)
    }
}

/// `expr := term (('+' | '-') term)*`, read from token `p`.
pub open spec fn expr_at(t: Seq<Tok>, p: int) -> (Expr, int, bool)
    decreases t.len() - p, 4int,
{
    let r = term_at(t, p);
    if r.2 || r.1 <= p || r.1 > t.len() {
        r
    } else {
        expr_rest(t, r.1, r.0)
    }
}

/// The tree of a whole token sequence: an expression that must use every
/// token.
pub open spec fn parsed(t: Seq<Tok>) -> Expr {
    let r = expr_at(t, 0);
    if !r.2 && r.1 != t.len() {
        Expr::Trailing(Box::new(r.0))
    } else {
        r.0
    }
}

} // verus!

verus! {

/// A factor read successfully from `p` uses at least one token.
pub proof fn lemma_factor_advances(t: Seq<Tok>, p: int)
    requires
        0 <= p <= t.len(),
    ensures
        !factor_at(t, p).2 ==> p < factor_at(t, p).1 <= t.len(),
    decreases t.len() - p, 0int,
{
    if p < t.len() {
        match t[p] {
            Tok::Minus => lemma_factor_advances(t, p + 1),
            Tok::Plus => lemma_factor_advances(t, p + 1),
            Tok::LParen => lemma_expr_advances(t, p + 1),
            _ => {},
        }
    }
}

/// The operators-and-factors tail read from `p` ends between `p` and the
/// end.
pub proof fn lemma_term_rest_advances(t: Seq<Tok>, p: int, acc: Expr)
    requires
        0 <= p <= t.len(),
    ensures
        !term_rest(t, p, acc).2 ==> p <= term_rest(t, p, acc).1 <= t.len(),
    decreases t.len() - p, 1int,
{
    if 0 <= p < t.len() && multiplicative(t[p]) is Some {
        lemma_factor_advances(t, p + 1);
        let r = factor_at(t, p + 1);
        let e = Expr::Bin(multiplicative(t[p])->0, Box::new(acc), Box::new(r.0));
        if !(r.2 || r.1 <= p || r.1 > t.len()) {
            lemma_term_rest_advances(t, r.1, e);
        }
    }
}

/// A term read successfully from `p` uses at least one token.
pub proof fn lemma_term_advances(t: Seq<Tok>, p: int)
    requires
        0 <= p <= t.len(),
    ensures
        !term_at(t, p).2 ==> p < term_at(t, p).1 <= t.len(),
    decreases t.len() - p, 2int,
{
    lemma_factor_advances(t, p);
    let f = factor_at(t, p);
    if !(f.2 || f.1 <= p || f.1 > t.len()) {
        lemma_term_rest_advances(t, f.1, f.0);
    }
}

/// The operators-and-terms tail read from `p` ends between `p` and the end.
pub proof fn lemma_expr_rest_advances(t: Seq<Tok>, p: int, acc: Expr)
    requires
        0 <= p <= t.len(),
    ensures
        !expr_rest(t, p, acc).2 ==> p <= expr_rest(t, p, acc).1 <= t.len(),
    decreases t.len() - p, 3int,
{
    if 0 <= p < t.len() && additive(t[p]) is Some {
        lemma_term_advances(t, p + 1);
        let r = term_at(t, p + 1);
        let e = Expr::Bin(additive(t[p])->0, Box::new(acc), Box::new(r.0));
        if !(r.2 || r.1 <= p || r.1 > t.len()) {
            lemma_expr_rest_advances(t, r.1, e);
        }
    }
}

/// An expression read successfully from `p` uses at least one token.
pub proof fn lemma_expr_advances(t: Seq<Tok>, p: int)
    requires
        0 <= p <= t.len(),
    ensures
        !expr_at(t, p).2 ==> p < expr_at(t, p).1 <= t.len(),
    decreases t.len() - p, 4int,
{
    lemma_term_advances(t, p);
    let r = term_at(t, p);
    if !(r.2 || r.1 <= p || r.1 > t.len()) {
        lemma_expr_rest_advances(t, r.1, r.0);
    }
}

} // verus!

verus! {

/// The operator of a `+`/`-` token.
fn additive_of(t: Tok) -> (op: Option<BinOp>)
    ensures
        op == additive(t),
{
    match t {
        Tok::Plus => Some(BinOp::Add),
        Tok::Minus => Some(BinOp::Sub),
        _ => None,
    }
}

/// The operator of a `*`/`/`/`%` token.
fn multiplicative_of(t: Tok) -> (op: Option<BinOp>)
    ensures
        op == multiplicative(t),
{
    match t {
        Tok::Star => Some(BinOp::Mul),
        Tok::Slash => Some(BinOp::Div),
        Tok::Percent => Some(BinOp::Rem),
        _ => None,
    }
}

/// `number | '(' expr ')' | ('+' | '-') factor`
fn factor(t: &Vec<Tok>, p: usize) -> (r: (Expr, usize, bool))
    requires
        p <= t@.len(),
    ensures
        r.0 == factor_at(t@, p as int).0,
        r.1 == factor_at(t@, p as int).1,
        r.2 == factor_at(t@, p as int).2,
    decreases t@.len() - p, 0int,
{
    if p >= t.len() {
        return (Expr::Fail(CalcError::UnexpectedEnd), p, true);
    }
    match t[p] {
        Tok::Num { start, end } => (Expr::Num { start, end }, p + 1, false),
        Tok::Minus => {
            let r = factor(t, p + 1);
            (Expr::Neg(Box::new(r.0)), r.1, r.2)
        },
        Tok::Plus => factor(t, p + 1),
        Tok::LParen => {
            let r = expr(t, p + 1);
            if r.2 {
                r
            } else {
                proof {
                    lemma_expr_advances(t@, p + 1);
                }
                if r.1 < t.len() && t[r.1] == Tok::RParen {
                    (r.0, r.1 + 1, false)
                } else {
                    (Expr::Unclosed(Box::new(r.0)), r.1, true)
                }
            }
        },
        _ => (Expr::Fail(CalcError::ExpectedNumber), p + 1, true),
    }
}

/// `(('*' | '/' | '%') factor)*` after the operand `acc`.
fn term_tail(t: &Vec<Tok>, p: usize, acc: Expr) -> (r: (Expr, usize, bool))
    requires
        p <= t@.len(),
    ensures
        r.0 == term_rest(t@, p as int, acc).0,
        r.1 == term_rest(t@, p as int, acc).1,
        r.2 == term_rest(t@, p as int, acc).2,
    decreases t@.len() - p, 1int,
{
    if p >= t.len() {
        return (acc, p, false);
    }
    match multiplicative_of(t[p]) {
        Some(op) => {
            let r = factor(t, p + 1);
            proof {
                lemma_factor_advances(t@, p + 1);
            }
            let e = Expr::Bin(op, Box::new(acc), Box::new(r.0));
            if r.2 {
                (e, r.1, true)
            } else {
                term_tail(t, r.1, e)
            }
        },
        None => (acc, p, false),
    }
}

/// `factor (('*' | '/' | '%') factor)*`
fn term(t: &Vec<Tok>, p: usize) -> (r: (Expr, usize, bool))
    requires
        p <= t@.len(),
    ensures
        r.0 == term_at(t@, p as int).0,
        r.1 == term_at(t@, p as int).1,
        r.2 == term_at(t@, p as int).2,
    decreases t@.len() - p, 2int,
{
    let f = factor(t, p);
    if f.2 {
        return f;
    }
    proof {
        lemma_factor_advances(t@, p as int);
    }
    term_tail(t, f.1, f.0)
}

/// `(('+' | '-') term)*` after the operand `acc`.
fn expr_tail(t: &Vec<Tok>, p: usize, acc: Expr) -> (r: (Expr, usize, bool))
    requires
        p <= t@.len(),
    ensures
        r.0 == expr_rest(t@, p as int, acc).0,
        r.1 == expr_rest(t@, p as int, acc).1,
        r.2 == expr_rest(t@, p as int, acc).2,
    decreases t@.len() - p, 3int,
{
    if p >= t.len() {
        return (acc, p, false);
    }
    match additive_of(t[p]) {
        Some(op) => {
            let r = term(t, p + 1);
            proof {
                lemma_term_advances(t@, p + 1);
            }
            let e = Expr::Bin(op, Box::new(acc), Box::new(r.0));
            if r.2 {
                (e, r.1, true)
            } else {
                expr_tail(t, r.1, e)
            }
        },
        None => (acc, p, false),
    }
}

/// `term (('+' | '-') term)*`
fn expr(t: &Vec<Tok>, p: usize) -> (r: (Expr, usize, bool))
    requires
        p <= t@.len(),
    ensures
        r.0 == expr_at(t@, p as int).0,
        r.1 == expr_at(t@, p as int).1,
        r.2 == expr_at(t@, p as int).2,
    decreases t@.len() - p, 4int,
{
    let r = term(t, p);
    if r.2 {
        return r;
    }
    proof {
        lemma_term_advances(t@, p as int);
    }
    expr_tail(t, r.1, r.0)
}

/// The tree of a whole token sequence.
pub fn parse(t: &Vec<Tok>) -> (e: Expr)
    ensures
        e == parsed(t@),
{
    let r = expr(t, 0);
    if !r.2 && r.1 != t.len() {
        Expr::Trailing(Box::new(r.0))
    } else {
        r.0
    }
}

/// The tree of an expression, or the first char that cannot be read.
pub fn compile(input: &str) -> (r: Result<Expr, CalcError>)
    ensures
        match lex(input@, 0) {
            Ok(t) => r == Ok::<Expr, CalcError>(parsed(t)),
            Err(e) => r == Err::<Expr, CalcError>(e),
        },
{
    let chars = crate::text::chars_of(input);
    match tokenize(&chars) {
        Ok(t) => Ok(parse(&t)),
        Err(e) => Err(e),
    }
}

} // verus!

verus! {

/// Every number of `e` is a span of `s` that reads as a number.
pub open spec fn numbers_valid(e: Expr, s: Seq<char>) -> bool
    decreases e,
{
    match e {
        Expr::Num { start, end } => start < end <= s.len() && valid_number(s.subrange(start as int, end as int)),
        Expr::Neg(x) => numbers_valid(*x, s),
        Expr::Bin(_, a, b) => numbers_valid(*a, s) && numbers_valid(*b, s),
        Expr::Unclosed(x) => numbers_valid(*x, s),
        Expr::Trailing(x) => numbers_valid(*x, s),
        Expr::Fail(_) => true,
    }
}

/// Every number token of `t` is a span of `s` that reads as a number.
pub open spec fn tokens_valid(t: Seq<Tok>, s: Seq<char>) -> bool {
    forall|k: int| 0 <= k < t.len() ==> (#[trigger] t[k] matches Tok::Num { start, end } ==> start < end <= s.len()
        && valid_number(s.subrange(start as int, end as int)))
}

proof fn lemma_lex_tokens_valid(s: Seq<char>, i: int)
    requires
        0 <= i,
        s.len() <= usize::MAX,
    ensures
        lex(s, i) matches Ok(t) ==> tokens_valid(t, s),
    decreases s.len() - i,
{
    if i < s.len() {
        let c = s[i];
        if char_is_whitespace(c) {
            lemma_lex_tokens_valid(s, i + 1);
        } else if symbol(c) is Some {
            lemma_lex_tokens_valid(s, i + 1);
            if let Ok(rest) = lex(s, i + 1) {
                let t = seq![symbol(c)->0] + rest;
                assert forall|k: int| 0 <= k < t.len() implies (#[trigger] t[k] matches Tok::Num { start, end } ==> start
                    < end <= s.len() && valid_number(s.subrange(start as int, end as int))) by {
                    if k > 0 {
                        assert(t[k] == rest[k - 1]);
                    }
                }
            }
        } else if is_num_char(c) {
            lemma_num_end_bounds(s, i);
            let e = num_end(s, i);
            if e > i && valid_number(s.subrange(i, e)) {
                lemma_lex_tokens_valid(s, e);
                if let Ok(rest) = lex(s, e) {
                    let t = seq![Tok::Num { start: i as usize, end: e as usize }] + rest;
                    assert forall|k: int| 0 <= k < t.len() implies (#[trigger] t[k] matches Tok::Num { start, end }
                        ==> start < end <= s.len() && valid_number(s.subrange(start as int, end as int))) by {
                        if k > 0 {
                            assert(t[k] == rest[k - 1]);
                        }
                    }
                }
            }
        }
    }
}

proof fn lemma_factor_valid(t: Seq<Tok>, p: int, s: Seq<char>)
    requires
        0 <= p <= t.len(),
        tokens_valid(t, s),
    ensures
        numbers_valid(factor_at(t, p).0, s),
    decreases t.len() - p, 0int,
{
    if p < t.len() {
        match t[p] {
            Tok::Minus => lemma_factor_valid(t, p + 1, s),
            Tok::Plus => lemma_factor_valid(t, p + 1, s),
            Tok::LParen => lemma_expr_valid(t, p + 1, s),
            _ => {},
        }
    }
}

proof fn lemma_term_rest_valid(t: Seq<Tok>, p: int, acc: Expr, s: Seq<char>)
    requires
        0 <= p <= t.len(),
        tokens_valid(t, s),
        numbers_valid(acc, s),
    ensures
        numbers_valid(term_rest(t, p, acc).0, s),
    decreases t.len() - p, 1int,
{
    if 0 <= p < t.len() && multiplicative(t[p]) is Some {
        lemma_factor_valid(t, p + 1, s);
        let r = factor_at(t, p + 1);
        let e = Expr::Bin(multiplicative(t[p])->0, Box::new(acc), Box::new(r.0));
        if !(r.2 || r.1 <= p || r.1 > t.len()) {
            lemma_term_rest_valid(t, r.1, e, s);
        }
    }
}

proof fn lemma_term_valid(t: Seq<Tok>, p: int, s: Seq<char>)
    requires
        0 <= p <= t.len(),
        tokens_valid(t, s),
    ensures
        numbers_valid(term_at(t, p).0, s),
    decreases t.len() - p, 2int,
{
    lemma_factor_valid(t, p, s);
    let f = factor_at(t, p);
    if !(f.2 || f.1 <= p || f.1 > t.len()) {
        lemma_term_rest_valid(t, f.1, f.0, s);
    }
}

proof fn lemma_expr_rest_valid(t: Seq<Tok>, p: int, acc: Expr, s: Seq<char>)
    requires
        0 <= p <= t.len(),
        tokens_valid(t, s),
        numbers_valid(acc, s),
    ensures
        numbers_valid(expr_rest(t, p, acc).0, s),
    decreases t.len() - p, 3int,
{
    if 0 <= p < t.len() && additive(t[p]) is Some {
        lemma_term_valid(t, p + 1, s);
        let r = term_at(t, p + 1);
        let e = Expr::Bin(additive(t[p])->0, Box::new(acc), Box::new(r.0));
        if !(r.2 || r.1 <= p || r.1 > t.len()) {
            lemma_expr_rest_valid(t, r.1, e, s);
        }
    }
}

proof fn lemma_expr_valid(t: Seq<Tok>, p: int, s: Seq<char>)
    requires
        0 <= p <= t.len(),
        tokens_valid(t, s),
    ensures
        numbers_valid(expr_at(t, p).0, s),
    decreases t.len() - p, 4int,
{
    lemma_term_valid(t, p, s);
    let r = term_at(t, p);
    if !(r.2 || r.1 <= p || r.1 > t.len()) {
        lemma_expr_rest_valid(t, r.1, r.0, s);
    }
}

/// Every number in a compiled expression is a span of the input that reads
/// as a decimal number, so evaluating the tree never meets a bad number.
pub proof fn lemma_compiled_numbers_are_valid(s: Seq<char>)
    requires
        s.len() <= usize::MAX,
    ensures
        lex(s, 0) matches Ok(t) ==> numbers_valid(parsed(t), s),
{
    lemma_lex_tokens_valid(s, 0);
    if let Ok(t) = lex(s, 0) {
        lemma_expr_valid(t, 0, s);
    }
}

} // verus!

verus! {

/// The operator a `+ - * / %` token names (written out once more, by token,
/// for the precedence law below).
pub open spec fn op_named(t: Tok) -> BinOp {
    match t {
        Tok::Plus => BinOp::Add,
        Tok::Minus => BinOp::Sub,
        Tok::Star => BinOp::Mul,
        Tok::Slash => BinOp::Div,
        _ => BinOp::Rem,
    }
}

/// `* / %` bind tighter than `+ -`, and operators of one level group to the
/// left: between numbers `a`, `b`, `c`, `a + b % c` reads as `a + (b % c)`
/// and `a % b + c` as `(a % b) + c`, for every choice of the two operators.
pub proof fn lemma_products_bind_tighter(
    a: (usize, usize),
    b: (usize, usize),
    c: (usize, usize),
    low: Tok,
    high: Tok,
)
    requires
        low == Tok::Plus || low == Tok::Minus,
        high == Tok::Star || high == Tok::Slash || high == Tok::Percent,
    ensures
        parsed(seq![Tok::Num { start: a.0, end: a.1 }, low, Tok::Num { start: b.0, end: b.1 }, high, Tok::Num {
            start: c.0,
            end: c.1,
        }]) == Expr::Bin(
            op_named(low),
            Box::new(Expr::Num { start: a.0, end: a.1 }),
            Box::new(Expr::Bin(
                op_named(high),
                Box::new(Expr::Num { start: b.0, end: b.1 }),
                Box::new(Expr::Num { start: c.0, end: c.1 }),
            )),
        ),
        parsed(seq![Tok::Num { start: a.0, end: a.1 }, high, Tok::Num { start: b.0, end: b.1 }, low, Tok::Num {
            start: c.0,
            end: c.1,
        }]) == Expr::Bin(
            op_named(low),
            Box::new(Expr::Bin(
                op_named(high),
                Box::new(Expr::Num { start: a.0, end: a.1 }),
                Box::new(Expr::Num { start: b.0, end: b.1 }),
            )),
            Box::new(Expr::Num { start: c.0, end: c.1 }),
        ),
{
    let na = Expr::Num { start: a.0, end: a.1 };
    let nb = Expr::Num { start: b.0, end: b.1 };
    let nc = Expr::Num { start: c.0, end: c.1 };
    let t1 = seq![Tok::Num { start: a.0, end: a.1 }, low, Tok::Num { start: b.0, end: b.1 }, high, Tok::Num {
        start: c.0,
        end: c.1,
    }];
    assert(factor_at(t1, 0) == (na, 1int, false));
    assert(term_rest(t1, 1, na) == (na, 1int, false));
    assert(term_at(t1, 0) == (na, 1int, false));
    assert(factor_at(t1, 2) == (nb, 3int, false));
    assert(factor_at(t1, 4) == (nc, 5int, false));
    let bc = Expr::Bin(op_named(high), Box::new(nb), Box::new(nc));
    assert(term_rest(t1, 5, bc) == (bc, 5int, false));
    assert(term_rest(t1, 3, nb) == (bc, 5int, false));
    assert(term_at(t1, 2) == (bc, 5int, false));
    let top1 = Expr::Bin(op_named(low), Box::new(na), Box::new(bc));
    assert(expr_rest(t1, 5, top1) == (top1, 5int, false));
    assert(expr_rest(t1, 1, na) == (top1, 5int, false));
    assert(expr_at(t1, 0) == (top1, 5int, false));

    let t2 = seq![Tok::Num { start: a.0, end: a.1 }, high, Tok::Num { start: b.0, end: b.1 }, low, Tok::Num {
        start: c.0,
        end: c.1,
    }];
    assert(factor_at(t2, 0) == (na, 1int, false));
    assert(factor_at(t2, 2) == (nb, 3int, false));
    assert(factor_at(t2, 4) == (nc, 5int, false));
    let ab = Expr::Bin(op_named(high), Box::new(na), Box::new(nb));
    assert(term_rest(t2, 3, ab) == (ab, 3int, false));
    assert(term_rest(t2, 1, na) == (ab, 3int, false));
    assert(term_at(t2, 0) == (ab, 3int, false));
    assert(term_rest(t2, 5, nc) == (nc, 5int, false));
    assert(term_at(t2, 4) == (nc, 5int, false));
    let top2 = Expr::Bin(op_named(low), Box::new(ab), Box::new(nc));
    assert(expr_rest(t2, 5, top2) == (top2, 5int, false));
    assert(expr_rest(t2, 3, ab) == (top2, 5int, false));
    assert(expr_at(t2, 0) == (top2, 5int, false));
}

} // verus!
