//! Expressions of the assembly language: their syntax tree, their parser
//! and their evaluation.

use vstd::prelude::*;
use crate::diagnostics::{AsmError, AsmResult};
use crate::lexer::{LocatedToken, SpecToken, Token};
use crate::symbols::{SymbolTable, message_with_name, upper_key_of};
use crate::text::{chars_of, chars_eq, upper_seq};

verus! {

/// Unary prefix operators: `+ - ! ~ < >` (`<` is the low byte, `>` the high byte).
#[derive(Debug, Clone, Copy, PartialEq, Eq, Structural)]
pub enum UnaryOp {
    Plus,
    Neg,
    Not,
    BitNot,
    LowByte,
    HighByte,
}

/// Binary operators.
#[derive(Debug, Clone, Copy, PartialEq, Eq, Structural)]
pub enum BinaryOp {
    Mul,
    Div,
    Mod,
    Add,
    Sub,
    Shl,
    Shr,
    Lt,
    Le,
    Gt,
    Ge,
    Eq,
    Ne,
    BitAnd,
    BitXor,
    BitOr,
    LogAnd,
    LogOr,
}

/// An expression tree.
#[derive(Debug)]
pub enum Expr {
    Number(i64),
    /// A symbol reference (a leading `@` is not part of the name).
    Symbol(String),
    /// `*`: the current program counter.
    CurrentPc,
    Unary(UnaryOp, Box<Expr>),
    Binary(BinaryOp, Box<Expr>, Box<Expr>),
}

/// The mathematical form of an expression tree.
pub enum SpecExpr {
    Number(i64),
    Symbol(Seq<char>),
    CurrentPc,
    Unary(UnaryOp, Box<SpecExpr>),
    Binary(BinaryOp, Box<SpecExpr>, Box<SpecExpr>),
}

impl Expr {
    pub open spec fn spec_view(&self) -> SpecExpr
        decreases self,
    {
        match self {
            Expr::Number(n) => SpecExpr::Number(*n),
            Expr::Symbol(s) => SpecExpr::Symbol(s@),
            Expr::CurrentPc => SpecExpr::CurrentPc,
            Expr::Unary(op, a) => SpecExpr::Unary(*op, Box::new(a.spec_view())),
            Expr::Binary(op, a, b) => SpecExpr::Binary(*op, Box::new(a.spec_view()), Box::new(b.spec_view())),
        }
    }

    /// A copy of the expression tree.
    pub fn copy(&self) -> (r: Expr)
        ensures
            r == *self,
        decreases self,
    {
        match self {
            Expr::Number(n) => Expr::Number(*n),
            Expr::Symbol(s) => Expr::Symbol(s.clone()),
            Expr::CurrentPc => Expr::CurrentPc,
            Expr::Unary(op, a) => Expr::Unary(*op, Box::new(a.copy())),
            Expr::Binary(op, a, b) => Expr::Binary(*op, Box::new(a.copy()), Box::new(b.copy())),
        }
    }
}


// ---- parsing ----

/// The token values of a token slice.
pub open spec fn tok_seq(toks: Seq<LocatedToken>) -> Seq<SpecToken> {
    Seq::new(toks.len(), |i: int| toks[i].value.spec_view())
}

/// The binary operator written `s` at precedence `level`
/// (0: `||`, 1: `&&`, 2: `|`, 3: `^`, 4: `&`, 5: `== !=`, 6: `< <= > >=`,
/// 7: `<< >>`, 8: `+ -`, 9: `* / %`).
pub open spec fn binop_of(s: Seq<char>, level: int) -> Option<BinaryOp> {
    if level == 0 && s == seq!['|', '|'] {
        Some(BinaryOp::LogOr)
    } else if level == 1 && s == seq!['&', '&'] {
        Some(BinaryOp::LogAnd)
    } else if level == 2 && s == seq!['|'] {
        Some(BinaryOp::BitOr)
    } else if level == 3 && s == seq!['^'] {
        Some(BinaryOp::BitXor)
    } else if level == 4 && s == seq!['&'] {
        Some(BinaryOp::BitAnd)
    } else if level == 5 && s == seq!['=', '='] {
        Some(BinaryOp::Eq)
    } else if level == 5 && s == seq!['!', '='] {
        Some(BinaryOp::Ne)
    } else if level == 6 && s == seq!['<'] {
        Some(BinaryOp::Lt)
    } else if level == 6 && s == seq!['<', '='] {
        Some(BinaryOp::Le)
    } else if level == 6 && s == seq!['>'] {
        Some(BinaryOp::Gt)
    } else if level == 6 && s == seq!['>', '='] {
        Some(BinaryOp::Ge)
    } else if level == 7 && s == seq!['<', '<'] {
        Some(BinaryOp::Shl)
    } else if level == 7 && s == seq!['>', '>'] {
        Some(BinaryOp::Shr)
    } else if level == 8 && s == seq!['+'] {
        Some(BinaryOp::Add)
    } else if level == 8 && s == seq!['-'] {
        Some(BinaryOp::Sub)
    } else if level == 9 && s == seq!['*'] {
        Some(BinaryOp::Mul)
    } else if level == 9 && s == seq!['/'] {
        Some(BinaryOp::Div)
    } else if level == 9 && s == seq!['%'] {
        Some(BinaryOp::Mod)
    } else {
        None
    }
}

/// The unary prefix operator written `s`.
pub open spec fn unop_of(s: Seq<char>) -> Option<UnaryOp> {
    if s == seq!['+'] {
        Some(UnaryOp::Plus)
    } else if s == seq!['-'] {
        Some(UnaryOp::Neg)
    } else if s == seq!['!'] {
        Some(UnaryOp::Not)
    } else if s == seq!['~'] {
        Some(UnaryOp::BitNot)
    } else if s == seq!['<'] {
        Some(UnaryOp::LowByte)
    } else if s == seq!['>'] {
        Some(UnaryOp::HighByte)
    } else {
        None
    }
}

pub open spec fn binop_at(t: Seq<SpecToken>, p: int, level: int) -> Option<BinaryOp> {
    if 0 <= p < t.len() {
        match t[p] {
            SpecToken::Operator(s) => binop_of(s, level),
            _ => None,
        }
    } else {
        None
    }
}

pub open spec fn unop_at(t: Seq<SpecToken>, p: int) -> Option<UnaryOp> {
    if 0 <= p < t.len() {
        match t[p] {
            SpecToken::Operator(s) => unop_of(s),
            _ => None,
        }
    } else {
        None
    }
}

/// An expression at precedence `level` or tighter, starting at token `p`:
/// the tree and the index of the first token after it.
pub open spec fn parse_level(t: Seq<SpecToken>, p: int, level: int) -> Option<(SpecExpr, int)>
    decreases t.len() - p, 3 * (11 - level) + 2,
{
    if p < 0 || p > t.len() || level < 0 || level > 10 {
        None
    } else if level == 10 {
        parse_unary(t, p)
    } else {
        match parse_level(t, p, level + 1) {
            None => None,
            Some((lhs, q)) => if q <= p || q > t.len() {
                None
            } else {
                parse_rest(t, q, level, lhs)
            },
        }
    }
}

/// The left-associative tail `op operand op operand ...` at `level`.
pub open spec fn parse_rest(t: Seq<SpecToken>, p: int, level: int, lhs: SpecExpr) -> Option<(SpecExpr, int)>
    decreases t.len() - p, 3 * (11 - level) + 1,
{
    if p < 0 || p > t.len() || level < 0 || level > 9 {
        None
    } else {
        match binop_at(t, p, level) {
            None => Some((lhs, p)),
            Some(op) => match parse_level(t, p + 1, level + 1) {
                None => None,
                Some((rhs, q)) => if q <= p || q > t.len() {
                    None
                } else {
                    parse_rest(t, q, level, SpecExpr::Binary(op, Box::new(lhs), Box::new(rhs)))
                },
            },
        }
    }
}

/// Prefix operators, then a primary expression.
pub open spec fn parse_unary(t: Seq<SpecToken>, p: int) -> Option<(SpecExpr, int)>
    decreases t.len() - p, 1int,
{
    if p < 0 || p > t.len() {
        None
    } else {
        match unop_at(t, p) {
            Some(op) => match parse_unary(t, p + 1) {
                Some((e, q)) => Some((SpecExpr::Unary(op, Box::new(e)), q)),
                None => None,
            },
            None => parse_primary(t, p),
        }
    }
}

pub open spec fn is_true_word(s: Seq<char>) -> bool {
    upper_seq(s) == seq!['T', 'R', 'U', 'E']
}

pub open spec fn is_false_word(s: Seq<char>) -> bool {
    upper_seq(s) == seq!['F', 'A', 'L', 'S', 'E']
}

/// A literal, a symbol, `*`, `TRUE`, `FALSE` or a parenthesized expression.
pub open spec fn parse_primary(t: Seq<SpecToken>, p: int) -> Option<(SpecExpr, int)>
    decreases t.len() - p, 0int,
{
    if p < 0 || p >= t.len() {
        None
    } else {
        match t[p] {
            SpecToken::Number(n) => Some((SpecExpr::Number(n), p + 1)),
            SpecToken::CharLiteral(c) => Some((SpecExpr::Number(c as i64), p + 1)),
            SpecToken::Identifier(s) => if is_true_word(s) {
                Some((SpecExpr::Number(1), p + 1))
            } else if is_false_word(s) {
                Some((SpecExpr::Number(0), p + 1))
            } else {
                Some((SpecExpr::Symbol(s), p + 1))
            },
            SpecToken::At => if p + 1 < t.len() {
                match t[p + 1] {
                    SpecToken::Identifier(s) => Some((SpecExpr::Symbol(s), p + 2)),
                    _ => None,
                }
            } else {
                None
            },
            SpecToken::Operator(s) => if s == seq!['*'] {
                Some((SpecExpr::CurrentPc, p + 1))
            } else {
                None
            },
            SpecToken::OpenParen => match parse_level(t, p + 1, 0) {
                Some((e, q)) => if p < q < t.len() && t[q] is CloseParen {
                    Some((e, q + 1))
                } else {
                    None
                },
                None => None,
            },
            _ => None,
        }
    }
}

/// A whole expression starting at token `p`.
pub open spec fn parse_expr_spec(t: Seq<SpecToken>, p: int) -> Option<(SpecExpr, int)> {
    parse_level(t, p, 0)
}

proof fn lemma_parse_progress(t: Seq<SpecToken>, p: int, level: int)
    requires
        parse_level(t, p, level) is Some,
    ensures
        p < parse_level(t, p, level).unwrap().1 <= t.len(),
    decreases t.len() - p, 3 * (11 - level) + 2,
{
    if level == 10 {
        lemma_unary_progress(t, p);
    } else {
        let (lhs, q) = parse_level(t, p, level + 1).unwrap();
        lemma_rest_progress(t, q, level, lhs);
    }
}

proof fn lemma_rest_progress(t: Seq<SpecToken>, p: int, level: int, lhs: SpecExpr)
    requires
        parse_rest(t, p, level, lhs) is Some,
    ensures
        p <= parse_rest(t, p, level, lhs).unwrap().1 <= t.len(),
    decreases t.len() - p, 3 * (11 - level) + 1,
{
    match binop_at(t, p, level) {
        None => {},
        Some(op) => {
            let (rhs, q) = parse_level(t, p + 1, level + 1).unwrap();
            lemma_rest_progress(t, q, level, SpecExpr::Binary(op, Box::new(lhs), Box::new(rhs)));
        },
    }
}

proof fn lemma_unary_progress(t: Seq<SpecToken>, p: int)
    requires
        parse_unary(t, p) is Some,
    ensures
        p < parse_unary(t, p).unwrap().1 <= t.len(),
    decreases t.len() - p, 1int,
{
    match unop_at(t, p) {
        Some(op) => { lemma_unary_progress(t, p + 1); },
        None => { lemma_primary_progress(t, p); },
    }
}

proof fn lemma_primary_progress(t: Seq<SpecToken>, p: int)
    requires
        parse_primary(t, p) is Some,
    ensures
        p < parse_primary(t, p).unwrap().1 <= t.len(),
{
}

fn op_is1(tok: &Token, a: char) -> (r: bool)
    ensures
        r == (tok.spec_view() matches SpecToken::Operator(s) && s == seq![a]),
{
    let mut w: Vec<char> = Vec::new();
    w.push(a);
    assert(w@ =~= seq![a]);
    match tok {
        Token::Operator(s) => {
            let v = chars_of(s.as_str());
            chars_eq(&v, &w)
        },
        _ => false,
    }
}

fn op_is2(tok: &Token, a: char, b: char) -> (r: bool)
    ensures
        r == (tok.spec_view() matches SpecToken::Operator(s) && s == seq![a, b]),
{
    let mut w: Vec<char> = Vec::new();
    w.push(a);
    w.push(b);
    assert(w@ =~= seq![a, b]);
    match tok {
        Token::Operator(s) => {
            let v = chars_of(s.as_str());
            chars_eq(&v, &w)
        },
        _ => false,
    }
}

fn binop_at_exec(toks: &[LocatedToken], p: usize, level: usize) -> (r: Option<BinaryOp>)
    ensures
        r == binop_at(tok_seq(toks@), p as int, level as int),
{
    if p >= toks.len() {
        return None;
    }
    let t = &toks[p].value;
    proof {
        assert(tok_seq(toks@)[p as int] == t.spec_view());
    }
    if level == 0 && op_is2(t, '|', '|') {
        return Some(BinaryOp::LogOr);
    }
    if level == 1 && op_is2(t, '&', '&') {
        return Some(BinaryOp::LogAnd);
    }
    if level == 2 && op_is1(t, '|') {
        return Some(BinaryOp::BitOr);
    }
    if level == 3 && op_is1(t, '^') {
        return Some(BinaryOp::BitXor);
    }
    if level == 4 && op_is1(t, '&') {
        return Some(BinaryOp::BitAnd);
    }
    if level == 5 && op_is2(t, '=', '=') {
        return Some(BinaryOp::Eq);
    }
    if level == 5 && op_is2(t, '!', '=') {
        return Some(BinaryOp::Ne);
    }
    if level == 6 && op_is1(t, '<') {
        return Some(BinaryOp::Lt);
    }
    if level == 6 && op_is2(t, '<', '=') {
        return Some(BinaryOp::Le);
    }
    if level == 6 && op_is1(t, '>') {
        return Some(BinaryOp::Gt);
    }
    if level == 6 && op_is2(t, '>', '=') {
        return Some(BinaryOp::Ge);
    }
    if level == 7 && op_is2(t, '<', '<') {
        return Some(BinaryOp::Shl);
    }
    if level == 7 && op_is2(t, '>', '>') {
        return Some(BinaryOp::Shr);
    }
    if level == 8 && op_is1(t, '+') {
        return Some(BinaryOp::Add);
    }
    if level == 8 && op_is1(t, '-') {
        return Some(BinaryOp::Sub);
    }
    if level == 9 && op_is1(t, '*') {
        return Some(BinaryOp::Mul);
    }
    if level == 9 && op_is1(t, '/') {
        return Some(BinaryOp::Div);
    }
    if level == 9 && op_is1(t, '%') {
        return Some(BinaryOp::Mod);
    }
    None
}

fn unop_at_exec(toks: &[LocatedToken], p: usize) -> (r: Option<UnaryOp>)
    ensures
        r == unop_at(tok_seq(toks@), p as int),
{
    if p >= toks.len() {
        return None;
    }
    let t = &toks[p].value;
    proof {
        assert(tok_seq(toks@)[p as int] == t.spec_view());
    }
    if op_is1(t, '+') {
        return Some(UnaryOp::Plus);
    }
    if op_is1(t, '-') {
        return Some(UnaryOp::Neg);
    }
    if op_is1(t, '!') {
        return Some(UnaryOp::Not);
    }
    if op_is1(t, '~') {
        return Some(UnaryOp::BitNot);
    }
    if op_is1(t, '<') {
        return Some(UnaryOp::LowByte);
    }
    if op_is1(t, '>') {
        return Some(UnaryOp::HighByte);
    }
    None
}

fn expected_expression() -> (e: AsmError)
    ensures
        e.message@ == "Expected expression"@,
        e.location is None,
        e.source_line is None,
{
    AsmError::new("Expected expression")
}

fn parse_level_exec(toks: &[LocatedToken], p: usize, level: usize) -> (r: Result<(Expr, usize), AsmError>)
    requires
        p <= toks@.len(),
        level <= 10,
    ensures
        r matches Ok((e, q)) ==> parse_level(tok_seq(toks@), p as int, level as int) == Some((e.spec_view(), q as int)),
        r is Err ==> parse_level(tok_seq(toks@), p as int, level as int) is None,
    decreases toks@.len() - p, 3 * (11 - level) + 2,
{
    if level == 10 {
        return parse_unary_exec(toks, p);
    }
    let (lhs, q) = parse_level_exec(toks, p, level + 1)?;
    proof { lemma_parse_progress(tok_seq(toks@), p as int, level + 1); }
    parse_rest_exec(toks, q, level, lhs)
}

fn parse_rest_exec(toks: &[LocatedToken], p: usize, level: usize, lhs: Expr) -> (r: Result<(Expr, usize), AsmError>)
    requires
        p <= toks@.len(),
        level <= 9,
    ensures
        r matches Ok((e, q)) ==> parse_rest(tok_seq(toks@), p as int, level as int, lhs.spec_view()) == Some((e.spec_view(), q as int)),
        r is Err ==> parse_rest(tok_seq(toks@), p as int, level as int, lhs.spec_view()) is None,
    decreases toks@.len() - p, 3 * (11 - level) + 1,
{
    match binop_at_exec(toks, p, level) {
        None => Ok((lhs, p)),
        Some(op) => {
            let n = toks.len();
            assert(p < n);
            let (rhs, q) = parse_level_exec(toks, p + 1, level + 1)?;
            proof { lemma_parse_progress(tok_seq(toks@), p + 1, level + 1); }
            let e = Expr::Binary(op, Box::new(lhs), Box::new(rhs));
            parse_rest_exec(toks, q, level, e)
        },
    }
}

fn parse_unary_exec(toks: &[LocatedToken], p: usize) -> (r: Result<(Expr, usize), AsmError>)
    requires
        p <= toks@.len(),
    ensures
        r matches Ok((e, q)) ==> parse_unary(tok_seq(toks@), p as int) == Some((e.spec_view(), q as int)),
        r is Err ==> parse_unary(tok_seq(toks@), p as int) is None,
    decreases toks@.len() - p, 1int,
{
    match unop_at_exec(toks, p) {
        Some(op) => {
            let n = toks.len();
            assert(p < n);
            let (e, q) = parse_unary_exec(toks, p + 1)?;
            Ok((Expr::Unary(op, Box::new(e)), q))
        },
        None => parse_primary_exec(toks, p),
    }
}

fn is_true_exec(name: &str) -> (r: bool)
    ensures
        r == is_true_word(name@),
{
    let k = upper_key_of(name);
    let mut w: Vec<char> = Vec::new();
    w.push('T');
    w.push('R');
    w.push('U');
    w.push('E');
    assert(w@ =~= seq!['T', 'R', 'U', 'E']);
    chars_eq(&k, &w)
}

fn is_false_exec(name: &str) -> (r: bool)
    ensures
        r == is_false_word(name@),
{
    let k = upper_key_of(name);
    let mut w: Vec<char> = Vec::new();
    w.push('F');
    w.push('A');
    w.push('L');
    w.push('S');
    w.push('E');
    assert(w@ =~= seq!['F', 'A', 'L', 'S', 'E']);
    chars_eq(&k, &w)
}

fn parse_primary_exec(toks: &[LocatedToken], p: usize) -> (r: Result<(Expr, usize), AsmError>)
    requires
        p <= toks@.len(),
    ensures
        r matches Ok((e, q)) ==> parse_primary(tok_seq(toks@), p as int) == Some((e.spec_view(), q as int)),
        r is Err ==> parse_primary(tok_seq(toks@), p as int) is None,
    decreases toks@.len() - p, 0int,
{
    if p >= toks.len() {
        return Err(expected_expression());
    }
    let ghost t = tok_seq(toks@);
    assert(t[p as int] == toks@[p as int].value.spec_view());
    match &toks[p].value {
        Token::Number(n) => Ok((Expr::Number(*n), p + 1)),
        Token::CharLiteral(c) => Ok((Expr::Number(*c as i64), p + 1)),
        Token::Identifier(s) => {
            if is_true_exec(s.as_str()) {
                Ok((Expr::Number(1), p + 1))
            } else if is_false_exec(s.as_str()) {
                Ok((Expr::Number(0), p + 1))
            } else {
                Ok((Expr::Symbol(s.clone()), p + 1))
            }
        },
        Token::At => {
            if p + 1 < toks.len() {
                assert(t[p + 1] == toks@[p + 1].value.spec_view());
                match &toks[p + 1].value {
                    Token::Identifier(s) => Ok((Expr::Symbol(s.clone()), p + 2)),
                    _ => Err(expected_expression()),
                }
            } else {
                Err(expected_expression())
            }
        },
        Token::Operator(_) => {
            if op_is1(&toks[p].value, '*') {
                Ok((Expr::CurrentPc, p + 1))
            } else {
                Err(expected_expression())
            }
        },
        Token::OpenParen => {
            let (e, q) = parse_level_exec(toks, p + 1, 0)?;
            proof { lemma_parse_progress(t, p + 1, 0); }
            if q < toks.len() {
                assert(t[q as int] == toks@[q as int].value.spec_view());
                match &toks[q].value {
                    Token::CloseParen => Ok((e, q + 1)),
                    _ => Err(AsmError::new("Expected ')'")),
                }
            } else {
                Err(AsmError::new("Expected ')'"))
            }
        },
        _ => Err(expected_expression()),
    }
}

/// A parser of expressions over a token slice.
pub struct ExprParser<'a> {
    tokens: &'a [LocatedToken],
    pos: usize,
}

impl<'a> ExprParser<'a> {
    pub closed spec fn spec_tokens(&self) -> Seq<LocatedToken> {
        self.tokens@
    }

    pub closed spec fn spec_pos(&self) -> usize {
        self.pos
    }

    pub fn new(tokens: &'a [LocatedToken]) -> (p: Self)
        ensures
            p.spec_tokens() == tokens@,
            p.spec_pos() == 0,
    {
        ExprParser { tokens, pos: 0 }
    }

    pub fn pos(&self) -> (r: usize)
        ensures
            r == self.spec_pos(),
    {
        self.pos
    }

    /// Parses one expression from the current position and moves past it.
    pub fn parse_expr(&mut self) -> (r: AsmResult<Expr>)
        requires
            old(self).spec_pos() <= old(self).spec_tokens().len(),
        ensures
            final(self).spec_tokens() == old(self).spec_tokens(),
            r matches Ok(e) ==> parse_expr_spec(tok_seq(old(self).spec_tokens()), old(self).spec_pos() as int)
                == Some((e.spec_view(), final(self).spec_pos() as int)),
            r is Err ==> parse_expr_spec(tok_seq(old(self).spec_tokens()), old(self).spec_pos() as int) is None,
            final(self).spec_pos() <= final(self).spec_tokens().len(),
    {
        let (e, q) = parse_level_exec(self.tokens, self.pos, 0)?;
        proof { lemma_parse_progress(tok_seq(self.tokens@), self.pos as int, 0); }
        self.pos = q;
        Ok(e)
    }
}

/// Parses one expression starting at token `start`; returns it with the
/// number of tokens it spans.
pub fn parse_expr_from(tokens: &[LocatedToken], start: usize) -> (r: AsmResult<(Expr, usize)>)
    requires
        start <= tokens@.len(),
    ensures
        r matches Ok((e, n)) ==> parse_expr_spec(tok_seq(tokens@), start as int) == Some((e.spec_view(), start + n))
            && n >= 1 && start + n <= tokens@.len(),
        r is Err ==> parse_expr_spec(tok_seq(tokens@), start as int) is None,
{
    let (e, q) = parse_level_exec(tokens, start, 0)?;
    proof { lemma_parse_progress(tok_seq(tokens@), start as int, 0); }
    Ok((e, q - start))
}

// ---- evaluation ----

/// The value a name has for the evaluator: the global (or macro-local)
/// symbol, then, when `with_locals`, the local symbol of the current scope.
pub open spec fn sym_value(st: &SymbolTable, name: Seq<char>, with_locals: bool) -> Option<i64> {
    match st.spec_resolve(name) {
        Some(v) => Some(v),
        None => if with_locals {
            st.spec_resolve_local(name)
        } else {
            None
        },
    }
}

pub open spec fn bool_val(b: bool) -> i64 {
    if b {
        1
    } else {
        0
    }
}

/// `a << b` for shift amounts 0..63, zero otherwise.
pub open spec fn shl_val(a: i64, b: i64) -> i64 {
    if 0 <= b < 64 {
        a.wrapping_shl(b as u32)
    } else {
        0
    }
}

/// Arithmetic `a >> b` for shift amounts 0..63; otherwise the sign fill.
pub open spec fn shr_val(a: i64, b: i64) -> i64 {
    if 0 <= b < 64 {
        a.wrapping_shr(b as u32)
    } else if a < 0 {
        -1i64
    } else {
        0i64
    }
}

/// The value of a unary operation.
pub open spec fn unary_val(op: UnaryOp, a: i64) -> i64 {
    match op {
        UnaryOp::Plus => a,
        UnaryOp::Neg => 0i64.wrapping_sub(a),
        UnaryOp::Not => bool_val(a == 0),
        UnaryOp::BitNot => !a,
        UnaryOp::LowByte => a & 0xff,
        UnaryOp::HighByte => (a >> 8u64) & 0xff,
    }
}

/// A `!` before an operand is logical not: it reads as one operand with the
/// operand's extent, whose value is 1 where the operand's value is 0 and 0
/// where the operand has any other value.
pub proof fn law_bang_is_logical_not(t: Seq<SpecToken>, p: int, st: &SymbolTable, with_locals: bool, pc: u16)
    requires
        0 <= p < t.len(),
        t[p] == SpecToken::Operator(seq!['!']),
        parse_unary(t, p + 1) is Some,
    ensures
        parse_unary(t, p) is Some,
        ({
            let (e, q) = parse_unary(t, p)->0;
            let (operand, q1) = parse_unary(t, p + 1)->0;
            &&& q == q1
            &&& eval(e, st, with_locals, pc) == match eval(operand, st, with_locals, pc) {
                Some(v) => Some(if v == 0 { 1i64 } else { 0i64 }),
                None => None,
            }
        }),
{
    assert(seq!['!'][0] != seq!['+'][0]);
    assert(seq!['!'][0] != seq!['-'][0]);
    assert(unop_of(seq!['!']) == Some(UnaryOp::Not));
    assert(unop_at(t, p) == Some(UnaryOp::Not));
    let (operand, q1) = parse_unary(t, p + 1)->0;
    assert(parse_unary(t, p) == Some((SpecExpr::Unary(UnaryOp::Not, Box::new(operand)), q1)));
}

/// The other prefix operators before an operand: `+` keeps its value, `-`
/// negates it (wrapping), `~` flips every bit, `<` takes its low byte and
/// `>` its second byte; the result covers the operand's tokens.
pub proof fn law_prefix_operators(t: Seq<SpecToken>, p: int, c: char, st: &SymbolTable, with_locals: bool, pc: u16)
    requires
        0 <= p < t.len(),
        c == '+' || c == '-' || c == '~' || c == '<' || c == '>',
        t[p] == SpecToken::Operator(seq![c]),
        parse_unary(t, p + 1) is Some,
    ensures
        parse_unary(t, p) is Some,
        ({
            let (e, q) = parse_unary(t, p)->0;
            let (operand, q1) = parse_unary(t, p + 1)->0;
            &&& q == q1
            &&& eval(e, st, with_locals, pc) == match eval(operand, st, with_locals, pc) {
                Some(v) => Some(
                    if c == '+' {
                        v
                    } else if c == '-' {
                        0i64.wrapping_sub(v)
                    } else if c == '~' {
                        !v
                    } else if c == '<' {
                        v & 0xff
                    } else {
                        (v >> 8u64) & 0xff
                    },
                ),
                None => None,
            }
        }),
{
    let s = seq![c];
    assert(s[0] == c);
    assert(seq!['+'][0] == '+');
    assert(seq!['-'][0] == '-');
    assert(seq!['!'][0] == '!');
    assert(seq!['~'][0] == '~');
    assert(seq!['<'][0] == '<');
    assert(seq!['>'][0] == '>');
    let op = if c == '+' {
        UnaryOp::Plus
    } else if c == '-' {
        UnaryOp::Neg
    } else if c == '~' {
        UnaryOp::BitNot
    } else if c == '<' {
        UnaryOp::LowByte
    } else {
        UnaryOp::HighByte
    };
    if c == '+' {
        assert(s =~= seq!['+']);
    } else if c == '-' {
        assert(s =~= seq!['-']);
        assert(s != seq!['+']);
    } else if c == '~' {
        assert(s =~= seq!['~']);
        assert(s != seq!['+']);
        assert(s != seq!['-']);
        assert(s != seq!['!']);
    } else if c == '<' {
        assert(s =~= seq!['<']);
        assert(s != seq!['+']);
        assert(s != seq!['-']);
        assert(s != seq!['!']);
        assert(s != seq!['~']);
    } else {
        assert(s =~= seq!['>']);
        assert(s != seq!['+']);
        assert(s != seq!['-']);
        assert(s != seq!['!']);
        assert(s != seq!['~']);
        assert(s != seq!['<']);
    }
    assert(unop_of(s) == Some(op));
    assert(unop_at(t, p) == Some(op));
    let (operand, q1) = parse_unary(t, p + 1)->0;
    assert(parse_unary(t, p) == Some((SpecExpr::Unary(op, Box::new(operand)), q1)));
}

proof fn lemma_binop_single_level(t: Seq<SpecToken>, q: int, l: int, k: int)
    requires
        binop_at(t, q, l) is Some,
        k != l,
    ensures
        0 <= l <= 9,
        binop_at(t, q, k) is None,
{
    let s = t[q]->Operator_0;
    if binop_of(s, k) is Some {
        assert(s.len() == 1 ==> s =~= seq![s[0]]);
        assert(s.len() == 2 ==> s =~= seq![s[0], s[1]]);
        assert(false);
    }
}

/// Where nothing binds at `q` between `l` and `l0`, the expression read at
/// level `l0` is also the one read at level `l`.
proof fn lemma_level_stops(t: Seq<SpecToken>, p: int, e: SpecExpr, q: int, l0: int, l: int)
    requires
        0 <= p < q <= t.len(),
        0 <= l <= l0 <= 10,
        parse_level(t, p, l0) == Some((e, q)),
        forall|k: int| l <= k < l0 ==> (#[trigger] binop_at(t, q, k)) is None,
    ensures
        parse_level(t, p, l) == Some((e, q)),
    decreases l0 - l,
{
    if l < l0 {
        lemma_level_stops(t, p, e, q, l0, l + 1);
        assert(binop_at(t, q, l) is None);
        assert(parse_rest(t, q, l, e) == Some((e, q)));
    }
}

proof fn lemma_operand(t: Seq<SpecToken>, p: int, e: SpecExpr, q: int, l: int)
    requires
        0 <= p,
        parse_unary(t, p) == Some((e, q)),
        0 <= l <= 10,
        forall|k: int| l <= k < 10 ==> (#[trigger] binop_at(t, q, k)) is None,
    ensures
        p < q <= t.len(),
        parse_level(t, p, l) == Some((e, q)),
{
    lemma_unary_progress(t, p);
    assert(parse_level(t, p, 10) == Some((e, q)));
    lemma_level_stops(t, p, e, q, 10, l);
}

/// Precedence and associativity of the binary operators: in `x op1 y op2
/// z` (three prefix-operator operands, nothing binding after `z`), an
/// `op2` of a tighter level than `op1` takes `y` and `z` first; otherwise
/// the operators apply from left to right.
pub proof fn law_precedence_and_left_association(
    t: Seq<SpecToken>,
    p: int,
    x: SpecExpr,
    q1: int,
    op1: BinaryOp,
    l1: int,
    y: SpecExpr,
    q2: int,
    op2: BinaryOp,
    l2: int,
    z: SpecExpr,
    q3: int,
)
    requires
        0 <= p,
        parse_unary(t, p) == Some((x, q1)),
        binop_at(t, q1, l1) == Some(op1),
        parse_unary(t, q1 + 1) == Some((y, q2)),
        binop_at(t, q2, l2) == Some(op2),
        parse_unary(t, q2 + 1) == Some((z, q3)),
        forall|k: int| 0 <= k <= 9 ==> (#[trigger] binop_at(t, q3, k)) is None,
    ensures
        l1 < l2 ==> parse_expr_spec(t, p) == Some(
            (
                SpecExpr::Binary(op1, Box::new(x), Box::new(SpecExpr::Binary(op2, Box::new(y), Box::new(z)))),
                q3,
            ),
        ),
        l1 >= l2 ==> parse_expr_spec(t, p) == Some(
            (
                SpecExpr::Binary(op2, Box::new(SpecExpr::Binary(op1, Box::new(x), Box::new(y))), Box::new(z)),
                q3,
            ),
        ),
{
    assert forall|k: int| k != l1 implies (#[trigger] binop_at(t, q1, k)) is None by {
        lemma_binop_single_level(t, q1, l1, k);
    }
    assert forall|k: int| k != l2 implies (#[trigger] binop_at(t, q2, k)) is None by {
        lemma_binop_single_level(t, q2, l2, k);
    }
    lemma_binop_single_level(t, q1, l1, l1 + 1);
    lemma_binop_single_level(t, q2, l2, l2 + 1);
    lemma_operand(t, q2 + 1, z, q3, 0);
    if l1 < l2 {
        let yz = SpecExpr::Binary(op2, Box::new(y), Box::new(z));
        let r = SpecExpr::Binary(op1, Box::new(x), Box::new(yz));
        lemma_operand(t, q1 + 1, y, q2, l2 + 1);
        lemma_operand(t, q2 + 1, z, q3, l2 + 1);
        assert(parse_rest(t, q3, l2, yz) == Some((yz, q3)));
        assert(parse_rest(t, q2, l2, y) == Some((yz, q3)));
        assert(parse_level(t, q1 + 1, l2) == Some((yz, q3)));
        lemma_level_stops(t, q1 + 1, yz, q3, l2, l1 + 1);
        lemma_operand(t, p, x, q1, l1 + 1);
        assert(parse_rest(t, q3, l1, r) == Some((r, q3)));
        assert(parse_rest(t, q1, l1, x) == Some((r, q3)));
        assert(parse_level(t, p, l1) == Some((r, q3)));
        lemma_level_stops(t, p, r, q3, l1, 0);
    } else {
        let xy = SpecExpr::Binary(op1, Box::new(x), Box::new(y));
        let r = SpecExpr::Binary(op2, Box::new(xy), Box::new(z));
        lemma_operand(t, p, x, q1, l1 + 1);
        lemma_operand(t, q1 + 1, y, q2, l1 + 1);
        lemma_operand(t, q2 + 1, z, q3, l2 + 1);
        assert(parse_rest(t, q3, l2, r) == Some((r, q3)));
        if l1 == l2 {
            assert(parse_rest(t, q2, l1, xy) == Some((r, q3)));
            assert(parse_rest(t, q1, l1, x) == Some((r, q3)));
            assert(parse_level(t, p, l1) == Some((r, q3)));
        } else {
            assert(parse_rest(t, q2, l1, xy) == Some((xy, q2)));
            assert(parse_rest(t, q1, l1, x) == Some((xy, q2)));
            assert(parse_level(t, p, l1) == Some((xy, q2)));
            lemma_level_stops(t, p, xy, q2, l1, l2 + 1);
            assert(parse_rest(t, q2, l2, xy) == Some((r, q3)));
            assert(parse_level(t, p, l2) == Some((r, q3)));
        }
        lemma_level_stops(t, p, r, q3, l2, 0);
    }
}

/// The precedence table of the binary operators, loosest first: `||`;
/// `&&`; `|`; `^`; `&`; `==` `!=`; `<` `<=` `>` `>=`; `<<` `>>`; `+` `-`;
/// `*` `/` `%`.
pub proof fn law_binary_operator_levels()
    ensures
        binop_of(seq!['|', '|'], 0) == Some(BinaryOp::LogOr),
        binop_of(seq!['&', '&'], 1) == Some(BinaryOp::LogAnd),
        binop_of(seq!['|'], 2) == Some(BinaryOp::BitOr),
        binop_of(seq!['^'], 3) == Some(BinaryOp::BitXor),
        binop_of(seq!['&'], 4) == Some(BinaryOp::BitAnd),
        binop_of(seq!['=', '='], 5) == Some(BinaryOp::Eq),
        binop_of(seq!['!', '='], 5) == Some(BinaryOp::Ne),
        binop_of(seq!['<'], 6) == Some(BinaryOp::Lt),
        binop_of(seq!['<', '='], 6) == Some(BinaryOp::Le),
        binop_of(seq!['>'], 6) == Some(BinaryOp::Gt),
        binop_of(seq!['>', '='], 6) == Some(BinaryOp::Ge),
        binop_of(seq!['<', '<'], 7) == Some(BinaryOp::Shl),
        binop_of(seq!['>', '>'], 7) == Some(BinaryOp::Shr),
        binop_of(seq!['+'], 8) == Some(BinaryOp::Add),
        binop_of(seq!['-'], 8) == Some(BinaryOp::Sub),
        binop_of(seq!['*'], 9) == Some(BinaryOp::Mul),
        binop_of(seq!['/'], 9) == Some(BinaryOp::Div),
        binop_of(seq!['%'], 9) == Some(BinaryOp::Mod),
{
    assert(seq!['<', '='][1] != seq!['<', '<'][1]);
    assert(seq!['>', '='][1] != seq!['>', '>'][1]);
    assert(seq!['='][0] != seq!['!'][0]);
    assert(seq!['-'][0] != seq!['+'][0]);
    assert(seq!['/'][0] != seq!['*'][0]);
    assert(seq!['%'][0] != seq!['*'][0]);
    assert(seq!['%'][0] != seq!['/'][0]);
    assert(seq!['>'][0] != seq!['<'][0]);
    assert(seq!['<', '='].len() != seq!['<'].len());
    assert(seq!['>', '='].len() != seq!['>'].len());
    assert(seq!['>', '='][0] != seq!['<'][0]);
}

/// The low byte (`<`) and the high byte (`>`) of a value are bytes, and
/// together they make up the value's low 16 bits.
pub proof fn law_low_and_high_bytes_make_the_word(v: i64)
    ensures
        0 <= unary_val(UnaryOp::LowByte, v) <= 0xff,
        0 <= unary_val(UnaryOp::HighByte, v) <= 0xff,
        unary_val(UnaryOp::HighByte, v) * 256 + unary_val(UnaryOp::LowByte, v) == v & 0xffff,
{
    assert(0 <= v & 0xff <= 0xff) by (bit_vector);
    assert(0 <= (v >> 8u64) & 0xff <= 0xff) by (bit_vector);
    assert(((v >> 8u64) & 0xff) * 256 + (v & 0xff) == v & 0xffff) by (bit_vector);
}

/// The value of a binary operation; `None` for a division or remainder by
/// zero (or of `i64::MIN` by `-1`).
pub open spec fn binary_val(op: BinaryOp, a: i64, b: i64) -> Option<i64> {
    match op {
        BinaryOp::Mul => Some(a.wrapping_mul(b)),
        BinaryOp::Div => a.checked_div(b),
        BinaryOp::Mod => a.checked_rem(b),
        BinaryOp::Add => Some(a.wrapping_add(b)),
        BinaryOp::Sub => Some(a.wrapping_sub(b)),
        BinaryOp::Shl => Some(shl_val(a, b)),
        BinaryOp::Shr => Some(shr_val(a, b)),
        BinaryOp::Lt => Some(bool_val(a < b)),
        BinaryOp::Le => Some(bool_val(a <= b)),
        BinaryOp::Gt => Some(bool_val(a > b)),
        BinaryOp::Ge => Some(bool_val(a >= b)),
        BinaryOp::Eq => Some(bool_val(a == b)),
        BinaryOp::Ne => Some(bool_val(a != b)),
        BinaryOp::BitAnd => Some(a & b),
        BinaryOp::BitXor => Some(a ^ b),
        BinaryOp::BitOr => Some(a | b),
        BinaryOp::LogAnd => Some(bool_val(a != 0 && b != 0)),
        BinaryOp::LogOr => Some(bool_val(a != 0 || b != 0)),
    }
}

/// The value of an expression: `None` when a symbol has no value or a
/// division fails. `*` is the program counter `pc`.
pub open spec fn eval(e: SpecExpr, st: &SymbolTable, with_locals: bool, pc: u16) -> Option<i64>
    decreases e,
{
    match e {
        SpecExpr::Number(n) => Some(n),
        SpecExpr::Symbol(name) => sym_value(st, name, with_locals),
        SpecExpr::CurrentPc => Some(pc as i64),
        SpecExpr::Unary(op, a) => match eval(*a, st, with_locals, pc) {
            Some(v) => Some(unary_val(op, v)),
            None => None,
        },
        SpecExpr::Binary(op, a, b) => match eval(*a, st, with_locals, pc) {
            Some(x) => match eval(*b, st, with_locals, pc) {
                Some(y) => binary_val(op, x, y),
                None => None,
            },
            None => None,
        },
    }
}

/// The message of the error that evaluating `e` reports where it has no
/// value: the first undefined symbol met, left operand first, or a
/// division by zero.
pub open spec fn eval_error(e: SpecExpr, st: &SymbolTable, with_locals: bool, pc: u16) -> Seq<char>
    decreases e,
{
    match e {
        SpecExpr::Symbol(name) => "Undefined symbol: "@ + name,
        SpecExpr::Unary(_, a) => eval_error(*a, st, with_locals, pc),
        SpecExpr::Binary(_, a, b) => if eval(*a, st, with_locals, pc) is None {
            eval_error(*a, st, with_locals, pc)
        } else if eval(*b, st, with_locals, pc) is None {
            eval_error(*b, st, with_locals, pc)
        } else {
            "Division by zero"@
        },
        _ => Seq::empty(),
    }
}

/// An expression that has a value (without local symbols) keeps it when
/// evaluated with a symbol table that keeps the values of the first.
pub proof fn lemma_eval_kept(e: SpecExpr, t: &SymbolTable, u: &SymbolTable, pc: u16)
    requires
        crate::symbols::values_kept(t, u),
        eval(e, t, false, pc) is Some,
    ensures
        eval(e, u, false, pc) == eval(e, t, false, pc),
    decreases e,
{
    match e {
        SpecExpr::Symbol(name) => {
            crate::symbols::lemma_resolve_kept(t, u, name);
        },
        SpecExpr::Unary(_, a) => {
            lemma_eval_kept(*a, t, u, pc);
        },
        SpecExpr::Binary(_, a, b) => {
            lemma_eval_kept(*a, t, u, pc);
            lemma_eval_kept(*b, t, u, pc);
        },
        _ => {},
    }
}

fn bool_i64(b: bool) -> (r: i64)
    ensures
        r == bool_val(b),
{
    if b {
        1
    } else {
        0
    }
}

fn unary_exec(op: UnaryOp, a: i64) -> (r: i64)
    ensures
        r == unary_val(op, a),
{
    match op {
        UnaryOp::Plus => a,
        UnaryOp::Neg => 0i64.wrapping_sub(a),
        UnaryOp::Not => bool_i64(a == 0),
        UnaryOp::BitNot => !a,
        UnaryOp::LowByte => a & 0xff,
        UnaryOp::HighByte => (a >> 8u64) & 0xff,
    }
}

fn binary_exec(op: BinaryOp, a: i64, b: i64) -> (r: Option<i64>)
    ensures
        r == binary_val(op, a, b),
{
    match op {
        BinaryOp::Mul => Some(a.wrapping_mul(b)),
        BinaryOp::Div => a.checked_div(b),
        BinaryOp::Mod => a.checked_rem(b),
        BinaryOp::Add => Some(a.wrapping_add(b)),
        BinaryOp::Sub => Some(a.wrapping_sub(b)),
        BinaryOp::Shl => Some(if 0 <= b && b < 64 { a.wrapping_shl(b as u32) } else { 0 }),
        BinaryOp::Shr => Some(
            if 0 <= b && b < 64 {
                a.wrapping_shr(b as u32)
            } else if a < 0 {
                -1
            } else {
                0
            },
        ),
        BinaryOp::Lt => Some(bool_i64(a < b)),
        BinaryOp::Le => Some(bool_i64(a <= b)),
        BinaryOp::Gt => Some(bool_i64(a > b)),
        BinaryOp::Ge => Some(bool_i64(a >= b)),
        BinaryOp::Eq => Some(bool_i64(a == b)),
        BinaryOp::Ne => Some(bool_i64(a != b)),
        BinaryOp::BitAnd => Some(a & b),
        BinaryOp::BitXor => Some(a ^ b),
        BinaryOp::BitOr => Some(a | b),
        BinaryOp::LogAnd => Some(bool_i64(a != 0 && b != 0)),
        BinaryOp::LogOr => Some(bool_i64(a != 0 || b != 0)),
    }
}

/// Evaluates `expr` with the symbols of `st` (locals of the current scope
/// too when `with_locals`) and `*` standing for `pc`.
pub fn eval_expr(expr: &Expr, st: &SymbolTable, with_locals: bool, pc: u16) -> (r: AsmResult<i64>)
    requires
        st.wf(),
    ensures
        r matches Ok(v) ==> eval(expr.spec_view(), st, with_locals, pc) == Some(v),
        r is Err ==> eval(expr.spec_view(), st, with_locals, pc) is None,
        r matches Err(e) ==> e.message@ == eval_error(expr.spec_view(), st, with_locals, pc) && e.location is None,
    decreases expr,
{
    match expr {
        Expr::Number(n) => Ok(*n),
        Expr::Symbol(name) => {
            match st.resolve(name.as_str()) {
                Some(v) => Ok(v),
                None => {
                    if with_locals {
                        match st.resolve_local(name.as_str()) {
                            Some(v) => { return Ok(v); },
                            None => {},
                        }
                    }
                    proof {
                        reveal_strlit("");
                    }
                    Err(message_with_name("Undefined symbol: ", name.as_str(), ""))
                },
            }
        },
        Expr::CurrentPc => Ok(pc as i64),
        Expr::Unary(op, a) => {
            match eval_expr(a, st, with_locals, pc) {
                Ok(v) => Ok(unary_exec(*op, v)),
                Err(e) => Err(e),
            }
        },
        Expr::Binary(op, a, b) => {
            let x = match eval_expr(a, st, with_locals, pc) {
                Ok(v) => v,
                Err(e) => { return Err(e); },
            };
            let y = match eval_expr(b, st, with_locals, pc) {
                Ok(v) => v,
                Err(e) => { return Err(e); },
            };
            match binary_exec(*op, x, y) {
                Some(v) => Ok(v),
                None => Err(AsmError::new("Division by zero")),
            }
        },
    }
}

} // verus!
