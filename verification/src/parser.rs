//! The line parser: a tokenized line into labels, an instruction, a
//! directive, or a constant / variable definition.

use vstd::prelude::*;
use crate::diagnostics::{AsmError, AsmResult};
use crate::expr::{Expr, SpecExpr, parse_expr_from, parse_expr_spec, tok_seq};
use crate::instructions::{Condition, CpuMode, ParsedOperand, Register, RegisterPair, register_of,
    register_pair_of, condition_of};
use crate::lexer::{LocatedToken, SpecToken, Token};
use crate::text::{chars_of, chars_eq, eq_chars1, upper_seq, upper_vec, fmt_signed, signed_dec, push_chars, string_of};
use crate::symbols::{message_with_name, upper_key_of};

verus! {

broadcast use vstd::string::group_string_axioms;

/// A parsed assembly line
#[derive(Debug)]
pub enum ParsedLine {
    /// Empty or comment-only line
    Empty,
    /// Label definition (global)
    Label(String),
    /// Local label definition (@name)
    LocalLabel(String),
    /// An instruction with mnemonic and operands
    Instruction {
        mnemonic: String,
        operands: Vec<ParsedOperand>,
        /// Expression(s) for immediates/addresses
        expressions: Vec<Expr>,
    },
    /// Directive with its specific data
    Directive(Directive),
    /// Constant definition: Name = Expr or Name EQU expr
    ConstDef { name: String, is_local: bool, expr: Expr },
    /// Variable definition: Name .var value
    VarDef { name: String, expr: Expr },
}

#[derive(Debug)]
pub enum Directive {
    Org(Expr),
    Include(String),
    FileSize { name: String, path: String },
    IncBin { path: String, offset: Option<Expr>, length: Option<Expr> },
    MacroDef { name: String, params: Vec<MacroParamDef>, body_start: bool },
    EndMacro,
    If(Expr),
    EndIf,
    Loop(Expr),
    EndLoop,
    Optional,
    EndOptional,
    Setting(Vec<(String, String)>),
    Align(Expr),
    Storage { length: Expr, filler: Option<Expr> },
    Byte(Vec<Expr>),
    Word(Vec<Expr>),
    Dword(Vec<Expr>),
    Text(Vec<TextItem>),
    Encoding { enc_type: String, case: Option<String> },
    Print(Vec<PrintArg>),
    Error(Vec<PrintArg>),
}

#[derive(Debug)]
pub struct MacroParamDef {
    pub name: String,
    pub default: Option<String>,
}

#[derive(Debug)]
pub enum TextItem {
    Str(String),
    Char(char),
}

#[derive(Debug)]
pub enum PrintArg {
    Str(String),
    Expr(Expr),
}

// ---- spec forms ----

pub enum SpecTextItem {
    Str(Seq<char>),
    Char(char),
}

pub enum SpecPrintArg {
    Str(Seq<char>),
    Expr(SpecExpr),
}

pub struct SpecParam {
    pub name: Seq<char>,
    pub default: Option<Seq<char>>,
}

pub enum SpecDirective {
    Org(SpecExpr),
    Include(Seq<char>),
    FileSize { name: Seq<char>, path: Seq<char> },
    IncBin { path: Seq<char>, offset: Option<SpecExpr>, length: Option<SpecExpr> },
    MacroDef { name: Seq<char>, params: Seq<SpecParam>, body_start: bool },
    EndMacro,
    If(SpecExpr),
    EndIf,
    Loop(SpecExpr),
    EndLoop,
    Optional,
    EndOptional,
    Setting(Seq<(Seq<char>, Seq<char>)>),
    Align(SpecExpr),
    Storage { length: SpecExpr, filler: Option<SpecExpr> },
    Byte(Seq<SpecExpr>),
    Word(Seq<SpecExpr>),
    Dword(Seq<SpecExpr>),
    Text(Seq<SpecTextItem>),
    Encoding { enc_type: Seq<char>, case: Option<Seq<char>> },
    Print(Seq<SpecPrintArg>),
    Error(Seq<SpecPrintArg>),
}

pub enum SpecLine {
    Empty,
    Label(Seq<char>),
    LocalLabel(Seq<char>),
    Instruction { mnemonic: Seq<char>, operands: Seq<ParsedOperand>, expressions: Seq<SpecExpr> },
    Directive(SpecDirective),
    ConstDef { name: Seq<char>, is_local: bool, expr: SpecExpr },
    VarDef { name: Seq<char>, expr: SpecExpr },
}

pub open spec fn exprs_view(v: Seq<Expr>) -> Seq<SpecExpr> {
    Seq::new(v.len(), |i: int| v[i].spec_view())
}

pub open spec fn opt_expr_view(e: Option<Expr>) -> Option<SpecExpr> {
    match e {
        Some(x) => Some(x.spec_view()),
        None => None,
    }
}

pub open spec fn opt_string_view(s: Option<String>) -> Option<Seq<char>> {
    match s {
        Some(x) => Some(x@),
        None => None,
    }
}

impl TextItem {
    pub open spec fn spec_view(&self) -> SpecTextItem {
        match self {
            TextItem::Str(s) => SpecTextItem::Str(s@),
            TextItem::Char(c) => SpecTextItem::Char(*c),
        }
    }
}

impl PrintArg {
    pub open spec fn spec_view(&self) -> SpecPrintArg {
        match self {
            PrintArg::Str(s) => SpecPrintArg::Str(s@),
            PrintArg::Expr(e) => SpecPrintArg::Expr(e.spec_view()),
        }
    }
}

impl MacroParamDef {
    pub open spec fn spec_view(&self) -> SpecParam {
        SpecParam { name: self.name@, default: opt_string_view(self.default) }
    }
}

pub open spec fn items_view(v: Seq<TextItem>) -> Seq<SpecTextItem> {
    Seq::new(v.len(), |i: int| v[i].spec_view())
}

pub open spec fn args_view(v: Seq<PrintArg>) -> Seq<SpecPrintArg> {
    Seq::new(v.len(), |i: int| v[i].spec_view())
}

pub open spec fn params_view(v: Seq<MacroParamDef>) -> Seq<SpecParam> {
    Seq::new(v.len(), |i: int| v[i].spec_view())
}

pub open spec fn pairs_view(v: Seq<(String, String)>) -> Seq<(Seq<char>, Seq<char>)> {
    Seq::new(v.len(), |i: int| (v[i].0@, v[i].1@))
}

impl Directive {
    pub open spec fn spec_view(&self) -> SpecDirective {
        match self {
            Directive::Org(e) => SpecDirective::Org(e.spec_view()),
            Directive::Include(s) => SpecDirective::Include(s@),
            Directive::FileSize { name, path } => SpecDirective::FileSize { name: name@, path: path@ },
            Directive::IncBin { path, offset, length } => SpecDirective::IncBin {
                path: path@,
                offset: opt_expr_view(*offset),
                length: opt_expr_view(*length),
            },
            Directive::MacroDef { name, params, body_start } => SpecDirective::MacroDef {
                name: name@,
                params: params_view(params@),
                body_start: *body_start,
            },
            Directive::EndMacro => SpecDirective::EndMacro,
            Directive::If(e) => SpecDirective::If(e.spec_view()),
            Directive::EndIf => SpecDirective::EndIf,
            Directive::Loop(e) => SpecDirective::Loop(e.spec_view()),
            Directive::EndLoop => SpecDirective::EndLoop,
            Directive::Optional => SpecDirective::Optional,
            Directive::EndOptional => SpecDirective::EndOptional,
            Directive::Setting(v) => SpecDirective::Setting(pairs_view(v@)),
            Directive::Align(e) => SpecDirective::Align(e.spec_view()),
            Directive::Storage { length, filler } => SpecDirective::Storage {
                length: length.spec_view(),
                filler: opt_expr_view(*filler),
            },
            Directive::Byte(v) => SpecDirective::Byte(exprs_view(v@)),
            Directive::Word(v) => SpecDirective::Word(exprs_view(v@)),
            Directive::Dword(v) => SpecDirective::Dword(exprs_view(v@)),
            Directive::Text(v) => SpecDirective::Text(items_view(v@)),
            Directive::Encoding { enc_type, case } => SpecDirective::Encoding {
                enc_type: enc_type@,
                case: opt_string_view(*case),
            },
            Directive::Print(v) => SpecDirective::Print(args_view(v@)),
            Directive::Error(v) => SpecDirective::Error(args_view(v@)),
        }
    }
}

impl ParsedLine {
    pub open spec fn spec_view(&self) -> SpecLine {
        match self {
            ParsedLine::Empty => SpecLine::Empty,
            ParsedLine::Label(s) => SpecLine::Label(s@),
            ParsedLine::LocalLabel(s) => SpecLine::LocalLabel(s@),
            ParsedLine::Instruction { mnemonic, operands, expressions } => SpecLine::Instruction {
                mnemonic: mnemonic@,
                operands: operands@,
                expressions: exprs_view(expressions@),
            },
            ParsedLine::Directive(d) => SpecLine::Directive(d.spec_view()),
            ParsedLine::ConstDef { name, is_local, expr } => SpecLine::ConstDef {
                name: name@,
                is_local: *is_local,
                expr: expr.spec_view(),
            },
            ParsedLine::VarDef { name, expr } => SpecLine::VarDef { name: name@, expr: expr.spec_view() },
        }
    }
}

pub open spec fn lines_view(v: Seq<ParsedLine>) -> Seq<SpecLine> {
    Seq::new(v.len(), |i: int| v[i].spec_view())
}

// ---- token-level helpers ----

pub open spec fn is_comma_at(t: Seq<SpecToken>, p: int) -> bool {
    0 <= p < t.len() && t[p] is Comma
}

pub open spec fn is_op_at(t: Seq<SpecToken>, p: int, s: Seq<char>) -> bool {
    0 <= p < t.len() && match t[p] {
        SpecToken::Operator(o) => o == s,
        _ => false,
    }
}

/// `Some(name)` when token `p` is an identifier.
pub open spec fn ident_at(t: Seq<SpecToken>, p: int) -> Option<Seq<char>> {
    if 0 <= p < t.len() {
        match t[p] {
            SpecToken::Identifier(s) => Some(s),
            _ => None,
        }
    } else {
        None
    }
}

pub open spec fn is_kind_at(t: Seq<SpecToken>, p: int, k: SpecToken) -> bool {
    0 <= p < t.len() && t[p] == k
}

/// A string-literal argument at `p`.
pub open spec fn string_arg(t: Seq<SpecToken>, p: int) -> Option<(Seq<char>, int)> {
    if 0 <= p < t.len() {
        match t[p] {
            SpecToken::StringLiteral(s) => Some((s, p + 1)),
            _ => None,
        }
    } else {
        None
    }
}

/// The value of the i-th token's spec form.
pub open spec fn tv(toks: &[LocatedToken], i: int) -> SpecToken {
    tok_seq(toks@)[i]
}

fn comma_at(toks: &[LocatedToken], p: usize) -> (r: bool)
    ensures
        r == is_comma_at(tok_seq(toks@), p as int),
{
    if p < toks.len() {
        match &toks[p].value {
            Token::Comma => true,
            _ => false,
        }
    } else {
        false
    }
}

fn op_at(toks: &[LocatedToken], p: usize, s: &str) -> (r: bool)
    ensures
        r == is_op_at(tok_seq(toks@), p as int, s@),
{
    if p < toks.len() {
        match &toks[p].value {
            Token::Operator(o) => {
                let a = chars_of(o.as_str());
                let b = chars_of(s);
                chars_eq(&a, &b)
            },
            _ => false,
        }
    } else {
        false
    }
}

fn ident_at_exec<'a>(toks: &'a [LocatedToken], p: usize) -> (r: Option<&'a String>)
    ensures
        r matches Some(s) ==> ident_at(tok_seq(toks@), p as int) == Some(s@),
        r is None ==> ident_at(tok_seq(toks@), p as int) is None,
{
    if p < toks.len() {
        match &toks[p].value {
            Token::Identifier(s) => Some(s),
            _ => None,
        }
    } else {
        None
    }
}

fn colon_at(toks: &[LocatedToken], p: usize) -> (r: bool)
    ensures
        r == is_kind_at(tok_seq(toks@), p as int, SpecToken::Colon),
{
    if p < toks.len() {
        match &toks[p].value {
            Token::Colon => true,
            _ => false,
        }
    } else {
        false
    }
}

fn at_at(toks: &[LocatedToken], p: usize) -> (r: bool)
    ensures
        r == is_kind_at(tok_seq(toks@), p as int, SpecToken::At),
{
    if p < toks.len() {
        match &toks[p].value {
            Token::At => true,
            _ => false,
        }
    } else {
        false
    }
}

fn dot_at(toks: &[LocatedToken], p: usize) -> (r: bool)
    ensures
        r == is_kind_at(tok_seq(toks@), p as int, SpecToken::Dot),
{
    if p < toks.len() {
        match &toks[p].value {
            Token::Dot => true,
            _ => false,
        }
    } else {
        false
    }
}

fn open_paren_at(toks: &[LocatedToken], p: usize) -> (r: bool)
    ensures
        r == is_kind_at(tok_seq(toks@), p as int, SpecToken::OpenParen),
{
    if p < toks.len() {
        match &toks[p].value {
            Token::OpenParen => true,
            _ => false,
        }
    } else {
        false
    }
}

fn close_paren_at(toks: &[LocatedToken], p: usize) -> (r: bool)
    ensures
        r == is_kind_at(tok_seq(toks@), p as int, SpecToken::CloseParen),
{
    if p < toks.len() {
        match &toks[p].value {
            Token::CloseParen => true,
            _ => false,
        }
    } else {
        false
    }
}

/// Whether the upper-case form of `s` is the literal `w`.
fn upper_is(s: &str, w: &str) -> (r: bool)
    ensures
        r == (upper_seq(s@) == w@),
{
    let a = upper_key_of(s);
    let b = chars_of(w);
    chars_eq(&a, &b)
}

fn parse_string_arg(toks: &[LocatedToken], p: usize) -> (r: AsmResult<(String, usize)>)
    ensures
        r matches Ok((s, q)) ==> string_arg(tok_seq(toks@), p as int) == Some((s@, q as int)) && q == p + 1
            && p < toks@.len(),
        r is Err ==> string_arg(tok_seq(toks@), p as int) is None,
{
    if p < toks.len() {
        match &toks[p].value {
            Token::StringLiteral(s) => { return Ok((s.clone(), p + 1)); },
            _ => {},
        }
    }
    Err(AsmError::new("Expected string"))
}

// ---- lists ----

/// A comma-separated list of expressions, possibly empty, stopping at the
/// end of the line.
pub open spec fn expr_list(t: Seq<SpecToken>, p: int) -> Option<(Seq<SpecExpr>, int)>
    decreases t.len() - p,
{
    if p < 0 || p >= t.len() {
        Some((Seq::empty(), p))
    } else {
        match parse_expr_spec(t, p) {
            None => None,
            Some((e, q)) => if q <= p || q > t.len() {
                None
            } else if is_comma_at(t, q) {
                match expr_list(t, q + 1) {
                    Some((es, r)) => Some((seq![e] + es, r)),
                    None => None,
                }
            } else {
                Some((seq![e], q))
            },
        }
    }
}

fn parse_expr_list(toks: &[LocatedToken], p: usize) -> (r: AsmResult<(Vec<Expr>, usize)>)
    requires
        p <= toks@.len(),
    ensures
        r matches Ok((v, q)) ==> expr_list(tok_seq(toks@), p as int) == Some((exprs_view(v@), q as int))
            && q <= toks@.len(),
        r is Err ==> expr_list(tok_seq(toks@), p as int) is None,
{
    let ghost t = tok_seq(toks@);
    let mut out: Vec<Expr> = Vec::new();
    let mut pos = p;
    loop
        invariant
            p <= pos <= toks@.len(),
            t == tok_seq(toks@),
            expr_list(t, p as int) == match expr_list(t, pos as int) {
                Some((es, r)) => Some((exprs_view(out@) + es, r)),
                None => None,
            },
        decreases toks@.len() - pos,
    {
        if pos >= toks.len() {
            assert(exprs_view(out@) + Seq::<SpecExpr>::empty() =~= exprs_view(out@));
            return Ok((out, pos));
        }
        let (e, n) = parse_expr_from(toks, pos)?;
        let q = pos + n;
        let ghost ev = e.spec_view();
        let ghost old_out = out@;
        out.push(e);
        assert(exprs_view(out@) =~= exprs_view(old_out).push(ev));
        if comma_at(toks, q) {
            proof {
                match expr_list(t, q + 1) {
                    Some((es, r)) => {
                        assert(exprs_view(old_out) + (seq![ev] + es) =~= exprs_view(out@) + es);
                    },
                    None => {},
                }
            }
            pos = q + 1;
        } else {
            assert(exprs_view(old_out) + seq![ev] =~= exprs_view(out@));
            return Ok((out, q));
        }
    }
}

/// Text items: string and character literals separated by commas.
pub open spec fn text_items(t: Seq<SpecToken>, p: int) -> (Seq<SpecTextItem>, int)
    decreases t.len() - p,
{
    if p < 0 || p >= t.len() {
        (Seq::empty(), p)
    } else {
        let item = match t[p] {
            SpecToken::StringLiteral(s) => Some(SpecTextItem::Str(s)),
            SpecToken::CharLiteral(c) => Some(SpecTextItem::Char(c)),
            _ => None,
        };
        match item {
            None => (Seq::empty(), p),
            Some(it) => if is_comma_at(t, p + 1) {
                let (rest, r) = text_items(t, p + 2);
                (seq![it] + rest, r)
            } else {
                (seq![it], p + 1)
            },
        }
    }
}

fn parse_text_items(toks: &[LocatedToken], p: usize) -> (r: (Vec<TextItem>, usize))
    requires
        p <= toks@.len(),
    ensures
        text_items(tok_seq(toks@), p as int) == (items_view(r.0@), r.1 as int),
{
    let ghost t = tok_seq(toks@);
    let mut out: Vec<TextItem> = Vec::new();
    let mut pos = p;
    loop
        invariant
            p <= pos <= toks@.len(),
            t == tok_seq(toks@),
            text_items(t, p as int) == (items_view(out@) + text_items(t, pos as int).0, text_items(
                t,
                pos as int,
            ).1),
        decreases toks@.len() - pos,
    {
        if pos >= toks.len() {
            assert(items_view(out@) + Seq::<SpecTextItem>::empty() =~= items_view(out@));
            return (out, pos);
        }
        let item = match &toks[pos].value {
            Token::StringLiteral(s) => TextItem::Str(s.clone()),
            Token::CharLiteral(c) => TextItem::Char(*c),
            _ => {
                assert(items_view(out@) + Seq::<SpecTextItem>::empty() =~= items_view(out@));
                return (out, pos);
            },
        };
        let ghost iv = item.spec_view();
        let ghost old_out = out@;
        out.push(item);
        assert(items_view(out@) =~= items_view(old_out).push(iv));
        if comma_at(toks, pos + 1) {
            assert(items_view(old_out) + (seq![iv] + text_items(t, pos + 2).0) =~= items_view(out@)
                + text_items(t, pos + 2).0);
            pos = pos + 2;
        } else {
            assert(items_view(old_out) + seq![iv] =~= items_view(out@));
            return (out, pos + 1);
        }
    }
}

/// `.print` / `.error` arguments: strings and expressions separated by commas.
pub open spec fn print_args(t: Seq<SpecToken>, p: int) -> Option<(Seq<SpecPrintArg>, int)>
    decreases t.len() - p,
{
    if p < 0 || p >= t.len() {
        Some((Seq::empty(), p))
    } else {
        let first = match t[p] {
            SpecToken::StringLiteral(s) => Some((SpecPrintArg::Str(s), p + 1)),
            _ => match parse_expr_spec(t, p) {
                Some((e, q)) => Some((SpecPrintArg::Expr(e), q)),
                None => None,
            },
        };
        match first {
            None => None,
            Some((a, q)) => if q <= p || q > t.len() {
                None
            } else if is_comma_at(t, q) {
                match print_args(t, q + 1) {
                    Some((rest, r)) => Some((seq![a] + rest, r)),
                    None => None,
                }
            } else {
                Some((seq![a], q))
            },
        }
    }
}

fn parse_print_args(toks: &[LocatedToken], p: usize) -> (r: AsmResult<(Vec<PrintArg>, usize)>)
    requires
        p <= toks@.len(),
    ensures
        r matches Ok((v, q)) ==> print_args(tok_seq(toks@), p as int) == Some((args_view(v@), q as int)),
        r is Err ==> print_args(tok_seq(toks@), p as int) is None,
{
    let ghost t = tok_seq(toks@);
    let mut out: Vec<PrintArg> = Vec::new();
    let mut pos = p;
    loop
        invariant
            p <= pos <= toks@.len(),
            t == tok_seq(toks@),
            print_args(t, p as int) == match print_args(t, pos as int) {
                Some((rest, r)) => Some((args_view(out@) + rest, r)),
                None => None,
            },
        decreases toks@.len() - pos,
    {
        if pos >= toks.len() {
            assert(args_view(out@) + Seq::<SpecPrintArg>::empty() =~= args_view(out@));
            return Ok((out, pos));
        }
        let (arg, q) = match &toks[pos].value {
            Token::StringLiteral(s) => (PrintArg::Str(s.clone()), pos + 1),
            _ => {
                let (e, n) = parse_expr_from(toks, pos)?;
                (PrintArg::Expr(e), pos + n)
            },
        };
        let ghost av = arg.spec_view();
        let ghost old_out = out@;
        out.push(arg);
        assert(args_view(out@) =~= args_view(old_out).push(av));
        if comma_at(toks, q) {
            proof {
                match print_args(t, q + 1) {
                    Some((rest, r)) => {
                        assert(args_view(old_out) + (seq![av] + rest) =~= args_view(out@) + rest);
                    },
                    None => {},
                }
            }
            pos = q + 1;
        } else {
            assert(args_view(old_out) + seq![av] =~= args_view(out@));
            return Ok((out, q));
        }
    }
}

// ---- macro parameters and settings ----

/// The text of a token, as a macro parameter default is read back.
pub open spec fn token_text(t: SpecToken) -> Seq<char> {
    match t {
        SpecToken::Identifier(s) => s,
        SpecToken::Number(n) => signed_dec(n as int),
        SpecToken::StringLiteral(s) => seq!['"'] + s + seq!['"'],
        SpecToken::CharLiteral(c) => seq!['\'', c, '\''],
        SpecToken::Operator(s) => s,
        SpecToken::Comma => seq![','],
        SpecToken::Colon => seq![':'],
        SpecToken::OpenParen => seq!['('],
        SpecToken::CloseParen => seq![')'],
        SpecToken::Dot => seq!['.'],
        SpecToken::At => seq!['@'],
        SpecToken::Newline => Seq::empty(),
        SpecToken::Eof => Seq::empty(),
    }
}

fn token_to_string(t: &Token) -> (r: String)
    ensures
        r@ == token_text(t.spec_view()),
{
    match t {
        Token::Identifier(s) => s.clone(),
        Token::Number(n) => string_of(&fmt_signed(*n)),
        Token::StringLiteral(s) => {
            let mut r = String::new();
            push_chars(&mut r, &['"']);
            push_chars(&mut r, &chars_of(s.as_str()));
            push_chars(&mut r, &['"']);
            assert(r@ =~= token_text(t.spec_view()));
            r
        },
        Token::CharLiteral(c) => {
            let mut r = String::new();
            push_chars(&mut r, &['\'', *c, '\'']);
            assert(r@ =~= token_text(t.spec_view()));
            r
        },
        Token::Operator(s) => s.clone(),
        Token::Comma => {
            let mut r = String::new();
            push_chars(&mut r, &[',']);
            r
        },
        Token::Colon => {
            let mut r = String::new();
            push_chars(&mut r, &[':']);
            r
        },
        Token::OpenParen => {
            let mut r = String::new();
            push_chars(&mut r, &['(']);
            r
        },
        Token::CloseParen => {
            let mut r = String::new();
            push_chars(&mut r, &[')']);
            r
        },
        Token::Dot => {
            let mut r = String::new();
            push_chars(&mut r, &['.']);
            r
        },
        Token::At => {
            let mut r = String::new();
            push_chars(&mut r, &['@']);
            r
        },
        Token::Newline => String::new(),
        Token::Eof => String::new(),
    }
}

/// The raw text of a parameter default: the tokens up to a comma (or, inside
/// parentheses, a closing parenthesis), written back to back.
pub open spec fn default_text(t: Seq<SpecToken>, p: int, has_parens: bool) -> (Seq<char>, int)
    decreases t.len() - p,
{
    if p < 0 || p >= t.len() || t[p] is Comma || (has_parens && t[p] is CloseParen) {
        (Seq::empty(), p)
    } else {
        let (rest, r) = default_text(t, p + 1, has_parens);
        (token_text(t[p]) + rest, r)
    }
}

fn read_default_value(toks: &[LocatedToken], p: usize, has_parens: bool) -> (r: (String, usize))
    requires
        p <= toks@.len(),
    ensures
        default_text(tok_seq(toks@), p as int, has_parens) == (r.0@, r.1 as int),
        p <= r.1 <= toks@.len(),
{
    let ghost t = tok_seq(toks@);
    let mut out = String::new();
    let mut pos = p;
    while pos < toks.len()
        invariant
            p <= pos <= toks@.len(),
            t == tok_seq(toks@),
            default_text(t, p as int, has_parens) == (out@ + default_text(t, pos as int, has_parens).0,
                default_text(t, pos as int, has_parens).1),
        decreases toks@.len() - pos,
    {
        let stop = match &toks[pos].value {
            Token::Comma => true,
            Token::CloseParen => has_parens,
            _ => false,
        };
        if stop {
            assert(out@ + Seq::<char>::empty() =~= out@);
            return (out, pos);
        }
        let piece = token_to_string(&toks[pos].value);
        let ghost old = out@;
        push_chars(&mut out, &chars_of(piece.as_str()));
        assert(old + (piece@ + default_text(t, pos + 1, has_parens).0) =~= out@ + default_text(
            t,
            pos + 1,
            has_parens,
        ).0);
        pos += 1;
    }
    assert(out@ + Seq::<char>::empty() =~= out@);
    (out, pos)
}

/// Macro parameters: names with optional `= default`, separated by commas,
/// ending at a `)` when the list is parenthesized.
pub open spec fn macro_params(t: Seq<SpecToken>, p: int, has_parens: bool) -> (Seq<SpecParam>, int)
    decreases t.len() - p,
{
    if p < 0 || p >= t.len() {
        (Seq::empty(), p)
    } else if has_parens && t[p] is CloseParen {
        (Seq::empty(), p + 1)
    } else {
        match ident_at(t, p) {
            None => (Seq::empty(), p),
            Some(name) => {
                let (default, q) = if is_op_at(t, p + 1, seq!['=']) {
                    let (d, q) = default_text(t, p + 2, has_parens);
                    (Some(d), q)
                } else {
                    (None, p + 1)
                };
                let q2 = if is_comma_at(t, q) { q + 1 } else { q };
                if q2 <= p || q2 > t.len() {
                    (Seq::empty(), p)
                } else {
                    let (rest, r) = macro_params(t, q2, has_parens);
                    (seq![SpecParam { name, default }] + rest, r)
                }
            },
        }
    }
}

proof fn lemma_default_text_bounds(t: Seq<SpecToken>, p: int, has_parens: bool)
    requires
        0 <= p <= t.len(),
    ensures
        p <= default_text(t, p, has_parens).1 <= t.len(),
    decreases t.len() - p,
{
    if p < t.len() && !(t[p] is Comma) && !(has_parens && t[p] is CloseParen) {
        lemma_default_text_bounds(t, p + 1, has_parens);
    }
}

fn parse_macro_params_tokens(toks: &[LocatedToken], p: usize, has_parens: bool) -> (r: (
    Vec<MacroParamDef>,
    usize,
))
    requires
        p <= toks@.len(),
    ensures
        macro_params(tok_seq(toks@), p as int, has_parens) == (params_view(r.0@), r.1 as int),
{
    let ghost t = tok_seq(toks@);
    let mut out: Vec<MacroParamDef> = Vec::new();
    let mut pos = p;
    loop
        invariant
            p <= pos <= toks@.len(),
            t == tok_seq(toks@),
            macro_params(t, p as int, has_parens) == (params_view(out@) + macro_params(t, pos as int, has_parens).0,
                macro_params(t, pos as int, has_parens).1),
        decreases toks@.len() - pos,
    {
        if pos >= toks.len() {
            assert(params_view(out@) + Seq::<SpecParam>::empty() =~= params_view(out@));
            return (out, pos);
        }
        if has_parens && close_paren_at(toks, pos) {
            assert(params_view(out@) + Seq::<SpecParam>::empty() =~= params_view(out@));
            return (out, pos + 1);
        }
        let name = match ident_at_exec(toks, pos) {
            Some(n) => n.clone(),
            None => {
                assert(params_view(out@) + Seq::<SpecParam>::empty() =~= params_view(out@));
                return (out, pos);
            },
        };
        proof {
            reveal_strlit("=");
            assert("="@ =~= seq!['=']);
        }
        let (default, q) = if op_at(toks, pos + 1, "=") {
            let (d, q) = read_default_value(toks, pos + 2, has_parens);
            (Some(d), q)
        } else {
            (None, pos + 1)
        };
        let q2 = if comma_at(toks, q) { q + 1 } else { q };
        let param = MacroParamDef { name, default };
        let ghost pv = param.spec_view();
        assert(pv == SpecParam { name: name@, default: opt_string_view(default) });

        assert(macro_params(t, pos as int, has_parens) == (seq![pv] + macro_params(t, q2 as int, has_parens).0,
            macro_params(t, q2 as int, has_parens).1));
        let ghost old_out = out@;
        out.push(param);
        assert(params_view(out@) =~= params_view(old_out).push(pv));
        assert(params_view(old_out) + (seq![pv] + macro_params(t, q2 as int, has_parens).0) =~= params_view(out@)
            + macro_params(t, q2 as int, has_parens).0);
        pos = q2;
    }
}

/// `.setting` pairs: `key[,] value` with the value an identifier, a string,
/// a number, or (missing) `true`.
pub open spec fn setting_pairs(t: Seq<SpecToken>, p: int) -> (Seq<(Seq<char>, Seq<char>)>, int)
    decreases t.len() - p,
{
    if p < 0 || p >= t.len() {
        (Seq::empty(), p)
    } else {
        match ident_at(t, p) {
            None => (Seq::empty(), p),
            Some(key) => {
                let v0 = if is_comma_at(t, p + 1) { p + 2 } else { p + 1 };
                let (value, q) = if 0 <= v0 < t.len() {
                    match t[v0] {
                        SpecToken::Identifier(v) => (v, v0 + 1),
                        SpecToken::StringLiteral(v) => (v, v0 + 1),
                        SpecToken::Number(n) => (signed_dec(n as int), v0 + 1),
                        _ => ("true"@, v0),
                    }
                } else {
                    ("true"@, v0)
                };
                let q2 = if is_comma_at(t, q) { q + 1 } else { q };
                let (rest, r) = setting_pairs(t, q2);
                (seq![(key, value)] + rest, r)
            },
        }
    }
}

fn parse_setting_pairs(toks: &[LocatedToken], p: usize) -> (r: (Vec<(String, String)>, usize))
    requires
        p <= toks@.len(),
    ensures
        setting_pairs(tok_seq(toks@), p as int) == (pairs_view(r.0@), r.1 as int),
{
    let ghost t = tok_seq(toks@);
    let mut out: Vec<(String, String)> = Vec::new();
    let mut pos = p;
    while pos < toks.len()
        invariant
            p <= pos <= toks@.len(),
            t == tok_seq(toks@),
            setting_pairs(t, p as int) == (pairs_view(out@) + setting_pairs(t, pos as int).0, setting_pairs(
                t,
                pos as int,
            ).1),
        decreases toks@.len() - pos,
    {
        let key = match ident_at_exec(toks, pos) {
            Some(k) => k.clone(),
            None => {
                assert(pairs_view(out@) + Seq::<(Seq<char>, Seq<char>)>::empty() =~= pairs_view(out@));
                return (out, pos);
            },
        };
        let v0 = if comma_at(toks, pos + 1) { pos + 2 } else { pos + 1 };
        let (value, q) = if v0 < toks.len() {
            match &toks[v0].value {
                Token::Identifier(v) => (v.clone(), v0 + 1),
                Token::StringLiteral(v) => (v.clone(), v0 + 1),
                Token::Number(n) => (string_of(&fmt_signed(*n)), v0 + 1),
                _ => (String::from_str("true"), v0),
            }
        } else {
            (String::from_str("true"), v0)
        };
        let q2 = if comma_at(toks, q) { q + 1 } else { q };
        let ghost kv = (key@, value@);
        let ghost old_out = out@;
        out.push((key, value));
        assert(pairs_view(out@) =~= pairs_view(old_out).push(kv));
        assert(pairs_view(old_out) + (seq![kv] + setting_pairs(t, q2 as int).0) =~= pairs_view(out@)
            + setting_pairs(t, q2 as int).0);
        pos = q2;
    }
    assert(pairs_view(out@) + Seq::<(Seq<char>, Seq<char>)>::empty() =~= pairs_view(out@));
    (out, pos)
}

// ---- directives ----

/// Whether `n` names a directive (in upper case, without its dot).
pub open spec fn known_directive(n: Seq<char>) -> bool {
    n == "ORG"@
        || n == "INCLUDE"@
        || n == "INCBIN"@
        || n == "MACRO"@
        || n == "ENDMACRO"@
        || n == "IF"@
        || n == "ENDIF"@
        || n == "LOOP"@
        || n == "ENDLOOP"@
        || n == "ENDL"@
        || n == "OPTIONAL"@
        || n == "OPT"@
        || n == "FUNCTION"@
        || n == "FUNC"@
        || n == "ENDOPTIONAL"@
        || n == "ENDOPT"@
        || n == "ENDFUNCTION"@
        || n == "ENDFUNC"@
        || n == "SETTING"@
        || n == "ALIGN"@
        || n == "STORAGE"@
        || n == "BYTE"@
        || n == "DB"@
        || n == "WORD"@
        || n == "DW"@
        || n == "DWORD"@
        || n == "DD"@
        || n == "TEXT"@
        || n == "ENCODING"@
        || n == "PRINT"@
        || n == "ERROR"@
        || n == "VAR"@
        || n == "FILESIZE"@
}

/// The directive `.name` (upper case) with its arguments from token `p`.
pub open spec fn directive_spec(n: Seq<char>, t: Seq<SpecToken>, p: int) -> Option<SpecDirective> {
    if n == "MACRO"@ {
        match ident_at(t, p) {
            None => None,
            Some(name) => {
                let hp = is_kind_at(t, p + 1, SpecToken::OpenParen);
                let q = if hp { p + 2 } else { p + 1 };
                Some(SpecDirective::MacroDef { name, params: macro_params(t, q, hp).0, body_start: true })
            },
        }
    } else if n == "VAR"@ {
        // `Name .var value` is a variable definition, read by the line
        // parser; `.var` on its own is an error.
        None
    } else if n == "ORG"@ {
        match parse_expr_spec(t, p) {
            Some((e, _)) => Some(SpecDirective::Org(e)),
            None => None,
        }
    } else if n == "INCLUDE"@ {
        match string_arg(t, p) {
            Some((s, _)) => Some(SpecDirective::Include(s)),
            None => None,
        }
    } else if n == "INCBIN"@ {
        match string_arg(t, p) {
            None => None,
            Some((path, q)) => if !is_comma_at(t, q) {
                Some(SpecDirective::IncBin { path, offset: None, length: None })
            } else {
                match parse_expr_spec(t, q + 1) {
                    None => None,
                    Some((o, q2)) => if !is_comma_at(t, q2) {
                        Some(SpecDirective::IncBin { path, offset: Some(o), length: None })
                    } else {
                        match parse_expr_spec(t, q2 + 1) {
                            None => None,
                            Some((l, _)) => Some(SpecDirective::IncBin { path, offset: Some(o), length: Some(l) }),
                        }
                    },
                }
            },
        }
    } else if n == "ENDMACRO"@ {
        Some(SpecDirective::EndMacro)
    } else if n == "IF"@ {
        match parse_expr_spec(t, p) {
            Some((e, _)) => Some(SpecDirective::If(e)),
            None => None,
        }
    } else if n == "ENDIF"@ {
        Some(SpecDirective::EndIf)
    } else if n == "LOOP"@ {
        match parse_expr_spec(t, p) {
            Some((e, _)) => Some(SpecDirective::Loop(e)),
            None => None,
        }
    } else if n == "ENDLOOP"@ || n == "ENDL"@ {
        Some(SpecDirective::EndLoop)
    } else if n == "OPTIONAL"@ || n == "OPT"@ || n == "FUNCTION"@ || n == "FUNC"@ {
        Some(SpecDirective::Optional)
    } else if n == "ENDOPTIONAL"@ || n == "ENDOPT"@ || n == "ENDFUNCTION"@ || n == "ENDFUNC"@ {
        Some(SpecDirective::EndOptional)
    } else if n == "SETTING"@ {
        Some(SpecDirective::Setting(setting_pairs(t, p).0))
    } else if n == "ALIGN"@ {
        match parse_expr_spec(t, p) {
            Some((e, _)) => Some(SpecDirective::Align(e)),
            None => None,
        }
    } else if n == "STORAGE"@ {
        match parse_expr_spec(t, p) {
            None => None,
            Some((len, q)) => if !is_comma_at(t, q) {
                Some(SpecDirective::Storage { length: len, filler: None })
            } else {
                match parse_expr_spec(t, q + 1) {
                    None => None,
                    Some((f, _)) => Some(SpecDirective::Storage { length: len, filler: Some(f) }),
                }
            },
        }
    } else if n == "BYTE"@ || n == "DB"@ {
        match expr_list(t, p) {
            Some((es, _)) => Some(SpecDirective::Byte(es)),
            None => None,
        }
    } else if n == "WORD"@ || n == "DW"@ {
        match expr_list(t, p) {
            Some((es, _)) => Some(SpecDirective::Word(es)),
            None => None,
        }
    } else if n == "DWORD"@ || n == "DD"@ {
        match expr_list(t, p) {
            Some((es, _)) => Some(SpecDirective::Dword(es)),
            None => None,
        }
    } else if n == "TEXT"@ {
        Some(SpecDirective::Text(text_items(t, p).0))
    } else if n == "ENCODING"@ {
        match string_arg(t, p) {
            None => None,
            Some((ty, q)) => if !is_comma_at(t, q) {
                Some(SpecDirective::Encoding { enc_type: ty, case: None })
            } else {
                match string_arg(t, q + 1) {
                    None => None,
                    Some((c, _)) => Some(SpecDirective::Encoding { enc_type: ty, case: Some(c) }),
                }
            },
        }
    } else if n == "PRINT"@ {
        match print_args(t, p) {
            Some((a, _)) => Some(SpecDirective::Print(a)),
            None => None,
        }
    } else if n == "ERROR"@ {
        match print_args(t, p) {
            Some((a, _)) => Some(SpecDirective::Error(a)),
            None => None,
        }
    } else if n == "FILESIZE"@ {
        match string_arg(t, p) {
            Some((path, _)) => Some(SpecDirective::FileSize { name: Seq::empty(), path }),
            None => None,
        }
    } else {
        None
    }
}

/// Whether the characters `a` spell the literal `w`.
fn seq_is(a: &[char], w: &str) -> (r: bool)
    ensures
        r == (a@ == w@),
{
    let b = chars_of(w);
    chars_eq(a, &b)
}

fn parse_directive(name: &[char], toks: &[LocatedToken], p: usize) -> (r: AsmResult<Directive>)
    requires
        p <= toks@.len(),
    ensures
        r matches Ok(d) ==> directive_spec(name@, tok_seq(toks@), p as int) == Some(d.spec_view()),
        r is Err ==> directive_spec(name@, tok_seq(toks@), p as int) is None,
        !known_directive(name@) ==> (r matches Err(e) && e.message@ == "Unknown directive: ."@ + name@),
        r matches Err(e) ==> directive_error(name@, tok_seq(toks@), p as int, e),
{
    let _len = toks.len();
    if seq_is(name, "MACRO") {
        let mname = match ident_at_exec(toks, p) {
            Some(n) => n.clone(),
            None => {
                proof {
                    reveal_strlit("MACRO");
                    reveal_strlit("VAR");
                    assert("MACRO"@.len() != "VAR"@.len());
                }
                return Err(AsmError::new("Expected macro name"));
            },
        };
        let hp = open_paren_at(toks, p + 1);
        let q = if hp { p + 2 } else { p + 1 };
        let (params, _r) = parse_macro_params_tokens(toks, q, hp);
        Ok(Directive::MacroDef { name: mname, params, body_start: true })
    } else if seq_is(name, "VAR") {
        // `Name .var value` is read by the line parser; `.var` alone is not.
        if ident_at_exec(toks, p).is_some() {
            let (_e, _n) = parse_expr_from(toks, p + 1)?;
            Err(AsmError::new("INTERNAL_VAR_DEF"))
        } else {
            Err(AsmError::new("Expected variable name after .var"))
        }
    } else if seq_is(name, "ORG") {
        let (e, _n) = parse_expr_from(toks, p)?;
        Ok(Directive::Org(e))
    } else if seq_is(name, "INCLUDE") {
        let (path, _q) = parse_string_arg(toks, p)?;
        Ok(Directive::Include(path))
    } else if seq_is(name, "INCBIN") {
        let (path, q) = parse_string_arg(toks, p)?;
        if comma_at(toks, q) {
            let (o, n) = parse_expr_from(toks, q + 1)?;
            let q2 = q + 1 + n;
            if comma_at(toks, q2) {
                let (l, _m) = parse_expr_from(toks, q2 + 1)?;
                Ok(Directive::IncBin { path, offset: Some(o), length: Some(l) })
            } else {
                Ok(Directive::IncBin { path, offset: Some(o), length: None })
            }
        } else {
            Ok(Directive::IncBin { path, offset: None, length: None })
        }
    } else if seq_is(name, "ENDMACRO") {
        Ok(Directive::EndMacro)
    } else if seq_is(name, "IF") {
        let (e, _n) = parse_expr_from(toks, p)?;
        Ok(Directive::If(e))
    } else if seq_is(name, "ENDIF") {
        Ok(Directive::EndIf)
    } else if seq_is(name, "LOOP") {
        let (e, _n) = parse_expr_from(toks, p)?;
        Ok(Directive::Loop(e))
    } else if seq_is(name, "ENDLOOP") || seq_is(name, "ENDL") {
        Ok(Directive::EndLoop)
    } else if seq_is(name, "OPTIONAL") || seq_is(name, "OPT") || seq_is(name, "FUNCTION") || seq_is(
        name,
        "FUNC",
    ) {
        Ok(Directive::Optional)
    } else if seq_is(name, "ENDOPTIONAL") || seq_is(name, "ENDOPT") || seq_is(name, "ENDFUNCTION")
        || seq_is(name, "ENDFUNC") {
        Ok(Directive::EndOptional)
    } else if seq_is(name, "SETTING") {
        let (pairs, _q) = parse_setting_pairs(toks, p);
        Ok(Directive::Setting(pairs))
    } else if seq_is(name, "ALIGN") {
        let (e, _n) = parse_expr_from(toks, p)?;
        Ok(Directive::Align(e))
    } else if seq_is(name, "STORAGE") {
        let (length, n) = parse_expr_from(toks, p)?;
        let q = p + n;
        if comma_at(toks, q) {
            let (f, _m) = parse_expr_from(toks, q + 1)?;
            Ok(Directive::Storage { length, filler: Some(f) })
        } else {
            Ok(Directive::Storage { length, filler: None })
        }
    } else if seq_is(name, "BYTE") || seq_is(name, "DB") {
        let (es, _q) = parse_expr_list(toks, p)?;
        Ok(Directive::Byte(es))
    } else if seq_is(name, "WORD") || seq_is(name, "DW") {
        let (es, _q) = parse_expr_list(toks, p)?;
        Ok(Directive::Word(es))
    } else if seq_is(name, "DWORD") || seq_is(name, "DD") {
        let (es, _q) = parse_expr_list(toks, p)?;
        Ok(Directive::Dword(es))
    } else if seq_is(name, "TEXT") {
        let (items, _q) = parse_text_items(toks, p);
        Ok(Directive::Text(items))
    } else if seq_is(name, "ENCODING") {
        let (ty, q) = parse_string_arg(toks, p)?;
        if comma_at(toks, q) {
            let (c, _r) = parse_string_arg(toks, q + 1)?;
            Ok(Directive::Encoding { enc_type: ty, case: Some(c) })
        } else {
            Ok(Directive::Encoding { enc_type: ty, case: None })
        }
    } else if seq_is(name, "PRINT") {
        let (args, _q) = parse_print_args(toks, p)?;
        Ok(Directive::Print(args))
    } else if seq_is(name, "ERROR") {
        let (args, _q) = parse_print_args(toks, p)?;
        Ok(Directive::Error(args))
    } else if seq_is(name, "FILESIZE") {
        let (path, _q) = parse_string_arg(toks, p)?;
        Ok(Directive::FileSize { name: String::new(), path })
    } else {
        let n = string_of(name);
        proof {
            reveal_strlit("");
        }
        Err(message_with_name("Unknown directive: .", n.as_str(), ""))
    }
}

// ---- instructions ----

/// Mnemonics whose first operand may be a condition code.
pub open spec fn conditional_mnemonic(m: Seq<char>) -> bool {
    m == "JP"@ || m == "CALL"@ || m == "RET"@ || m == "JNZ"@ || m == "JZ"@ || m == "JNC"@ || m == "JC"@
        || m == "JPO"@ || m == "JPE"@ || m == "JM"@ || m == "CNZ"@ || m == "CZ"@ || m == "CNC"@ || m
        == "CC"@ || m == "CPO"@ || m == "CPE"@ || m == "CM"@ || m == "RNZ"@ || m == "RZ"@ || m == "RNC"@
        || m == "RC"@ || m == "RPO"@ || m == "RPE"@ || m == "RM"@
}

/// Mnemonics whose value operand is 16 bits wide.
pub open spec fn imm16_mnemonic(m: Seq<char>) -> bool {
    m == "JMP"@ || m == "JNZ"@ || m == "JZ"@ || m == "JNC"@ || m == "JC"@ || m == "JPO"@ || m == "JPE"@
        || m == "JP"@ || m == "JM"@ || m == "CALL"@ || m == "CNZ"@ || m == "CZ"@ || m == "CNC"@ || m
        == "CC"@ || m == "CPO"@ || m == "CPE"@ || m == "CP"@ || m == "CM"@ || m == "LDA"@ || m == "STA"@
        || m == "LHLD"@ || m == "SHLD"@ || m == "LXI"@ || m == "LD"@
}

/// Whether operand `idx` of `m` is read as a register pair first
/// (so that `B`, `D`, `H` mean `BC`, `DE`, `HL`).
pub open spec fn regpair_operand(m: Seq<char>, idx: int) -> bool {
    idx == 0 && (m == "LXI"@ || m == "PUSH"@ || m == "POP"@ || m == "DAD"@ || m == "INX"@ || m
        == "DCX"@ || m == "STAX"@ || m == "LDAX"@)
}

/// For `LXI`, `PUSH`, `POP`, `DAD`, `INX`, `DCX`, `STAX` and `LDAX`, a
/// first operand `B`, `D` or `H` (in either case) reads as the register
/// pair BC, DE or HL.
pub proof fn law_pair_mnemonics_read_b_d_h_as_pairs(t: Seq<SpecToken>, p: int, m: Seq<char>, name: Seq<char>)
    requires
        0 <= p < t.len(),
        t[p] == SpecToken::Identifier(name),
        m == seq!['L', 'X', 'I'] || m == seq!['P', 'U', 'S', 'H'] || m == seq!['P', 'O', 'P'] || m == seq![
            'D',
            'A',
            'D',
        ] || m == seq!['I', 'N', 'X'] || m == seq!['D', 'C', 'X'] || m == seq!['S', 'T', 'A', 'X']
            || m == seq!['L', 'D', 'A', 'X'],
    ensures
        upper_seq(name) == seq!['B'] ==> operand_step(t, p, m, 0) == Some(
            Some((ParsedOperand::RegPair(RegisterPair::BC), None::<SpecExpr>, p + 1)),
        ),
        upper_seq(name) == seq!['D'] ==> operand_step(t, p, m, 0) == Some(
            Some((ParsedOperand::RegPair(RegisterPair::DE), None::<SpecExpr>, p + 1)),
        ),
        upper_seq(name) == seq!['H'] ==> operand_step(t, p, m, 0) == Some(
            Some((ParsedOperand::RegPair(RegisterPair::HL), None::<SpecExpr>, p + 1)),
        ),
{
    reveal_strlit("LXI");
    reveal_strlit("PUSH");
    reveal_strlit("POP");
    reveal_strlit("DAD");
    reveal_strlit("INX");
    reveal_strlit("DCX");
    reveal_strlit("STAX");
    reveal_strlit("LDAX");
    assert("STAX"@ =~= seq!['S', 'T', 'A', 'X']);
    assert("LDAX"@ =~= seq!['L', 'D', 'A', 'X']);
    assert("LXI"@ =~= seq!['L', 'X', 'I']);
    assert("PUSH"@ =~= seq!['P', 'U', 'S', 'H']);
    assert("POP"@ =~= seq!['P', 'O', 'P']);
    assert("DAD"@ =~= seq!['D', 'A', 'D']);
    assert("INX"@ =~= seq!['I', 'N', 'X']);
    assert("DCX"@ =~= seq!['D', 'C', 'X']);
    assert(regpair_operand(m, 0));
    assert(seq!['D'][0] != seq!['B'][0]);
    assert(seq!['D'].len() != seq!['B', 'C'].len());
    assert(seq!['H'][0] != seq!['B'][0]);
    assert(seq!['H'][0] != seq!['D'][0]);
    assert(seq!['H'].len() != seq!['B', 'C'].len());
    assert(seq!['H'].len() != seq!['D', 'E'].len());
}

/// For the register instructions `MOV`, `MVI`, `INR`, `DCR`, `ADD`, `SUB`
/// and `CMP`, a first operand `B`, `D` or `H` (in either case) reads as that
/// single register, not as a register pair.
pub proof fn law_register_mnemonics_read_b_d_h_as_registers(t: Seq<SpecToken>, p: int, m: Seq<char>, name: Seq<char>)
    requires
        0 <= p < t.len(),
        t[p] == SpecToken::Identifier(name),
        m == seq!['M', 'O', 'V'] || m == seq!['M', 'V', 'I'] || m == seq!['I', 'N', 'R'] || m == seq![
            'D',
            'C',
            'R',
        ] || m == seq!['A', 'D', 'D'] || m == seq!['S', 'U', 'B'] || m == seq!['C', 'M', 'P'],
    ensures
        upper_seq(name) == seq!['B'] ==> operand_step(t, p, m, 0) == Some(
            Some((ParsedOperand::Reg(Register::B), None::<SpecExpr>, p + 1)),
        ),
        upper_seq(name) == seq!['D'] ==> operand_step(t, p, m, 0) == Some(
            Some((ParsedOperand::Reg(Register::D), None::<SpecExpr>, p + 1)),
        ),
        upper_seq(name) == seq!['H'] ==> operand_step(t, p, m, 0) == Some(
            Some((ParsedOperand::Reg(Register::H), None::<SpecExpr>, p + 1)),
        ),
{
    reveal_strlit("LXI");
    reveal_strlit("PUSH");
    reveal_strlit("POP");
    reveal_strlit("DAD");
    reveal_strlit("INX");
    reveal_strlit("DCX");
    reveal_strlit("STAX");
    reveal_strlit("LDAX");
    assert("LXI"@ =~= seq!['L', 'X', 'I']);
    assert("PUSH"@ =~= seq!['P', 'U', 'S', 'H']);
    assert("POP"@ =~= seq!['P', 'O', 'P']);
    assert("DAD"@ =~= seq!['D', 'A', 'D']);
    assert("INX"@ =~= seq!['I', 'N', 'X']);
    assert("DCX"@ =~= seq!['D', 'C', 'X']);
    assert("STAX"@ =~= seq!['S', 'T', 'A', 'X']);
    assert("LDAX"@ =~= seq!['L', 'D', 'A', 'X']);
    assert(m.len() == 3);
    assert(m != "LXI"@ && m != "POP"@ && m != "DAD"@ && m != "INX"@ && m != "DCX"@) by {
        assert(m[0] == 'M' || m[0] == 'I' || m[0] == 'D' || m[0] == 'A' || m[0] == 'S' || m[0] == 'C');
        assert(m[0] == 'I' ==> m[2] == 'R');
        assert(m[0] == 'D' ==> m[1] == 'C' && m[2] == 'R');
    }
    assert(!regpair_operand(m, 0));
    assert(seq!['D'][0] != seq!['A'][0]);
    assert(seq!['D'][0] != seq!['B'][0]);
    assert(seq!['D'][0] != seq!['C'][0]);
    assert(seq!['B'][0] != seq!['A'][0]);
    assert(seq!['H'][0] != seq!['A'][0]);
    assert(seq!['H'][0] != seq!['B'][0]);
    assert(seq!['H'][0] != seq!['C'][0]);
    assert(seq!['H'][0] != seq!['D'][0]);
    assert(seq!['H'][0] != seq!['E'][0]);
}

/// The operand kind of an expression operand of `m`.
pub open spec fn imm_operand(m: Seq<char>) -> ParsedOperand {
    if imm16_mnemonic(m) {
        ParsedOperand::Imm16
    } else {
        ParsedOperand::Imm8
    }
}

/// One operand read at `p`: `None` on an error; `Some(None)` when the token
/// at `p` starts no operand; otherwise the operand, its expression if it
/// has one, and the position after it.
pub type OperandStep = Option<Option<(ParsedOperand, Option<SpecExpr>, int)>>;

pub open spec fn plain_operand(op: ParsedOperand, q: int) -> OperandStep {
    Some(Some((op, None, q)))
}

pub open spec fn expr_operand(t: Seq<SpecToken>, p: int, op: ParsedOperand) -> OperandStep {
    match parse_expr_spec(t, p) {
        Some((e, q)) => Some(Some((op, Some(e), q))),
        None => None,
    }
}

/// An operand that starts with the identifier `u` (upper case).
pub open spec fn ident_operand(t: Seq<SpecToken>, p: int, m: Seq<char>, n_ops: int, u: Seq<char>) -> OperandStep {
    if regpair_operand(m, n_ops) {
        match register_pair_of(u) {
            Some(rp) => plain_operand(ParsedOperand::RegPair(rp), p + 1),
            None => if u == seq!['M'] {
                plain_operand(ParsedOperand::Memory, p + 1)
            } else {
                expr_operand(t, p, imm_operand(m))
            },
        }
    } else {
        match register_of(u) {
            Some(r) => if u == seq!['C'] && conditional_mnemonic(m) && n_ops == 0 {
                plain_operand(ParsedOperand::Condition(Condition::C), p + 1)
            } else {
                plain_operand(ParsedOperand::Reg(r), p + 1)
            },
            None => if u == seq!['M'] {
                plain_operand(ParsedOperand::Memory, p + 1)
            } else {
                match condition_of(u) {
                    Some(cc) => if conditional_mnemonic(m) && n_ops == 0 {
                        plain_operand(ParsedOperand::Condition(cc), p + 1)
                    } else {
                        expr_operand(t, p, imm_operand(m))
                    },
                    None => match register_pair_of(u) {
                        Some(rp) => plain_operand(ParsedOperand::RegPair(rp), p + 1),
                        None => expr_operand(t, p, imm_operand(m)),
                    },
                }
            },
        }
    }
}

/// An operand that starts with `(`: `(HL)`, `(BC)`, `(DE)`, `(SP)`, or a
/// parenthesized address.
pub open spec fn paren_operand(t: Seq<SpecToken>, p: int) -> OperandStep {
    match ident_at(t, p + 1) {
        Some(name) => {
            let u = upper_seq(name);
            let closed = is_kind_at(t, p + 2, SpecToken::CloseParen);
            if u == "HL"@ && closed {
                plain_operand(ParsedOperand::Memory, p + 3)
            } else if (u == "BC"@ || u == "DE"@ || u == "SP"@) && closed {
                match register_pair_of(u) {
                    Some(rp) => plain_operand(ParsedOperand::RegPair(rp), p + 3),
                    None => expr_operand(t, p, ParsedOperand::Imm16),
                }
            } else {
                expr_operand(t, p, ParsedOperand::Mem16)
            }
        },
        None => expr_operand(t, p, ParsedOperand::Mem16),
    }
}

/// An operand that starts with a number, a character, an operator or `@`:
/// an expression; for `RST` the vector number 0..7.
pub open spec fn value_operand(t: Seq<SpecToken>, p: int, m: Seq<char>) -> OperandStep {
    match parse_expr_spec(t, p) {
        None => None,
        Some((e, q)) => if m == "RST"@ {
            match e {
                SpecExpr::Number(n) => if 0 <= n <= 7 {
                    Some(Some((ParsedOperand::RstNum(n as u8), Some(e), q)))
                } else {
                    None
                },
                _ => Some(Some((ParsedOperand::RstNum(0), Some(e), q))),
            }
        } else {
            Some(Some((imm_operand(m), Some(e), q)))
        },
    }
}

pub open spec fn operand_step(t: Seq<SpecToken>, p: int, m: Seq<char>, n_ops: int) -> OperandStep {
    if p < 0 || p >= t.len() {
        Some(None)
    } else {
        match t[p] {
            SpecToken::Identifier(name) => ident_operand(t, p, m, n_ops, upper_seq(name)),
            SpecToken::OpenParen => paren_operand(t, p),
            SpecToken::Number(_) => value_operand(t, p, m),
            SpecToken::CharLiteral(_) => value_operand(t, p, m),
            SpecToken::Operator(_) => value_operand(t, p, m),
            SpecToken::At => value_operand(t, p, m),
            _ => Some(None),
        }
    }
}

/// The operands of `m` from `p`, after the operands `ops` with expressions
/// `es` already read.
pub open spec fn operands_from(
    t: Seq<SpecToken>,
    p: int,
    m: Seq<char>,
    ops: Seq<ParsedOperand>,
    es: Seq<SpecExpr>,
) -> Option<(Seq<ParsedOperand>, Seq<SpecExpr>)>
    decreases t.len() - p,
{
    if p < 0 || p >= t.len() {
        Some((ops, es))
    } else {
        match operand_step(t, p, m, ops.len() as int) {
            None => None,
            Some(None) => Some((ops, es)),
            Some(Some((op, e, q))) => {
                let ops2 = ops.push(op);
                let es2 = match e {
                    Some(x) => es.push(x),
                    None => es,
                };
                if q <= p || q > t.len() {
                    None
                } else if is_comma_at(t, q) {
                    operands_from(t, q + 1, m, ops2, es2)
                } else {
                    Some((ops2, es2))
                }
            },
        }
    }
}

/// An instruction (or a bare `DB` / `DW` / `DD`) at `p`.
pub open spec fn instruction_spec(t: Seq<SpecToken>, p: int) -> Option<SpecLine> {
    match ident_at(t, p) {
        None => None,
        Some(name) => {
            let u = upper_seq(name);
            if u == "DB"@ {
                match expr_list(t, p + 1) {
                    Some((es, _)) => Some(SpecLine::Directive(SpecDirective::Byte(es))),
                    None => None,
                }
            } else if u == "DW"@ {
                match expr_list(t, p + 1) {
                    Some((es, _)) => Some(SpecLine::Directive(SpecDirective::Word(es))),
                    None => None,
                }
            } else if u == "DD"@ {
                match expr_list(t, p + 1) {
                    Some((es, _)) => Some(SpecLine::Directive(SpecDirective::Dword(es))),
                    None => None,
                }
            } else if u == "EQU"@ {
                None
            } else {
                match operands_from(t, p + 1, u, Seq::empty(), Seq::empty()) {
                    Some((ops, es)) => Some(SpecLine::Instruction { mnemonic: u, operands: ops, expressions: es }),
                    None => None,
                }
            }
        },
    }
}

fn is_conditional_mnemonic(m: &[char]) -> (r: bool)
    ensures
        r == conditional_mnemonic(m@),
{
    seq_is(m, "JP") || seq_is(m, "CALL") || seq_is(m, "RET") || seq_is(m, "JNZ") || seq_is(m, "JZ")
        || seq_is(m, "JNC") || seq_is(m, "JC") || seq_is(m, "JPO") || seq_is(m, "JPE") || seq_is(m, "JM")
        || seq_is(m, "CNZ") || seq_is(m, "CZ") || seq_is(m, "CNC") || seq_is(m, "CC") || seq_is(m, "CPO")
        || seq_is(m, "CPE") || seq_is(m, "CM") || seq_is(m, "RNZ") || seq_is(m, "RZ") || seq_is(m, "RNC")
        || seq_is(m, "RC") || seq_is(m, "RPO") || seq_is(m, "RPE") || seq_is(m, "RM")
}

fn needs_imm16(m: &[char]) -> (r: bool)
    ensures
        r == imm16_mnemonic(m@),
{
    seq_is(m, "JMP") || seq_is(m, "JNZ") || seq_is(m, "JZ") || seq_is(m, "JNC") || seq_is(m, "JC")
        || seq_is(m, "JPO") || seq_is(m, "JPE") || seq_is(m, "JP") || seq_is(m, "JM") || seq_is(m, "CALL")
        || seq_is(m, "CNZ") || seq_is(m, "CZ") || seq_is(m, "CNC") || seq_is(m, "CC") || seq_is(m, "CPO")
        || seq_is(m, "CPE") || seq_is(m, "CP") || seq_is(m, "CM") || seq_is(m, "LDA") || seq_is(m, "STA")
        || seq_is(m, "LHLD") || seq_is(m, "SHLD") || seq_is(m, "LXI") || seq_is(m, "LD")
}

fn expects_regpair(m: &[char], idx: usize) -> (r: bool)
    ensures
        r == regpair_operand(m@, idx as int),
{
    if idx != 0 {
        return false;
    }
    seq_is(m, "LXI") || seq_is(m, "PUSH") || seq_is(m, "POP") || seq_is(m, "DAD") || seq_is(m, "INX")
        || seq_is(m, "DCX") || seq_is(m, "STAX") || seq_is(m, "LDAX")
}

fn imm_operand_of(m: &[char]) -> (r: ParsedOperand)
    ensures
        r == imm_operand(m@),
{
    if needs_imm16(m) {
        ParsedOperand::Imm16
    } else {
        ParsedOperand::Imm8
    }
}

/// The exec form of an operand step: the operand, its expression, and the
/// position after it.
type ExecStep = Option<(ParsedOperand, Option<Expr>, usize)>;

pub open spec fn step_view(s: Option<(ParsedOperand, Option<Expr>, usize)>) -> Option<(ParsedOperand, Option<SpecExpr>, int)> {
    match s {
        Some((op, e, q)) => Some((op, opt_expr_view(e), q as int)),
        None => None,
    }
}

pub open spec fn step_end(s: Option<(ParsedOperand, Option<Expr>, usize)>) -> int {
    match s {
        Some((_, _, q)) => q as int,
        None => 0,
    }
}

fn expr_operand_exec(toks: &[LocatedToken], p: usize, op: ParsedOperand) -> (r: AsmResult<ExecStep>)
    requires
        p < toks@.len(),
    ensures
        r matches Ok(st) ==> expr_operand(tok_seq(toks@), p as int, op) == Some(step_view(st)) && st is Some
            && p < step_end(st) <= toks@.len(),
        r is Err ==> expr_operand(tok_seq(toks@), p as int, op) is None,
{
    let _len = toks.len();
    let (e, n) = parse_expr_from(toks, p)?;
    Ok(Some((op, Some(e), p + n)))
}

fn ident_operand_exec(toks: &[LocatedToken], p: usize, m: &[char], n_ops: usize, name: &String) -> (r: AsmResult<
    ExecStep,
>)
    requires
        p < toks@.len(),
    ensures
        r matches Ok(st) ==> ident_operand(tok_seq(toks@), p as int, m@, n_ops as int, upper_seq(name@))
            == Some(step_view(st)) && st is Some && p < step_end(st) <= toks@.len(),
        r is Err ==> ident_operand(tok_seq(toks@), p as int, m@, n_ops as int, upper_seq(name@)) is None,
{
    let _len = toks.len();
    let u = upper_key_of(name.as_str());
    let us = string_of(&u);
    if expects_regpair(m, n_ops) {
        match RegisterPair::from_name(us.as_str()) {
            Some(rp) => Ok(Some((ParsedOperand::RegPair(rp), None, p + 1))),
            None => if eq_chars1(&u, 'M') {
                Ok(Some((ParsedOperand::Memory, None, p + 1)))
            } else {
                expr_operand_exec(toks, p, imm_operand_of(m))
            },
        }
    } else {
        match Register::from_name(us.as_str()) {
            Some(r) => if eq_chars1(&u, 'C') && is_conditional_mnemonic(m) && n_ops == 0 {
                Ok(Some((ParsedOperand::Condition(Condition::C), None, p + 1)))
            } else {
                Ok(Some((ParsedOperand::Reg(r), None, p + 1)))
            },
            None => if eq_chars1(&u, 'M') {
                Ok(Some((ParsedOperand::Memory, None, p + 1)))
            } else {
                match Condition::from_name(us.as_str()) {
                    Some(cc) => if is_conditional_mnemonic(m) && n_ops == 0 {
                        Ok(Some((ParsedOperand::Condition(cc), None, p + 1)))
                    } else {
                        expr_operand_exec(toks, p, imm_operand_of(m))
                    },
                    None => match RegisterPair::from_name(us.as_str()) {
                        Some(rp) => Ok(Some((ParsedOperand::RegPair(rp), None, p + 1))),
                        None => expr_operand_exec(toks, p, imm_operand_of(m)),
                    },
                }
            },
        }
    }
}

fn paren_operand_exec(toks: &[LocatedToken], p: usize) -> (r: AsmResult<ExecStep>)
    requires
        p < toks@.len(),
    ensures
        r matches Ok(st) ==> paren_operand(tok_seq(toks@), p as int) == Some(step_view(st)) && st is Some
            && p < step_end(st) <= toks@.len(),
        r is Err ==> paren_operand(tok_seq(toks@), p as int) is None,
{
    let _len = toks.len();
    match ident_at_exec(toks, p + 1) {
        Some(name) => {
            let u = upper_key_of(name.as_str());
            let closed = close_paren_at(toks, p + 2);
            if seq_is(&u, "HL") && closed {
                Ok(Some((ParsedOperand::Memory, None, p + 3)))
            } else if (seq_is(&u, "BC") || seq_is(&u, "DE") || seq_is(&u, "SP")) && closed {
                let us = string_of(&u);
                match RegisterPair::from_name(us.as_str()) {
                    Some(rp) => Ok(Some((ParsedOperand::RegPair(rp), None, p + 3))),
                    None => expr_operand_exec(toks, p, ParsedOperand::Imm16),
                }
            } else {
                expr_operand_exec(toks, p, ParsedOperand::Mem16)
            }
        },
        None => expr_operand_exec(toks, p, ParsedOperand::Mem16),
    }
}

fn value_operand_exec(toks: &[LocatedToken], p: usize, m: &[char]) -> (r: AsmResult<ExecStep>)
    requires
        p < toks@.len(),
    ensures
        r matches Ok(st) ==> value_operand(tok_seq(toks@), p as int, m@) == Some(step_view(st)) && st is Some
            && p < step_end(st) <= toks@.len(),
        r is Err ==> value_operand(tok_seq(toks@), p as int, m@) is None,
{
    let _len = toks.len();
    let (e, n) = parse_expr_from(toks, p)?;
    let q = p + n;
    if seq_is(m, "RST") {
        let op = match &e {
            Expr::Number(v) => if 0 <= *v && *v <= 7 {
                ParsedOperand::RstNum(*v as u8)
            } else {
                return Err(AsmError::new("RST vector must be 0-7"));
            },
            _ => ParsedOperand::RstNum(0),
        };
        Ok(Some((op, Some(e), q)))
    } else {
        Ok(Some((imm_operand_of(m), Some(e), q)))
    }
}

fn operand_at(toks: &[LocatedToken], p: usize, m: &[char], n_ops: usize) -> (r: AsmResult<ExecStep>)
    requires
        p < toks@.len(),
    ensures
        r matches Ok(st) ==> operand_step(tok_seq(toks@), p as int, m@, n_ops as int) == Some(step_view(st))
            && (st matches Some((_, _, q)) ==> p < q <= toks@.len()),
        r is Err ==> operand_step(tok_seq(toks@), p as int, m@, n_ops as int) is None,
{
    match &toks[p].value {
        Token::Identifier(name) => ident_operand_exec(toks, p, m, n_ops, name),
        Token::OpenParen => paren_operand_exec(toks, p),
        Token::Number(_) => value_operand_exec(toks, p, m),
        Token::CharLiteral(_) => value_operand_exec(toks, p, m),
        Token::Operator(_) => value_operand_exec(toks, p, m),
        Token::At => value_operand_exec(toks, p, m),
        _ => Ok(None),
    }
}

fn parse_operands(toks: &[LocatedToken], p: usize, m: &[char]) -> (r: AsmResult<(Vec<ParsedOperand>, Vec<Expr>)>)
    requires
        p <= toks@.len(),
    ensures
        r matches Ok((ops, es)) ==> operands_from(tok_seq(toks@), p as int, m@, Seq::empty(), Seq::empty())
            == Some((ops@, exprs_view(es@))),
        r is Err ==> operands_from(tok_seq(toks@), p as int, m@, Seq::empty(), Seq::empty()) is None,
{
    let ghost t = tok_seq(toks@);
    let mut ops: Vec<ParsedOperand> = Vec::new();
    let mut es: Vec<Expr> = Vec::new();
    let mut pos = p;
    assert(exprs_view(es@) =~= Seq::<SpecExpr>::empty());
    loop
        invariant
            p <= pos <= toks@.len(),
            t == tok_seq(toks@),
            operands_from(t, p as int, m@, Seq::empty(), Seq::empty()) == operands_from(
                t,
                pos as int,
                m@,
                ops@,
                exprs_view(es@),
            ),
        decreases toks@.len() - pos,
    {
        if pos >= toks.len() {
            return Ok((ops, es));
        }
        let st = operand_at(toks, pos, m, ops.len())?;
        match st {
            None => { return Ok((ops, es)); },
            Some((op, e, q)) => {
                let ghost old_es = exprs_view(es@);
                let ghost ev = opt_expr_view(e);
                ops.push(op);
                match e {
                    Some(x) => {
                        es.push(x);
                        assert(exprs_view(es@) =~= old_es.push(ev->0));
                    },
                    None => {},
                }
                if comma_at(toks, q) {
                    pos = q + 1;
                } else {
                    return Ok((ops, es));
                }
            },
        }
    }
}

fn parse_instruction(toks: &[LocatedToken], p: usize) -> (r: AsmResult<ParsedLine>)
    requires
        p <= toks@.len(),
    ensures
        r matches Ok(l) ==> instruction_spec(tok_seq(toks@), p as int) == Some(l.spec_view()),
        r is Err ==> instruction_spec(tok_seq(toks@), p as int) is None,
{
    let _len = toks.len();
    let name = match ident_at_exec(toks, p) {
        Some(n) => n,
        None => { return Err(AsmError::new("Expected instruction mnemonic")); },
    };
    let u = upper_key_of(name.as_str());
    if seq_is(&u, "DB") {
        let (es, _q) = parse_expr_list(toks, p + 1)?;
        Ok(ParsedLine::Directive(Directive::Byte(es)))
    } else if seq_is(&u, "DW") {
        let (es, _q) = parse_expr_list(toks, p + 1)?;
        Ok(ParsedLine::Directive(Directive::Word(es)))
    } else if seq_is(&u, "DD") {
        let (es, _q) = parse_expr_list(toks, p + 1)?;
        Ok(ParsedLine::Directive(Directive::Dword(es)))
    } else if seq_is(&u, "EQU") {
        Err(AsmError::new("EQU without a name"))
    } else {
        let (operands, expressions) = parse_operands(toks, p + 1, &u)?;
        Ok(ParsedLine::Instruction { mnemonic: string_of(&u), operands, expressions })
    }
}

// ---- lines ----

/// Whether token `p` is the word `EQU` (in any case).
pub open spec fn is_equ_at(t: Seq<SpecToken>, p: int) -> bool {
    match ident_at(t, p) {
        Some(s) => upper_seq(s) == "EQU"@,
        None => false,
    }
}

/// Whether token `p` is the identifier `w` (in any case).
pub open spec fn is_word_at(t: Seq<SpecToken>, p: int, w: Seq<char>) -> bool {
    match ident_at(t, p) {
        Some(s) => upper_seq(s) == w,
        None => false,
    }
}

/// The labels at the start of a line from `p`: `name:` and `@name[:]`; a
/// name followed by `=` or `EQU` is a constant and ends the labels.
pub open spec fn labels_spec(t: Seq<SpecToken>, p: int) -> (Seq<SpecLine>, int)
    decreases t.len() - p,
{
    if p < 0 || p >= t.len() {
        (Seq::empty(), p)
    } else if is_kind_at(t, p, SpecToken::At) && ident_at(t, p + 1) is Some {
        let q = if is_kind_at(t, p + 2, SpecToken::Colon) { p + 3 } else { p + 2 };
        if is_op_at(t, q, "="@) {
            (Seq::empty(), p)
        } else {
            let (rest, r) = labels_spec(t, q);
            (seq![SpecLine::LocalLabel(ident_at(t, p + 1)->0)] + rest, r)
        }
    } else if ident_at(t, p) is Some && is_kind_at(t, p + 1, SpecToken::Colon) {
        if is_op_at(t, p + 2, "="@) || is_equ_at(t, p + 2) {
            (Seq::empty(), p)
        } else {
            let (rest, r) = labels_spec(t, p + 2);
            (seq![SpecLine::Label(ident_at(t, p)->0)] + rest, r)
        }
    } else {
        (Seq::empty(), p)
    }
}

/// An instruction at `p`, or nothing at the end of the line.
pub open spec fn instruction_or_nothing(t: Seq<SpecToken>, p: int) -> Option<Seq<SpecLine>> {
    if p < t.len() {
        match instruction_spec(t, p) {
            Some(l) => Some(seq![l]),
            None => None,
        }
    } else {
        Some(Seq::empty())
    }
}

/// A local constant `@name[:] = expr`, or else an instruction.
pub open spec fn local_or_instruction(t: Seq<SpecToken>, p: int) -> Option<Seq<SpecLine>> {
    if is_kind_at(t, p, SpecToken::At) && ident_at(t, p + 1) is Some {
        let c = if is_kind_at(t, p + 2, SpecToken::Colon) { p + 3 } else { p + 2 };
        if is_op_at(t, c, "="@) {
            match parse_expr_spec(t, c + 1) {
                Some((e, _)) => Some(seq![SpecLine::ConstDef { name: ident_at(t, p + 1)->0, is_local: true, expr: e }]),
                None => None,
            }
        } else {
            instruction_or_nothing(t, p)
        }
    } else {
        instruction_or_nothing(t, p)
    }
}

/// What follows the labels when it is no directive: a constant
/// `NAME[:] = expr` / `NAME[:] EQU expr`, `NAME .filesize "path"`,
/// `NAME .var expr`, a local constant, or an instruction.
pub open spec fn statement_spec(t: Seq<SpecToken>, p: int) -> Option<Seq<SpecLine>> {
    match ident_at(t, p) {
        Some(name) => {
            let op = if is_kind_at(t, p + 1, SpecToken::Colon) { p + 2 } else { p + 1 };
            if is_op_at(t, op, "="@) || is_equ_at(t, op) {
                match parse_expr_spec(t, op + 1) {
                    Some((e, _)) => Some(seq![SpecLine::ConstDef { name, is_local: false, expr: e }]),
                    None => None,
                }
            } else if is_kind_at(t, p + 1, SpecToken::Dot) && is_word_at(t, p + 2, "FILESIZE"@) {
                match string_arg(t, p + 3) {
                    Some((path, _)) => Some(seq![SpecLine::Directive(SpecDirective::FileSize { name, path })]),
                    None => None,
                }
            } else if is_kind_at(t, p + 1, SpecToken::Dot) && is_word_at(t, p + 2, "VAR"@) {
                match parse_expr_spec(t, p + 3) {
                    Some((e, _)) => Some(seq![SpecLine::VarDef { name, expr: e }]),
                    None => None,
                }
            } else {
                local_or_instruction(t, p)
            }
        },
        None => local_or_instruction(t, p),
    }
}

/// What follows the labels: a directive `.name ...`, or a statement.
pub open spec fn body_spec(t: Seq<SpecToken>, p: int) -> Option<Seq<SpecLine>> {
    if is_kind_at(t, p, SpecToken::Dot) && ident_at(t, p + 1) is Some {
        match directive_spec(upper_seq(ident_at(t, p + 1)->0), t, p + 2) {
            Some(d) => Some(seq![SpecLine::Directive(d)]),
            None => None,
        }
    } else if is_kind_at(t, p, SpecToken::Dot) {
        statement_spec(t, p + 1)
    } else {
        statement_spec(t, p)
    }
}

/// What the error says when directive `n` (upper case) with the tokens of
/// `t` from `p` on does not parse: an unknown name is named, and a `.macro`
/// or `.var` without a name says so.
pub open spec fn directive_error(n: Seq<char>, t: Seq<SpecToken>, p: int, err: AsmError) -> bool {
    &&& !known_directive(n) ==> err.message@ == "Unknown directive: ."@ + n
    &&& n == "MACRO"@ && ident_at(t, p) is None ==> err.message@ == "Expected macro name"@
    &&& n == "VAR"@ && ident_at(t, p) is None ==> err.message@ == "Expected variable name after .var"@
}

/// What the error says when the line of tokens `t` does not parse: where
/// its labels are followed by a directive, what `directive_error` says.
pub open spec fn line_error(t: Seq<SpecToken>, err: AsmError) -> bool {
    let p = labels_spec(t, 0).1;
    p < t.len() && is_kind_at(t, p, SpecToken::Dot) && ident_at(t, p + 1) is Some ==> directive_error(
        upper_seq(ident_at(t, p + 1)->0),
        t,
        p + 2,
        err,
    )
}

/// The parsed form of a line of tokens: its labels, then what follows them;
/// `[Empty]` when that is nothing.
pub open spec fn line_spec(t: Seq<SpecToken>) -> Option<Seq<SpecLine>> {
    let (labels, p) = labels_spec(t, 0);
    let body = if p >= t.len() { Some(Seq::empty()) } else { body_spec(t, p) };
    match body {
        None => None,
        Some(b) => if labels.len() + b.len() == 0 {
            Some(seq![SpecLine::Empty])
        } else {
            Some(labels + b)
        },
    }
}

fn equ_at(toks: &[LocatedToken], p: usize) -> (r: bool)
    ensures
        r == is_equ_at(tok_seq(toks@), p as int),
{
    word_at(toks, p, "EQU")
}

fn word_at(toks: &[LocatedToken], p: usize, w: &str) -> (r: bool)
    ensures
        r == is_word_at(tok_seq(toks@), p as int, w@),
{
    match ident_at_exec(toks, p) {
        Some(s) => upper_is(s.as_str(), w),
        None => false,
    }
}

fn parse_labels(toks: &[LocatedToken], p: usize) -> (r: (Vec<ParsedLine>, usize))
    requires
        p <= toks@.len(),
    ensures
        labels_spec(tok_seq(toks@), p as int) == (lines_view(r.0@), r.1 as int),
        r.1 <= toks@.len(),
{
    let ghost t = tok_seq(toks@);
    let mut out: Vec<ParsedLine> = Vec::new();
    let mut pos = p;
    loop
        invariant
            pos <= toks@.len(),
            t == tok_seq(toks@),
            labels_spec(t, p as int) == (lines_view(out@) + labels_spec(t, pos as int).0, labels_spec(
                t,
                pos as int,
            ).1),
        decreases toks@.len() - pos,
    {
        if pos >= toks.len() {
            assert(lines_view(out@) + Seq::<SpecLine>::empty() =~= lines_view(out@));
            return (out, pos);
        }
        if at_at(toks, pos) && ident_at_exec(toks, pos + 1).is_some() {
            let name = ident_at_exec(toks, pos + 1).unwrap().clone();
            let q = if colon_at(toks, pos + 2) { pos + 3 } else { pos + 2 };
            if op_at(toks, q, "=") {
                assert(lines_view(out@) + Seq::<SpecLine>::empty() =~= lines_view(out@));
                return (out, pos);
            }
            let line = ParsedLine::LocalLabel(name);
            let ghost lv = line.spec_view();
            let ghost old_out = lines_view(out@);
            out.push(line);
            assert(lines_view(out@) =~= old_out.push(lv));
            assert(old_out + (seq![lv] + labels_spec(t, q as int).0) =~= lines_view(out@) + labels_spec(
                t,
                q as int,
            ).0);
            pos = q;
        } else if ident_at_exec(toks, pos).is_some() && colon_at(toks, pos + 1) {
            let name = ident_at_exec(toks, pos).unwrap().clone();
            if op_at(toks, pos + 2, "=") || equ_at(toks, pos + 2) {
                assert(lines_view(out@) + Seq::<SpecLine>::empty() =~= lines_view(out@));
                return (out, pos);
            }
            let line = ParsedLine::Label(name);
            let ghost lv = line.spec_view();
            let ghost old_out = lines_view(out@);
            out.push(line);
            assert(lines_view(out@) =~= old_out.push(lv));
            assert(old_out + (seq![lv] + labels_spec(t, pos + 2).0) =~= lines_view(out@) + labels_spec(
                t,
                pos + 2,
            ).0);
            pos = pos + 2;
        } else {
            assert(lines_view(out@) + Seq::<SpecLine>::empty() =~= lines_view(out@));
            return (out, pos);
        }
    }
}

fn one_line(l: ParsedLine) -> (r: Vec<ParsedLine>)
    ensures
        lines_view(r@) == seq![l.spec_view()],
{
    let mut v: Vec<ParsedLine> = Vec::new();
    v.push(l);
    assert(lines_view(v@) =~= seq![l.spec_view()]);
    v
}

fn instruction_or_nothing_exec(toks: &[LocatedToken], p: usize) -> (r: AsmResult<Vec<ParsedLine>>)
    requires
        p <= toks@.len(),
    ensures
        r matches Ok(v) ==> instruction_or_nothing(tok_seq(toks@), p as int) == Some(lines_view(v@)),
        r is Err ==> instruction_or_nothing(tok_seq(toks@), p as int) is None,
{
    if p < toks.len() {
        let l = parse_instruction(toks, p)?;
        Ok(one_line(l))
    } else {
        let v: Vec<ParsedLine> = Vec::new();
        assert(lines_view(v@) =~= Seq::<SpecLine>::empty());
        Ok(v)
    }
}

fn local_or_instruction_exec(toks: &[LocatedToken], p: usize) -> (r: AsmResult<Vec<ParsedLine>>)
    requires
        p <= toks@.len(),
    ensures
        r matches Ok(v) ==> local_or_instruction(tok_seq(toks@), p as int) == Some(lines_view(v@)),
        r is Err ==> local_or_instruction(tok_seq(toks@), p as int) is None,
{
    let _len = toks.len();
    if at_at(toks, p) && ident_at_exec(toks, p + 1).is_some() {
        let c = if colon_at(toks, p + 2) { p + 3 } else { p + 2 };
        if op_at(toks, c, "=") {
            let name = ident_at_exec(toks, p + 1).unwrap().clone();
            let (e, _n) = parse_expr_from(toks, c + 1)?;
            return Ok(one_line(ParsedLine::ConstDef { name, is_local: true, expr: e }));
        }
    }
    instruction_or_nothing_exec(toks, p)
}

fn statement_exec(toks: &[LocatedToken], p: usize) -> (r: AsmResult<Vec<ParsedLine>>)
    requires
        p <= toks@.len(),
    ensures
        r matches Ok(v) ==> statement_spec(tok_seq(toks@), p as int) == Some(lines_view(v@)),
        r is Err ==> statement_spec(tok_seq(toks@), p as int) is None,
{
    let _len = toks.len();
    match ident_at_exec(toks, p) {
        Some(n) => {
            let name = n.clone();
            let op = if colon_at(toks, p + 1) { p + 2 } else { p + 1 };
            if op_at(toks, op, "=") || equ_at(toks, op) {
                let (e, _n) = parse_expr_from(toks, op + 1)?;
                Ok(one_line(ParsedLine::ConstDef { name, is_local: false, expr: e }))
            } else if dot_at(toks, p + 1) && word_at(toks, p + 2, "FILESIZE") {
                let (path, _q) = parse_string_arg(toks, p + 3)?;
                Ok(one_line(ParsedLine::Directive(Directive::FileSize { name, path })))
            } else if dot_at(toks, p + 1) && word_at(toks, p + 2, "VAR") {
                let (e, _n) = parse_expr_from(toks, p + 3)?;
                Ok(one_line(ParsedLine::VarDef { name, expr: e }))
            } else {
                local_or_instruction_exec(toks, p)
            }
        },
        None => local_or_instruction_exec(toks, p),
    }
}

/// Parses one tokenized line into its labels and what follows them: a
/// directive, a constant or variable definition, or an instruction.
pub fn parse_line(tokens: &[LocatedToken], cpu_mode: CpuMode) -> (r: AsmResult<Vec<ParsedLine>>)
    ensures
        r matches Ok(v) ==> line_spec(tok_seq(tokens@)) == Some(lines_view(v@)),
        r is Err ==> line_spec(tok_seq(tokens@)) is None,
        r matches Err(e) ==> line_error(tok_seq(tokens@), e),
{
    let _len = tokens.len();
    let (mut results, pos) = parse_labels(tokens, 0);
    let ghost labels = lines_view(results@);
    let body = if pos >= tokens.len() {
        let v: Vec<ParsedLine> = Vec::new();
        assert(lines_view(v@) =~= Seq::<SpecLine>::empty());
        v
    } else if dot_at(tokens, pos) && ident_at_exec(tokens, pos + 1).is_some() {
        let name = ident_at_exec(tokens, pos + 1).unwrap();
        let upper = upper_key_of(name.as_str());
        let d = match parse_directive(&upper, tokens, pos + 2) {
            Ok(d) => d,
            Err(e) => { return Err(e); },
        };
        one_line(ParsedLine::Directive(d))
    } else if dot_at(tokens, pos) {
        statement_exec(tokens, pos + 1)?
    } else {
        statement_exec(tokens, pos)?
    };
    let ghost bv = lines_view(body@);
    let mut body = body;
    results.append(&mut body);
    assert(lines_view(results@) =~= labels + bv);
    if results.len() == 0 {
        return Ok(one_line(ParsedLine::Empty));
    }
    Ok(results)
}

} // verus!
