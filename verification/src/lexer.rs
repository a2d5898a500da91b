//! The tokenizer: one source line into a sequence of tokens.
//!
//! Numbers: decimal `42`, `$FF`, `0xFF`, `0FFh`, `%1010`, `0b1010`, `b1010`,
//! all with optional `_` separators; character literals `'A'`, `'\n'`;
//! string literals `"..."` with escapes; comments `;`, `//` and inline
//! `/* ... */`.

use vstd::prelude::*;
use crate::diagnostics::{AsmError, AsmResult, SourceLocation};
use crate::text::{chars_of, string_of_range, string_of, spec_is_space, is_space};

verus! {

broadcast use vstd::string::group_string_axioms;

/// A token of the assembly language.
#[derive(Debug, PartialEq)]
pub enum Token {
    Identifier(String),
    Number(i64),
    StringLiteral(String),
    CharLiteral(char),
    Operator(String),
    Comma,
    Colon,
    OpenParen,
    CloseParen,
    Dot,
    At,
    Newline,
    Eof,
}

/// A token and where it starts.
#[derive(Debug)]
pub struct LocatedToken {
    pub value: Token,
    pub line: usize,
    /// One-based column of the token's first character.
    pub col: usize,
}

/// The mathematical form of a token.
pub enum SpecToken {
    Identifier(Seq<char>),
    Number(i64),
    StringLiteral(Seq<char>),
    CharLiteral(char),
    Operator(Seq<char>),
    Comma,
    Colon,
    OpenParen,
    CloseParen,
    Dot,
    At,
    Newline,
    Eof,
}

impl Token {
    pub open spec fn spec_view(&self) -> SpecToken {
        match self {
            Token::Identifier(s) => SpecToken::Identifier(s@),
            Token::Number(n) => SpecToken::Number(*n),
            Token::StringLiteral(s) => SpecToken::StringLiteral(s@),
            Token::CharLiteral(c) => SpecToken::CharLiteral(*c),
            Token::Operator(s) => SpecToken::Operator(s@),
            Token::Comma => SpecToken::Comma,
            Token::Colon => SpecToken::Colon,
            Token::OpenParen => SpecToken::OpenParen,
            Token::CloseParen => SpecToken::CloseParen,
            Token::Dot => SpecToken::Dot,
            Token::At => SpecToken::At,
            Token::Newline => SpecToken::Newline,
            Token::Eof => SpecToken::Eof,
        }
    }
}

// ---- character classes ----

pub open spec fn is_dec(c: char) -> bool {
    '0' <= c && c <= '9'
}

pub open spec fn is_letter(c: char) -> bool {
    ('a' <= c && c <= 'z') || ('A' <= c && c <= 'Z')
}

pub open spec fn is_word_char(c: char) -> bool {
    is_letter(c) || is_dec(c) || c == '_'
}

/// Value of a digit character in bases up to 16 (letters either case).
pub open spec fn digit_val(c: char) -> int {
    if is_dec(c) {
        c as int - '0' as int
    } else if 'a' <= c && c <= 'f' {
        c as int - 'a' as int + 10
    } else if 'A' <= c && c <= 'F' {
        c as int - 'A' as int + 10
    } else {
        99
    }
}

pub open spec fn is_digit_of(c: char, base: int) -> bool {
    digit_val(c) < base
}

/// Every character is a digit of `base` or an `_` separator.
pub open spec fn all_digits(s: Seq<char>, base: int) -> bool {
    forall|i: int| 0 <= i < s.len() ==> (#[trigger] s[i] == '_' || is_digit_of(s[i], base))
}

pub open spec fn has_digit(s: Seq<char>) -> bool {
    exists|i: int| 0 <= i < s.len() && #[trigger] s[i] != '_'
}

/// The value of the digits of `s` in `base`, `_` separators skipped.
pub open spec fn num_val(s: Seq<char>, base: int) -> int
    decreases s.len(),
{
    if s.len() == 0 {
        0
    } else if s.last() == '_' {
        num_val(s.drop_last(), base)
    } else {
        num_val(s.drop_last(), base) * base + digit_val(s.last())
    }
}

/// The number that the digits of `s` spell in `base`, when they do and it fits in `i64`.
pub open spec fn digits_number(s: Seq<char>, base: int) -> Option<i64> {
    if all_digits(s, base) && has_digit(s) && num_val(s, base) <= i64::MAX {
        Some(num_val(s, base) as i64)
    } else {
        None
    }
}

/// End of the run of identifier characters that starts at `i`.
pub open spec fn run_end(s: Seq<char>, i: int) -> int
    decreases s.len() - i,
{
    if i < 0 || i >= s.len() || !is_word_char(s[i]) {
        i
    } else {
        run_end(s, i + 1)
    }
}

/// The number spelled by a word that starts with a decimal digit.
pub open spec fn number_word(w: Seq<char>) -> Option<i64> {
    if w.len() >= 2 && (w.last() == 'h' || w.last() == 'H') && all_digits(w.drop_last(), 16) {
        digits_number(w.drop_last(), 16)
    } else if w.len() > 2 && w[0] == '0' && (w[1] == 'x' || w[1] == 'X') {
        digits_number(w.skip(2), 16)
    } else if w.len() > 2 && w[0] == '0' && (w[1] == 'b' || w[1] == 'B') && all_digits(w.skip(2), 2) {
        digits_number(w.skip(2), 2)
    } else {
        digits_number(w, 10)
    }
}

/// A word such as `b1010`: a binary number written with a `b` prefix.
pub open spec fn is_b_binary(w: Seq<char>) -> bool {
    w.len() >= 2 && (w[0] == 'b' || w[0] == 'B') && all_digits(w.skip(1), 2) && has_digit(w.skip(1))
}

/// The character an escape `\c` stands for.
pub open spec fn unescape(c: char) -> char {
    if c == 'n' {
        '\n'
    } else if c == 't' {
        '\t'
    } else if c == 'r' {
        '\r'
    } else if c == '0' {
        '\0'
    } else {
        c
    }
}

/// The body of a string literal from `j` up to its closing quote, and the
/// index after that quote.
pub open spec fn string_body(s: Seq<char>, j: int) -> Option<(Seq<char>, int)>
    decreases s.len() - j,
{
    if j < 0 || j >= s.len() {
        None
    } else if s[j] == '"' {
        Some((Seq::empty(), j + 1))
    } else if s[j] == '\\' && j + 1 < s.len() {
        match string_body(s, j + 2) {
            Some((rest, e)) => Some((seq![unescape(s[j + 1])] + rest, e)),
            None => None,
        }
    } else {
        match string_body(s, j + 1) {
            Some((rest, e)) => Some((seq![s[j]] + rest, e)),
            None => None,
        }
    }
}

/// Index of the first `*/` at or after `j`, if any.
pub open spec fn comment_close(s: Seq<char>, j: int) -> Option<int>
    decreases s.len() - j,
{
    if j < 0 || j + 1 >= s.len() {
        None
    } else if s[j] == '*' && s[j + 1] == '/' {
        Some(j)
    } else {
        comment_close(s, j + 1)
    }
}

pub open spec fn two_char_op(a: char, b: char) -> bool {
    (a == '<' && b == '<') || (a == '>' && b == '>') || (a == '<' && b == '=') || (a == '>' && b == '=')
        || (a == '=' && b == '=') || (a == '!' && b == '=') || (a == '&' && b == '&') || (a == '|'
        && b == '|')
}

pub open spec fn one_char_op(a: char) -> bool {
    a == '+' || a == '-' || a == '*' || a == '/' || a == '%' || a == '&' || a == '|' || a == '^' || a
        == '~' || a == '!' || a == '<' || a == '>' || a == '='
}

/// Whether a token ends an operand (so that a following `%` is the modulo operator).
pub open spec fn ends_operand(t: SpecToken) -> bool {
    match t {
        SpecToken::Identifier(_) | SpecToken::Number(_) | SpecToken::CloseParen
        | SpecToken::CharLiteral(_) | SpecToken::StringLiteral(_) => true,
        _ => false,
    }
}

/// One step of the tokenizer at index `i`: `None` on a lexical error,
/// otherwise the token found (none for skipped text) and the index after it.
pub open spec fn next_token(s: Seq<char>, i: int, after_operand: bool) -> Option<(Option<SpecToken>, int)> {
    let c = s[i];
    let n = s.len() as int;
    if spec_is_space(c) {
        Some((None, i + 1))
    } else if c == ';' || (c == '/' && i + 1 < n && s[i + 1] == '/') {
        Some((None, n))
    } else if c == '/' && i + 1 < n && s[i + 1] == '*' {
        match comment_close(s, i + 2) {
            Some(j) => Some((None, j + 2)),
            None => Some((None, n)),
        }
    } else if is_dec(c) {
        let e = run_end(s, i);
        match number_word(s.subrange(i, e)) {
            Some(v) => Some((Some(SpecToken::Number(v)), e)),
            None => None,
        }
    } else if c == '$' {
        let e = run_end(s, i + 1);
        match digits_number(s.subrange(i + 1, e), 16) {
            Some(v) => Some((Some(SpecToken::Number(v)), e)),
            None => None,
        }
    } else if c == '%' && !after_operand && i + 1 < n && (s[i + 1] == '0' || s[i + 1] == '1') {
        let e = run_end(s, i + 1);
        match digits_number(s.subrange(i + 1, e), 2) {
            Some(v) => Some((Some(SpecToken::Number(v)), e)),
            None => None,
        }
    } else if is_letter(c) || c == '_' {
        let e = run_end(s, i);
        let w = s.subrange(i, e);
        if is_b_binary(w) {
            match digits_number(w.skip(1), 2) {
                Some(v) => Some((Some(SpecToken::Number(v)), e)),
                None => None,
            }
        } else {
            Some((Some(SpecToken::Identifier(w)), e))
        }
    } else if c == '\'' {
        if n - i > 3 && s[i + 1] == '\\' && s[i + 3] == '\'' {
            Some((Some(SpecToken::CharLiteral(unescape(s[i + 2]))), i + 4))
        } else if n - i > 2 && s[i + 1] != '\\' && s[i + 1] != '\'' && s[i + 2] == '\'' {
            Some((Some(SpecToken::CharLiteral(s[i + 1])), i + 3))
        } else {
            None
        }
    } else if c == '"' {
        match string_body(s, i + 1) {
            Some((body, e)) => Some((Some(SpecToken::StringLiteral(body)), e)),
            None => None,
        }
    } else if i + 1 < n && two_char_op(c, s[i + 1]) {
        Some((Some(SpecToken::Operator(seq![c, s[i + 1]])), i + 2))
    } else if one_char_op(c) {
        Some((Some(SpecToken::Operator(seq![c])), i + 1))
    } else if c == ',' {
        Some((Some(SpecToken::Comma), i + 1))
    } else if c == ':' {
        Some((Some(SpecToken::Colon), i + 1))
    } else if c == '(' {
        Some((Some(SpecToken::OpenParen), i + 1))
    } else if c == ')' {
        Some((Some(SpecToken::CloseParen), i + 1))
    } else if c == '.' {
        Some((Some(SpecToken::Dot), i + 1))
    } else if c == '@' {
        Some((Some(SpecToken::At), i + 1))
    } else {
        None
    }
}

/// The tokens of `s[i..]`, each with the index where it starts; `None` on a
/// lexical error.
pub open spec fn lex_from(s: Seq<char>, i: int, after_operand: bool) -> Option<Seq<(SpecToken, int)>>
    decreases s.len() - i,
{
    if i < 0 || i >= s.len() {
        Some(Seq::empty())
    } else {
        match next_token(s, i, after_operand) {
            None => None,
            Some((t, j)) => if j <= i || j > s.len() {
                None
            } else {
                match t {
                    None => lex_from(s, j, after_operand),
                    Some(tok) => match lex_from(s, j, ends_operand(tok)) {
                        Some(rest) => Some(seq![(tok, i)] + rest),
                        None => None,
                    },
                }
            },
        }
    }
}

/// The tokens of a whole line.
pub open spec fn lex(s: Seq<char>) -> Option<Seq<(SpecToken, int)>> {
    lex_from(s, 0, false)
}

// ---- executable pieces ----

pub fn is_dec_char(c: char) -> (r: bool)
    ensures
        r == is_dec(c),
{
    '0' <= c && c <= '9'
}

pub fn is_letter_char(c: char) -> (r: bool)
    ensures
        r == is_letter(c),
{
    ('a' <= c && c <= 'z') || ('A' <= c && c <= 'Z')
}

fn digit_value(c: char) -> (r: u64)
    ensures
        r as int == digit_val(c),
{
    if '0' <= c && c <= '9' {
        (c as u32 - '0' as u32) as u64
    } else if 'a' <= c && c <= 'f' {
        (c as u32 - 'a' as u32 + 10) as u64
    } else if 'A' <= c && c <= 'F' {
        (c as u32 - 'A' as u32 + 10) as u64
    } else {
        99
    }
}

fn find_run_end(s: &[char], i: usize) -> (e: usize)
    requires
        i <= s@.len(),
    ensures
        e as int == run_end(s@, i as int),
        i <= e <= s@.len(),
{
    let mut e = i;
    while e < s.len() && (is_letter_char(s[e]) || is_dec_char(s[e]) || s[e] == '_')
        invariant
            i <= e <= s@.len(),
            run_end(s@, e as int) == run_end(s@, i as int),
        decreases s@.len() - e,
    {
        e += 1;
    }
    e
}

proof fn lemma_num_val_nonneg(s: Seq<char>, base: int)
    requires
        all_digits(s, base),
        base >= 2,
    ensures
        num_val(s, base) >= 0,
    decreases s.len(),
{
    if s.len() > 0 {
        assert(all_digits(s.drop_last(), base)) by {
            assert forall|i: int| 0 <= i < s.drop_last().len() implies (#[trigger] s.drop_last()[i] == '_'
                || is_digit_of(s.drop_last()[i], base)) by {
                assert(s.drop_last()[i] == s[i]);
            }
        }
        lemma_num_val_nonneg(s.drop_last(), base);
        assert(s.last() == s[s.len() - 1]);
        if s.last() != '_' {
            assert(digit_val(s.last()) >= 0);
            assert(num_val(s.drop_last(), base) * base >= 0) by (nonlinear_arith)
                requires
                    num_val(s.drop_last(), base) >= 0,
                    base >= 2,
            ;
        }
    }
}

/// Extending a digit string never lowers its value.
proof fn lemma_num_val_grows(s: Seq<char>, k: int, base: int)
    requires
        all_digits(s, base),
        base >= 2,
        0 <= k <= s.len(),
    ensures
        num_val(s.take(k), base) <= num_val(s, base),
    decreases s.len() - k,
{
    if k < s.len() {
        let t = s.take(k + 1);
        assert(t.drop_last() == s.take(k));
        assert(all_digits(t, base)) by {
            assert forall|i: int| 0 <= i < t.len() implies (#[trigger] t[i] == '_' || is_digit_of(t[i], base)) by {
                assert(t[i] == s[i]);
            }
        }
        assert(all_digits(s.take(k), base)) by {
            assert forall|i: int| 0 <= i < s.take(k).len() implies (#[trigger] s.take(k)[i] == '_'
                || is_digit_of(s.take(k)[i], base)) by {
                assert(s.take(k)[i] == s[i]);
            }
        }
        lemma_num_val_nonneg(s.take(k), base);
        assert(t.last() == s[k]);
        if s[k] != '_' {
            assert(digit_val(s[k]) >= 0);
            assert(num_val(s.take(k), base) * base >= num_val(s.take(k), base)) by (nonlinear_arith)
                requires
                    num_val(s.take(k), base) >= 0,
                    base >= 2,
            ;
        }
        lemma_num_val_grows(s, k + 1, base);
    } else {
        assert(s.take(k) == s);
    }
}

/// The number that `s[from..to]` spells in `base`.
pub fn parse_digits(s: &[char], from: usize, to: usize, base: u64) -> (r: Option<i64>)
    requires
        from <= to <= s@.len(),
        base == 2 || base == 10 || base == 16,
    ensures
        r == digits_number(s@.subrange(from as int, to as int), base as int),
{
    let ghost w = s@.subrange(from as int, to as int);
    let mut v: u64 = 0;
    let mut seen = false;
    let mut i = from;
    let mut overflow = false;
    while i < to
        invariant
            from <= i <= to <= s@.len(),
            w == s@.subrange(from as int, to as int),
            base == 2 || base == 10 || base == 16,
            all_digits(w.take(i - from), base as int),
            !overflow ==> v as int == num_val(w.take(i - from), base as int),
            !overflow ==> v <= i64::MAX,
            overflow ==> num_val(w.take(i - from), base as int) > i64::MAX,
            seen == has_digit(w.take(i - from)),
        decreases to - i,
    {
        let c = s[i];
        let ghost t = w.take(i + 1 - from);
        assert(t.drop_last() == w.take(i - from));
        assert(t.last() == c);
        if c == '_' {
            assert(all_digits(t, base as int)) by {
                assert forall|j: int| 0 <= j < t.len() implies (#[trigger] t[j] == '_' || is_digit_of(t[j], base as int)) by {
                    if j < t.len() - 1 {
                        assert(t[j] == w.take(i - from)[j]);
                    }
                }
            }
            assert(has_digit(t) == has_digit(w.take(i - from))) by {
                if has_digit(t) {
                    let j = choose|j: int| 0 <= j < t.len() && #[trigger] t[j] != '_';
                    assert(w.take(i - from)[j] == t[j]);
                }
                if has_digit(w.take(i - from)) {
                    let j = choose|j: int| 0 <= j < w.take(i - from).len() && #[trigger] w.take(i - from)[j] != '_';
                    assert(w.take(i - from)[j] == t[j]);
                }
            }
        } else {
            let d = digit_value(c);
            if d >= base {
                proof {
                    assert(!all_digits(w, base as int)) by {
                        assert(w[i - from] == c);
                    }
                }
                return None;
            }
            assert(all_digits(t, base as int)) by {
                assert forall|j: int| 0 <= j < t.len() implies (#[trigger] t[j] == '_' || is_digit_of(t[j], base as int)) by {
                    if j < t.len() - 1 {
                        assert(t[j] == w.take(i - from)[j]);
                    }
                }
            }
            assert(has_digit(t)) by {
                assert(t[t.len() - 1] != '_');
            }
            seen = true;
            proof { lemma_num_val_nonneg(w.take(i - from), base as int); }
            if !overflow {
                if v > (0x7fff_ffff_ffff_ffffu64 - d) / base {
                    overflow = true;
                    proof {
                        assert(v * base + d > i64::MAX) by (nonlinear_arith)
                            requires
                                v as int > (0x7fff_ffff_ffff_ffff - d as int) / (base as int),
                                base >= 2,
                                d < base,
                        ;
                    }
                } else {
                    proof {
                        assert(v * base + d <= i64::MAX) by (nonlinear_arith)
                            requires
                                v as int <= (0x7fff_ffff_ffff_ffff - d as int) / (base as int),
                                d >= 0,
                                v >= 0,
                                base >= 2,
                                d < base,
                        ;
                    }
                    v = v * base + d;
                }
            } else {
                proof {
                    assert(num_val(w.take(i - from), base as int) * base as int + d as int > i64::MAX) by (nonlinear_arith)
                        requires
                            num_val(w.take(i - from), base as int) > i64::MAX,
                            base >= 2,
                            d >= 0,
                    ;
                }
            }
        }
        i += 1;
    }
    assert(w.take(to - from) == w);
    if overflow {
        return None;
    }
    if !seen {
        return None;
    }
    Some(v as i64)
}

/// Whether every character of `s[from..to]` is a digit of `base` or `_`.
fn check_all_digits(s: &[char], from: usize, to: usize, base: u64) -> (r: bool)
    requires
        from <= to <= s@.len(),
    ensures
        r == all_digits(s@.subrange(from as int, to as int), base as int),
{
    let ghost w = s@.subrange(from as int, to as int);
    let mut i = from;
    while i < to
        invariant
            from <= i <= to <= s@.len(),
            w == s@.subrange(from as int, to as int),
            forall|j: int| 0 <= j < i - from ==> (#[trigger] w[j] == '_' || is_digit_of(w[j], base as int)),
        decreases to - i,
    {
        if !(s[i] == '_' || digit_value(s[i]) < base) {
            assert(w[i - from] == s@[i as int]);
            return false;
        }
        i += 1;
    }
    true
}

fn check_has_digit(s: &[char], from: usize, to: usize) -> (r: bool)
    requires
        from <= to <= s@.len(),
    ensures
        r == has_digit(s@.subrange(from as int, to as int)),
{
    let ghost w = s@.subrange(from as int, to as int);
    let mut i = from;
    while i < to
        invariant
            from <= i <= to <= s@.len(),
            w == s@.subrange(from as int, to as int),
            forall|j: int| 0 <= j < i - from ==> #[trigger] w[j] == '_',
        decreases to - i,
    {
        if s[i] != '_' {
            assert(w[i - from] == s@[i as int]);
            return true;
        }
        i += 1;
    }
    false
}

fn number_word_exec(s: &[char], from: usize, to: usize) -> (r: Option<i64>)
    requires
        from < to <= s@.len(),
    ensures
        r == number_word(s@.subrange(from as int, to as int)),
{
    let ghost w = s@.subrange(from as int, to as int);
    let len = to - from;
    let last = s[to - 1];
    assert(w.last() == last);
    assert(w[0] == s@[from as int]);
    assert(len >= 2 ==> w[1] == s@[from + 1]);
    if len >= 2 && (last == 'h' || last == 'H') && check_all_digits(s, from, to - 1, 16) {
        assert(w.drop_last() == s@.subrange(from as int, to - 1));
        return parse_digits(s, from, to - 1, 16);
    }
    proof {
        if len >= 2 && (last == 'h' || last == 'H') {
            assert(w.drop_last() == s@.subrange(from as int, to - 1));
        }
    }
    if len > 2 && s[from] == '0' && (s[from + 1] == 'x' || s[from + 1] == 'X') {
        assert(w.skip(2) == s@.subrange(from + 2, to as int));
        return parse_digits(s, from + 2, to, 16);
    }
    if len > 2 && s[from] == '0' && (s[from + 1] == 'b' || s[from + 1] == 'B') && check_all_digits(
        s,
        from + 2,
        to,
        2,
    ) {
        assert(w.skip(2) == s@.subrange(from + 2, to as int));
        return parse_digits(s, from + 2, to, 2);
    }
    proof {
        if len > 2 && s[from as int] == '0' && (s[from + 1] == 'b' || s[from + 1] == 'B') {
            assert(w.skip(2) == s@.subrange(from + 2, to as int));
        }
        if len >= 2 && (last == 'h' || last == 'H') {
            assert(w.drop_last() == s@.subrange(from as int, to - 1));
        }
    }
    parse_digits(s, from, to, 10)
}

fn comment_close_exec(s: &[char], j: usize) -> (r: Option<usize>)
    requires
        j <= s@.len(),
    ensures
        r matches Some(k) ==> comment_close(s@, j as int) == Some(k as int) && k + 1 < s@.len() && j <= k,
        r is None ==> comment_close(s@, j as int) is None,
{
    let mut k = j;
    while s.len() > 0 && k < s.len() - 1
        invariant
            j <= k <= s@.len(),
            comment_close(s@, k as int) == comment_close(s@, j as int),
        decreases s@.len() - k,
    {
        if s[k] == '*' && s[k + 1] == '/' {
            return Some(k);
        }
        k += 1;
    }
    None
}

fn unescape_exec(c: char) -> (r: char)
    ensures
        r == unescape(c),
{
    if c == 'n' {
        '\n'
    } else if c == 't' {
        '\t'
    } else if c == 'r' {
        '\r'
    } else if c == '0' {
        '\0'
    } else {
        c
    }
}

proof fn lemma_string_body_end(s: Seq<char>, j: int)
    requires
        string_body(s, j) is Some,
    ensures
        j < string_body(s, j).unwrap().1 <= s.len(),
    decreases s.len() - j,
{
    if s[j] == '"' {
    } else if s[j] == '\\' && j + 1 < s.len() {
        lemma_string_body_end(s, j + 2);
    } else {
        lemma_string_body_end(s, j + 1);
    }
}

/// The body of the string literal whose opening quote is just before `j`.
fn string_body_exec(s: &[char], j: usize) -> (r: Option<(Vec<char>, usize)>)
    requires
        j <= s@.len(),
    ensures
        r matches Some((b, e)) ==> string_body(s@, j as int) == Some((b@, e as int)),
        r is None ==> string_body(s@, j as int) is None,
{
    let mut out: Vec<char> = Vec::new();
    let mut k = j;
    while k < s.len() && s[k] != '"'
        invariant
            j <= k <= s@.len(),
            string_body(s@, j as int) matches Some((b, e)) ==> (string_body(s@, k as int) matches Some((
                b2,
                e2,
            )) && b == out@ + b2 && e == e2),
            string_body(s@, j as int) is None ==> string_body(s@, k as int) is None,
        decreases s@.len() - k,
    {
        if s[k] == '\\' && k + 1 < s.len() {
            out.push(unescape_exec(s[k + 1]));
            proof {
                if let Some((b2, e2)) = string_body(s@, k as int) {
                    let (b3, e3) = string_body(s@, k + 2).unwrap();
                    assert(b2 == seq![unescape(s@[k + 1])] + b3);
                    assert(out@ + b3 =~= out@.drop_last() + b2);
                }
            }
            k += 2;
        } else {
            out.push(s[k]);
            proof {
                if let Some((b2, e2)) = string_body(s@, k as int) {
                    let (b3, e3) = string_body(s@, k + 1).unwrap();
                    assert(out@ + b3 =~= out@.drop_last() + b2);
                }
            }
            k += 1;
        }
    }
    if k >= s.len() {
        return None;
    }
    assert(out@ + Seq::<char>::empty() == out@);
    Some((out, k + 1))
}

proof fn lemma_run_end_bounds(s: Seq<char>, i: int)
    requires
        0 <= i <= s.len(),
    ensures
        i <= run_end(s, i) <= s.len(),
    decreases s.len() - i,
{
    if i < s.len() && is_word_char(s[i]) {
        lemma_run_end_bounds(s, i + 1);
    }
}

fn op_token(a: char, b: Option<char>) -> (t: Token)
    ensures
        b matches Some(bc) ==> t.spec_view() == SpecToken::Operator(seq![a, bc]),
        b is None ==> t.spec_view() == SpecToken::Operator(seq![a]),
{
    let mut v: Vec<char> = Vec::new();
    v.push(a);
    match b {
        Some(bc) => { v.push(bc); },
        None => {},
    }
    let s = string_of(&v);
    proof {
        match b {
            Some(bc) => { assert(v@ =~= seq![a, bc]); },
            None => { assert(v@ =~= seq![a]); },
        }
    }
    Token::Operator(s)
}

/// One step of the tokenizer (see `next_token`); `Err(())` on a lexical error.
fn next_token_exec(s: &[char], i: usize, after_operand: bool) -> (r: Result<(Option<Token>, usize), ()>)
    requires
        i < s@.len(),
    ensures
        r matches Ok((t, j)) ==> next_token(s@, i as int, after_operand) == Some((
            match t {
                Some(tok) => Some(tok.spec_view()),
                None => None::<SpecToken>,
            },
            j as int,
        )) && i < j <= s@.len(),
        r is Err ==> next_token(s@, i as int, after_operand) is None,
{
    let c = s[i];
    let n = s.len();
    if is_space(c) {
        return Ok((None, i + 1));
    }
    if c == ';' || (c == '/' && i + 1 < n && s[i + 1] == '/') {
        return Ok((None, n));
    }
    if c == '/' && i + 1 < n && s[i + 1] == '*' {
        match comment_close_exec(s, i + 2) {
            Some(k) => { return Ok((None, k + 2)); },
            None => { return Ok((None, n)); },
        }
    }
    if is_dec_char(c) {
        let e = find_run_end(s, i);
        proof {
            assert(is_word_char(c));
            lemma_run_end_bounds(s@, i + 1);
            assert(run_end(s@, i as int) == run_end(s@, i + 1));
        }
        match number_word_exec(s, i, e) {
            Some(v) => { return Ok((Some(Token::Number(v)), e)); },
            None => { return Err(()); },
        }
    }
    if c == '$' {
        let e = find_run_end(s, i + 1);
        match parse_digits(s, i + 1, e, 16) {
            Some(v) => {
                proof {
                    assert(has_digit(s@.subrange(i + 1, e as int)));
                    assert(e > i + 1);
                }
                return Ok((Some(Token::Number(v)), e));
            },
            None => { return Err(()); },
        }
    }
    if c == '%' && !after_operand && i + 1 < n && (s[i + 1] == '0' || s[i + 1] == '1') {
        let e = find_run_end(s, i + 1);
        proof {
            assert(is_word_char(s@[i + 1]));
            lemma_run_end_bounds(s@, i + 2);
            assert(run_end(s@, i + 1) == run_end(s@, i + 2));
        }
        match parse_digits(s, i + 1, e, 2) {
            Some(v) => { return Ok((Some(Token::Number(v)), e)); },
            None => { return Err(()); },
        }
    }
    if is_letter_char(c) || c == '_' {
        let e = find_run_end(s, i);
        proof {
            assert(is_word_char(c));
            lemma_run_end_bounds(s@, i + 1);
            assert(run_end(s@, i as int) == run_end(s@, i + 1));
        }
        let ghost w = s@.subrange(i as int, e as int);
        let is_b = e - i >= 2 && (c == 'b' || c == 'B') && check_all_digits(s, i + 1, e, 2)
            && check_has_digit(s, i + 1, e);
        proof {
            if e - i >= 2 {
                assert(w.skip(1) == s@.subrange(i + 1, e as int));
            }
        }
        if is_b {
            match parse_digits(s, i + 1, e, 2) {
                Some(v) => { return Ok((Some(Token::Number(v)), e)); },
                None => { return Err(()); },
            }
        }
        return Ok((Some(Token::Identifier(string_of_range(s, i, e))), e));
    }
    if c == '\'' {
        if n - i > 3 && s[i + 1] == '\\' && s[i + 3] == '\'' {
            return Ok((Some(Token::CharLiteral(unescape_exec(s[i + 2]))), i + 4));
        } else if n - i > 2 && s[i + 1] != '\\' && s[i + 1] != '\'' && s[i + 2] == '\'' {
            return Ok((Some(Token::CharLiteral(s[i + 1])), i + 3));
        } else {
            return Err(());
        }
    }
    if c == '"' {
        match string_body_exec(s, i + 1) {
            Some((body, e)) => {
                proof { lemma_string_body_end(s@, i + 1); }
                return Ok((Some(Token::StringLiteral(string_of(&body))), e));
            },
            None => { return Err(()); },
        }
    }
    if i + 1 < n {
        let d = s[i + 1];
        if (c == '<' && d == '<') || (c == '>' && d == '>') || (c == '<' && d == '=') || (c == '>' && d
            == '=') || (c == '=' && d == '=') || (c == '!' && d == '=') || (c == '&' && d == '&') || (c
            == '|' && d == '|') {
            return Ok((Some(op_token(c, Some(d))), i + 2));
        }
    }
    if c == '+' || c == '-' || c == '*' || c == '/' || c == '%' || c == '&' || c == '|' || c == '^' || c
        == '~' || c == '!' || c == '<' || c == '>' || c == '=' {
        return Ok((Some(op_token(c, None)), i + 1));
    }
    if c == ',' {
        return Ok((Some(Token::Comma), i + 1));
    }
    if c == ':' {
        return Ok((Some(Token::Colon), i + 1));
    }
    if c == '(' {
        return Ok((Some(Token::OpenParen), i + 1));
    }
    if c == ')' {
        return Ok((Some(Token::CloseParen), i + 1));
    }
    if c == '.' {
        return Ok((Some(Token::Dot), i + 1));
    }
    if c == '@' {
        return Ok((Some(Token::At), i + 1));
    }
    Err(())
}

/// The located tokens' spec form.
pub open spec fn located_view(toks: Seq<LocatedToken>) -> Seq<(SpecToken, int)> {
    Seq::new(toks.len(), |k: int| (toks[k].value.spec_view(), toks[k].col - 1))
}

fn ends_operand_exec(t: &Token) -> (r: bool)
    ensures
        r == ends_operand(t.spec_view()),
{
    match t {
        Token::Identifier(_) | Token::Number(_) | Token::CloseParen | Token::CharLiteral(_)
        | Token::StringLiteral(_) => true,
        _ => false,
    }
}

/// Tokenize a single line of assembly.
/// Fails, at the column where tokenizing stopped, exactly on the lines that
/// `lex` rejects; otherwise the tokens are those of `lex`, each at its line
/// and one-based column.
pub fn tokenize_line(text: &str, file: &str, line: usize) -> (r: AsmResult<Vec<LocatedToken>>)
    ensures
        r is Err <==> lex(text@) is None,
        r matches Ok(toks) ==> lex(text@) == Some(located_view(toks@)),
        r matches Ok(toks) ==> forall|k: int| 0 <= k < toks@.len() ==> #[trigger] toks@[k].line == line,
        r matches Err(e) ==> e.location matches Some(l) && l.file@ == file@ && l.line == line,
        r matches Err(e) ==> e.message@ == "Unexpected character or malformed literal"@,
{
    let s = chars_of(text);
    let mut toks: Vec<LocatedToken> = Vec::new();
    let mut i: usize = 0;
    let mut after = false;
    while i < s.len()
        invariant
            i <= s@.len(),
            s@ == text@,
            lex(s@) == match lex_from(s@, i as int, after) {
                Some(rest) => Some(located_view(toks@) + rest),
                None => None,
            },
            forall|k: int| 0 <= k < toks@.len() ==> #[trigger] toks@[k].line == line,
            forall|k: int| 0 <= k < toks@.len() ==> #[trigger] toks@[k].col >= 1,
        decreases s@.len() - i,
    {
        match next_token_exec(&s, i, after) {
            Ok((t, j)) => {
                match t {
                    Some(tok) => {
                        let now_after = ends_operand_exec(&tok);
                        let ghost tv = tok.spec_view();
                        let ghost old_toks = toks@;
                        toks.push(LocatedToken { value: tok, line, col: i + 1 });
                        proof {
                            assert(located_view(toks@) =~= located_view(old_toks) + seq![(tv, i as int)]);
                            match lex_from(s@, j as int, now_after) {
                                Some(rest) => {
                                    assert(located_view(old_toks) + (seq![(tv, i as int)] + rest) =~= located_view(toks@) + rest);
                                },
                                None => {},
                            }
                        }
                        after = now_after;
                    },
                    None => {},
                }
                i = j;
            },
            Err(()) => {
                let loc = SourceLocation { file: String::from_str(file), line, col: i + 1 };
                let e = AsmError::new("Unexpected character or malformed literal").with_location(loc);
                return Err(e);
            },
        }
    }
    proof {
        assert(located_view(toks@) + Seq::<(SpecToken, int)>::empty() == located_view(toks@));
    }
    Ok(toks)
}

} // verus!
