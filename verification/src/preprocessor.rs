//! The preprocessor: comment stripping, `.include` expansion, and macro
//! definitions, parameters, arguments and expansion.

use vstd::prelude::*;
use crate::diagnostics::{AsmError, AsmResult};
use crate::parser::{SpecParam, opt_string_view};
use crate::symbols::{MacroDef, MacroParam, SymbolTable};
use crate::text::{chars_of, to_unicode_upper, unicode_upper, chars_eq, fmt_dec, dec_digits, upper_seq, upper_vec, push_char, push_chars, string_of, spec_is_space, is_space, trim_seq, trim_vec,
    spec_is_ident_char, is_ident_char, starts_at, starts_with_at};

verus! {

broadcast use vstd::string::group_string_axioms;

/// A preprocessed source line with metadata
#[derive(Debug, Clone)]
pub struct SourceLine {
    pub file: String,
    pub line_num: usize,
    pub text: String,
    pub macro_context: Option<String>,
}

impl SourceLine {
    /// A field-by-field copy.
    pub fn copy(&self) -> (r: SourceLine)
        ensures
            r == *self,
    {
        SourceLine {
            file: self.file.clone(),
            line_num: self.line_num,
            text: self.text.clone(),
            macro_context: match &self.macro_context {
                Some(c) => Some(c.clone()),
                None => None,
            },
        }
    }
}

/// The lines of a source file as written, for the listing.
#[derive(Debug)]
pub struct OriginalSource {
    pub file: String,
    pub lines: Vec<String>,
}

// ---- block comments ----

/// Where a character scan stands: in code, inside a string or character
/// literal opened by the given quote, or inside a `/* */` comment.
#[derive(Clone, Copy, PartialEq, Eq, Structural)]
pub enum ScanMode {
    Code,
    Quoted(char),
    Comment,
}

pub open spec fn is_quote(c: char) -> bool {
    c == '"' || c == '\''
}

/// The text from position `i` on, with `/* ... */` comments removed except
/// for the line breaks inside them; literals are copied untouched.
pub open spec fn strip_block_from(s: Seq<char>, i: int, mode: ScanMode) -> Seq<char>
    decreases s.len() - i,
{
    if i < 0 || i >= s.len() {
        Seq::empty()
    } else {
        match mode {
            ScanMode::Code => if is_quote(s[i]) {
                seq![s[i]] + strip_block_from(s, i + 1, ScanMode::Quoted(s[i]))
            } else if s[i] == '/' && i + 1 < s.len() && s[i + 1] == '*' {
                strip_block_from(s, i + 2, ScanMode::Comment)
            } else {
                seq![s[i]] + strip_block_from(s, i + 1, ScanMode::Code)
            },
            ScanMode::Quoted(q) => if s[i] == '\\' && i + 1 < s.len() {
                seq![s[i], s[i + 1]] + strip_block_from(s, i + 2, mode)
            } else if s[i] == q {
                seq![s[i]] + strip_block_from(s, i + 1, ScanMode::Code)
            } else {
                seq![s[i]] + strip_block_from(s, i + 1, mode)
            },
            ScanMode::Comment => if s[i] == '*' && i + 1 < s.len() && s[i + 1] == '/' {
                strip_block_from(s, i + 2, ScanMode::Code)
            } else if s[i] == '\n' {
                seq!['\n'] + strip_block_from(s, i + 1, mode)
            } else {
                strip_block_from(s, i + 1, mode)
            },
        }
    }
}

/// Removes `/* ... */` comments outside string and character literals,
/// keeping the line breaks inside them so that line numbers stay correct.
pub fn strip_multiline_comments(content: &str) -> (r: String)
    ensures
        r@ == strip_block_from(content@, 0, ScanMode::Code),
{
    let chars = chars_of(content);
    let n = chars.len();
    let mut result = String::new();
    let mut i: usize = 0;
    let mut mode = ScanMode::Code;
    while i < n
        invariant
            n == chars@.len(),
            chars@ == content@,
            i <= n,
            strip_block_from(content@, 0, ScanMode::Code) == result@ + strip_block_from(content@, i as int, mode),
        decreases n - i,
    {
        let c = chars[i];
        let ghost before = result@;
        match mode {
            ScanMode::Code => {
                if c == '"' || c == '\'' {
                    push_char(&mut result, c);
                    mode = ScanMode::Quoted(c);
                    i += 1;
                } else if c == '/' && i + 1 < n && chars[i + 1] == '*' {
                    mode = ScanMode::Comment;
                    i += 2;
                } else {
                    push_char(&mut result, c);
                    i += 1;
                }
            },
            ScanMode::Quoted(q) => {
                if c == '\\' && i + 1 < n {
                    push_char(&mut result, c);
                    push_char(&mut result, chars[i + 1]);
                    i += 2;
                } else if c == q {
                    push_char(&mut result, c);
                    mode = ScanMode::Code;
                    i += 1;
                } else {
                    push_char(&mut result, c);
                    i += 1;
                }
            },
            ScanMode::Comment => {
                if c == '*' && i + 1 < n && chars[i + 1] == '/' {
                    mode = ScanMode::Code;
                    i += 2;
                } else if c == '\n' {
                    push_char(&mut result, '\n');
                    i += 1;
                } else {
                    i += 1;
                }
            },
        }
        proof {
            assert(before + (result@.subrange(before.len() as int, result@.len() as int) + strip_block_from(
                content@,
                i as int,
                mode,
            )) =~= result@ + strip_block_from(content@, i as int, mode));
        }
    }
    assert(result@ + Seq::<char>::empty() =~= result@);
    result
}

/// How many line breaks `s` holds.
pub open spec fn line_breaks(s: Seq<char>) -> nat
    decreases s.len(),
{
    if s.len() == 0 {
        0
    } else {
        (if s[0] == '\n' { 1nat } else { 0nat }) + line_breaks(s.drop_first())
    }
}

proof fn lemma_line_breaks_concat(a: Seq<char>, b: Seq<char>)
    ensures
        line_breaks(a + b) == line_breaks(a) + line_breaks(b),
    decreases a.len(),
{
    if a.len() > 0 {
        assert((a + b).drop_first() =~= a.drop_first() + b);
        lemma_line_breaks_concat(a.drop_first(), b);
    } else {
        assert(a + b =~= b);
    }
}

proof fn lemma_line_breaks_one(c: char)
    ensures
        line_breaks(seq![c]) == (if c == '\n' { 1nat } else { 0nat }),
{
    reveal_with_fuel(line_breaks, 2);
    assert(seq![c].drop_first() =~= Seq::<char>::empty());
}

proof fn lemma_strip_keeps_breaks_from(s: Seq<char>, i: int, mode: ScanMode)
    requires
        0 <= i <= s.len(),
    ensures
        line_breaks(strip_block_from(s, i, mode)) == line_breaks(s.subrange(i, s.len() as int)),
    decreases s.len() - i,
{
    let n = s.len() as int;
    if i < n {
        let t = s.subrange(i, n);
        assert(t.drop_first() =~= s.subrange(i + 1, n));
        assert(line_breaks(t) == (if s[i] == '\n' { 1nat } else { 0nat }) + line_breaks(s.subrange(i + 1, n)));
        if i + 1 < n {
            let t1 = s.subrange(i + 1, n);
            assert(t1.drop_first() =~= s.subrange(i + 2, n));
            assert(line_breaks(t1) == (if s[i + 1] == '\n' { 1nat } else { 0nat }) + line_breaks(s.subrange(i + 2, n)));
        }
        assert(seq![s[i]].drop_first() =~= Seq::<char>::empty());
        assert(seq!['\n'].drop_first() =~= Seq::<char>::empty());
        lemma_line_breaks_one(s[i]);
        lemma_line_breaks_one('\n');
        match mode {
            ScanMode::Code => if is_quote(s[i]) {
                lemma_strip_keeps_breaks_from(s, i + 1, ScanMode::Quoted(s[i]));
                lemma_line_breaks_concat(seq![s[i]], strip_block_from(s, i + 1, ScanMode::Quoted(s[i])));
                assert(strip_block_from(s, i, mode) =~= seq![s[i]] + strip_block_from(s, i + 1, ScanMode::Quoted(s[i])));
                assert(line_breaks(strip_block_from(s, i, mode)) == line_breaks(t));
            } else if s[i] == '/' && i + 1 < n && s[i + 1] == '*' {
                lemma_strip_keeps_breaks_from(s, i + 2, ScanMode::Comment);
                assert(line_breaks(strip_block_from(s, i, mode)) == line_breaks(t));
            } else {
                lemma_strip_keeps_breaks_from(s, i + 1, ScanMode::Code);
                lemma_line_breaks_concat(seq![s[i]], strip_block_from(s, i + 1, ScanMode::Code));
                assert(line_breaks(strip_block_from(s, i, mode)) == line_breaks(t));
            },
            ScanMode::Quoted(q) => if s[i] == '\\' && i + 1 < n {
                lemma_strip_keeps_breaks_from(s, i + 2, mode);
                lemma_line_breaks_concat(seq![s[i], s[i + 1]], strip_block_from(s, i + 2, mode));
                assert(seq![s[i], s[i + 1]] =~= seq![s[i]] + seq![s[i + 1]]);
                lemma_line_breaks_concat(seq![s[i]], seq![s[i + 1]]);
                lemma_line_breaks_one(s[i + 1]);
                assert(line_breaks(strip_block_from(s, i, mode)) == line_breaks(t));
            } else if s[i] == q {
                lemma_strip_keeps_breaks_from(s, i + 1, ScanMode::Code);
                lemma_line_breaks_concat(seq![s[i]], strip_block_from(s, i + 1, ScanMode::Code));
                assert(line_breaks(strip_block_from(s, i, mode)) == line_breaks(t));
            } else {
                lemma_strip_keeps_breaks_from(s, i + 1, mode);
                lemma_line_breaks_concat(seq![s[i]], strip_block_from(s, i + 1, mode));
                assert(line_breaks(strip_block_from(s, i, mode)) == line_breaks(t));
            },
            ScanMode::Comment => if s[i] == '*' && i + 1 < n && s[i + 1] == '/' {
                lemma_strip_keeps_breaks_from(s, i + 2, ScanMode::Code);
                assert(line_breaks(strip_block_from(s, i, mode)) == line_breaks(t));
            } else if s[i] == '\n' {
                lemma_strip_keeps_breaks_from(s, i + 1, mode);
                lemma_line_breaks_concat(seq!['\n'], strip_block_from(s, i + 1, mode));
                assert(line_breaks(strip_block_from(s, i, mode)) == line_breaks(t));
            } else {
                lemma_strip_keeps_breaks_from(s, i + 1, mode);
                assert(line_breaks(strip_block_from(s, i, mode)) == line_breaks(t));
            },
        }
    } else {
        assert(s.subrange(i, n) =~= Seq::<char>::empty());
    }
}

/// Removing block comments keeps every line break of the text, and adds
/// none, so each remaining line keeps its line number.
pub proof fn law_comment_stripping_keeps_line_numbers(content: Seq<char>)
    ensures
        line_breaks(strip_block_from(content, 0, ScanMode::Code)) == line_breaks(content),
{
    lemma_strip_keeps_breaks_from(content, 0, ScanMode::Code);
    assert(content.subrange(0, content.len() as int) =~= content);
}

// ---- line comments and `.include` ----

/// The text from position `i` on, cut at the first `;` or `//` outside a
/// literal; `quote` is the quote of the literal the scan is in, if any.
pub open spec fn strip_line_from(s: Seq<char>, i: int, quote: Option<char>) -> Seq<char>
    decreases s.len() - i,
{
    if i < 0 || i >= s.len() {
        Seq::empty()
    } else {
        match quote {
            None => if s[i] == ';' {
                Seq::empty()
            } else if s[i] == '/' && i + 1 < s.len() && s[i + 1] == '/' {
                Seq::empty()
            } else if is_quote(s[i]) {
                seq![s[i]] + strip_line_from(s, i + 1, Some(s[i]))
            } else {
                seq![s[i]] + strip_line_from(s, i + 1, None)
            },
            Some(q) => if s[i] == '\\' && i + 1 < s.len() {
                seq![s[i], s[i + 1]] + strip_line_from(s, i + 2, quote)
            } else if s[i] == q {
                seq![s[i]] + strip_line_from(s, i + 1, None)
            } else {
                seq![s[i]] + strip_line_from(s, i + 1, quote)
            },
        }
    }
}

/// The line cut at its `;` or `//` comment.
fn strip_single_line_comment(line: &[char]) -> (r: Vec<char>)
    ensures
        r@ == strip_line_from(line@, 0, None),
{
    let n = line.len();
    let mut result: Vec<char> = Vec::new();
    let mut i: usize = 0;
    let mut quote: Option<char> = None;
    while i < n
        invariant
            n == line@.len(),
            i <= n,
            strip_line_from(line@, 0, None) == result@ + strip_line_from(line@, i as int, quote),
        decreases n - i,
    {
        let c = line[i];
        let ghost before = result@;
        match quote {
            None => {
                if c == ';' || (c == '/' && i + 1 < n && line[i + 1] == '/') {
                    assert(result@ + Seq::<char>::empty() =~= result@);
                    return result;
                }
                if c == '"' || c == '\'' {
                    quote = Some(c);
                }
                result.push(c);
                i += 1;
            },
            Some(q) => {
                if c == '\\' && i + 1 < n {
                    result.push(c);
                    result.push(line[i + 1]);
                    i += 2;
                } else {
                    if c == q {
                        quote = None;
                    }
                    result.push(c);
                    i += 1;
                }
            },
        }
        proof {
            assert(before + (result@.subrange(before.len() as int, result@.len() as int) + strip_line_from(
                line@,
                i as int,
                quote,
            )) =~= result@ + strip_line_from(line@, i as int, quote));
        }
    }
    assert(result@ + Seq::<char>::empty() =~= result@);
    result
}

/// The characters `v[a..b]`.
fn sub_vec(v: &[char], a: usize, b: usize) -> (r: Vec<char>)
    requires
        a <= b <= v@.len(),
    ensures
        r@ == v@.subrange(a as int, b as int),
{
    let mut r: Vec<char> = Vec::new();
    let mut i = a;
    while i < b
        invariant
            a <= i <= b <= v@.len(),
            r@ == v@.subrange(a as int, i as int),
        decreases b - i,
    {
        r.push(v[i]);
        i += 1;
        assert(r@ =~= v@.subrange(a as int, i as int));
    }
    r
}

/// The path of an `.include "path"` (or `'path'`) line, if it is one.
pub open spec fn include_target(line: Seq<char>) -> Option<Seq<char>> {
    let t = trim_seq(strip_line_from(line, 0, None));
    if !starts_at(t, 0, ".include"@) && !starts_at(t, 0, ".INCLUDE"@) {
        None
    } else {
        let rest = trim_seq(t.subrange(8, t.len() as int));
        if rest.len() >= 2 && ((rest[0] == '"' && rest.last() == '"') || (rest[0] == '\'' && rest.last()
            == '\'')) {
            Some(rest.subrange(1, rest.len() - 1))
        } else {
            None
        }
    }
}

/// The quoted path of an `.include` directive on `line`, if the line is one.
pub fn parse_include_directive(line: &str) -> (r: Option<String>)
    ensures
        r matches Some(p) ==> include_target(line@) == Some(p@),
        r is None ==> include_target(line@) is None,
{
    proof {
        reveal_strlit(".include");
        reveal_strlit(".INCLUDE");
    }
    let chars = chars_of(line);
    let stripped = strip_single_line_comment(&chars);
    let t = trim_vec(&stripped);
    let lower = chars_of(".include");
    let upper = chars_of(".INCLUDE");
    if !starts_with_at(&t, 0, &lower) && !starts_with_at(&t, 0, &upper) {
        return None;
    }
    let tail = sub_vec(&t, 8, t.len());
    let rest = trim_vec(&tail);
    let n = rest.len();
    if n >= 2 && ((rest[0] == '"' && rest[n - 1] == '"') || (rest[0] == '\'' && rest[n - 1] == '\'')) {
        let inner = sub_vec(&rest, 1, n - 1);
        Some(string_of(&inner))
    } else {
        None
    }
}

// ---- lines ----

/// `s` without one trailing carriage return.
pub open spec fn without_cr(s: Seq<char>) -> Seq<char> {
    if s.len() > 0 && s.last() == '\r' {
        s.drop_last()
    } else {
        s
    }
}

/// The lines of `s` from position `i`, `cur` being the part of the current
/// line read so far: split at `\n`, a `\r` before the `\n` dropped, and no
/// empty line after a final line break.
pub open spec fn lines_from(s: Seq<char>, i: int, cur: Seq<char>) -> Seq<Seq<char>>
    decreases s.len() - i,
{
    if i < 0 || i >= s.len() {
        if cur.len() > 0 {
            seq![cur]
        } else {
            Seq::empty()
        }
    } else if s[i] == '\n' {
        seq![without_cr(cur)] + lines_from(s, i + 1, Seq::empty())
    } else {
        lines_from(s, i + 1, cur.push(s[i]))
    }
}

pub open spec fn text_lines(s: Seq<char>) -> Seq<Seq<char>> {
    lines_from(s, 0, Seq::empty())
}

/// Whether `v` holds the lines `ls` of file `file`, numbered from 1, outside
/// any macro.
pub open spec fn numbered_lines(v: Seq<SourceLine>, ls: Seq<Seq<char>>, file: Seq<char>) -> bool {
    &&& v.len() == ls.len()
    &&& forall|i: int|
        0 <= i < v.len() ==> (#[trigger] v[i]).text@ == ls[i] && v[i].file@ == file && v[i].line_num == i + 1
            && v[i].macro_context is None
}

/// Splits `content` into numbered source lines of `file_name`.
fn content_to_lines(content: &str, file_name: &str) -> (r: Vec<SourceLine>)
    ensures
        numbered_lines(r@, text_lines(content@), file_name@),
{
    let chars = chars_of(content);
    let n = chars.len();
    let mut out: Vec<SourceLine> = Vec::new();
    let mut cur: Vec<char> = Vec::new();
    let mut i: usize = 0;
    while i < n
        invariant
            n == chars@.len(),
            chars@ == content@,
            i <= n,
            out@.len() + cur@.len() <= i,
            forall|j: int|
                0 <= j < out@.len() ==> (#[trigger] out@[j]).file@ == file_name@ && out@[j].line_num == j + 1
                    && out@[j].macro_context is None,
            text_lines(content@) == Seq::new(out@.len(), |j: int| out@[j].text@) + lines_from(
                content@,
                i as int,
                cur@,
            ),
        decreases n - i,
    {
        let c = chars[i];
        if c == '\n' {
            let mut len = cur.len();
            if len > 0 && cur[len - 1] == '\r' {
                len = len - 1;
            }
            let text = string_of(&sub_vec(&cur, 0, len));
            assert(text@ =~= without_cr(cur@));
            let ghost old_texts = Seq::new(out@.len(), |j: int| out@[j].text@);
            let k = out.len();
            out.push(SourceLine {
                file: String::from_str(file_name),
                line_num: k + 1,
                text,
                macro_context: None,
            });
            assert(Seq::new(out@.len(), |j: int| out@[j].text@) =~= old_texts.push(text@));
            assert(old_texts + (seq![without_cr(cur@)] + lines_from(content@, i + 1, Seq::empty()))
                =~= Seq::new(out@.len(), |j: int| out@[j].text@) + lines_from(content@, i + 1, Seq::empty()));
            cur = Vec::new();
            assert(cur@ =~= Seq::<char>::empty());
        } else {
            cur.push(c);
        }
        i += 1;
    }
    if cur.len() > 0 {
        let ghost old_texts = Seq::new(out@.len(), |j: int| out@[j].text@);
        let k = out.len();
        out.push(SourceLine {
            file: String::from_str(file_name),
            line_num: k + 1,
            text: string_of(&cur),
            macro_context: None,
        });
        assert(Seq::new(out@.len(), |j: int| out@[j].text@) =~= old_texts.push(cur@));
    } else {
        assert(Seq::new(out@.len(), |j: int| out@[j].text@) + Seq::<Seq<char>>::empty() =~= Seq::new(
            out@.len(),
            |j: int| out@[j].text@,
        ));
    }
    assert(Seq::new(out@.len(), |j: int| out@[j].text@) =~= text_lines(content@));
    out
}

// ---- macro parameters ----

/// The comma-separated parts of `s` from position `i`, `cur` being the part
/// read so far (as `str::split(',')` gives them).
pub open spec fn split_commas(s: Seq<char>, i: int, cur: Seq<char>) -> Seq<Seq<char>>
    decreases s.len() - i,
{
    if i < 0 || i >= s.len() {
        seq![cur]
    } else if s[i] == ',' {
        seq![cur] + split_commas(s, i + 1, Seq::empty())
    } else {
        split_commas(s, i + 1, cur.push(s[i]))
    }
}

/// The first position at or after `i` that holds `c`.
pub open spec fn index_from(s: Seq<char>, i: int, c: char) -> Option<int>
    decreases s.len() - i,
{
    if i < 0 || i >= s.len() {
        None
    } else if s[i] == c {
        Some(i)
    } else {
        index_from(s, i + 1, c)
    }
}

/// A parameter written `name` or `name = default` (already trimmed).
pub open spec fn param_of(part: Seq<char>) -> SpecParam {
    match index_from(part, 0, '=') {
        Some(e) => SpecParam {
            name: trim_seq(part.subrange(0, e)),
            default: Some(trim_seq(part.subrange(e + 1, part.len() as int))),
        },
        None => SpecParam { name: part, default: None },
    }
}

/// The parameters of the non-empty trimmed parts, in order.
pub open spec fn params_of_parts(parts: Seq<Seq<char>>) -> Seq<SpecParam>
    decreases parts.len(),
{
    if parts.len() == 0 {
        Seq::empty()
    } else {
        let p = trim_seq(parts[0]);
        (if p.len() == 0 {
            Seq::<SpecParam>::empty()
        } else {
            seq![param_of(p)]
        }) + params_of_parts(parts.drop_first())
    }
}

/// The parameter list of a `.macro` line: comma-separated, optionally in
/// parentheses (a missing closing parenthesis is tolerated).
pub open spec fn macro_param_list(s: Seq<char>) -> Seq<SpecParam> {
    let t = trim_seq(s);
    if t.len() == 0 {
        Seq::empty()
    } else {
        let body = if t[0] == '(' && t.last() == ')' {
            t.subrange(1, t.len() - 1)
        } else if t[0] == '(' {
            t.subrange(1, t.len() as int)
        } else {
            t
        };
        params_of_parts(split_commas(body, 0, Seq::empty()))
    }
}

pub open spec fn macro_param_view(p: MacroParam) -> SpecParam {
    SpecParam { name: p.name@, default: opt_string_view(p.default) }
}

pub open spec fn macro_params_view(v: Seq<MacroParam>) -> Seq<SpecParam> {
    Seq::new(v.len(), |i: int| macro_param_view(v[i]))
}

fn split_commas_exec(s: &[char]) -> (r: Vec<Vec<char>>)
    ensures
        Seq::new(r@.len(), |i: int| r@[i]@) == split_commas(s@, 0, Seq::empty()),
{
    let mut parts: Vec<Vec<char>> = Vec::new();
    let mut cur: Vec<char> = Vec::new();
    let mut i: usize = 0;
    while i < s.len()
        invariant
            i <= s@.len(),
            split_commas(s@, 0, Seq::empty()) == Seq::new(parts@.len(), |j: int| parts@[j]@) + split_commas(
                s@,
                i as int,
                cur@,
            ),
        decreases s@.len() - i,
    {
        if s[i] == ',' {
            let ghost old_v = Seq::new(parts@.len(), |j: int| parts@[j]@);
            let ghost c = cur@;
            parts.push(cur);
            cur = Vec::new();
            assert(Seq::new(parts@.len(), |j: int| parts@[j]@) =~= old_v.push(c));
            assert(old_v + (seq![c] + split_commas(s@, i + 1, Seq::empty())) =~= Seq::new(
                parts@.len(),
                |j: int| parts@[j]@,
            ) + split_commas(s@, i + 1, cur@));
        } else {
            cur.push(s[i]);
        }
        i += 1;
    }
    let ghost old_v = Seq::new(parts@.len(), |j: int| parts@[j]@);
    let ghost c = cur@;
    parts.push(cur);
    assert(Seq::new(parts@.len(), |j: int| parts@[j]@) =~= old_v.push(c));
    parts
}

fn index_of(s: &[char], c: char) -> (r: Option<usize>)
    ensures
        r matches Some(i) ==> index_from(s@, 0, c) == Some(i as int) && i < s@.len(),
        r is None ==> index_from(s@, 0, c) is None,
{
    let mut i: usize = 0;
    while i < s.len()
        invariant
            i <= s@.len(),
            index_from(s@, 0, c) == index_from(s@, i as int, c),
        decreases s@.len() - i,
    {
        if s[i] == c {
            return Some(i);
        }
        i += 1;
    }
    None
}

/// Parses a macro parameter list: `a, b = 1, c` or `(a, b = 1, c)`.
pub fn parse_macro_params(s: &str) -> (r: Vec<MacroParam>)
    ensures
        macro_params_view(r@) == macro_param_list(s@),
{
    let chars = chars_of(s);
    let t = trim_vec(&chars);
    let mut params: Vec<MacroParam> = Vec::new();
    if t.len() == 0 {
        assert(macro_params_view(params@) =~= Seq::<SpecParam>::empty());
        return params;
    }
    let n = t.len();
    let body = if t[0] == '(' && t[n - 1] == ')' {
        sub_vec(&t, 1, n - 1)
    } else if t[0] == '(' {
        sub_vec(&t, 1, n)
    } else {
        sub_vec(&t, 0, n)
    };
    assert(t@.subrange(0, n as int) =~= t@);
    let parts = split_commas_exec(&body);
    let ghost pv = Seq::new(parts@.len(), |i: int| parts@[i]@);
    assert(pv.subrange(0, pv.len() as int) =~= pv);
    assert(macro_params_view(params@) =~= Seq::<SpecParam>::empty());
    assert(Seq::<SpecParam>::empty() + params_of_parts(pv) =~= params_of_parts(pv));
    let mut k: usize = 0;
    while k < parts.len()
        invariant
            k <= parts@.len(),
            pv == Seq::new(parts@.len(), |i: int| parts@[i]@),
            params_of_parts(pv) == macro_params_view(params@) + params_of_parts(pv.subrange(k as int, pv.len() as int)),
        decreases parts@.len() - k,
    {
        let part = trim_vec(&parts[k]);
        let ghost rest = pv.subrange(k + 1, pv.len() as int);
        assert(pv.subrange(k as int, pv.len() as int).drop_first() =~= rest);
        let ghost old_params = macro_params_view(params@);
        if part.len() > 0 {
            let param = match index_of(&part, '=') {
                Some(e) => {
                    let name = trim_vec(&sub_vec(&part, 0, e));
                    let default = trim_vec(&sub_vec(&part, e + 1, part.len()));
                    MacroParam { name: string_of(&name), default: Some(string_of(&default)) }
                },
                None => MacroParam { name: string_of(&part), default: None },
            };
            assert(macro_param_view(param) == param_of(part@));
            params.push(param);
            assert(macro_params_view(params@) =~= old_params.push(param_of(part@)));
            assert(old_params + (seq![param_of(part@)] + params_of_parts(rest)) =~= macro_params_view(params@)
                + params_of_parts(rest));
        } else {
            assert(old_params + (Seq::<SpecParam>::empty() + params_of_parts(rest)) =~= old_params
                + params_of_parts(rest));
        }
        k += 1;
    }
    assert(pv.subrange(parts@.len() as int, pv.len() as int) =~= Seq::<Seq<char>>::empty());
    assert(macro_params_view(params@) + Seq::<SpecParam>::empty() =~= macro_params_view(params@));
    params
}

/// The end of the run of identifier characters starting at `i`.
pub open spec fn ident_run_end(s: Seq<char>, i: int) -> int
    decreases s.len() - i,
{
    if i < 0 || i >= s.len() || !spec_is_ident_char(s[i]) {
        i
    } else {
        ident_run_end(s, i + 1)
    }
}

proof fn lemma_ident_run_bounds(s: Seq<char>, i: int)
    requires
        0 <= i <= s.len(),
    ensures
        i <= ident_run_end(s, i) <= s.len(),
    decreases s.len() - i,
{
    if i < s.len() && spec_is_ident_char(s[i]) {
        lemma_ident_run_bounds(s, i + 1);
    }
}

fn ident_run(s: &[char], i: usize) -> (r: usize)
    requires
        i <= s@.len(),
    ensures
        r == ident_run_end(s@, i as int),
        i <= r <= s@.len(),
{
    let mut j = i;
    while j < s.len() && is_ident_char(s[j])
        invariant
            i <= j <= s@.len(),
            ident_run_end(s@, i as int) == ident_run_end(s@, j as int),
        decreases s@.len() - j,
    {
        j += 1;
    }
    j
}

/// The name and parameters of a `.macro name params` line.
pub open spec fn macro_header(line: Seq<char>) -> Option<(Seq<char>, Seq<SpecParam>)> {
    let t = trim_seq(line);
    if !starts_at(t, 0, ".macro"@) && !starts_at(t, 0, ".MACRO"@) {
        None
    } else {
        let rest = trim_seq(t.subrange(6, t.len() as int));
        let k = ident_run_end(rest, 0);
        if k == 0 {
            None
        } else {
            Some((rest.subrange(0, k), macro_param_list(rest.subrange(k, rest.len() as int))))
        }
    }
}

fn parse_macro_def_line(line: &[char]) -> (r: Option<(String, Vec<MacroParam>)>)
    ensures
        r matches Some((n, ps)) ==> macro_header(line@) == Some((n@, macro_params_view(ps@))),
        r is None ==> macro_header(line@) is None,
{
    proof {
        reveal_strlit(".macro");
        reveal_strlit(".MACRO");
    }
    let t = trim_vec(line);
    let lower = chars_of(".macro");
    let upper = chars_of(".MACRO");
    if !starts_with_at(&t, 0, &lower) && !starts_with_at(&t, 0, &upper) {
        return None;
    }
    let rest = trim_vec(&sub_vec(&t, 6, t.len()));
    let k = ident_run(&rest, 0);
    if k == 0 {
        return None;
    }
    let name = string_of(&sub_vec(&rest, 0, k));
    let tail = string_of(&sub_vec(&rest, k, rest.len()));
    let params = parse_macro_params(tail.as_str());
    Some((name, params))
}

// ---- parameter substitution ----

/// `text` from position `i` on with every whole-word occurrence of `param`
/// outside literals replaced by `value`; `quote` is the quote of the literal
/// the scan is in, if any. `None` when `param` is empty and the text has a
/// word boundary outside literals: there the substitution never ends.
pub open spec fn replace_from(t: Seq<char>, p: Seq<char>, v: Seq<char>, i: int, quote: Option<char>) -> Option<
    Seq<char>,
>
    decreases t.len() - i,
{
    if i < 0 || i >= t.len() {
        Some(Seq::empty())
    } else {
        match quote {
            Some(q) => {
                let (piece, next, nq) = if t[i] == q {
                    (seq![t[i]], i + 1, None)
                } else if t[i] == '\\' && i + 1 < t.len() {
                    (seq![t[i], t[i + 1]], i + 2, quote)
                } else {
                    (seq![t[i]], i + 1, quote)
                };
                match replace_from(t, p, v, next, nq) {
                    Some(rest) => Some(piece + rest),
                    None => None,
                }
            },
            None => if is_quote(t[i]) {
                match replace_from(t, p, v, i + 1, Some(t[i])) {
                    Some(rest) => Some(seq![t[i]] + rest),
                    None => None,
                }
            } else if word_at(t, i, p) {
                if p.len() == 0 {
                    None
                } else {
                    match replace_from(t, p, v, i + p.len(), None) {
                        Some(rest) => Some(v + rest),
                        None => None,
                    }
                }
            } else {
                match replace_from(t, p, v, i + 1, None) {
                    Some(rest) => Some(seq![t[i]] + rest),
                    None => None,
                }
            },
        }
    }
}

/// Whether `p` occurs at `i` in `t` as a whole word.
pub open spec fn word_at(t: Seq<char>, i: int, p: Seq<char>) -> bool {
    &&& starts_at(t, i, p)
    &&& (i == 0 || !spec_is_ident_char(t[i - 1]))
    &&& (i + p.len() >= t.len() || !spec_is_ident_char(t[i + p.len()]))
}

pub open spec fn replace_spec(t: Seq<char>, p: Seq<char>, v: Seq<char>) -> Option<Seq<char>> {
    replace_from(t, p, v, 0, None)
}

proof fn lemma_replace_with_name(t: Seq<char>, p: Seq<char>, v: Seq<char>, i: int, quote: Option<char>)
    requires
        p.len() > 0,
    ensures
        replace_from(t, p, v, i, quote) is Some,
    decreases t.len() - i,
{
    if 0 <= i < t.len() {
        match quote {
            Some(q) => {
                if t[i] == q {
                    lemma_replace_with_name(t, p, v, i + 1, None);
                } else if t[i] == '\\' && i + 1 < t.len() {
                    lemma_replace_with_name(t, p, v, i + 2, quote);
                } else {
                    lemma_replace_with_name(t, p, v, i + 1, quote);
                }
            },
            None => {
                if is_quote(t[i]) {
                    lemma_replace_with_name(t, p, v, i + 1, Some(t[i]));
                } else if word_at(t, i, p) {
                    lemma_replace_with_name(t, p, v, i + p.len(), None);
                } else {
                    lemma_replace_with_name(t, p, v, i + 1, None);
                }
            },
        }
    }
}

/// The substitution, or `None` where it would not end.
fn replace_param_checked(text: &str, param: &str, value: &str) -> (r: Option<String>)
    ensures
        r matches Some(s) ==> replace_spec(text@, param@, value@) == Some(s@),
        r is None ==> replace_spec(text@, param@, value@) is None,
{
    let t = chars_of(text);
    let p = chars_of(param);
    let v = chars_of(value);
    let n = t.len();
    let m = p.len();
    let mut out = String::new();
    let mut i: usize = 0;
    let mut quote: Option<char> = None;
    while i < n
        invariant
            n == t@.len(),
            m == p@.len(),
            t@ == text@,
            p@ == param@,
            v@ == value@,
            i <= n,
            replace_spec(text@, param@, value@) == match replace_from(t@, p@, v@, i as int, quote) {
                Some(rest) => Some(out@ + rest),
                None => None,
            },
        decreases n - i,
    {
        let c = t[i];
        let ghost before = out@;
        match quote {
            Some(q) => {
                if c == q {
                    push_char(&mut out, c);
                    quote = None;
                    i += 1;
                } else if c == '\\' && i + 1 < n {
                    push_char(&mut out, c);
                    push_char(&mut out, t[i + 1]);
                    i += 2;
                } else {
                    push_char(&mut out, c);
                    i += 1;
                }
            },
            None => {
                if c == '"' || c == '\'' {
                    push_char(&mut out, c);
                    quote = Some(c);
                    i += 1;
                } else if m <= n - i && starts_with_at(&t, i, &p) && (i == 0 || !is_ident_char(t[i - 1])) && (
                i + m >= n || !is_ident_char(t[i + m])) {
                    if m == 0 {
                        return None;
                    }
                    push_chars(&mut out, &v);
                    i += m;
                } else {
                    push_char(&mut out, c);
                    i += 1;
                }
            },
        }
        proof {
            let piece = out@.subrange(before.len() as int, out@.len() as int);
            assert(out@ =~= before + piece);
            match replace_from(t@, p@, v@, i as int, quote) {
                Some(rest) => {
                    assert(before + (piece + rest) =~= out@ + rest);
                },
                None => {},
            }
        }
    }
    assert(out@ + Seq::<char>::empty() =~= out@);
    Some(out)
}

/// Replaces every whole-word occurrence of `param` outside string and
/// character literals by `value`.
pub fn replace_param(text: &str, param: &str, value: &str) -> (r: String)
    requires
        replace_spec(text@, param@, value@) is Some,
    ensures
        replace_spec(text@, param@, value@) == Some(r@),
{
    match replace_param_checked(text, param, value) {
        Some(s) => s,
        None => String::new(),
    }
}

// ---- macro arguments ----

/// The arguments of a macro call from position `i`: split at commas outside
/// literals and parentheses, each trimmed. `cur` is the argument read so
/// far, `depth` the parenthesis depth, `quote` the open literal's quote,
/// `args` the arguments completed so far.
pub open spec fn args_from(
    s: Seq<char>,
    i: int,
    cur: Seq<char>,
    depth: int,
    quote: Option<char>,
    args: Seq<Seq<char>>,
) -> Seq<Seq<char>>
    decreases s.len() - i,
{
    if i < 0 || i >= s.len() {
        if cur.len() > 0 || args.len() > 0 {
            args.push(trim_seq(cur))
        } else {
            args
        }
    } else {
        let ch = s[i];
        match quote {
            Some(q) => args_from(s, i + 1, cur.push(ch), depth, if ch == q { None } else { quote }, args),
            None => if is_quote(ch) {
                args_from(s, i + 1, cur.push(ch), depth, Some(ch), args)
            } else if ch == '(' {
                args_from(s, i + 1, cur.push(ch), depth + 1, None, args)
            } else if ch == ')' {
                args_from(s, i + 1, cur.push(ch), depth - 1, None, args)
            } else if ch == ',' && depth == 0 {
                args_from(s, i + 1, Seq::empty(), depth, None, args.push(trim_seq(cur)))
            } else {
                args_from(s, i + 1, cur.push(ch), depth, None, args)
            },
        }
    }
}

pub open spec fn macro_args(s: Seq<char>) -> Seq<Seq<char>> {
    args_from(s, 0, Seq::empty(), 0, None, Seq::empty())
}

pub open spec fn strings_view(v: Seq<String>) -> Seq<Seq<char>> {
    Seq::new(v.len(), |i: int| v[i]@)
}

fn macro_args_of(s: &[char]) -> (r: Vec<String>)
    ensures
        strings_view(r@) == macro_args(s@),
{
    let mut args: Vec<String> = Vec::new();
    let mut cur: Vec<char> = Vec::new();
    let mut depth: i128 = 0;
    let mut quote: Option<char> = None;
    let mut i: usize = 0;
    assert(strings_view(args@) =~= Seq::<Seq<char>>::empty());
    assert(cur@ =~= Seq::<char>::empty());
    while i < s.len()
        invariant
            i <= s@.len(),
            -(i as int) <= depth <= i,
            macro_args(s@) == args_from(s@, i as int, cur@, depth as int, quote, strings_view(args@)),
        decreases s@.len() - i,
    {
        let ch = s[i];
        match quote {
            Some(q) => {
                cur.push(ch);
                if ch == q {
                    quote = None;
                }
            },
            None => {
                if ch == '"' || ch == '\'' {
                    quote = Some(ch);
                    cur.push(ch);
                } else if ch == '(' {
                    depth = depth + 1;
                    cur.push(ch);
                } else if ch == ')' {
                    depth = depth - 1;
                    cur.push(ch);
                } else if ch == ',' && depth == 0 {
                    let a = trim_vec(&cur);
                    let ghost old_args = strings_view(args@);
                    args.push(string_of(&a));
                    assert(strings_view(args@) =~= old_args.push(trim_seq(cur@)));
                    cur = Vec::new();
                    assert(cur@ =~= Seq::<char>::empty());
                } else {
                    cur.push(ch);
                }
            },
        }
        i += 1;
    }
    if cur.len() > 0 || args.len() > 0 {
        let a = trim_vec(&cur);
        let ghost old_args = strings_view(args@);
        args.push(string_of(&a));
        assert(strings_view(args@) =~= old_args.push(trim_seq(cur@)));
    }
    args
}

/// Splits macro call arguments at the commas that stand outside literals
/// and parentheses; each argument is trimmed.
pub fn parse_macro_args(s: &str) -> (r: Vec<String>)
    ensures
        strings_view(r@) == macro_args(s@),
{
    let chars = chars_of(s);
    macro_args_of(&chars)
}

// ---- macro invocations ----

/// `s` without a leading `name:` or `@name:` label.
pub open spec fn label_skipped(s: Seq<char>) -> Seq<char> {
    let i0: int = if s.len() > 0 && s[0] == '@' { 1 } else { 0 };
    let j = ident_run_end(s, i0);
    if j < s.len() && s[j] == ':' {
        s.subrange(j + 1, s.len() as int)
    } else {
        s
    }
}

fn skip_label(line: &[char]) -> (r: Vec<char>)
    ensures
        r@ == label_skipped(line@),
{
    let i0: usize = if line.len() > 0 && line[0] == '@' { 1 } else { 0 };
    let j = ident_run(line, i0);
    if j < line.len() && line[j] == ':' {
        sub_vec(line, j + 1, line.len())
    } else {
        assert(line@.subrange(0, line@.len() as int) =~= line@);
        sub_vec(line, 0, line.len())
    }
}

/// The last position before `j` that holds `c`.
pub open spec fn last_before(s: Seq<char>, j: int, c: char) -> Option<int>
    decreases j,
{
    if j <= 0 || j > s.len() {
        None
    } else if s[j - 1] == c {
        Some(j - 1)
    } else {
        last_before(s, j - 1, c)
    }
}

fn last_index_of(s: &[char], c: char) -> (r: Option<usize>)
    ensures
        r matches Some(i) ==> last_before(s@, s@.len() as int, c) == Some(i as int) && i < s@.len() && s@[i as int]
            == c,
        r is None ==> last_before(s@, s@.len() as int, c) is None,
{
    let mut j = s.len();
    while j > 0
        invariant
            j <= s@.len(),
            last_before(s@, s@.len() as int, c) == last_before(s@, j as int, c),
        decreases j,
    {
        if s[j - 1] == c {
            return Some(j - 1);
        }
        j -= 1;
    }
    None
}

/// The macro called on `line`, with its arguments: the first word after an
/// optional label names a macro of `st`; its arguments follow, in
/// parentheses or not.
pub open spec fn invocation_spec(line: Seq<char>, st: &SymbolTable) -> Option<(Seq<char>, Seq<Seq<char>>)> {
    let text = trim_seq(label_skipped(trim_seq(line)));
    let k = ident_run_end(text, 0);
    if k == 0 {
        None
    } else {
        let name = text.subrange(0, k);
        if st.macro_def(upper_seq(name)) is None {
            None
        } else {
            let rest = trim_seq(text.subrange(k, text.len() as int));
            if rest.len() > 0 && rest[0] == '(' {
                match last_before(rest, rest.len() as int, ')') {
                    None => None,
                    Some(e) => Some((name, macro_args(rest.subrange(1, e)))),
                }
            } else if rest.len() > 0 {
                Some((name, macro_args(rest)))
            } else {
                Some((name, Seq::empty()))
            }
        }
    }
}

/// The name and arguments of a call of a macro of `symbols` on `line`.
pub fn parse_macro_invocation(line: &str, symbols: &SymbolTable) -> (r: Option<(String, Vec<String>)>)
    requires
        symbols.wf(),
    ensures
        r matches Some((n, a)) ==> invocation_spec(line@, symbols) == Some((n@, strings_view(a@))),
        r is None ==> invocation_spec(line@, symbols) is None,
{
    let chars = chars_of(line);
    let trimmed = trim_vec(&chars);
    let text = trim_vec(&skip_label(&trimmed));
    let k = ident_run(&text, 0);
    if k == 0 {
        return None;
    }
    let name = string_of(&sub_vec(&text, 0, k));
    if symbols.get_macro(name.as_str()).is_none() {
        return None;
    }
    let rest = trim_vec(&sub_vec(&text, k, text.len()));
    if rest.len() > 0 && rest[0] == '(' {
        match last_index_of(&rest, ')') {
            None => None,
            Some(e) => {
                let inner = sub_vec(&rest, 1, e);
                Some((name, macro_args_of(&inner)))
            },
        }
    } else if rest.len() > 0 {
        Some((name, macro_args_of(&rest)))
    } else {
        let v: Vec<String> = Vec::new();
        assert(strings_view(v@) =~= Seq::<Seq<char>>::empty());
        Some((name, v))
    }
}

// ---- macro expansion ----

/// The value of parameter `i`: its argument when given and not empty, else
/// its default.
pub open spec fn arg_value(def: MacroDef, args: Seq<Seq<char>>, i: int) -> Option<Seq<char>> {
    if i < args.len() && args[i].len() > 0 {
        Some(args[i])
    } else {
        match def.params@[i].default {
            Some(d) => Some(d@),
            None => None,
        }
    }
}

/// `text` with the first `k` parameters of `def` substituted in order.
pub open spec fn substitute(def: MacroDef, args: Seq<Seq<char>>, text: Seq<char>, k: nat) -> Option<Seq<char>>
    decreases k,
{
    if k == 0 {
        Some(text)
    } else {
        match substitute(def, args, text, (k - 1) as nat) {
            None => None,
            Some(t) => match arg_value(def, args, k - 1) {
                None => None,
                Some(v) => replace_spec(t, def.params@[k - 1].name@, v),
            },
        }
    }
}

/// Parameter `i` is the first of `def` that gets no value from `args` (no
/// argument, or an empty one, and no default), and each one before it has
/// a name.
pub open spec fn first_missing_arg(def: MacroDef, args: Seq<Seq<char>>, i: int) -> bool {
    &&& 0 <= i < def.params@.len()
    &&& arg_value(def, args, i) is None
    &&& forall|k: int| 0 <= k < i ==> arg_value(def, args, k) is Some && (#[trigger] def.params@[k]).name@.len() > 0
}

/// A macro call gives parameter `i` the call's argument wherever it gave
/// a non-empty one, whether or not the parameter has a default; the
/// default takes its place only where the call gave none or an empty one.
pub proof fn law_call_arguments_win_over_defaults(def: MacroDef, args: Seq<Seq<char>>, i: int)
    requires
        0 <= i < def.params@.len(),
    ensures
        i < args.len() && args[i].len() > 0 ==> arg_value(def, args, i) == Some(args[i]),
        !(i < args.len() && args[i].len() > 0) && def.params@[i].default is Some ==> arg_value(def, args, i)
            == Some(def.params@[i].default->0@),
{
}

/// A body line that is exactly the name of a macro's only parameter expands
/// to the text of the call's argument where the call gave a non-empty one,
/// default or no default.
pub proof fn law_parameter_line_expands_to_the_argument(def: MacroDef, args: Seq<Seq<char>>, j: int)
    requires
        0 <= j < def.body@.len(),
        def.params@.len() == 1,
        def.body@[j]@ == def.params@[0].name@,
        def.params@[0].name@.len() > 0,
        !is_quote(def.params@[0].name@[0]),
        args.len() > 0,
        args[0].len() > 0,
    ensures
        expanded_line(def, args, j) == Some(args[0]),
{
    let p = def.params@[0].name@;
    assert(substitute(def, args, def.body@[j]@, 0) == Some(p));
    assert(arg_value(def, args, 0) == Some(args[0]));
    assert(p.subrange(0, p.len() as int) =~= p);
    assert(word_at(p, 0, p));
    assert(replace_from(p, p, args[0], p.len() as int, None) == Some(Seq::<char>::empty()));
    assert(replace_from(p, p, args[0], 0, None) == Some(args[0] + Seq::<char>::empty()));
    assert(args[0] + Seq::<char>::empty() =~= args[0]);
}

/// Body line `j` of `def` with all parameters substituted.
pub open spec fn expanded_line(def: MacroDef, args: Seq<Seq<char>>, j: int) -> Option<Seq<char>> {
    substitute(def, args, def.body@[j]@, def.params@.len())
}

/// Whether a line's macro context is `s`.
pub open spec fn context_is(ctx: Option<String>, s: Seq<char>) -> bool {
    match ctx {
        Some(c) => c@ == s,
        None => false,
    }
}

/// The name of the `n`-th expansion of a macro: `name_n`.
pub open spec fn expansion_name(name: Seq<char>, n: nat) -> Seq<char> {
    name + seq!['_'] + dec_digits(n)
}

/// `before` + `a` + `middle` + `b` + `after` as an error message.
pub(crate) fn message2(before: &str, a: &str, middle: &str, b: &str, after: &str) -> (e: AsmError)
    ensures
        e.message@ == before@ + a@ + middle@ + b@ + after@,
        e.location is None,
        e.source_line is None,
{
    let mut m = String::from_str(before);
    push_chars(&mut m, &chars_of(a));
    push_chars(&mut m, &chars_of(middle));
    push_chars(&mut m, &chars_of(b));
    push_chars(&mut m, &chars_of(after));
    AsmError { location: None, message: m, source_line: None }
}

/// Expands a macro call: each body line with the parameters replaced by the
/// arguments (or their defaults), located at the call line and tagged with
/// the expansion name `Name_<call_index>`.
pub fn expand_macro(macro_def: &MacroDef, args: &[String], call_index: usize, call_file: &str, call_line: usize) -> (r:
    AsmResult<Vec<SourceLine>>)
    ensures
        r is Ok <==> forall|j: int|
            0 <= j < macro_def.body@.len() ==> expanded_line(*macro_def, strings_view(args@), j) is Some,
        r matches Ok(v) ==> v@.len() == macro_def.body@.len() && forall|j: int|
            0 <= j < v@.len() ==> Some((#[trigger] v@[j]).text@) == expanded_line(*macro_def, strings_view(args@), j)
                && v@[j].file@ == macro_def.file@ && v@[j].line_num == call_line && context_is(v@[j].macro_context,
                expansion_name(macro_def.name@, call_index as nat)),
        forall|i: int|
            #[trigger] first_missing_arg(*macro_def, strings_view(args@), i) && macro_def.body@.len() > 0 ==> (r matches Err(
                e,
            ) && e.message@ == "Missing argument '"@ + macro_def.params@[i].name@ + "' for macro '"@ + macro_def.name@
                + "'"@),
{
    let ghost av = strings_view(args@);
    let mut out: Vec<SourceLine> = Vec::new();
    let mut j: usize = 0;
    while j < macro_def.body.len()
        invariant
            j <= macro_def.body@.len(),
            av == strings_view(args@),
            out@.len() == j,
            forall|jj: int| 0 <= jj < j ==> expanded_line(*macro_def, av, jj) is Some,
            j > 0 ==> forall|i0: int| !first_missing_arg(*macro_def, av, i0),
            forall|jj: int|
                0 <= jj < j ==> Some((#[trigger] out@[jj]).text@) == expanded_line(*macro_def, av, jj)
                    && out@[jj].file@ == macro_def.file@ && out@[jj].line_num == call_line && context_is(
                    out@[jj].macro_context, expansion_name(macro_def.name@, call_index as nat)),
        decreases macro_def.body@.len() - j,
    {
        let mut expanded = macro_def.body[j].clone();
        let mut i: usize = 0;
        while i < macro_def.params.len()
            invariant
                i <= macro_def.params@.len(),
                j < macro_def.body@.len(),
                av == strings_view(args@),
                substitute(*macro_def, av, macro_def.body@[j as int]@, i as nat) == Some(expanded@),
                j == 0 ==> forall|k: int| 0 <= k < i ==> arg_value(*macro_def, av, k) is Some,
                j > 0 ==> forall|i0: int| !first_missing_arg(*macro_def, av, i0),
            decreases macro_def.params@.len() - i,
        {
            let param = &macro_def.params[i];
            let value: &String = if i < args.len() && !args[i].as_str().is_empty() {
                &args[i]
            } else {
                match &param.default {
                    Some(d) => d,
                    None => {
                        assert(forall|k: nat| k > i ==> substitute(*macro_def, av, macro_def.body@[j as int]@, k) is None)
                            by {
                            assert forall|k: nat| k > i implies substitute(
                                *macro_def,
                                av,
                                macro_def.body@[j as int]@,
                                k,
                            ) is None by {
                                lemma_substitute_stays_none(*macro_def, av, macro_def.body@[j as int]@, (i + 1) as nat, k);
                            }
                        }
                        assert(expanded_line(*macro_def, av, j as int) is None);
                        assert(arg_value(*macro_def, av, i as int) is None);
                        assert forall|i0: int| #[trigger] first_missing_arg(*macro_def, av, i0) implies i0 == i by {
                            if i0 < i {
                                assert(arg_value(*macro_def, av, i0) is Some);
                            } else if i0 > i {
                                assert(arg_value(*macro_def, av, i as int) is Some);
                            }
                        }
                        assert(macro_def.params@[i as int] == *param);
                        return Err(
                            message2(
                                "Missing argument '",
                                param.name.as_str(),
                                "' for macro '",
                                macro_def.name.as_str(),
                                "'",
                            ),
                        );
                    },
                }
            };
            match replace_param_checked(expanded.as_str(), param.name.as_str(), value.as_str()) {
                Some(t) => { expanded = t; },
                None => {
                    proof {
                        assert forall|k: nat| k > i implies substitute(
                            *macro_def,
                            av,
                            macro_def.body@[j as int]@,
                            k,
                        ) is None by {
                            lemma_substitute_stays_none(*macro_def, av, macro_def.body@[j as int]@, (i + 1) as nat, k);
                        }
                        assert(expanded_line(*macro_def, av, j as int) is None);
                        if param.name@.len() > 0 {
                            lemma_replace_with_name(expanded@, param.name@, value@, 0, None);
                        }
                        assert(arg_value(*macro_def, av, i as int) is Some);
                        assert forall|i0: int| !first_missing_arg(*macro_def, av, i0) by {
                            if first_missing_arg(*macro_def, av, i0) {
                                if i0 > i {
                                    assert(macro_def.params@[i as int].name@.len() > 0);
                                } else if i0 < i {
                                    assert(arg_value(*macro_def, av, i0) is Some);
                                }
                            }
                        }
                    }
                    return Err(
                        message2(
                            "Macro '",
                            macro_def.name.as_str(),
                            "' has a parameter with an empty name",
                            "",
                            "",
                        ),
                    );
                },
            }
            i += 1;
        }
        let mut ctx = macro_def.name.clone();
        push_chars(&mut ctx, &['_']);
        push_chars(&mut ctx, &fmt_dec(call_index as u64));
        assert(ctx@ =~= expansion_name(macro_def.name@, call_index as nat));
        out.push(
            SourceLine {
                file: macro_def.file.clone(),
                line_num: call_line,
                text: expanded,
                macro_context: Some(ctx),
            },
        );
        j += 1;
    }
    Ok(out)
}

proof fn lemma_substitute_stays_none(def: MacroDef, args: Seq<Seq<char>>, text: Seq<char>, a: nat, k: nat)
    requires
        substitute(def, args, text, a) is None,
        a <= k,
    ensures
        substitute(def, args, text, k) is None,
    decreases k - a,
{
    if a < k {
        lemma_substitute_stays_none(def, args, text, a, (k - 1) as nat);
    }
}

// ---- macro definitions ----

/// A macro definition in mathematical form.
pub struct SpecMacro {
    pub name: Seq<char>,
    pub params: Seq<SpecParam>,
    pub body: Seq<Seq<char>>,
    pub file: Seq<char>,
    pub line: usize,
}

pub open spec fn macro_view(m: MacroDef) -> SpecMacro {
    SpecMacro {
        name: m.name@,
        params: macro_params_view(m.params@),
        body: strings_view(m.body@),
        file: m.file@,
        line: m.line,
    }
}

/// What a scan of the lines for macro definitions finds: the indices of the
/// lines outside definitions, the definitions in order, and whether it
/// stopped at a definition line with a repeated parameter name.
pub struct MacroScan {
    pub kept: Seq<int>,
    pub defs: Seq<SpecMacro>,
    pub dup: bool,
}

pub open spec fn is_endmacro(t: Seq<char>) -> bool {
    upper_seq(trim_seq(t)) == ".ENDMACRO"@
}

/// Whether two parameters have the same name, ignoring case (as Unicode
/// upper case compares them).
pub open spec fn dup_params(ps: Seq<SpecParam>) -> bool {
    exists|a: int, b: int| 0 <= a < b < ps.len() && unicode_upper(ps[a].name) == unicode_upper(ps[b].name)
}

/// Whether parameter `b` of `ps` repeats the name of an earlier one
/// (ignoring case) and no earlier parameter does.
pub open spec fn first_dup_at(ps: Seq<SpecParam>, b: int) -> bool {
    &&& 0 <= b < ps.len()
    &&& exists|a: int| 0 <= a < b && unicode_upper(ps[a].name) == unicode_upper(ps[b].name)
    &&& forall|x: int, y: int| 0 <= x < y < b ==> unicode_upper(ps[x].name) != unicode_upper(ps[y].name)
}

/// The first macro header, scanning `ls` from line `i` (inside a macro body
/// when `inside`), whose parameters repeat a name.
pub open spec fn dup_header(ls: Seq<LineView>, i: int, inside: bool) -> Option<int>
    decreases ls.len() - i,
{
    if i < 0 || i >= ls.len() {
        None
    } else if inside {
        dup_header(ls, i + 1, !is_endmacro(ls[i].text))
    } else {
        match macro_header(trim_seq(ls[i].text)) {
            Some((_, params)) => if dup_params(params) {
                Some(i)
            } else {
                dup_header(ls, i + 1, true)
            },
            None => dup_header(ls, i + 1, false),
        }
    }
}

/// `e` is the error for the macro header `l` whose parameters repeat a
/// name: it names the first repeated parameter and the macro, at the
/// header's line.
pub open spec fn dup_param_error(l: LineView, e: AsmError) -> bool {
    &&& macro_header(trim_seq(l.text)) matches Some((name, params)) && exists|b: int|
        #[trigger] first_dup_at(params, b) && e.message@ == "Duplicate parameter '"@ + params[b].name
            + "' in macro '"@ + name + "'"@
    &&& e.location matches Some(loc) && loc.file@ == l.file && loc.line == l.line_num && loc.col == 0
}

pub open spec fn macro_scan(ls: Seq<LineView>, i: int, open: Option<SpecMacro>) -> MacroScan
    decreases ls.len() - i,
{
    if i < 0 || i >= ls.len() {
        MacroScan { kept: Seq::empty(), defs: Seq::empty(), dup: false }
    } else {
        match open {
            Some(m) => if is_endmacro(ls[i].text) {
                let r = macro_scan(ls, i + 1, None);
                MacroScan { kept: r.kept, defs: seq![m] + r.defs, dup: r.dup }
            } else {
                macro_scan(
                    ls,
                    i + 1,
                    Some(
                        SpecMacro {
                            name: m.name,
                            params: m.params,
                            body: m.body.push(ls[i].text),
                            file: m.file,
                            line: m.line,
                        },
                    ),
                )
            },
            None => match macro_header(trim_seq(ls[i].text)) {
                Some((name, params)) => if dup_params(params) {
                    MacroScan { kept: Seq::empty(), defs: Seq::empty(), dup: true }
                } else {
                    macro_scan(
                        ls,
                        i + 1,
                        Some(SpecMacro { name, params, body: Seq::empty(), file: ls[i].file, line: ls[i].line_num }),
                    )
                },
                None => {
                    let r = macro_scan(ls, i + 1, None);
                    MacroScan { kept: seq![i] + r.kept, defs: r.defs, dup: r.dup }
                },
            },
        }
    }
}

/// The definition among `defs` whose name, case-folded, is `k`.
pub open spec fn def_named(defs: Seq<SpecMacro>, k: Seq<char>) -> Option<SpecMacro>
    decreases defs.len(),
{
    if defs.len() == 0 {
        None
    } else if upper_seq(defs.last().name) == k {
        Some(defs.last())
    } else {
        def_named(defs.drop_last(), k)
    }
}

/// The names of `defs` are new to `st` and differ from each other (ignoring case).
pub open spec fn defs_fresh(defs: Seq<SpecMacro>, st: &SymbolTable) -> bool {
    &&& forall|d: int| 0 <= d < defs.len() ==> st.macro_def(upper_seq(#[trigger] defs[d].name)) is None
    &&& forall|a: int, b: int|
        0 <= a < b < defs.len() ==> upper_seq(#[trigger] defs[a].name) != upper_seq(#[trigger] defs[b].name)
}

/// `st` holds the definitions `defs` and otherwise the macros of `base`.
pub open spec fn macros_added(st: &SymbolTable, base: &SymbolTable, defs: Seq<SpecMacro>) -> bool {
    forall|k: Seq<char>|
        match def_named(defs, k) {
            Some(d) => #[trigger] st.macro_def(k) matches Some(m) && macro_view(m) == d,
            None => st.macro_def(k) == base.macro_def(k),
        }
}

/// Everything of `b` but its macros is as in `a`.
pub open spec fn same_but_macros(a: &SymbolTable, b: &SymbolTable) -> bool {
    &&& forall|k: Seq<char>| b.global(k) == a.global(k)
    &&& forall|k: Seq<char>, s: usize| b.local(k, s) == a.local(k, s)
    &&& forall|k: Seq<char>| b.macro_local(k) == a.macro_local(k)
    &&& b.scope() == a.scope()
    &&& b.scope_stack() == a.scope_stack()
    &&& b.call_count() == a.call_count()
    &&& b.local_counter() == a.local_counter()
    &&& b.local_count() == a.local_count()
    &&& a.scopes_settled() == b.scopes_settled()
}

proof fn lemma_frame_define(a: &SymbolTable, b: &SymbolTable, c: &SymbolTable)
    requires
        same_but_macros(a, b),
        forall|k: Seq<char>| c.global(k) == b.global(k),
        forall|k: Seq<char>, s: usize| c.local(k, s) == b.local(k, s),
        forall|k: Seq<char>| c.macro_local(k) == b.macro_local(k),
        c.scope() == b.scope(),
        c.scope_stack() == b.scope_stack(),
        c.call_count() == b.call_count(),
        c.local_counter() == b.local_counter(),
        c.local_count() == b.local_count(),
        b.scopes_settled() == c.scopes_settled(),
    ensures
        same_but_macros(a, c),
{
}

proof fn lemma_def_named_push(defs: Seq<SpecMacro>, m: SpecMacro, k: Seq<char>)
    ensures
        def_named(defs.push(m), k) == if upper_seq(m.name) == k {
            Some(m)
        } else {
            def_named(defs, k)
        },
{
    assert(defs.push(m).drop_last() =~= defs);
}

proof fn lemma_def_named_in(defs: Seq<SpecMacro>, k: Seq<char>)
    ensures
        def_named(defs, k) is Some <==> exists|d: int| 0 <= d < defs.len() && upper_seq(defs[d].name) == k,
    decreases defs.len(),
{
    if defs.len() > 0 {
        lemma_def_named_in(defs.drop_last(), k);
        if upper_seq(defs.last().name) != k {
            assert forall|d: int| 0 <= d < defs.len() && upper_seq(defs[d].name) == k implies 0 <= d < defs.len()
                - 1 && upper_seq(defs.drop_last()[d].name) == k by {
                if d == defs.len() - 1 {
                    assert(defs[d] == defs.last());
                }
            }
            assert forall|d: int| 0 <= d < defs.len() - 1 && upper_seq(defs.drop_last()[d].name) == k implies 0 <= d
                < defs.len() && upper_seq(defs[d].name) == k by {
                assert(defs.drop_last()[d] == defs[d]);
            }
        }
    }
}

fn find_dup_param(params: &Vec<MacroParam>) -> (r: Option<usize>)
    ensures
        r is None <==> !dup_params(macro_params_view(params@)),
        r matches Some(b) ==> b < params@.len() && first_dup_at(macro_params_view(params@), b as int),
{
    let ghost pv = macro_params_view(params@);
    let mut b: usize = 0;
    while b < params.len()
        invariant
            b <= params@.len(),
            pv == macro_params_view(params@),
            forall|x: int, y: int| 0 <= x < y < b ==> unicode_upper(pv[x].name) != unicode_upper(pv[y].name),
        decreases params@.len() - b,
    {
        let kb = chars_of(to_unicode_upper(params[b].name.as_str()).as_str());
        let mut a: usize = 0;
        while a < b
            invariant
                a <= b < params@.len(),
                pv == macro_params_view(params@),
                kb@ == unicode_upper(pv[b as int].name),
                forall|x: int| 0 <= x < a ==> unicode_upper(pv[x].name) != unicode_upper(pv[b as int].name),
                forall|x: int, y: int| 0 <= x < y < b ==> unicode_upper(pv[x].name) != unicode_upper(pv[y].name),
            decreases b - a,
        {
            let ka = chars_of(to_unicode_upper(params[a].name.as_str()).as_str());
            if chars_eq(&ka, &kb) {
                assert(dup_params(pv)) by {
                    assert(0 <= a < b < pv.len() && unicode_upper(pv[a as int].name) == unicode_upper(pv[b as int].name));
                }
                assert(unicode_upper(pv[a as int].name) == unicode_upper(pv[b as int].name));
                assert(first_dup_at(pv, b as int));
                return Some(b);
            }
            a += 1;
        }
        b += 1;
    }
    None
}

/// Takes the `.macro` ... `.endmacro` blocks out of `lines` and defines them
/// in `symbols`; the other lines stay, in order.
pub fn collect_macros(lines: &mut Vec<SourceLine>, symbols: &mut SymbolTable) -> (r: AsmResult<()>)
    requires
        old(symbols).wf(),
    ensures
        final(symbols).wf(),
        same_but_macros(old(symbols), final(symbols)),
        ({
            let scan = macro_scan(source_view(old(lines)@), 0, None);
            &&& (r is Ok <==> (!scan.dup && defs_fresh(scan.defs, old(symbols))))
            &&& r is Ok ==> final(lines)@ == Seq::new(scan.kept.len(), |k: int| old(lines)@[scan.kept[k]])
            &&& r is Ok ==> forall|k: int| 0 <= k < scan.kept.len() ==> 0 <= #[trigger] scan.kept[k] < old(lines)@.len()
            &&& r is Ok ==> macros_added(final(symbols), old(symbols), scan.defs)
            &&& r is Err ==> final(lines)@ == old(lines)@
            &&& match dup_header(source_view(old(lines)@), 0, false) {
                Some(h) => defs_fresh(scan.defs, old(symbols)) ==> (r matches Err(e) && dup_param_error(
                    source_view(old(lines)@)[h],
                    e,
                )),
                None => true,
            }
        }),
{
    let ghost ls = lines@;
    let ghost lv = source_view(ls);
    let ghost st0 = *symbols;
    let ghost scan0 = macro_scan(lv, 0, None);
    let mut new_lines: Vec<SourceLine> = Vec::new();
    let mut in_macro = false;
    let mut macro_name = String::new();
    let mut macro_params: Vec<MacroParam> = Vec::new();
    let mut macro_body: Vec<String> = Vec::new();
    let mut macro_file = String::new();
    let mut macro_line: usize = 0;
    let ghost mut kept: Seq<int> = Seq::empty();
    let ghost mut defs: Seq<SpecMacro> = Seq::empty();
    let mut i: usize = 0;
    while i < lines.len()
        invariant
            lines@ == ls,
            i <= ls.len(),
            *old(symbols) == st0,
            old(lines)@ == ls,
            lv == source_view(ls),
            scan0 == macro_scan(lv, 0, None),
            symbols.wf(),
            same_but_macros(&st0, symbols),
            macros_added(symbols, &st0, defs),
            defs_fresh(defs, &st0),
            forall|k: int| 0 <= k < kept.len() ==> 0 <= #[trigger] kept[k] < i,
            new_lines@ == Seq::new(kept.len(), |k: int| ls[kept[k]]),
            ({
                let open = if in_macro {
                    Some(
                        SpecMacro {
                            name: macro_name@,
                            params: macro_params_view(macro_params@),
                            body: strings_view(macro_body@),
                            file: macro_file@,
                            line: macro_line,
                        },
                    )
                } else {
                    None
                };
                let ri = macro_scan(lv, i as int, open);
                &&& scan0.kept == kept + ri.kept
                &&& scan0.defs == defs + ri.defs
                &&& scan0.dup == ri.dup
            }),
            dup_header(lv, 0, false) == dup_header(lv, i as int, in_macro),
        decreases ls.len() - i,
    {
        let text_chars = chars_of(lines[i].text.as_str());
        let trimmed = trim_vec(&text_chars);
        if in_macro {
            let up = upper_vec(&trimmed);
            let end = chars_of(".ENDMACRO");
            if chars_eq(&up, &end) {
                let ghost m = SpecMacro {
                    name: macro_name@,
                    params: macro_params_view(macro_params@),
                    body: strings_view(macro_body@),
                    file: macro_file@,
                    line: macro_line,
                };
                let ghost before = *symbols;
                let mut name = String::new();
                std::mem::swap(&mut name, &mut macro_name);
                let mut params: Vec<MacroParam> = Vec::new();
                std::mem::swap(&mut params, &mut macro_params);
                let mut body: Vec<String> = Vec::new();
                std::mem::swap(&mut body, &mut macro_body);
                let mut file = String::new();
                std::mem::swap(&mut file, &mut macro_file);
                let def = MacroDef { name, params, body, file, line: macro_line };
                assert(macro_view(def) == m);
                let res = symbols.define_macro(def);
                proof { lemma_frame_define(&st0, &before, symbols); }
                match res {
                    Err(e) => {
                        proof {
                            let k = upper_seq(m.name);
                            let ri = macro_scan(lv, i + 1, None);
                            assert(scan0.defs == (defs.push(m)) + ri.defs) by {
                                assert(scan0.defs =~= defs + (seq![m] + ri.defs));
                                assert(defs + (seq![m] + ri.defs) =~= defs.push(m) + ri.defs);
                            }
                            let n = defs.len() as int;
                            assert(scan0.defs[n] == m);
                            if def_named(defs, k) is Some {
                                lemma_def_named_in(defs, k);
                                let d = choose|d: int| 0 <= d < defs.len() && upper_seq(defs[d].name) == k;
                                assert(scan0.defs[d] == defs[d]);
                                assert(!defs_fresh(scan0.defs, &st0));
                            } else {
                                assert(before.macro_def(k) == st0.macro_def(k));
                                assert(!defs_fresh(scan0.defs, &st0));
                            }
                        }
                        return Err(e);
                    },
                    Ok(()) => {
                        proof {
                            let k = upper_seq(m.name);
                            assert(before.macro_def(k) is None);
                            assert(def_named(defs, k) is None);
                            assert(st0.macro_def(k) is None);
                            lemma_def_named_in(defs, k);
                            assert forall|kk: Seq<char>| #![trigger symbols.macro_def(kk)]
                                match def_named(defs.push(m), kk) {
                                    Some(d) => symbols.macro_def(kk) matches Some(mm) && macro_view(mm) == d,
                                    None => symbols.macro_def(kk) == st0.macro_def(kk),
                                } by {
                                lemma_def_named_push(defs, m, kk);
                            }
                            assert forall|a: int, b: int|
                                0 <= a < b < defs.push(m).len() implies upper_seq(#[trigger] defs.push(m)[a].name)
                                != upper_seq(#[trigger] defs.push(m)[b].name) by {
                                if b == defs.len() {
                                    assert(defs.push(m)[a] == defs[a]);
                                    if upper_seq(defs[a].name) == k {
                                        assert(def_named(defs, k) is Some);
                                    }
                                } else {
                                    assert(defs.push(m)[a] == defs[a]);
                                    assert(defs.push(m)[b] == defs[b]);
                                }
                            }
                            assert forall|d: int| 0 <= d < defs.push(m).len() implies st0.macro_def(
                                upper_seq(#[trigger] defs.push(m)[d].name),
                            ) is None by {
                                if d < defs.len() {
                                    assert(defs.push(m)[d] == defs[d]);
                                }
                            }
                            let ri = macro_scan(lv, i + 1, None);
                            assert(scan0.defs =~= defs.push(m) + ri.defs) by {
                                assert(scan0.defs =~= defs + (seq![m] + ri.defs));
                            }
                            defs = defs.push(m);
                        }
                        in_macro = false;
                    },
                }
            } else {
                let ghost old_body = strings_view(macro_body@);
                macro_body.push(lines[i].text.clone());
                assert(strings_view(macro_body@) =~= old_body.push(lv[i as int].text));
            }
            i += 1;
        } else {
            let trimmed_str = string_of(&trimmed);
            assert(trimmed_str@ == trim_seq(lv[i as int].text));
            match parse_macro_def_line(&trimmed) {
                Some((name, params)) => {
                    match find_dup_param(&params) {
                        Some(b) => {
                            proof {
                                assert(trimmed@ == trim_seq(lv[i as int].text));
                                assert(dup_params(macro_params_view(params@)));
                                assert(macro_scan(lv, i as int, None).dup);
                            }
                            let e = message2(
                                "Duplicate parameter '",
                                params[b].name.as_str(),
                                "' in macro '",
                                name.as_str(),
                                "'",
                            );
                            let e = e.ensure_location(lines[i].file.as_str(), lines[i].line_num);
                            proof {
                                let pv = macro_params_view(params@);
                                assert(params@[b as int].name@ == pv[b as int].name);
                                assert(first_dup_at(pv, b as int));
                                assert(dup_param_error(lv[i as int], e));
                            }
                            return Err(e);
                        },
                        None => {},
                    }
                    in_macro = true;
                    macro_name = name;
                    macro_params = params;
                    macro_body = Vec::new();
                    assert(strings_view(macro_body@) =~= Seq::<Seq<char>>::empty());
                    macro_file = lines[i].file.clone();
                    macro_line = lines[i].line_num;
                },
                None => {
                    let ghost old_kept = kept;
                    new_lines.push(lines[i].copy());
                    proof {
                        kept = kept.push(i as int);
                        assert(new_lines@ =~= Seq::new(kept.len(), |k: int| ls[kept[k]]));
                        let ri = macro_scan(lv, i + 1, None);
                        assert(scan0.kept =~= kept + ri.kept) by {
                            assert(scan0.kept =~= old_kept + (seq![i as int] + ri.kept));
                        }
                    }
                },
            }
            i += 1;
        }
    }
    proof {
        assert(kept + Seq::<int>::empty() =~= kept);
        assert(defs + Seq::<SpecMacro>::empty() =~= defs);
    }
    *lines = new_lines;
    Ok(())
}

// ---- paths ----
//
// The path operations of std are named, not described: what they give
// depends only on their arguments (the path separator is fixed when the
// program is built).

/// The path `base` joined with `rel` (`Path::join`).
pub uninterp spec fn joined_path(base: Seq<char>, rel: Seq<char>) -> Seq<char>;

/// The parent directory of a path (`Path::parent`).
pub uninterp spec fn parent_path(p: Seq<char>) -> Option<Seq<char>>;

/// A path with the leading directory `base` removed (`Path::strip_prefix`).
pub uninterp spec fn strip_prefix_path(p: Seq<char>, base: Seq<char>) -> Option<Seq<char>>;

/// The last component of a path (`Path::file_name`).
pub uninterp spec fn file_name_path(p: Seq<char>) -> Option<Seq<char>>;

/// `std::path::Path::join`: `base` joined with `rel`, as text; the result is
/// named, not described.
#[verifier::external_body]
pub(crate) fn path_join(base: &str, rel: &str) -> (r: String)
    ensures
        r@ == joined_path(base@, rel@),
{
    std::path::Path::new(base).join(rel).to_string_lossy().into_owned()
}

/// `std::path::Path::parent`, as text; the result is named, not described.
#[verifier::external_body]
fn path_parent(p: &str) -> (r: Option<String>)
    ensures
        opt_string_view(r) == parent_path(p@),
{
    match std::path::Path::new(p).parent() {
        Some(q) => Some(q.to_string_lossy().into_owned()),
        None => None,
    }
}

/// `std::path::Path::strip_prefix`, as text; the result is named, not
/// described.
#[verifier::external_body]
fn path_strip_prefix(p: &str, base: &str) -> (r: Option<String>)
    ensures
        opt_string_view(r) == strip_prefix_path(p@, base@),
{
    match std::path::Path::new(p).strip_prefix(base) {
        Ok(q) => Some(q.to_string_lossy().into_owned()),
        Err(_) => None,
    }
}

/// `std::path::Path::file_name`, as text; the result is named, not described.
#[verifier::external_body]
fn path_file_name(p: &str) -> (r: Option<String>)
    ensures
        opt_string_view(r) == file_name_path(p@),
{
    match std::path::Path::new(p).file_name() {
        Some(q) => Some(q.to_string_lossy().into_owned()),
        None => None,
    }
}

/// How a file is named in locations: relative to `base` when under it,
/// else by its last component.
pub open spec fn relative_name(file: Seq<char>, base: Seq<char>) -> Seq<char> {
    match strip_prefix_path(file, base) {
        Some(r) => r,
        None => match file_name_path(file) {
            Some(n) => n,
            None => Seq::empty(),
        },
    }
}

fn path_relative_to(file: &str, base: &str) -> (r: String)
    ensures
        r@ == relative_name(file@, base@),
{
    match path_strip_prefix(file, base) {
        Some(rel) => rel,
        None => match path_file_name(file) {
            Some(n) => n,
            None => String::new(),
        },
    }
}

/// The directory `.include` paths of `file` are first looked up in.
pub open spec fn include_dir(file: Seq<char>, project_dir: Seq<char>) -> Seq<char> {
    match parent_path(file) {
        Some(d) => d,
        None => project_dir,
    }
}

/// Where an `.include` of `path` in `file` is looked for, in order: next to
/// the including file, in the project directory, and as written.
pub open spec fn include_candidates_spec(path: Seq<char>, file: Seq<char>, project_dir: Seq<char>) -> Seq<
    Seq<char>,
> {
    seq![joined_path(include_dir(file, project_dir), path), joined_path(project_dir, path), path]
}

/// The places an `.include "path"` written in `current_file` is looked for,
/// in order.
pub fn include_candidates(path: &str, current_file: &str, project_dir: &str) -> (r: Vec<String>)
    ensures
        strings_view(r@) == include_candidates_spec(path@, current_file@, project_dir@),
{
    let dir = match path_parent(current_file) {
        Some(d) => d,
        None => String::from_str(project_dir),
    };
    let mut r: Vec<String> = Vec::new();
    r.push(path_join(dir.as_str(), path));
    r.push(path_join(project_dir, path));
    r.push(String::from_str(path));
    assert(strings_view(r@) =~= include_candidates_spec(path@, current_file@, project_dir@));
    r
}

// ---- source files ----

/// The text files that preprocessing may read, by path.
pub struct SourceFiles {
    entries: Vec<(String, String)>,
}

pub open spec fn entries_lookup(s: Seq<(String, String)>, p: Seq<char>) -> Option<Seq<char>>
    decreases s.len(),
{
    if s.len() == 0 {
        None
    } else if s.last().0@ == p {
        Some(s.last().1@)
    } else {
        entries_lookup(s.drop_last(), p)
    }
}

impl SourceFiles {
    /// The content of the file at `p`, if it is known.
    pub closed spec fn content(&self, p: Seq<char>) -> Option<Seq<char>> {
        entries_lookup(self.entries@, p)
    }

    pub fn new() -> (r: SourceFiles)
        ensures
            forall|p: Seq<char>| r.content(p) is None,
    {
        SourceFiles { entries: Vec::new() }
    }

    /// Records that the file at `path` holds `content`.
    pub fn add(&mut self, path: &str, content: &str)
        ensures
            final(self).content(path@) == Some(content@),
            forall|p: Seq<char>| p != path@ ==> final(self).content(p) == old(self).content(p),
    {
        let ghost old_e = self.entries@;
        self.entries.push((String::from_str(path), String::from_str(content)));
        assert(self.entries@.drop_last() == old_e);
    }

    /// The content of the file at `path`.
    pub fn get(&self, path: &str) -> (r: Option<&String>)
        ensures
            r matches Some(c) ==> self.content(path@) == Some(c@),
            r is None ==> self.content(path@) is None,
    {
        let mut j = self.entries.len();
        assert(self.entries@.subrange(0, j as int) =~= self.entries@);
        while j > 0
            invariant
                j <= self.entries@.len(),
                self.content(path@) == entries_lookup(self.entries@.subrange(0, j as int), path@),
            decreases j,
        {
            let ghost sub = self.entries@.subrange(0, j as int);
            assert(sub.drop_last() =~= self.entries@.subrange(0, j - 1));
            if chars_eq(&chars_of(self.entries[j - 1].0.as_str()), &chars_of(path)) {
                return Some(&self.entries[j - 1].1);
            }
            j -= 1;
        }
        None
    }
}

// ---- includes ----

/// A source line in mathematical form.
pub struct LineView {
    pub file: Seq<char>,
    pub line_num: usize,
    pub text: Seq<char>,
    pub context: Option<Seq<char>>,
}

pub open spec fn line_view(l: SourceLine) -> LineView {
    LineView { file: l.file@, line_num: l.line_num, text: l.text@, context: opt_string_view(l.macro_context) }
}

pub open spec fn source_view(v: Seq<SourceLine>) -> Seq<LineView> {
    Seq::new(v.len(), |i: int| line_view(v[i]))
}

/// The lines `ls` of `file`, numbered from 1.
pub open spec fn numbered_view(ls: Seq<Seq<char>>, file: Seq<char>) -> Seq<LineView> {
    Seq::new(ls.len(), |i: int| LineView { file, line_num: (i + 1) as usize, text: ls[i], context: None })
}

/// The file an `.include` of `path` in `file` resolves to: the first
/// candidate that `files` knows.
pub open spec fn resolve_include(path: Seq<char>, file: Seq<char>, project_dir: Seq<char>, files: &SourceFiles) -> Option<
    Seq<char>,
> {
    let c = include_candidates_spec(path, file, project_dir);
    if files.content(c[0]) is Some {
        Some(c[0])
    } else if files.content(c[1]) is Some {
        Some(c[1])
    } else if files.content(c[2]) is Some {
        Some(c[2])
    } else {
        None
    }
}

/// The lines a file at `path` contributes, before its own includes.
pub open spec fn file_lines(content: Seq<char>, path: Seq<char>, project_dir: Seq<char>) -> Seq<LineView> {
    numbered_view(text_lines(strip_block_from(content, 0, ScanMode::Code)), relative_name(path, project_dir))
}

/// `.include` lines of `ls` (read from `file`) replaced by the lines of the
/// included files, recursively, at most 16 files deep.
pub open spec fn includes_expanded(
    ls: Seq<LineView>,
    file: Seq<char>,
    project_dir: Seq<char>,
    files: &SourceFiles,
    depth: int,
) -> Option<Seq<LineView>>
    decreases 16 - depth, ls.len(),
{
    if depth >= 16 || depth < 0 {
        None
    } else if ls.len() == 0 {
        Some(Seq::empty())
    } else {
        let rest = includes_expanded(ls.drop_first(), file, project_dir, files, depth);
        let head = match include_target(trim_seq(ls[0].text)) {
            None => Some(seq![ls[0]]),
            Some(p) => match resolve_include(p, file, project_dir, files) {
                None => None,
                Some(ip) => includes_expanded(
                    file_lines(files.content(ip)->0, ip, project_dir),
                    ip,
                    project_dir,
                    files,
                    depth + 1,
                ),
            },
        };
        match (head, rest) {
            (Some(h), Some(r)) => Some(h + r),
            _ => None,
        }
    }
}

proof fn lemma_numbered(v: Seq<SourceLine>, ls: Seq<Seq<char>>, file: Seq<char>)
    requires
        numbered_lines(v, ls, file),
    ensures
        source_view(v) == numbered_view(ls, file),
{
    assert(source_view(v) =~= numbered_view(ls, file));
}

/// The lines of the file at `path` with its comments stripped.
fn read_source(path: &str, project_dir: &str, files: &SourceFiles) -> (r: AsmResult<Vec<SourceLine>>)
    ensures
        r matches Ok(v) ==> files.content(path@) matches Some(c) && source_view(v@) == file_lines(c, path@, project_dir@),
        r is Err ==> files.content(path@) is None,
{
    match files.get(path) {
        Some(content) => {
            let stripped = strip_multiline_comments(content.as_str());
            let name = path_relative_to(path, project_dir);
            let v = content_to_lines(stripped.as_str(), name.as_str());
            proof { lemma_numbered(v@, text_lines(stripped@), name@); }
            Ok(v)
        },
        None => Err(message2("Cannot read ", path, "", "", "")),
    }
}

fn resolve_include_path(path: &str, current_file: &str, project_dir: &str, files: &SourceFiles) -> (r: AsmResult<
    String,
>)
    ensures
        r matches Ok(p) ==> resolve_include(path@, current_file@, project_dir@, files) == Some(p@),
        r is Err ==> resolve_include(path@, current_file@, project_dir@, files) is None,
{
    let c = include_candidates(path, current_file, project_dir);
    assert(strings_view(c@).len() == 3);
    let mut k: usize = 0;
    while k < 3
        invariant
            c@.len() == 3,
            strings_view(c@) == include_candidates_spec(path@, current_file@, project_dir@),
            k <= 3,
            forall|j: int| 0 <= j < k ==> files.content(c@[j]@) is None,
        decreases 3 - k,
    {
        if files.get(c[k].as_str()).is_some() {
            assert(strings_view(c@)[k as int] == c@[k as int]@);
            return Ok(c[k].clone());
        }
        k += 1;
    }
    assert(strings_view(c@)[0] == c@[0]@);
    assert(strings_view(c@)[1] == c@[1]@);
    assert(strings_view(c@)[2] == c@[2]@);
    Err(message2("Cannot find include file: ", path, "", "", ""))
}

fn expand_includes(lines: &Vec<SourceLine>, current_file: &str, project_dir: &str, files: &SourceFiles, depth: usize) -> (r:
    AsmResult<Vec<SourceLine>>)
    ensures
        r matches Ok(v) ==> includes_expanded(source_view(lines@), current_file@, project_dir@, files, depth as int)
            == Some(source_view(v@)),
        r is Err ==> includes_expanded(source_view(lines@), current_file@, project_dir@, files, depth as int) is None,
    decreases 16 - depth,
{
    if depth >= 16 {
        return Err(AsmError::new("Include depth exceeded 16 levels"));
    }
    let ghost lv = source_view(lines@);
    let mut result: Vec<SourceLine> = Vec::new();
    let mut k: usize = 0;
    proof {
        assert(lv.subrange(0, lv.len() as int) =~= lv);
        assert(source_view(result@) =~= Seq::<LineView>::empty());
        match includes_expanded(lv, current_file@, project_dir@, files, depth as int) {
            Some(r) => { assert(Seq::<LineView>::empty() + r =~= r); },
            None => {},
        }
    }
    while k < lines.len()
        invariant
            k <= lines@.len(),
            depth < 16,
            lv == source_view(lines@),
            includes_expanded(lv, current_file@, project_dir@, files, depth as int) == match includes_expanded(
                lv.subrange(k as int, lv.len() as int),
                current_file@,
                project_dir@,
                files,
                depth as int,
            ) {
                Some(r) => Some(source_view(result@) + r),
                None => None,
            },
        decreases lines@.len() - k,
    {
        let line = &lines[k];
        let ghost sub = lv.subrange(k as int, lv.len() as int);
        assert(sub.drop_first() =~= lv.subrange(k + 1, lv.len() as int));
        assert(sub[0] == line_view(*line));
        let ghost old_res = source_view(result@);
        let trimmed = string_of(&trim_vec(&chars_of(line.text.as_str())));
        match parse_include_directive(trimmed.as_str()) {
            Some(path_str) => {
                let include_path = match resolve_include_path(path_str.as_str(), current_file, project_dir, files) {
                    Ok(p) => p,
                    Err(e) => { return Err(e.ensure_location(line.file.as_str(), line.line_num)); },
                };
                let inc_lines = match read_source(include_path.as_str(), project_dir, files) {
                    Ok(v) => v,
                    Err(e) => { return Err(e.ensure_location(line.file.as_str(), line.line_num)); },
                };
                let expanded = expand_includes(&inc_lines, include_path.as_str(), project_dir, files, depth + 1)?;
                let mut j: usize = 0;
                while j < expanded.len()
                    invariant
                        j <= expanded@.len(),
                        source_view(result@) == old_res + source_view(expanded@).subrange(0, j as int),
                    decreases expanded@.len() - j,
                {
                    let ghost before = source_view(result@);
                    let item = expanded[j].copy();
                    result.push(item);
                    assert(source_view(result@) =~= before.push(line_view(expanded@[j as int])));
                    assert(source_view(expanded@).subrange(0, j + 1) =~= source_view(expanded@).subrange(0, j as int).push(
                        line_view(expanded@[j as int])));
                    j += 1;
                }
                proof {
                    assert(source_view(expanded@).subrange(0, expanded@.len() as int) =~= source_view(expanded@));
                    match includes_expanded(lv.subrange(k + 1, lv.len() as int), current_file@, project_dir@, files, depth as int) {
                        Some(r) => {
                            assert(old_res + (source_view(expanded@) + r) =~= source_view(result@) + r);
                        },
                        None => {},
                    }
                }
            },
            None => {
                result.push(line.copy());
                proof {
                    assert(source_view(result@) =~= old_res.push(line_view(*line)));
                    match includes_expanded(lv.subrange(k + 1, lv.len() as int), current_file@, project_dir@, files, depth as int) {
                        Some(r) => {
                            assert(old_res + (seq![line_view(*line)] + r) =~= source_view(result@) + r);
                        },
                        None => {},
                    }
                }
            },
        }
        k += 1;
    }
    proof {
        assert(lv.subrange(lines@.len() as int, lv.len() as int) =~= Seq::<LineView>::empty());
        assert(source_view(result@) + Seq::<LineView>::empty() =~= source_view(result@));
    }
    Ok(result)
}

/// What preprocessing `main_file` gives before macro collection: its lines
/// with the includes expanded.
pub open spec fn preprocessed_lines(main_file: Seq<char>, project_dir: Seq<char>, files: &SourceFiles) -> Option<
    Seq<LineView>,
> {
    match files.content(main_file) {
        None => None,
        Some(c) => includes_expanded(file_lines(c, main_file, project_dir), main_file, project_dir, files, 0),
    }
}

/// Reads the main file from `files`, strips block comments, expands
/// `.include`s (from `files`), and moves the macro definitions into
/// `symbols`; returns the remaining lines.
pub fn preprocess(main_file: &str, project_dir: &str, symbols: &mut SymbolTable, files: &SourceFiles) -> (r:
    AsmResult<Vec<SourceLine>>)
    requires
        old(symbols).wf(),
    ensures
        final(symbols).wf(),
        same_but_macros(old(symbols), final(symbols)),
        r is Ok <==> match preprocessed_lines(main_file@, project_dir@, files) {
            Some(all) => !macro_scan(all, 0, None).dup && defs_fresh(macro_scan(all, 0, None).defs, old(symbols)),
            None => false,
        },
        r matches Ok(v) ==> match preprocessed_lines(main_file@, project_dir@, files) {
            Some(all) => {
                let scan = macro_scan(all, 0, None);
                &&& source_view(v@) == Seq::new(scan.kept.len(), |k: int| all[scan.kept[k]])
                &&& macros_added(final(symbols), old(symbols), scan.defs)
            },
            None => false,
        },
        preprocessed_lines(main_file@, project_dir@, files) matches Some(all) ==> match dup_header(all, 0, false) {
            Some(h) => defs_fresh(macro_scan(all, 0, None).defs, old(symbols)) ==> (r matches Err(e) && dup_param_error(
                all[h],
                e,
            )),
            None => true,
        },
{
    let raw = read_source(main_file, project_dir, files)?;
    let mut expanded = expand_includes(&raw, main_file, project_dir, files, 0)?;
    let ghost all = expanded@;
    match collect_macros(&mut expanded, symbols) {
        Ok(()) => {},
        Err(e) => { return Err(e); },
    }
    proof {
        let scan = macro_scan(source_view(all), 0, None);
        assert(source_view(expanded@) =~= Seq::new(scan.kept.len(), |k: int| source_view(all)[scan.kept[k]]));
    }
    Ok(expanded)
}

} // verus!
