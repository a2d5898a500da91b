//! The two-pass assembler: pass 1 sizes every line and defines the symbols,
//! pass 2 emits the bytes into a sparse 64 KB output buffer.

use vstd::prelude::*;
use crate::diagnostics::{AsmError, AsmResult, SourceLocation};
use crate::encoding::{Encoding, EncodingCase, EncodingType};
use crate::expr::{eval_expr, Expr, SpecExpr};
use crate::instructions::{encode_instruction, CpuMode, ParsedOperand};
use crate::lexer::{lex, located_view, tokenize_line, LocatedToken, SpecToken, Token};
use crate::parser::{self, line_spec, lines_view, Directive, ParsedLine, PrintArg, SpecDirective, SpecLine, TextItem};
use crate::preprocessor::{expand_macro, parse_macro_invocation, OriginalSource, SourceLine};
use crate::symbols::{constant_clash, constant_defined, constant_deferred, is_variable, label_defined, local_defined, variable_assigned, variable_defined, MacroDef, SymbolTable};
use crate::text::{chars_of, chars_eq, fmt_signed, push_chars, string_of, upper_seq, upper_vec};

verus! {

broadcast use vstd::string::group_string_axioms;

/// The number of iterations a `.loop` may ask for.
pub const MAX_LOOP_ITERATIONS: i64 = 100_000;

/// How deeply macro calls may nest.
pub const MAX_MACRO_DEPTH: usize = 32;

// ---- output buffer ----

/// One more write, counted modulo the machine word.
proof fn lemma_count_next(c: int, m: int)
    requires
        1 < m,
        0 <= c,
    ensures
        ({
            let w = c % m;
            &&& 0 <= w < m
            &&& (if w + 1 > m - 1 {
                w + 1 - m
            } else {
                w + 1
            }) == (c + 1) % m
        }),
{
    vstd::arithmetic::div_mod::lemma_mod_pos_bound(c, m);
    vstd::arithmetic::div_mod::lemma_add_mod_noop(c, 1, m);
    vstd::arithmetic::div_mod::lemma_small_mod(1, m as nat);
    if c % m + 1 < m {
        vstd::arithmetic::div_mod::lemma_small_mod((c % m + 1) as nat, m as nat);
    } else {
        vstd::arithmetic::div_mod::lemma_mod_self_0(m);
    }
}

/// The address `i` bytes after `start`, wrapping around at 64 KB.
pub open spec fn wrap_addr(start: u16, i: int) -> u16 {
    ((start + i) % 0x10000) as u16
}

/// How many bytes after `start` the address `a` lies, going up and wrapping.
pub open spec fn offset_from(start: u16, a: u16) -> int {
    (a - start + 0x10000) % 0x10000
}

/// Of `n` bytes written from some address on, round the 64 KB address
/// space, the index of the last one that lands `o` bytes after it.
pub open spec fn last_write(o: int, n: int) -> int {
    o + 0x10000 * ((n - 1 - o) / 0x10000)
}

/// `after` is `before` with `bytes` written from `pc` on: each address holds
/// the last byte that landed on it.
pub open spec fn written_over(before: &OutputBuffer, after: &OutputBuffer, pc: u16, bytes: Seq<u8>) -> bool {
    forall|a: u16|
        #[trigger] after.byte(a) == if offset_from(pc, a) < bytes.len() {
            Some(bytes[last_write(offset_from(pc, a), bytes.len() as int)])
        } else {
            before.byte(a)
        }
}

/// The lowest address that `n` bytes written from `start` on reach.
pub open spec fn written_low(start: u16, n: int) -> u16 {
    if start + n <= 0x10000 {
        start
    } else {
        0
    }
}

/// The highest address that `n > 0` bytes written from `start` on reach.
pub open spec fn written_high(start: u16, n: int) -> u16 {
    if start + n <= 0x10000 {
        (start + n - 1) as u16
    } else {
        0xffff
    }
}

/// The lowest address written once `w` is written too.
pub open spec fn widen_low(lowest: Option<u16>, w: u16) -> u16 {
    match lowest {
        Some(m) => if w < m {
            w
        } else {
            m
        },
        None => w,
    }
}

/// The highest address written once `w` is written too.
pub open spec fn widen_high(highest: Option<u16>, w: u16) -> u16 {
    match highest {
        Some(m) => if w > m {
            w
        } else {
            m
        },
        None => w,
    }
}

proof fn lemma_last_write_step(o: int, i: int)
    requires
        0 <= o < 0x10000,
        0 <= i,
    ensures
        o == i % 0x10000 ==> last_write(o, i + 1) == i,
        o != i % 0x10000 && o <= i ==> o < i && last_write(o, i + 1) == last_write(o, i),
{
    vstd::arithmetic::div_mod::lemma_fundamental_div_mod(i, 0x10000);
    vstd::arithmetic::div_mod::lemma_mod_pos_bound(i, 0x10000);
    if o <= i {
        let d = i - o;
        vstd::arithmetic::div_mod::lemma_fundamental_div_mod(d, 0x10000);
        vstd::arithmetic::div_mod::lemma_mod_pos_bound(d, 0x10000);
        if o == i % 0x10000 {
            vstd::arithmetic::div_mod::lemma_mod_sub_multiples_vanish(i, 0x10000);
            assert(d % 0x10000 == 0) by {
                vstd::arithmetic::div_mod::lemma_sub_mod_noop(i, o, 0x10000);
                vstd::arithmetic::div_mod::lemma_small_mod(o as nat, 0x10000);
                vstd::arithmetic::div_mod::lemma_mod_self_0(0x10000);
            }
        } else {
            assert(d % 0x10000 != 0) by {
                if d % 0x10000 == 0 {
                    vstd::arithmetic::div_mod::lemma_add_mod_noop(d, o, 0x10000);
                    vstd::arithmetic::div_mod::lemma_small_mod(o as nat, 0x10000);
                }
            }
            let q = d / 0x10000;
            let r = d % 0x10000;
            assert(d - 1 == 0x10000 * q + (r - 1));
            vstd::arithmetic::div_mod::lemma_fundamental_div_mod_converse(d - 1, 0x10000, q, r - 1);
        }
    }
}

proof fn lemma_last_write_once(k: int, n: int)
    requires
        0 <= k < n <= 0x10000,
    ensures
        last_write(k, n) == k,
{
    vstd::arithmetic::div_mod::lemma_basic_div(n - 1 - k, 0x10000);
}

proof fn lemma_offset_of_wrap(start: u16, k: int)
    requires
        0 <= k < 0x10000,
    ensures
        offset_from(start, wrap_addr(start, k)) == k,
{
    if start + k < 0x10000 {
        vstd::arithmetic::div_mod::lemma_small_mod((start + k) as nat, 0x10000);
        assert(wrap_addr(start, k) == start + k);
    } else {
        vstd::arithmetic::div_mod::lemma_fundamental_div_mod_converse(start + k, 0x10000, 1, start + k - 0x10000);
        assert(wrap_addr(start, k) == start + k - 0x10000);
    }
    vstd::arithmetic::div_mod::lemma_fundamental_div_mod_converse(k + 0x10000, 0x10000, 1, k);
    vstd::arithmetic::div_mod::lemma_small_mod(k as nat, 0x10000);
}

proof fn lemma_offset_of_step(start: u16, i: int, o: u16, addr: u16)
    requires
        0 <= i,
        o == i % 0x10000,
        addr == (if start + o > 0xffff {
            start + o - 0x10000
        } else {
            start + o
        }),
    ensures
        offset_from(start, addr) == i % 0x10000,
        start + i + 1 <= 0x10000 ==> addr == start + i,
        start + i == 0x10000 ==> addr == 0,
{
    vstd::arithmetic::div_mod::lemma_mod_pos_bound(i, 0x10000);
    lemma_offset_of_wrap(start, o as int);
    if start + o < 0x10000 {
        vstd::arithmetic::div_mod::lemma_small_mod((start + o) as nat, 0x10000);
    } else {
        vstd::arithmetic::div_mod::lemma_fundamental_div_mod_converse(start + o, 0x10000, 1, start + o - 0x10000);
    }
    if i < 0x10000 {
        vstd::arithmetic::div_mod::lemma_small_mod(i as nat, 0x10000);
    } else if i == 0x10000 {
        vstd::arithmetic::div_mod::lemma_mod_self_0(0x10000);
    }
}

proof fn lemma_offset_injective(start: u16, a: u16, b: u16)
    requires
        a != b,
    ensures
        offset_from(start, a) != offset_from(start, b),
{
    let x = a - start + 0x10000;
    let y = b - start + 0x10000;
    vstd::arithmetic::div_mod::lemma_fundamental_div_mod(x, 0x10000);
    vstd::arithmetic::div_mod::lemma_fundamental_div_mod(y, 0x10000);
    vstd::arithmetic::div_mod::lemma_mod_pos_bound(x, 0x10000);
    vstd::arithmetic::div_mod::lemma_mod_pos_bound(y, 0x10000);
    if x < 0x10000 {
        vstd::arithmetic::div_mod::lemma_small_mod(x as nat, 0x10000);
    } else {
        vstd::arithmetic::div_mod::lemma_fundamental_div_mod_converse(x, 0x10000, 1, x - 0x10000);
    }
    if y < 0x10000 {
        vstd::arithmetic::div_mod::lemma_small_mod(y as nat, 0x10000);
    } else {
        vstd::arithmetic::div_mod::lemma_fundamental_div_mod_converse(y, 0x10000, 1, y - 0x10000);
    }
}

/// Output buffer for assembled code (sparse 64KB address space)
pub struct OutputBuffer {
    data: Vec<Option<u8>>,
    min_addr: Option<u16>,
    max_addr: Option<u16>,
    write_count: usize,
}

impl OutputBuffer {
    /// The buffer holds one cell per address, and the bounds are the lowest
    /// and highest addresses written.
    pub closed spec fn wf(&self) -> bool {
        &&& self.data@.len() == 0x10000
        &&& (self.min_addr is None <==> self.max_addr is None)
        &&& (self.min_addr is None ==> forall|a: int| 0 <= a < 0x10000 ==> #[trigger] self.data@[a] is None)
        &&& (self.min_addr matches Some(lo) ==> self.max_addr matches Some(hi) && lo <= hi && self.data@[lo as int]
            is Some && self.data@[hi as int] is Some && forall|a: int|
            0 <= a < 0x10000 && #[trigger] self.data@[a] is Some ==> lo <= a <= hi)
    }

    /// The byte at `a`, if one was written there.
    pub closed spec fn byte(&self, a: u16) -> Option<u8> {
        self.data@[a as int]
    }

    pub closed spec fn lowest(&self) -> Option<u16> {
        self.min_addr
    }

    pub closed spec fn highest(&self) -> Option<u16> {
        self.max_addr
    }

    pub closed spec fn count(&self) -> usize {
        self.write_count
    }

    pub fn new() -> (r: Self)
        ensures
            r.wf(),
            forall|a: u16| r.byte(a) is None,
            r.lowest() is None,
            r.highest() is None,
            r.count() == 0,
    {
        let mut data: Vec<Option<u8>> = Vec::new();
        let mut i: usize = 0;
        while i < 0x10000
            invariant
                i <= 0x10000,
                data@.len() == i,
                forall|a: int| 0 <= a < i ==> #[trigger] data@[a] is None,
            decreases 0x10000 - i,
        {
            data.push(None);
            i += 1;
        }
        Self { data, min_addr: None, max_addr: None, write_count: 0 }
    }

    /// Stores `byte` at `addr`.
    pub fn write_byte(&mut self, addr: u16, byte: u8)
        requires
            old(self).wf(),
        ensures
            final(self).wf(),
            final(self).byte(addr) == Some(byte),
            forall|a: u16| a != addr ==> final(self).byte(a) == old(self).byte(a),
            written_over(&*old(self), &*final(self), addr, seq![byte]),
            final(self).lowest() == Some(widen_low(old(self).lowest(), addr)),
            final(self).highest() == Some(widen_high(old(self).highest(), addr)),
            final(self).count() == old(self).count().wrapping_add(1),
    {
        proof {
            assert forall|a: u16| #[trigger] offset_from(addr, a) < 1 <==> a == addr by {
                if a != addr {
                    lemma_offset_injective(addr, a, addr);
                }
                lemma_offset_of_wrap(addr, 0);
                vstd::arithmetic::div_mod::lemma_small_mod(addr as nat, 0x10000);
            }
        }
        self.data.set(addr as usize, Some(byte));
        self.min_addr = Some(
            match self.min_addr {
                Some(m) => if addr < m {
                    addr
                } else {
                    m
                },
                None => addr,
            },
        );
        self.max_addr = Some(
            match self.max_addr {
                Some(m) => if addr > m {
                    addr
                } else {
                    m
                },
                None => addr,
            },
        );
        self.write_count = self.write_count.wrapping_add(1);
    }

    /// Stores `bytes` from `start_addr` on, wrapping around at the end of
    /// the address space; a later byte overwrites an earlier one at the same
    /// address.
    pub fn write_bytes(&mut self, start_addr: u16, bytes: &[u8])
        requires
            old(self).wf(),
        ensures
            final(self).wf(),
            written_over(&*old(self), &*final(self), start_addr, bytes@),
            bytes@.len() <= 0x10000 ==> writes_at(&*old(self), &*final(self), start_addr, bytes@),
            bytes@.len() == 0 ==> final(self).lowest() == old(self).lowest() && final(self).highest() == old(
                self,
            ).highest(),
            bytes@.len() > 0 ==> final(self).lowest() == Some(
                widen_low(old(self).lowest(), written_low(start_addr, bytes@.len() as int)),
            ) && final(self).highest() == Some(
                widen_high(old(self).highest(), written_high(start_addr, bytes@.len() as int)),
            ),
            final(self).count() == (old(self).count() + bytes@.len()) % (usize::MAX as int + 1),
    {
        let mut i: usize = 0;
        proof {
            vstd::arithmetic::div_mod::lemma_small_mod(self.count() as nat, (usize::MAX as int + 1) as nat);
        }
        while i < bytes.len()
            invariant
                i <= bytes@.len(),
                self.wf(),
                self.count() == (old(self).count() + i) % (usize::MAX as int + 1),
                forall|a: u16|
                    #[trigger] self.byte(a) == if offset_from(start_addr, a) < i {
                        Some(bytes@[last_write(offset_from(start_addr, a), i as int)])
                    } else {
                        old(self).byte(a)
                    },
                i == 0 ==> self.lowest() == old(self).lowest() && self.highest() == old(self).highest(),
                i > 0 ==> self.lowest() == Some(widen_low(old(self).lowest(), written_low(start_addr, i as int)))
                    && self.highest() == Some(widen_high(old(self).highest(), written_high(start_addr, i as int))),
            decreases bytes@.len() - i,
        {
            let o = (i % 0x10000) as u16;
            let addr = start_addr.wrapping_add(o);
            let ghost prev = *self;
            proof {
                lemma_offset_of_step(start_addr, i as int, o, addr);
                lemma_count_next(old(self).count() + i, usize::MAX as int + 1);
            }
            self.write_byte(addr, bytes[i]);
            proof {
                assert forall|a: u16| #[trigger] self.byte(a) == if offset_from(start_addr, a) < i + 1 {
                    Some(bytes@[last_write(offset_from(start_addr, a), i + 1)])
                } else {
                    old(self).byte(a)
                } by {
                    let oa = offset_from(start_addr, a);
                    lemma_last_write_step(oa, i as int);
                    if a != addr {
                        lemma_offset_injective(start_addr, a, addr);
                        assert(self.byte(a) == prev.byte(a));
                    }
                }
            }
            i += 1;
        }
        proof {
            if bytes@.len() <= 0x10000 {
                assert forall|k: int| 0 <= k < bytes@.len() implies self.byte(#[trigger] wrap_addr(start_addr, k))
                    == Some(bytes@[k]) by {
                    lemma_offset_of_wrap(start_addr, k);
                    lemma_last_write_once(k, bytes@.len() as int);
                }
            }
        }
    }

    /// The bytes from the lowest to the highest address written, with 0
    /// where nothing was written; empty when nothing was written.
    pub fn extract_rom(&self) -> (rom: Vec<u8>)
        requires
            self.wf(),
        ensures
            self.lowest() is None ==> rom@.len() == 0,
            self.lowest() matches Some(lo) ==> self.highest() matches Some(hi) && rom@.len() == hi - lo + 1
                && forall|i: int| 0 <= i < rom@.len() ==> #[trigger] rom@[i] == match self.byte((lo + i) as u16) {
                    Some(b) => b,
                    None => 0u8,
                },
    {
        let min = match self.min_addr {
            Some(a) => a as usize,
            None => { return Vec::new(); },
        };
        let max = match self.max_addr {
            Some(a) => a as usize,
            None => { return Vec::new(); },
        };
        let mut rom: Vec<u8> = Vec::new();
        let mut i = min;
        while i <= max
            invariant
                self.wf(),
                min <= i <= max + 1,
                max < 0x10000,
                self.min_addr == Some(min as u16),
                rom@.len() == i - min,
                forall|k: int| 0 <= k < rom@.len() ==> #[trigger] rom@[k] == match self.byte((min + k) as u16) {
                    Some(b) => b,
                    None => 0u8,
                },
            decreases max + 1 - i,
        {
            let b = match self.data[i] {
                Some(b) => b,
                None => 0,
            };
            rom.push(b);
            i += 1;
        }
        rom
    }

    pub fn min_addr(&self) -> (r: Option<u16>)
        ensures
            r == self.lowest(),
    {
        self.min_addr
    }

    pub fn max_addr(&self) -> (r: Option<u16>)
        ensures
            r == self.highest(),
    {
        self.max_addr
    }

    pub fn read_byte(&self, addr: u16) -> (r: Option<u8>)
        requires
            self.wf(),
        ensures
            r == self.byte(addr),
    {
        self.data[addr as usize]
    }

    pub fn write_count(&self) -> (r: usize)
        ensures
            r == self.count(),
    {
        self.write_count
    }
}

/// The lowest and highest addresses of a buffer are addresses that were
/// written, and no written address lies outside them; with nothing written
/// there are none.
pub proof fn law_bounds_are_the_written_extremes(out: &OutputBuffer)
    requires
        out.wf(),
    ensures
        out.lowest() is None <==> out.highest() is None,
        out.lowest() is None ==> forall|a: u16| out.byte(a) is None,
        out.lowest() matches Some(lo) ==> out.byte(lo) is Some && forall|a: u16| #[trigger] out.byte(a) is Some ==> lo <= a,
        out.highest() matches Some(hi) ==> out.byte(hi) is Some && forall|a: u16| #[trigger] out.byte(a) is Some ==> a <= hi,
{
}

/// Whether one of the writes `ops` (each a start address and its bytes)
/// reaches address `a`.
pub open spec fn touched(ops: Seq<(u16, Seq<u8>)>, a: u16) -> bool {
    exists|i: int| 0 <= i < ops.len() && #[trigger] offset_from(ops[i].0, a) < ops[i].1.len()
}

/// Whether buffer `bufs[i + 1]` is `bufs[i]` after write `ops[i]`.
pub open spec fn write_done(bufs: Seq<OutputBuffer>, ops: Seq<(u16, Seq<u8>)>, i: int) -> bool {
    &&& bufs[i + 1].wf()
    &&& written_over(&bufs[i], &bufs[i + 1], ops[i].0, ops[i].1)
}

proof fn lemma_touched_prefix(bufs: Seq<OutputBuffer>, ops: Seq<(u16, Seq<u8>)>, n: int)
    requires
        bufs.len() == ops.len() + 1,
        0 <= n <= ops.len(),
        forall|a: u16| bufs[0].byte(a) is None,
        forall|i: int| 0 <= i < ops.len() ==> #[trigger] write_done(bufs, ops, i),
    ensures
        forall|a: u16| bufs[n].byte(a) is Some <==> #[trigger] touched(ops.take(n), a),
    decreases n,
{
    if n > 0 {
        lemma_touched_prefix(bufs, ops, n - 1);
        assert(write_done(bufs, ops, n - 1));
        assert forall|a: u16| bufs[n].byte(a) is Some <==> #[trigger] touched(ops.take(n), a) by {
            let o = ops[n - 1];
            if offset_from(o.0, a) < o.1.len() {
                assert(ops.take(n)[n - 1] == o);
            } else {
                if touched(ops.take(n), a) {
                    let i = choose|i: int| 0 <= i < ops.take(n).len() && #[trigger] offset_from(ops.take(n)[i].0, a)
                        < ops.take(n)[i].1.len();
                    assert(ops.take(n - 1)[i] == ops.take(n)[i]);
                }
                if touched(ops.take(n - 1), a) {
                    let i = choose|i: int| 0 <= i < ops.take(n - 1).len() && #[trigger] offset_from(
                        ops.take(n - 1)[i].0,
                        a,
                    ) < ops.take(n - 1)[i].1.len();
                    assert(ops.take(n)[i] == ops.take(n - 1)[i]);
                }
            }
        }
    } else {
        assert forall|a: u16| !#[trigger] touched(ops.take(0), a) by {}
    }
}

/// Over any sequence of writes into a new buffer (`bufs[0]`, with nothing
/// written), the bytes that hold a value are exactly those the writes
/// reached, and the lowest and highest addresses are the least and the
/// greatest of them (none when nothing was reached).
pub proof fn law_bounds_over_writes(bufs: Seq<OutputBuffer>, ops: Seq<(u16, Seq<u8>)>)
    requires
        bufs.len() == ops.len() + 1,
        bufs[0].wf(),
        forall|a: u16| bufs[0].byte(a) is None,
        forall|i: int| 0 <= i < ops.len() ==> #[trigger] write_done(bufs, ops, i),
    ensures
        forall|a: u16| bufs.last().byte(a) is Some <==> #[trigger] touched(ops, a),
        bufs.last().lowest() is None <==> forall|a: u16| !#[trigger] touched(ops, a),
        bufs.last().lowest() matches Some(lo) ==> touched(ops, lo) && forall|a: u16| #[trigger] touched(ops, a)
            ==> lo <= a,
        bufs.last().highest() matches Some(hi) ==> touched(ops, hi) && forall|a: u16| #[trigger] touched(ops, a)
            ==> a <= hi,
{
    lemma_touched_prefix(bufs, ops, ops.len() as int);
    assert(ops.take(ops.len() as int) =~= ops);
    let last = bufs.last();
    if ops.len() > 0 {
        assert(write_done(bufs, ops, ops.len() - 1));
        assert(last.wf());
    }
    law_bounds_are_the_written_extremes(&last);
    if let Some(lo) = last.lowest() {
        assert(touched(ops, lo));
    }
}

/// The ROM image spans exactly the lowest to the highest address written,
/// and every written byte appears in it at its offset from the lowest.
pub proof fn law_rom_holds_every_written_byte(out: &OutputBuffer, a: u16)
    requires
        out.wf(),
        out.byte(a) is Some,
    ensures
        out.lowest() matches Some(lo) && out.highest() matches Some(hi) && lo <= a <= hi,
{
}

// ---- listing, settings, data files ----

/// A single entry for the listing file
#[derive(Debug, Clone)]
pub struct ListingLine {
    pub file: String,
    pub line_num: usize,
    pub text: String,
    pub addr: u16,
    pub byte_count: usize,
    /// If this line is from a macro expansion
    pub macro_expansion: bool,
}

/// Assembler settings that can be modified by .setting
#[derive(Debug, Clone)]
pub struct AssemblerSettings {
    pub optional_enabled: bool,
}

impl Default for AssemblerSettings {
    fn default() -> (r: Self)
        ensures
            r.optional_enabled,
    {
        Self { optional_enabled: true }
    }
}

/// The binary files that `.incbin` and `.filesize` may read, by path.
pub struct DataFiles {
    entries: Vec<(String, Vec<u8>)>,
}

pub open spec fn data_lookup(s: Seq<(String, Vec<u8>)>, p: Seq<char>) -> Option<Seq<u8>>
    decreases s.len(),
{
    if s.len() == 0 {
        None
    } else if s.last().0@ == p {
        Some(s.last().1@)
    } else {
        data_lookup(s.drop_last(), p)
    }
}

impl DataFiles {
    /// The bytes of the file at `p`, if it is known.
    pub closed spec fn data(&self, p: Seq<char>) -> Option<Seq<u8>> {
        data_lookup(self.entries@, p)
    }

    pub fn new() -> (r: DataFiles)
        ensures
            forall|p: Seq<char>| r.data(p) is None,
    {
        DataFiles { entries: Vec::new() }
    }

    /// Records that the file at `path` holds `bytes`.
    pub fn add(&mut self, path: &str, bytes: Vec<u8>)
        ensures
            final(self).data(path@) == Some(bytes@),
            forall|p: Seq<char>| p != path@ ==> final(self).data(p) == old(self).data(p),
    {
        let ghost old_e = self.entries@;
        self.entries.push((String::from_str(path), bytes));
        assert(self.entries@.drop_last() == old_e);
    }

    /// The bytes of the file at `path`.
    pub fn get(&self, path: &str) -> (r: Option<&Vec<u8>>)
        ensures
            r matches Some(b) ==> self.data(path@) == Some(b@),
            r is None ==> self.data(path@) is None,
    {
        let mut j = self.entries.len();
        assert(self.entries@.subrange(0, j as int) =~= self.entries@);
        while j > 0
            invariant
                j <= self.entries@.len(),
                self.data(path@) == data_lookup(self.entries@.subrange(0, j as int), path@),
            decreases j,
        {
            let ghost sub = self.entries@.subrange(0, j as int);
            assert(sub.drop_last() =~= self.entries@.subrange(0, j - 1));
            if chars_eq(&chars_of(self.entries[j - 1].0.as_str()), &chars_of(path)) {
                return Some(&self.entries[j - 1].1);
            }
            j -= 1;
        }
        None
    }
}

// ---- parsing source lines ----

/// The token values of a lexed line.
pub open spec fn token_values(l: Seq<(SpecToken, int)>) -> Seq<SpecToken> {
    Seq::new(l.len(), |i: int| l[i].0)
}

/// The parsed form of a line of text; `None` when it does not tokenize or
/// does not parse.
pub open spec fn parsed_text(text: Seq<char>) -> Option<Seq<SpecLine>> {
    match lex(text) {
        Some(ts) => line_spec(token_values(ts)),
        None => None,
    }
}

proof fn lemma_token_values(toks: Seq<LocatedToken>)
    ensures
        crate::expr::tok_seq(toks) == token_values(located_view(toks)),
{
    assert(crate::expr::tok_seq(toks) =~= token_values(located_view(toks)));
}

/// What the error says when `line` fails to tokenize or to parse: the
/// tokenizer's error at the line, or what `line_error` says of its tokens.
pub open spec fn source_line_error(line: SourceLine, err: AsmError) -> bool {
    match lex(line.text@) {
        None => {
            &&& err.message@ == "Unexpected character or malformed literal"@
            &&& err.location matches Some(l) && l.file@ == line.file@ && l.line == line.line_num
        },
        Some(ts) => crate::parser::line_error(token_values(ts), err),
    }
}

/// Tokenizes and parses one source line; `Ok(None)` for a line without
/// tokens.
fn parse_source_line(line: &SourceLine, cpu_mode: CpuMode) -> (r: AsmResult<Option<Vec<ParsedLine>>>)
    ensures
        r matches Ok(None) ==> lex(line.text@) == Some(Seq::<(SpecToken, int)>::empty()),
        r matches Ok(Some(p)) ==> lex(line.text@) != Some(Seq::<(SpecToken, int)>::empty()) && parsed_text(
            line.text@,
        ) == Some(lines_view(p@)),
        r is Err ==> parsed_text(line.text@) is None,
        r is Err ==> lex(line.text@) != Some(Seq::<(SpecToken, int)>::empty()),
        r matches Err(e) ==> source_line_error(*line, e),
{
    let tokens = match tokenize_line(line.text.as_str(), line.file.as_str(), line.line_num) {
        Ok(t) => t,
        Err(e) => { return Err(e); },
    };
    proof { lemma_token_values(tokens@); }
    if tokens.len() == 0 {
        assert(located_view(tokens@) =~= Seq::<(SpecToken, int)>::empty());
        return Ok(None);
    }
    assert(located_view(tokens@).len() > 0);
    match parser::parse_line(&tokens, cpu_mode) {
        Ok(parsed) => Ok(Some(parsed)),
        Err(e) => Err(e),
    }
}

/// The kinds of block that `.if`, `.loop` and `.optional` open.
#[derive(Clone, Copy, PartialEq, Eq, Structural)]
pub enum BlockKind {
    If,
    Loop,
    Optional,
}

/// The directive that ends a block of `kind`.
pub open spec fn end_directive_text(kind: BlockKind) -> Seq<char> {
    match kind {
        BlockKind::If => ".endif"@,
        BlockKind::Loop => ".endloop"@,
        BlockKind::Optional => ".endoptional"@,
    }
}

impl BlockKind {
    fn end_directive_name(self) -> (r: &'static str)
        ensures
            r@ == end_directive_text(self),
    {
        match self {
            BlockKind::If => ".endif",
            BlockKind::Loop => ".endloop",
            BlockKind::Optional => ".endoptional",
        }
    }
}

/// Whether a parsed line opens a block of `kind`.
pub open spec fn opens_block(l: SpecLine, kind: BlockKind) -> bool {
    match l {
        SpecLine::Directive(d) => match (d, kind) {
            (SpecDirective::If(_), BlockKind::If) => true,
            (SpecDirective::Loop(_), BlockKind::Loop) => true,
            (SpecDirective::Optional, BlockKind::Optional) => true,
            _ => false,
        },
        _ => false,
    }
}

/// Whether a parsed line closes a block of `kind`.
pub open spec fn closes_block(l: SpecLine, kind: BlockKind) -> bool {
    match l {
        SpecLine::Directive(d) => match (d, kind) {
            (SpecDirective::EndIf, BlockKind::If) => true,
            (SpecDirective::EndLoop, BlockKind::Loop) => true,
            (SpecDirective::EndOptional, BlockKind::Optional) => true,
            _ => false,
        },
        _ => false,
    }
}

/// A line that is exactly one directive opening a block of `kind`.
pub open spec fn line_opens(text: Seq<char>, kind: BlockKind) -> bool {
    parsed_text(text) matches Some(ls) && ls.len() == 1 && opens_block(ls[0], kind)
}

/// Scanning the lines from `idx` at nesting `depth`: `None` when a line
/// fails to parse, `Some(None)` when no line closes the block, else the
/// index of the closing line.
pub open spec fn block_end_from(texts: Seq<Seq<char>>, idx: int, kind: BlockKind, depth: int) -> Option<Option<int>>
    decreases texts.len() - idx,
{
    if idx < 0 || idx >= texts.len() {
        Some(None)
    } else {
        match parsed_text(texts[idx]) {
            None => None,
            Some(ls) => if ls.len() == 1 && opens_block(ls[0], kind) {
                block_end_from(texts, idx + 1, kind, depth + 1)
            } else if ls.len() == 1 && closes_block(ls[0], kind) {
                if depth - 1 == 0 {
                    Some(Some(idx))
                } else {
                    block_end_from(texts, idx + 1, kind, depth - 1)
                }
            } else {
                block_end_from(texts, idx + 1, kind, depth)
            },
        }
    }
}

pub open spec fn texts_of(lines: Seq<SourceLine>) -> Seq<Seq<char>> {
    Seq::new(lines.len(), |i: int| lines[i].text@)
}

proof fn lemma_block_end_bounds(texts: Seq<Seq<char>>, idx: int, kind: BlockKind, depth: int)
    requires
        0 <= idx,
    ensures
        block_end_from(texts, idx, kind, depth) matches Some(Some(e)) ==> idx <= e < texts.len(),
    decreases texts.len() - idx,
{
    if idx < texts.len() {
        lemma_block_end_bounds(texts, idx + 1, kind, depth + 1);
        lemma_block_end_bounds(texts, idx + 1, kind, depth - 1);
        lemma_block_end_bounds(texts, idx + 1, kind, depth);
    }
}

fn control_kind(l: &ParsedLine, kind: BlockKind) -> (r: (bool, bool))
    ensures
        r.0 == opens_block(l.spec_view(), kind),
        r.1 == closes_block(l.spec_view(), kind),
{
    match l {
        ParsedLine::Directive(d) => match (d, kind) {
            (Directive::If(_), BlockKind::If) => (true, false),
            (Directive::Loop(_), BlockKind::Loop) => (true, false),
            (Directive::Optional, BlockKind::Optional) => (true, false),
            (Directive::EndIf, BlockKind::If) => (false, true),
            (Directive::EndLoop, BlockKind::Loop) => (false, true),
            (Directive::EndOptional, BlockKind::Optional) => (false, true),
            _ => (false, false),
        },
        _ => (false, false),
    }
}

/// The index of the line that closes the block opened at `start`.
fn find_matching_block_end(lines: &[SourceLine], start: usize, kind: BlockKind, cpu_mode: CpuMode) -> (r: AsmResult<
    usize,
>)
    requires
        start < lines@.len(),
        line_opens(lines@[start as int].text@, kind),
    ensures
        r matches Ok(e) ==> block_end_from(texts_of(lines@), start as int, kind, 0) == Some(Some(e as int)) && start
            < e < lines@.len(),
        r is Err ==> !(block_end_from(texts_of(lines@), start as int, kind, 0) matches Some(Some(_))),
        block_end_from(texts_of(lines@), start as int, kind, 0) == Some(Option::<int>::None) ==> (r matches Err(e)
            && e.message@ == "Missing "@ + end_directive_text(kind) && located_at_line(e, lines@[start as int])),
{
    let ghost texts = texts_of(lines@);
    let mut depth: usize = 0;
    let mut idx = start;
    while idx < lines.len()
        invariant
            start <= idx <= lines@.len(),
            texts == texts_of(lines@),
            line_opens(lines@[start as int].text@, kind),
            idx > start ==> depth >= 1,
            depth <= idx - start,
            block_end_from(texts, start as int, kind, 0) == block_end_from(texts, idx as int, kind, depth as int),
        decreases lines@.len() - idx,
    {
        let line = &lines[idx];
        assert(texts[idx as int] == line.text@);
        let parsed = match parse_source_line(line, cpu_mode) {
            Ok(p) => p,
            Err(e) => { return Err(e); },
        };
        match parsed {
            None => {
                proof {
                    assert(parsed_text(line.text@) == Some(seq![SpecLine::Empty])) by {
                        assert(token_values(Seq::<(SpecToken, int)>::empty()) =~= Seq::<SpecToken>::empty());
                    }
                }
            },
            Some(p) => {
                if p.len() == 1 {
                    let (opens, closes) = control_kind(&p[0], kind);
                    assert(lines_view(p@)[0] == p@[0].spec_view());
                    if opens {
                        depth = depth + 1;
                    } else if closes {
                        depth = depth - 1;
                        if depth == 0 {
                            return Ok(idx);
                        }
                    }
                }
            },
        }
        idx += 1;
    }
    let e = AsmError::new("Missing ");
    let mut msg = e.message;
    push_chars(&mut msg, &chars_of(kind.end_directive_name()));
    Err(AsmError { location: None, message: msg, source_line: None }.ensure_location(
        lines[start].file.as_str(),
        lines[start].line_num,
    ))
}

// ---- optional blocks ----

/// The names a parsed line defines: labels, global constants, variables.
pub open spec fn defined_names(ls: Seq<SpecLine>) -> Seq<Seq<char>>
    decreases ls.len(),
{
    if ls.len() == 0 {
        Seq::empty()
    } else {
        let here = match ls[0] {
            SpecLine::Label(n) => seq![n],
            SpecLine::ConstDef { name, is_local, expr: _ } => if is_local {
                Seq::empty()
            } else {
                seq![name]
            },
            SpecLine::VarDef { name, expr: _ } => seq![name],
            _ => Seq::empty(),
        };
        here + defined_names(ls.drop_first())
    }
}

/// The names defined by the lines `texts[a..b]`; `None` when one fails to parse.
pub open spec fn block_names(texts: Seq<Seq<char>>, a: int, b: int) -> Option<Seq<Seq<char>>>
    decreases b - a,
{
    if a >= b {
        Some(Seq::empty())
    } else {
        match parsed_text(texts[a]) {
            None => None,
            Some(ls) => match block_names(texts, a + 1, b) {
                Some(rest) => Some(defined_names(ls) + rest),
                None => None,
            },
        }
    }
}

fn names_of_parsed(p: &Vec<ParsedLine>) -> (r: Vec<String>)
    ensures
        crate::preprocessor::strings_view(r@) == defined_names(lines_view(p@)),
{
    let ghost lv = lines_view(p@);
    let mut names: Vec<String> = Vec::new();
    let mut k: usize = 0;
    assert(lv.subrange(0, lv.len() as int) =~= lv);
    assert(crate::preprocessor::strings_view(names@) + defined_names(lv) =~= defined_names(lv));
    while k < p.len()
        invariant
            k <= p@.len(),
            lv == lines_view(p@),
            defined_names(lv) == crate::preprocessor::strings_view(names@) + defined_names(lv.subrange(k as int, lv.len() as int)),
        decreases p@.len() - k,
    {
        let ghost sub = lv.subrange(k as int, lv.len() as int);
        assert(sub.drop_first() =~= lv.subrange(k + 1, lv.len() as int));
        assert(sub[0] == p@[k as int].spec_view());
        let ghost old_names = crate::preprocessor::strings_view(names@);
        match &p[k] {
            ParsedLine::Label(n) => {
                names.push(n.clone());
                assert(crate::preprocessor::strings_view(names@) =~= old_names + seq![n@]);
            },
            ParsedLine::ConstDef { name, is_local, expr: _ } => {
                if !*is_local {
                    names.push(name.clone());
                    assert(crate::preprocessor::strings_view(names@) =~= old_names + seq![name@]);
                } else {
                    assert(crate::preprocessor::strings_view(names@) =~= old_names + Seq::<Seq<char>>::empty());
                }
            },
            ParsedLine::VarDef { name, expr: _ } => {
                names.push(name.clone());
                assert(crate::preprocessor::strings_view(names@) =~= old_names + seq![name@]);
            },
            _ => {
                assert(crate::preprocessor::strings_view(names@) =~= old_names + Seq::<Seq<char>>::empty());
            },
        }
        proof {
            assert(defined_names(sub) == (match sub[0] {
                SpecLine::Label(n) => seq![n],
                SpecLine::ConstDef { name, is_local, expr: _ } => if is_local {
                    Seq::empty()
                } else {
                    seq![name]
                },
                SpecLine::VarDef { name, expr: _ } => seq![name],
                _ => Seq::empty(),
            }) + defined_names(sub.drop_first()));
            assert(crate::preprocessor::strings_view(names@) + defined_names(lv.subrange(k + 1, lv.len() as int))
                =~= old_names + defined_names(sub));
        }
        k += 1;
    }
    assert(lv.subrange(p@.len() as int, lv.len() as int) =~= Seq::<SpecLine>::empty());
    assert(crate::preprocessor::strings_view(names@) + Seq::<Seq<char>>::empty() =~= crate::preprocessor::strings_view(
        names@,
    ));
    names
}

fn collect_optional_block_symbols(lines: &[SourceLine], a: usize, b: usize, cpu_mode: CpuMode) -> (r: AsmResult<
    Vec<String>,
>)
    requires
        a <= b <= lines@.len(),
    ensures
        r matches Ok(v) ==> block_names(texts_of(lines@), a as int, b as int) == Some(
            crate::preprocessor::strings_view(v@),
        ),
        r is Err ==> block_names(texts_of(lines@), a as int, b as int) is None,
{
    let ghost texts = texts_of(lines@);
    let mut names: Vec<String> = Vec::new();
    let mut i = a;
    assert(crate::preprocessor::strings_view(names@) =~= Seq::<Seq<char>>::empty());
    while i < b
        invariant
            a <= i <= b <= lines@.len(),
            texts == texts_of(lines@),
            block_names(texts, a as int, b as int) == match block_names(texts, i as int, b as int) {
                Some(rest) => Some(crate::preprocessor::strings_view(names@) + rest),
                None => None,
            },
        decreases b - i,
    {
        assert(texts[i as int] == lines@[i as int].text@);
        let parsed = parse_source_line(&lines[i], cpu_mode)?;
        let ghost old_names = crate::preprocessor::strings_view(names@);
        match parsed {
            None => {
                assert(parsed_text(texts[i as int]) == Some(seq![SpecLine::Empty])) by {
                    assert(token_values(Seq::<(SpecToken, int)>::empty()) =~= Seq::<SpecToken>::empty());
                }
                assert(defined_names(seq![SpecLine::Empty]) =~= Seq::<Seq<char>>::empty()) by {
                    reveal_with_fuel(defined_names, 2);
                    assert(seq![SpecLine::Empty].drop_first() =~= Seq::<SpecLine>::empty());
                }
                proof {
                    match block_names(texts, i + 1, b as int) {
                        Some(rest) => {
                            assert(old_names + (Seq::<Seq<char>>::empty() + rest) =~= old_names + rest);
                        },
                        None => {},
                    }
                }
            },
            Some(p) => {
                let found = names_of_parsed(&p);
                let mut k: usize = 0;
                while k < found.len()
                    invariant
                        k <= found@.len(),
                        crate::preprocessor::strings_view(names@) == old_names + crate::preprocessor::strings_view(
                            found@,
                        ).subrange(0, k as int),
                    decreases found@.len() - k,
                {
                    let ghost before = crate::preprocessor::strings_view(names@);
                    let item = found[k].clone();
                    names.push(item);
                    assert(crate::preprocessor::strings_view(names@) =~= before.push(found@[k as int]@));
                    assert(crate::preprocessor::strings_view(found@).subrange(0, k + 1) =~= crate::preprocessor::strings_view(
                        found@,
                    ).subrange(0, k as int).push(found@[k as int]@));
                    k += 1;
                }
                assert(crate::preprocessor::strings_view(found@).subrange(0, found@.len() as int) =~= crate::preprocessor::strings_view(
                    found@,
                ));
                proof {
                    match block_names(texts, i + 1, b as int) {
                        Some(rest) => {
                            assert(old_names + (crate::preprocessor::strings_view(found@) + rest) =~= crate::preprocessor::strings_view(
                                names@,
                            ) + rest);
                        },
                        None => {},
                    }
                }
            },
        }
        i += 1;
    }
    assert(crate::preprocessor::strings_view(names@) + Seq::<Seq<char>>::empty() =~= crate::preprocessor::strings_view(
        names@,
    ));
    Ok(names)
}

/// Whether a lexed line has an identifier token among `names`.
pub open spec fn mentions_any(ts: Seq<(SpecToken, int)>, names: Seq<Seq<char>>) -> bool {
    exists|k: int, j: int| 0 <= k < ts.len() && 0 <= j < names.len() && ts[k].0 == SpecToken::Identifier(names[j])
}

/// Scanning the lines from `idx`, skipping `[a, b)`: whether one outside
/// the block mentions one of `names`; `None` when a line fails to tokenize
/// before such a mention.
pub open spec fn mentioned_from(texts: Seq<Seq<char>>, idx: int, a: int, b: int, names: Seq<Seq<char>>) -> Option<
    bool,
>
    decreases texts.len() - idx,
{
    if idx < 0 || idx >= texts.len() {
        Some(false)
    } else if a <= idx < b {
        mentioned_from(texts, idx + 1, a, b, names)
    } else {
        match lex(texts[idx]) {
            None => None,
            Some(ts) => if mentions_any(ts, names) {
                Some(true)
            } else {
                mentioned_from(texts, idx + 1, a, b, names)
            },
        }
    }
}

/// Whether an `.optional` block `[a, b)` is kept: it defines a name that a
/// line outside it mentions.
pub open spec fn optional_kept(texts: Seq<Seq<char>>, a: int, b: int) -> Option<bool> {
    match block_names(texts, a, b) {
        None => None,
        Some(names) => if names.len() == 0 {
            Some(false)
        } else {
            mentioned_from(texts, 0, a, b, names)
        },
    }
}

fn should_include_optional_block(lines: &[SourceLine], a: usize, b: usize, cpu_mode: CpuMode) -> (r: AsmResult<bool>)
    requires
        a <= b <= lines@.len(),
    ensures
        r matches Ok(k) ==> optional_kept(texts_of(lines@), a as int, b as int) == Some(k),
        r is Err ==> optional_kept(texts_of(lines@), a as int, b as int) is None,
{
    let ghost texts = texts_of(lines@);
    let defined = collect_optional_block_symbols(lines, a, b, cpu_mode)?;
    if defined.len() == 0 {
        return Ok(false);
    }
    let ghost names = crate::preprocessor::strings_view(defined@);
    let mut idx: usize = 0;
    while idx < lines.len()
        invariant
            idx <= lines@.len(),
            a <= b <= lines@.len(),
            texts == texts_of(lines@),
            names == crate::preprocessor::strings_view(defined@),
            block_names(texts, a as int, b as int) == Some(names),
            names.len() > 0,
            mentioned_from(texts, 0, a as int, b as int, names) == mentioned_from(texts, idx as int, a as int, b as int, names),
        decreases lines@.len() - idx,
    {
        if idx >= a && idx < b {
            idx += 1;
            continue;
        }
        let line = &lines[idx];
        assert(texts[idx as int] == line.text@);
        let tokens = match tokenize_line(line.text.as_str(), line.file.as_str(), line.line_num) {
            Ok(t) => t,
            Err(e) => {
                assert(mentioned_from(texts, idx as int, a as int, b as int, names) is None);
                return Err(e);
            },
        };
        let ghost lv = located_view(tokens@);
        let mut k: usize = 0;
        while k < tokens.len()
            invariant
                k <= tokens@.len(),
                lv == located_view(tokens@),
                names == crate::preprocessor::strings_view(defined@),
                texts == texts_of(lines@),
                idx < lines@.len(),
                !(a <= idx < b),
                lex(texts[idx as int]) == Some(lv),
                block_names(texts, a as int, b as int) == Some(names),
                names.len() > 0,
                mentioned_from(texts, 0, a as int, b as int, names) == mentioned_from(texts, idx as int, a as int, b as int, names),
                forall|kk: int, j: int| 0 <= kk < k && 0 <= j < names.len() ==> lv[kk].0 != SpecToken::Identifier(names[j]),
            decreases tokens@.len() - k,
        {
            match &tokens[k].value {
                Token::Identifier(name) => {
                    let mut j: usize = 0;
                    while j < defined.len()
                        invariant
                            j <= defined@.len(),
                            k < tokens@.len(),
                            lv == located_view(tokens@),
                            names == crate::preprocessor::strings_view(defined@),
                            texts == texts_of(lines@),
                            idx < lines@.len(),
                            !(a <= idx < b),
                            lex(texts[idx as int]) == Some(lv),
                            block_names(texts, a as int, b as int) == Some(names),
                            names.len() > 0,
                            mentioned_from(texts, 0, a as int, b as int, names) == mentioned_from(texts, idx as int, a as int, b as int, names),
                            tokens@[k as int].value == Token::Identifier(*name),
                            forall|jj: int| 0 <= jj < j ==> lv[k as int].0 != SpecToken::Identifier(names[jj]),
                        decreases defined@.len() - j,
                    {
                        if defined[j] == *name {
                            assert(lv[k as int].0 == SpecToken::Identifier(names[j as int]));
                            assert(mentions_any(lv, names));
                            assert(mentioned_from(texts, idx as int, a as int, b as int, names) == Some(true));
                            return Ok(true);
                        }
                        j += 1;
                    }
                },
                _ => {},
            }
            k += 1;
        }
        assert(!mentions_any(lv, names));
        idx += 1;
    }
    Ok(false)
}

// ---- text sizes ----

/// The number of bytes of the UTF-8 encoding of `c`.
pub open spec fn utf8_len(c: char) -> int {
    if (c as u32) < 0x80 {
        1
    } else if (c as u32) < 0x800 {
        2
    } else if (c as u32) < 0x10000 {
        3
    } else {
        4
    }
}

/// The number of bytes of the UTF-8 encoding of `s`.
pub open spec fn utf8_size(s: Seq<char>) -> int
    decreases s.len(),
{
    if s.len() == 0 {
        0
    } else {
        utf8_size(s.drop_last()) + utf8_len(s.last())
    }
}

/// The size pass 1 reserves for `.text` items: the UTF-8 length of each
/// string, one byte per character item.
pub open spec fn text_size(items: Seq<crate::parser::SpecTextItem>) -> int
    decreases items.len(),
{
    if items.len() == 0 {
        0
    } else {
        text_size(items.drop_last()) + match items.last() {
            crate::parser::SpecTextItem::Str(s) => utf8_size(s),
            crate::parser::SpecTextItem::Char(_) => 1,
        }
    }
}

/// The bytes `.text` items encode to.
pub open spec fn text_bytes(enc: Encoding, items: Seq<crate::parser::SpecTextItem>) -> Seq<u8>
    decreases items.len(),
{
    if items.len() == 0 {
        Seq::empty()
    } else {
        text_bytes(enc, items.drop_last()) + match items.last() {
            crate::parser::SpecTextItem::Str(s) => enc.spec_string(s),
            crate::parser::SpecTextItem::Char(c) => seq![enc.spec_char(c)],
        }
    }
}

fn utf8_size_mod(s: &str) -> (r: u16)
    ensures
        r == utf8_size(s@) % 0x10000,
{
    let v = chars_of(s);
    let mut total: u16 = 0;
    let mut i: usize = 0;
    while i < v.len()
        invariant
            i <= v@.len(),
            v@ == s@,
            total == utf8_size(v@.take(i as int)) % 0x10000,
        decreases v@.len() - i,
    {
        let c = v[i];
        let n: u16 = if (c as u32) < 0x80 {
            1
        } else if (c as u32) < 0x800 {
            2
        } else if (c as u32) < 0x10000 {
            3
        } else {
            4
        };
        assert(v@.take(i + 1).drop_last() =~= v@.take(i as int));
        total = total.wrapping_add(n);
        i += 1;
    }
    assert(v@.take(v@.len() as int) =~= v@);
    total
}

// ---- the assembler ----

/// The main assembler context
pub struct Assembler {
    pub symbols: SymbolTable,
    pub output: OutputBuffer,
    pub listing_data: Vec<ListingLine>,
    pub original_sources: Vec<OriginalSource>,
    pub pc: u16,
    pub cpu_mode: CpuMode,
    pub encoding: Encoding,
    pub settings: AssemblerSettings,
    pub errors: Vec<AsmError>,
    pub quiet: bool,
    /// The messages of the `.print` directives met in pass 2, in order.
    pub printed: Vec<String>,
    /// The files `.incbin` and `.filesize` read.
    pub files: DataFiles,
    /// The directory `.incbin` and `.filesize` paths are relative to.
    pub project_dir: String,
    /// How many macro calls are being expanded.
    pub macro_depth: usize,
}

/// What a list of listing entries looks like: only appended to.
pub open spec fn listing_extends(a: Seq<ListingLine>, b: Seq<ListingLine>) -> bool {
    a.len() <= b.len() && forall|i: int| 0 <= i < a.len() ==> #[trigger] b[i] == a[i]
}

impl Assembler {
    /// The symbol table and the output buffer are well formed and macro
    /// calls nest at most 32 deep.
    pub open spec fn inv(&self) -> bool {
        &&& self.symbols.wf()
        &&& self.output.wf()
        &&& self.macro_depth <= MAX_MACRO_DEPTH
    }

    pub open spec fn depth(&self) -> usize {
        self.macro_depth
    }

    pub open spec fn dir(&self) -> Seq<char> {
        self.project_dir@
    }

    pub fn new(cpu_mode: CpuMode, project_dir: &str) -> (r: Self)
        ensures
            r.inv(),
            r.depth() == 0,
            r.dir() == project_dir@,
            r.pc == 0,
            r.cpu_mode == cpu_mode,
            r.encoding.encoding_type == EncodingType::Ascii,
            r.encoding.case == EncodingCase::Mixed,
            r.settings.optional_enabled,
            r.listing_data@.len() == 0,
            r.printed@.len() == 0,
            r.original_sources@.len() == 0,
            r.errors@.len() == 0,
            !r.quiet,
            forall|a: u16| r.output.byte(a) is None,
            r.output.lowest() is None,
            r.output.count() == 0,
            forall|p: Seq<char>| r.files.data(p) is None,
            r.symbols.scope() == 0,
            r.symbols.call_count() == 0,
            r.symbols.local_counter() == 0,
            r.symbols.scope_stack().len() == 0,
            forall|k: Seq<char>| r.symbols.global(k) is None,
            forall|k: Seq<char>| r.symbols.macro_def(k) is None,
    {
        Self {
            symbols: SymbolTable::new(),
            output: OutputBuffer::new(),
            listing_data: Vec::new(),
            original_sources: Vec::new(),
            pc: 0,
            cpu_mode,
            encoding: Encoding::default_encoding(),
            settings: AssemblerSettings { optional_enabled: true },
            errors: Vec::new(),
            quiet: false,
            printed: Vec::new(),
            files: DataFiles::new(),
            project_dir: String::from_str(project_dir),
            macro_depth: 0,
        }
    }

    pub fn project_dir(&self) -> (r: &str)
        ensures
            r@ == self.dir(),
    {
        self.project_dir.as_str()
    }

    /// Evaluates `expr` at the current address, with global, macro-local and
    /// local symbols.
    fn eval_expr(&self, expr: &Expr) -> (r: AsmResult<i64>)
        requires
            self.symbols.wf(),
        ensures
            r matches Ok(v) ==> crate::expr::eval(expr.spec_view(), &self.symbols, true, self.pc) == Some(v),
            r is Err ==> crate::expr::eval(expr.spec_view(), &self.symbols, true, self.pc) is None,
            r matches Err(e) ==> e.message@ == crate::expr::eval_error(expr.spec_view(), &self.symbols, true, self.pc),
    {
        eval_expr(expr, &self.symbols, true, self.pc)
    }

    /// The size of `.text` items modulo 64 KB.
    fn text_byte_count(&self, items: &[TextItem]) -> (r: u16)
        ensures
            r == text_size(crate::parser::items_view(items@)) % 0x10000,
    {
        let ghost iv = crate::parser::items_view(items@);
        let mut total: u16 = 0;
        let mut i: usize = 0;
        while i < items.len()
            invariant
                i <= items@.len(),
                iv == crate::parser::items_view(items@),
                total == text_size(iv.take(i as int)) % 0x10000,
            decreases items@.len() - i,
        {
            let n: u16 = match &items[i] {
                TextItem::Str(s) => utf8_size_mod(s.as_str()),
                TextItem::Char(_) => 1,
            };
            assert(iv.take(i + 1).drop_last() =~= iv.take(i as int));
            assert(iv.take(i + 1).last() == items@[i as int].spec_view());
            total = total.wrapping_add(n);
            i += 1;
        }
        assert(iv.take(items@.len() as int) =~= iv);
        total
    }

    /// The bytes of `.text` items in the current encoding.
    fn encode_text_items(&self, items: &[TextItem]) -> (r: Vec<u8>)
        ensures
            r@ == text_bytes(self.encoding, crate::parser::items_view(items@)),
    {
        let ghost iv = crate::parser::items_view(items@);
        let mut bytes: Vec<u8> = Vec::new();
        let mut i: usize = 0;
        while i < items.len()
            invariant
                i <= items@.len(),
                iv == crate::parser::items_view(items@),
                bytes@ == text_bytes(self.encoding, iv.take(i as int)),
            decreases items@.len() - i,
        {
            let ghost before = bytes@;
            match &items[i] {
                TextItem::Str(s) => {
                    let enc = self.encoding.encode_string(s.as_str());
                    let mut j: usize = 0;
                    while j < enc.len()
                        invariant
                            j <= enc@.len(),
                            bytes@ == before + enc@.take(j as int),
                        decreases enc@.len() - j,
                    {
                        bytes.push(enc[j]);
                        j += 1;
                        assert(bytes@ =~= before + enc@.take(j as int));
                    }
                    assert(enc@.take(enc@.len() as int) =~= enc@);
                },
                TextItem::Char(c) => {
                    bytes.push(self.encoding.encode_char(*c));
                    assert(bytes@ =~= before + seq![self.encoding.spec_char(*c)]);
                },
            }
            assert(iv.take(i + 1).drop_last() =~= iv.take(i as int));
            assert(iv.take(i + 1).last() == items@[i as int].spec_view());
            i += 1;
        }
        assert(iv.take(items@.len() as int) =~= iv);
        bytes
    }

    /// The file a `.incbin` / `.filesize` path names: under the project
    /// directory, else as written.
    fn resolve_file_path(&self, path: &str) -> (r: AsmResult<String>)
        ensures
            r matches Ok(p) ==> data_path(path@, self.dir(), &self.files) == Some(p@),
            r is Err ==> data_path(path@, self.dir(), &self.files) is None,
            r matches Err(e) ==> e.message@ == "Cannot find file: "@ + path@,
    {
        proof {
            reveal_strlit("");
        }
        let candidates = data_path_candidates(self.project_dir.as_str(), path);
        let p = candidates[0].as_str();
        if self.files.get(p).is_some() {
            return Ok(String::from_str(p));
        }
        if self.files.get(path).is_some() {
            return Ok(String::from_str(path));
        }
        Err(crate::preprocessor::message2("Cannot find file: ", path, "", "", ""))
    }
}

/// The names a `.incbin` / `.filesize` path is looked up under, in order:
/// joined to the project directory `dir`, then as written.
pub fn data_path_candidates(dir: &str, path: &str) -> (r: Vec<String>)
    ensures
        r@.len() == 2,
        r@[0]@ == crate::preprocessor::joined_path(dir@, path@),
        r@[1]@ == path@,
{
    let mut r: Vec<String> = Vec::new();
    r.push(crate::preprocessor::path_join(dir, path));
    r.push(String::from_str(path));
    r
}

/// The file a `.incbin` / `.filesize` path resolves to among `files`.
pub open spec fn data_path(path: Seq<char>, dir: Seq<char>, files: &DataFiles) -> Option<Seq<char>> {
    let j = crate::preprocessor::joined_path(dir, path);
    if files.data(j) is Some {
        Some(j)
    } else if files.data(path) is Some {
        Some(path)
    } else {
        None
    }
}

// ---- pass 1 directives ----

/// `pc` moved on by `n` bytes, wrapping at 64 KB.
pub open spec fn advance(pc: u16, n: int) -> u16 {
    ((pc + n) % 0x10000) as u16
}

/// `pc` rounded up to a multiple of `alignment` (a power of two); 0 or 1
/// leaves it.
pub open spec fn aligned(pc: u16, alignment: u16) -> u16 {
    if alignment > 0 {
        let mask = (alignment - 1) as u16;
        if pc & mask != 0 {
            advance(pc | mask, 1)
        } else {
            pc
        }
    } else {
        pc
    }
}

/// The value of an optional expression, 0 when it is absent or fails.
pub open spec fn value_or_zero(e: Option<SpecExpr>, st: &SymbolTable, pc: u16) -> i64 {
    match e {
        Some(x) => match crate::expr::eval(x, st, true, pc) {
            Some(v) => v,
            None => 0,
        },
        None => 0,
    }
}

/// The bytes `[offset, offset + length)` an `.incbin` takes from a file of
/// `file_len` bytes: the offset defaults to 0, the length to the rest of the
/// file (`None` when the offset lies beyond the file).
pub open spec fn incbin_range(
    offset: Option<SpecExpr>,
    length: Option<SpecExpr>,
    st: &SymbolTable,
    pc: u16,
    file_len: int,
) -> Option<(usize, usize)> {
    let off = value_or_zero(offset, st, pc) as usize;
    match length {
        Some(_) => Some((off, value_or_zero(length, st, pc) as usize)),
        None => if off <= file_len {
            Some((off, (file_len - off) as usize))
        } else {
            None
        },
    }
}

/// Where pass 1 puts the address after a directive; `None` when the
/// directive fails there.
pub open spec fn pass1_pc(d: SpecDirective, pc: u16, st: &SymbolTable, dir: Seq<char>, files: &DataFiles) -> Option<
    u16,
> {
    match d {
        SpecDirective::Org(e) => match crate::expr::eval(e, st, true, pc) {
            Some(v) => Some(v as u16),
            None => None,
        },
        SpecDirective::Align(e) => match crate::expr::eval(e, st, true, pc) {
            Some(v) => Some(aligned(pc, v as u16)),
            None => None,
        },
        SpecDirective::Storage { length, filler: _ } => match crate::expr::eval(length, st, true, pc) {
            Some(v) => Some(advance(pc, (v as u16) as int)),
            None => None,
        },
        SpecDirective::Byte(es) => Some(advance(pc, es.len() as int)),
        SpecDirective::Word(es) => Some(advance(pc, 2 * es.len() as int)),
        SpecDirective::Dword(es) => Some(advance(pc, 4 * es.len() as int)),
        SpecDirective::Text(items) => Some(advance(pc, text_size(items))),
        SpecDirective::IncBin { path, offset, length } => match data_path(path, dir, files) {
            None => None,
            Some(p) => match incbin_range(offset, length, st, pc, files.data(p)->0.len() as int) {
                Some((_, len)) => Some(advance(pc, (len as u16) as int)),
                None => None,
            },
        },
        SpecDirective::FileSize { name: _, path } => match data_path(path, dir, files) {
            None => None,
            Some(_) => Some(pc),
        },
        _ => Some(pc),
    }
}

/// The `.setting optional` value after the pairs: the last `optional` key
/// decides; any value but `false` turns it on.
pub open spec fn optional_after(on: bool, pairs: Seq<(Seq<char>, Seq<char>)>) -> bool
    decreases pairs.len(),
{
    if pairs.len() == 0 {
        on
    } else {
        let prev = optional_after(on, pairs.drop_last());
        if upper_seq(pairs.last().0) == "OPTIONAL"@ {
            upper_seq(pairs.last().1) != "FALSE"@
        } else {
            prev
        }
    }
}

/// The encoding after an `.encoding` directive: each part that names a
/// known type or case replaces the current one.
pub open spec fn encoding_after(enc: Encoding, ty: Seq<char>, case: Option<Seq<char>>) -> Encoding {
    let t = match crate::encoding::encoding_type_of(ty) {
        Some(t) => t,
        None => enc.encoding_type,
    };
    let c = match case {
        Some(cs) => match crate::encoding::encoding_case_of(cs) {
            Some(c) => c,
            None => enc.case,
        },
        None => enc.case,
    };
    Encoding { encoding_type: t, case: c }
}

proof fn lemma_utf8_size_nonneg(s: Seq<char>)
    ensures
        utf8_size(s) >= 0,
    decreases s.len(),
{
    if s.len() > 0 {
        lemma_utf8_size_nonneg(s.drop_last());
    }
}

proof fn lemma_text_size_nonneg(items: Seq<crate::parser::SpecTextItem>)
    ensures
        text_size(items) >= 0,
    decreases items.len(),
{
    if items.len() > 0 {
        lemma_text_size_nonneg(items.drop_last());
        match items.last() {
            crate::parser::SpecTextItem::Str(s) => lemma_utf8_size_nonneg(s),
            _ => {},
        }
    }
}

fn word_is(s: &str, w: &str) -> (r: bool)
    ensures
        r == (upper_seq(s@) == w@),
{
    let a = upper_vec(&chars_of(s));
    chars_eq(&a, &chars_of(w))
}

impl Assembler {
    fn apply_setting(&mut self, pairs: &Vec<(String, String)>)
        ensures
            final(self).settings.optional_enabled == optional_after(
                old(self).settings.optional_enabled,
                crate::parser::pairs_view(pairs@),
            ),
            final(self).pc == old(self).pc,
            final(self).symbols == old(self).symbols,
            final(self).output == old(self).output,
            final(self).encoding == old(self).encoding,
            final(self).listing_data == old(self).listing_data,
            final(self).printed == old(self).printed,
            final(self).files == old(self).files,
            final(self).project_dir == old(self).project_dir,
            final(self).macro_depth == old(self).macro_depth,
            final(self).cpu_mode == old(self).cpu_mode,
            final(self).quiet == old(self).quiet,
    {
        proof {
            reveal_strlit("OPTIONAL");
            reveal_strlit("FALSE");
        }
        let ghost pv = crate::parser::pairs_view(pairs@);
        let mut i: usize = 0;
        while i < pairs.len()
            invariant
                i <= pairs@.len(),
                pv == crate::parser::pairs_view(pairs@),
                self.settings.optional_enabled == optional_after(old(self).settings.optional_enabled, pv.take(i as int)),
                self.pc == old(self).pc,
                self.symbols == old(self).symbols,
                self.output == old(self).output,
                self.encoding == old(self).encoding,
                self.listing_data == old(self).listing_data,
                self.printed == old(self).printed,
                self.files == old(self).files,
                self.project_dir == old(self).project_dir,
                self.macro_depth == old(self).macro_depth,
                self.cpu_mode == old(self).cpu_mode,
                self.quiet == old(self).quiet,
            decreases pairs@.len() - i,
        {
            assert(pv.take(i + 1).drop_last() =~= pv.take(i as int));
            if word_is(pairs[i].0.as_str(), "OPTIONAL") {
                self.settings.optional_enabled = !word_is(pairs[i].1.as_str(), "FALSE");
            }
            i += 1;
        }
        assert(pv.take(pairs@.len() as int) =~= pv);
    }

    fn apply_encoding(&mut self, enc_type: &String, case: &Option<String>)
        ensures
            final(self).encoding == encoding_after(
                old(self).encoding,
                enc_type@,
                crate::parser::opt_string_view(*case),
            ),
            final(self).pc == old(self).pc,
            final(self).symbols == old(self).symbols,
            final(self).output == old(self).output,
            final(self).settings == old(self).settings,
            final(self).listing_data == old(self).listing_data,
            final(self).printed == old(self).printed,
            final(self).files == old(self).files,
            final(self).project_dir == old(self).project_dir,
            final(self).macro_depth == old(self).macro_depth,
            final(self).cpu_mode == old(self).cpu_mode,
            final(self).quiet == old(self).quiet,
    {
        if let Some(et) = EncodingType::from_str(enc_type.as_str()) {
            self.encoding.encoding_type = et;
        }
        if let Some(c) = case {
            if let Some(ec) = EncodingCase::from_str(c.as_str()) {
                self.encoding.case = ec;
            }
        }
    }

    /// The length of the data an `.incbin` inserts.
    fn incbin_length(&self, offset: &Option<Expr>, length: &Option<Expr>, file_len: usize) -> (r: AsmResult<(usize, usize)>)
        requires
            self.symbols.wf(),
        ensures
            r matches Ok(x) ==> incbin_range(
                crate::parser::opt_expr_view(*offset),
                crate::parser::opt_expr_view(*length),
                &self.symbols,
                self.pc,
                file_len as int,
            ) == Some(x),
            r is Err ==> incbin_range(
                crate::parser::opt_expr_view(*offset),
                crate::parser::opt_expr_view(*length),
                &self.symbols,
                self.pc,
                file_len as int,
            ) is None,
    {
        let off: usize = match offset {
            Some(e) => match self.eval_expr(e) {
                Ok(v) => v as usize,
                Err(_) => 0,
            },
            None => 0,
        };
        match length {
            Some(e) => {
                let len: usize = match self.eval_expr(e) {
                    Ok(v) => v as usize,
                    Err(_) => 0,
                };
                Ok((off, len))
            },
            None => {
                if off <= file_len {
                    Ok((off, file_len - off))
                } else {
                    Err(AsmError::new(".incbin offset lies beyond the end of the file"))
                }
            },
        }
    }

    /// The address after `dir` in pass 1.
    #[verifier::spinoff_prover]
    #[verifier::rlimit(50)]
    fn pass1_next_pc(&self, dir: &Directive) -> (r: AsmResult<u16>)
        requires
            self.inv(),
        ensures
            r matches Ok(pc) ==> pass1_pc(dir.spec_view(), self.pc, &self.symbols, self.dir(), &self.files) == Some(pc),
            r is Err ==> pass1_pc(dir.spec_view(), self.pc, &self.symbols, self.dir(), &self.files) is None,
            r matches Err(e) ==> next_pc_error(self, dir.spec_view(), e),
    {
        match dir {
            Directive::Org(expr) => {
                let val = match self.eval_expr(expr) {
                    Ok(v) => v,
                    Err(e) => { return Err(e); },
                };
                Ok(val as u16)
            },
            Directive::Align(expr) => {
                let value = match self.eval_expr(expr) {
                    Ok(v) => v,
                    Err(e) => { return Err(e); },
                };
                let alignment = value as u16;
                if alignment > 0 {
                    let mask = alignment - 1;
                    if self.pc & mask != 0 {
                        return Ok((self.pc | mask).wrapping_add(1));
                    }
                }
                Ok(self.pc)
            },
            Directive::Storage { length, filler: _ } => {
                let value = match self.eval_expr(length) {
                    Ok(v) => v,
                    Err(e) => { return Err(e); },
                };
                let len = value as u16;
                Ok(self.pc.wrapping_add(len))
            },
            Directive::Byte(exprs) => Ok(self.pc.wrapping_add((exprs.len() % 65536) as u16)),
            Directive::Word(exprs) => Ok(self.pc.wrapping_add(((exprs.len() % 32768) * 2) as u16)),
            Directive::Dword(exprs) => Ok(self.pc.wrapping_add(((exprs.len() % 16384) * 4) as u16)),
            Directive::Text(items) => {
                let byte_count = self.text_byte_count(items);
                proof { lemma_text_size_nonneg(crate::parser::items_view(items@)); }
                Ok(self.pc.wrapping_add(byte_count))
            },
            Directive::IncBin { path, offset, length } => {
                let resolved = match self.resolve_file_path(path.as_str()) {
                    Ok(p) => p,
                    Err(e) => { return Err(e); },
                };
                let file_len = match self.files.get(resolved.as_str()) {
                    Some(d) => d.len(),
                    None => { return Err(crate::preprocessor::message2("Cannot read ", path.as_str(), "", "", "")); },
                };
                let (_off, len) = self.incbin_length(offset, length, file_len)?;
                Ok(self.pc.wrapping_add(len as u16))
            },
            Directive::FileSize { name: _, path } => {
                match self.resolve_file_path(path.as_str()) {
                    Ok(_) => Ok(self.pc),
                    Err(e) => Err(e),
                }
            },
            _ => Ok(self.pc),
        }
    }

}

/// What the error says when pass 1 cannot find where directive `d` ends,
/// from state `a`: why the address, alignment or length has no value, or
/// that the file a `.incbin` or `.filesize` names is not there.
pub open spec fn next_pc_error(a: &Assembler, d: SpecDirective, err: AsmError) -> bool {
    match d {
        SpecDirective::Org(e) => err.message@ == crate::expr::eval_error(e, &a.symbols, true, a.pc),
        SpecDirective::Align(e) => err.message@ == crate::expr::eval_error(e, &a.symbols, true, a.pc),
        SpecDirective::Storage { length, filler: _ } => err.message@ == crate::expr::eval_error(
            length,
            &a.symbols,
            true,
            a.pc,
        ),
        SpecDirective::IncBin { path, offset: _, length: _ } => data_path(path, a.dir(), &a.files) is None
            ==> err.message@ == "Cannot find file: "@ + path,
        SpecDirective::FileSize { name: _, path } => err.message@ == "Cannot find file: "@ + path,
        _ => true,
    }
}

/// What the error says when pass 1 fails on directive `d` from state `a`:
/// as `next_pc_error`, and a `.filesize` name that is a constant with
/// another value is named.
pub open spec fn dir1_error(a: &Assembler, d: SpecDirective, err: AsmError) -> bool {
    match d {
        SpecDirective::FileSize { name, path } => if data_path(path, a.dir(), &a.files) is None {
            err.message@ == "Cannot find file: "@ + path
        } else {
            err.message@ == "Constant '"@ + name + "' already defined with different value"@
        },
        _ => next_pc_error(a, d, err),
    }
}

/// Whether pass 1 gets through directive `d` from state `a`: the next
/// address can be found, and a `.filesize` name can take the file's size.
pub open spec fn dir1_succeeds(a: &Assembler, d: SpecDirective) -> bool {
    &&& pass1_pc(d, a.pc, &a.symbols, a.dir(), &a.files) is Some
    &&& match d {
        SpecDirective::FileSize { name, path } => !(name.len() > 0 && constant_clash(&a.symbols, name, file_size(a, path))),
        _ => true,
    }
}

/// What pass 1 does with directive `d` (on line `line` of `file`) from state
/// `a` when it succeeds, ending in state `b`: the address moves to where the
/// directive ends, `.filesize` defines its name, `.setting` and `.encoding`
/// change what they name; nothing else changes.
pub open spec fn dir1(a: &Assembler, d: SpecDirective, file: Seq<char>, line: usize, b: &Assembler) -> bool {
    &&& b.inv()
    &&& b.quiet == a.quiet
    &&& b.macro_depth == a.macro_depth
    &&& b.output == a.output
    &&& b.listing_data == a.listing_data
    &&& b.printed == a.printed
    &&& b.files == a.files
    &&& b.project_dir == a.project_dir
    &&& b.cpu_mode == a.cpu_mode
    &&& pass1_pc(d, a.pc, &a.symbols, a.dir(), &a.files) == Some(b.pc)
    &&& match d {
        SpecDirective::FileSize { name, path } => if name.len() == 0 {
            b.symbols == a.symbols
        } else {
            constant_defined(&a.symbols, &b.symbols, name, file_size(a, path), file, line)
        },
        _ => b.symbols == a.symbols,
    }
    &&& b.settings.optional_enabled == match d {
        SpecDirective::Setting(pairs) => optional_after(a.settings.optional_enabled, pairs),
        _ => a.settings.optional_enabled,
    }
    &&& b.encoding == match d {
        SpecDirective::Encoding { enc_type, case } => encoding_after(a.encoding, enc_type, case),
        _ => a.encoding,
    }
}

impl Assembler {
    #[verifier::spinoff_prover]
    fn process_directive_pass1(&mut self, dir: &Directive, file: &str, line_num: usize) -> (r: AsmResult<()>)
        requires
            old(self).inv(),
        ensures
            final(self).inv(),
            final(self).quiet == old(self).quiet,
            final(self).macro_depth == old(self).macro_depth,
            final(self).output == old(self).output,
            final(self).listing_data == old(self).listing_data,
            final(self).printed == old(self).printed,
            final(self).files == old(self).files,
            final(self).project_dir == old(self).project_dir,
            final(self).cpu_mode == old(self).cpu_mode,
            final(self).symbols.scope_stack() == old(self).symbols.scope_stack(),
            r is Ok <==> dir1_succeeds(old(self), dir.spec_view()),
            r is Ok ==> dir1(old(self), dir.spec_view(), file@, line_num, final(self)),
            r matches Err(e) ==> dir1_error(old(self), dir.spec_view(), e),
            !(dir is FileSize) ==> final(self).symbols == old(self).symbols,
    {
        let next = match self.pass1_next_pc(dir) {
            Ok(n) => n,
            Err(e) => { return Err(e); },
        };
        match dir {
            Directive::Encoding { enc_type, case } => {
                self.apply_encoding(enc_type, case);
            },
            Directive::Setting(pairs) => {
                self.apply_setting(pairs);
            },
            Directive::FileSize { name, path } => {
                let resolved = self.resolve_file_path(path.as_str())?;
                let size = match self.files.get(resolved.as_str()) {
                    Some(d) => d.len() as i64,
                    None => { return Err(crate::preprocessor::message2("Cannot stat ", path.as_str(), "", "", "")); },
                };
                if !name.as_str().is_empty() {
                    match self.symbols.define_constant(name.as_str(), size, file, line_num) {
                        Ok(()) => {},
                        Err(e) => { return Err(e); },
                    }
                }
            },
            _ => {},
        }
        self.pc = next;
        Ok(())
    }
}

// ---- pass 2 data ----

/// The bytes of `.byte` values, each evaluated at the address it is stored
/// to, up to the first value that fails; and whether none failed.
pub open spec fn byte_data(es: Seq<SpecExpr>, st: &SymbolTable, pc: u16) -> (Seq<u8>, bool)
    decreases es.len(),
{
    if es.len() == 0 {
        (Seq::empty(), true)
    } else {
        match crate::expr::eval(es[0], st, true, pc) {
            None => (Seq::empty(), false),
            Some(v) => {
                let (r, ok) = byte_data(es.drop_first(), st, advance(pc, 1));
                (seq![v as u8] + r, ok)
            },
        }
    }
}

/// The little-endian bytes of `.word` values (as `byte_data`).
pub open spec fn word_data(es: Seq<SpecExpr>, st: &SymbolTable, pc: u16) -> (Seq<u8>, bool)
    decreases es.len(),
{
    if es.len() == 0 {
        (Seq::empty(), true)
    } else {
        match crate::expr::eval(es[0], st, true, pc) {
            None => (Seq::empty(), false),
            Some(v) => {
                let w = v as u16;
                let (r, ok) = word_data(es.drop_first(), st, advance(pc, 2));
                (seq![(w & 0xFF) as u8, ((w >> 8) & 0xFF) as u8] + r, ok)
            },
        }
    }
}

/// The little-endian bytes of `.dword` values (as `byte_data`).
pub open spec fn dword_data(es: Seq<SpecExpr>, st: &SymbolTable, pc: u16) -> (Seq<u8>, bool)
    decreases es.len(),
{
    if es.len() == 0 {
        (Seq::empty(), true)
    } else {
        match crate::expr::eval(es[0], st, true, pc) {
            None => (Seq::empty(), false),
            Some(v) => {
                let d = v as u32;
                let (r, ok) = dword_data(es.drop_first(), st, advance(pc, 4));
                (seq![
                    (d & 0xFF) as u8,
                    ((d >> 8) & 0xFF) as u8,
                    ((d >> 16) & 0xFF) as u8,
                    ((d >> 24) & 0xFF) as u8,
                ] + r, ok)
            },
        }
    }
}

/// The width in bytes of each value of a data directive.
pub open spec fn data_width(kind: u8) -> int {
    if kind == 1 {
        1
    } else if kind == 2 {
        2
    } else {
        4
    }
}

pub open spec fn data_of(kind: u8, es: Seq<SpecExpr>, st: &SymbolTable, pc: u16) -> (Seq<u8>, bool) {
    if kind == 1 {
        byte_data(es, st, pc)
    } else if kind == 2 {
        word_data(es, st, pc)
    } else {
        dword_data(es, st, pc)
    }
}

/// The message of the error that data values `es` of width `kind` give
/// from `pc` on: that of the first value without one.
pub open spec fn data_error(kind: u8, es: Seq<SpecExpr>, st: &SymbolTable, pc: u16) -> Seq<char>
    decreases es.len(),
{
    if es.len() == 0 {
        Seq::empty()
    } else {
        match crate::expr::eval(es[0], st, true, pc) {
            None => crate::expr::eval_error(es[0], st, true, pc),
            Some(_) => data_error(kind, es.drop_first(), st, advance(pc, data_width(kind))),
        }
    }
}

/// The bytes of one value of width 1, 2 or 4.
pub open spec fn value_bytes(kind: u8, v: i64) -> Seq<u8> {
    if kind == 1 {
        seq![v as u8]
    } else if kind == 2 {
        let w = v as u16;
        seq![(w & 0xFF) as u8, ((w >> 8) & 0xFF) as u8]
    } else {
        let d = v as u32;
        seq![(d & 0xFF) as u8, ((d >> 8) & 0xFF) as u8, ((d >> 16) & 0xFF) as u8, ((d >> 24) & 0xFF) as u8]
    }
}

proof fn lemma_data_step(kind: u8, es: Seq<SpecExpr>, st: &SymbolTable, pc: u16)
    requires
        es.len() > 0,
    ensures
        data_of(kind, es, st, pc) == match crate::expr::eval(es[0], st, true, pc) {
            None => (Seq::<u8>::empty(), false),
            Some(v) => {
                let (r, ok) = data_of(kind, es.drop_first(), st, advance(pc, data_width(kind)));
                (value_bytes(kind, v) + r, ok)
            },
        },
{
}

fn value_bytes_exec(kind: u8, v: i64) -> (r: Vec<u8>)
    ensures
        r@ == value_bytes(kind, v),
{
    let mut r: Vec<u8> = Vec::new();
    if kind == 1 {
        r.push(v as u8);
    } else if kind == 2 {
        let w = v as u16;
        r.push((w & 0xFF) as u8);
        r.push(((w >> 8) & 0xFF) as u8);
    } else {
        let d = v as u32;
        r.push((d & 0xFF) as u8);
        r.push(((d >> 8) & 0xFF) as u8);
        r.push(((d >> 16) & 0xFF) as u8);
        r.push(((d >> 24) & 0xFF) as u8);
    }
    assert(r@ =~= value_bytes(kind, v));
    r
}

/// The bytes of the values of a `.byte` (kind 1), `.word` (2) or `.dword`
/// (4) directive starting at `pc`, up to the first failing value.
fn data_bytes(exprs: &Vec<Expr>, st: &SymbolTable, pc: u16, kind: u8) -> (r: (Vec<u8>, Option<AsmError>))
    requires
        st.wf(),
    ensures
        r.0@ == data_of(kind, crate::parser::exprs_view(exprs@), st, pc).0,
        r.1 is None <==> data_of(kind, crate::parser::exprs_view(exprs@), st, pc).1,
        r.1 matches Some(e) ==> e.message@ == data_error(kind, crate::parser::exprs_view(exprs@), st, pc),
{
    let ghost ev = crate::parser::exprs_view(exprs@);
    let mut out: Vec<u8> = Vec::new();
    let mut p = pc;
    let mut i: usize = 0;
    let width: u16 = if kind == 1 { 1 } else if kind == 2 { 2 } else { 4 };
    assert(ev.subrange(0, ev.len() as int) =~= ev);
    while i < exprs.len()
        invariant
            i <= exprs@.len(),
            ev == crate::parser::exprs_view(exprs@),
            st.wf(),
            width as int == data_width(kind),
            data_of(kind, ev, st, pc) == ({
                let (r, ok) = data_of(kind, ev.subrange(i as int, ev.len() as int), st, p);
                (out@ + r, ok)
            }),
            data_error(kind, ev, st, pc) == data_error(kind, ev.subrange(i as int, ev.len() as int), st, p),
        decreases exprs@.len() - i,
    {
        let ghost sub = ev.subrange(i as int, ev.len() as int);
        proof {
            lemma_data_step(kind, sub, st, p);
            assert(sub.drop_first() =~= ev.subrange(i + 1, ev.len() as int));
            assert(sub[0] == exprs@[i as int].spec_view());
        }
        match eval_expr(&exprs[i], st, true, p) {
            Ok(v) => {
                let vb = value_bytes_exec(kind, v);
                let ghost before = out@;
                let mut j: usize = 0;
                while j < vb.len()
                    invariant
                        j <= vb@.len(),
                        out@ == before + vb@.take(j as int),
                    decreases vb@.len() - j,
                {
                    out.push(vb[j]);
                    j += 1;
                    assert(out@ =~= before + vb@.take(j as int));
                }
                proof {
                    assert(vb@.take(vb@.len() as int) =~= vb@);
                    let (r, ok) = data_of(kind, ev.subrange(i + 1, ev.len() as int), st, advance(p, width as int));
                    assert(before + (vb@ + r) =~= out@ + r);
                }
                p = p.wrapping_add(width);
            },
            Err(e) => {
                assert(out@ + Seq::<u8>::empty() =~= out@);
                return (out, Some(e));
            },
        }
        i += 1;
    }
    assert(ev.subrange(exprs@.len() as int, ev.len() as int) =~= Seq::<SpecExpr>::empty());
    assert(out@ + Seq::<u8>::empty() =~= out@);
    (out, None)
}

/// `after` holds `bytes` from `pc` on and is `before` elsewhere.
pub open spec fn writes_at(before: &OutputBuffer, after: &OutputBuffer, pc: u16, bytes: Seq<u8>) -> bool {
    &&& forall|i: int| 0 <= i < bytes.len() ==> after.byte(#[trigger] wrap_addr(pc, i)) == Some(bytes[i])
    &&& forall|a: u16| offset_from(pc, a) >= bytes.len() ==> after.byte(a) == before.byte(a)
}

/// How many bytes `.align` pads from `pc` with `mask`: up to the first
/// address with none of the mask bits set.
pub open spec fn align_gap(pc: u16, mask: u16, fuel: nat) -> nat
    decreases fuel,
{
    if pc & mask == 0 || fuel == 0 {
        0
    } else {
        1 + align_gap(advance(pc, 1), mask, (fuel - 1) as nat)
    }
}

/// The message of the error a `.print` / `.error` message gives when it has
/// no text: that of the first expression argument without a value.
pub open spec fn message_error(args: Seq<crate::parser::SpecPrintArg>, st: &SymbolTable, pc: u16) -> Seq<char>
    decreases args.len(),
{
    if args.len() == 0 {
        Seq::empty()
    } else {
        match args[0] {
            crate::parser::SpecPrintArg::Expr(e) => match crate::expr::eval(e, st, true, pc) {
                None => crate::expr::eval_error(e, st, true, pc),
                Some(_) => message_error(args.drop_first(), st, pc),
            },
            crate::parser::SpecPrintArg::Str(_) => message_error(args.drop_first(), st, pc),
        }
    }
}

/// The text of a `.print` / `.error` message: the arguments separated by
/// spaces, expressions in decimal.
pub open spec fn message_text(args: Seq<crate::parser::SpecPrintArg>, st: &SymbolTable, pc: u16) -> Option<Seq<char>>
    decreases args.len(),
{
    if args.len() == 0 {
        Some(Seq::empty())
    } else {
        match message_text(args.drop_last(), st, pc) {
            None => None,
            Some(prefix) => {
                let piece = match args.last() {
                    crate::parser::SpecPrintArg::Str(s) => Some(s),
                    crate::parser::SpecPrintArg::Expr(e) => match crate::expr::eval(e, st, true, pc) {
                        Some(v) => Some(crate::text::signed_dec(v as int)),
                        None => None,
                    },
                };
                match piece {
                    None => None,
                    Some(p) => Some(
                        if args.len() == 1 {
                            p
                        } else {
                            prefix + seq![' '] + p
                        },
                    ),
                }
            },
        }
    }
}

/// What pass 2 does at `pc` for a directive: the bytes it stores from `pc`
/// on and the address after it; `None` when it fails.
pub open spec fn pass2_out(
    d: SpecDirective,
    pc: u16,
    st: &SymbolTable,
    enc: Encoding,
    dir: Seq<char>,
    files: &DataFiles,
) -> Option<(Seq<u8>, u16)> {
    match d {
        SpecDirective::Org(e) => match crate::expr::eval(e, st, true, pc) {
            Some(v) => Some((Seq::empty(), v as u16)),
            None => None,
        },
        SpecDirective::Align(e) => match crate::expr::eval(e, st, true, pc) {
            Some(v) => {
                let a = v as u16;
                if a > 0 {
                    let gap = align_gap(pc, (a - 1) as u16, 0x10000);
                    Some((Seq::new(gap, |i: int| 0u8), advance(pc, gap as int)))
                } else {
                    Some((Seq::empty(), pc))
                }
            },
            None => None,
        },
        SpecDirective::Storage { length, filler } => match crate::expr::eval(length, st, true, pc) {
            Some(v) => {
                let n = v as u16;
                match filler {
                    Some(f) => match crate::expr::eval(f, st, true, pc) {
                        Some(fv) => Some((Seq::new(n as nat, |i: int| fv as u8), advance(pc, n as int))),
                        None => None,
                    },
                    None => Some((Seq::empty(), advance(pc, n as int))),
                }
            },
            None => None,
        },
        SpecDirective::Byte(es) => if byte_data(es, st, pc).1 {
            Some((byte_data(es, st, pc).0, advance(pc, es.len() as int)))
        } else {
            None
        },
        SpecDirective::Word(es) => if word_data(es, st, pc).1 {
            Some((word_data(es, st, pc).0, advance(pc, 2 * es.len() as int)))
        } else {
            None
        },
        SpecDirective::Dword(es) => if dword_data(es, st, pc).1 {
            Some((dword_data(es, st, pc).0, advance(pc, 4 * es.len() as int)))
        } else {
            None
        },
        SpecDirective::Text(items) => {
            let b = text_bytes(enc, items);
            Some((b, advance(pc, b.len() as int)))
        },
        SpecDirective::IncBin { path, offset, length } => match data_path(path, dir, files) {
            None => None,
            Some(p) => {
                let data = files.data(p)->0;
                match incbin_range(offset, length, st, pc, data.len() as int) {
                    Some((off, len)) => if off + len <= data.len() {
                        Some((data.subrange(off as int, off + len), advance(pc, (len as u16) as int)))
                    } else {
                        None
                    },
                    None => None,
                }
            },
        },
        SpecDirective::FileSize { name: _, path } => match data_path(path, dir, files) {
            None => None,
            Some(_) => Some((Seq::empty(), pc)),
        },
        SpecDirective::Error(args) => None,
        _ => Some((Seq::empty(), pc)),
    }
}

proof fn lemma_message_none(args: Seq<crate::parser::SpecPrintArg>, st: &SymbolTable, pc: u16, k: int)
    requires
        0 <= k <= args.len(),
        message_text(args.take(k), st, pc) is None,
    ensures
        message_text(args, st, pc) is None,
    decreases args.len() - k,
{
    if k < args.len() {
        assert(args.take(k + 1).drop_last() =~= args.take(k));
        lemma_message_none(args, st, pc, k + 1);
    } else {
        assert(args.take(k) =~= args);
    }
}

/// The size of the file a `.filesize` path names (0 when there is none).
pub open spec fn file_size(a: &Assembler, path: Seq<char>) -> i64 {
    match data_path(path, a.dir(), &a.files) {
        Some(p) => a.files.data(p)->0.len() as i64,
        None => 0,
    }
}

/// Whether pass 2 gets through directive `d` from state `a`: its bytes and
/// next address can be formed, and so can the message of a `.print` that
/// is not silenced.
pub open spec fn dir2_succeeds(a: &Assembler, d: SpecDirective) -> bool {
    &&& pass2_out(d, a.pc, &a.symbols, a.encoding, a.dir(), &a.files) is Some
    &&& match d {
        SpecDirective::Print(args) => a.quiet || message_text(args, &a.symbols, a.pc) is Some,
        _ => true,
    }
}

/// What pass 2 does with directive `d` (on line `line` of `file`) from state
/// `a` when it succeeds, ending in state `b`: the bytes of the directive are
/// stored from the current address and the address moves on; `.filesize`
/// defines its name, `.print` adds its message, `.setting` and `.encoding`
/// change what they name; nothing else changes.
pub open spec fn dir2(a: &Assembler, d: SpecDirective, file: Seq<char>, line: usize, b: &Assembler) -> bool {
    &&& b.inv()
    &&& b.macro_depth == a.macro_depth
    &&& b.listing_data == a.listing_data
    &&& b.files == a.files
    &&& b.project_dir == a.project_dir
    &&& b.cpu_mode == a.cpu_mode
    &&& b.quiet == a.quiet
    &&& pass2_done(pass2_out(d, a.pc, &a.symbols, a.encoding, a.dir(), &a.files), &a.output, &b.output, a.pc, b.pc)
    &&& match d {
        SpecDirective::FileSize { name, path } => if name.len() == 0 {
            b.symbols == a.symbols
        } else if a.symbols.global(upper_seq(name)) is Some {
            variable_assigned(&a.symbols, &b.symbols, name, file_size(a, path))
        } else {
            constant_defined(&a.symbols, &b.symbols, name, file_size(a, path), file, line)
        },
        _ => b.symbols == a.symbols,
    }
    &&& match d {
        SpecDirective::Print(args) => if a.quiet {
            b.printed == a.printed
        } else {
            &&& b.printed@.len() == a.printed@.len() + 1
            &&& b.printed@.drop_last() == a.printed@
            &&& Some(b.printed@.last()@) == message_text(args, &a.symbols, a.pc)
        },
        _ => b.printed == a.printed,
    }
    &&& b.settings.optional_enabled == match d {
        SpecDirective::Setting(pairs) => optional_after(a.settings.optional_enabled, pairs),
        _ => a.settings.optional_enabled,
    }
    &&& b.encoding == match d {
        SpecDirective::Encoding { enc_type, case } => encoding_after(a.encoding, enc_type, case),
        _ => a.encoding,
    }
}

impl Assembler {
    /// Stores `bytes` from the current address on and moves past them.
    fn emit_bytes(&mut self, bytes: &Vec<u8>)
        requires
            old(self).inv(),
        ensures
            final(self).inv(),
            final(self).pc == advance(old(self).pc, bytes@.len() as int),
            written_over(&old(self).output, &final(self).output, old(self).pc, bytes@),
            bytes@.len() <= 0x10000 ==> writes_at(&old(self).output, &final(self).output, old(self).pc, bytes@),
            final(self).output.count() == (old(self).output.count() + bytes@.len()) % (usize::MAX as int + 1),
            final(self).symbols == old(self).symbols,
            final(self).listing_data == old(self).listing_data,
            final(self).printed == old(self).printed,
            final(self).files == old(self).files,
            final(self).project_dir == old(self).project_dir,
            final(self).macro_depth == old(self).macro_depth,
            final(self).cpu_mode == old(self).cpu_mode,
            final(self).encoding == old(self).encoding,
            final(self).settings == old(self).settings,
            final(self).quiet == old(self).quiet,
    {
        let n = bytes.len();
        self.output.write_bytes(self.pc, bytes.as_slice());
        self.pc = self.pc.wrapping_add((n % 65536) as u16);
    }

    /// The text of a `.print` / `.error` message.
    fn message_of(&self, args: &Vec<PrintArg>) -> (r: AsmResult<String>)
        requires
            self.symbols.wf(),
        ensures
            r matches Ok(m) ==> message_text(crate::parser::args_view(args@), &self.symbols, self.pc) == Some(m@),
            r is Err ==> message_text(crate::parser::args_view(args@), &self.symbols, self.pc) is None,
            r matches Err(e) ==> e.message@ == message_error(crate::parser::args_view(args@), &self.symbols, self.pc),
    {
        let ghost av = crate::parser::args_view(args@);
        assert(av.subrange(0, av.len() as int) =~= av);
        let mut output = String::new();
        let mut i: usize = 0;
        while i < args.len()
            invariant
                i <= args@.len(),
                av == crate::parser::args_view(args@),
                self.symbols.wf(),
                message_text(av.take(i as int), &self.symbols, self.pc) == Some(output@),
                message_error(av, &self.symbols, self.pc) == message_error(
                    av.subrange(i as int, av.len() as int),
                    &self.symbols,
                    self.pc,
                ),
            decreases args@.len() - i,
        {
            assert(av.subrange(i as int, av.len() as int)[0] == args@[i as int].spec_view());
            assert(av.subrange(i as int, av.len() as int).drop_first() =~= av.subrange(i + 1, av.len() as int));
            assert(av.take(i + 1).drop_last() =~= av.take(i as int));
            assert(av.take(i + 1).last() == args@[i as int].spec_view());
            let ghost before = output@;
            if i > 0 {
                push_chars(&mut output, &[' ']);
            }
            match &args[i] {
                PrintArg::Str(s) => {
                    push_chars(&mut output, &chars_of(s.as_str()));
                },
                PrintArg::Expr(expr) => {
                    let val = match self.eval_expr(expr) {
                        Ok(v) => v,
                        Err(e) => {
                            proof { lemma_message_none(av, &self.symbols, self.pc, i + 1); }
                            return Err(e);
                        },
                    };
                    push_chars(&mut output, &fmt_signed(val));
                },
            }
            proof {
                if i > 0 {
                    assert(output@ =~= before + seq![' '] + output@.subrange(before.len() as int + 1, output@.len() as int));
                } else {
                    assert(before =~= Seq::<char>::empty());
                }
            }
            i += 1;
        }
        assert(av.take(args@.len() as int) =~= av);
        Ok(output)
    }
}

fn align_gap_exec(pc: u16, mask: u16) -> (r: usize)
    ensures
        r == align_gap(pc, mask, 0x10000),
        r <= 0x10000,
{
    let mut p = pc;
    let mut k: usize = 0;
    while p & mask != 0
        invariant
            k <= 0x10000,
            pc + k <= 0x10000,
            (pc + k) % 0x10000 == p as int,
            align_gap(pc, mask, 0x10000) == k + align_gap(p, mask, (0x10000 - k) as nat),
        decreases 0x10000 - k,
    {
        assert(p == 0 ==> p & mask == 0) by (bit_vector);
        p = p.wrapping_add(1);
        k += 1;
    }
    k
}

/// Pass 2 did what `out` says: moved to its address and stored its bytes.
pub open spec fn pass2_done(
    out: Option<(Seq<u8>, u16)>,
    before: &OutputBuffer,
    after: &OutputBuffer,
    pc: u16,
    next: u16,
) -> bool {
    match out {
        Some((bytes, npc)) => next == npc && (bytes.len() <= 0x10000 ==> writes_at(before, after, pc, bytes)),
        None => false,
    }
}

/// `r` is an error; when the message could be formed, it is that message
/// at column 1 of `file:line`.
pub open spec fn error_at(r: AsmResult<()>, msg: Option<Seq<char>>, file: Seq<char>, line: usize) -> bool {
    match r {
        Err(e) => match msg {
            Some(m) => e.message@ == m && match e.location {
                Some(l) => l.file@ == file && l.line == line && l.col == 1,
                None => false,
            },
            None => true,
        },
        Ok(_) => false,
    }
}

/// What the error says when pass 2 fails on directive `d` from state `a`:
/// as `bytes_error`; a `.filesize` whose file is not there names it; a
/// `.print` or `.error` message without a text gives the error of its first
/// argument without a value.
pub open spec fn dir2_error(a: &Assembler, d: SpecDirective, err: AsmError) -> bool {
    match d {
        SpecDirective::FileSize { name: _, path } => err.message@ == "Cannot find file: "@ + path,
        SpecDirective::Print(args) => err.message@ == message_error(args, &a.symbols, a.pc),
        SpecDirective::Error(args) => message_text(args, &a.symbols, a.pc) is None ==> err.message@ == message_error(
            args,
            &a.symbols,
            a.pc,
        ),
        _ => bytes_error(a, d, err),
    }
}

/// What the error says when pass 2 cannot make the bytes of directive `d`
/// from state `a`: why the address, alignment, length, filler or first
/// data value without a value has none, or that the file a `.incbin` names
/// is not there.
pub open spec fn bytes_error(a: &Assembler, d: SpecDirective, err: AsmError) -> bool {
    match d {
        SpecDirective::Org(e) => err.message@ == crate::expr::eval_error(e, &a.symbols, true, a.pc),
        SpecDirective::Align(e) => err.message@ == crate::expr::eval_error(e, &a.symbols, true, a.pc),
        SpecDirective::Storage { length, filler } => match crate::expr::eval(length, &a.symbols, true, a.pc) {
            None => err.message@ == crate::expr::eval_error(length, &a.symbols, true, a.pc),
            Some(_) => match filler {
                Some(f) => err.message@ == crate::expr::eval_error(f, &a.symbols, true, a.pc),
                None => true,
            },
        },
        SpecDirective::IncBin { path, offset: _, length: _ } => data_path(path, a.dir(), &a.files) is None
            ==> err.message@ == "Cannot find file: "@ + path,
        SpecDirective::Byte(es) => err.message@ == data_error(1, es, &a.symbols, a.pc),
        SpecDirective::Word(es) => err.message@ == data_error(2, es, &a.symbols, a.pc),
        SpecDirective::Dword(es) => err.message@ == data_error(4, es, &a.symbols, a.pc),
        _ => true,
    }
}

impl Assembler {
    /// The bytes pass 2 stores for `.org` (none) and `.align` (zero padding).
    fn pass2_align(&self, dir: &Directive) -> (r: (Vec<u8>, Option<AsmError>, u16))
        requires
            self.inv(),
            dir is Org || dir is Align,
        ensures
            r.1 is None ==> pass2_out(dir.spec_view(), self.pc, &self.symbols, self.encoding, self.dir(), &self.files)
                == Some((r.0@, r.2)),
            r.1 is Some ==> pass2_out(dir.spec_view(), self.pc, &self.symbols, self.encoding, self.dir(), &self.files)
                is None,
            r.1 matches Some(e) ==> bytes_error(self, dir.spec_view(), e),
    {
        let empty: Vec<u8> = Vec::new();
        assert(empty@ =~= Seq::<u8>::empty());
        match dir {
            Directive::Org(expr) => match self.eval_expr(expr) {
                Ok(v) => (empty, None, v as u16),
                Err(e) => (empty, Some(e), self.pc),
            },
            Directive::Align(expr) => {
                let alignment = match self.eval_expr(expr) {
                    Ok(v) => v as u16,
                    Err(e) => { return (empty, Some(e), self.pc); },
                };
                if alignment > 0 {
                    let gap = align_gap_exec(self.pc, alignment - 1);
                    let mut zeros: Vec<u8> = Vec::new();
                    let mut i: usize = 0;
                    while i < gap
                        invariant
                            i <= gap,
                            zeros@ == Seq::new(i as nat, |j: int| 0u8),
                        decreases gap - i,
                    {
                        zeros.push(0);
                        i += 1;
                        assert(zeros@ =~= Seq::new(i as nat, |j: int| 0u8));
                    }
                    let next = self.pc.wrapping_add((gap % 65536) as u16);
                    assert(pass2_out(dir.spec_view(), self.pc, &self.symbols, self.encoding, self.dir(), &self.files)
                        == Some((zeros@, next)));
                    (zeros, None, next)
                } else {
                    (empty, None, self.pc)
                }
            },
            _ => (empty, None, self.pc),
        }
    }

    /// The bytes pass 2 stores for `.storage`.
    #[verifier::spinoff_prover]
    #[verifier::rlimit(40)]
    fn pass2_storage(&self, dir: &Directive) -> (r: (Vec<u8>, Option<AsmError>, u16))
        requires
            self.inv(),
            dir is Storage,
        ensures
            r.1 is None ==> pass2_out(dir.spec_view(), self.pc, &self.symbols, self.encoding, self.dir(), &self.files)
                == Some((r.0@, r.2)),
            r.1 is Some ==> pass2_out(dir.spec_view(), self.pc, &self.symbols, self.encoding, self.dir(), &self.files)
                is None,
            r.1 matches Some(e) ==> bytes_error(self, dir.spec_view(), e),
    {
        let empty: Vec<u8> = Vec::new();
        assert(empty@ =~= Seq::<u8>::empty());
        match dir {
            Directive::Storage { length, filler } => {
                let len = match self.eval_expr(length) {
                    Ok(v) => v as u16,
                    Err(e) => { return (empty, Some(e), self.pc); },
                };
                match filler {
                    Some(f) => {
                        let fv = match self.eval_expr(f) {
                            Ok(v) => v as u8,
                            Err(e) => { return (empty, Some(e), self.pc); },
                        };
                        let mut fill: Vec<u8> = Vec::new();
                        let mut i: u16 = 0;
                        while i < len
                            invariant
                                i <= len,
                                fill@ == Seq::new(i as nat, |j: int| fv),
                            decreases len - i,
                        {
                            fill.push(fv);
                            i += 1;
                            assert(fill@ =~= Seq::new(i as nat, |j: int| fv));
                        }
                        let next = self.pc.wrapping_add(len);
                        assert(pass2_out(dir.spec_view(), self.pc, &self.symbols, self.encoding, self.dir(), &self.files)
                            == Some((fill@, next)));
                        (fill, None, next)
                    },
                    None => (empty, None, self.pc.wrapping_add(len)),
                }
            },
            _ => (empty, None, self.pc),
        }
    }

    /// The bytes pass 2 stores for `.byte`, `.word` and `.dword`.
    #[verifier::spinoff_prover]
    #[verifier::rlimit(50)]
    fn pass2_data(&self, dir: &Directive) -> (r: (Vec<u8>, Option<AsmError>, u16))
        requires
            self.inv(),
            dir is Byte || dir is Word || dir is Dword,
        ensures
            r.1 is None ==> pass2_out(dir.spec_view(), self.pc, &self.symbols, self.encoding, self.dir(), &self.files)
                == Some((r.0@, r.2)),
            r.1 is Some ==> pass2_out(dir.spec_view(), self.pc, &self.symbols, self.encoding, self.dir(), &self.files)
                is None,
            r.1 matches Some(e) ==> bytes_error(self, dir.spec_view(), e),
    {
        let empty: Vec<u8> = Vec::new();
        assert(empty@ =~= Seq::<u8>::empty());
        match dir {
            Directive::Byte(exprs) => {
                let (b, e) = data_bytes(exprs, &self.symbols, self.pc, 1);
                (b, e, self.pc.wrapping_add((exprs.len() % 65536) as u16))
            },
            Directive::Word(exprs) => {
                let (b, e) = data_bytes(exprs, &self.symbols, self.pc, 2);
                (b, e, self.pc.wrapping_add(((exprs.len() % 32768) * 2) as u16))
            },
            Directive::Dword(exprs) => {
                let (b, e) = data_bytes(exprs, &self.symbols, self.pc, 4);
                (b, e, self.pc.wrapping_add(((exprs.len() % 16384) * 4) as u16))
            },
            _ => (empty, None, self.pc),
        }
    }

    /// The bytes pass 2 stores for `.text`.
    #[verifier::spinoff_prover]
    #[verifier::rlimit(50)]
    fn pass2_text(&self, dir: &Directive) -> (r: (Vec<u8>, Option<AsmError>, u16))
        requires
            self.inv(),
            dir is Text,
        ensures
            r.1 is None ==> pass2_out(dir.spec_view(), self.pc, &self.symbols, self.encoding, self.dir(), &self.files)
                == Some((r.0@, r.2)),
            r.1 is Some ==> pass2_out(dir.spec_view(), self.pc, &self.symbols, self.encoding, self.dir(), &self.files)
                is None,
    {
        let empty: Vec<u8> = Vec::new();
        assert(empty@ =~= Seq::<u8>::empty());
        match dir {
            Directive::Text(items) => {
                let b = self.encode_text_items(items);
                let n = b.len();
                let next = self.pc.wrapping_add((n % 65536) as u16);
                assert(pass2_out(dir.spec_view(), self.pc, &self.symbols, self.encoding, self.dir(), &self.files)
                    == Some((b@, next)));
                (b, None, next)
            },
            _ => (empty, None, self.pc),
        }
    }

    /// The bytes pass 2 stores for `.incbin`.
    #[verifier::spinoff_prover]
    #[verifier::rlimit(50)]
    fn pass2_incbin(&self, dir: &Directive) -> (r: (Vec<u8>, Option<AsmError>, u16))
        requires
            self.inv(),
            dir is IncBin,
        ensures
            r.1 is None ==> pass2_out(dir.spec_view(), self.pc, &self.symbols, self.encoding, self.dir(), &self.files)
                == Some((r.0@, r.2)),
            r.1 is Some ==> pass2_out(dir.spec_view(), self.pc, &self.symbols, self.encoding, self.dir(), &self.files)
                is None,
            r.1 matches Some(e) ==> bytes_error(self, dir.spec_view(), e),
    {
        let empty: Vec<u8> = Vec::new();
        assert(empty@ =~= Seq::<u8>::empty());
        match dir {
            Directive::IncBin { path, offset, length } => {
                let resolved = match self.resolve_file_path(path.as_str()) {
                    Ok(p) => p,
                    Err(e) => { return (empty, Some(e), self.pc); },
                };
                let data = match self.files.get(resolved.as_str()) {
                    Some(d) => d,
                    None => {
                        return (empty, Some(crate::preprocessor::message2("Cannot read ", path.as_str(), "", "", "")), self.pc);
                    },
                };
                let (off, len) = match self.incbin_length(offset, length, data.len()) {
                    Ok(x) => x,
                    Err(e) => { return (empty, Some(e), self.pc); },
                };
                if off > data.len() || len > data.len() - off {
                    return (
                        empty,
                        Some(crate::preprocessor::message2(".incbin range lies beyond the end of ", path.as_str(), "", "", "")),
                        self.pc,
                    );
                }
                let mut bytes: Vec<u8> = Vec::new();
                let mut i = off;
                let end = off + len;
                while i < end
                    invariant
                        end == off + len,
                        off <= i <= off + len <= data@.len(),
                        bytes@ == data@.subrange(off as int, i as int),
                    decreases end - i,
                {
                    bytes.push(data[i]);
                    i += 1;
                    assert(bytes@ =~= data@.subrange(off as int, i as int));
                }
                let next = self.pc.wrapping_add(len as u16);
                assert(pass2_out(dir.spec_view(), self.pc, &self.symbols, self.encoding, self.dir(), &self.files)
                    == Some((bytes@, next)));
                (bytes, None, next)
            },
            _ => (empty, None, self.pc),
        }
    }

    /// The bytes pass 2 stores for a data-producing directive.
    fn pass2_bytes(&self, dir: &Directive) -> (r: (Vec<u8>, Option<AsmError>, u16))
        requires
            self.inv(),
            dir is Align || dir is Storage || dir is Byte || dir is Word || dir is Dword || dir is Text
                || dir is IncBin || dir is Org,
        ensures
            r.1 is None ==> pass2_out(dir.spec_view(), self.pc, &self.symbols, self.encoding, self.dir(), &self.files)
                == Some((r.0@, r.2)),
            r.1 is Some ==> pass2_out(dir.spec_view(), self.pc, &self.symbols, self.encoding, self.dir(), &self.files)
                is None,
            r.1 matches Some(e) ==> bytes_error(self, dir.spec_view(), e),
    {
        match dir {
            Directive::Org(_) | Directive::Align(_) => self.pass2_align(dir),
            Directive::Storage { .. } => self.pass2_storage(dir),
            Directive::IncBin { .. } => self.pass2_incbin(dir),
            Directive::Text(_) => self.pass2_text(dir),
            _ => self.pass2_data(dir),
        }
    }

    #[verifier::spinoff_prover]
    fn process_directive_pass2(&mut self, dir: &Directive, file: &str, line_num: usize) -> (r: AsmResult<()>)
        requires
            old(self).inv(),
        ensures
            final(self).inv(),
            final(self).macro_depth == old(self).macro_depth,
            final(self).listing_data == old(self).listing_data,
            final(self).files == old(self).files,
            final(self).project_dir == old(self).project_dir,
            final(self).cpu_mode == old(self).cpu_mode,
            final(self).quiet == old(self).quiet,
            final(self).symbols.scope_stack() == old(self).symbols.scope_stack(),
            r is Ok <==> dir2_succeeds(old(self), dir.spec_view()),
            r is Ok ==> dir2(old(self), dir.spec_view(), file@, line_num, final(self)),
            r matches Err(e) ==> dir2_error(old(self), dir.spec_view(), e),
            dir matches Directive::Error(args) ==> error_at(
                r,
                message_text(crate::parser::args_view(args@), &old(self).symbols, old(self).pc),
                file@,
                line_num,
            ),
    {
        match dir {
            Directive::Align(_) | Directive::Storage { .. } | Directive::Byte(_) | Directive::Word(_)
            | Directive::Dword(_) | Directive::Text(_) | Directive::IncBin { .. } | Directive::Org(_) => {
                let (bytes, err, next) = self.pass2_bytes(dir);
                self.emit_bytes(&bytes);
                match err {
                    Some(e) => { return Err(e); },
                    None => {},
                }
                self.pc = next;
            },
            Directive::Encoding { enc_type, case } => {
                self.apply_encoding(enc_type, case);
            },
            Directive::Setting(pairs) => {
                self.apply_setting(pairs);
            },
            Directive::Print(args) => {
                if !self.quiet {
                    let m = match self.message_of(args) {
                        Ok(m) => m,
                        Err(e) => { return Err(e); },
                    };
                    let ghost before = self.printed@;
                    self.printed.push(m);
                    assert(self.printed@.drop_last() =~= before);
                }
            },
            Directive::Error(args) => {
                let m = match self.message_of(args) {
                    Ok(m) => m,
                    Err(e) => { return Err(e); },
                };
                return Err(
                    AsmError::new(m.as_str()).with_location(
                        SourceLocation { file: String::from_str(file), line: line_num, col: 1 },
                    ),
                );
            },
            Directive::FileSize { name, path } => {
                let resolved = match self.resolve_file_path(path.as_str()) {
                    Ok(p) => p,
                    Err(e) => { return Err(e); },
                };
                let size = match self.files.get(resolved.as_str()) {
                    Some(d) => d.len() as i64,
                    None => { return Err(crate::preprocessor::message2("Cannot stat ", path.as_str(), "", "", "")); },
                };
                if !name.as_str().is_empty() {
                    if self.symbols.symbol_exists(name.as_str()) {
                        let _ = self.symbols.update_variable(name.as_str(), size);
                    } else {
                        match self.symbols.define_constant(name.as_str(), size, file, line_num) {
                            Ok(()) => {},
                            Err(e) => { return Err(e); },
                        }
                    }
                }
            },
            _ => {},
        }
        Ok(())
    }
}

// ---- instructions ----

/// The bytes of an instruction at `pc`: the opcode, then its immediate (the
/// first expression's value, low byte first) or zeros when it has none.
pub open spec fn instruction_bytes(
    m: Seq<char>,
    ops: Seq<ParsedOperand>,
    es: Seq<SpecExpr>,
    st: &SymbolTable,
    pc: u16,
    z80: bool,
) -> Option<Seq<u8>> {
    match crate::instructions::mnemonic_of(m) {
        None => None,
        Some(mn) => match crate::instructions::encoding_of(mn, ops, z80) {
            None => None,
            Some((op, k)) => match k {
                crate::instructions::ImmKind::NoImm => Some(seq![op]),
                crate::instructions::ImmKind::Imm8 => if es.len() > 0 {
                    match crate::expr::eval(es[0], st, true, pc) {
                        Some(v) => Some(seq![op, v as u8]),
                        None => None,
                    }
                } else {
                    Some(seq![op, 0u8])
                },
                crate::instructions::ImmKind::Imm16 => if es.len() > 0 {
                    match crate::expr::eval(es[0], st, true, pc) {
                        Some(v) => {
                            let w = v as u16;
                            Some(seq![op, (w & 0xFF) as u8, ((w >> 8) & 0xFF) as u8])
                        },
                        None => None,
                    }
                } else {
                    Some(seq![op, 0u8, 0u8])
                },
            },
        },
    }
}

/// What pass 2 does with an instruction from state `a`, ending in state `b`:
/// its bytes are stored from the current address, which moves past them;
/// nothing else changes.
pub open spec fn instr2(a: &Assembler, m: Seq<char>, ops: Seq<ParsedOperand>, es: Seq<SpecExpr>, b: &Assembler) -> bool {
    let bytes = instruction_bytes(m, ops, es, &a.symbols, a.pc, a.cpu_mode == CpuMode::Z80);
    &&& bytes is Some
    &&& b.inv()
    &&& b.symbols == a.symbols
    &&& b.listing_data == a.listing_data
    &&& b.printed == a.printed
    &&& b.files == a.files
    &&& b.project_dir == a.project_dir
    &&& b.macro_depth == a.macro_depth
    &&& b.cpu_mode == a.cpu_mode
    &&& b.encoding == a.encoding
    &&& b.settings == a.settings
    &&& b.quiet == a.quiet
    &&& b.pc == advance(a.pc, bytes->0.len() as int)
    &&& writes_at(&a.output, &b.output, a.pc, bytes->0)
}

impl Assembler {
    /// Encodes an instruction with its immediate value and stores it at the
    /// current address.
    #[verifier::spinoff_prover]
    #[verifier::rlimit(40)]
    fn emit_instruction(&mut self, mnemonic: &str, operands: &[ParsedOperand], expressions: &[Expr]) -> (r: AsmResult<
        (),
    >)
        requires
            old(self).inv(),
        ensures
            final(self).inv(),
            final(self).symbols == old(self).symbols,
            final(self).listing_data == old(self).listing_data,
            final(self).printed == old(self).printed,
            final(self).files == old(self).files,
            final(self).project_dir == old(self).project_dir,
            final(self).macro_depth == old(self).macro_depth,
            final(self).cpu_mode == old(self).cpu_mode,
            final(self).encoding == old(self).encoding,
            final(self).settings == old(self).settings,
            final(self).quiet == old(self).quiet,
            ({
                let b = instruction_bytes(
                    mnemonic@,
                    operands@,
                    crate::parser::exprs_view(expressions@),
                    &old(self).symbols,
                    old(self).pc,
                    old(self).cpu_mode == CpuMode::Z80,
                );
                &&& (r is Ok <==> b is Some)
                &&& r is Err ==> final(self).output == old(self).output && final(self).pc == old(self).pc
            }),
            !encodes(mnemonic@, operands@, old(self).cpu_mode == CpuMode::Z80) ==> (r matches Err(e)
                && e.message@ == crate::instructions::encode_error(mnemonic@, operands@, old(self).cpu_mode == CpuMode::Z80)),
            encodes(mnemonic@, operands@, old(self).cpu_mode == CpuMode::Z80) ==> (r matches Err(e) ==> e.message@
                == crate::expr::eval_error(
                crate::parser::exprs_view(expressions@)[0],
                &old(self).symbols,
                true,
                old(self).pc,
            )),
            r is Ok ==> instr2(
                old(self),
                mnemonic@,
                operands@,
                crate::parser::exprs_view(expressions@),
                final(self),
            ),
    {
        let mut encoded = match encode_instruction(mnemonic, operands, self.cpu_mode) {
            Ok(enc) => enc,
            Err(e) => { return Err(e); },
        };
        let mut expr_idx: usize = 0;
        proof {
            if expressions@.len() > 0 {
                assert(crate::parser::exprs_view(expressions@)[0] == expressions@[0].spec_view());
            }
        }
        if encoded.has_imm8 && expr_idx < expressions.len() {
            let value = match self.eval_expr(&expressions[expr_idx]) {
                Ok(v) => v,
                Err(e) => { return Err(e); },
            };
            let val = value as u8;
            encoded.bytes.set(1, val);
            expr_idx += 1;
        }
        if encoded.has_imm16 && expr_idx < expressions.len() {
            let value = match self.eval_expr(&expressions[expr_idx]) {
                Ok(v) => v,
                Err(e) => { return Err(e); },
            };
            let val = value as u16;
            encoded.bytes.set(1, (val & 0xFF) as u8);
            encoded.bytes.set(2, ((val >> 8) & 0xFF) as u8);
        }
        proof {
            assert(crate::parser::exprs_view(expressions@).len() == expressions@.len());
            if expressions@.len() > 0 {
                assert(crate::parser::exprs_view(expressions@)[0] == expressions@[0].spec_view());
            }
            let b = instruction_bytes(
                mnemonic@,
                operands@,
                crate::parser::exprs_view(expressions@),
                &self.symbols,
                self.pc,
                self.cpu_mode == CpuMode::Z80,
            );
            assert(encoded.bytes@ =~= b->0);
        }
        self.emit_bytes(&encoded.bytes);
        Ok(())
    }

    fn instruction_size(&self, mnemonic: &str, operands: &[ParsedOperand]) -> (r: AsmResult<u16>)
        ensures
            r matches Ok(n) ==> crate::instructions::mnemonic_of(mnemonic@) matches Some(mn)
                && crate::instructions::encoding_of(mn, operands@, self.cpu_mode == CpuMode::Z80) matches Some((op, k))
                && n == crate::instructions::imm_size(k),
            r is Err <==> !(crate::instructions::mnemonic_of(mnemonic@) matches Some(mn)
                && crate::instructions::encoding_of(mn, operands@, self.cpu_mode == CpuMode::Z80) is Some),
            r matches Err(e) ==> e.message@ == crate::instructions::encode_error(
                mnemonic@,
                operands@,
                self.cpu_mode == CpuMode::Z80,
            ),
    {
        match encode_instruction(mnemonic, operands, self.cpu_mode) {
            Ok(encoded) => Ok(encoded.size as u16),
            Err(e) => Err(e),
        }
    }
}

// ---- lines ----

/// What every step of a pass keeps: the invariant, the macro nesting, the
/// inputs, and the active macro scopes.
pub open spec fn step_frame(a: &Assembler, b: &Assembler) -> bool {
    &&& b.inv()
    &&& b.macro_depth == a.macro_depth
    &&& b.files == a.files
    &&& b.project_dir == a.project_dir
    &&& b.cpu_mode == a.cpu_mode
    &&& b.quiet == a.quiet
    &&& b.symbols.scope_stack() == a.symbols.scope_stack()
}

/// Everything the passes work with but the symbol table is the same in `a`
/// and `b`.
pub open spec fn others_same(a: &Assembler, b: &Assembler) -> bool {
    &&& b.output == a.output
    &&& b.listing_data == a.listing_data
    &&& b.pc == a.pc
    &&& b.cpu_mode == a.cpu_mode
    &&& b.encoding == a.encoding
    &&& b.settings == a.settings
    &&& b.quiet == a.quiet
    &&& b.printed == a.printed
    &&& b.files == a.files
    &&& b.project_dir == a.project_dir
    &&& b.macro_depth == a.macro_depth
}

/// `b` is `a` with the address moved to `pc` and nothing else changed.
pub open spec fn moved_to(a: Assembler, pc: u16, b: Assembler) -> bool {
    &&& b.symbols == a.symbols
    &&& b.output == a.output
    &&& b.listing_data == a.listing_data
    &&& b.pc == pc
    &&& b.cpu_mode == a.cpu_mode
    &&& b.encoding == a.encoding
    &&& b.settings == a.settings
    &&& b.quiet == a.quiet
    &&& b.printed == a.printed
    &&& b.files == a.files
    &&& b.project_dir == a.project_dir
    &&& b.macro_depth == a.macro_depth
}

/// What pass 1 does with one item of a line read from `file` at `line`,
/// from state `a` to state `b`, when it succeeds: labels take the current
/// address; constants and variables take the value of their expression, or
/// a global constant whose value is not known yet keeps its expression for
/// later; instructions and directives move the address past themselves.
pub open spec fn item1(a: Assembler, it: SpecLine, file: Seq<char>, line: usize, b: Assembler) -> bool {
    match it {
        SpecLine::ConstDef { name, is_local, expr } => match crate::expr::eval(expr, &a.symbols, false, a.pc) {
            Some(v) => others_same(&a, &b) && if is_local {
                a.symbols.local_counter() < usize::MAX && local_defined(&a.symbols, &b.symbols, name, v)
            } else if is_variable(&a.symbols, name) {
                variable_assigned(&a.symbols, &b.symbols, name, v)
            } else {
                !constant_clash(&a.symbols, name, v) && constant_defined(&a.symbols, &b.symbols, name, v, file, line)
            },
            None => if is_local {
                b == a
            } else {
                others_same(&a, &b) && constant_deferred(&a.symbols, &b.symbols, name, expr, file, line)
            },
        },
        SpecLine::VarDef { name, expr } => match crate::expr::eval(expr, &a.symbols, false, a.pc) {
            Some(v) => others_same(&a, &b) && variable_defined(&a.symbols, &b.symbols, name, v, file, line),
            None => b == a,
        },
        SpecLine::Instruction { mnemonic, operands, expressions: _ } => match crate::instructions::mnemonic_of(mnemonic) {
            Some(mn) => match crate::instructions::encoding_of(mn, operands, a.cpu_mode == CpuMode::Z80) {
                Some((_, k)) => moved_to(a, advance(a.pc, crate::instructions::imm_size(k) as int), b),
                None => false,
            },
            None => false,
        },
        SpecLine::Directive(d) => dir1_succeeds(&a, d) && dir1(&a, d, file, line, &b),
        _ => item2(a, it, file, line, b),
    }
}

/// What the first (`second` false) or second pass does with one item of a
/// line.
pub open spec fn item(a: Assembler, it: SpecLine, file: Seq<char>, line: usize, b: Assembler, second: bool) -> bool {
    if second {
        item2(a, it, file, line, b)
    } else {
        item1(a, it, file, line, b)
    }
}

/// What pass 2 does with one item of a line read from `file` at `line`,
/// from state `a` to state `b`, when it succeeds: labels take the current
/// address, constants and variables the value of their expression,
/// instructions and directives are emitted.
pub open spec fn item2(a: Assembler, it: SpecLine, file: Seq<char>, line: usize, b: Assembler) -> bool {
    match it {
        SpecLine::Empty => b == a,
        SpecLine::Label(name) => {
            &&& others_same(&a, &b)
            &&& a.symbols.scope() < usize::MAX
            &&& !constant_clash(&a.symbols, name, a.pc as i64)
            &&& label_defined(&a.symbols, &b.symbols, name, a.pc, file, line)
        },
        SpecLine::LocalLabel(name) => {
            &&& others_same(&a, &b)
            &&& a.symbols.local_counter() < usize::MAX
            &&& local_defined(&a.symbols, &b.symbols, name, a.pc as i64)
        },
        SpecLine::ConstDef { name, is_local, expr } => match crate::expr::eval(expr, &a.symbols, true, a.pc) {
            None => false,
            Some(v) => others_same(&a, &b) && if is_local {
                a.symbols.local_counter() < usize::MAX && local_defined(&a.symbols, &b.symbols, name, v)
            } else if is_variable(&a.symbols, name) {
                variable_assigned(&a.symbols, &b.symbols, name, v)
            } else {
                !constant_clash(&a.symbols, name, v) && constant_defined(&a.symbols, &b.symbols, name, v, file, line)
            },
        },
        SpecLine::VarDef { name, expr } => match crate::expr::eval(expr, &a.symbols, true, a.pc) {
            None => false,
            Some(v) => others_same(&a, &b) && if a.symbols.global(upper_seq(name)) is Some {
                variable_assigned(&a.symbols, &b.symbols, name, v)
            } else {
                variable_defined(&a.symbols, &b.symbols, name, v, file, line)
            },
        },
        SpecLine::Instruction { mnemonic, operands, expressions } => instr2(&a, mnemonic, operands, expressions, &b),
        SpecLine::Directive(d) => dir2_succeeds(&a, d) && dir2(&a, d, file, line, &b),
    }
}

/// `states` are the states a pass goes through on the items of a line read
/// from `file` at `line`: each item leads from one state to the next.
pub open spec fn item_run(items: Seq<SpecLine>, file: Seq<char>, line: usize, states: Seq<Assembler>, second: bool) -> bool {
    &&& states.len() == items.len() + 1
    &&& forall|i: int| 0 <= i < items.len() ==> item(states[i], #[trigger] items[i], file, line, states[i + 1], second)
}

/// The items of a line, handled one after the other by a pass, lead from
/// state `a` to state `b`.
pub open spec fn items_done(a: Assembler, items: Seq<SpecLine>, file: Seq<char>, line: usize, b: Assembler, second: bool) -> bool {
    exists|states: Seq<Assembler>|
        #[trigger] item_run(items, file, line, states, second) && states[0] == a && states.last() == b
}

/// Whether the first (`second` false) or second pass gets through one item
/// of a line from state `a`.
pub open spec fn item_ok(a: Assembler, it: SpecLine, second: bool) -> bool {
    match it {
        SpecLine::Empty => true,
        SpecLine::Label(name) => a.symbols.scope() < usize::MAX && !constant_clash(&a.symbols, name, a.pc as i64),
        SpecLine::LocalLabel(_) => a.symbols.local_counter() < usize::MAX,
        SpecLine::ConstDef { name, is_local, expr } => match crate::expr::eval(expr, &a.symbols, second, a.pc) {
            Some(v) => if is_local {
                a.symbols.local_counter() < usize::MAX
            } else if is_variable(&a.symbols, name) {
                true
            } else {
                !constant_clash(&a.symbols, name, v)
            },
            None => !second,
        },
        SpecLine::VarDef { name: _, expr } => !second || crate::expr::eval(expr, &a.symbols, true, a.pc) is Some,
        SpecLine::Instruction { mnemonic, operands, expressions } => if second {
            instruction_bytes(mnemonic, operands, expressions, &a.symbols, a.pc, a.cpu_mode == CpuMode::Z80) is Some
        } else {
            crate::instructions::mnemonic_of(mnemonic) matches Some(mn) && crate::instructions::encoding_of(
                mn,
                operands,
                a.cpu_mode == CpuMode::Z80,
            ) is Some
        },
        SpecLine::Directive(d) => if second {
            dir2_succeeds(&a, d)
        } else {
            dir1_succeeds(&a, d)
        },
    }
}

/// Whether `mnemonic` with `operands` has an encoding.
pub open spec fn encodes(mnemonic: Seq<char>, operands: Seq<ParsedOperand>, z80: bool) -> bool {
    crate::instructions::mnemonic_of(mnemonic) matches Some(mn) && crate::instructions::encoding_of(mn, operands, z80)
        is Some
}

/// What the error of item `it` says when it fails from state `a`: a label
/// or constant that clashes with a defined one names it, a full symbol
/// table says so, and pass 2 reports why a constant's or variable's
/// expression has no value; an instruction that cannot be encoded says
/// why, and in pass 2 one whose immediate value has none says why; and
/// directives report what `dir1_error` and `dir2_error` say, pass 2 the
/// message of an `.error` directive at its line (read from `file` at
/// `line`).
pub open spec fn item_error(a: Assembler, it: SpecLine, second: bool, file: Seq<char>, line: usize, err: AsmError) -> bool {
    match it {
        SpecLine::Label(name) => if a.symbols.scope() == usize::MAX {
            err.message@ == "Too many symbols"@
        } else {
            err.message@ == "Symbol '"@ + name + "' already defined"@
        },
        SpecLine::LocalLabel(_) => err.message@ == "Too many symbols"@,
        SpecLine::ConstDef { name, is_local, expr } => match crate::expr::eval(expr, &a.symbols, second, a.pc) {
            Some(_) => if is_local {
                err.message@ == "Too many symbols"@
            } else {
                err.message@ == "Constant '"@ + name + "' already defined with different value"@
            },
            None => err.message@ == crate::expr::eval_error(expr, &a.symbols, true, a.pc),
        },
        SpecLine::VarDef { name: _, expr } => err.message@ == crate::expr::eval_error(expr, &a.symbols, true, a.pc),
        SpecLine::Instruction { mnemonic, operands, expressions } => if !second || !encodes(
            mnemonic,
            operands,
            a.cpu_mode == CpuMode::Z80,
        ) {
            err.message@ == crate::instructions::encode_error(mnemonic, operands, a.cpu_mode == CpuMode::Z80)
        } else {
            err.message@ == crate::expr::eval_error(expressions[0], &a.symbols, true, a.pc)
        },
        SpecLine::Directive(d) => if second {
            dir2_error(&a, d, err) && match d {
                SpecDirective::Error(args) => error_at(Err(err), message_text(args, &a.symbols, a.pc), file, line),
                _ => true,
            }
        } else {
            dir1_error(&a, d, err)
        },
        _ => true,
    }
}

/// The items of a line before item `k` lead from state `a` through
/// `states`, and item `k` fails from the last of them.
pub open spec fn items_fail_at(a: Assembler, items: Seq<SpecLine>, file: Seq<char>, line: usize, second: bool, k: int, states: Seq<Assembler>, err: AsmError) -> bool {
    &&& 0 <= k < items.len()
    &&& item_run(items.take(k), file, line, states, second)
    &&& states[0] == a
    &&& !item_ok(states.last(), items[k], second)
    &&& item_error(states.last(), items[k], second, file, line, err)
}

/// Handling the items of a line one after the other fails from state `a`:
/// some item fails from the state the items before it lead to.
pub open spec fn items_fail(a: Assembler, items: Seq<SpecLine>, file: Seq<char>, line: usize, second: bool, err: AsmError) -> bool {
    exists|k: int, states: Seq<Assembler>| #[trigger] items_fail_at(a, items, file, line, second, k, states, err)
}

/// The label error a symbol table counter at its limit gives.
fn table_full() -> (e: AsmError)
    ensures
        e.message@ == "Too many symbols"@,
        e.location is None,
        e.source_line is None,
{
    AsmError::new("Too many symbols")
}

impl Assembler {
    fn define_label_here(&mut self, name: &str, file: &str, line: usize) -> (r: AsmResult<()>)
        requires
            old(self).inv(),
        ensures
            others_same(old(self), final(self)),
            r is Ok <==> old(self).symbols.scope() < usize::MAX && !constant_clash(&old(self).symbols, name@, old(self).pc as i64),
            r matches Err(e) ==> e.message@ == if old(self).symbols.scope() == usize::MAX {
                "Too many symbols"@
            } else {
                "Symbol '"@ + name@ + "' already defined"@
            },
            r is Ok ==> label_defined(&old(self).symbols, &final(self).symbols, name@, old(self).pc, file@, line),
            step_frame(old(self), final(self)),
            final(self).pc == old(self).pc,
            final(self).output == old(self).output,
            final(self).listing_data == old(self).listing_data,
            final(self).printed == old(self).printed,
    {
        if self.symbols.current_scope() == usize::MAX {
            return Err(table_full());
        }
        self.symbols.define_label(name, self.pc, file, line)
    }

    fn define_local_label_here(&mut self, name: &str, file: &str, line: usize) -> (r: AsmResult<()>)
        requires
            old(self).inv(),
        ensures
            others_same(old(self), final(self)),
            r is Ok <==> old(self).symbols.local_counter() < usize::MAX,
            r matches Err(e) ==> e.message@ == "Too many symbols"@,
            r is Ok ==> local_defined(&old(self).symbols, &final(self).symbols, name@, old(self).pc as i64),
            step_frame(old(self), final(self)),
            final(self).pc == old(self).pc,
            final(self).output == old(self).output,
            final(self).listing_data == old(self).listing_data,
            final(self).printed == old(self).printed,
    {
        if self.symbols.local_label_counter() == usize::MAX {
            return Err(table_full());
        }
        self.symbols.define_local_label(name, self.pc, file, line)
    }

    fn define_local_constant_here(&mut self, name: &str, value: i64, file: &str, line: usize) -> (r: AsmResult<()>)
        requires
            old(self).inv(),
        ensures
            others_same(old(self), final(self)),
            r is Ok <==> old(self).symbols.local_counter() < usize::MAX,
            r matches Err(e) ==> e.message@ == "Too many symbols"@,
            r is Ok ==> local_defined(&old(self).symbols, &final(self).symbols, name@, value),
            step_frame(old(self), final(self)),
            final(self).pc == old(self).pc,
            final(self).output == old(self).output,
            final(self).listing_data == old(self).listing_data,
            final(self).printed == old(self).printed,
    {
        if self.symbols.local_label_counter() == usize::MAX {
            return Err(table_full());
        }
        self.symbols.define_local_constant(name, value, file, line)
    }

    /// Pass 1 on one item of a line.
    #[verifier::spinoff_prover]
    fn item_pass1(&mut self, line: &SourceLine, it: &ParsedLine) -> (r: AsmResult<()>)
        requires
            old(self).inv(),
        ensures
            step_frame(old(self), final(self)),
            final(self).output == old(self).output,
            final(self).listing_data == old(self).listing_data,
            final(self).printed == old(self).printed,
            r is Ok <==> item_ok(*old(self), it.spec_view(), false),
            r matches Err(e) ==> item_error(*old(self), it.spec_view(), false, line.file@, line.line_num, e),
            r is Ok ==> item1(*old(self), it.spec_view(), line.file@, line.line_num, *final(self)),
    {
        match it {
            ParsedLine::Empty => {},
            ParsedLine::Label(name) => {
                match self.define_label_here(name.as_str(), line.file.as_str(), line.line_num) {
                    Ok(()) => {},
                    Err(e) => { return Err(e); },
                }
            },
            ParsedLine::LocalLabel(name) => {
                match self.define_local_label_here(name.as_str(), line.file.as_str(), line.line_num) {
                    Ok(()) => {},
                    Err(e) => { return Err(e); },
                }
            },
            ParsedLine::ConstDef { name, is_local, expr } => {
                match eval_expr(expr, &self.symbols, false, self.pc) {
                    Ok(val) => {
                        if *is_local {
                            match self.define_local_constant_here(name.as_str(), val, line.file.as_str(), line.line_num) {
                                Ok(()) => {},
                                Err(e) => { return Err(e); },
                            }
                        } else if self.symbols.is_mutable(name.as_str()) {
                            match self.symbols.update_variable(name.as_str(), val) {
                                Ok(()) => {},
                                Err(e) => { return Err(e); },
                            }
                        } else {
                            match self.symbols.define_constant(name.as_str(), val, line.file.as_str(), line.line_num) {
                                Ok(()) => {},
                                Err(e) => { return Err(e); },
                            }
                        }
                    },
                    Err(_) => {
                        if !*is_local {
                            match self.symbols.define_constant_deferred(
                                name.as_str(),
                                expr.copy(),
                                line.file.as_str(),
                                line.line_num,
                            ) {
                                Ok(()) => {},
                                Err(e) => { return Err(e); },
                            }
                        }
                    },
                }
            },
            ParsedLine::VarDef { name, expr } => {
                match eval_expr(expr, &self.symbols, false, self.pc) {
                    Ok(val) => {
                        match self.symbols.define_variable(name.as_str(), val, line.file.as_str(), line.line_num) {
                            Ok(()) => {},
                            Err(e) => { return Err(e); },
                        }
                    },
                    Err(_) => {},
                }
            },
            ParsedLine::Instruction { mnemonic, operands, expressions: _ } => {
                let size = match self.instruction_size(mnemonic.as_str(), operands.as_slice()) {
                    Ok(n) => n,
                    Err(e) => { return Err(e); },
                };
                self.pc = self.pc.wrapping_add(size);
            },
            ParsedLine::Directive(dir) => {
                match self.process_directive_pass1(dir, line.file.as_str(), line.line_num) {
                    Ok(()) => {},
                    Err(e) => { return Err(e); },
                }
            },
        }
        Ok(())
    }

    #[verifier::spinoff_prover]
    fn process_parsed_line_pass1(&mut self, line: &SourceLine, parsed: &[ParsedLine]) -> (r: AsmResult<()>)
        requires
            old(self).inv(),
        ensures
            step_frame(old(self), final(self)),
            final(self).output == old(self).output,
            final(self).listing_data == old(self).listing_data,
            final(self).printed == old(self).printed,
            r is Ok ==> items_done(*old(self), lines_view(parsed@), line.file@, line.line_num, *final(self), false),
            r matches Err(e) ==> items_fail(*old(self), lines_view(parsed@), line.file@, line.line_num, false, e),
    {
        let ghost lv = lines_view(parsed@);
        let ghost mut states: Seq<Assembler> = seq![*self];
        let mut k: usize = 0;
        while k < parsed.len()
            invariant
                k <= parsed@.len(),
                lv == lines_view(parsed@),
                step_frame(old(self), self),
                self.output == old(self).output,
                self.listing_data == old(self).listing_data,
                self.printed == old(self).printed,
                item_run(lv.take(k as int), line.file@, line.line_num, states, false),
                states[0] == *old(self),
                states.last() == *self,
            decreases parsed@.len() - k,
        {
            let ghost before = *self;
            assert(lv[k as int] == parsed@[k as int].spec_view());
            match self.item_pass1(line, &parsed[k]) {
                Ok(()) => {},
                Err(e) => {
                    assert(items_fail_at(*old(self), lv, line.file@, line.line_num, false, k as int, states, e));
                    return Err(e);
                },
            }
            proof {
                states = states.push(*self);
                assert forall|i: int| 0 <= i < k + 1 implies item(
                    states[i],
                    #[trigger] lv.take(k + 1)[i],
                    line.file@,
                    line.line_num,
                    states[i + 1],
                    false,
                ) by {
                    if i < k {
                        assert(lv.take(k as int)[i] == lv.take(k + 1)[i]);
                    }
                }
            }
            k += 1;
        }
        assert(lv.take(k as int) =~= lv);
        assert(item_run(lv, line.file@, line.line_num, states, false));
        Ok(())
    }

    /// Pass 2 on one item of a line.
    #[verifier::spinoff_prover]
    fn item_pass2(&mut self, line: &SourceLine, it: &ParsedLine) -> (r: AsmResult<()>)
        requires
            old(self).inv(),
        ensures
            step_frame(old(self), final(self)),
            final(self).listing_data == old(self).listing_data,
            r is Ok <==> item_ok(*old(self), it.spec_view(), true),
            r matches Err(e) ==> item_error(*old(self), it.spec_view(), true, line.file@, line.line_num, e),
            r is Ok ==> item2(*old(self), it.spec_view(), line.file@, line.line_num, *final(self)),
    {
        match it {
            ParsedLine::Empty => {},
            ParsedLine::Label(name) => {
                match self.define_label_here(name.as_str(), line.file.as_str(), line.line_num) {
                    Ok(()) => {},
                    Err(e) => { return Err(e); },
                }
            },
            ParsedLine::LocalLabel(name) => {
                match self.define_local_label_here(name.as_str(), line.file.as_str(), line.line_num) {
                    Ok(()) => {},
                    Err(e) => { return Err(e); },
                }
            },
            ParsedLine::ConstDef { name, is_local, expr } => {
                let val = match self.eval_expr(expr) {
                    Ok(v) => v,
                    Err(e) => { return Err(e); },
                };
                if *is_local {
                    match self.define_local_constant_here(name.as_str(), val, line.file.as_str(), line.line_num) {
                        Ok(()) => {},
                        Err(e) => { return Err(e); },
                    }
                } else if self.symbols.is_mutable(name.as_str()) {
                    match self.symbols.update_variable(name.as_str(), val) {
                        Ok(()) => {},
                        Err(e) => { return Err(e); },
                    }
                } else {
                    match self.symbols.define_constant(name.as_str(), val, line.file.as_str(), line.line_num) {
                        Ok(()) => {},
                        Err(e) => { return Err(e); },
                    }
                }
            },
            ParsedLine::VarDef { name, expr } => {
                let val = match self.eval_expr(expr) {
                    Ok(v) => v,
                    Err(e) => { return Err(e); },
                };
                if self.symbols.symbol_exists(name.as_str()) {
                    let _ = self.symbols.update_variable(name.as_str(), val);
                } else {
                    match self.symbols.define_variable(name.as_str(), val, line.file.as_str(), line.line_num) {
                        Ok(()) => {},
                        Err(e) => { return Err(e); },
                    }
                }
            },
            ParsedLine::Instruction { mnemonic, operands, expressions } => {
                match self.emit_instruction(mnemonic.as_str(), operands.as_slice(), expressions.as_slice()) {
                    Ok(()) => {},
                    Err(e) => { return Err(e); },
                }
            },
            ParsedLine::Directive(dir) => {
                match self.process_directive_pass2(dir, line.file.as_str(), line.line_num) {
                    Ok(()) => {},
                    Err(e) => { return Err(e); },
                }
            },
        }
        Ok(())
    }

    #[verifier::spinoff_prover]
    fn process_parsed_line_pass2(&mut self, line: &SourceLine, parsed: &[ParsedLine]) -> (r: AsmResult<()>)
        requires
            old(self).inv(),
        ensures
            step_frame(old(self), final(self)),
            final(self).listing_data == old(self).listing_data,
            r is Ok ==> items_done(*old(self), lines_view(parsed@), line.file@, line.line_num, *final(self), true),
            r matches Err(e) ==> items_fail(*old(self), lines_view(parsed@), line.file@, line.line_num, true, e),
    {
        let ghost lv = lines_view(parsed@);
        let ghost mut states: Seq<Assembler> = seq![*self];
        let mut k: usize = 0;
        while k < parsed.len()
            invariant
                k <= parsed@.len(),
                lv == lines_view(parsed@),
                step_frame(old(self), self),
                self.listing_data == old(self).listing_data,
                item_run(lv.take(k as int), line.file@, line.line_num, states, true),
                states[0] == *old(self),
                states.last() == *self,
            decreases parsed@.len() - k,
        {
            let ghost before = *self;
            assert(lv[k as int] == parsed@[k as int].spec_view());
            match self.item_pass2(line, &parsed[k]) {
                Ok(()) => {},
                Err(e) => {
                    assert(items_fail_at(*old(self), lv, line.file@, line.line_num, true, k as int, states, e));
                    return Err(e);
                },
            }
            proof {
                states = states.push(*self);
                assert forall|i: int| 0 <= i < k + 1 implies item(
                    states[i],
                    #[trigger] lv.take(k + 1)[i],
                    line.file@,
                    line.line_num,
                    states[i + 1],
                    true,
                ) by {
                    if i < k {
                        assert(lv.take(k as int)[i] == lv.take(k + 1)[i]);
                    }
                }
            }
            k += 1;
        }
        assert(lv.take(k as int) =~= lv);
        assert(item_run(lv, line.file@, line.line_num, states, true));
        Ok(())
    }
}

/// The line at which an error is reported, unless it has a location.
fn at_line(e: AsmError, line: &SourceLine) -> (r: AsmError)
    ensures
        reported_at(e, *line, r),
{
    e.ensure_location(line.file.as_str(), line.line_num)
}

impl Assembler {
    #[verifier::spinoff_prover]
    fn expand_macro_pass1(&mut self, line: &SourceLine, macro_name: &str, args: &[String]) -> (r: AsmResult<()>)
        requires
            old(self).inv(),
        ensures
            step_frame(old(self), final(self)),
            final(self).output == old(self).output,
            final(self).listing_data == old(self).listing_data,
            final(self).printed == old(self).printed,
            r is Ok ==> exists|e: Seq<SourceLine>, inner: Assembler, body: Trace, done: Assembler|
                #[trigger] macro_step(
                    *old(self),
                    *line,
                    macro_name@,
                    crate::preprocessor::strings_view(args@),
                    e,
                    inner,
                    body,
                    done,
                    *final(self),
                    false,
                ),
            r matches Err(err) ==> (macro_call_fails(*old(self), macro_name@, crate::preprocessor::strings_view(args@))
                && macro_call_error(*old(self), macro_name@, crate::preprocessor::strings_view(args@), err)) || exists|
                e: Seq<SourceLine>,
                inner: Assembler,
                t: Trace,
                m: Assembler,
                mi: usize,
                f: Failure,
            |
                #[trigger] macro_fails_inside(
                    *old(self),
                    *line,
                    macro_name@,
                    crate::preprocessor::strings_view(args@),
                    e,
                    inner,
                    t,
                    m,
                    mi,
                    f,
                    false,
                    err,
                ),
        decreases MAX_MACRO_DEPTH - old(self).macro_depth, 0int, 0int,
    {
        if self.macro_depth >= MAX_MACRO_DEPTH {
            return Err(AsmError::new("Macro expansion depth exceeded 32 levels"));
        }
        let count = self.symbols.macro_call_count();
        if count == usize::MAX {
            return Err(table_full());
        }
        let call_idx = count + 1;
        let ghost def: MacroDef;
        let expanded = match self.symbols.get_macro(macro_name) {
            Some(d) => {
                proof { def = *d; }
                match expand_macro(d, args, call_idx, line.file.as_str(), line.line_num) {
                    Ok(v) => v,
                    Err(e) => { return Err(e); },
                }
            },
            None => { return Err(crate::symbols::message_with_name("Unknown macro '", macro_name, "'")); },
        };
        let ghost a = *self;
        let ghost stack0 = self.symbols.scope_stack();
        let prefix = self.symbols.begin_macro_expansion(macro_name);
        self.macro_depth = self.macro_depth + 1;
        let ghost inner = *self;
        let result = self.process_lines_pass1(expanded.as_slice());
        let ghost done = *self;
        self.macro_depth = self.macro_depth - 1;
        self.symbols.end_macro_expansion();
        assert(stack0.push(prefix@).drop_last() =~= stack0);
        match result {
            Ok(()) => {
                proof {
                    let t = choose|t: Trace| #[trigger] reach(t, inner, expanded@, done, expanded@.len() as int, false);
                    assert(expansion_lines(expanded@, def, crate::preprocessor::strings_view(args@), call_idx as nat, line.line_num));
                    assert(macro_step(
                        a,
                        *line,
                        macro_name@,
                        crate::preprocessor::strings_view(args@),
                        expanded@,
                        inner,
                        t,
                        done,
                        *self,
                        false,
                    ));
                }
                Ok(())
            },
            Err(e) => {
                proof {
                    let (t, m, mi, f) = choose|t: Trace, m: Assembler, mi: int, f: Failure|
                        #[trigger] fails_at(inner, expanded@, false, t, m, mi, f, e);
                    assert(expansion_lines(expanded@, def, crate::preprocessor::strings_view(args@), call_idx as nat, line.line_num));
                    assert(macro_fails_inside(
                        a,
                        *line,
                        macro_name@,
                        crate::preprocessor::strings_view(args@),
                        expanded@,
                        inner,
                        t,
                        m,
                        mi as usize,
                        f,
                        false,
                        e,
                    ));
                }
                Err(e)
            },
        }
    }

    /// Pass 1 over the body of a block, `n` times.
    #[verifier::spinoff_prover]
    fn run_block_pass1(&mut self, lines: &[SourceLine], i: usize, end: usize, n: i64) -> (r: AsmResult<()>)
        requires
            old(self).inv(),
            i < end < lines@.len(),
            0 <= n <= MAX_LOOP_ITERATIONS,
        ensures
            step_frame(old(self), final(self)),
            final(self).output == old(self).output,
            final(self).listing_data == old(self).listing_data,
            final(self).printed == old(self).printed,
            r is Ok ==> exists|runs: Runs|
                #[trigger] repeats(runs, *old(self), lines@.subrange(i + 1, end as int), n as int, *final(self), false),
            r matches Err(err) ==> exists|
                s1: Assembler,
                runs: Runs,
                k: usize,
                s2: Assembler,
                t: Trace,
                m: Assembler,
                mi: usize,
                f: Failure,
            |
                #[trigger] block_fails_inside(
                    *old(self),
                    lines@,
                    i as int,
                    end as int,
                    n as int,
                    s1,
                    runs,
                    k,
                    s2,
                    t,
                    m,
                    mi,
                    f,
                    false,
                    err,
                ),
        decreases MAX_MACRO_DEPTH - old(self).macro_depth, lines@.len(), 0int,
    {
        let ghost s1 = *self;
        let body = vstd::slice::slice_subrange(lines, i + 1, end);
        let ghost mut runs = Runs::NoRun;
        let mut k: i64 = 0;
        while k < n
            invariant
                0 <= k <= n,
                body@ == lines@.subrange(i + 1, end as int),
                body@.len() < lines@.len(),
                step_frame(old(self), self),
                self.output == old(self).output,
                self.listing_data == old(self).listing_data,
                self.printed == old(self).printed,
                s1 == *old(self),
                repeats(runs, s1, body@, k as int, *self, false),
                i < end < lines@.len(),
                n <= MAX_LOOP_ITERATIONS,
            decreases n - k,
        {
            let ghost before = *self;
            match self.process_lines_pass1(body) {
                Ok(()) => {},
                Err(e) => {
                    proof {
                        let (t, m, mi, f) = choose|t: Trace, m: Assembler, mi: int, f: Failure|
                            #[trigger] fails_at(before, body@, false, t, m, mi, f, e);
                        assert(block_fails_inside(
                            *old(self),
                            lines@,
                            i as int,
                            end as int,
                            n as int,
                            s1,
                            runs,
                            k as usize,
                            before,
                            t,
                            m,
                            mi as usize,
                            f,
                            false,
                            e,
                        ));
                    }
                    return Err(e);
                },
            }
            proof {
                let t = choose|t: Trace| #[trigger] reach(t, before, body@, *self, body@.len() as int, false);
                runs = Runs::Run(Box::new(runs), before, Box::new(t));
            }
            k += 1;
        }
        assert(repeats(runs, *old(self), lines@.subrange(i + 1, end as int), n as int, *self, false));
        Ok(())
    }

    /// Pass 1 over a macro call on line `i` of `lines`.
    #[verifier::spinoff_prover]
    fn macro_line_pass1(&mut self, lines: &[SourceLine], i: usize, macro_name: &str, args: &[String]) -> (r: AsmResult<
        (usize, Ghost<Step>),
    >)
        requires
            old(self).inv(),
            i < lines@.len(),
            crate::preprocessor::invocation_spec(lines@[i as int].text@, &old(self).symbols) == Some(
                (macro_name@, crate::preprocessor::strings_view(args@)),
            ),
        ensures
            step_frame(old(self), final(self)),
            final(self).output == old(self).output,
            final(self).listing_data == old(self).listing_data,
            final(self).printed == old(self).printed,
            r matches Ok((j, st)) ==> i < j <= lines@.len() && line_step(st@, *old(self), lines@, i as int, *final(self), j as int, false),
            r matches Err(err) ==> exists|f: Failure| #[trigger] line_fails(f, *old(self), lines@, i as int, false, err),
        decreases MAX_MACRO_DEPTH - old(self).macro_depth, lines@.len(), 0int,
    {
        let line = &lines[i];
        let ghost a = *self;
        match self.expand_macro_pass1(line, macro_name, args) {
            Ok(()) => {},
            Err(e) => {
                let reported = at_line(e, line);
                proof {
                    let av = crate::preprocessor::strings_view(args@);
                    if macro_call_fails(a, macro_name@, av) && macro_call_error(a, macro_name@, av, e) {
                        assert(line_fails(Failure::Here, a, lines@, i as int, false, reported));
                    } else {
                        let (ex, inner, t, m, mi, f) = choose|
                            ex: Seq<SourceLine>,
                            inner: Assembler,
                            t: Trace,
                            m: Assembler,
                            mi: usize,
                            f: Failure,
                        | #[trigger] macro_fails_inside(a, *line, macro_name@, av, ex, inner, t, m, mi, f, false, e);
                        assert(line_fails(
                            Failure::InMacro(ex, inner, Box::new(t), m, mi, Box::new(f), e),
                            a,
                            lines@,
                            i as int,
                            false,
                            reported,
                        ));
                    }
                }
                return Err(reported);
            },
        }
        let ghost st: Step;
        proof {
            let (e, inner, body, done) = choose|e: Seq<SourceLine>, inner: Assembler, body: Trace, done: Assembler|
                #[trigger] macro_step(
                    a,
                    *line,
                    macro_name@,
                    crate::preprocessor::strings_view(args@),
                    e,
                    inner,
                    body,
                    done,
                    *self,
                    false,
                );
            st = Step::Macro(e, inner, Box::new(body), done, *self);
            assert(line_step(st, a, lines@, i as int, *self, i + 1, false));
        }
        Ok((i + 1, Ghost(st)))
    }

    /// Pass 1 over the `.if`, `.loop` or `.optional` block that line `i` of
    /// `lines` opens.
    #[verifier::spinoff_prover]
    fn block_line_pass1(&mut self, lines: &[SourceLine], i: usize, item: &ParsedLine) -> (r: AsmResult<(usize, Ghost<Step>)>)
        requires
            old(self).inv(),
            i < lines@.len(),
            crate::preprocessor::invocation_spec(lines@[i as int].text@, &old(self).symbols) is None,
            lex(lines@[i as int].text@) != Some(Seq::<(SpecToken, int)>::empty()),
            parsed_text(lines@[i as int].text@) == Some(seq![item.spec_view()]),
            opens_any_block(item.spec_view()),
        ensures
            step_frame(old(self), final(self)),
            final(self).output == old(self).output,
            final(self).listing_data == old(self).listing_data,
            final(self).printed == old(self).printed,
            r matches Ok((j, st)) ==> i < j <= lines@.len() && line_step(st@, *old(self), lines@, i as int, *final(self), j as int, false),
            r matches Err(err) ==> exists|f: Failure| #[trigger] line_fails(f, *old(self), lines@, i as int, false, err),
        decreases MAX_MACRO_DEPTH - old(self).macro_depth, lines@.len(), 1int,
    {
        let line = &lines[i];
        let ghost a = *self;
        let ghost ls = seq![item.spec_view()];
        let kind = match item {
            ParsedLine::Directive(Directive::If(_)) => BlockKind::If,
            ParsedLine::Directive(Directive::Loop(_)) => BlockKind::Loop,
            _ => BlockKind::Optional,
        };
        let end = match find_matching_block_end(lines, i, kind, self.cpu_mode) {
            Ok(e) => e,
            Err(e) => {
                proof { lemma_block_fails_here(a, lines@, i as int, ls, false, e); }
                return Err(e);
            },
        };
        let n: i64 = match item {
            ParsedLine::Directive(Directive::If(expr)) => {
                match self.eval_expr(expr) {
                    Ok(v) => if v != 0 { 1 } else { 0 },
                    Err(e) => {
                        let reported = at_line(e, line);
                        proof { lemma_block_fails_here(a, lines@, i as int, ls, false, reported); }
                        return Err(reported);
                    },
                }
            },
            ParsedLine::Directive(Directive::Loop(expr)) => {
                let count = match self.eval_expr(expr) {
                    Ok(v) => v,
                    Err(e) => {
                        let reported = at_line(e, line);
                        proof { lemma_block_fails_here(a, lines@, i as int, ls, false, reported); }
                        return Err(reported);
                    },
                };
                if count < 0 {
                    let reported = at_line(AsmError::new("Loop count must be non-negative"), line);
                    proof { lemma_block_fails_here(a, lines@, i as int, ls, false, reported); }
                    return Err(reported);
                }
                if count > MAX_LOOP_ITERATIONS {
                    let reported = at_line(AsmError::new("Loop iteration count exceeded 100000"), line);
                    proof { lemma_block_fails_here(a, lines@, i as int, ls, false, reported); }
                    return Err(reported);
                }
                count
            },
            _ => {
                let keep = if !self.settings.optional_enabled {
                    true
                } else {
                    match should_include_optional_block(lines, i + 1, end, self.cpu_mode) {
                        Ok(k) => k,
                        Err(e) => {
                            proof { lemma_block_fails_here(a, lines@, i as int, ls, false, e); }
                            return Err(e);
                        },
                    }
                };
                if keep { 1 } else { 0 }
            },
        };
        assert(block_plan(a, lines@, i as int, ls[0]) == Some((n as int, end as int)));
        match self.run_block_pass1(lines, i, end, n) {
            Ok(()) => {},
            Err(e) => {
                proof { let f = lemma_block_fails_inside(a, lines@, i as int, end as int, n as int, ls, false, e); }
                return Err(e);
            },
        }
        let ghost st = lemma_block_step(a, *self, lines@, i as int, end as int, n as int, ls, false);
        Ok((end + 1, Ghost(st)))
    }

    /// Pass 1 over a line of items (line `i` of `lines`, parsed as `parsed`).
    #[verifier::spinoff_prover]
    fn items_line_pass1(&mut self, lines: &[SourceLine], i: usize, parsed: &[ParsedLine]) -> (r: AsmResult<(usize, Ghost<Step>)>)
        requires
            old(self).inv(),
            i < lines@.len(),
            crate::preprocessor::invocation_spec(lines@[i as int].text@, &old(self).symbols) is None,
            lex(lines@[i as int].text@) != Some(Seq::<(SpecToken, int)>::empty()),
            parsed_text(lines@[i as int].text@) == Some(lines_view(parsed@)),
            !(parsed@.len() == 1 && opens_any_block(lines_view(parsed@)[0])),
            !(parsed@.len() == 1 && ends_any_block(lines_view(parsed@)[0])),
        ensures
            step_frame(old(self), final(self)),
            final(self).output == old(self).output,
            final(self).listing_data == old(self).listing_data,
            final(self).printed == old(self).printed,
            r matches Ok((j, st)) ==> i < j <= lines@.len() && line_step(st@, *old(self), lines@, i as int, *final(self), j as int, false),
            r matches Err(err) ==> exists|f: Failure| #[trigger] line_fails(f, *old(self), lines@, i as int, false, err),
    {
        let line = &lines[i];
        let ghost a = *self;
        match self.process_parsed_line_pass1(line, parsed) {
            Ok(()) => {},
            Err(e) => {
                let reported = at_line(e, line);
                assert(line_fails(Failure::Here, a, lines@, i as int, false, reported));
                return Err(reported);
            },
        }
        assert(line_step(Step::Items(*self), a, lines@, i as int, *self, i + 1, false));
        Ok((i + 1, Ghost(Step::Items(*self))))
    }

    /// Pass 1 over line `i` of `lines` (with the block it opens): returns the
    /// index of the line after it.
    #[verifier::spinoff_prover]
    fn line_pass1(&mut self, lines: &[SourceLine], i: usize) -> (r: AsmResult<(usize, Ghost<Step>)>)
        requires
            old(self).inv(),
            i < lines@.len(),
        ensures
            step_frame(old(self), final(self)),
            final(self).output == old(self).output,
            final(self).listing_data == old(self).listing_data,
            final(self).printed == old(self).printed,
            r matches Ok((j, st)) ==> i < j <= lines@.len() && line_step(st@, *old(self), lines@, i as int, *final(self), j as int, false),
            r matches Err(err) ==> exists|f: Failure| #[trigger] line_fails(f, *old(self), lines@, i as int, false, err),
        decreases MAX_MACRO_DEPTH - old(self).macro_depth, lines@.len(), 2int,
    {
        let line = &lines[i];
        let ghost a = *self;
        match parse_macro_invocation(line.text.as_str(), &self.symbols) {
            Some((macro_name, args)) => {
                return self.macro_line_pass1(lines, i, macro_name.as_str(), args.as_slice());
            },
            None => {},
        }
        let parsed = match parse_source_line(line, self.cpu_mode) {
            Ok(Some(p)) => p,
            Ok(None) => {
                assert(line_step(Step::Blank, a, lines@, i as int, *self, i + 1, false));
                return Ok((i + 1, Ghost(Step::Blank)));
            },
            Err(e) => {
                let reported = at_line(e, line);
                assert(line_fails(Failure::Here, a, lines@, i as int, false, reported));
                return Err(reported);
            },
        };
        if parsed.len() == 1 {
            let ghost ls = lines_view(parsed@);
            assert(ls =~= seq![parsed@[0].spec_view()]);
            match &parsed[0] {
                ParsedLine::Directive(Directive::If(_)) | ParsedLine::Directive(Directive::Loop(_))
                | ParsedLine::Directive(Directive::Optional) => {
                    return self.block_line_pass1(lines, i, &parsed[0]);
                },
                ParsedLine::Directive(Directive::EndIf) | ParsedLine::Directive(Directive::EndLoop)
                | ParsedLine::Directive(Directive::EndOptional) => {
                    assert(line_step(Step::Stray, a, lines@, i as int, *self, i + 1, false));
                    return Ok((i + 1, Ghost(Step::Stray)));
                },
                _ => {},
            }
        }
        self.items_line_pass1(lines, i, parsed.as_slice())
    }

    fn process_lines_pass1(&mut self, lines: &[SourceLine]) -> (r: AsmResult<()>)
        requires
            old(self).inv(),
        ensures
            step_frame(old(self), final(self)),
            final(self).output == old(self).output,
            final(self).listing_data == old(self).listing_data,
            final(self).printed == old(self).printed,
            r is Ok ==> pass_run(*old(self), lines@, *final(self), false),
            r matches Err(err) ==> pass_fails(*old(self), lines@, false, err),
        decreases MAX_MACRO_DEPTH - old(self).macro_depth, lines@.len(), 3int,
    {
        let ghost mut tr = Trace::Start;
        let mut i: usize = 0;
        while i < lines.len()
            invariant
                i <= lines@.len(),
                step_frame(old(self), self),
                self.output == old(self).output,
                self.listing_data == old(self).listing_data,
                self.printed == old(self).printed,
                reach(tr, *old(self), lines@, *self, i as int, false),
            decreases lines@.len() - i,
        {
            let ghost before = *self;
            let (next, st) = match self.line_pass1(lines, i) {
                Ok(x) => x,
                Err(e) => {
                    proof {
                        let f = choose|f: Failure| #[trigger] line_fails(f, before, lines@, i as int, false, e);
                        assert(fails_at(*old(self), lines@, false, tr, before, i as int, f, e));
                    }
                    return Err(e);
                },
            };
            proof {
                tr = Trace::Then(Box::new(tr), before, i, Box::new(st@));
            }
            i = next;
        }
        assert(reach(tr, *old(self), lines@, *self, lines@.len() as int, false));
        Ok(())
    }
}

// ---- what pass 2 does with a sequence of lines ----

/// `b` is `a` with the listing entry of `line` at `addr`, showing `count`
/// bytes, appended; nothing else changes.
pub open spec fn listed(a: Assembler, line: SourceLine, addr: u16, count: usize, b: Assembler) -> bool {
    &&& b.listing_data@.len() == a.listing_data@.len() + 1
    &&& b.listing_data@.drop_last() == a.listing_data@
    &&& b.listing_data@.last().addr == addr
    &&& b.listing_data@.last().byte_count == count
    &&& b.listing_data@.last().line_num == line.line_num
    &&& b.listing_data@.last().text == line.text
    &&& b.listing_data@.last().file == line.file
    &&& b.listing_data@.last().macro_expansion == line.macro_context is Some
    &&& b.symbols == a.symbols
    &&& b.output == a.output
    &&& b.pc == a.pc
    &&& b.printed == a.printed
    &&& b.files == a.files
    &&& b.project_dir == a.project_dir
    &&& b.macro_depth == a.macro_depth
    &&& b.cpu_mode == a.cpu_mode
    &&& b.encoding == a.encoding
    &&& b.settings == a.settings
    &&& b.quiet == a.quiet
}

/// In the second pass, `b` is `a` with the listing entry of `line` appended
/// (as `listed` says); the first pass lists nothing.
pub open spec fn listed_if(second: bool, a: Assembler, line: SourceLine, addr: u16, count: usize, b: Assembler) -> bool {
    if second {
        listed(a, line, addr, count, b)
    } else {
        b == a
    }
}

/// `expanded` are the lines that the call of `def` with `args`, the
/// `call_index`-th macro call, made on line `line_num`: each body line with
/// the arguments in place.
pub open spec fn expansion_lines(expanded: Seq<SourceLine>, def: MacroDef, args: Seq<Seq<char>>, call_index: nat, line_num: usize) -> bool {
    &&& expanded.len() == def.body@.len()
    &&& forall|j: int|
        0 <= j < expanded.len() ==> Some((#[trigger] expanded[j]).text@) == crate::preprocessor::expanded_line(def, args, j)
            && expanded[j].file@ == def.file@ && expanded[j].line_num == line_num
            && crate::preprocessor::context_is(expanded[j].macro_context, crate::preprocessor::expansion_name(def.name@, call_index))
}

/// The record of a run of a pass over lines, from the first line on: the
/// states it reached and the steps that took it there.
pub enum Trace {
    Start,
    /// The trace up to a state at a line index, and the step taken there.
    Then(Box<Trace>, Assembler, usize, Box<Step>),
}

/// The record of one step of a pass: one line, or one block of lines.
pub enum Step {
    /// A line without tokens.
    Blank,
    /// A macro call: its expansion, the state on entering it, the run over
    /// the expansion, the state that run ends in, and the state once the
    /// macro's scope is left.
    Macro(Seq<SourceLine>, Assembler, Box<Trace>, Assembler, Assembler),
    /// An `.if`, `.loop` or `.optional` block: the state once its first line
    /// is handled, the runs over its body, and the state they end in.
    Block(Assembler, Box<Runs>, Assembler),
    /// An `.endif`, `.endloop` or `.endoptional` outside a block.
    Stray,
    /// A line of items, and the state they lead to.
    Items(Assembler),
}

/// Consecutive runs of a pass over the body of a block.
pub enum Runs {
    NoRun,
    /// The earlier runs, the state they end in, and one more run.
    Run(Box<Runs>, Assembler, Box<Trace>),
}

/// Trace `t` is a run of the first (`second` false) or second pass over
/// `lines` from state `a` that reaches state `b` at line index `j`.
pub open spec fn reach(t: Trace, a: Assembler, lines: Seq<SourceLine>, b: Assembler, j: int, second: bool) -> bool
    decreases t, 0int,
{
    match t {
        Trace::Start => b == a && j == 0,
        Trace::Then(prev, m, mi, step) => {
            &&& mi < lines.len()
            &&& reach(*prev, a, lines, m, mi as int, second)
            &&& line_step(*step, m, lines, mi as int, b, j, second)
        },
    }
}

/// `r` is `n` consecutive runs of a pass over all of `body` from state `a`,
/// ending in state `b`.
pub open spec fn repeats(r: Runs, a: Assembler, body: Seq<SourceLine>, n: int, b: Assembler, second: bool) -> bool
    decreases r, 0int,
{
    match r {
        Runs::NoRun => n == 0 && b == a,
        Runs::Run(prev, m, t) => {
            &&& n > 0
            &&& repeats(*prev, a, body, n - 1, m, second)
            &&& reach(*t, m, body, b, body.len() as int, second)
        },
    }
}

/// Whether error `r` is located at the start of `line`.
pub open spec fn located_at_line(r: AsmError, line: SourceLine) -> bool {
    r.location matches Some(l) && l.file@ == line.file@ && l.line == line.line_num && l.col == 0
}

/// `r` is error `e` reported at `line`: with its own location if it has
/// one, else at the start of the line.
pub open spec fn reported_at(e: AsmError, line: SourceLine, r: AsmError) -> bool {
    &&& r.message == e.message
    &&& r.source_line == e.source_line
    &&& e.location is Some ==> r.location == e.location
    &&& e.location is None ==> located_at_line(r, line)
}

/// The kind of block a line that opens one opens.
pub open spec fn kind_opened(l: SpecLine) -> BlockKind {
    match l {
        SpecLine::Directive(SpecDirective::If(_)) => BlockKind::If,
        SpecLine::Directive(SpecDirective::Loop(_)) => BlockKind::Loop,
        _ => BlockKind::Optional,
    }
}

/// What the error of a `.loop` whose count is `c` says, at `line`.
pub open spec fn loop_count_error(c: i64, line: SourceLine, err: AsmError) -> bool {
    &&& c < 0 ==> err.message@ == "Loop count must be non-negative"@ && located_at_line(err, line)
    &&& c > MAX_LOOP_ITERATIONS ==> err.message@ == "Loop iteration count exceeded 100000"@ && located_at_line(err, line)
}

/// What the error a pass reports when the block that line `i` of `lines`
/// opens (as `l` reads) has no plan says: a block with no end reports the
/// missing end directive at its first line, and a `.loop` with a count out
/// of range reports that at its line.
pub open spec fn block_error(a: Assembler, lines: Seq<SourceLine>, i: int, l: SpecLine, err: AsmError) -> bool {
    let kind = kind_opened(l);
    let end = block_end_from(texts_of(lines), i, kind, 0);
    &&& end == Some(Option::<int>::None) ==> err.message@ == "Missing "@ + end_directive_text(kind) && located_at_line(
        err,
        lines[i],
    )
    &&& match (l, end) {
        (SpecLine::Directive(SpecDirective::Loop(e)), Some(Some(_))) => match crate::expr::eval(e, &a.symbols, true, a.pc) {
            Some(c) => loop_count_error(c, lines[i], err),
            None => true,
        },
        _ => true,
    }
}

/// How often a pass runs the body of the block that line `i` of `lines`
/// opens (from state `a`), and the block's end line; `None` when that makes
/// the pass fail: the block has no end, its condition or count has no
/// value, the count is negative or above the limit, or the use of an
/// optional block's symbols cannot be told.
pub open spec fn block_plan(a: Assembler, lines: Seq<SourceLine>, i: int, l: SpecLine) -> Option<(int, int)> {
    let texts = texts_of(lines);
    match l {
        SpecLine::Directive(SpecDirective::If(e)) => match block_end_from(texts, i, BlockKind::If, 0) {
            Some(Some(end)) => match crate::expr::eval(e, &a.symbols, true, a.pc) {
                Some(c) => Some((if c != 0 { 1int } else { 0int }, end)),
                None => None,
            },
            _ => None,
        },
        SpecLine::Directive(SpecDirective::Loop(e)) => match block_end_from(texts, i, BlockKind::Loop, 0) {
            Some(Some(end)) => match crate::expr::eval(e, &a.symbols, true, a.pc) {
                Some(c) => if 0 <= c <= MAX_LOOP_ITERATIONS {
                    Some((c as int, end))
                } else {
                    None
                },
                None => None,
            },
            _ => None,
        },
        SpecLine::Directive(SpecDirective::Optional) => match block_end_from(texts, i, BlockKind::Optional, 0) {
            Some(Some(end)) => if !a.settings.optional_enabled {
                Some((1int, end))
            } else {
                match optional_kept(texts, i + 1, end) {
                    Some(k) => Some((if k { 1int } else { 0int }, end)),
                    None => None,
                }
            },
            _ => None,
        },
        _ => None,
    }
}

/// Whether a parsed line opens a block.
pub open spec fn opens_any_block(l: SpecLine) -> bool {
    l matches SpecLine::Directive(d) && (d is If || d is Loop || d is Optional)
}

/// Whether a parsed line ends a block.
pub open spec fn ends_any_block(l: SpecLine) -> bool {
    l matches SpecLine::Directive(d) && (d is EndIf || d is EndLoop || d is EndOptional)
}

/// Entering the call of macro `name` with `args` on `line` from state `a`:
/// the call may nest, the macro is defined, `expanded` is its expansion, and
/// `inner` is the state inside the macro's new scope.
pub open spec fn macro_entered(
    a: Assembler,
    line: SourceLine,
    name: Seq<char>,
    args: Seq<Seq<char>>,
    expanded: Seq<SourceLine>,
    inner: Assembler,
) -> bool {
    &&& a.macro_depth < MAX_MACRO_DEPTH
    &&& a.symbols.call_count() < usize::MAX
    &&& a.symbols.macro_def(upper_seq(name)) matches Some(def) && expansion_lines(
        expanded,
        def,
        args,
        (a.symbols.call_count() + 1) as nat,
        line.line_num,
    )
    &&& crate::symbols::macro_scope_entered(
        &a.symbols,
        &inner.symbols,
        name,
        crate::symbols::expansion_prefix(name, inner.symbols.call_count() as nat),
    )
    &&& inner.macro_depth == a.macro_depth + 1
    &&& inner.output == a.output && inner.listing_data == a.listing_data && inner.pc == a.pc && inner.printed
        == a.printed && inner.files == a.files && inner.project_dir == a.project_dir && inner.cpu_mode == a.cpu_mode
        && inner.encoding == a.encoding && inner.settings == a.settings && inner.quiet == a.quiet
}

/// Whether a call of macro `name` with `args` from state `a` fails before
/// its expansion runs: calls nest too deep, too many calls were made, the
/// macro is not defined, or its expansion cannot be made from `args`.
pub open spec fn macro_call_fails(a: Assembler, name: Seq<char>, args: Seq<Seq<char>>) -> bool {
    ||| a.macro_depth >= MAX_MACRO_DEPTH
    ||| a.symbols.call_count() == usize::MAX
    ||| match a.symbols.macro_def(upper_seq(name)) {
        None => true,
        Some(def) => !(forall|j: int|
            0 <= j < def.body@.len() ==> #[trigger] crate::preprocessor::expanded_line(def, args, j) is Some),
    }
}

/// What the error says when a call of macro `name` with `args` from state
/// `a` cannot be made: calls nest too deep, too many calls were made, the
/// macro is unknown, or (where its body has lines) the first parameter that
/// gets no value is named.
pub open spec fn macro_call_error(a: Assembler, name: Seq<char>, args: Seq<Seq<char>>, err: AsmError) -> bool {
    if a.macro_depth >= MAX_MACRO_DEPTH {
        err.message@ == "Macro expansion depth exceeded 32 levels"@
    } else if a.symbols.call_count() == usize::MAX {
        err.message@ == "Too many symbols"@
    } else {
        match a.symbols.macro_def(upper_seq(name)) {
            None => err.message@ == "Unknown macro '"@ + name + "'"@,
            Some(def) => forall|i: int|
                #[trigger] crate::preprocessor::first_missing_arg(def, args, i) && def.body@.len() > 0 ==> err.message@
                    == "Missing argument '"@ + def.params@[i].name@ + "' for macro '"@ + def.name@ + "'"@,
        }
    }
}

/// The record of where a pass fails within a line.
pub enum Failure {
    /// The line itself fails.
    Here,
    /// Within a macro call: the expansion, the state inside the macro's
    /// scope, the run up to the failing line of the expansion, the state
    /// there, its index, how it fails, and the error it fails with.
    InMacro(Seq<SourceLine>, Assembler, Box<Trace>, Assembler, usize, Box<Failure>, AsmError),
    /// Within a block: the state once its first line is handled, the runs of
    /// the body that completed and how many, the state they end in, the run
    /// up to the failing line of the body, the state there, its index, and
    /// how it fails.
    InBlock(Assembler, Box<Runs>, usize, Assembler, Box<Trace>, Assembler, usize, Box<Failure>),
}

/// `f` shows how a pass fails on line `i` of `lines` from state `a`, with
/// error `err`: a macro call that cannot be made, or whose expansion fails
/// (the error reported at the call's line); a block whose plan cannot be
/// made (with the error `block_error` gives) or one of whose body runs
/// fails; a line that cannot be parsed; or a line with an item that fails.
pub open spec fn line_fails(f: Failure, a: Assembler, lines: Seq<SourceLine>, i: int, second: bool, err: AsmError) -> bool
    decreases f,
{
    let line = lines[i];
    match crate::preprocessor::invocation_spec(line.text@, &a.symbols) {
        Some((name, args)) => match f {
            Failure::Here => macro_call_fails(a, name, args) && macro_call_error(a, name, args, err),
            Failure::InMacro(e, inner, t, m, mi, sub, inner_err) => {
                &&& macro_entered(a, line, name, args, e, inner)
                &&& mi < e.len()
                &&& reach(*t, inner, e, m, mi as int, second)
                &&& line_fails(*sub, m, e, mi as int, second, inner_err)
                &&& reported_at(inner_err, line, err)
            },
            _ => false,
        },
        None => if lex(line.text@) == Some(Seq::<(SpecToken, int)>::empty()) {
            false
        } else {
            match parsed_text(line.text@) {
                None => f is Here && source_line_error(line, err),
                Some(ls) => if ls.len() == 1 && opens_any_block(ls[0]) {
                    match (block_plan(a, lines, i, ls[0]), f) {
                        (None, Failure::Here) => block_error(a, lines, i, ls[0], err),
                        (Some((n, end)), Failure::InBlock(s1, runs, k, s2, t, m, mi, sub)) => {
                            &&& k < n
                            &&& listed_if(second, a, line, a.pc, 0, s1)
                            &&& repeats(*runs, s1, lines.subrange(i + 1, end), k as int, s2, second)
                            &&& mi < end - i - 1
                            &&& reach(*t, s2, lines.subrange(i + 1, end), m, mi as int, second)
                            &&& line_fails(*sub, m, lines.subrange(i + 1, end), mi as int, second, err)
                        },
                        _ => false,
                    }
                } else if ls.len() == 1 && ends_any_block(ls[0]) {
                    false
                } else {
                    f is Here && exists|raw: AsmError|
                        #[trigger] items_fail(a, ls, line.file@, line.line_num, second, raw) && reported_at(raw, line, err)
                },
            }
        },
    }
}

/// A call of macro `name` with `args` on `line` from state `a` enters the
/// macro's scope in state `inner`, and the run over its expansion `e`
/// reaches line `mi` of it in state `m` by trace `t` and fails there as
/// `f` shows.
pub open spec fn macro_fails_inside(
    a: Assembler,
    line: SourceLine,
    name: Seq<char>,
    args: Seq<Seq<char>>,
    e: Seq<SourceLine>,
    inner: Assembler,
    t: Trace,
    m: Assembler,
    mi: usize,
    f: Failure,
    second: bool,
    err: AsmError,
) -> bool {
    &&& macro_entered(a, line, name, args, e, inner)
    &&& mi < e.len()
    &&& reach(t, inner, e, m, mi as int, second)
    &&& line_fails(f, m, e, mi as int, second, err)
}

/// The block that lines `i` to `end` of `lines` form, run `n` times from
/// state `a`, fails in run `k`: the first line is handled (state `s1`), `k`
/// runs complete (state `s2`), and the next run reaches line `mi` of the
/// body in state `m` by trace `t` and fails there as `f` shows.
pub open spec fn block_fails_inside(
    a: Assembler,
    lines: Seq<SourceLine>,
    i: int,
    end: int,
    n: int,
    s1: Assembler,
    runs: Runs,
    k: usize,
    s2: Assembler,
    t: Trace,
    m: Assembler,
    mi: usize,
    f: Failure,
    second: bool,
    err: AsmError,
) -> bool {
    &&& k < n
    &&& listed_if(second, a, lines[i], a.pc, 0, s1)
    &&& repeats(runs, s1, lines.subrange(i + 1, end), k as int, s2, second)
    &&& mi < end - i - 1
    &&& reach(t, s2, lines.subrange(i + 1, end), m, mi as int, second)
    &&& line_fails(f, m, lines.subrange(i + 1, end), mi as int, second, err)
}

/// A run of a pass over `lines` from state `a` reaches line `i` in state
/// `m` by trace `t`, and fails there with `err` as `f` shows.
pub open spec fn fails_at(a: Assembler, lines: Seq<SourceLine>, second: bool, t: Trace, m: Assembler, i: int, f: Failure, err: AsmError) -> bool {
    &&& 0 <= i < lines.len()
    &&& reach(t, a, lines, m, i, second)
    &&& line_fails(f, m, lines, i, second, err)
}

/// A pass over `lines` from state `a` fails at some line with `err`.
pub open spec fn pass_fails(a: Assembler, lines: Seq<SourceLine>, second: bool, err: AsmError) -> bool {
    exists|t: Trace, m: Assembler, i: int, f: Failure| #[trigger] fails_at(a, lines, second, t, m, i, f, err)
}

/// The macro call on a line, as a pass makes it from state `a`: the macro
/// `name` is defined, its expansion `expanded` can be made from `args`,
/// entering its scope leads to `inner`, the run `body` over the expansion
/// ends in `done`, and leaving the scope gives `b`.
pub open spec fn macro_step(
    a: Assembler,
    line: SourceLine,
    name: Seq<char>,
    args: Seq<Seq<char>>,
    expanded: Seq<SourceLine>,
    inner: Assembler,
    body: Trace,
    done: Assembler,
    b: Assembler,
    second: bool,
) -> bool
    decreases body, 1int,
{
    &&& macro_entered(a, line, name, args, expanded, inner)
    &&& reach(body, inner, expanded, done, expanded.len() as int, second)
    &&& crate::symbols::macro_scope_left(&done.symbols, &b.symbols)
    &&& b.macro_depth == a.macro_depth
    &&& b.output == done.output && b.listing_data == done.listing_data && b.pc == done.pc && b.printed
        == done.printed && b.files == done.files && b.project_dir == done.project_dir && b.cpu_mode == done.cpu_mode
        && b.encoding == done.encoding && b.settings == done.settings && b.quiet == done.quiet
}

/// Step `st` of a pass at line `i` of `lines` leads from state `a` to state
/// `b` and to line index `j`. A macro call runs the macro's expansion; a
/// block runs its body as often as its plan says; any other line has its
/// items handled. The second pass lists every line: a block's first and
/// last lines with no bytes, a line of items with the bytes it wrote, at
/// the address where it started.
pub open spec fn line_step(st: Step, a: Assembler, lines: Seq<SourceLine>, i: int, b: Assembler, j: int, second: bool) -> bool
    decreases st, 0int,
{
    let line = lines[i];
    match crate::preprocessor::invocation_spec(line.text@, &a.symbols) {
        Some((name, args)) => match st {
            Step::Macro(expanded, inner, body, done, left) => {
                &&& j == i + 1
                &&& macro_step(a, line, name, args, expanded, inner, *body, done, left, second)
                &&& listed_if(second, left, line, a.pc, 0, b)
            },
            _ => false,
        },
        None => if lex(line.text@) == Some(Seq::<(SpecToken, int)>::empty()) {
            st is Blank && j == i + 1 && listed_if(second, a, line, a.pc, 0, b)
        } else {
            match parsed_text(line.text@) {
                None => false,
                Some(ls) => if ls.len() == 1 && opens_any_block(ls[0]) {
                    match (block_plan(a, lines, i, ls[0]), st) {
                        (Some((n, end)), Step::Block(s1, runs, s2)) => {
                            &&& j == end + 1
                            &&& listed_if(second, a, line, a.pc, 0, s1)
                            &&& repeats(*runs, s1, lines.subrange(i + 1, end), n, s2, second)
                            &&& listed_if(second, s2, lines[end], s2.pc, 0, b)
                        },
                        _ => false,
                    }
                } else if ls.len() == 1 && ends_any_block(ls[0]) {
                    st is Stray && j == i + 1 && listed_if(second, a, line, a.pc, 0, b)
                } else {
                    match st {
                        Step::Items(done) => {
                            &&& j == i + 1
                            &&& items_done(a, ls, line.file@, line.line_num, done, second)
                            &&& listed_if(second, done, line, a.pc, done.output.count().wrapping_sub(a.output.count()), b)
                        },
                        _ => false,
                    }
                },
            }
        },
    }
}

/// Pass 2 lists each line it handles: after its step at line `i`, which
/// ends before line `j`, the last listing row is that of line `j - 1`: the
/// line itself, or the last line of the block it opens.
pub proof fn law_second_pass_lists_each_line(st: Step, a: Assembler, lines: Seq<SourceLine>, i: int, b: Assembler, j: int)
    requires
        0 <= i < lines.len(),
        line_step(st, a, lines, i, b, j, true),
    ensures
        b.listing_data@.len() > 0,
        b.listing_data@.last().line_num == lines[j - 1].line_num,
        b.listing_data@.last().text == lines[j - 1].text,
        b.listing_data@.last().file == lines[j - 1].file,
{
}

/// Whether every step of trace `t` handles one line on its own: a blank
/// line, a line of items, or a stray block end (no macro call, no block).
pub open spec fn plain_run(t: Trace) -> bool
    decreases t,
{
    match t {
        Trace::Start => true,
        Trace::Then(prev, _, _, step) => plain_run(*prev) && (*step is Blank || *step is Items || *step is Stray),
    }
}

/// Whether listing row `r` is that of `line`.
pub open spec fn row_of(r: ListingLine, line: SourceLine) -> bool {
    &&& r.file == line.file
    &&& r.line_num == line.line_num
    &&& r.text == line.text
    &&& r.macro_expansion == line.macro_context is Some
}

proof fn lemma_items_keep_listing(items: Seq<SpecLine>, file: Seq<char>, line: usize, states: Seq<Assembler>, n: int)
    requires
        item_run(items, file, line, states, true),
        0 <= n <= items.len(),
    ensures
        states[n].listing_data == states[0].listing_data,
    decreases n,
{
    if n > 0 {
        lemma_items_keep_listing(items, file, line, states, n - 1);
        assert(item(states[n - 1], items[n - 1], file, line, states[n], true));
    }
}

/// Pass 2 over lines that it handles one by one (no macro call, no block)
/// lists each of them once, in order, after the rows it had: a run that
/// reaches line `j` has added exactly `j` rows, row `k` for line `k`.
pub proof fn law_second_pass_lists_every_line(t: Trace, a: Assembler, lines: Seq<SourceLine>, b: Assembler, j: int)
    requires
        reach(t, a, lines, b, j, true),
        plain_run(t),
    ensures
        b.listing_data@.len() == a.listing_data@.len() + j,
        b.listing_data@.subrange(0, a.listing_data@.len() as int) == a.listing_data@,
        forall|k: int| 0 <= k < j ==> row_of(#[trigger] b.listing_data@[a.listing_data@.len() + k], lines[k]),
    decreases t,
{
    match t {
        Trace::Start => {
            assert(b.listing_data@.subrange(0, a.listing_data@.len() as int) =~= a.listing_data@);
        },
        Trace::Then(prev, m, mi, step) => {
            law_second_pass_lists_every_line(*prev, a, lines, m, mi as int);
            let line = lines[mi as int];
            assert(line_step(*step, m, lines, mi as int, b, j, true));
            if crate::preprocessor::invocation_spec(line.text@, &m.symbols) is None && lex(line.text@) != Some(
                Seq::<(SpecToken, int)>::empty(),
            ) {
                let ls = parsed_text(line.text@)->0;
                if !(ls.len() == 1 && opens_any_block(ls[0])) && !(ls.len() == 1 && ends_any_block(ls[0])) {
                    match *step {
                        Step::Items(done) => {
                            let states = choose|states: Seq<Assembler>|
                                #[trigger] item_run(ls, line.file@, line.line_num, states, true) && states[0] == m
                                    && states.last() == done;
                            lemma_items_keep_listing(ls, line.file@, line.line_num, states, ls.len() as int);
                        },
                        _ => {},
                    }
                }
            }
            assert(b.listing_data@.len() == m.listing_data@.len() + 1);
            let n = a.listing_data@.len();
            assert(b.listing_data@.drop_last() == m.listing_data@);
            assert(b.listing_data@.subrange(0, n as int) =~= m.listing_data@.subrange(0, n as int));
            assert forall|k: int| 0 <= k < j implies row_of(#[trigger] b.listing_data@[n + k], lines[k]) by {
                if k < mi {
                    assert(b.listing_data@[n + k] == m.listing_data@[n + k]);
                }
            }
        },
    }
}

/// Whether the room an item takes does not hang on the symbols: anything
/// but `.org`, `.align`, `.storage`, `.text` and `.incbin`.
pub open spec fn size_fixed(it: SpecLine) -> bool {
    match it {
        SpecLine::Directive(d) => !(d is Org || d is Align || d is Storage || d is Text || d is IncBin),
        _ => true,
    }
}

/// Whether every item of the line `text` takes room that does not hang on
/// the symbols.
pub open spec fn line_size_fixed(text: Seq<char>) -> bool {
    match parsed_text(text) {
        Some(ls) => forall|i: int| 0 <= i < ls.len() ==> size_fixed(#[trigger] ls[i]),
        None => true,
    }
}

proof fn lemma_item_moves_alike(a1: Assembler, b1: Assembler, a2: Assembler, b2: Assembler, it: SpecLine, file: Seq<char>, line: usize)
    requires
        item1(a1, it, file, line, b1),
        item2(a2, it, file, line, b2),
        a1.pc == a2.pc,
        a1.cpu_mode == a2.cpu_mode,
        size_fixed(it),
    ensures
        b1.pc == b2.pc,
        b1.cpu_mode == a1.cpu_mode,
        b2.cpu_mode == a2.cpu_mode,
{
    match it {
        SpecLine::Instruction { mnemonic, operands, expressions } => {
            law_instruction_moves_alike_in_both_passes(a1, b1, a2, b2, mnemonic, operands, expressions, file, line);
        },
        _ => {},
    }
}

proof fn lemma_items_move_alike(
    items: Seq<SpecLine>,
    file: Seq<char>,
    line: usize,
    s1: Seq<Assembler>,
    s2: Seq<Assembler>,
    n: int,
)
    requires
        item_run(items, file, line, s1, false),
        item_run(items, file, line, s2, true),
        s1[0].pc == s2[0].pc,
        s1[0].cpu_mode == s2[0].cpu_mode,
        forall|i: int| 0 <= i < items.len() ==> size_fixed(#[trigger] items[i]),
        0 <= n <= items.len(),
    ensures
        s1[n].pc == s2[n].pc,
        s1[n].cpu_mode == s2[n].cpu_mode,
    decreases n,
{
    if n > 0 {
        lemma_items_move_alike(items, file, line, s1, s2, n - 1);
        assert(item(s1[n - 1], items[n - 1], file, line, s1[n], false));
        assert(item(s2[n - 1], items[n - 1], file, line, s2[n], true));
        assert(size_fixed(items[n - 1]));
        lemma_item_moves_alike(s1[n - 1], s1[n], s2[n - 1], s2[n], items[n - 1], file, line);
    }
}

/// What a step of a pass that handles one line on its own does.
proof fn lemma_plain_step(st: Step, a: Assembler, lines: Seq<SourceLine>, i: int, b: Assembler, j: int, second: bool)
    requires
        0 <= i < lines.len(),
        line_step(st, a, lines, i, b, j, second),
        st is Blank || st is Items || st is Stray,
    ensures
        j == i + 1,
        st is Blank <==> lex(lines[i].text@) == Some(Seq::<(SpecToken, int)>::empty()),
        st is Stray ==> (parsed_text(lines[i].text@) matches Some(ls) && ls.len() == 1 && ends_any_block(ls[0])),
        st is Items ==> (parsed_text(lines[i].text@) matches Some(ls) && !(ls.len() == 1 && ends_any_block(ls[0]))),
        (st is Blank || st is Stray) ==> (if second {
            b.pc == a.pc && b.cpu_mode == a.cpu_mode
        } else {
            b == a
        }),
        st matches Step::Items(done) ==> items_done(
            a,
            parsed_text(lines[i].text@)->0,
            lines[i].file@,
            lines[i].line_num,
            done,
            second,
        ) && (if second {
            b.pc == done.pc && b.cpu_mode == done.cpu_mode
        } else {
            b == done
        }),
{
    let line = lines[i];
    if crate::preprocessor::invocation_spec(line.text@, &a.symbols) is None {
        if lex(line.text@) != Some(Seq::<(SpecToken, int)>::empty()) {
            if parsed_text(line.text@) is Some {
                let ls = parsed_text(line.text@)->0;
                if !(ls.len() == 1 && opens_any_block(ls[0])) {
                }
            }
        }
    }
}

/// Over lines that both passes handle one by one (no macro call, no block),
/// whose items take room that does not hang on the symbols, pass 1 and
/// pass 2 reach each line at the same address from the same start: pass 1
/// reserves exactly the room pass 2 fills.
pub proof fn law_passes_reach_the_same_addresses(
    t1: Trace,
    a1: Assembler,
    b1: Assembler,
    t2: Trace,
    a2: Assembler,
    b2: Assembler,
    lines: Seq<SourceLine>,
    j: int,
)
    requires
        reach(t1, a1, lines, b1, j, false),
        reach(t2, a2, lines, b2, j, true),
        plain_run(t1),
        plain_run(t2),
        a1.pc == a2.pc,
        a1.cpu_mode == a2.cpu_mode,
        forall|k: int| 0 <= k < lines.len() ==> line_size_fixed(#[trigger] lines[k].text@),
    ensures
        b1.pc == b2.pc,
        b1.cpu_mode == b2.cpu_mode,
    decreases t1,
{
    match t1 {
        Trace::Start => {
            if let Trace::Then(prev2, m2, mi2, step2) = t2 {
                lemma_plain_step(*step2, m2, lines, mi2 as int, b2, j, true);
            }
        },
        Trace::Then(prev1, m1, mi1, step1) => {
            lemma_plain_step(*step1, m1, lines, mi1 as int, b1, j, false);
            match t2 {
                Trace::Start => {},
                Trace::Then(prev2, m2, mi2, step2) => {
                    lemma_plain_step(*step2, m2, lines, mi2 as int, b2, j, true);
                    law_passes_reach_the_same_addresses(*prev1, a1, m1, *prev2, a2, m2, lines, mi1 as int);
                    let line = lines[mi1 as int];
                    match (*step1, *step2) {
                        (Step::Items(d1), Step::Items(d2)) => {
                            let ls = parsed_text(line.text@)->0;
                            let s1 = choose|s: Seq<Assembler>|
                                #[trigger] item_run(ls, line.file@, line.line_num, s, false) && s[0] == m1 && s.last()
                                    == d1;
                            let s2 = choose|s: Seq<Assembler>|
                                #[trigger] item_run(ls, line.file@, line.line_num, s, true) && s[0] == m2 && s.last()
                                    == d2;
                            assert(line_size_fixed(lines[mi1 as int].text@));
                            lemma_items_move_alike(ls, line.file@, line.line_num, s1, s2, ls.len() as int);
                        },
                        _ => {},
                    }
                },
            }
        },
    }
}

/// A pass over all of `lines` can lead from state `a` to state `b`.
pub open spec fn pass_run(a: Assembler, lines: Seq<SourceLine>, b: Assembler, second: bool) -> bool {
    exists|t: Trace| #[trigger] reach(t, a, lines, b, lines.len() as int, second)
}

/// Whether `e` is a constant (or label) with a value.
pub open spec fn fixed_entry(e: Option<crate::symbols::SymbolInfo>) -> bool {
    match e {
        Some(info) => !info.is_mutable && info.value is Some,
        None => false,
    }
}

/// When pass 2 defines a label that already has an address (as pass 1
/// gave it), that address is the current one: labels keep the addresses
/// pass 1 found for them, and forward references use the right ones.
pub proof fn law_labels_keep_their_addresses(a: Assembler, name: Seq<char>, file: Seq<char>, line: usize, b: Assembler)
    requires
        item2(a, SpecLine::Label(name), file, line, b),
        fixed_entry(a.symbols.global(upper_seq(name))),
    ensures
        crate::symbols::value_of(a.symbols.global(upper_seq(name))) == Some(a.pc as i64),
        crate::symbols::value_of(b.symbols.global(upper_seq(name))) == Some(a.pc as i64),
{
}

/// An instruction moves the address by the same amount in pass 1 as in
/// pass 2, its encoded size: pass 1 reserves exactly the room pass 2 fills.
pub proof fn law_instruction_moves_alike_in_both_passes(
    a1: Assembler,
    b1: Assembler,
    a2: Assembler,
    b2: Assembler,
    mnemonic: Seq<char>,
    operands: Seq<ParsedOperand>,
    expressions: Seq<SpecExpr>,
    file: Seq<char>,
    line: usize,
)
    requires
        item1(a1, SpecLine::Instruction { mnemonic, operands, expressions }, file, line, b1),
        item2(a2, SpecLine::Instruction { mnemonic, operands, expressions }, file, line, b2),
        a1.pc == a2.pc,
        a1.cpu_mode == a2.cpu_mode,
    ensures
        b1.pc == b2.pc,
{
}

/// `.byte`, `.word` and `.dword` data move the address alike in both
/// passes, whatever the symbols hold: pass 1 reserves exactly the room that
/// pass 2 fills.
pub proof fn law_data_moves_alike_in_both_passes(
    d: SpecDirective,
    pc: u16,
    st1: &SymbolTable,
    st2: &SymbolTable,
    enc: Encoding,
    dir: Seq<char>,
    files: &DataFiles,
)
    requires
        d is Byte || d is Word || d is Dword,
        pass2_out(d, pc, st2, enc, dir, files) is Some,
    ensures
        pass2_out(d, pc, st2, enc, dir, files) matches Some((_, next)) ==> pass1_pc(d, pc, st1, dir, files) == Some(
            next,
        ),
{
}

/// Whether the plan for a block runs its body no time.
pub open spec fn runs_none(plan: Option<(int, int)>) -> bool {
    match plan {
        Some((n, _)) => n == 0,
        None => false,
    }
}

/// A block whose body runs no time (an `.if` whose condition is 0, a
/// `.loop 0`, a dropped `.optional` block) leaves the code, the address and
/// the symbols as they were, in either pass.
pub proof fn law_skipped_block_emits_nothing(
    st: Step,
    a: Assembler,
    lines: Seq<SourceLine>,
    i: int,
    b: Assembler,
    j: int,
    second: bool,
    ls: Seq<SpecLine>,
)
    requires
        0 <= i < lines.len(),
        line_step(st, a, lines, i, b, j, second),
        crate::preprocessor::invocation_spec(lines[i].text@, &a.symbols) is None,
        parsed_text(lines[i].text@) == Some(ls),
        ls.len() == 1,
        opens_any_block(ls[0]),
        runs_none(block_plan(a, lines, i, ls[0])),
    ensures
        b.output == a.output,
        b.pc == a.pc,
        b.symbols == a.symbols,
{
    if lex(lines[i].text@) == Some(Seq::<(SpecToken, int)>::empty()) {
        assert(false);
    }
    match st {
        Step::Block(s1, runs, s2) => {
            match *runs {
                Runs::NoRun => {},
                Runs::Run(_, _, _) => {},
            }
        },
        _ => {},
    }
}

/// A block at line `i` that runs its body `n` times and ends at line `end`
/// is a step of a pass from `a` to `b`.
proof fn lemma_block_step(a: Assembler, b: Assembler, lines: Seq<SourceLine>, i: int, end: int, n: int, ls: Seq<SpecLine>, second: bool) -> (st: Step)
    requires
        0 <= i < end < lines.len(),
        crate::preprocessor::invocation_spec(lines[i].text@, &a.symbols) is None,
        lex(lines[i].text@) != Some(Seq::<(SpecToken, int)>::empty()),
        parsed_text(lines[i].text@) == Some(ls),
        ls.len() == 1,
        opens_any_block(ls[0]),
        block_plan(a, lines, i, ls[0]) == Some((n, end)),
        exists|s1: Assembler, runs: Runs, s2: Assembler|
            #[trigger] repeats(runs, s1, lines.subrange(i + 1, end), n, s2, second) && listed_if(
                second,
                a,
                lines[i],
                a.pc,
                0,
                s1,
            ) && listed_if(second, s2, lines[end], s2.pc, 0, b),
    ensures
        line_step(st, a, lines, i, b, end + 1, second),
{
    let (s1, runs, s2) = choose|s1: Assembler, runs: Runs, s2: Assembler|
        #[trigger] repeats(runs, s1, lines.subrange(i + 1, end), n, s2, second) && listed_if(second, a, lines[i], a.pc, 0, s1)
            && listed_if(second, s2, lines[end], s2.pc, 0, b);
    Step::Block(s1, Box::new(runs), s2)
}

/// A block at line `i` whose plan cannot be made fails there.
proof fn lemma_block_fails_here(a: Assembler, lines: Seq<SourceLine>, i: int, ls: Seq<SpecLine>, second: bool, err: AsmError)
    requires
        0 <= i < lines.len(),
        crate::preprocessor::invocation_spec(lines[i].text@, &a.symbols) is None,
        lex(lines[i].text@) != Some(Seq::<(SpecToken, int)>::empty()),
        parsed_text(lines[i].text@) == Some(ls),
        ls.len() == 1,
        opens_any_block(ls[0]),
        block_plan(a, lines, i, ls[0]) is None,
        block_error(a, lines, i, ls[0], err),
    ensures
        line_fails(Failure::Here, a, lines, i, second, err),
{
}

/// A block at line `i` one of whose body runs fails, fails there.
proof fn lemma_block_fails_inside(a: Assembler, lines: Seq<SourceLine>, i: int, end: int, n: int, ls: Seq<SpecLine>, second: bool, err: AsmError) -> (f: Failure)
    requires
        0 <= i < end < lines.len(),
        crate::preprocessor::invocation_spec(lines[i].text@, &a.symbols) is None,
        lex(lines[i].text@) != Some(Seq::<(SpecToken, int)>::empty()),
        parsed_text(lines[i].text@) == Some(ls),
        ls.len() == 1,
        opens_any_block(ls[0]),
        block_plan(a, lines, i, ls[0]) == Some((n, end)),
        exists|s1: Assembler, runs: Runs, k: usize, s2: Assembler, t: Trace, m: Assembler, mi: usize, f: Failure|
            #[trigger] block_fails_inside(a, lines, i, end, n, s1, runs, k, s2, t, m, mi, f, second, err),
    ensures
        line_fails(f, a, lines, i, second, err),
{
    let (s1, runs, k, s2, t, m, mi, sub) = choose|
        s1: Assembler,
        runs: Runs,
        k: usize,
        s2: Assembler,
        t: Trace,
        m: Assembler,
        mi: usize,
        f: Failure,
    | #[trigger] block_fails_inside(a, lines, i, end, n, s1, runs, k, s2, t, m, mi, f, second, err);
    Failure::InBlock(s1, Box::new(runs), k, s2, Box::new(t), m, mi, Box::new(sub))
}

fn listing_entry(line: &SourceLine, addr: u16, byte_count: usize) -> (r: ListingLine)
    ensures
        r.file == line.file,
        r.line_num == line.line_num,
        r.text == line.text,
        r.addr == addr,
        r.byte_count == byte_count,
        r.macro_expansion == line.macro_context is Some,
{
    ListingLine {
        file: line.file.clone(),
        line_num: line.line_num,
        text: line.text.clone(),
        addr,
        byte_count,
        macro_expansion: line.macro_context.is_some(),
    }
}

impl Assembler {
    fn push_listing(&mut self, line: &SourceLine, addr: u16, byte_count: usize)
        ensures
            listed(*old(self), *line, addr, byte_count, *final(self)),
            listing_extends(old(self).listing_data@, final(self).listing_data@),
    {
        let entry = listing_entry(line, addr, byte_count);
        let ghost before = self.listing_data@;
        self.listing_data.push(entry);
        assert(self.listing_data@.drop_last() =~= before);
    }

    #[verifier::spinoff_prover]
    fn expand_macro_pass2(&mut self, line: &SourceLine, macro_name: &str, args: &[String]) -> (r: AsmResult<()>)
        requires
            old(self).inv(),
        ensures
            step_frame(old(self), final(self)),
            listing_extends(old(self).listing_data@, final(self).listing_data@),
            r is Ok ==> exists|e: Seq<SourceLine>, inner: Assembler, body: Trace, done: Assembler|
                #[trigger] macro_step(
                    *old(self),
                    *line,
                    macro_name@,
                    crate::preprocessor::strings_view(args@),
                    e,
                    inner,
                    body,
                    done,
                    *final(self),
                    true,
                ),
            r matches Err(err) ==> (macro_call_fails(*old(self), macro_name@, crate::preprocessor::strings_view(args@))
                && macro_call_error(*old(self), macro_name@, crate::preprocessor::strings_view(args@), err)) || exists|
                e: Seq<SourceLine>,
                inner: Assembler,
                t: Trace,
                m: Assembler,
                mi: usize,
                f: Failure,
            |
                #[trigger] macro_fails_inside(
                    *old(self),
                    *line,
                    macro_name@,
                    crate::preprocessor::strings_view(args@),
                    e,
                    inner,
                    t,
                    m,
                    mi,
                    f,
                    true,
                    err,
                ),
        decreases MAX_MACRO_DEPTH - old(self).macro_depth, 0int, 0int,
    {
        if self.macro_depth >= MAX_MACRO_DEPTH {
            return Err(AsmError::new("Macro expansion depth exceeded 32 levels"));
        }
        let count = self.symbols.macro_call_count();
        if count == usize::MAX {
            return Err(table_full());
        }
        let call_idx = count + 1;
        let ghost def: MacroDef;
        let expanded = match self.symbols.get_macro(macro_name) {
            Some(d) => {
                proof { def = *d; }
                match expand_macro(d, args, call_idx, line.file.as_str(), line.line_num) {
                    Ok(v) => v,
                    Err(e) => { return Err(e); },
                }
            },
            None => { return Err(crate::symbols::message_with_name("Unknown macro '", macro_name, "'")); },
        };
        let ghost a = *self;
        let ghost stack0 = self.symbols.scope_stack();
        let prefix = self.symbols.begin_macro_expansion(macro_name);
        self.macro_depth = self.macro_depth + 1;
        let ghost inner = *self;
        let result = self.process_lines_pass2(expanded.as_slice());
        let ghost done = *self;
        self.macro_depth = self.macro_depth - 1;
        self.symbols.end_macro_expansion();
        assert(stack0.push(prefix@).drop_last() =~= stack0);
        match result {
            Ok(()) => {
                proof {
                    let t = choose|t: Trace| #[trigger] reach(t, inner, expanded@, done, expanded@.len() as int, true);
                    assert(expansion_lines(expanded@, def, crate::preprocessor::strings_view(args@), call_idx as nat, line.line_num));
                    assert(macro_step(
                        a,
                        *line,
                        macro_name@,
                        crate::preprocessor::strings_view(args@),
                        expanded@,
                        inner,
                        t,
                        done,
                        *self,
                        true,
                    ));
                }
                Ok(())
            },
            Err(e) => {
                proof {
                    let (t, m, mi, f) = choose|t: Trace, m: Assembler, mi: int, f: Failure|
                        #[trigger] fails_at(inner, expanded@, true, t, m, mi, f, e);
                    assert(expansion_lines(expanded@, def, crate::preprocessor::strings_view(args@), call_idx as nat, line.line_num));
                    assert(macro_fails_inside(
                        a,
                        *line,
                        macro_name@,
                        crate::preprocessor::strings_view(args@),
                        expanded@,
                        inner,
                        t,
                        m,
                        mi as usize,
                        f,
                        true,
                        e,
                    ));
                }
                Err(e)
            },
        }
    }

    /// Pass 2 over a block whose body runs `n` times: the first line is
    /// listed, the body runs, and the end line is listed.
    #[verifier::spinoff_prover]
    fn run_block_pass2(&mut self, lines: &[SourceLine], i: usize, end: usize, n: i64) -> (r: AsmResult<()>)
        requires
            old(self).inv(),
            i < end < lines@.len(),
            0 <= n <= MAX_LOOP_ITERATIONS,
        ensures
            step_frame(old(self), final(self)),
            listing_extends(old(self).listing_data@, final(self).listing_data@),
            r is Ok ==> exists|s1: Assembler, runs: Runs, s2: Assembler|
                #[trigger] repeats(runs, s1, lines@.subrange(i + 1, end as int), n as int, s2, true)
                && listed_if(true, *old(self), lines@[i as int], old(self).pc, 0, s1)
                && listed_if(true, s2, lines@[end as int], s2.pc, 0, *final(self)),
            r matches Err(err) ==> exists|
                s1: Assembler,
                runs: Runs,
                k: usize,
                s2: Assembler,
                t: Trace,
                m: Assembler,
                mi: usize,
                f: Failure,
            |
                #[trigger] block_fails_inside(
                    *old(self),
                    lines@,
                    i as int,
                    end as int,
                    n as int,
                    s1,
                    runs,
                    k,
                    s2,
                    t,
                    m,
                    mi,
                    f,
                    true,
                    err,
                ),
        decreases MAX_MACRO_DEPTH - old(self).macro_depth, lines@.len(), 0int,
    {
        let addr = self.pc;
        self.push_listing(&lines[i], addr, 0);
        let ghost s1 = *self;
        let body = vstd::slice::slice_subrange(lines, i + 1, end);
        let ghost mut runs = Runs::NoRun;
        let mut k: i64 = 0;
        while k < n
            invariant
                0 <= k <= n,
                body@ == lines@.subrange(i + 1, end as int),
                body@.len() < lines@.len(),
                step_frame(old(self), self),
                listing_extends(old(self).listing_data@, self.listing_data@),
                repeats(runs, s1, body@, k as int, *self, true),
                i < end < lines@.len(),
                n <= MAX_LOOP_ITERATIONS,
                listed_if(true, *old(self), lines@[i as int], old(self).pc, 0, s1),
            decreases n - k,
        {
            let ghost before = *self;
            let ghost l0 = self.listing_data@;
            match self.process_lines_pass2(body) {
                Ok(()) => {},
                Err(e) => {
                    proof {
                        let (t, m, mi, f) = choose|t: Trace, m: Assembler, mi: int, f: Failure|
                            #[trigger] fails_at(before, body@, true, t, m, mi, f, e);
                        assert(block_fails_inside(
                            *old(self),
                            lines@,
                            i as int,
                            end as int,
                            n as int,
                            s1,
                            runs,
                            k as usize,
                            before,
                            t,
                            m,
                            mi as usize,
                            f,
                            true,
                            e,
                        ));
                    }
                    return Err(e);
                },
            }
            proof {
                lemma_listing_trans(old(self).listing_data@, l0, self.listing_data@);
                let t = choose|t: Trace| #[trigger] reach(t, before, body@, *self, body@.len() as int, true);
                runs = Runs::Run(Box::new(runs), before, Box::new(t));
            }
            k += 1;
        }
        let ghost s2 = *self;
        let ghost l1 = self.listing_data@;
        let end_addr = self.pc;
        self.push_listing(&lines[end], end_addr, 0);
        proof {
            lemma_listing_trans(old(self).listing_data@, l1, self.listing_data@);
            assert(repeats(runs, s1, lines@.subrange(i + 1, end as int), n as int, s2, true));
        }
        Ok(())
    }

    /// Pass 2 over a macro call on line `i` of `lines`.
    #[verifier::spinoff_prover]
    fn macro_line_pass2(&mut self, lines: &[SourceLine], i: usize, macro_name: &str, args: &[String]) -> (r: AsmResult<
        (usize, Ghost<Step>),
    >)
        requires
            old(self).inv(),
            i < lines@.len(),
            crate::preprocessor::invocation_spec(lines@[i as int].text@, &old(self).symbols) == Some(
                (macro_name@, crate::preprocessor::strings_view(args@)),
            ),
        ensures
            step_frame(old(self), final(self)),
            listing_extends(old(self).listing_data@, final(self).listing_data@),
            r matches Ok((j, st)) ==> i < j <= lines@.len() && line_step(st@, *old(self), lines@, i as int, *final(self), j as int, true),
            r matches Err(err) ==> exists|f: Failure| #[trigger] line_fails(f, *old(self), lines@, i as int, true, err),
        decreases MAX_MACRO_DEPTH - old(self).macro_depth, lines@.len(), 0int,
    {
        let line = &lines[i];
        let pc_before = self.pc;
        let ghost a = *self;
        match self.expand_macro_pass2(line, macro_name, args) {
            Ok(()) => {},
            Err(e) => {
                let reported = at_line(e, line);
                proof {
                    let av = crate::preprocessor::strings_view(args@);
                    if macro_call_fails(a, macro_name@, av) && macro_call_error(a, macro_name@, av, e) {
                        assert(line_fails(Failure::Here, a, lines@, i as int, true, reported));
                    } else {
                        let (ex, inner, t, m, mi, f) = choose|
                            ex: Seq<SourceLine>,
                            inner: Assembler,
                            t: Trace,
                            m: Assembler,
                            mi: usize,
                            f: Failure,
                        | #[trigger] macro_fails_inside(a, *line, macro_name@, av, ex, inner, t, m, mi, f, true, e);
                        assert(line_fails(
                            Failure::InMacro(ex, inner, Box::new(t), m, mi, Box::new(f), e),
                            a,
                            lines@,
                            i as int,
                            true,
                            reported,
                        ));
                    }
                }
                return Err(reported);
            },
        }
        let ghost left = *self;
        let ghost l0 = self.listing_data@;
        self.push_listing(line, pc_before, 0);
        let ghost st: Step;
        proof {
            lemma_listing_trans(a.listing_data@, l0, self.listing_data@);
            let (e, inner, body, done) = choose|e: Seq<SourceLine>, inner: Assembler, body: Trace, done: Assembler|
                #[trigger] macro_step(
                    a,
                    *line,
                    macro_name@,
                    crate::preprocessor::strings_view(args@),
                    e,
                    inner,
                    body,
                    done,
                    left,
                    true,
                );
            st = Step::Macro(e, inner, Box::new(body), done, left);
            assert(line_step(st, a, lines@, i as int, *self, i + 1, true));
        }
        Ok((i + 1, Ghost(st)))
    }

    /// Pass 2 over the `.if`, `.loop` or `.optional` block that line `i` of
    /// `lines` opens.
    #[verifier::spinoff_prover]
    fn block_line_pass2(&mut self, lines: &[SourceLine], i: usize, item: &ParsedLine) -> (r: AsmResult<(usize, Ghost<Step>)>)
        requires
            old(self).inv(),
            i < lines@.len(),
            crate::preprocessor::invocation_spec(lines@[i as int].text@, &old(self).symbols) is None,
            lex(lines@[i as int].text@) != Some(Seq::<(SpecToken, int)>::empty()),
            parsed_text(lines@[i as int].text@) == Some(seq![item.spec_view()]),
            opens_any_block(item.spec_view()),
        ensures
            step_frame(old(self), final(self)),
            listing_extends(old(self).listing_data@, final(self).listing_data@),
            r matches Ok((j, st)) ==> i < j <= lines@.len() && line_step(st@, *old(self), lines@, i as int, *final(self), j as int, true),
            r matches Err(err) ==> exists|f: Failure| #[trigger] line_fails(f, *old(self), lines@, i as int, true, err),
        decreases MAX_MACRO_DEPTH - old(self).macro_depth, lines@.len(), 1int,
    {
        let line = &lines[i];
        let ghost a = *self;
        let ghost ls = seq![item.spec_view()];
        let kind = match item {
            ParsedLine::Directive(Directive::If(_)) => BlockKind::If,
            ParsedLine::Directive(Directive::Loop(_)) => BlockKind::Loop,
            _ => BlockKind::Optional,
        };
        let end = match find_matching_block_end(lines, i, kind, self.cpu_mode) {
            Ok(e) => e,
            Err(e) => {
                proof { lemma_block_fails_here(a, lines@, i as int, ls, true, e); }
                return Err(e);
            },
        };
        let n: i64 = match item {
            ParsedLine::Directive(Directive::If(expr)) => {
                match self.eval_expr(expr) {
                    Ok(v) => if v != 0 { 1 } else { 0 },
                    Err(e) => {
                        let reported = at_line(e, line);
                        proof { lemma_block_fails_here(a, lines@, i as int, ls, true, reported); }
                        return Err(reported);
                    },
                }
            },
            ParsedLine::Directive(Directive::Loop(expr)) => {
                let count = match self.eval_expr(expr) {
                    Ok(v) => v,
                    Err(e) => {
                        let reported = at_line(e, line);
                        proof { lemma_block_fails_here(a, lines@, i as int, ls, true, reported); }
                        return Err(reported);
                    },
                };
                if count < 0 {
                    let reported = at_line(AsmError::new("Loop count must be non-negative"), line);
                    proof { lemma_block_fails_here(a, lines@, i as int, ls, true, reported); }
                    return Err(reported);
                }
                if count > MAX_LOOP_ITERATIONS {
                    let reported = at_line(AsmError::new("Loop iteration count exceeded 100000"), line);
                    proof { lemma_block_fails_here(a, lines@, i as int, ls, true, reported); }
                    return Err(reported);
                }
                count
            },
            _ => {
                let keep = if !self.settings.optional_enabled {
                    true
                } else {
                    match should_include_optional_block(lines, i + 1, end, self.cpu_mode) {
                        Ok(k) => k,
                        Err(e) => {
                            proof { lemma_block_fails_here(a, lines@, i as int, ls, true, e); }
                            return Err(e);
                        },
                    }
                };
                if keep { 1 } else { 0 }
            },
        };
        assert(block_plan(a, lines@, i as int, ls[0]) == Some((n as int, end as int)));
        match self.run_block_pass2(lines, i, end, n) {
            Ok(()) => {},
            Err(e) => {
                proof { let f = lemma_block_fails_inside(a, lines@, i as int, end as int, n as int, ls, true, e); }
                return Err(e);
            },
        }
        let ghost st = lemma_block_step(a, *self, lines@, i as int, end as int, n as int, ls, true);
        Ok((end + 1, Ghost(st)))
    }

    /// Pass 2 over a line of items (line `i` of `lines`, parsed as `parsed`).
    #[verifier::spinoff_prover]
    fn items_line_pass2(&mut self, lines: &[SourceLine], i: usize, parsed: &[ParsedLine]) -> (r: AsmResult<(usize, Ghost<Step>)>)
        requires
            old(self).inv(),
            i < lines@.len(),
            crate::preprocessor::invocation_spec(lines@[i as int].text@, &old(self).symbols) is None,
            lex(lines@[i as int].text@) != Some(Seq::<(SpecToken, int)>::empty()),
            parsed_text(lines@[i as int].text@) == Some(lines_view(parsed@)),
            !(parsed@.len() == 1 && opens_any_block(lines_view(parsed@)[0])),
            !(parsed@.len() == 1 && ends_any_block(lines_view(parsed@)[0])),
        ensures
            step_frame(old(self), final(self)),
            listing_extends(old(self).listing_data@, final(self).listing_data@),
            r matches Ok((j, st)) ==> i < j <= lines@.len() && line_step(st@, *old(self), lines@, i as int, *final(self), j as int, true),
            r matches Err(err) ==> exists|f: Failure| #[trigger] line_fails(f, *old(self), lines@, i as int, true, err),
    {
        let line = &lines[i];
        let pc_before = self.pc;
        let wc_before = self.output.write_count();
        let ghost a = *self;
        match self.process_parsed_line_pass2(line, parsed) {
            Ok(()) => {},
            Err(e) => {
                let reported = at_line(e, line);
                assert(line_fails(Failure::Here, a, lines@, i as int, true, reported));
                return Err(reported);
            },
        }
        let ghost done = *self;
        let byte_count = self.output.write_count().wrapping_sub(wc_before);
        self.push_listing(line, pc_before, byte_count);
        proof {
            lemma_listing_trans(a.listing_data@, done.listing_data@, self.listing_data@);
            assert(line_step(Step::Items(done), a, lines@, i as int, *self, i + 1, true));
        }
        Ok((i + 1, Ghost(Step::Items(done))))
    }

    /// Pass 2 over line `i` of `lines` (with the block it opens): returns the
    /// index of the line after it.
    #[verifier::spinoff_prover]
    fn line_pass2(&mut self, lines: &[SourceLine], i: usize) -> (r: AsmResult<(usize, Ghost<Step>)>)
        requires
            old(self).inv(),
            i < lines@.len(),
        ensures
            step_frame(old(self), final(self)),
            listing_extends(old(self).listing_data@, final(self).listing_data@),
            r matches Ok((j, st)) ==> i < j <= lines@.len() && line_step(st@, *old(self), lines@, i as int, *final(self), j as int, true),
            r matches Err(err) ==> exists|f: Failure| #[trigger] line_fails(f, *old(self), lines@, i as int, true, err),
        decreases MAX_MACRO_DEPTH - old(self).macro_depth, lines@.len(), 2int,
    {
        let line = &lines[i];
        let pc_before = self.pc;
        let ghost a = *self;
        match parse_macro_invocation(line.text.as_str(), &self.symbols) {
            Some((macro_name, args)) => {
                return self.macro_line_pass2(lines, i, macro_name.as_str(), args.as_slice());
            },
            None => {},
        }
        let parsed = match parse_source_line(line, self.cpu_mode) {
            Ok(Some(p)) => p,
            Ok(None) => {
                self.push_listing(line, pc_before, 0);
                assert(line_step(Step::Blank, a, lines@, i as int, *self, i + 1, true));
                return Ok((i + 1, Ghost(Step::Blank)));
            },
            Err(e) => {
                let reported = at_line(e, line);
                assert(line_fails(Failure::Here, a, lines@, i as int, true, reported));
                return Err(reported);
            },
        };
        if parsed.len() == 1 {
            let ghost ls = lines_view(parsed@);
            assert(ls =~= seq![parsed@[0].spec_view()]);
            match &parsed[0] {
                ParsedLine::Directive(Directive::If(_)) | ParsedLine::Directive(Directive::Loop(_))
                | ParsedLine::Directive(Directive::Optional) => {
                    return self.block_line_pass2(lines, i, &parsed[0]);
                },
                ParsedLine::Directive(Directive::EndIf) | ParsedLine::Directive(Directive::EndLoop)
                | ParsedLine::Directive(Directive::EndOptional) => {
                    self.push_listing(line, pc_before, 0);
                    assert(line_step(Step::Stray, a, lines@, i as int, *self, i + 1, true));
                    return Ok((i + 1, Ghost(Step::Stray)));
                },
                _ => {},
            }
        }
        self.items_line_pass2(lines, i, parsed.as_slice())
    }

    fn process_lines_pass2(&mut self, lines: &[SourceLine]) -> (r: AsmResult<()>)
        requires
            old(self).inv(),
        ensures
            step_frame(old(self), final(self)),
            listing_extends(old(self).listing_data@, final(self).listing_data@),
            r is Ok ==> pass_run(*old(self), lines@, *final(self), true),
            r matches Err(err) ==> pass_fails(*old(self), lines@, true, err),
        decreases MAX_MACRO_DEPTH - old(self).macro_depth, lines@.len(), 3int,
    {
        let ghost mut tr = Trace::Start;
        let mut i: usize = 0;
        while i < lines.len()
            invariant
                i <= lines@.len(),
                step_frame(old(self), self),
                listing_extends(old(self).listing_data@, self.listing_data@),
                reach(tr, *old(self), lines@, *self, i as int, true),
            decreases lines@.len() - i,
        {
            let ghost before = *self;
            let ghost l0 = self.listing_data@;
            let (next, st) = match self.line_pass2(lines, i) {
                Ok(x) => x,
                Err(e) => {
                    proof {
                        let f = choose|f: Failure| #[trigger] line_fails(f, before, lines@, i as int, true, e);
                        assert(fails_at(*old(self), lines@, true, tr, before, i as int, f, e));
                    }
                    return Err(e);
                },
            };
            proof {
                lemma_listing_trans(old(self).listing_data@, l0, self.listing_data@);
                tr = Trace::Then(Box::new(tr), before, i, Box::new(st@));
            }
            i = next;
        }
        assert(reach(tr, *old(self), lines@, *self, lines@.len() as int, true));
        Ok(())
    }
}

proof fn lemma_listing_trans(a: Seq<ListingLine>, b: Seq<ListingLine>, c: Seq<ListingLine>)
    requires
        listing_extends(a, b),
        listing_extends(b, c),
    ensures
        listing_extends(a, c),
{
}

/// A global constant waiting for its value: its name, its expression, and
/// where it was defined.
struct Deferred {
    name: String,
    expr: Expr,
    file: String,
    line: usize,
}

/// Whether some global constant of `st` still waits for the value of its
/// expression.
pub open spec fn waiting(st: &SymbolTable) -> bool {
    exists|k: Seq<char>| #[trigger] st.global(k) is Some && waits(st.global(k))
}

/// Whether entry `e` has no value but an expression.
pub open spec fn waits(e: Option<crate::symbols::SymbolInfo>) -> bool {
    match e {
        Some(info) => info.value is None && info.expr is Some,
        None => false,
    }
}


/// Whether some global symbol of `st` has no value.
pub open spec fn lacks_value(st: &SymbolTable) -> bool {
    exists|k: Seq<char>| #[trigger] st.global(k) is Some && crate::symbols::value_of(st.global(k)) is None
}

/// The names of the entries of `s` that have no value, in their order.
pub open spec fn missing_names(s: Seq<crate::symbols::GlobalEntry>) -> Seq<Seq<char>>
    decreases s.len(),
{
    if s.len() == 0 {
        Seq::empty()
    } else {
        let rest = missing_names(s.drop_last());
        if s.last().info.value is None {
            rest.push(s.last().name@)
        } else {
            rest
        }
    }
}

/// `names` joined by `", "`.
pub open spec fn joined_names(names: Seq<Seq<char>>) -> Seq<char>
    decreases names.len(),
{
    if names.len() == 0 {
        Seq::empty()
    } else if names.len() == 1 {
        names[0]
    } else {
        joined_names(names.drop_last()) + seq![',', ' '] + names.last()
    }
}

/// `e` is the error that names the global symbols of `st` still without a
/// value, in the order they were defined.
pub open spec fn unresolved_error(st: &SymbolTable, e: AsmError) -> bool {
    &&& e.message@ == "Unresolved symbols: "@ + joined_names(missing_names(st.global_entries()))
    &&& e.location is None
    &&& e.source_line is None
}

/// Whether symbol entry `e` waits for the value of the expression of `d`,
/// defined where `d` says.
spec fn waits_as(e: Option<crate::symbols::SymbolInfo>, d: Deferred) -> bool {
    match e {
        Some(info) => info.value is None && info.expr == Some(d.expr) && info.file@ == d.file@ && info.line == d.line,
        None => false,
    }
}

/// Giving a waiting constant its value: entry `before` waits for the value
/// of its expression, and entry `after` holds the value that expression has
/// in table `b`.
pub open spec fn resolved_entry(
    before: Option<crate::symbols::SymbolInfo>,
    after: Option<crate::symbols::SymbolInfo>,
    b: &SymbolTable,
) -> bool {
    match (before, after) {
        (Some(e), Some(f)) => {
            &&& e.value is None
            &&& e.expr is Some
            &&& f.value is Some
            &&& f.value == crate::expr::eval(e.expr->0.spec_view(), b, false, 0)
            &&& !f.is_mutable
            &&& !f.is_local
            &&& f.expr is None
            &&& f.file@ == e.file@
            &&& f.line == e.line
        },
        _ => false,
    }
}

/// `b` is `a` with some of the constants that wait for a value given the
/// value their expression has in `b`.
pub open spec fn constants_resolved(a: &SymbolTable, b: &SymbolTable) -> bool {
    &&& b.wf()
    &&& a.same_but_globals(b)
    &&& b.scope() == a.scope()
    &&& forall|k: Seq<char>| #[trigger] b.global(k) == a.global(k) || resolved_entry(a.global(k), b.global(k), b)
}

/// Defining a waiting constant as the value of its expression keeps the
/// table a resolution of the first one.
proof fn lemma_resolve_step(a: &SymbolTable, t: &SymbolTable, u: &SymbolTable, d: Deferred, val: i64)
    requires
        constants_resolved(a, t),
        waits_as(a.global(upper_seq(d.name@)), d),
        crate::expr::eval(d.expr.spec_view(), t, false, 0) == Some(val),
        !constant_clash(t, d.name@, val),
        constant_defined(t, u, d.name@, val, d.file@, d.line),
    ensures
        constants_resolved(a, u),
        crate::symbols::values_kept(t, u),
{
    let kk = upper_seq(d.name@);
    assert(crate::symbols::values_kept(t, u)) by {
        assert forall|k: Seq<char>| crate::symbols::value_of(t.global(k)) is Some implies #[trigger] crate::symbols::value_of(
            u.global(k),
        ) == crate::symbols::value_of(t.global(k)) by {
            if k == kk {
                if t.global(kk) == a.global(kk) {
                } else {
                    assert(resolved_entry(a.global(kk), t.global(kk), t));
                }
            }
        }
    }
    assert forall|k: Seq<char>| #[trigger] u.global(k) == a.global(k) || resolved_entry(a.global(k), u.global(k), u) by {
        if u.global(k) != a.global(k) {
            if k == kk && t.global(kk) == a.global(kk) {
                crate::expr::lemma_eval_kept(d.expr.spec_view(), t, u, 0);
            } else {
                assert(t.global(k) == u.global(k)) by {
                    if k == kk {
                        assert(resolved_entry(a.global(kk), t.global(kk), t));
                    }
                }
                assert(resolved_entry(a.global(k), t.global(k), t));
                let x = a.global(k)->0.expr->0.spec_view();
                crate::expr::lemma_eval_kept(x, t, u, 0);
            }
        }
    }
}

proof fn lemma_values_kept_trans(a: &SymbolTable, b: &SymbolTable, c: &SymbolTable)
    requires
        crate::symbols::values_kept(a, b),
        crate::symbols::values_kept(b, c),
    ensures
        crate::symbols::values_kept(a, c),
{
    assert forall|k: Seq<char>| crate::symbols::value_of(a.global(k)) is Some implies #[trigger] crate::symbols::value_of(
        c.global(k),
    ) == crate::symbols::value_of(a.global(k)) by {
        assert(crate::symbols::value_of(b.global(k)) == crate::symbols::value_of(a.global(k)));
    }
    assert forall|k: Seq<char>| #[trigger] c.macro_local(k) == a.macro_local(k) by {
        assert(b.macro_local(k) == a.macro_local(k));
    }
}

/// The resolution of deferred constants leads from the state `a` pass 1
/// left to state `b`: only constants get values.
pub open spec fn resolution_step(a: Assembler, b: Assembler) -> bool {
    &&& constants_resolved(&a.symbols, &b.symbols)
    &&& b.output == a.output
    &&& b.listing_data == a.listing_data
    &&& b.printed == a.printed
    &&& b.pc == a.pc
    &&& b.encoding == a.encoding
    &&& b.settings == a.settings
    &&& b.files == a.files
    &&& b.project_dir == a.project_dir
    &&& b.macro_depth == a.macro_depth
    &&& b.cpu_mode == a.cpu_mode
    &&& b.quiet == a.quiet
}

/// Whether no constant of `st` that waits for a value can get one: the
/// expression of each has no value in `st`.
pub open spec fn stuck(st: &SymbolTable) -> bool {
    forall|k: Seq<char>|
        #[trigger] waits(st.global(k)) ==> crate::expr::eval(st.global(k)->0.expr->0.spec_view(), st, false, 0) is None
}

/// Whether round `i` of the rounds whose tables are `ts` (the table before
/// the round at `i`, after it at `i + 1`) gave at least one more constant its
/// value, and only gave constants their values.
pub open spec fn round_resolved_some(ts: Seq<SymbolTable>, i: int) -> bool {
    &&& constants_resolved(&ts[i], &ts[i + 1])
    &&& exists|k: Seq<char>|
        crate::symbols::value_of(ts[i].global(k)) is None && #[trigger] crate::symbols::value_of(ts[i + 1].global(k))
            is Some
}

/// `ts` are the tables before and after each of `ts.len() - 1` rounds, each
/// of which gave at least one more constant its value.
pub open spec fn resolving_rounds(ts: Seq<SymbolTable>) -> bool {
    forall|i: int| 0 <= i < ts.len() - 1 ==> #[trigger] round_resolved_some(ts, i)
}

/// The resolution of deferred constants succeeds from the state `a` pass 1
/// left with state `b`: only constants got values, and none waits for one
/// any more unless all of its hundred rounds each gave one more constant
/// its value.
pub open spec fn resolution_done(a: Assembler, b: Assembler) -> bool {
    &&& resolution_step(a, b)
    &&& (!waiting(&b.symbols) || exists|ts: Seq<SymbolTable>|
        #[trigger] resolving_rounds(ts) && ts.len() == 101 && ts[0] == a.symbols && ts[100] == b.symbols)
}

/// The state `b` pass 2 starts from when the constants are resolved in
/// state `a`: address 0, the default encoding, scopes and macro calls
/// counted afresh, everything else as it is.
pub open spec fn second_pass_start(a: Assembler, b: Assembler) -> bool {
    &&& crate::symbols::reset_for_second_pass(&a.symbols, &b.symbols)
    &&& b.pc == 0
    &&& b.encoding.encoding_type == EncodingType::Ascii
    &&& b.encoding.case == EncodingCase::Mixed
    &&& b.output == a.output
    &&& b.listing_data == a.listing_data
    &&& b.printed == a.printed
    &&& b.settings == a.settings
    &&& b.files == a.files
    &&& b.project_dir == a.project_dir
    &&& b.macro_depth == a.macro_depth
    &&& b.cpu_mode == a.cpu_mode
    &&& b.quiet == a.quiet
}

/// The stages of an assembly of `lines` from state `a` to state `b`: pass 1
/// ends in `s1`, the resolution of deferred constants in `s2`, and pass 2
/// runs from `s3`, the start that `s2` gives it.
pub open spec fn assembly_stages(a: Assembler, lines: Seq<SourceLine>, s1: Assembler, s2: Assembler, s3: Assembler, b: Assembler) -> bool {
    &&& pass_run(a, lines, s1, false)
    &&& resolution_done(s1, s2)
    &&& second_pass_start(s2, s3)
    &&& pass_run(s3, lines, b, true)
}

/// Assembling `lines` from state `a` can end in state `b`.
pub open spec fn assembled(a: Assembler, lines: Seq<SourceLine>, b: Assembler) -> bool {
    exists|s1: Assembler, s2: Assembler, s3: Assembler| #[trigger] assembly_stages(a, lines, s1, s2, s3, b)
}

/// The resolution of deferred constants fails after pass 1 ended in `s1`:
/// with the constants it could resolve (state `s2`), no waiting constant can
/// get a value any more and some symbol still has none.
pub open spec fn resolution_fails_at(a: Assembler, lines: Seq<SourceLine>, s1: Assembler, s2: Assembler, err: AsmError) -> bool {
    &&& pass_run(a, lines, s1, false)
    &&& resolution_step(s1, s2)
    &&& stuck(&s2.symbols)
    &&& lacks_value(&s2.symbols)
    &&& unresolved_error(&s2.symbols, err)
}

/// Pass 2 fails after pass 1 ended in `s1`, the resolution in `s2`, and
/// pass 2 started from `s3`.
pub open spec fn second_pass_fails_at(a: Assembler, lines: Seq<SourceLine>, s1: Assembler, s2: Assembler, s3: Assembler, err: AsmError) -> bool {
    &&& pass_run(a, lines, s1, false)
    &&& resolution_done(s1, s2)
    &&& second_pass_start(s2, s3)
    &&& pass_fails(s3, lines, true, err)
}

/// Assembling `lines` from state `a` fails: pass 1 fails, or the
/// resolution of deferred constants leaves a symbol without value, or
/// pass 2 fails.
pub open spec fn assembly_fails(a: Assembler, lines: Seq<SourceLine>, err: AsmError) -> bool {
    ||| pass_fails(a, lines, false, err)
    ||| exists|s1: Assembler, s2: Assembler| #[trigger] resolution_fails_at(a, lines, s1, s2, err)
    ||| exists|s1: Assembler, s2: Assembler, s3: Assembler| #[trigger] second_pass_fails_at(a, lines, s1, s2, s3, err)
}

impl Assembler {
    /// The global constants that have an expression but no value yet.
    fn unresolved_constants(&self) -> (r: Vec<Deferred>)
        requires
            self.symbols.wf(),
        ensures
            forall|i: int| 0 <= i < r@.len() ==> waits_as(self.symbols.global(upper_seq((#[trigger] r@[i]).name@)), r@[i]),
            r@.len() == 0 ==> !waiting(&self.symbols),
            forall|k: Seq<char>|
                #[trigger] waits(self.symbols.global(k)) ==> exists|m: int| 0 <= m < r@.len() && upper_seq(r@[m].name@) == k,
    {
        let globals = self.symbols.all_globals();
        let mut out: Vec<Deferred> = Vec::new();
        let mut i: usize = 0;
        while i < globals.len()
            invariant
                i <= globals@.len(),
                out@.len() == 0 ==> forall|j: int| 0 <= j < i ==> !waits(Some((#[trigger] globals@[j]).info)),
                forall|k: Seq<char>| self.symbols.global(k) is Some ==> exists|j: int| 0 <= j < globals@.len() && globals@[j].key@ == k,
                self.symbols.wf(),
                forall|j: int| 0 <= j < globals@.len() ==> self.symbols.global(#[trigger] globals@[j].key@) == Some(globals@[j].info),
                forall|j: int| 0 <= j < globals@.len() ==> (#[trigger] globals@[j]).key@ == upper_seq(globals@[j].name@),
                forall|j: int| 0 <= j < out@.len() ==> waits_as(self.symbols.global(upper_seq((#[trigger] out@[j]).name@)), out@[j]),
                forall|j: int|
                    0 <= j < i && waits(Some((#[trigger] globals@[j]).info)) ==> exists|m: int|
                        0 <= m < out@.len() && upper_seq(out@[m].name@) == globals@[j].key@,
            decreases globals@.len() - i,
        {
            let entry = &globals[i];
            if entry.info.value.is_none() {
                match &entry.info.expr {
                    Some(e) => {
                        let d = Deferred {
                            name: entry.name.clone(),
                            expr: e.copy(),
                            file: entry.info.file.clone(),
                            line: entry.info.line,
                        };
                        assert(entry.key@ == upper_seq(entry.name@));
                        assert(waits_as(self.symbols.global(upper_seq(d.name@)), d));
                        let ghost before = out@;
                        out.push(d);
                        proof {
                            assert(out@[before.len() as int] == d);
                            assert forall|j: int|
                                0 <= j < i + 1 && waits(Some((#[trigger] globals@[j]).info)) implies exists|m: int|
                                    0 <= m < out@.len() && upper_seq(out@[m].name@) == globals@[j].key@ by {
                                if j < i {
                                    let m = choose|m: int| 0 <= m < before.len() && upper_seq(before[m].name@) == globals@[j].key@;
                                    assert(out@[m] == before[m]);
                                } else {
                                    assert(upper_seq(out@[before.len() as int].name@) == globals@[j].key@);
                                }
                            }
                        }
                    },
                    None => {},
                }
            }
            i += 1;
        }
        proof {
            assert forall|k: Seq<char>| #[trigger] waits(self.symbols.global(k)) implies exists|m: int|
                0 <= m < out@.len() && upper_seq(out@[m].name@) == k by {
                let j = choose|j: int| 0 <= j < globals@.len() && globals@[j].key@ == k;
                assert(waits(Some(globals@[j].info)));
            }
            if out@.len() == 0 {
                assert forall|k: Seq<char>| #[trigger] self.symbols.global(k) is Some implies !waits(self.symbols.global(k)) by {
                    if waits(self.symbols.global(k)) {
                        let m = choose|m: int| 0 <= m < out@.len() && upper_seq(out@[m].name@) == k;
                    }
                }
            }
        }
        out
    }

    /// The names of the global symbols without a value, joined by `", "`.
    fn unresolved_names(&self) -> (r: (String, bool))
        requires
            self.symbols.wf(),
        ensures
            r.1 <==> lacks_value(&self.symbols),
            r.0@ == joined_names(missing_names(self.symbols.global_entries())),
    {
        let globals = self.symbols.all_globals();
        let mut out = String::new();
        let mut any = false;
        let mut i: usize = 0;
        while i < globals.len()
            invariant
                i <= globals@.len(),
                !any ==> forall|j: int| 0 <= j < i ==> (#[trigger] globals@[j]).info.value is Some,
                forall|k: Seq<char>| self.symbols.global(k) is Some ==> exists|j: int| 0 <= j < globals@.len() && globals@[j].key@ == k,
                forall|j: int| 0 <= j < globals@.len() ==> self.symbols.global(#[trigger] globals@[j].key@) == Some(globals@[j].info),
                any ==> lacks_value(&self.symbols),
                globals@ == self.symbols.global_entries(),
                out@ == joined_names(missing_names(globals@.take(i as int))),
                any <==> missing_names(globals@.take(i as int)).len() > 0,
            decreases globals@.len() - i,
        {
            let entry = &globals[i];
            assert(globals@.take(i + 1).drop_last() =~= globals@.take(i as int));
            let ghost before = missing_names(globals@.take(i as int));
            assert(globals@.take(i + 1).last() == globals@[i as int]);
            if entry.info.value.is_none() {
                assert(missing_names(globals@.take(i + 1)) == before.push(entry.name@));
                assert(before.push(entry.name@).drop_last() =~= before);
                if any {
                    push_chars(&mut out, &[',', ' ']);
                }
                push_chars(&mut out, &chars_of(entry.name.as_str()));
                assert(self.symbols.global(entry.key@) == Some(entry.info));
                any = true;
            }
            i += 1;
        }
        assert(globals@.take(globals@.len() as int) =~= globals@);
        proof {
            if !any {
                assert forall|k: Seq<char>| #[trigger] self.symbols.global(k) is Some implies crate::symbols::value_of(
                    self.symbols.global(k),
                ) is Some by {
                    let j = choose|j: int| 0 <= j < globals@.len() && globals@[j].key@ == k;
                    assert(globals@[j].info.value is Some);
                }
            }
        }
        (out, any)
    }

    /// Gives values to the constants pass 1 had to defer, in rounds, until
    /// none is left or a round resolves nothing (at most 100 rounds).
    #[verifier::spinoff_prover]
    fn resolve_deferred_constants(&mut self) -> (r: AsmResult<()>)
        requires
            old(self).inv(),
        ensures
            step_frame(old(self), final(self)),
            final(self).output == old(self).output,
            final(self).listing_data == old(self).listing_data,
            final(self).printed == old(self).printed,
            final(self).pc == old(self).pc,
            final(self).encoding == old(self).encoding,
            final(self).settings == old(self).settings,
            constants_resolved(&old(self).symbols, &final(self).symbols),
            r is Err ==> stuck(&final(self).symbols) && lacks_value(&final(self).symbols),
            r matches Err(e) ==> unresolved_error(&final(self).symbols, e),
            r is Ok ==> !waiting(&final(self).symbols) || exists|ts: Seq<SymbolTable>|
                #[trigger] resolving_rounds(ts) && ts.len() == 101 && ts[0] == old(self).symbols && ts[100]
                    == final(self).symbols,
    {
        let ghost mut tables: Seq<SymbolTable> = seq![self.symbols];
        let mut round: usize = 0;
        while round < 100
            invariant
                round <= 100,
                tables.len() == round + 1,
                tables[0] == old(self).symbols,
                tables.last() == self.symbols,
                resolving_rounds(tables),
                step_frame(old(self), self),
                self.output == old(self).output,
                self.listing_data == old(self).listing_data,
                self.printed == old(self).printed,
                self.pc == old(self).pc,
                self.encoding == old(self).encoding,
                self.settings == old(self).settings,
                constants_resolved(&old(self).symbols, &self.symbols),
            decreases 100 - round,
        {
            let mut any_resolved = false;
            let ghost t0 = self.symbols;
            let ghost mut first: Seq<char> = Seq::empty();
            let unresolved = self.unresolved_constants();
            if unresolved.len() == 0 {
                return Ok(());
            }
            proof {
                assert forall|i: int| 0 <= i < unresolved@.len() implies waits_as(
                    old(self).symbols.global(upper_seq((#[trigger] unresolved@[i]).name@)),
                    unresolved@[i],
                ) by {
                    let k = upper_seq(unresolved@[i].name@);
                    assert(waits_as(self.symbols.global(k), unresolved@[i]));
                    assert(self.symbols.global(k) == old(self).symbols.global(k) || resolved_entry(
                        old(self).symbols.global(k),
                        self.symbols.global(k),
                        &self.symbols,
                    ));
                }
            }
            let mut k: usize = 0;
            while k < unresolved.len()
                invariant
                    k <= unresolved@.len(),
                    step_frame(old(self), self),
                    self.output == old(self).output,
                    self.listing_data == old(self).listing_data,
                    self.printed == old(self).printed,
                    self.pc == old(self).pc,
                    self.encoding == old(self).encoding,
                    self.settings == old(self).settings,
                    t0.wf(),
                    constants_resolved(&old(self).symbols, &self.symbols),
                    constants_resolved(&t0, &self.symbols),
                    forall|i: int| 0 <= i < unresolved@.len() ==> waits_as(
                        old(self).symbols.global(upper_seq((#[trigger] unresolved@[i]).name@)),
                        unresolved@[i],
                    ),
                    forall|i: int| 0 <= i < unresolved@.len() ==> waits_as(
                        t0.global(upper_seq((#[trigger] unresolved@[i]).name@)),
                        unresolved@[i],
                    ),
                    crate::symbols::values_kept(&t0, &self.symbols),
                    !any_resolved ==> self.symbols == t0,
                    !any_resolved ==> forall|i: int|
                        0 <= i < k ==> crate::expr::eval((#[trigger] unresolved@[i]).expr.spec_view(), &t0, false, 0)
                            is None,
                    any_resolved ==> crate::symbols::value_of(t0.global(first)) is None && crate::symbols::value_of(
                        self.symbols.global(first),
                    ) is Some,
                decreases unresolved@.len() - k,
            {
                let d = &unresolved[k];
                match eval_expr(&d.expr, &self.symbols, false, 0) {
                    Ok(val) => {
                        let ghost t = self.symbols;
                        proof {
                            let kk = upper_seq(d.name@);
                            if t.global(kk) != old(self).symbols.global(kk) {
                                assert(resolved_entry(old(self).symbols.global(kk), t.global(kk), &t));
                            }
                            if t.global(kk) != t0.global(kk) {
                                assert(resolved_entry(t0.global(kk), t.global(kk), &t));
                            }
                        }
                        self.symbols.define_constant(d.name.as_str(), val, d.file.as_str(), d.line)?;
                        proof {
                            lemma_resolve_step(&old(self).symbols, &t, &self.symbols, *d, val);
                            lemma_resolve_step(&t0, &t, &self.symbols, *d, val);
                            lemma_values_kept_trans(&t0, &t, &self.symbols);
                            if !any_resolved {
                                first = upper_seq(d.name@);
                                assert(waits_as(t0.global(first), *d));
                            }
                        }
                        any_resolved = true;
                    },
                    Err(_) => {},
                }
                k += 1;
            }
            if !any_resolved {
                proof {
                    assert forall|kx: Seq<char>| #[trigger] waits(t0.global(kx)) implies crate::expr::eval(
                        t0.global(kx)->0.expr->0.spec_view(),
                        &t0,
                        false,
                        0,
                    ) is None by {
                        let m = choose|m: int| 0 <= m < unresolved@.len() && upper_seq(unresolved@[m].name@) == kx;
                        assert(waits_as(t0.global(upper_seq(unresolved@[m].name@)), unresolved@[m]));
                    }
                }
                let (names, any) = self.unresolved_names();
                if any {
                    let mut message = String::from_str("Unresolved symbols: ");
                    push_chars(&mut message, &chars_of(names.as_str()));
                    return Err(AsmError { location: None, message, source_line: None });
                }
                return Ok(());
            }
            proof {
                let next = tables.push(self.symbols);
                assert(round_resolved_some(next, round as int)) by {
                    assert(next[round as int] == t0);
                    assert(next[round + 1] == self.symbols);
                    assert(crate::symbols::value_of(next[round + 1].global(first)) is Some);
                }
                assert forall|i: int| 0 <= i < next.len() - 1 implies #[trigger] round_resolved_some(next, i) by {
                    if i < round {
                        assert(round_resolved_some(tables, i));
                        assert(next[i] == tables[i]);
                        assert(next[i + 1] == tables[i + 1]);
                    }
                }
                tables = next;
            }
            round += 1;
        }
        Ok(())
    }

    /// Assembles preprocessed source lines in two passes: pass 1 defines the
    /// symbols and sizes every line, the deferred constants are resolved,
    /// and pass 2 emits the code from address 0 with the default encoding.
    #[verifier::spinoff_prover]
    pub fn assemble(&mut self, lines: &[SourceLine]) -> (r: AsmResult<()>)
        requires
            old(self).inv(),
        ensures
            final(self).inv(),
            final(self).macro_depth == old(self).macro_depth,
            final(self).files == old(self).files,
            final(self).project_dir == old(self).project_dir,
            final(self).cpu_mode == old(self).cpu_mode,
            listing_extends(old(self).listing_data@, final(self).listing_data@),
            r is Ok ==> assembled(*old(self), lines@, *final(self)),
            r matches Err(err) ==> assembly_fails(*old(self), lines@, err),
    {
        match self.pass1(lines) {
            Ok(()) => {},
            Err(e) => {
                return Err(e);
            },
        }
        let ghost s1 = *self;
        match self.resolve_deferred_constants() {
            Ok(()) => {},
            Err(e) => {
                assert(resolution_fails_at(*old(self), lines@, s1, *self, e));
                return Err(e);
            },
        }
        let ghost s2 = *self;
        self.symbols.reset_for_pass2();
        self.symbols.reset_macro_call_count();
        self.pc = 0;
        self.encoding = Encoding::default_encoding();
        let ghost s3 = *self;
        match self.pass2(lines) {
            Ok(()) => {},
            Err(e) => {
                assert(second_pass_fails_at(*old(self), lines@, s1, s2, s3, e));
                return Err(e);
            },
        }
        assert(assembly_stages(*old(self), lines@, s1, s2, s3, *self));
        Ok(())
    }

    fn pass1(&mut self, lines: &[SourceLine]) -> (r: AsmResult<()>)
        requires
            old(self).inv(),
        ensures
            step_frame(old(self), final(self)),
            final(self).output == old(self).output,
            final(self).listing_data == old(self).listing_data,
            final(self).printed == old(self).printed,
            r is Ok ==> pass_run(*old(self), lines@, *final(self), false),
            r matches Err(err) ==> pass_fails(*old(self), lines@, false, err),
    {
        self.process_lines_pass1(lines)
    }

    fn pass2(&mut self, lines: &[SourceLine]) -> (r: AsmResult<()>)
        requires
            old(self).inv(),
        ensures
            step_frame(old(self), final(self)),
            listing_extends(old(self).listing_data@, final(self).listing_data@),
            r is Ok ==> pass_run(*old(self), lines@, *final(self), true),
            r matches Err(err) ==> pass_fails(*old(self), lines@, true, err),
    {
        self.process_lines_pass2(lines)
    }
}

} // verus!
