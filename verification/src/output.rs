//! The ROM image and the listing text made from an assembled program.

use vstd::prelude::*;
use crate::assembler::{Assembler, ListingLine, OutputBuffer, wrap_addr};
use crate::preprocessor::OriginalSource;
use crate::text::{chars_of, fmt_dec, fmt_hex_fixed, hex_fixed, dec_digits, push_chars, skip_spaces_from, starts_at,
    starts_with_at, trim_seq, trim_vec, upper_seq, upper_vec};

verus! {

broadcast use vstd::string::group_string_axioms;

/// How many bytes of a line the listing shows.
pub const LISTING_MAX_BYTES: usize = 8;

/// ROM output configuration
pub struct RomConfig {
    pub rom_align: u16,
}

impl Default for RomConfig {
    fn default() -> (r: Self)
        ensures
            r.rom_align == 1,
    {
        Self { rom_align: 1 }
    }
}

/// The ROM image of an output buffer: the bytes from its lowest to its
/// highest written address (0 where nothing was written).
pub open spec fn rom_image(out: &OutputBuffer) -> Seq<u8> {
    match (out.lowest(), out.highest()) {
        (Some(lo), Some(hi)) => Seq::new((hi - lo + 1) as nat, |i: int| match out.byte((lo + i) as u16) {
            Some(b) => b,
            None => 0u8,
        }),
        _ => Seq::empty(),
    }
}

/// The length `n` rounded up to a multiple of `align` (when `align > 1`).
pub open spec fn padded_len(n: int, align: int) -> int {
    if align > 1 && n % align != 0 {
        n + (align - n % align)
    } else {
        n
    }
}

/// A ROM padded to an alignment `align` of at least 1 has a length that
/// is a multiple of `align`, no shorter than the image and less than one
/// `align` longer.
pub proof fn law_rom_size_is_aligned(n: int, align: int)
    requires
        n >= 0,
        align >= 1,
    ensures
        padded_len(n, align) % align == 0,
        n <= padded_len(n, align) < n + align,
{
    if align > 1 && n % align != 0 {
        assert((n + (align - n % align)) % align == 0) by (nonlinear_arith)
            requires
                align > 1,
                n >= 0,
        {
            vstd::arithmetic::div_mod::lemma_fundamental_div_mod(n, align);
            assert(n + (align - n % align) == align * (n / align + 1));
            vstd::arithmetic::div_mod::lemma_mod_multiples_basic(n / align + 1, align);
        }
    } else if align == 1 {
        assert(n % 1 == 0);
    }
}

/// Generate the ROM binary from assembled output: the image padded with
/// zeros to a multiple of the ROM alignment.
pub fn generate_rom(assembler: &Assembler, config: &RomConfig) -> (rom: Vec<u8>)
    requires
        assembler.inv(),
    ensures
        rom@.len() == padded_len(rom_image(&assembler.output).len() as int, config.rom_align as int),
        forall|i: int| 0 <= i < rom_image(&assembler.output).len() ==> rom@[i] == #[trigger] rom_image(&assembler.output)[i],
        forall|i: int| rom_image(&assembler.output).len() <= i < rom@.len() ==> #[trigger] rom@[i] == 0u8,
{
    let mut rom = assembler.output.extract_rom();
    assert(rom@ =~= rom_image(&assembler.output));
    let ghost image = rom@;
    if config.rom_align > 1 {
        let align = config.rom_align as usize;
        let remainder = rom.len() % align;
        if remainder != 0 {
            let target = rom.len() + (align - remainder);
            while rom.len() < target
                invariant
                    image.len() <= rom@.len() <= target,
                    target == image.len() + (align - (image.len() as int) % (align as int)),
                    forall|i: int| 0 <= i < image.len() ==> rom@[i] == image[i],
                    forall|i: int| image.len() <= i < rom@.len() ==> rom@[i] == 0u8,
                decreases target - rom@.len(),
            {
                rom.push(0);
            }
        }
    }
    rom
}

/// The start address of the ROM: the lowest address written, or 0.
pub fn rom_start_address(assembler: &Assembler) -> (r: u16)
    ensures
        r == match assembler.output.lowest() {
            Some(a) => a,
            None => 0u16,
        },
{
    match assembler.output.min_addr() {
        Some(a) => a,
        None => 0,
    }
}

// ---- listing ----

/// `s` padded with spaces on the right to `width` characters.
pub open spec fn pad_right(s: Seq<char>, width: int) -> Seq<char> {
    if s.len() >= width {
        s
    } else {
        s + Seq::new((width - s.len()) as nat, |i: int| ' ')
    }
}

/// `s` padded with spaces on the left to `width` characters.
pub open spec fn pad_left(s: Seq<char>, width: int) -> Seq<char> {
    if s.len() >= width {
        s
    } else {
        Seq::new((width - s.len()) as nat, |i: int| ' ') + s
    }
}

pub open spec fn spaces(n: nat) -> Seq<char> {
    Seq::new(n, |i: int| ' ')
}

/// The byte shown at `addr` (0 where nothing was written).
pub open spec fn shown_byte(out: &OutputBuffer, addr: u16) -> u8 {
    match out.byte(addr) {
        Some(b) => b,
        None => 0u8,
    }
}

/// The first `n` bytes from `addr` as two-digit hex numbers separated by spaces.
pub open spec fn hex_bytes(out: &OutputBuffer, addr: u16, n: nat) -> Seq<char>
    decreases n,
{
    if n == 0 {
        Seq::empty()
    } else if n == 1 {
        hex_fixed(shown_byte(out, addr) as nat, 2)
    } else {
        hex_bytes(out, addr, (n - 1) as nat) + seq![' '] + hex_fixed(
            shown_byte(out, wrap_addr(addr, n - 1)) as nat,
            2,
        )
    }
}

/// A listing row for a source line that produced nothing.
pub open spec fn source_only_row(line_num: usize, text: Seq<char>) -> Seq<char> {
    spaces(7) + spaces(24) + seq![' '] + pad_left(dec_digits(line_num as nat), 5) + seq![' ', ' '] + text + seq!['\n']
}

/// Whether a line is a `.storage` directive (its address is listed even
/// without bytes).
pub open spec fn is_storage_text(text: Seq<char>) -> bool {
    starts_at(upper_seq(text.subrange(skip_spaces_from(text, 0), text.len() as int)), 0, ".STORAGE"@)
}

/// A listing row: address, up to 8 bytes (`+` when there are more), line
/// number and text.
pub open spec fn listing_row(out: &OutputBuffer, e: ListingLine, line_num: usize, text: Seq<char>) -> Seq<char> {
    let addr_str = if e.byte_count > 0 || is_storage_text(text) {
        hex_fixed(e.addr as nat, 4)
    } else {
        spaces(4)
    };
    let bytes_str = if e.byte_count > 0 {
        let shown = if e.byte_count < LISTING_MAX_BYTES { e.byte_count } else { LISTING_MAX_BYTES };
        let hex = hex_bytes(out, e.addr, shown as nat);
        if e.byte_count > LISTING_MAX_BYTES {
            pad_right(hex, 23) + seq!['+']
        } else {
            pad_right(hex, 24)
        }
    } else {
        spaces(24)
    };
    addr_str + spaces(3) + bytes_str + seq![' '] + pad_left(dec_digits(line_num as nat), 5) + seq![' ', ' '] + text
        + seq!['\n']
}

proof fn lemma_skip_leading_spaces(text: Seq<char>, i: int, k: int)
    requires
        0 <= i <= k < text.len(),
        forall|x: int| 0 <= x < k ==> text[x] == ' ',
        !crate::text::spec_is_space(text[k]),
    ensures
        skip_spaces_from(text, i) == k,
    decreases k - i,
{
    if i < k {
        lemma_skip_leading_spaces(text, i + 1, k);
    }
}

/// A listing row for a `.storage` line (the directive's name in any case,
/// after leading spaces) shows the line's address as four hex digits, even
/// when the line wrote no bytes.
pub proof fn law_storage_rows_show_their_address(
    out: &OutputBuffer,
    e: ListingLine,
    line_num: usize,
    text: Seq<char>,
    k: int,
)
    requires
        0 <= k,
        k + 8 <= text.len(),
        forall|i: int| 0 <= i < k ==> text[i] == ' ',
        upper_seq(text.subrange(k, k + 8)) == seq!['.', 'S', 'T', 'O', 'R', 'A', 'G', 'E'],
    ensures
        listing_row(out, e, line_num, text).subrange(0, 4) == hex_fixed(e.addr as nat, 4),
{
    reveal_strlit(".STORAGE");
    assert(upper_seq(text.subrange(k, k + 8))[0] == '.');
    assert(text.subrange(k, k + 8)[0] == text[k]);
    assert(text[k] == '.');
    lemma_skip_leading_spaces(text, 0, k);
    let rest = upper_seq(text.subrange(k, text.len() as int));
    assert(rest.subrange(0, 8) =~= upper_seq(text.subrange(k, k + 8)));
    assert(".STORAGE"@ =~= seq!['.', 'S', 'T', 'O', 'R', 'A', 'G', 'E']);
    assert(is_storage_text(text));
    crate::text::lemma_hex_fixed_len(e.addr as nat, 4);
    let row = listing_row(out, e, line_num, text);
    assert(row.subrange(0, 4) =~= hex_fixed(e.addr as nat, 4));
}

proof fn lemma_hex_bytes_start(out: &OutputBuffer, addr: u16, n: nat)
    requires
        n >= 1,
    ensures
        hex_bytes(out, addr, n).len() >= 2,
        hex_bytes(out, addr, n).subrange(0, 2) == hex_fixed(shown_byte(out, addr) as nat, 2),
    decreases n,
{
    crate::text::lemma_hex_fixed_len(shown_byte(out, addr) as nat, 2);
    if n > 1 {
        lemma_hex_bytes_start(out, addr, (n - 1) as nat);
        let h = hex_bytes(out, addr, (n - 1) as nat);
        crate::text::lemma_hex_fixed_len(shown_byte(out, wrap_addr(addr, n - 1)) as nat, 2);
        let full = h + seq![' '] + hex_fixed(shown_byte(out, wrap_addr(addr, n - 1)) as nat, 2);
        assert(full.subrange(0, 2) =~= h.subrange(0, 2));
    } else {
        assert(hex_bytes(out, addr, n).subrange(0, 2) =~= hex_fixed(shown_byte(out, addr) as nat, 2));
    }
}

/// A listing row for a line that wrote bytes shows the line's address as
/// four hex digits, three spaces, and then the first byte written there as
/// two hex digits.
pub proof fn law_byte_rows_show_address_and_first_byte(
    out: &OutputBuffer,
    e: ListingLine,
    line_num: usize,
    text: Seq<char>,
)
    requires
        e.byte_count > 0,
    ensures
        listing_row(out, e, line_num, text).subrange(0, 4) == hex_fixed(e.addr as nat, 4),
        listing_row(out, e, line_num, text).subrange(4, 7) == seq![' ', ' ', ' '],
        listing_row(out, e, line_num, text).subrange(7, 9) == hex_fixed(shown_byte(out, e.addr) as nat, 2),
{
    crate::text::lemma_hex_fixed_len(e.addr as nat, 4);
    let shown = if e.byte_count < LISTING_MAX_BYTES { e.byte_count } else { LISTING_MAX_BYTES };
    lemma_hex_bytes_start(out, e.addr, shown as nat);
    let hex = hex_bytes(out, e.addr, shown as nat);
    let bytes_str = if e.byte_count > LISTING_MAX_BYTES {
        pad_right(hex, 23) + seq!['+']
    } else {
        pad_right(hex, 24)
    };
    assert(bytes_str.len() >= 2);
    assert(bytes_str.subrange(0, 2) =~= hex.subrange(0, 2));
    let row = listing_row(out, e, line_num, text);
    assert(row.subrange(0, 4) =~= hex_fixed(e.addr as nat, 4));
    assert(row.subrange(4, 7) =~= seq![' ', ' ', ' ']);
    assert(row.subrange(7, 9) =~= bytes_str.subrange(0, 2));
}

/// The heading of a listing.
pub open spec fn listing_header() -> Seq<char> {
    "ADDR   BYTES                    SOURCE\n"@
}

/// The rows of the listing entries `es`, each with its own line number and text.
pub open spec fn entry_rows(out: &OutputBuffer, es: Seq<ListingLine>) -> Seq<char>
    decreases es.len(),
{
    if es.len() == 0 {
        Seq::empty()
    } else {
        entry_rows(out, es.drop_last()) + listing_row(out, es.last(), es.last().line_num, es.last().text@)
    }
}

fn push_spaces(out: &mut String, n: usize)
    ensures
        final(out)@ == old(out)@ + spaces(n as nat),
{
    let mut i: usize = 0;
    while i < n
        invariant
            i <= n,
            out@ == old(out)@ + spaces(i as nat),
        decreases n - i,
    {
        push_chars(out, &[' ']);
        i += 1;
        assert(out@ =~= old(out)@ + spaces(i as nat));
    }
}

fn push_padded_left(out: &mut String, s: &[char], width: usize)
    ensures
        final(out)@ == old(out)@ + pad_left(s@, width as int),
{
    if s.len() < width {
        push_spaces(out, width - s.len());
    }
    push_chars(out, s);
    assert(out@ =~= old(out)@ + pad_left(s@, width as int));
}

fn push_padded_right(out: &mut String, s: &[char], width: usize)
    ensures
        final(out)@ == old(out)@ + pad_right(s@, width as int),
{
    push_chars(out, s);
    if s.len() < width {
        push_spaces(out, width - s.len());
    }
    assert(out@ =~= old(out)@ + pad_right(s@, width as int));
}

/// Format a source-only line (no address/bytes)
fn format_source_only(out: &mut String, line_num: usize, text: &str)
    ensures
        final(out)@ == old(out)@ + source_only_row(line_num, text@),
{
    push_spaces(out, 7);
    push_spaces(out, 24);
    push_chars(out, &[' ']);
    push_padded_left(out, &fmt_dec(line_num as u64), 5);
    push_chars(out, &[' ', ' ']);
    push_chars(out, &chars_of(text));
    push_chars(out, &['\n']);
    assert(out@ =~= old(out)@ + source_only_row(line_num, text@));
}

fn hex_bytes_exec(output: &OutputBuffer, addr: u16, n: usize) -> (r: Vec<char>)
    requires
        output.wf(),
        n <= LISTING_MAX_BYTES,
    ensures
        r@ == hex_bytes(output, addr, n as nat),
{
    let mut r: Vec<char> = Vec::new();
    let mut i: usize = 0;
    while i < n
        invariant
            i <= n <= LISTING_MAX_BYTES,
            output.wf(),
            r@ == hex_bytes(output, addr, i as nat),
        decreases n - i,
    {
        let a = addr.wrapping_add(i as u16);
        assert(a == wrap_addr(addr, i as int));
        assert(i == 0 ==> a == addr);
        let b: u8 = match output.read_byte(a) {
            Some(b) => b,
            None => 0,
        };
        if i > 0 {
            r.push(' ');
        }
        let h = fmt_hex_fixed(b as u64, 2);
        proof { crate::text::lemma_hex_fixed_len(b as nat, 2); }
        let ghost before = r@;
        r.push(h[0]);
        r.push(h[1]);
        proof {
            assert(h@ =~= seq![h@[0], h@[1]]);
            if i == 0 {
                assert(r@ =~= hex_bytes(output, addr, 1));
            } else {
                assert(r@ =~= hex_bytes(output, addr, (i + 1) as nat));
            }
        }
        i += 1;
    }
    r
}

/// Format a listing line with address and bytes
fn format_listing_line(out: &mut String, output: &OutputBuffer, entry: &ListingLine, line_num: usize, text: &str)
    requires
        output.wf(),
    ensures
        final(out)@ == old(out)@ + listing_row(output, *entry, line_num, text@),
{
    proof { reveal_strlit(".STORAGE"); }
    let t = chars_of(text);
    let start = skip_spaces(&t);
    let rest = upper_vec(&sub_chars(&t, start, t.len()));
    let is_storage = starts_with_at(&rest, 0, &chars_of(".STORAGE"));
    if entry.byte_count > 0 || is_storage {
        push_chars(out, &fmt_hex_fixed(entry.addr as u64, 4));
    } else {
        push_spaces(out, 4);
    }
    push_spaces(out, 3);
    if entry.byte_count > 0 {
        let shown = if entry.byte_count < LISTING_MAX_BYTES { entry.byte_count } else { LISTING_MAX_BYTES };
        let hex = hex_bytes_exec(output, entry.addr, shown);
        if entry.byte_count > LISTING_MAX_BYTES {
            push_padded_right(out, &hex, 23);
            push_chars(out, &['+']);
        } else {
            push_padded_right(out, &hex, 24);
        }
    } else {
        push_spaces(out, 24);
    }
    push_chars(out, &[' ']);
    push_padded_left(out, &fmt_dec(line_num as u64), 5);
    push_chars(out, &[' ', ' ']);
    push_chars(out, &t);
    push_chars(out, &['\n']);
    assert(out@ =~= old(out)@ + listing_row(output, *entry, line_num, text@));
}

/// The index of the first non-space character of `s`.
fn skip_spaces(s: &[char]) -> (r: usize)
    ensures
        r == skip_spaces_from(s@, 0),
        r <= s@.len(),
{
    let mut i: usize = 0;
    while i < s.len() && crate::text::is_space(s[i])
        invariant
            i <= s@.len(),
            skip_spaces_from(s@, i as int) == skip_spaces_from(s@, 0),
        decreases s@.len() - i,
    {
        i += 1;
    }
    i
}

fn sub_chars(v: &[char], a: usize, b: usize) -> (r: Vec<char>)
    requires
        a <= b <= v@.len(),
    ensures
        r@ == v@.subrange(a as int, b as int),
{
    let mut r: Vec<char> = Vec::new();
    let mut i = a;
    while i < b
        invariant
            a <= i <= b <= v@.len(),
            r@ == v@.subrange(a as int, i as int),
        decreases b - i,
    {
        r.push(v[i]);
        i += 1;
        assert(r@ =~= v@.subrange(a as int, i as int));
    }
    r
}

/// Fallback: the listing from the listing entries in order, when the
/// original sources are not available.
fn generate_listing_fallback(assembler: &Assembler) -> (r: String)
    requires
        assembler.inv(),
    ensures
        r@ == listing_header() + entry_rows(&assembler.output, assembler.listing_data@),
{
    let mut out = String::from_str("ADDR   BYTES                    SOURCE\n");
    let mut i: usize = 0;
    while i < assembler.listing_data.len()
        invariant
            i <= assembler.listing_data@.len(),
            assembler.inv(),
            out@ == listing_header() + entry_rows(&assembler.output, assembler.listing_data@.take(i as int)),
        decreases assembler.listing_data@.len() - i,
    {
        let entry = &assembler.listing_data[i];
        let ghost before = out@;
        format_listing_line(&mut out, &assembler.output, entry, entry.line_num, entry.text.as_str());
        assert(assembler.listing_data@.take(i + 1).drop_last() =~= assembler.listing_data@.take(i as int));
        i += 1;
    }
    assert(assembler.listing_data@.take(assembler.listing_data@.len() as int) =~= assembler.listing_data@);
    out
}

// ---- listing from the original sources ----

/// Whether a listing entry belongs to line `n` of `file`.
pub open spec fn entry_of(e: ListingLine, file: Seq<char>, n: usize) -> bool {
    e.file@ == file && e.line_num == n
}

/// Whether an entry from `i` on belongs to line `n` of `file`.
pub open spec fn any_entry_from(es: Seq<ListingLine>, i: int, file: Seq<char>, n: usize) -> bool
    decreases es.len() - i,
{
    if i < 0 || i >= es.len() {
        false
    } else {
        entry_of(es[i], file, n) || any_entry_from(es, i + 1, file, n)
    }
}

/// The first entry from `i` on of line `n` of `file` that is not from a
/// macro expansion.
pub open spec fn primary_from(es: Seq<ListingLine>, i: int, file: Seq<char>, n: usize) -> Option<ListingLine>
    decreases es.len() - i,
{
    if i < 0 || i >= es.len() {
        None
    } else if entry_of(es[i], file, n) && !es[i].macro_expansion {
        Some(es[i])
    } else {
        primary_from(es, i + 1, file, n)
    }
}

/// The rows of the macro-expansion entries from `i` on of line `n` of `file`.
pub open spec fn macro_rows_from(out: &OutputBuffer, es: Seq<ListingLine>, i: int, file: Seq<char>, n: usize) -> Seq<
    char,
>
    decreases es.len() - i,
{
    if i < 0 || i >= es.len() {
        Seq::empty()
    } else {
        let here = if entry_of(es[i], file, n) && es[i].macro_expansion {
            listing_row(out, es[i], n, es[i].text@)
        } else {
            Seq::empty()
        };
        here + macro_rows_from(out, es, i + 1, file, n)
    }
}

/// The rows of one source line and whether a macro definition is open
/// after it.
pub open spec fn source_line_rows(
    out: &OutputBuffer,
    es: Seq<ListingLine>,
    file: Seq<char>,
    n: usize,
    text: Seq<char>,
    in_macro: bool,
) -> (Seq<char>, bool) {
    let tu = upper_seq(trim_seq(text));
    if starts_at(tu, 0, ".MACRO"@) && !starts_at(tu, 0, ".MACRO_"@) {
        (source_only_row(n, text), true)
    } else if in_macro {
        (source_only_row(n, text), tu != ".ENDMACRO"@)
    } else if starts_at(tu, 0, ".INCLUDE"@) {
        (source_only_row(n, text), false)
    } else if !any_entry_from(es, 0, file, n) {
        (source_only_row(n, text), false)
    } else {
        (match primary_from(es, 0, file, n) {
            Some(p) => listing_row(out, p, n, text),
            None => source_only_row(n, text),
        } + macro_rows_from(out, es, 0, file, n), false)
    }
}

/// The rows of the lines of `file` from line index `k` on.
pub open spec fn file_rows(
    out: &OutputBuffer,
    es: Seq<ListingLine>,
    file: Seq<char>,
    lines: Seq<String>,
    k: int,
    in_macro: bool,
) -> Seq<char>
    decreases lines.len() - k,
{
    if k < 0 || k >= lines.len() {
        Seq::empty()
    } else {
        let (rows, open) = source_line_rows(out, es, file, (k + 1) as usize, lines[k]@, in_macro);
        rows + file_rows(out, es, file, lines, k + 1, open)
    }
}

/// The listing part of source file `i`: a blank line between files, the
/// file's name, then its rows.
pub open spec fn source_part(out: &OutputBuffer, es: Seq<ListingLine>, src: OriginalSource, i: int) -> Seq<char> {
    (if i > 0 {
        seq!['\n']
    } else {
        Seq::empty()
    }) + "--- "@ + src.file@ + " ---\n"@ + file_rows(out, es, src.file@, src.lines@, 0, false)
}

pub open spec fn sources_listing(out: &OutputBuffer, es: Seq<ListingLine>, srcs: Seq<OriginalSource>) -> Seq<char>
    decreases srcs.len(),
{
    if srcs.len() == 0 {
        Seq::empty()
    } else {
        sources_listing(out, es, srcs.drop_last()) + source_part(out, es, srcs.last(), srcs.len() - 1)
    }
}

/// The listing text: from the original sources when there are any (macro
/// definitions and includes as source only, each line with its address and
/// bytes, then its macro expansion), else from the listing entries.
pub open spec fn listing_text(assembler: &Assembler) -> Seq<char> {
    if assembler.original_sources@.len() == 0 {
        listing_header() + entry_rows(&assembler.output, assembler.listing_data@)
    } else {
        listing_header() + sources_listing(&assembler.output, assembler.listing_data@, assembler.original_sources@)
    }
}

fn any_entry(es: &Vec<ListingLine>, file: &String, n: usize) -> (r: bool)
    ensures
        r == any_entry_from(es@, 0, file@, n),
{
    let mut i: usize = 0;
    while i < es.len()
        invariant
            i <= es@.len(),
            any_entry_from(es@, 0, file@, n) == any_entry_from(es@, i as int, file@, n),
        decreases es@.len() - i,
    {
        if es[i].line_num == n && es[i].file == *file {
            return true;
        }
        i += 1;
    }
    false
}

fn primary_entry(es: &Vec<ListingLine>, file: &String, n: usize) -> (r: Option<usize>)
    ensures
        r matches Some(i) ==> i < es@.len() && primary_from(es@, 0, file@, n) == Some(es@[i as int]),
        r is None ==> primary_from(es@, 0, file@, n) is None,
{
    let mut i: usize = 0;
    while i < es.len()
        invariant
            i <= es@.len(),
            primary_from(es@, 0, file@, n) == primary_from(es@, i as int, file@, n),
        decreases es@.len() - i,
    {
        if es[i].line_num == n && es[i].file == *file && !es[i].macro_expansion {
            return Some(i);
        }
        i += 1;
    }
    None
}

fn push_macro_rows(out: &mut String, output: &OutputBuffer, es: &Vec<ListingLine>, file: &String, n: usize)
    requires
        output.wf(),
    ensures
        final(out)@ == old(out)@ + macro_rows_from(output, es@, 0, file@, n),
{
    let mut i: usize = 0;
    while i < es.len()
        invariant
            i <= es@.len(),
            output.wf(),
            old(out)@ + macro_rows_from(output, es@, 0, file@, n) == out@ + macro_rows_from(output, es@, i as int, file@, n),
        decreases es@.len() - i,
    {
        let ghost before = out@;
        if es[i].line_num == n && es[i].file == *file && es[i].macro_expansion {
            format_listing_line(out, output, &es[i], n, es[i].text.as_str());
        }
        proof {
            let here = out@.subrange(before.len() as int, out@.len() as int);
            assert(out@ =~= before + here);
            assert(before + (here + macro_rows_from(output, es@, i + 1, file@, n)) =~= out@ + macro_rows_from(
                output,
                es@,
                i + 1,
                file@,
                n,
            ));
        }
        i += 1;
    }
    assert(out@ + Seq::<char>::empty() =~= out@);
}

fn chars_are(v: &[char], w: &str) -> (r: bool)
    ensures
        r == (v@ == w@),
{
    crate::text::chars_eq(v, &chars_of(w))
}

/// Appends the rows of one source line; returns whether a macro definition
/// is open after it.
fn push_source_line(
    out: &mut String,
    output: &OutputBuffer,
    es: &Vec<ListingLine>,
    file: &String,
    n: usize,
    text: &String,
    in_macro: bool,
) -> (open: bool)
    requires
        output.wf(),
    ensures
        ({
            let (rows, o) = source_line_rows(output, es@, file@, n, text@, in_macro);
            &&& final(out)@ == old(out)@ + rows
            &&& open == o
        }),
{
    proof {
        reveal_strlit(".MACRO");
        reveal_strlit(".MACRO_");
        reveal_strlit(".ENDMACRO");
        reveal_strlit(".INCLUDE");
    }
    let tu = upper_vec(&trim_vec(&chars_of(text.as_str())));
    if starts_with_at(&tu, 0, &chars_of(".MACRO")) && !starts_with_at(&tu, 0, &chars_of(".MACRO_")) {
        format_source_only(out, n, text.as_str());
        return true;
    }
    if in_macro {
        format_source_only(out, n, text.as_str());
        return !chars_are(&tu, ".ENDMACRO");
    }
    if starts_with_at(&tu, 0, &chars_of(".INCLUDE")) {
        format_source_only(out, n, text.as_str());
        return false;
    }
    if !any_entry(es, file, n) {
        format_source_only(out, n, text.as_str());
        return false;
    }
    match primary_entry(es, file, n) {
        Some(i) => format_listing_line(out, output, &es[i], n, text.as_str()),
        None => format_source_only(out, n, text.as_str()),
    }
    let ghost mid = out@;
    push_macro_rows(out, output, es, file, n);
    false
}

/// Generate listing file content from assembled data.
///
/// If original sources are available, walks through them to produce the listing
/// with proper file headers and directive lines. Otherwise falls back to
/// listing_data order.
pub fn generate_listing(assembler: &Assembler) -> (r: String)
    requires
        assembler.inv(),
    ensures
        r@ == listing_text(assembler),
{
    if assembler.original_sources.len() == 0 {
        return generate_listing_fallback(assembler);
    }
    let mut out = String::from_str("ADDR   BYTES                    SOURCE\n");
    let srcs = &assembler.original_sources;
    let mut f: usize = 0;
    while f < srcs.len()
        invariant
            f <= srcs@.len(),
            assembler.inv(),
            srcs == &assembler.original_sources,
            out@ == listing_header() + sources_listing(&assembler.output, assembler.listing_data@, srcs@.take(f as int)),
        decreases srcs@.len() - f,
    {
        let source = &srcs[f];
        let ghost before = out@;
        if f > 0 {
            push_chars(&mut out, &['\n']);
        }
        push_chars(&mut out, &chars_of("--- "));
        push_chars(&mut out, &chars_of(source.file.as_str()));
        push_chars(&mut out, &chars_of(" ---\n"));
        let ghost head = out@;
        let mut in_macro = false;
        let mut k: usize = 0;
        while k < source.lines.len()
            invariant
                k <= source.lines@.len(),
                assembler.inv(),
                head + file_rows(&assembler.output, assembler.listing_data@, source.file@, source.lines@, 0, false)
                    == out@ + file_rows(
                    &assembler.output,
                    assembler.listing_data@,
                    source.file@,
                    source.lines@,
                    k as int,
                    in_macro,
                ),
            decreases source.lines@.len() - k,
        {
            let ghost before_line = out@;
            let n = k + 1;
            in_macro = push_source_line(
                &mut out,
                &assembler.output,
                &assembler.listing_data,
                &source.file,
                n,
                &source.lines[k],
                in_macro,
            );
            proof {
                let rows = out@.subrange(before_line.len() as int, out@.len() as int);
                assert(out@ =~= before_line + rows);
                assert(before_line + (rows + file_rows(
                    &assembler.output,
                    assembler.listing_data@,
                    source.file@,
                    source.lines@,
                    k + 1,
                    in_macro,
                )) =~= out@ + file_rows(
                    &assembler.output,
                    assembler.listing_data@,
                    source.file@,
                    source.lines@,
                    k + 1,
                    in_macro,
                ));
            }
            k += 1;
        }
        proof {
            assert(out@ + Seq::<char>::empty() =~= out@);
            assert(srcs@.take(f + 1).drop_last() =~= srcs@.take(f as int));
            assert(srcs@.take(f + 1).last() == srcs@[f as int]);
            assert(out@ =~= listing_header() + sources_listing(
                &assembler.output,
                assembler.listing_data@,
                srcs@.take(f + 1),
            ));
        }
        f += 1;
    }
    assert(srcs@.take(srcs@.len() as int) =~= srcs@);
    out
}

} // verus!
