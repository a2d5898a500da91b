use v6_core::assembler::{Assembler, OutputBuffer};
use v6_core::instructions::CpuMode;
use v6_core::output::{generate_listing, generate_rom, rom_start_address, RomConfig};
use v6_core::preprocessor::{preprocess, SourceFiles};
use v6_core::symbols::SymbolTable;

/// Preprocesses and assembles `src` as `/proj/main.asm`.
fn build(src: &str) -> Result<Assembler, String> {
    build_with(src, CpuMode::I8080, |_| {})
}

fn build_with(src: &str, cpu: CpuMode, setup: impl Fn(&mut Assembler)) -> Result<Assembler, String> {
    let mut files = SourceFiles::new();
    files.add("/proj/main.asm", src);
    let mut symbols = SymbolTable::new();
    let lines = preprocess("/proj/main.asm", "/proj", &mut symbols, &files).map_err(|e| e.message)?;
    let mut built = Assembler::new(cpu, "/proj");
    built.symbols = symbols;
    setup(&mut built);
    built.assemble(&lines).map_err(|e| e.message)?;
    Ok(built)
}

fn rom_of(src: &str) -> Vec<u8> {
    let built = build(src).unwrap();
    generate_rom(&built, &RomConfig { rom_align: 1 })
}

#[test]
fn assembles_simple_program() {
    let built = build(".org 0x100\n    mvi a, 5\n    hlt\n").unwrap();
    assert_eq!(rom_start_address(&built), 0x100);
    assert_eq!(generate_rom(&built, &RomConfig::default()), vec![0x3E, 0x05, 0x76]);
}

#[test]
fn resolves_forward_label() {
    let rom = rom_of(".org 0x100\n    jmp done\n    nop\ndone:\n    hlt\n");
    assert_eq!(rom, vec![0xC3, 0x04, 0x01, 0x00, 0x76]);
}

#[test]
fn immediate_16_bit_is_little_endian() {
    let rom = rom_of("    lxi h, 0x1234\n");
    assert_eq!(rom, vec![0x21, 0x34, 0x12]);
}

#[test]
fn constants_and_equ() {
    let rom = rom_of("VALUE = 7\nOTHER EQU VALUE + 1\n    mvi a, VALUE\n    mvi b, OTHER\n");
    assert_eq!(rom, vec![0x3E, 0x07, 0x06, 0x08]);
}

#[test]
fn forward_constant_is_deferred() {
    let rom = rom_of("FIRST = SECOND * 2\nSECOND = 3\n    mvi a, FIRST\n");
    assert_eq!(rom, vec![0x3E, 0x06]);
}

#[test]
fn data_directives() {
    let rom = rom_of(".byte 1, 2, 3\n.word 0x1234\n.dword 0x01020304\n");
    assert_eq!(rom, vec![1, 2, 3, 0x34, 0x12, 0x04, 0x03, 0x02, 0x01]);
}

#[test]
fn db_dw_mnemonics() {
    let rom = rom_of("    db 0xAA, 0xBB\n    dw 0x0102\n");
    assert_eq!(rom, vec![0xAA, 0xBB, 0x02, 0x01]);
}

#[test]
fn loop_repeats_its_body() {
    let rom = rom_of(".loop 3\n    nop\n.endloop\n    hlt\n");
    assert_eq!(rom, vec![0, 0, 0, 0x76]);
}

#[test]
fn empty_loop_emits_nothing() {
    let rom = rom_of("    nop\n.loop 0\n    hlt\n.endloop\n    nop\n");
    assert_eq!(rom, vec![0, 0]);
}

#[test]
fn if_skips_false_block() {
    let rom = rom_of(".if 0\n    nop\n.endif\n.if 1\n    hlt\n.endif\n");
    assert_eq!(rom, vec![0x76]);
}

#[test]
fn missing_endif_is_an_error() {
    let err = build(".if 1\n    nop\n").err().unwrap();
    assert_eq!(err, "Missing .endif");
}

#[test]
fn negative_loop_count_is_an_error() {
    let err = build(".loop -1\n    nop\n.endloop\n").err().unwrap();
    assert_eq!(err, "Loop count must be non-negative");
}

#[test]
fn too_many_loop_iterations_is_an_error() {
    let err = build(".loop 100001\n    nop\n.endloop\n").err().unwrap();
    assert_eq!(err, "Loop iteration count exceeded 100000");
}

#[test]
fn macro_expansion_substitutes_parameters() {
    let rom = rom_of(".macro SetA(v)\n    mvi a, v\n.endmacro\n    SetA(7)\n    SetA(9)\n");
    assert_eq!(rom, vec![0x3E, 7, 0x3E, 9]);
}

#[test]
fn macro_default_parameter() {
    let rom = rom_of(".macro SetColor(col=7)\n    mvi a, col\n.endmacro\n    SetColor()\n");
    assert_eq!(rom, vec![0x3E, 7]);
}

#[test]
fn missing_macro_argument_is_an_error() {
    let err = build(".macro Need(x)\n    mvi a, x\n.endmacro\n    Need()\n").err().unwrap();
    assert_eq!(err, "Missing argument 'x' for macro 'Need'");
}

#[test]
fn duplicate_macro_parameter_is_an_error() {
    let err = build(".macro Dup(a, A)\n    nop\n.endmacro\n").err().unwrap();
    assert_eq!(err, "Duplicate parameter 'A' in macro 'Dup'");
}

#[test]
fn local_labels_are_scoped() {
    let rom = rom_of("first:\n@l:\n    jmp @l\nsecond:\n@l:\n    jmp @l\n");
    assert_eq!(rom, vec![0xC3, 0x00, 0x00, 0xC3, 0x03, 0x00]);
}

#[test]
fn align_pads_with_zeros() {
    let rom = rom_of(".org 0x101\n    nop\n.align 4\n    hlt\n");
    assert_eq!(rom, vec![0x00, 0x00, 0x00, 0x76]);
}

#[test]
fn storage_with_filler() {
    let rom = rom_of(".storage 3, 0xAA\n    hlt\n");
    assert_eq!(rom, vec![0xAA, 0xAA, 0xAA, 0x76]);
}

#[test]
fn text_directive_encodes_strings() {
    let rom = rom_of(".text \"AB\", 'C'\n");
    assert_eq!(rom, vec![0x41, 0x42, 0x43]);
}

#[test]
fn error_directive_stops_assembly() {
    let err = build(".error \"boom\", 1 + 2\n").err().unwrap();
    assert_eq!(err, "boom 3");
}

#[test]
fn print_directive_records_message() {
    let built = build(".print \"value\", 6 * 7\n    nop\n").unwrap();
    assert_eq!(built.printed, vec!["value 42".to_string()]);
}

#[test]
fn quiet_suppresses_print() {
    let built = build_with(".print \"value\"\n", CpuMode::I8080, |a| a.quiet = true).unwrap();
    assert!(built.printed.is_empty());
}

#[test]
fn variables_can_change() {
    let rom = rom_of("count .var 1\n    mvi a, count\ncount = 2\n    mvi b, count\n");
    assert_eq!(rom, vec![0x3E, 1, 0x06, 2]);
}

#[test]
fn redefining_constant_is_an_error() {
    let err = build("C1 = 1\nC1 = 2\n").err().unwrap();
    assert_eq!(err, "Constant 'C1' already defined with different value");
}

#[test]
fn unknown_instruction_is_an_error() {
    let err = build("    frobnicate a\n").err().unwrap();
    assert_eq!(err, "Unknown instruction: FROBNICATE");
}

#[test]
fn unresolved_symbol_is_an_error() {
    let err = build("X1 = Y1\n").err().unwrap();
    assert_eq!(err, "Unresolved symbols: X1");
}

#[test]
fn optional_block_dropped_when_unused() {
    let rom = rom_of("    hlt\n.optional\nUnused:\n    nop\n.endoptional\n");
    assert_eq!(rom, vec![0x76]);
}

#[test]
fn optional_block_kept_when_used() {
    let rom = rom_of("    call Used\n.optional\nUsed:\n    ret\n.endoptional\n");
    assert_eq!(rom, vec![0xCD, 0x03, 0x00, 0xC9]);
}

#[test]
fn incbin_and_filesize_read_data_files() {
    let built = build_with(
        "SIZE .filesize \"data.bin\"\n.incbin \"data.bin\", 1, 2\n    mvi a, SIZE\n",
        CpuMode::I8080,
        |a| a.files.add("/proj/data.bin", vec![9, 8, 7, 6]),
    )
    .unwrap();
    assert_eq!(generate_rom(&built, &RomConfig { rom_align: 1 }), vec![8, 7, 0x3E, 4]);
}

#[test]
fn missing_data_file_is_an_error() {
    let err = build(".incbin \"nothere.bin\"\n").err().unwrap();
    assert_eq!(err, "Cannot find file: nothere.bin");
}

#[test]
fn z80_mnemonics() {
    let built = build_with("    ld a, 5\n    jp 0x1234\n", CpuMode::Z80, |_| {}).unwrap();
    assert_eq!(generate_rom(&built, &RomConfig { rom_align: 1 }), vec![0x3E, 0x05, 0xC3, 0x34, 0x12]);
}

#[test]
fn rom_alignment_pads_image() {
    let built = build("    nop\n    nop\n    nop\n").unwrap();
    let rom = generate_rom(&built, &RomConfig { rom_align: 4 });
    assert_eq!(rom, vec![0, 0, 0, 0]);
    let rom8 = generate_rom(&built, &RomConfig { rom_align: 8 });
    assert_eq!(rom8.len(), 8);
    assert_eq!(rom8.len() % 8, 0);
}

#[test]
fn listing_shows_addresses_and_bytes() {
    let built = build(".org 0x100\n    mvi a, 5\n").unwrap();
    let listing = generate_listing(&built);
    let expected = format!(
        "ADDR   BYTES                    SOURCE\n{}   {} {:>5}  {}\n{}   {:<24} {:>5}  {}\n",
        "    ",
        " ".repeat(24),
        1,
        ".org 0x100",
        "0100",
        "3E 05",
        2,
        "    mvi a, 5"
    );
    assert_eq!(listing, expected);
}

#[test]
fn listing_marks_more_than_eight_bytes() {
    let built = build(".byte 1,2,3,4,5,6,7,8,9\n").unwrap();
    let listing = generate_listing(&built);
    assert!(listing.contains("0000   01 02 03 04 05 06 07 08+     1  .byte 1,2,3,4,5,6,7,8,9\n"));
}

#[test]
fn output_buffer_read_after_write() {
    let mut out = OutputBuffer::new();
    assert_eq!(out.read_byte(0x10), None);
    out.write_byte(0x10, 0xAB);
    out.write_byte(0x20, 0xCD);
    assert_eq!(out.read_byte(0x10), Some(0xAB));
    assert_eq!(out.read_byte(0x11), None);
    assert_eq!(out.min_addr(), Some(0x10));
    assert_eq!(out.max_addr(), Some(0x20));
    assert_eq!(out.write_count(), 2);
    let rom = out.extract_rom();
    assert_eq!(rom.len(), 0x11);
    assert_eq!(rom[0], 0xAB);
    assert_eq!(rom[1], 0);
    assert_eq!(rom[0x10], 0xCD);
}

#[test]
fn output_buffer_write_bytes_wraps() {
    let mut out = OutputBuffer::new();
    out.write_bytes(0xFFFF, &[1, 2]);
    assert_eq!(out.read_byte(0xFFFF), Some(1));
    assert_eq!(out.read_byte(0), Some(2));
}

#[test]
fn empty_output_gives_empty_rom() {
    let out = OutputBuffer::new();
    assert!(out.extract_rom().is_empty());
    let built = build("").unwrap();
    assert_eq!(rom_start_address(&built), 0);
    assert!(generate_rom(&built, &RomConfig { rom_align: 16 }).is_empty());
}
