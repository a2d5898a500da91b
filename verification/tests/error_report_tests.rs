use v6_core::assembler::{Assembler, OutputBuffer};
use v6_core::diagnostics::AsmError;
use v6_core::expr::Expr;
use v6_core::instructions::CpuMode;
use v6_core::preprocessor::{collect_macros, expand_macro, preprocess, SourceFiles, SourceLine};
use v6_core::symbols::{MacroDef, MacroParam, SymbolTable};

/// Preprocesses and assembles `src` as `/proj/main.asm`, keeping the error.
fn assemble_err(src: &str) -> AsmError {
    let mut files = SourceFiles::new();
    files.add("/proj/main.asm", src);
    let mut symbols = SymbolTable::new();
    let lines = match preprocess("/proj/main.asm", "/proj", &mut symbols, &files) {
        Ok(l) => l,
        Err(e) => return e,
    };
    let mut built = Assembler::new(CpuMode::I8080, "/proj");
    built.symbols = symbols;
    built.assemble(&lines).err().unwrap()
}

/// Whether `e` is located at the start of `line` of the main file, which
/// locations name relative to the project directory.
fn located_at(e: &AsmError, line: usize) -> bool {
    match &e.location {
        Some(l) => l.file == "main.asm" && l.line == line && l.col == 0,
        None => false,
    }
}

/// Whether `e` is located at the start of `line` of the file the lines of a
/// direct call were given with.
fn located_in_lines_at(e: &AsmError, line: usize) -> bool {
    match &e.location {
        Some(l) => l.file == "/proj/main.asm" && l.line == line && l.col == 0,
        None => false,
    }
}

fn line(text: &str, n: usize) -> SourceLine {
    SourceLine { file: "/proj/main.asm".to_string(), line_num: n, text: text.to_string(), macro_context: None }
}

#[test]
fn negative_loop_count_is_reported_at_the_loop_line() {
    let e = assemble_err("    nop\n.loop -2\n    nop\n.endloop\n");
    assert_eq!(e.message, "Loop count must be non-negative");
    assert!(located_at(&e, 2));
}

#[test]
fn loop_count_over_the_limit_is_reported_at_the_loop_line() {
    let e = assemble_err("    nop\n    nop\n.loop 100000 + 1\n.endloop\n");
    assert_eq!(e.message, "Loop iteration count exceeded 100000");
    assert!(located_at(&e, 3));
}

#[test]
fn loop_count_at_the_limit_is_accepted() {
    let mut files = SourceFiles::new();
    files.add("/proj/main.asm", ".loop 100000\n.endloop\n    hlt\n");
    let mut symbols = SymbolTable::new();
    let lines = preprocess("/proj/main.asm", "/proj", &mut symbols, &files).unwrap();
    let mut built = Assembler::new(CpuMode::I8080, "/proj");
    built.symbols = symbols;
    assert!(built.assemble(&lines).is_ok());
}

#[test]
fn missing_end_directive_is_reported_at_the_opening_line() {
    let e = assemble_err("    nop\n    nop\n.loop 2\n    nop\n");
    assert_eq!(e.message, "Missing .endloop");
    assert!(located_at(&e, 3));
    let e = assemble_err(".optional\n    nop\n");
    assert_eq!(e.message, "Missing .endoptional");
    assert!(located_at(&e, 1));
}

#[test]
fn loop_error_inside_a_macro_keeps_its_line() {
    let e = assemble_err(".macro Rep(n)\n.loop n\n.endloop\n.endmacro\n    Rep(-1)\n");
    assert_eq!(e.message, "Loop count must be non-negative");
    assert!(e.location.is_some());
}

#[test]
fn unresolved_symbols_are_listed_in_order() {
    let e = assemble_err("FIRST = MISSING + 1\nSECOND = FIRST * 2\nTHIRD = 3\n");
    assert_eq!(e.message, "Unresolved symbols: FIRST, SECOND");
    assert!(e.location.is_none());
}

#[test]
fn unknown_directive_is_named() {
    let e = assemble_err("    nop\n.frobnicate 1\n");
    assert_eq!(e.message, "Unknown directive: .FROBNICATE");
}

#[test]
fn duplicate_parameter_is_reported_at_the_header() {
    let mut lines = vec![line("    nop", 1), line(".macro Twice(x, y, X)", 2), line("    nop", 3), line(".endmacro", 4)];
    let mut symbols = SymbolTable::new();
    let e = collect_macros(&mut lines, &mut symbols).err().unwrap();
    assert_eq!(e.message, "Duplicate parameter 'X' in macro 'Twice'");
    assert!(located_in_lines_at(&e, 2));
    assert_eq!(lines.len(), 4);
}

#[test]
fn duplicate_parameter_compares_unicode_upper_case() {
    let mut lines = vec![line(".macro Umlaut(\u{e4}, \u{c4})", 1), line(".endmacro", 2)];
    let mut symbols = SymbolTable::new();
    let e = collect_macros(&mut lines, &mut symbols).err().unwrap();
    assert_eq!(e.message, "Duplicate parameter '\u{c4}' in macro 'Umlaut'");
    assert!(located_in_lines_at(&e, 1));
}

#[test]
fn first_missing_argument_is_named() {
    let def = MacroDef {
        name: "Pair".to_string(),
        params: vec![
            MacroParam { name: "a".to_string(), default: None },
            MacroParam { name: "b".to_string(), default: Some("1".to_string()) },
            MacroParam { name: "c".to_string(), default: None },
            MacroParam { name: "d".to_string(), default: None },
        ],
        body: vec!["    db a, b, c, d".to_string()],
        file: "/proj/main.asm".to_string(),
        line: 1,
    };
    let e = expand_macro(&def, &["5".to_string(), "".to_string()], 1, "/proj/main.asm", 9).err().unwrap();
    assert_eq!(e.message, "Missing argument 'c' for macro 'Pair'");
    let ok = expand_macro(&def, &["5".to_string(), "".to_string(), "6".to_string(), "7".to_string()], 3, "/proj/main.asm", 9)
        .unwrap();
    assert_eq!(ok.len(), 1);
    assert_eq!(ok[0].text, "    db 5, 1, 6, 7");
    assert_eq!(ok[0].macro_context, Some("Pair_3".to_string()));
}

#[test]
fn symbol_table_errors_name_the_symbol() {
    let mut st = SymbolTable::new();
    st.define_label("start", 0x10, "f.asm", 1).unwrap();
    assert!(st.define_label("START", 0x10, "f.asm", 2).is_ok());
    assert_eq!(st.define_label("Start", 0x20, "f.asm", 3).err().unwrap().message, "Symbol 'Start' already defined");
    st.define_constant("SIZE", 4, "f.asm", 4).unwrap();
    assert!(st.define_constant("size", 4, "f.asm", 5).is_ok());
    assert_eq!(
        st.define_constant("size", 5, "f.asm", 6).err().unwrap().message,
        "Constant 'size' already defined with different value"
    );
    assert_eq!(st.update_variable("SIZE", 9).err().unwrap().message, "Cannot reassign immutable symbol 'SIZE'");
    assert_eq!(st.resolve("SIZE"), Some(4));
    let def = |n: &str| MacroDef { name: n.to_string(), params: vec![], body: vec![], file: "f.asm".to_string(), line: 1 };
    st.define_macro(def("Fill")).unwrap();
    assert_eq!(st.define_macro(def("FILL")).err().unwrap().message, "Macro 'FILL' already defined");
}

#[test]
fn updating_a_variable_keeps_its_expression() {
    let mut st = SymbolTable::new();
    st.define_variable("count", 1, "f.asm", 1).unwrap();
    st.define_constant_deferred("count", Expr::Number(5), "f.asm", 2).unwrap();
    st.update_variable("count", 9).unwrap();
    assert_eq!(st.resolve("COUNT"), Some(9));
    let entry = st.all_globals().iter().find(|g| g.name == "count").unwrap();
    assert!(entry.info.is_mutable);
    assert_eq!(entry.info.line, 2);
    assert!(matches!(entry.info.expr, Some(Expr::Number(5))));
}

#[test]
fn macro_local_symbol_wins_inside_its_scope() {
    let mut st = SymbolTable::new();
    st.define_constant("x", 1, "f.asm", 1).unwrap();
    let prefix = st.begin_macro_expansion("M");
    assert_eq!(prefix, "M_1");
    st.define_macro_local(&prefix, "x", 7, "f.asm", 2);
    assert_eq!(st.resolve("x"), Some(7));
    st.end_macro_expansion();
    assert_eq!(st.resolve("x"), Some(1));
}

#[test]
fn writing_no_bytes_keeps_the_bounds() {
    let mut out = OutputBuffer::new();
    out.write_bytes(0x20, &[]);
    assert_eq!(out.min_addr(), None);
    assert_eq!(out.max_addr(), None);
    out.write_bytes(0x20, &[1, 2]);
    out.write_bytes(0x80, &[]);
    assert_eq!(out.min_addr(), Some(0x20));
    assert_eq!(out.max_addr(), Some(0x21));
}

#[test]
fn writing_bytes_widens_the_bounds() {
    let mut out = OutputBuffer::new();
    out.write_bytes(0x100, &[1]);
    out.write_bytes(0x40, &[2, 3, 4]);
    assert_eq!(out.min_addr(), Some(0x40));
    assert_eq!(out.max_addr(), Some(0x100));
    out.write_bytes(0xFFFF, &[5, 6]);
    assert_eq!(out.min_addr(), Some(0));
    assert_eq!(out.max_addr(), Some(0xFFFF));
    assert_eq!(out.read_byte(0xFFFF), Some(5));
    assert_eq!(out.read_byte(0), Some(6));
    assert_eq!(out.write_count(), 6);
}

#[test]
fn writing_past_the_whole_space_keeps_the_last_byte() {
    let mut out = OutputBuffer::new();
    let mut bytes = vec![0u8; 0x10000];
    bytes.push(0xAB);
    bytes.push(0xCD);
    out.write_bytes(0x10, &bytes);
    assert_eq!(out.read_byte(0x10), Some(0xAB));
    assert_eq!(out.read_byte(0x11), Some(0xCD));
    assert_eq!(out.read_byte(0x12), Some(0));
    assert_eq!(out.min_addr(), Some(0));
    assert_eq!(out.max_addr(), Some(0xFFFF));
}

#[test]
fn undefined_symbol_is_named_in_pass_two() {
    let e = assemble_err("    nop\n    mvi a, NOPE + 1\n");
    assert_eq!(e.message, "Undefined symbol: NOPE");
    assert!(located_at(&e, 2));
}

#[test]
fn redefined_label_is_named_at_its_line() {
    let e = assemble_err("again:\n    nop\nagain:\n    nop\n");
    assert_eq!(e.message, "Symbol 'again' already defined");
    assert!(located_at(&e, 3));
}

#[test]
fn redefined_constant_is_named_at_its_line() {
    let e = assemble_err("LIMIT = 1\nLIMIT = 1\nLIMIT = 2\n");
    assert_eq!(e.message, "Constant 'LIMIT' already defined with different value");
    assert!(located_at(&e, 3));
}

#[test]
fn missing_data_file_is_named() {
    let e = assemble_err("    nop\n.incbin \"missing.bin\"\n");
    assert_eq!(e.message, "Cannot find file: missing.bin");
    assert!(located_at(&e, 2));
}

#[test]
fn org_without_a_value_names_the_symbol() {
    let e = assemble_err(".org START\n");
    assert_eq!(e.message, "Undefined symbol: START");
    assert!(located_at(&e, 1));
}

#[test]
fn unknown_instruction_is_named() {
    let e = assemble_err("    nop\n    mov a\n");
    assert_eq!(e.message, "Invalid operands for instruction: MOV");
    assert!(located_at(&e, 2));
}

/// Preprocesses and assembles `src` as `/proj/main.asm`.
fn assemble_ok(src: &str) -> Assembler {
    let mut files = SourceFiles::new();
    files.add("/proj/main.asm", src);
    let mut symbols = SymbolTable::new();
    let lines = preprocess("/proj/main.asm", "/proj", &mut symbols, &files).unwrap();
    let mut built = Assembler::new(CpuMode::I8080, "/proj");
    built.symbols = symbols;
    built.assemble(&lines).unwrap();
    built
}

#[test]
fn forward_immediates_take_the_room_pass_one_reserved() {
    let built = assemble_ok("    mvi a, LATER\n    lxi h, LATER\nafter:\n    nop\nLATER = 5\n");
    assert_eq!(built.symbols.resolve("after"), Some(5));
    assert_eq!(built.output.read_byte(5), Some(0x00));
    assert_eq!(built.output.read_byte(4), Some(0x00));
    assert_eq!(built.output.read_byte(3), Some(0x05));
}

#[test]
fn forward_data_takes_the_room_pass_one_reserved() {
    let built = assemble_ok(".byte 1, FWD\n.word FWD\n.dword FWD\nmark:\nFWD = 3\n");
    assert_eq!(built.symbols.resolve("mark"), Some(8));
    assert_eq!(built.output.read_byte(1), Some(3));
    assert_eq!(built.output.max_addr(), Some(7));
}

#[test]
fn pass_two_lists_each_line_last() {
    let built = assemble_ok("    nop\n.loop 2\n    hlt\n.endloop\n    nop\n");
    let rows: Vec<usize> = built.listing_data.iter().map(|l| l.line_num).collect();
    assert_eq!(rows, vec![1, 2, 3, 3, 4, 5]);
}

#[test]
fn print_without_a_value_names_the_symbol() {
    let e = assemble_err(".print \"at\", WHERE\n");
    assert_eq!(e.message, "Undefined symbol: WHERE");
    assert!(located_at(&e, 1));
}

#[test]
fn data_error_names_the_first_value_without_one() {
    let e = assemble_err("    nop\n.word 1, FIRST, SECOND\n");
    assert_eq!(e.message, "Undefined symbol: FIRST");
    assert!(located_at(&e, 2));
}

#[test]
fn immediate_without_a_value_is_named() {
    let e = assemble_err("    lxi h, NOWHERE * 2\n");
    assert_eq!(e.message, "Undefined symbol: NOWHERE");
    assert!(located_at(&e, 1));
}

#[test]
fn missing_argument_is_reported_at_the_call() {
    let e = assemble_err(".macro Put(v)\n    mvi a, v\n.endmacro\n    nop\n    Put()\n");
    assert_eq!(e.message, "Missing argument 'v' for macro 'Put'");
    assert!(located_at(&e, 5));
}

#[test]
fn constants_resolve_over_several_rounds() {
    let built = assemble_ok("FIRST = SECOND + 1\nSECOND = THIRD * 2\nTHIRD = 4\n    mvi a, FIRST\n");
    assert_eq!(built.symbols.resolve("FIRST"), Some(9));
    assert_eq!(built.output.read_byte(1), Some(9));
}

#[test]
fn constants_that_wait_on_each_other_are_unresolved() {
    let e = assemble_err("LEFT = RIGHT + 1\nRIGHT = LEFT - 1\nFINE = 2\n");
    assert_eq!(e.message, "Unresolved symbols: LEFT, RIGHT");
}

#[test]
fn unlexable_line_is_reported_by_the_tokenizer() {
    let e = assemble_err("    nop\n    mvi a, ?\n");
    assert_eq!(e.message, "Unexpected character or malformed literal");
    match &e.location {
        Some(l) => {
            assert_eq!(l.file, "main.asm");
            assert_eq!(l.line, 2);
        }
        None => panic!("the error has no location"),
    }
}

#[test]
fn plain_lines_reach_the_same_addresses_in_both_passes() {
    let built = assemble_ok("    jmp END\n    db 1, 2\n    dw END\nEND:\n    hlt\n");
    assert_eq!(built.symbols.resolve("END"), Some(7));
    assert_eq!(built.output.read_byte(7), Some(0x76));
    assert_eq!(built.listing_data.len(), 5);
}

#[test]
fn var_without_a_name_says_so() {
    let e = assemble_err("    nop\n.var\n");
    assert_eq!(e.message, "Expected variable name after .var");
    assert!(located_at(&e, 2));
}
