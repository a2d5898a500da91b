use v6_core::diagnostics::{AsmError, SourceLocation};
use v6_core::encoding::{Encoding, EncodingCase, EncodingType};
use v6_core::expr::{eval_expr, parse_expr_from, Expr};
use v6_core::instructions::{encode_instruction, CpuMode, ParsedOperand, Register, RegisterPair};
use v6_core::lexer::tokenize_line;
use v6_core::parser::{parse_line, Directive, ParsedLine, TextItem};
use v6_core::preprocessor::{
    collect_macros, expand_macro, include_candidates, parse_include_directive, parse_macro_args,
    parse_macro_invocation, parse_macro_params, preprocess, replace_param, strip_multiline_comments, SourceFiles,
    SourceLine,
};
use v6_core::symbols::{MacroDef, MacroParam, SymbolTable};

fn parse(text: &str) -> Vec<ParsedLine> {
    let toks = tokenize_line(text, "t.asm", 1).unwrap();
    parse_line(&toks, CpuMode::I8080).unwrap()
}

fn parse_err(text: &str) -> String {
    let toks = tokenize_line(text, "t.asm", 1).unwrap();
    parse_line(&toks, CpuMode::I8080).err().unwrap().message
}

fn value(text: &str, st: &SymbolTable) -> i64 {
    let toks = tokenize_line(text, "t.asm", 1).unwrap();
    let (e, _) = parse_expr_from(&toks, 0).unwrap();
    eval_expr(&e, st, true, 0x100).unwrap()
}

#[test]
fn parse_empty_line() {
    assert!(matches!(parse("")[..], [ParsedLine::Empty]));
    assert!(matches!(parse("   ; only a comment")[..], [ParsedLine::Empty]));
}

#[test]
fn parse_label_and_instruction() {
    let p = parse("start: mvi a, 5");
    assert_eq!(p.len(), 2);
    assert!(matches!(&p[0], ParsedLine::Label(n) if n == "start"));
    match &p[1] {
        ParsedLine::Instruction { mnemonic, operands, expressions } => {
            assert_eq!(mnemonic, "MVI");
            assert_eq!(operands, &vec![ParsedOperand::Reg(Register::A), ParsedOperand::Imm8]);
            assert_eq!(expressions.len(), 1);
        }
        _ => panic!("expected an instruction"),
    }
}

#[test]
fn parse_register_pair_operands() {
    match &parse("lxi b, 0x1234")[0] {
        ParsedLine::Instruction { operands, .. } => {
            assert_eq!(operands, &vec![ParsedOperand::RegPair(RegisterPair::BC), ParsedOperand::Imm16]);
        }
        _ => panic!("expected an instruction"),
    }
    match &parse("ld (hl), a")[0] {
        ParsedLine::Instruction { operands, .. } => {
            assert_eq!(operands, &vec![ParsedOperand::Memory, ParsedOperand::Reg(Register::A)]);
        }
        _ => panic!("expected an instruction"),
    }
}

#[test]
fn parse_conditional_c() {
    match &parse("jp c, 0x10")[0] {
        ParsedLine::Instruction { operands, .. } => {
            assert_eq!(operands[0], ParsedOperand::Condition(v6_core::instructions::Condition::C));
        }
        _ => panic!("expected an instruction"),
    }
}

#[test]
fn parse_rst_vector() {
    match &parse("rst 7")[0] {
        ParsedLine::Instruction { operands, .. } => assert_eq!(operands, &vec![ParsedOperand::RstNum(7)]),
        _ => panic!("expected an instruction"),
    }
    assert_eq!(parse_err("rst 9"), "RST vector must be 0-7");
}

#[test]
fn parse_constants() {
    assert!(matches!(&parse("SIZE = 10")[0], ParsedLine::ConstDef { name, is_local: false, .. } if name == "SIZE"));
    assert!(matches!(&parse("SIZE: equ 10")[0], ParsedLine::ConstDef { name, is_local: false, .. } if name == "SIZE"));
    assert!(matches!(&parse("@tmp = 3")[0], ParsedLine::ConstDef { name, is_local: true, .. } if name == "tmp"));
    assert!(matches!(&parse("count .var 1")[0], ParsedLine::VarDef { name, .. } if name == "count"));
}

#[test]
fn parse_directives() {
    assert!(matches!(&parse(".org 0x100")[0], ParsedLine::Directive(Directive::Org(Expr::Number(256)))));
    match &parse(".text \"hi\", 'x'")[0] {
        ParsedLine::Directive(Directive::Text(items)) => {
            assert!(matches!(&items[0], TextItem::Str(s) if s == "hi"));
            assert!(matches!(items[1], TextItem::Char('x')));
        }
        _ => panic!("expected .text"),
    }
    match &parse(".macro Draw(x, y = 2)")[0] {
        ParsedLine::Directive(Directive::MacroDef { name, params, body_start }) => {
            assert_eq!(name, "Draw");
            assert_eq!(params.len(), 2);
            assert_eq!(params[1].default.as_deref(), Some("2"));
            assert!(*body_start);
        }
        _ => panic!("expected .macro"),
    }
    assert!(matches!(&parse(".endl")[0], ParsedLine::Directive(Directive::EndLoop)));
    assert!(matches!(&parse(".func")[0], ParsedLine::Directive(Directive::Optional)));
    match &parse(".setting optional, false")[0] {
        ParsedLine::Directive(Directive::Setting(pairs)) => {
            assert_eq!(pairs, &vec![("optional".to_string(), "false".to_string())]);
        }
        _ => panic!("expected .setting"),
    }
}

#[test]
fn parse_directive_errors() {
    assert_eq!(parse_err(".bogus 1"), "Unknown directive: .BOGUS");
    assert_eq!(parse_err(".include 5"), "Expected string");
    assert_eq!(parse_err(".var x 1"), "INTERNAL_VAR_DEF");
    assert_eq!(parse_err("equ 5"), "EQU without a name");
    assert_eq!(parse_err(".macro"), "Expected macro name");
}

#[test]
fn expression_precedence_and_operators() {
    let st = SymbolTable::new();
    assert_eq!(value("1 + 2 * 3", &st), 7);
    assert_eq!(value("(1 + 2) * 3", &st), 9);
    assert_eq!(value("1 << 4 | 1", &st), 17);
    assert_eq!(value("10 / 3", &st), 3);
    assert_eq!(value("10 % 3", &st), 1);
    assert_eq!(value("3 == 3 && 2 < 1", &st), 0);
    assert_eq!(value("*", &st), 0x100);
}

#[test]
fn low_and_high_bytes_make_the_word() {
    let st = SymbolTable::new();
    assert_eq!(value("<0x1234", &st), 0x34);
    assert_eq!(value(">0x1234", &st), 0x12);
    assert_eq!(value(">0x1234 * 256 + <0x1234", &st), 0x1234);
}

#[test]
fn expression_division_by_zero_fails() {
    let st = SymbolTable::new();
    let toks = tokenize_line("1 / 0", "t.asm", 1).unwrap();
    let (e, _) = parse_expr_from(&toks, 0).unwrap();
    assert!(eval_expr(&e, &st, true, 0).is_err());
}

#[test]
fn expression_symbols() {
    let mut st = SymbolTable::new();
    st.define_constant("Base", 0x4000, "t.asm", 1).unwrap();
    assert_eq!(value("base + 1", &st), 0x4001);
}

#[test]
fn encode_instructions() {
    let e = encode_instruction("MOV", &[ParsedOperand::Reg(Register::B), ParsedOperand::Reg(Register::C)], CpuMode::I8080)
        .unwrap();
    assert_eq!(e.bytes, vec![0x41]);
    assert_eq!(e.size, 1);
    let e = encode_instruction("MVI", &[ParsedOperand::Reg(Register::A), ParsedOperand::Imm8], CpuMode::I8080).unwrap();
    assert_eq!(e.bytes, vec![0x3E, 0]);
    assert!(e.has_imm8);
    assert!(encode_instruction("MOV", &[ParsedOperand::Reg(Register::B)], CpuMode::I8080).is_err());
    assert!(encode_instruction("XYZ", &[], CpuMode::I8080).is_err());
}

#[test]
fn text_encodings() {
    let enc = Encoding::default();
    assert_eq!(enc.encode_string("Ab"), vec![0x41, 0x62]);
    let upper = Encoding { encoding_type: EncodingType::Ascii, case: EncodingCase::Upper };
    assert_eq!(upper.encode_string("Ab"), vec![0x41, 0x42]);
    let screen = Encoding { encoding_type: EncodingType::ScreenCodeCommodore, case: EncodingCase::Mixed };
    assert_eq!(screen.encode_char('A'), 1);
    assert_eq!(EncodingType::from_str("ascii"), Some(EncodingType::Ascii));
    assert_eq!(EncodingCase::from_str("LOWER"), Some(EncodingCase::Lower));
    assert_eq!(EncodingCase::from_str("other"), None);
}

#[test]
fn strip_block_comments_keeps_lines() {
    assert_eq!(strip_multiline_comments("a /* x\ny */ b"), "a \n b");
    let text = "one /* two\nthree\nfour */ five\n'/*' six /* seven */\n";
    let stripped = strip_multiline_comments(text);
    assert_eq!(stripped.matches('\n').count(), text.matches('\n').count());
    assert_eq!(stripped, "one \n\n five\n'/*' six \n");
    assert_eq!(strip_multiline_comments("\"/* kept */\""), "\"/* kept */\"");
}

#[test]
fn include_directive_paths() {
    assert_eq!(parse_include_directive("  .include \"lib/util.asm\" ; note"), Some("lib/util.asm".to_string()));
    assert_eq!(parse_include_directive(".INCLUDE 'x.asm'"), Some("x.asm".to_string()));
    assert_eq!(parse_include_directive(".include x.asm"), None);
    assert_eq!(parse_include_directive("nop"), None);
}

#[test]
fn macro_params_and_args() {
    let ps = parse_macro_params("(a, b = 2, c)");
    assert_eq!(ps.len(), 3);
    assert_eq!(ps[0].name, "a");
    assert_eq!(ps[1].name, "b");
    assert_eq!(ps[1].default.as_deref(), Some("2"));
    assert!(parse_macro_params("  ").is_empty());
    assert_eq!(parse_macro_args("1, (2, 3), \"a,b\""), vec!["1", "(2, 3)", "\"a,b\""]);
    assert!(parse_macro_args("").is_empty());
}

#[test]
fn replace_whole_words_only() {
    assert_eq!(replace_param("mvi a, val ; valx", "val", "5"), "mvi a, 5 ; valx");
    assert_eq!(replace_param("db \"val\", val", "val", "1"), "db \"val\", 1");
}

#[test]
fn macro_invocation_and_expansion() {
    let mut st = SymbolTable::new();
    let def = MacroDef {
        name: "Put".to_string(),
        params: vec![MacroParam { name: "v".to_string(), default: Some("9".to_string()) }],
        body: vec!["    mvi a, v".to_string()],
        file: "m.asm".to_string(),
        line: 3,
    };
    st.define_macro(def).unwrap();
    let (name, args) = parse_macro_invocation("lbl: put(4)", &st).unwrap();
    assert_eq!(name, "put");
    assert_eq!(args, vec!["4"]);
    assert!(parse_macro_invocation("nop", &st).is_none());
    let def = st.get_macro("PUT").unwrap();
    let lines = expand_macro(def, &[], 2, "main.asm", 7).unwrap();
    assert_eq!(lines.len(), 1);
    assert_eq!(lines[0].text, "    mvi a, 9");
    assert_eq!(lines[0].line_num, 7);
    assert_eq!(lines[0].file, "m.asm");
    assert_eq!(lines[0].macro_context.as_deref(), Some("Put_2"));
}

#[test]
fn collect_macros_removes_definitions() {
    let mk = |t: &str, n: usize| SourceLine { file: "a.asm".to_string(), line_num: n, text: t.to_string(), macro_context: None };
    let mut lines = vec![mk(".macro M(x)", 1), mk("  nop", 2), mk(".endmacro", 3), mk("  hlt", 4)];
    let mut st = SymbolTable::new();
    collect_macros(&mut lines, &mut st).unwrap();
    assert_eq!(lines.len(), 1);
    assert_eq!(lines[0].text, "  hlt");
    let m = st.get_macro("m").unwrap();
    assert_eq!(m.body, vec!["  nop".to_string()]);
    assert_eq!(m.line, 1);
    let mut again = vec![mk(".macro m", 1), mk(".endmacro", 2)];
    assert_eq!(collect_macros(&mut again, &mut st).err().unwrap().message, "Macro 'm' already defined");
}

#[test]
fn preprocess_expands_includes() {
    let mut files = SourceFiles::new();
    files.add("/p/main.asm", "start:\n  .include \"lib.asm\"\n  hlt\n");
    files.add("/p/lib.asm", "  nop\r\n");
    let mut st = SymbolTable::new();
    let lines = preprocess("/p/main.asm", "/p", &mut st, &files).unwrap();
    let texts: Vec<&str> = lines.iter().map(|l| l.text.as_str()).collect();
    assert_eq!(texts, vec!["start:", "  nop", "  hlt"]);
    assert_eq!(lines[1].file, "lib.asm");
    assert_eq!(lines[1].line_num, 1);
    assert_eq!(lines[2].file, "main.asm");
    assert_eq!(lines[2].line_num, 3);
}

#[test]
fn preprocess_reports_missing_files() {
    let files = SourceFiles::new();
    let mut st = SymbolTable::new();
    assert!(preprocess("/p/main.asm", "/p", &mut st, &files).is_err());
    let mut files = SourceFiles::new();
    files.add("/p/main.asm", ".include \"gone.asm\"\n");
    let err = preprocess("/p/main.asm", "/p", &mut st, &files).err().unwrap();
    assert_eq!(err.message, "Cannot find include file: gone.asm");
    let loc = err.location.unwrap();
    assert_eq!(loc.file, "main.asm");
    assert_eq!(loc.line, 1);
}

#[test]
fn include_candidate_paths() {
    let c = include_candidates("x.asm", "/p/sub/a.asm", "/p");
    assert_eq!(c, vec!["/p/sub/x.asm".to_string(), "/p/x.asm".to_string(), "x.asm".to_string()]);
}

#[test]
fn error_display_and_location() {
    let e = AsmError::new("bad").with_location(SourceLocation { file: "f.asm".to_string(), line: 3, col: 4 });
    assert_eq!(e.display_text(), "error: bad   -->   f.asm:3");
    assert_eq!(e.location.as_ref().unwrap().to_text(), "f.asm:3:4");
    let e2 = AsmError::new("x").ensure_location("g.asm", 9);
    assert_eq!(e2.location.unwrap().line, 9);
}
