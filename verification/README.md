# v6_core

A two-pass Intel 8080 / Z80-compatible assembler for the Vector-06c home
computer, written in Verus: every public function of the library carries a
contract, and Verus proves the code against it.

## Layout

- `src/` — the verified library:
  - `text.rs` — character and number formatting helpers;
  - `lexer.rs` — the tokenizer, specified by `lex`;
  - `expr.rs` — expressions: the precedence parser and the evaluator `eval`;
  - `instructions.rs` — 8080 opcodes and the Z80 mnemonic forms;
  - `encoding.rs` — the character encodings of `.text`;
  - `parser.rs` — one line of tokens to labels, instructions and directives (`line_spec`);
  - `symbols.rs` — the symbol table: labels, local labels, constants, variables, macros and macro scopes;
  - `preprocessor.rs` — block comments, `.include`, macro definitions, arguments and expansion;
  - `assembler.rs` — the output buffer and the two passes; `pass_run`, `assembled` and
    `assembly_fails` state what a pass and a whole assembly do, line by line;
  - `output.rs` — the ROM image and the listing text.
- `app/main.rs` — the `v6asm` command line: it reads the sources and data files,
  runs the library, and writes the ROM and the listing.
- `tests/` — tests of the library.

## Running

`v6asm main.asm` assembles `main.asm` into `main.rom`; `--lst` adds a listing,
`--cpu z80` accepts Z80 mnemonics, `--rom-align N` pads the ROM, and
`--init NAME` writes a starter source file.
