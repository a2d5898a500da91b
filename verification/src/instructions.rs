//! Instruction encoding: the Intel 8080 instruction set, and the Z80
//! mnemonics that map one-to-one onto 8080 opcodes.

use vstd::prelude::*;
use crate::diagnostics::{AsmError, AsmResult};
use crate::symbols::message_with_name;
use crate::text::{chars_of, eq_chars1, eq_chars2, eq_chars3, eq_chars4};

verus! {

broadcast use vstd::string::group_string_axioms;

/// Target CPU syntax.
#[derive(Debug, Clone, Copy, PartialEq, Eq, Structural)]
pub enum CpuMode {
    I8080,
    Z80,
}

/// An 8-bit register (the memory operand `M` / `(HL)` is `ParsedOperand::Memory`).
#[derive(Debug, Clone, Copy, PartialEq, Eq, Structural)]
pub enum Register {
    B,
    C,
    D,
    E,
    H,
    L,
    A,
}

/// A register pair; `PSW` is also written `AF`.
#[derive(Debug, Clone, Copy, PartialEq, Eq, Structural)]
pub enum RegisterPair {
    BC,
    DE,
    HL,
    SP,
    PSW,
}

/// A branch condition.
#[derive(Debug, Clone, Copy, PartialEq, Eq, Structural)]
pub enum Condition {
    NZ,
    Z,
    NC,
    C,
    PO,
    PE,
    P,
    M,
}

/// An operand as the parser classified it.
#[derive(Debug, Clone, Copy, PartialEq, Eq, Structural)]
pub enum ParsedOperand {
    Reg(Register),
    RegPair(RegisterPair),
    /// `M` or `(HL)`
    Memory,
    /// An expression used as an 8-bit value.
    Imm8,
    /// An expression used as a 16-bit value.
    Imm16,
    /// An expression in parentheses: a direct memory or port reference.
    Mem16,
    Condition(Condition),
    RstNum(u8),
}

/// What follows the opcode byte.
#[derive(Debug, Clone, Copy, PartialEq, Eq, Structural)]
pub enum ImmKind {
    NoImm,
    Imm8,
    Imm16,
}

/// An encoded instruction: the opcode followed by zero bytes where the
/// immediate value goes.
#[derive(Debug)]
pub struct EncodedInstruction {
    pub bytes: Vec<u8>,
    pub size: usize,
    pub has_imm8: bool,
    pub has_imm16: bool,
}

/// Whether `s` (upper case) names an 8-bit register.
pub open spec fn register_of(s: Seq<char>) -> Option<Register> {
    if s == seq!['A'] {
        Some(Register::A)
    } else if s == seq!['B'] {
        Some(Register::B)
    } else if s == seq!['C'] {
        Some(Register::C)
    } else if s == seq!['D'] {
        Some(Register::D)
    } else if s == seq!['E'] {
        Some(Register::E)
    } else if s == seq!['H'] {
        Some(Register::H)
    } else if s == seq!['L'] {
        Some(Register::L)
    } else {
        None
    }
}

/// The register pair named by `s` (upper case): `B`/`BC`, `D`/`DE`,
/// `H`/`HL`, `SP`, `PSW`/`AF`.
pub open spec fn register_pair_of(s: Seq<char>) -> Option<RegisterPair> {
    if s == seq!['B'] || s == seq!['B', 'C'] {
        Some(RegisterPair::BC)
    } else if s == seq!['D'] || s == seq!['D', 'E'] {
        Some(RegisterPair::DE)
    } else if s == seq!['H'] || s == seq!['H', 'L'] {
        Some(RegisterPair::HL)
    } else if s == seq!['S', 'P'] {
        Some(RegisterPair::SP)
    } else if s == seq!['P', 'S', 'W'] || s == seq!['A', 'F'] {
        Some(RegisterPair::PSW)
    } else {
        None
    }
}

/// The condition named by `s` (upper case).
pub open spec fn condition_of(s: Seq<char>) -> Option<Condition> {
    if s == seq!['N', 'Z'] {
        Some(Condition::NZ)
    } else if s == seq!['Z'] {
        Some(Condition::Z)
    } else if s == seq!['N', 'C'] {
        Some(Condition::NC)
    } else if s == seq!['C'] {
        Some(Condition::C)
    } else if s == seq!['P', 'O'] {
        Some(Condition::PO)
    } else if s == seq!['P', 'E'] {
        Some(Condition::PE)
    } else if s == seq!['P'] {
        Some(Condition::P)
    } else if s == seq!['M'] {
        Some(Condition::M)
    } else {
        None
    }
}

impl Register {
    pub fn from_name(name: &str) -> (r: Option<Register>)
        ensures
            r == register_of(name@),
    {
        let s = chars_of(name);
        if eq_chars1(&s, 'A') {
            Some(Register::A)
        } else if eq_chars1(&s, 'B') {
            Some(Register::B)
        } else if eq_chars1(&s, 'C') {
            Some(Register::C)
        } else if eq_chars1(&s, 'D') {
            Some(Register::D)
        } else if eq_chars1(&s, 'E') {
            Some(Register::E)
        } else if eq_chars1(&s, 'H') {
            Some(Register::H)
        } else if eq_chars1(&s, 'L') {
            Some(Register::L)
        } else {
            None
        }
    }
}

impl RegisterPair {
    pub fn from_name(name: &str) -> (r: Option<RegisterPair>)
        ensures
            r == register_pair_of(name@),
    {
        let s = chars_of(name);
        if eq_chars1(&s, 'B') || eq_chars2(&s, 'B', 'C') {
            Some(RegisterPair::BC)
        } else if eq_chars1(&s, 'D') || eq_chars2(&s, 'D', 'E') {
            Some(RegisterPair::DE)
        } else if eq_chars1(&s, 'H') || eq_chars2(&s, 'H', 'L') {
            Some(RegisterPair::HL)
        } else if eq_chars2(&s, 'S', 'P') {
            Some(RegisterPair::SP)
        } else if eq_chars3(&s, 'P', 'S', 'W') || eq_chars2(&s, 'A', 'F') {
            Some(RegisterPair::PSW)
        } else {
            None
        }
    }
}

impl Condition {
    pub fn from_name(name: &str) -> (r: Option<Condition>)
        ensures
            r == condition_of(name@),
    {
        let s = chars_of(name);
        if eq_chars2(&s, 'N', 'Z') {
            Some(Condition::NZ)
        } else if eq_chars1(&s, 'Z') {
            Some(Condition::Z)
        } else if eq_chars2(&s, 'N', 'C') {
            Some(Condition::NC)
        } else if eq_chars1(&s, 'C') {
            Some(Condition::C)
        } else if eq_chars2(&s, 'P', 'O') {
            Some(Condition::PO)
        } else if eq_chars2(&s, 'P', 'E') {
            Some(Condition::PE)
        } else if eq_chars1(&s, 'P') {
            Some(Condition::P)
        } else if eq_chars1(&s, 'M') {
            Some(Condition::M)
        } else {
            None
        }
    }
}

/// The mnemonics of the i8080 instruction set and of the Z80 subset.
#[derive(Debug, Clone, Copy, PartialEq, Eq, Structural)]
pub enum Mnemonic {
    Mov,
    Mvi,
    Lxi,
    Lda,
    Sta,
    Lhld,
    Shld,
    Ldax,
    Stax,
    Xchg,
    Add,
    Adc,
    Sub,
    Sbb,
    Ana,
    Xra,
    Ora,
    Cmp,
    Adi,
    Aci,
    Sui,
    Sbi,
    Ani,
    Xri,
    Ori,
    Cpi,
    Rlc,
    Rrc,
    Ral,
    Rar,
    Jmp,
    Jnz,
    Jz,
    Jnc,
    Jc,
    Jpo,
    Jpe,
    Jp,
    Jm,
    Call,
    Cnz,
    Cz,
    Cnc,
    Cc,
    Cpo,
    Cpe,
    Cp,
    Cm,
    Ret,
    Rnz,
    Rz,
    Rnc,
    Rc,
    Rpo,
    Rpe,
    Rp,
    Rm,
    Push,
    Pop,
    Dad,
    Inx,
    Dcx,
    Inr,
    Dcr,
    Daa,
    Cma,
    Stc,
    Cmc,
    Hlt,
    Nop,
    Di,
    Ei,
    In,
    Out,
    Rst,
    Pchl,
    Sphl,
    Xthl,
    Ld,
    Sbc,
    And,
    Xor,
    Or,
    Inc,
    Dec,
    Ex,
    Halt,
    Rlca,
    Rrca,
    Rla,
    Rra,
    Cpl,
    Scf,
    Ccf,
}

/// The mnemonic spelled `s` (upper case).
pub open spec fn mnemonic_of(s: Seq<char>) -> Option<Mnemonic> {
    if s == seq!['M', 'O', 'V'] {
        Some(Mnemonic::Mov)
    } else if s == seq!['M', 'V', 'I'] {
        Some(Mnemonic::Mvi)
    } else if s == seq!['L', 'X', 'I'] {
        Some(Mnemonic::Lxi)
    } else if s == seq!['L', 'D', 'A'] {
        Some(Mnemonic::Lda)
    } else if s == seq!['S', 'T', 'A'] {
        Some(Mnemonic::Sta)
    } else if s == seq!['L', 'H', 'L', 'D'] {
        Some(Mnemonic::Lhld)
    } else if s == seq!['S', 'H', 'L', 'D'] {
        Some(Mnemonic::Shld)
    } else if s == seq!['L', 'D', 'A', 'X'] {
        Some(Mnemonic::Ldax)
    } else if s == seq!['S', 'T', 'A', 'X'] {
        Some(Mnemonic::Stax)
    } else if s == seq!['X', 'C', 'H', 'G'] {
        Some(Mnemonic::Xchg)
    } else if s == seq!['A', 'D', 'D'] {
        Some(Mnemonic::Add)
    } else if s == seq!['A', 'D', 'C'] {
        Some(Mnemonic::Adc)
    } else if s == seq!['S', 'U', 'B'] {
        Some(Mnemonic::Sub)
    } else if s == seq!['S', 'B', 'B'] {
        Some(Mnemonic::Sbb)
    } else if s == seq!['A', 'N', 'A'] {
        Some(Mnemonic::Ana)
    } else if s == seq!['X', 'R', 'A'] {
        Some(Mnemonic::Xra)
    } else if s == seq!['O', 'R', 'A'] {
        Some(Mnemonic::Ora)
    } else if s == seq!['C', 'M', 'P'] {
        Some(Mnemonic::Cmp)
    } else if s == seq!['A', 'D', 'I'] {
        Some(Mnemonic::Adi)
    } else if s == seq!['A', 'C', 'I'] {
        Some(Mnemonic::Aci)
    } else if s == seq!['S', 'U', 'I'] {
        Some(Mnemonic::Sui)
    } else if s == seq!['S', 'B', 'I'] {
        Some(Mnemonic::Sbi)
    } else if s == seq!['A', 'N', 'I'] {
        Some(Mnemonic::Ani)
    } else if s == seq!['X', 'R', 'I'] {
        Some(Mnemonic::Xri)
    } else if s == seq!['O', 'R', 'I'] {
        Some(Mnemonic::Ori)
    } else if s == seq!['C', 'P', 'I'] {
        Some(Mnemonic::Cpi)
    } else if s == seq!['R', 'L', 'C'] {
        Some(Mnemonic::Rlc)
    } else if s == seq!['R', 'R', 'C'] {
        Some(Mnemonic::Rrc)
    } else if s == seq!['R', 'A', 'L'] {
        Some(Mnemonic::Ral)
    } else if s == seq!['R', 'A', 'R'] {
        Some(Mnemonic::Rar)
    } else if s == seq!['J', 'M', 'P'] {
        Some(Mnemonic::Jmp)
    } else if s == seq!['J', 'N', 'Z'] {
        Some(Mnemonic::Jnz)
    } else if s == seq!['J', 'Z'] {
        Some(Mnemonic::Jz)
    } else if s == seq!['J', 'N', 'C'] {
        Some(Mnemonic::Jnc)
    } else if s == seq!['J', 'C'] {
        Some(Mnemonic::Jc)
    } else if s == seq!['J', 'P', 'O'] {
        Some(Mnemonic::Jpo)
    } else if s == seq!['J', 'P', 'E'] {
        Some(Mnemonic::Jpe)
    } else if s == seq!['J', 'P'] {
        Some(Mnemonic::Jp)
    } else if s == seq!['J', 'M'] {
        Some(Mnemonic::Jm)
    } else if s == seq!['C', 'A', 'L', 'L'] {
        Some(Mnemonic::Call)
    } else if s == seq!['C', 'N', 'Z'] {
        Some(Mnemonic::Cnz)
    } else if s == seq!['C', 'Z'] {
        Some(Mnemonic::Cz)
    } else if s == seq!['C', 'N', 'C'] {
        Some(Mnemonic::Cnc)
    } else if s == seq!['C', 'C'] {
        Some(Mnemonic::Cc)
    } else if s == seq!['C', 'P', 'O'] {
        Some(Mnemonic::Cpo)
    } else if s == seq!['C', 'P', 'E'] {
        Some(Mnemonic::Cpe)
    } else if s == seq!['C', 'P'] {
        Some(Mnemonic::Cp)
    } else if s == seq!['C', 'M'] {
        Some(Mnemonic::Cm)
    } else if s == seq!['R', 'E', 'T'] {
        Some(Mnemonic::Ret)
    } else if s == seq!['R', 'N', 'Z'] {
        Some(Mnemonic::Rnz)
    } else if s == seq!['R', 'Z'] {
        Some(Mnemonic::Rz)
    } else if s == seq!['R', 'N', 'C'] {
        Some(Mnemonic::Rnc)
    } else if s == seq!['R', 'C'] {
        Some(Mnemonic::Rc)
    } else if s == seq!['R', 'P', 'O'] {
        Some(Mnemonic::Rpo)
    } else if s == seq!['R', 'P', 'E'] {
        Some(Mnemonic::Rpe)
    } else if s == seq!['R', 'P'] {
        Some(Mnemonic::Rp)
    } else if s == seq!['R', 'M'] {
        Some(Mnemonic::Rm)
    } else if s == seq!['P', 'U', 'S', 'H'] {
        Some(Mnemonic::Push)
    } else if s == seq!['P', 'O', 'P'] {
        Some(Mnemonic::Pop)
    } else if s == seq!['D', 'A', 'D'] {
        Some(Mnemonic::Dad)
    } else if s == seq!['I', 'N', 'X'] {
        Some(Mnemonic::Inx)
    } else if s == seq!['D', 'C', 'X'] {
        Some(Mnemonic::Dcx)
    } else if s == seq!['I', 'N', 'R'] {
        Some(Mnemonic::Inr)
    } else if s == seq!['D', 'C', 'R'] {
        Some(Mnemonic::Dcr)
    } else if s == seq!['D', 'A', 'A'] {
        Some(Mnemonic::Daa)
    } else if s == seq!['C', 'M', 'A'] {
        Some(Mnemonic::Cma)
    } else if s == seq!['S', 'T', 'C'] {
        Some(Mnemonic::Stc)
    } else if s == seq!['C', 'M', 'C'] {
        Some(Mnemonic::Cmc)
    } else if s == seq!['H', 'L', 'T'] {
        Some(Mnemonic::Hlt)
    } else if s == seq!['N', 'O', 'P'] {
        Some(Mnemonic::Nop)
    } else if s == seq!['D', 'I'] {
        Some(Mnemonic::Di)
    } else if s == seq!['E', 'I'] {
        Some(Mnemonic::Ei)
    } else if s == seq!['I', 'N'] {
        Some(Mnemonic::In)
    } else if s == seq!['O', 'U', 'T'] {
        Some(Mnemonic::Out)
    } else if s == seq!['R', 'S', 'T'] {
        Some(Mnemonic::Rst)
    } else if s == seq!['P', 'C', 'H', 'L'] {
        Some(Mnemonic::Pchl)
    } else if s == seq!['S', 'P', 'H', 'L'] {
        Some(Mnemonic::Sphl)
    } else if s == seq!['X', 'T', 'H', 'L'] {
        Some(Mnemonic::Xthl)
    } else if s == seq!['L', 'D'] {
        Some(Mnemonic::Ld)
    } else if s == seq!['S', 'B', 'C'] {
        Some(Mnemonic::Sbc)
    } else if s == seq!['A', 'N', 'D'] {
        Some(Mnemonic::And)
    } else if s == seq!['X', 'O', 'R'] {
        Some(Mnemonic::Xor)
    } else if s == seq!['O', 'R'] {
        Some(Mnemonic::Or)
    } else if s == seq!['I', 'N', 'C'] {
        Some(Mnemonic::Inc)
    } else if s == seq!['D', 'E', 'C'] {
        Some(Mnemonic::Dec)
    } else if s == seq!['E', 'X'] {
        Some(Mnemonic::Ex)
    } else if s == seq!['H', 'A', 'L', 'T'] {
        Some(Mnemonic::Halt)
    } else if s == seq!['R', 'L', 'C', 'A'] {
        Some(Mnemonic::Rlca)
    } else if s == seq!['R', 'R', 'C', 'A'] {
        Some(Mnemonic::Rrca)
    } else if s == seq!['R', 'L', 'A'] {
        Some(Mnemonic::Rla)
    } else if s == seq!['R', 'R', 'A'] {
        Some(Mnemonic::Rra)
    } else if s == seq!['C', 'P', 'L'] {
        Some(Mnemonic::Cpl)
    } else if s == seq!['S', 'C', 'F'] {
        Some(Mnemonic::Scf)
    } else if s == seq!['C', 'C', 'F'] {
        Some(Mnemonic::Ccf)
    } else {
        None
    }
}

/// Looks up the mnemonic spelled `s` (upper case).
pub fn lookup_mnemonic(s: &[char]) -> (r: Option<Mnemonic>)
    ensures
        r == mnemonic_of(s@),
{
    if eq_chars3(s, 'M', 'O', 'V') {
        return Some(Mnemonic::Mov);
    }
    if eq_chars3(s, 'M', 'V', 'I') {
        return Some(Mnemonic::Mvi);
    }
    if eq_chars3(s, 'L', 'X', 'I') {
        return Some(Mnemonic::Lxi);
    }
    if eq_chars3(s, 'L', 'D', 'A') {
        return Some(Mnemonic::Lda);
    }
    if eq_chars3(s, 'S', 'T', 'A') {
        return Some(Mnemonic::Sta);
    }
    if eq_chars4(s, 'L', 'H', 'L', 'D') {
        return Some(Mnemonic::Lhld);
    }
    if eq_chars4(s, 'S', 'H', 'L', 'D') {
        return Some(Mnemonic::Shld);
    }
    if eq_chars4(s, 'L', 'D', 'A', 'X') {
        return Some(Mnemonic::Ldax);
    }
    if eq_chars4(s, 'S', 'T', 'A', 'X') {
        return Some(Mnemonic::Stax);
    }
    if eq_chars4(s, 'X', 'C', 'H', 'G') {
        return Some(Mnemonic::Xchg);
    }
    if eq_chars3(s, 'A', 'D', 'D') {
        return Some(Mnemonic::Add);
    }
    if eq_chars3(s, 'A', 'D', 'C') {
        return Some(Mnemonic::Adc);
    }
    if eq_chars3(s, 'S', 'U', 'B') {
        return Some(Mnemonic::Sub);
    }
    if eq_chars3(s, 'S', 'B', 'B') {
        return Some(Mnemonic::Sbb);
    }
    if eq_chars3(s, 'A', 'N', 'A') {
        return Some(Mnemonic::Ana);
    }
    if eq_chars3(s, 'X', 'R', 'A') {
        return Some(Mnemonic::Xra);
    }
    if eq_chars3(s, 'O', 'R', 'A') {
        return Some(Mnemonic::Ora);
    }
    if eq_chars3(s, 'C', 'M', 'P') {
        return Some(Mnemonic::Cmp);
    }
    if eq_chars3(s, 'A', 'D', 'I') {
        return Some(Mnemonic::Adi);
    }
    if eq_chars3(s, 'A', 'C', 'I') {
        return Some(Mnemonic::Aci);
    }
    if eq_chars3(s, 'S', 'U', 'I') {
        return Some(Mnemonic::Sui);
    }
    if eq_chars3(s, 'S', 'B', 'I') {
        return Some(Mnemonic::Sbi);
    }
    if eq_chars3(s, 'A', 'N', 'I') {
        return Some(Mnemonic::Ani);
    }
    if eq_chars3(s, 'X', 'R', 'I') {
        return Some(Mnemonic::Xri);
    }
    if eq_chars3(s, 'O', 'R', 'I') {
        return Some(Mnemonic::Ori);
    }
    if eq_chars3(s, 'C', 'P', 'I') {
        return Some(Mnemonic::Cpi);
    }
    if eq_chars3(s, 'R', 'L', 'C') {
        return Some(Mnemonic::Rlc);
    }
    if eq_chars3(s, 'R', 'R', 'C') {
        return Some(Mnemonic::Rrc);
    }
    if eq_chars3(s, 'R', 'A', 'L') {
        return Some(Mnemonic::Ral);
    }
    if eq_chars3(s, 'R', 'A', 'R') {
        return Some(Mnemonic::Rar);
    }
    if eq_chars3(s, 'J', 'M', 'P') {
        return Some(Mnemonic::Jmp);
    }
    if eq_chars3(s, 'J', 'N', 'Z') {
        return Some(Mnemonic::Jnz);
    }
    if eq_chars2(s, 'J', 'Z') {
        return Some(Mnemonic::Jz);
    }
    if eq_chars3(s, 'J', 'N', 'C') {
        return Some(Mnemonic::Jnc);
    }
    if eq_chars2(s, 'J', 'C') {
        return Some(Mnemonic::Jc);
    }
    if eq_chars3(s, 'J', 'P', 'O') {
        return Some(Mnemonic::Jpo);
    }
    if eq_chars3(s, 'J', 'P', 'E') {
        return Some(Mnemonic::Jpe);
    }
    if eq_chars2(s, 'J', 'P') {
        return Some(Mnemonic::Jp);
    }
    if eq_chars2(s, 'J', 'M') {
        return Some(Mnemonic::Jm);
    }
    if eq_chars4(s, 'C', 'A', 'L', 'L') {
        return Some(Mnemonic::Call);
    }
    if eq_chars3(s, 'C', 'N', 'Z') {
        return Some(Mnemonic::Cnz);
    }
    if eq_chars2(s, 'C', 'Z') {
        return Some(Mnemonic::Cz);
    }
    if eq_chars3(s, 'C', 'N', 'C') {
        return Some(Mnemonic::Cnc);
    }
    if eq_chars2(s, 'C', 'C') {
        return Some(Mnemonic::Cc);
    }
    if eq_chars3(s, 'C', 'P', 'O') {
        return Some(Mnemonic::Cpo);
    }
    if eq_chars3(s, 'C', 'P', 'E') {
        return Some(Mnemonic::Cpe);
    }
    if eq_chars2(s, 'C', 'P') {
        return Some(Mnemonic::Cp);
    }
    if eq_chars2(s, 'C', 'M') {
        return Some(Mnemonic::Cm);
    }
    if eq_chars3(s, 'R', 'E', 'T') {
        return Some(Mnemonic::Ret);
    }
    if eq_chars3(s, 'R', 'N', 'Z') {
        return Some(Mnemonic::Rnz);
    }
    if eq_chars2(s, 'R', 'Z') {
        return Some(Mnemonic::Rz);
    }
    if eq_chars3(s, 'R', 'N', 'C') {
        return Some(Mnemonic::Rnc);
    }
    if eq_chars2(s, 'R', 'C') {
        return Some(Mnemonic::Rc);
    }
    if eq_chars3(s, 'R', 'P', 'O') {
        return Some(Mnemonic::Rpo);
    }
    if eq_chars3(s, 'R', 'P', 'E') {
        return Some(Mnemonic::Rpe);
    }
    if eq_chars2(s, 'R', 'P') {
        return Some(Mnemonic::Rp);
    }
    if eq_chars2(s, 'R', 'M') {
        return Some(Mnemonic::Rm);
    }
    if eq_chars4(s, 'P', 'U', 'S', 'H') {
        return Some(Mnemonic::Push);
    }
    if eq_chars3(s, 'P', 'O', 'P') {
        return Some(Mnemonic::Pop);
    }
    if eq_chars3(s, 'D', 'A', 'D') {
        return Some(Mnemonic::Dad);
    }
    if eq_chars3(s, 'I', 'N', 'X') {
        return Some(Mnemonic::Inx);
    }
    if eq_chars3(s, 'D', 'C', 'X') {
        return Some(Mnemonic::Dcx);
    }
    if eq_chars3(s, 'I', 'N', 'R') {
        return Some(Mnemonic::Inr);
    }
    if eq_chars3(s, 'D', 'C', 'R') {
        return Some(Mnemonic::Dcr);
    }
    if eq_chars3(s, 'D', 'A', 'A') {
        return Some(Mnemonic::Daa);
    }
    if eq_chars3(s, 'C', 'M', 'A') {
        return Some(Mnemonic::Cma);
    }
    if eq_chars3(s, 'S', 'T', 'C') {
        return Some(Mnemonic::Stc);
    }
    if eq_chars3(s, 'C', 'M', 'C') {
        return Some(Mnemonic::Cmc);
    }
    if eq_chars3(s, 'H', 'L', 'T') {
        return Some(Mnemonic::Hlt);
    }
    if eq_chars3(s, 'N', 'O', 'P') {
        return Some(Mnemonic::Nop);
    }
    if eq_chars2(s, 'D', 'I') {
        return Some(Mnemonic::Di);
    }
    if eq_chars2(s, 'E', 'I') {
        return Some(Mnemonic::Ei);
    }
    if eq_chars2(s, 'I', 'N') {
        return Some(Mnemonic::In);
    }
    if eq_chars3(s, 'O', 'U', 'T') {
        return Some(Mnemonic::Out);
    }
    if eq_chars3(s, 'R', 'S', 'T') {
        return Some(Mnemonic::Rst);
    }
    if eq_chars4(s, 'P', 'C', 'H', 'L') {
        return Some(Mnemonic::Pchl);
    }
    if eq_chars4(s, 'S', 'P', 'H', 'L') {
        return Some(Mnemonic::Sphl);
    }
    if eq_chars4(s, 'X', 'T', 'H', 'L') {
        return Some(Mnemonic::Xthl);
    }
    if eq_chars2(s, 'L', 'D') {
        return Some(Mnemonic::Ld);
    }
    if eq_chars3(s, 'S', 'B', 'C') {
        return Some(Mnemonic::Sbc);
    }
    if eq_chars3(s, 'A', 'N', 'D') {
        return Some(Mnemonic::And);
    }
    if eq_chars3(s, 'X', 'O', 'R') {
        return Some(Mnemonic::Xor);
    }
    if eq_chars2(s, 'O', 'R') {
        return Some(Mnemonic::Or);
    }
    if eq_chars3(s, 'I', 'N', 'C') {
        return Some(Mnemonic::Inc);
    }
    if eq_chars3(s, 'D', 'E', 'C') {
        return Some(Mnemonic::Dec);
    }
    if eq_chars2(s, 'E', 'X') {
        return Some(Mnemonic::Ex);
    }
    if eq_chars4(s, 'H', 'A', 'L', 'T') {
        return Some(Mnemonic::Halt);
    }
    if eq_chars4(s, 'R', 'L', 'C', 'A') {
        return Some(Mnemonic::Rlca);
    }
    if eq_chars4(s, 'R', 'R', 'C', 'A') {
        return Some(Mnemonic::Rrca);
    }
    if eq_chars3(s, 'R', 'L', 'A') {
        return Some(Mnemonic::Rla);
    }
    if eq_chars3(s, 'R', 'R', 'A') {
        return Some(Mnemonic::Rra);
    }
    if eq_chars3(s, 'C', 'P', 'L') {
        return Some(Mnemonic::Cpl);
    }
    if eq_chars3(s, 'S', 'C', 'F') {
        return Some(Mnemonic::Scf);
    }
    if eq_chars3(s, 'C', 'C', 'F') {
        return Some(Mnemonic::Ccf);
    }
    None
}

// ---- encoding rules ----

/// The 3-bit register field: B C D E H L M A = 0..7.
pub open spec fn reg_code(r: Register) -> u8 {
    match r {
        Register::B => 0,
        Register::C => 1,
        Register::D => 2,
        Register::E => 3,
        Register::H => 4,
        Register::L => 5,
        Register::A => 7,
    }
}

/// The register field of an 8-bit operand (a register or memory, code 6).
pub open spec fn r8(op: ParsedOperand) -> Option<u8> {
    match op {
        ParsedOperand::Reg(r) => Some(reg_code(r)),
        ParsedOperand::Memory => Some(6),
        _ => None,
    }
}

/// The pair field where SP is the fourth pair (LXI, DAD, INX, DCX).
pub open spec fn rp_sp(op: ParsedOperand) -> Option<u8> {
    match op {
        ParsedOperand::RegPair(RegisterPair::BC) => Some(0),
        ParsedOperand::RegPair(RegisterPair::DE) => Some(1),
        ParsedOperand::RegPair(RegisterPair::HL) => Some(2),
        ParsedOperand::RegPair(RegisterPair::SP) => Some(3),
        _ => None,
    }
}

/// The pair field where PSW is the fourth pair (PUSH, POP).
pub open spec fn rp_psw(op: ParsedOperand) -> Option<u8> {
    match op {
        ParsedOperand::RegPair(RegisterPair::BC) => Some(0),
        ParsedOperand::RegPair(RegisterPair::DE) => Some(1),
        ParsedOperand::RegPair(RegisterPair::HL) => Some(2),
        ParsedOperand::RegPair(RegisterPair::PSW) => Some(3),
        _ => None,
    }
}

/// The 3-bit condition field: NZ Z NC C PO PE P M = 0..7.
pub open spec fn cc_code(c: Condition) -> u8 {
    match c {
        Condition::NZ => 0,
        Condition::Z => 1,
        Condition::NC => 2,
        Condition::C => 3,
        Condition::PO => 4,
        Condition::PE => 5,
        Condition::P => 6,
        Condition::M => 7,
    }
}

/// A condition operand in Z80 syntax; `M` reaches the encoder as the memory operand.
pub open spec fn z80_cond(op: ParsedOperand) -> Option<u8> {
    match op {
        ParsedOperand::Condition(c) => Some(cc_code(c)),
        ParsedOperand::Memory => Some(7),
        _ => None,
    }
}

pub open spec fn is_value(op: ParsedOperand) -> bool {
    op is Imm8 || op is Imm16
}

/// Opcodes of the instructions without operands.
pub open spec fn implied_opcode(m: Mnemonic) -> Option<u8> {
    match m {
        Mnemonic::Xchg => Some(0xEB),
        Mnemonic::Rlc | Mnemonic::Rlca => Some(0x07),
        Mnemonic::Rrc | Mnemonic::Rrca => Some(0x0F),
        Mnemonic::Ral | Mnemonic::Rla => Some(0x17),
        Mnemonic::Rar | Mnemonic::Rra => Some(0x1F),
        Mnemonic::Daa => Some(0x27),
        Mnemonic::Cma | Mnemonic::Cpl => Some(0x2F),
        Mnemonic::Stc | Mnemonic::Scf => Some(0x37),
        Mnemonic::Cmc | Mnemonic::Ccf => Some(0x3F),
        Mnemonic::Hlt | Mnemonic::Halt => Some(0x76),
        Mnemonic::Nop => Some(0x00),
        Mnemonic::Di => Some(0xF3),
        Mnemonic::Ei => Some(0xFB),
        Mnemonic::Pchl => Some(0xE9),
        Mnemonic::Sphl => Some(0xF9),
        Mnemonic::Xthl => Some(0xE3),
        _ => None,
    }
}

/// Register-operand arithmetic: the base opcode (the register field is added).
pub open spec fn alu_reg_base(m: Mnemonic) -> Option<u8> {
    match m {
        Mnemonic::Add => Some(0x80),
        Mnemonic::Adc => Some(0x88),
        Mnemonic::Sub => Some(0x90),
        Mnemonic::Sbb => Some(0x98),
        Mnemonic::Ana => Some(0xA0),
        Mnemonic::Xra => Some(0xA8),
        Mnemonic::Ora => Some(0xB0),
        Mnemonic::Cmp => Some(0xB8),
        _ => None,
    }
}

/// Immediate arithmetic opcodes.
pub open spec fn alu_imm_opcode(m: Mnemonic) -> Option<u8> {
    match m {
        Mnemonic::Adi => Some(0xC6),
        Mnemonic::Aci => Some(0xCE),
        Mnemonic::Sui => Some(0xD6),
        Mnemonic::Sbi => Some(0xDE),
        Mnemonic::Ani => Some(0xE6),
        Mnemonic::Xri => Some(0xEE),
        Mnemonic::Ori => Some(0xF6),
        Mnemonic::Cpi => Some(0xFE),
        _ => None,
    }
}

/// Instructions with a 16-bit address operand.
pub open spec fn addr_opcode(m: Mnemonic) -> Option<u8> {
    match m {
        Mnemonic::Lda => Some(0x3A),
        Mnemonic::Sta => Some(0x32),
        Mnemonic::Lhld => Some(0x2A),
        Mnemonic::Shld => Some(0x22),
        Mnemonic::Jmp => Some(0xC3),
        Mnemonic::Call => Some(0xCD),
        _ => None,
    }
}

/// The condition of an 8080 conditional jump, call or return.
pub open spec fn jump_cc(m: Mnemonic) -> Option<u8> {
    match m {
        Mnemonic::Jnz => Some(0),
        Mnemonic::Jz => Some(1),
        Mnemonic::Jnc => Some(2),
        Mnemonic::Jc => Some(3),
        Mnemonic::Jpo => Some(4),
        Mnemonic::Jpe => Some(5),
        Mnemonic::Jp => Some(6),
        Mnemonic::Jm => Some(7),
        _ => None,
    }
}

pub open spec fn call_cc(m: Mnemonic) -> Option<u8> {
    match m {
        Mnemonic::Cnz => Some(0),
        Mnemonic::Cz => Some(1),
        Mnemonic::Cnc => Some(2),
        Mnemonic::Cc => Some(3),
        Mnemonic::Cpo => Some(4),
        Mnemonic::Cpe => Some(5),
        Mnemonic::Cp => Some(6),
        Mnemonic::Cm => Some(7),
        _ => None,
    }
}

pub open spec fn ret_cc(m: Mnemonic) -> Option<u8> {
    match m {
        Mnemonic::Rnz => Some(0),
        Mnemonic::Rz => Some(1),
        Mnemonic::Rnc => Some(2),
        Mnemonic::Rc => Some(3),
        Mnemonic::Rpo => Some(4),
        Mnemonic::Rpe => Some(5),
        Mnemonic::Rp => Some(6),
        Mnemonic::Rm => Some(7),
        _ => None,
    }
}

/// The Intel 8080 encoding of `m` with operands `ops`: opcode and immediate kind.
pub open spec fn i8080_encoding(m: Mnemonic, ops: Seq<ParsedOperand>) -> Option<(u8, ImmKind)> {
    let n = ops.len();
    if implied_opcode(m) is Some || m is Ret {
        if n == 0 {
            Some((if m is Ret { 0xC9u8 } else { implied_opcode(m).unwrap() }, ImmKind::NoImm))
        } else {
            None
        }
    } else if alu_reg_base(m) is Some {
        if n == 1 && r8(ops[0]) is Some {
            Some(((alu_reg_base(m).unwrap() + r8(ops[0]).unwrap()) as u8, ImmKind::NoImm))
        } else {
            None
        }
    } else if alu_imm_opcode(m) is Some {
        if n == 1 && is_value(ops[0]) {
            Some((alu_imm_opcode(m).unwrap(), ImmKind::Imm8))
        } else {
            None
        }
    } else if addr_opcode(m) is Some {
        if n == 1 && is_value(ops[0]) {
            Some((addr_opcode(m).unwrap(), ImmKind::Imm16))
        } else {
            None
        }
    } else if jump_cc(m) is Some {
        if n == 1 && is_value(ops[0]) {
            Some(((0xC2 + 8 * jump_cc(m).unwrap()) as u8, ImmKind::Imm16))
        } else {
            None
        }
    } else if call_cc(m) is Some {
        if n == 1 && is_value(ops[0]) {
            Some(((0xC4 + 8 * call_cc(m).unwrap()) as u8, ImmKind::Imm16))
        } else {
            None
        }
    } else if ret_cc(m) is Some {
        if n == 0 {
            Some(((0xC0 + 8 * ret_cc(m).unwrap()) as u8, ImmKind::NoImm))
        } else {
            None
        }
    } else {
        match m {
            Mnemonic::Mov => if n == 2 && r8(ops[0]) is Some && r8(ops[1]) is Some && !(ops[0] is Memory
                && ops[1] is Memory) {
                Some(((0x40 + 8 * r8(ops[0]).unwrap() + r8(ops[1]).unwrap()) as u8, ImmKind::NoImm))
            } else {
                None
            },
            Mnemonic::Mvi => if n == 2 && r8(ops[0]) is Some && is_value(ops[1]) {
                Some(((0x06 + 8 * r8(ops[0]).unwrap()) as u8, ImmKind::Imm8))
            } else {
                None
            },
            Mnemonic::Lxi => if n == 2 && rp_sp(ops[0]) is Some && is_value(ops[1]) {
                Some(((0x01 + 16 * rp_sp(ops[0]).unwrap()) as u8, ImmKind::Imm16))
            } else {
                None
            },
            Mnemonic::Ldax => if n == 1 && ops[0] == ParsedOperand::RegPair(RegisterPair::BC) {
                Some((0x0Au8, ImmKind::NoImm))
            } else if n == 1 && ops[0] == ParsedOperand::RegPair(RegisterPair::DE) {
                Some((0x1Au8, ImmKind::NoImm))
            } else {
                None
            },
            Mnemonic::Stax => if n == 1 && ops[0] == ParsedOperand::RegPair(RegisterPair::BC) {
                Some((0x02u8, ImmKind::NoImm))
            } else if n == 1 && ops[0] == ParsedOperand::RegPair(RegisterPair::DE) {
                Some((0x12u8, ImmKind::NoImm))
            } else {
                None
            },
            Mnemonic::Push => if n == 1 && rp_psw(ops[0]) is Some {
                Some(((0xC5 + 16 * rp_psw(ops[0]).unwrap()) as u8, ImmKind::NoImm))
            } else {
                None
            },
            Mnemonic::Pop => if n == 1 && rp_psw(ops[0]) is Some {
                Some(((0xC1 + 16 * rp_psw(ops[0]).unwrap()) as u8, ImmKind::NoImm))
            } else {
                None
            },
            Mnemonic::Dad => if n == 1 && rp_sp(ops[0]) is Some {
                Some(((0x09 + 16 * rp_sp(ops[0]).unwrap()) as u8, ImmKind::NoImm))
            } else {
                None
            },
            Mnemonic::Inx => if n == 1 && rp_sp(ops[0]) is Some {
                Some(((0x03 + 16 * rp_sp(ops[0]).unwrap()) as u8, ImmKind::NoImm))
            } else {
                None
            },
            Mnemonic::Dcx => if n == 1 && rp_sp(ops[0]) is Some {
                Some(((0x0B + 16 * rp_sp(ops[0]).unwrap()) as u8, ImmKind::NoImm))
            } else {
                None
            },
            Mnemonic::Inr => if n == 1 && r8(ops[0]) is Some {
                Some(((0x04 + 8 * r8(ops[0]).unwrap()) as u8, ImmKind::NoImm))
            } else {
                None
            },
            Mnemonic::Dcr => if n == 1 && r8(ops[0]) is Some {
                Some(((0x05 + 8 * r8(ops[0]).unwrap()) as u8, ImmKind::NoImm))
            } else {
                None
            },
            Mnemonic::In => if n == 1 && is_value(ops[0]) {
                Some((0xDBu8, ImmKind::Imm8))
            } else {
                None
            },
            Mnemonic::Out => if n == 1 && is_value(ops[0]) {
                Some((0xD3u8, ImmKind::Imm8))
            } else {
                None
            },
            Mnemonic::Rst => if n == 1 && ops[0] is RstNum && ops[0]->RstNum_0 < 8 {
                Some(((0xC7 + 8 * ops[0]->RstNum_0) as u8, ImmKind::NoImm))
            } else {
                None
            },
            _ => None,
        }
    }
}

/// The Z80 mnemonics accepted in Z80 mode.
pub open spec fn is_z80_mnemonic(m: Mnemonic) -> bool {
    match m {
        Mnemonic::Ld | Mnemonic::Add | Mnemonic::Adc | Mnemonic::Sub | Mnemonic::Sbc | Mnemonic::And
        | Mnemonic::Xor | Mnemonic::Or | Mnemonic::Cp | Mnemonic::Inc | Mnemonic::Dec | Mnemonic::Jp
        | Mnemonic::Call | Mnemonic::Ret | Mnemonic::Ex | Mnemonic::In | Mnemonic::Out => true,
        _ => false,
    }
}

/// Z80 arithmetic: (register base opcode, immediate opcode).
pub open spec fn z80_alu(m: Mnemonic) -> Option<(u8, u8)> {
    match m {
        Mnemonic::Add => Some((0x80u8, 0xC6u8)),
        Mnemonic::Adc => Some((0x88u8, 0xCEu8)),
        Mnemonic::Sub => Some((0x90u8, 0xD6u8)),
        Mnemonic::Sbc => Some((0x98u8, 0xDEu8)),
        Mnemonic::And => Some((0xA0u8, 0xE6u8)),
        Mnemonic::Xor => Some((0xA8u8, 0xEEu8)),
        Mnemonic::Or => Some((0xB0u8, 0xF6u8)),
        Mnemonic::Cp => Some((0xB8u8, 0xFEu8)),
        _ => None,
    }
}

/// The encoding of an arithmetic operand `x` (after an optional `A,`).
pub open spec fn z80_alu_operand(base: u8, imm: u8, x: ParsedOperand) -> Option<(u8, ImmKind)> {
    if r8(x) is Some {
        Some(((base + r8(x).unwrap()) as u8, ImmKind::NoImm))
    } else if is_value(x) {
        Some((imm, ImmKind::Imm8))
    } else {
        None
    }
}

pub open spec fn reg_a() -> ParsedOperand {
    ParsedOperand::Reg(Register::A)
}

/// The 8080 encoding of a Z80 instruction.
pub open spec fn z80_encoding(m: Mnemonic, ops: Seq<ParsedOperand>) -> Option<(u8, ImmKind)> {
    let n = ops.len();
    if z80_alu(m) is Some {
        let (base, imm) = z80_alu(m).unwrap();
        if m is Add && n == 2 && ops[0] == ParsedOperand::RegPair(RegisterPair::HL) && rp_sp(ops[1]) is Some {
            Some(((0x09 + 16 * rp_sp(ops[1]).unwrap()) as u8, ImmKind::NoImm))
        } else if n == 2 && ops[0] == reg_a() {
            z80_alu_operand(base, imm, ops[1])
        } else if n == 1 {
            z80_alu_operand(base, imm, ops[0])
        } else {
            None
        }
    } else {
        match m {
            Mnemonic::Ld => if n != 2 {
                None
            } else if r8(ops[0]) is Some && r8(ops[1]) is Some {
                if ops[0] is Memory && ops[1] is Memory {
                    None
                } else {
                    Some(((0x40 + 8 * r8(ops[0]).unwrap() + r8(ops[1]).unwrap()) as u8, ImmKind::NoImm))
                }
            } else if r8(ops[0]) is Some && is_value(ops[1]) {
                Some(((0x06 + 8 * r8(ops[0]).unwrap()) as u8, ImmKind::Imm8))
            } else if rp_sp(ops[0]) is Some && is_value(ops[1]) {
                Some(((0x01 + 16 * rp_sp(ops[0]).unwrap()) as u8, ImmKind::Imm16))
            } else if ops[0] == ParsedOperand::RegPair(RegisterPair::HL) && ops[1] is Mem16 {
                Some((0x2Au8, ImmKind::Imm16))
            } else if ops[0] is Mem16 && ops[1] == ParsedOperand::RegPair(RegisterPair::HL) {
                Some((0x22u8, ImmKind::Imm16))
            } else if ops[0] == reg_a() && ops[1] is Mem16 {
                Some((0x3Au8, ImmKind::Imm16))
            } else if ops[0] is Mem16 && ops[1] == reg_a() {
                Some((0x32u8, ImmKind::Imm16))
            } else if ops[0] == reg_a() && ops[1] == ParsedOperand::RegPair(RegisterPair::BC) {
                Some((0x0Au8, ImmKind::NoImm))
            } else if ops[0] == reg_a() && ops[1] == ParsedOperand::RegPair(RegisterPair::DE) {
                Some((0x1Au8, ImmKind::NoImm))
            } else if ops[0] == ParsedOperand::RegPair(RegisterPair::BC) && ops[1] == reg_a() {
                Some((0x02u8, ImmKind::NoImm))
            } else if ops[0] == ParsedOperand::RegPair(RegisterPair::DE) && ops[1] == reg_a() {
                Some((0x12u8, ImmKind::NoImm))
            } else if ops[0] == ParsedOperand::RegPair(RegisterPair::SP) && ops[1] == ParsedOperand::RegPair(
                RegisterPair::HL,
            ) {
                Some((0xF9u8, ImmKind::NoImm))
            } else {
                None
            },
            Mnemonic::Inc => if n == 1 && r8(ops[0]) is Some {
                Some(((0x04 + 8 * r8(ops[0]).unwrap()) as u8, ImmKind::NoImm))
            } else if n == 1 && rp_sp(ops[0]) is Some {
                Some(((0x03 + 16 * rp_sp(ops[0]).unwrap()) as u8, ImmKind::NoImm))
            } else {
                None
            },
            Mnemonic::Dec => if n == 1 && r8(ops[0]) is Some {
                Some(((0x05 + 8 * r8(ops[0]).unwrap()) as u8, ImmKind::NoImm))
            } else if n == 1 && rp_sp(ops[0]) is Some {
                Some(((0x0B + 16 * rp_sp(ops[0]).unwrap()) as u8, ImmKind::NoImm))
            } else {
                None
            },
            Mnemonic::Jp => if n == 1 && is_value(ops[0]) {
                Some((0xC3u8, ImmKind::Imm16))
            } else if n == 1 && ops[0] is Memory {
                Some((0xE9u8, ImmKind::NoImm))
            } else if n == 2 && z80_cond(ops[0]) is Some && is_value(ops[1]) {
                Some(((0xC2 + 8 * z80_cond(ops[0]).unwrap()) as u8, ImmKind::Imm16))
            } else {
                None
            },
            Mnemonic::Call => if n == 1 && is_value(ops[0]) {
                Some((0xCDu8, ImmKind::Imm16))
            } else if n == 2 && z80_cond(ops[0]) is Some && is_value(ops[1]) {
                Some(((0xC4 + 8 * z80_cond(ops[0]).unwrap()) as u8, ImmKind::Imm16))
            } else {
                None
            },
            Mnemonic::Ret => if n == 0 {
                Some((0xC9u8, ImmKind::NoImm))
            } else if n == 1 && z80_cond(ops[0]) is Some {
                Some(((0xC0 + 8 * z80_cond(ops[0]).unwrap()) as u8, ImmKind::NoImm))
            } else {
                None
            },
            Mnemonic::Ex => if n == 2 && ops[0] == ParsedOperand::RegPair(RegisterPair::DE) && ops[1]
                == ParsedOperand::RegPair(RegisterPair::HL) {
                Some((0xEBu8, ImmKind::NoImm))
            } else if n == 2 && ops[0] == ParsedOperand::RegPair(RegisterPair::SP) && ops[1]
                == ParsedOperand::RegPair(RegisterPair::HL) {
                Some((0xE3u8, ImmKind::NoImm))
            } else {
                None
            },
            Mnemonic::In => if n == 2 && ops[0] == reg_a() && ops[1] is Mem16 {
                Some((0xDBu8, ImmKind::Imm8))
            } else {
                i8080_encoding(m, ops)
            },
            Mnemonic::Out => if n == 2 && ops[0] is Mem16 && ops[1] == reg_a() {
                Some((0xD3u8, ImmKind::Imm8))
            } else {
                i8080_encoding(m, ops)
            },
            _ => None,
        }
    }
}

/// The encoding of `m` with `ops`: Z80 mnemonics follow the Z80 rules in Z80
/// mode; everything else follows the 8080 rules.
pub open spec fn encoding_of(m: Mnemonic, ops: Seq<ParsedOperand>, z80: bool) -> Option<(u8, ImmKind)> {
    if z80 && is_z80_mnemonic(m) {
        z80_encoding(m, ops)
    } else {
        i8080_encoding(m, ops)
    }
}

/// `INX` and `DCX` follow the 8080 opcode table in either CPU mode: `INX rp`
/// is the single byte 0x03 + 16 * rp and `DCX rp` is 0x0B + 16 * rp (BC 0,
/// DE 1, HL 2, SP 3), so the two never share an opcode.
pub proof fn law_inx_and_dcx_follow_the_opcode_table(z80: bool)
    ensures
        mnemonic_of(seq!['I', 'N', 'X']) == Some(Mnemonic::Inx),
        mnemonic_of(seq!['D', 'C', 'X']) == Some(Mnemonic::Dcx),
        encoding_of(Mnemonic::Inx, seq![ParsedOperand::RegPair(RegisterPair::BC)], z80) == Some((0x03u8, ImmKind::NoImm)),
        encoding_of(Mnemonic::Inx, seq![ParsedOperand::RegPair(RegisterPair::DE)], z80) == Some((0x13u8, ImmKind::NoImm)),
        encoding_of(Mnemonic::Inx, seq![ParsedOperand::RegPair(RegisterPair::HL)], z80) == Some((0x23u8, ImmKind::NoImm)),
        encoding_of(Mnemonic::Inx, seq![ParsedOperand::RegPair(RegisterPair::SP)], z80) == Some((0x33u8, ImmKind::NoImm)),
        encoding_of(Mnemonic::Dcx, seq![ParsedOperand::RegPair(RegisterPair::BC)], z80) == Some((0x0Bu8, ImmKind::NoImm)),
        encoding_of(Mnemonic::Dcx, seq![ParsedOperand::RegPair(RegisterPair::DE)], z80) == Some((0x1Bu8, ImmKind::NoImm)),
        encoding_of(Mnemonic::Dcx, seq![ParsedOperand::RegPair(RegisterPair::HL)], z80) == Some((0x2Bu8, ImmKind::NoImm)),
        encoding_of(Mnemonic::Dcx, seq![ParsedOperand::RegPair(RegisterPair::SP)], z80) == Some((0x3Bu8, ImmKind::NoImm)),
        forall|a: Seq<ParsedOperand>, b: Seq<ParsedOperand>|
            #![trigger encoding_of(Mnemonic::Inx, a, z80), encoding_of(Mnemonic::Dcx, b, z80)]
            match (encoding_of(Mnemonic::Inx, a, z80), encoding_of(Mnemonic::Dcx, b, z80)) {
                (Some((x, _)), Some((y, _))) => x != y,
                _ => true,
            },
{
}

/// `PUSH` and `POP` follow the 8080 opcode table in either CPU mode: `PUSH
/// rp` is the single byte 0xC5 + 16 * rp and `POP rp` is 0xC1 + 16 * rp
/// (BC 0, DE 1, HL 2, PSW 3).
pub proof fn law_push_and_pop_follow_the_opcode_table(z80: bool)
    ensures
        mnemonic_of(seq!['P', 'U', 'S', 'H']) == Some(Mnemonic::Push),
        mnemonic_of(seq!['P', 'O', 'P']) == Some(Mnemonic::Pop),
        encoding_of(Mnemonic::Push, seq![ParsedOperand::RegPair(RegisterPair::BC)], z80) == Some((0xC5u8, ImmKind::NoImm)),
        encoding_of(Mnemonic::Push, seq![ParsedOperand::RegPair(RegisterPair::DE)], z80) == Some((0xD5u8, ImmKind::NoImm)),
        encoding_of(Mnemonic::Push, seq![ParsedOperand::RegPair(RegisterPair::HL)], z80) == Some((0xE5u8, ImmKind::NoImm)),
        encoding_of(Mnemonic::Push, seq![ParsedOperand::RegPair(RegisterPair::PSW)], z80) == Some((0xF5u8, ImmKind::NoImm)),
        encoding_of(Mnemonic::Pop, seq![ParsedOperand::RegPair(RegisterPair::BC)], z80) == Some((0xC1u8, ImmKind::NoImm)),
        encoding_of(Mnemonic::Pop, seq![ParsedOperand::RegPair(RegisterPair::DE)], z80) == Some((0xD1u8, ImmKind::NoImm)),
        encoding_of(Mnemonic::Pop, seq![ParsedOperand::RegPair(RegisterPair::HL)], z80) == Some((0xE1u8, ImmKind::NoImm)),
        encoding_of(Mnemonic::Pop, seq![ParsedOperand::RegPair(RegisterPair::PSW)], z80) == Some((0xF1u8, ImmKind::NoImm)),
{
}

/// Each mnemonic, written in upper case, names its own instruction: the
/// names are told apart by their length and their letters.
#[verifier::spinoff_prover]
#[verifier::rlimit(100)]
pub proof fn law_mnemonic_names()
    ensures
        mnemonic_of(seq!['M', 'O', 'V']) == Some(Mnemonic::Mov),
        mnemonic_of(seq!['M', 'V', 'I']) == Some(Mnemonic::Mvi),
        mnemonic_of(seq!['L', 'X', 'I']) == Some(Mnemonic::Lxi),
        mnemonic_of(seq!['L', 'D', 'A']) == Some(Mnemonic::Lda),
        mnemonic_of(seq!['S', 'T', 'A']) == Some(Mnemonic::Sta),
        mnemonic_of(seq!['L', 'H', 'L', 'D']) == Some(Mnemonic::Lhld),
        mnemonic_of(seq!['S', 'H', 'L', 'D']) == Some(Mnemonic::Shld),
        mnemonic_of(seq!['L', 'D', 'A', 'X']) == Some(Mnemonic::Ldax),
        mnemonic_of(seq!['S', 'T', 'A', 'X']) == Some(Mnemonic::Stax),
        mnemonic_of(seq!['X', 'C', 'H', 'G']) == Some(Mnemonic::Xchg),
        mnemonic_of(seq!['A', 'D', 'D']) == Some(Mnemonic::Add),
        mnemonic_of(seq!['A', 'D', 'C']) == Some(Mnemonic::Adc),
        mnemonic_of(seq!['S', 'U', 'B']) == Some(Mnemonic::Sub),
        mnemonic_of(seq!['S', 'B', 'B']) == Some(Mnemonic::Sbb),
        mnemonic_of(seq!['A', 'N', 'A']) == Some(Mnemonic::Ana),
        mnemonic_of(seq!['X', 'R', 'A']) == Some(Mnemonic::Xra),
        mnemonic_of(seq!['O', 'R', 'A']) == Some(Mnemonic::Ora),
        mnemonic_of(seq!['C', 'M', 'P']) == Some(Mnemonic::Cmp),
        mnemonic_of(seq!['A', 'D', 'I']) == Some(Mnemonic::Adi),
        mnemonic_of(seq!['A', 'C', 'I']) == Some(Mnemonic::Aci),
        mnemonic_of(seq!['S', 'U', 'I']) == Some(Mnemonic::Sui),
        mnemonic_of(seq!['S', 'B', 'I']) == Some(Mnemonic::Sbi),
        mnemonic_of(seq!['A', 'N', 'I']) == Some(Mnemonic::Ani),
        mnemonic_of(seq!['X', 'R', 'I']) == Some(Mnemonic::Xri),
        mnemonic_of(seq!['O', 'R', 'I']) == Some(Mnemonic::Ori),
        mnemonic_of(seq!['C', 'P', 'I']) == Some(Mnemonic::Cpi),
        mnemonic_of(seq!['R', 'L', 'C']) == Some(Mnemonic::Rlc),
        mnemonic_of(seq!['R', 'R', 'C']) == Some(Mnemonic::Rrc),
        mnemonic_of(seq!['R', 'A', 'L']) == Some(Mnemonic::Ral),
        mnemonic_of(seq!['R', 'A', 'R']) == Some(Mnemonic::Rar),
        mnemonic_of(seq!['J', 'M', 'P']) == Some(Mnemonic::Jmp),
        mnemonic_of(seq!['J', 'N', 'Z']) == Some(Mnemonic::Jnz),
        mnemonic_of(seq!['J', 'Z']) == Some(Mnemonic::Jz),
        mnemonic_of(seq!['J', 'N', 'C']) == Some(Mnemonic::Jnc),
        mnemonic_of(seq!['J', 'C']) == Some(Mnemonic::Jc),
        mnemonic_of(seq!['J', 'P', 'O']) == Some(Mnemonic::Jpo),
        mnemonic_of(seq!['J', 'P', 'E']) == Some(Mnemonic::Jpe),
        mnemonic_of(seq!['J', 'P']) == Some(Mnemonic::Jp),
        mnemonic_of(seq!['J', 'M']) == Some(Mnemonic::Jm),
        mnemonic_of(seq!['C', 'A', 'L', 'L']) == Some(Mnemonic::Call),
        mnemonic_of(seq!['C', 'N', 'Z']) == Some(Mnemonic::Cnz),
        mnemonic_of(seq!['C', 'Z']) == Some(Mnemonic::Cz),
        mnemonic_of(seq!['C', 'N', 'C']) == Some(Mnemonic::Cnc),
        mnemonic_of(seq!['C', 'C']) == Some(Mnemonic::Cc),
        mnemonic_of(seq!['C', 'P', 'O']) == Some(Mnemonic::Cpo),
        mnemonic_of(seq!['C', 'P', 'E']) == Some(Mnemonic::Cpe),
        mnemonic_of(seq!['C', 'P']) == Some(Mnemonic::Cp),
        mnemonic_of(seq!['C', 'M']) == Some(Mnemonic::Cm),
        mnemonic_of(seq!['R', 'E', 'T']) == Some(Mnemonic::Ret),
        mnemonic_of(seq!['R', 'N', 'Z']) == Some(Mnemonic::Rnz),
        mnemonic_of(seq!['R', 'Z']) == Some(Mnemonic::Rz),
        mnemonic_of(seq!['R', 'N', 'C']) == Some(Mnemonic::Rnc),
        mnemonic_of(seq!['R', 'C']) == Some(Mnemonic::Rc),
        mnemonic_of(seq!['R', 'P', 'O']) == Some(Mnemonic::Rpo),
        mnemonic_of(seq!['R', 'P', 'E']) == Some(Mnemonic::Rpe),
        mnemonic_of(seq!['R', 'P']) == Some(Mnemonic::Rp),
        mnemonic_of(seq!['R', 'M']) == Some(Mnemonic::Rm),
        mnemonic_of(seq!['P', 'U', 'S', 'H']) == Some(Mnemonic::Push),
        mnemonic_of(seq!['P', 'O', 'P']) == Some(Mnemonic::Pop),
        mnemonic_of(seq!['D', 'A', 'D']) == Some(Mnemonic::Dad),
        mnemonic_of(seq!['I', 'N', 'X']) == Some(Mnemonic::Inx),
        mnemonic_of(seq!['D', 'C', 'X']) == Some(Mnemonic::Dcx),
        mnemonic_of(seq!['I', 'N', 'R']) == Some(Mnemonic::Inr),
        mnemonic_of(seq!['D', 'C', 'R']) == Some(Mnemonic::Dcr),
        mnemonic_of(seq!['D', 'A', 'A']) == Some(Mnemonic::Daa),
        mnemonic_of(seq!['C', 'M', 'A']) == Some(Mnemonic::Cma),
        mnemonic_of(seq!['S', 'T', 'C']) == Some(Mnemonic::Stc),
        mnemonic_of(seq!['C', 'M', 'C']) == Some(Mnemonic::Cmc),
        mnemonic_of(seq!['H', 'L', 'T']) == Some(Mnemonic::Hlt),
        mnemonic_of(seq!['N', 'O', 'P']) == Some(Mnemonic::Nop),
        mnemonic_of(seq!['D', 'I']) == Some(Mnemonic::Di),
        mnemonic_of(seq!['E', 'I']) == Some(Mnemonic::Ei),
        mnemonic_of(seq!['I', 'N']) == Some(Mnemonic::In),
        mnemonic_of(seq!['O', 'U', 'T']) == Some(Mnemonic::Out),
        mnemonic_of(seq!['R', 'S', 'T']) == Some(Mnemonic::Rst),
        mnemonic_of(seq!['P', 'C', 'H', 'L']) == Some(Mnemonic::Pchl),
        mnemonic_of(seq!['S', 'P', 'H', 'L']) == Some(Mnemonic::Sphl),
        mnemonic_of(seq!['X', 'T', 'H', 'L']) == Some(Mnemonic::Xthl),
        mnemonic_of(seq!['L', 'D']) == Some(Mnemonic::Ld),
        mnemonic_of(seq!['S', 'B', 'C']) == Some(Mnemonic::Sbc),
        mnemonic_of(seq!['A', 'N', 'D']) == Some(Mnemonic::And),
        mnemonic_of(seq!['X', 'O', 'R']) == Some(Mnemonic::Xor),
        mnemonic_of(seq!['O', 'R']) == Some(Mnemonic::Or),
        mnemonic_of(seq!['I', 'N', 'C']) == Some(Mnemonic::Inc),
        mnemonic_of(seq!['D', 'E', 'C']) == Some(Mnemonic::Dec),
        mnemonic_of(seq!['E', 'X']) == Some(Mnemonic::Ex),
        mnemonic_of(seq!['H', 'A', 'L', 'T']) == Some(Mnemonic::Halt),
        mnemonic_of(seq!['R', 'L', 'C', 'A']) == Some(Mnemonic::Rlca),
        mnemonic_of(seq!['R', 'R', 'C', 'A']) == Some(Mnemonic::Rrca),
        mnemonic_of(seq!['R', 'L', 'A']) == Some(Mnemonic::Rla),
        mnemonic_of(seq!['R', 'R', 'A']) == Some(Mnemonic::Rra),
        mnemonic_of(seq!['C', 'P', 'L']) == Some(Mnemonic::Cpl),
        mnemonic_of(seq!['S', 'C', 'F']) == Some(Mnemonic::Scf),
        mnemonic_of(seq!['C', 'C', 'F']) == Some(Mnemonic::Ccf),
{
    assert(seq!['M', 'O', 'V'].len() == 3);
    assert(seq!['M', 'V', 'I'].len() == 3);
    assert(seq!['L', 'X', 'I'].len() == 3);
    assert(seq!['L', 'D', 'A'].len() == 3);
    assert(seq!['S', 'T', 'A'].len() == 3);
    assert(seq!['L', 'H', 'L', 'D'].len() == 4);
    assert(seq!['S', 'H', 'L', 'D'].len() == 4);
    assert(seq!['L', 'D', 'A', 'X'].len() == 4);
    assert(seq!['S', 'T', 'A', 'X'].len() == 4);
    assert(seq!['X', 'C', 'H', 'G'].len() == 4);
    assert(seq!['A', 'D', 'D'].len() == 3);
    assert(seq!['A', 'D', 'C'].len() == 3);
    assert(seq!['S', 'U', 'B'].len() == 3);
    assert(seq!['S', 'B', 'B'].len() == 3);
    assert(seq!['A', 'N', 'A'].len() == 3);
    assert(seq!['X', 'R', 'A'].len() == 3);
    assert(seq!['O', 'R', 'A'].len() == 3);
    assert(seq!['C', 'M', 'P'].len() == 3);
    assert(seq!['A', 'D', 'I'].len() == 3);
    assert(seq!['A', 'C', 'I'].len() == 3);
    assert(seq!['S', 'U', 'I'].len() == 3);
    assert(seq!['S', 'B', 'I'].len() == 3);
    assert(seq!['A', 'N', 'I'].len() == 3);
    assert(seq!['X', 'R', 'I'].len() == 3);
    assert(seq!['O', 'R', 'I'].len() == 3);
    assert(seq!['C', 'P', 'I'].len() == 3);
    assert(seq!['R', 'L', 'C'].len() == 3);
    assert(seq!['R', 'R', 'C'].len() == 3);
    assert(seq!['R', 'A', 'L'].len() == 3);
    assert(seq!['R', 'A', 'R'].len() == 3);
    assert(seq!['J', 'M', 'P'].len() == 3);
    assert(seq!['J', 'N', 'Z'].len() == 3);
    assert(seq!['J', 'Z'].len() == 2);
    assert(seq!['J', 'N', 'C'].len() == 3);
    assert(seq!['J', 'C'].len() == 2);
    assert(seq!['J', 'P', 'O'].len() == 3);
    assert(seq!['J', 'P', 'E'].len() == 3);
    assert(seq!['J', 'P'].len() == 2);
    assert(seq!['J', 'M'].len() == 2);
    assert(seq!['C', 'A', 'L', 'L'].len() == 4);
    assert(seq!['C', 'N', 'Z'].len() == 3);
    assert(seq!['C', 'Z'].len() == 2);
    assert(seq!['C', 'N', 'C'].len() == 3);
    assert(seq!['C', 'C'].len() == 2);
    assert(seq!['C', 'P', 'O'].len() == 3);
    assert(seq!['C', 'P', 'E'].len() == 3);
    assert(seq!['C', 'P'].len() == 2);
    assert(seq!['C', 'M'].len() == 2);
    assert(seq!['R', 'E', 'T'].len() == 3);
    assert(seq!['R', 'N', 'Z'].len() == 3);
    assert(seq!['R', 'Z'].len() == 2);
    assert(seq!['R', 'N', 'C'].len() == 3);
    assert(seq!['R', 'C'].len() == 2);
    assert(seq!['R', 'P', 'O'].len() == 3);
    assert(seq!['R', 'P', 'E'].len() == 3);
    assert(seq!['R', 'P'].len() == 2);
    assert(seq!['R', 'M'].len() == 2);
    assert(seq!['P', 'U', 'S', 'H'].len() == 4);
    assert(seq!['P', 'O', 'P'].len() == 3);
    assert(seq!['D', 'A', 'D'].len() == 3);
    assert(seq!['I', 'N', 'X'].len() == 3);
    assert(seq!['D', 'C', 'X'].len() == 3);
    assert(seq!['I', 'N', 'R'].len() == 3);
    assert(seq!['D', 'C', 'R'].len() == 3);
    assert(seq!['D', 'A', 'A'].len() == 3);
    assert(seq!['C', 'M', 'A'].len() == 3);
    assert(seq!['S', 'T', 'C'].len() == 3);
    assert(seq!['C', 'M', 'C'].len() == 3);
    assert(seq!['H', 'L', 'T'].len() == 3);
    assert(seq!['N', 'O', 'P'].len() == 3);
    assert(seq!['D', 'I'].len() == 2);
    assert(seq!['E', 'I'].len() == 2);
    assert(seq!['I', 'N'].len() == 2);
    assert(seq!['O', 'U', 'T'].len() == 3);
    assert(seq!['R', 'S', 'T'].len() == 3);
    assert(seq!['P', 'C', 'H', 'L'].len() == 4);
    assert(seq!['S', 'P', 'H', 'L'].len() == 4);
    assert(seq!['X', 'T', 'H', 'L'].len() == 4);
    assert(seq!['L', 'D'].len() == 2);
    assert(seq!['S', 'B', 'C'].len() == 3);
    assert(seq!['A', 'N', 'D'].len() == 3);
    assert(seq!['X', 'O', 'R'].len() == 3);
    assert(seq!['O', 'R'].len() == 2);
    assert(seq!['I', 'N', 'C'].len() == 3);
    assert(seq!['D', 'E', 'C'].len() == 3);
    assert(seq!['E', 'X'].len() == 2);
    assert(seq!['H', 'A', 'L', 'T'].len() == 4);
    assert(seq!['R', 'L', 'C', 'A'].len() == 4);
    assert(seq!['R', 'R', 'C', 'A'].len() == 4);
    assert(seq!['R', 'L', 'A'].len() == 3);
    assert(seq!['R', 'R', 'A'].len() == 3);
    assert(seq!['C', 'P', 'L'].len() == 3);
    assert(seq!['S', 'C', 'F'].len() == 3);
    assert(seq!['C', 'C', 'F'].len() == 3);
}

/// The register field of the 8080 opcode table: B 0, C 1, D 2, E 3, H 4,
/// L 5, memory (M) 6, A 7; -1 for any other operand.
pub open spec fn table_register(op: ParsedOperand) -> int {
    match op {
        ParsedOperand::Reg(Register::B) => 0,
        ParsedOperand::Reg(Register::C) => 1,
        ParsedOperand::Reg(Register::D) => 2,
        ParsedOperand::Reg(Register::E) => 3,
        ParsedOperand::Reg(Register::H) => 4,
        ParsedOperand::Reg(Register::L) => 5,
        ParsedOperand::Memory => 6,
        ParsedOperand::Reg(Register::A) => 7,
        _ => -1,
    }
}

/// In 8080 mode the instructions without operands are the single bytes of
/// the 8080 opcode table, and take no operands.
pub proof fn law_8080_single_byte_opcodes(ops: Seq<ParsedOperand>)
    requires
        ops.len() > 0,
    ensures
        encoding_of(Mnemonic::Xchg, seq![], false) == Some((0xEBu8, ImmKind::NoImm)),
        encoding_of(Mnemonic::Rlc, seq![], false) == Some((0x07u8, ImmKind::NoImm)),
        encoding_of(Mnemonic::Rrc, seq![], false) == Some((0x0Fu8, ImmKind::NoImm)),
        encoding_of(Mnemonic::Ral, seq![], false) == Some((0x17u8, ImmKind::NoImm)),
        encoding_of(Mnemonic::Rar, seq![], false) == Some((0x1Fu8, ImmKind::NoImm)),
        encoding_of(Mnemonic::Daa, seq![], false) == Some((0x27u8, ImmKind::NoImm)),
        encoding_of(Mnemonic::Cma, seq![], false) == Some((0x2Fu8, ImmKind::NoImm)),
        encoding_of(Mnemonic::Stc, seq![], false) == Some((0x37u8, ImmKind::NoImm)),
        encoding_of(Mnemonic::Cmc, seq![], false) == Some((0x3Fu8, ImmKind::NoImm)),
        encoding_of(Mnemonic::Hlt, seq![], false) == Some((0x76u8, ImmKind::NoImm)),
        encoding_of(Mnemonic::Nop, seq![], false) == Some((0x00u8, ImmKind::NoImm)),
        encoding_of(Mnemonic::Di, seq![], false) == Some((0xF3u8, ImmKind::NoImm)),
        encoding_of(Mnemonic::Ei, seq![], false) == Some((0xFBu8, ImmKind::NoImm)),
        encoding_of(Mnemonic::Pchl, seq![], false) == Some((0xE9u8, ImmKind::NoImm)),
        encoding_of(Mnemonic::Sphl, seq![], false) == Some((0xF9u8, ImmKind::NoImm)),
        encoding_of(Mnemonic::Xthl, seq![], false) == Some((0xE3u8, ImmKind::NoImm)),
        encoding_of(Mnemonic::Ret, seq![], false) == Some((0xC9u8, ImmKind::NoImm)),
        encoding_of(Mnemonic::Rnz, seq![], false) == Some((0xC0u8, ImmKind::NoImm)),
        encoding_of(Mnemonic::Rz, seq![], false) == Some((0xC8u8, ImmKind::NoImm)),
        encoding_of(Mnemonic::Rnc, seq![], false) == Some((0xD0u8, ImmKind::NoImm)),
        encoding_of(Mnemonic::Rc, seq![], false) == Some((0xD8u8, ImmKind::NoImm)),
        encoding_of(Mnemonic::Rpo, seq![], false) == Some((0xE0u8, ImmKind::NoImm)),
        encoding_of(Mnemonic::Rpe, seq![], false) == Some((0xE8u8, ImmKind::NoImm)),
        encoding_of(Mnemonic::Rp, seq![], false) == Some((0xF0u8, ImmKind::NoImm)),
        encoding_of(Mnemonic::Rm, seq![], false) == Some((0xF8u8, ImmKind::NoImm)),
        encoding_of(Mnemonic::Xchg, ops, false) is None,
        encoding_of(Mnemonic::Rlc, ops, false) is None,
        encoding_of(Mnemonic::Rrc, ops, false) is None,
        encoding_of(Mnemonic::Ral, ops, false) is None,
        encoding_of(Mnemonic::Rar, ops, false) is None,
        encoding_of(Mnemonic::Daa, ops, false) is None,
        encoding_of(Mnemonic::Cma, ops, false) is None,
        encoding_of(Mnemonic::Stc, ops, false) is None,
        encoding_of(Mnemonic::Cmc, ops, false) is None,
        encoding_of(Mnemonic::Hlt, ops, false) is None,
        encoding_of(Mnemonic::Nop, ops, false) is None,
        encoding_of(Mnemonic::Di, ops, false) is None,
        encoding_of(Mnemonic::Ei, ops, false) is None,
        encoding_of(Mnemonic::Pchl, ops, false) is None,
        encoding_of(Mnemonic::Sphl, ops, false) is None,
        encoding_of(Mnemonic::Xthl, ops, false) is None,
        encoding_of(Mnemonic::Ret, ops, false) is None,
        encoding_of(Mnemonic::Rnz, ops, false) is None,
        encoding_of(Mnemonic::Rz, ops, false) is None,
        encoding_of(Mnemonic::Rnc, ops, false) is None,
        encoding_of(Mnemonic::Rc, ops, false) is None,
        encoding_of(Mnemonic::Rpo, ops, false) is None,
        encoding_of(Mnemonic::Rpe, ops, false) is None,
        encoding_of(Mnemonic::Rp, ops, false) is None,
        encoding_of(Mnemonic::Rm, ops, false) is None,
{
}

/// In 8080 mode the instructions with a 16-bit address or value are the
/// opcode of the 8080 table followed by two bytes, and those with an 8-bit
/// value the opcode followed by one byte.
pub proof fn law_8080_value_opcodes()
    ensures
        encoding_of(Mnemonic::Jmp, seq![ParsedOperand::Imm16], false) == Some((0xC3u8, ImmKind::Imm16)),
        encoding_of(Mnemonic::Jnz, seq![ParsedOperand::Imm16], false) == Some((0xC2u8, ImmKind::Imm16)),
        encoding_of(Mnemonic::Jz, seq![ParsedOperand::Imm16], false) == Some((0xCAu8, ImmKind::Imm16)),
        encoding_of(Mnemonic::Jnc, seq![ParsedOperand::Imm16], false) == Some((0xD2u8, ImmKind::Imm16)),
        encoding_of(Mnemonic::Jc, seq![ParsedOperand::Imm16], false) == Some((0xDAu8, ImmKind::Imm16)),
        encoding_of(Mnemonic::Jpo, seq![ParsedOperand::Imm16], false) == Some((0xE2u8, ImmKind::Imm16)),
        encoding_of(Mnemonic::Jpe, seq![ParsedOperand::Imm16], false) == Some((0xEAu8, ImmKind::Imm16)),
        encoding_of(Mnemonic::Jp, seq![ParsedOperand::Imm16], false) == Some((0xF2u8, ImmKind::Imm16)),
        encoding_of(Mnemonic::Jm, seq![ParsedOperand::Imm16], false) == Some((0xFAu8, ImmKind::Imm16)),
        encoding_of(Mnemonic::Call, seq![ParsedOperand::Imm16], false) == Some((0xCDu8, ImmKind::Imm16)),
        encoding_of(Mnemonic::Cnz, seq![ParsedOperand::Imm16], false) == Some((0xC4u8, ImmKind::Imm16)),
        encoding_of(Mnemonic::Cz, seq![ParsedOperand::Imm16], false) == Some((0xCCu8, ImmKind::Imm16)),
        encoding_of(Mnemonic::Cnc, seq![ParsedOperand::Imm16], false) == Some((0xD4u8, ImmKind::Imm16)),
        encoding_of(Mnemonic::Cc, seq![ParsedOperand::Imm16], false) == Some((0xDCu8, ImmKind::Imm16)),
        encoding_of(Mnemonic::Cpo, seq![ParsedOperand::Imm16], false) == Some((0xE4u8, ImmKind::Imm16)),
        encoding_of(Mnemonic::Cpe, seq![ParsedOperand::Imm16], false) == Some((0xECu8, ImmKind::Imm16)),
        encoding_of(Mnemonic::Cp, seq![ParsedOperand::Imm16], false) == Some((0xF4u8, ImmKind::Imm16)),
        encoding_of(Mnemonic::Cm, seq![ParsedOperand::Imm16], false) == Some((0xFCu8, ImmKind::Imm16)),
        encoding_of(Mnemonic::Lda, seq![ParsedOperand::Imm16], false) == Some((0x3Au8, ImmKind::Imm16)),
        encoding_of(Mnemonic::Sta, seq![ParsedOperand::Imm16], false) == Some((0x32u8, ImmKind::Imm16)),
        encoding_of(Mnemonic::Lhld, seq![ParsedOperand::Imm16], false) == Some((0x2Au8, ImmKind::Imm16)),
        encoding_of(Mnemonic::Shld, seq![ParsedOperand::Imm16], false) == Some((0x22u8, ImmKind::Imm16)),
        encoding_of(Mnemonic::Adi, seq![ParsedOperand::Imm8], false) == Some((0xC6u8, ImmKind::Imm8)),
        encoding_of(Mnemonic::Aci, seq![ParsedOperand::Imm8], false) == Some((0xCEu8, ImmKind::Imm8)),
        encoding_of(Mnemonic::Sui, seq![ParsedOperand::Imm8], false) == Some((0xD6u8, ImmKind::Imm8)),
        encoding_of(Mnemonic::Sbi, seq![ParsedOperand::Imm8], false) == Some((0xDEu8, ImmKind::Imm8)),
        encoding_of(Mnemonic::Ani, seq![ParsedOperand::Imm8], false) == Some((0xE6u8, ImmKind::Imm8)),
        encoding_of(Mnemonic::Xri, seq![ParsedOperand::Imm8], false) == Some((0xEEu8, ImmKind::Imm8)),
        encoding_of(Mnemonic::Ori, seq![ParsedOperand::Imm8], false) == Some((0xF6u8, ImmKind::Imm8)),
        encoding_of(Mnemonic::Cpi, seq![ParsedOperand::Imm8], false) == Some((0xFEu8, ImmKind::Imm8)),
        encoding_of(Mnemonic::In, seq![ParsedOperand::Imm8], false) == Some((0xDBu8, ImmKind::Imm8)),
        encoding_of(Mnemonic::Out, seq![ParsedOperand::Imm8], false) == Some((0xD3u8, ImmKind::Imm8)),
{
}

/// In 8080 mode the register instructions follow the 8080 opcode table:
/// `MOV d,s` is 0x40 + 8d + s (not both memory), `MVI r` 0x06 + 8r with a
/// byte, `INR r` 0x04 + 8r, `DCR r` 0x05 + 8r, and the accumulator group
/// `ADD ADC SUB SBB ANA XRA ORA CMP r` 0x80 + 8k + r, where r is the
/// register field of `table_register`.
pub proof fn law_8080_register_opcodes(d: ParsedOperand, r: ParsedOperand)
    requires
        table_register(d) >= 0,
        table_register(r) >= 0,
    ensures
        !(d is Memory && r is Memory) ==> encoding_of(Mnemonic::Mov, seq![d, r], false) == Some(
            ((0x40 + 8 * table_register(d) + table_register(r)) as u8, ImmKind::NoImm),
        ),
        d is Memory && r is Memory ==> encoding_of(Mnemonic::Mov, seq![d, r], false) is None,
        encoding_of(Mnemonic::Mvi, seq![r, ParsedOperand::Imm8], false) == Some(
            ((0x06 + 8 * table_register(r)) as u8, ImmKind::Imm8),
        ),
        encoding_of(Mnemonic::Inr, seq![r], false) == Some(((0x04 + 8 * table_register(r)) as u8, ImmKind::NoImm)),
        encoding_of(Mnemonic::Dcr, seq![r], false) == Some(((0x05 + 8 * table_register(r)) as u8, ImmKind::NoImm)),
        encoding_of(Mnemonic::Add, seq![r], false) == Some(((0x80 + table_register(r)) as u8, ImmKind::NoImm)),
        encoding_of(Mnemonic::Adc, seq![r], false) == Some(((0x88 + table_register(r)) as u8, ImmKind::NoImm)),
        encoding_of(Mnemonic::Sub, seq![r], false) == Some(((0x90 + table_register(r)) as u8, ImmKind::NoImm)),
        encoding_of(Mnemonic::Sbb, seq![r], false) == Some(((0x98 + table_register(r)) as u8, ImmKind::NoImm)),
        encoding_of(Mnemonic::Ana, seq![r], false) == Some(((0xA0 + table_register(r)) as u8, ImmKind::NoImm)),
        encoding_of(Mnemonic::Xra, seq![r], false) == Some(((0xA8 + table_register(r)) as u8, ImmKind::NoImm)),
        encoding_of(Mnemonic::Ora, seq![r], false) == Some(((0xB0 + table_register(r)) as u8, ImmKind::NoImm)),
        encoding_of(Mnemonic::Cmp, seq![r], false) == Some(((0xB8 + table_register(r)) as u8, ImmKind::NoImm)),
{
}

/// In 8080 mode the register-pair instructions follow the 8080 opcode
/// table: `LXI rp` is 0x01 + 16 * rp with two bytes, `DAD rp` 0x09 + 16 * rp
/// (BC 0, DE 1, HL 2, SP 3); `LDAX` and `STAX` take BC or DE only; `PUSH`
/// and `POP` do not take SP, and the others do not take PSW.
pub proof fn law_8080_pair_opcodes()
    ensures
        encoding_of(Mnemonic::Lxi, seq![ParsedOperand::RegPair(RegisterPair::BC), ParsedOperand::Imm16], false) == Some((0x01u8, ImmKind::Imm16)),
        encoding_of(Mnemonic::Lxi, seq![ParsedOperand::RegPair(RegisterPair::DE), ParsedOperand::Imm16], false) == Some((0x11u8, ImmKind::Imm16)),
        encoding_of(Mnemonic::Lxi, seq![ParsedOperand::RegPair(RegisterPair::HL), ParsedOperand::Imm16], false) == Some((0x21u8, ImmKind::Imm16)),
        encoding_of(Mnemonic::Lxi, seq![ParsedOperand::RegPair(RegisterPair::SP), ParsedOperand::Imm16], false) == Some((0x31u8, ImmKind::Imm16)),
        encoding_of(Mnemonic::Dad, seq![ParsedOperand::RegPair(RegisterPair::BC)], false) == Some((0x09u8, ImmKind::NoImm)),
        encoding_of(Mnemonic::Dad, seq![ParsedOperand::RegPair(RegisterPair::DE)], false) == Some((0x19u8, ImmKind::NoImm)),
        encoding_of(Mnemonic::Dad, seq![ParsedOperand::RegPair(RegisterPair::HL)], false) == Some((0x29u8, ImmKind::NoImm)),
        encoding_of(Mnemonic::Dad, seq![ParsedOperand::RegPair(RegisterPair::SP)], false) == Some((0x39u8, ImmKind::NoImm)),
        encoding_of(Mnemonic::Ldax, seq![ParsedOperand::RegPair(RegisterPair::BC)], false) == Some((0x0Au8, ImmKind::NoImm)),
        encoding_of(Mnemonic::Ldax, seq![ParsedOperand::RegPair(RegisterPair::DE)], false) == Some((0x1Au8, ImmKind::NoImm)),
        encoding_of(Mnemonic::Stax, seq![ParsedOperand::RegPair(RegisterPair::BC)], false) == Some((0x02u8, ImmKind::NoImm)),
        encoding_of(Mnemonic::Stax, seq![ParsedOperand::RegPair(RegisterPair::DE)], false) == Some((0x12u8, ImmKind::NoImm)),
        encoding_of(Mnemonic::Ldax, seq![ParsedOperand::RegPair(RegisterPair::HL)], false) is None,
        encoding_of(Mnemonic::Stax, seq![ParsedOperand::RegPair(RegisterPair::HL)], false) is None,
        encoding_of(Mnemonic::Push, seq![ParsedOperand::RegPair(RegisterPair::SP)], false) is None,
        encoding_of(Mnemonic::Pop, seq![ParsedOperand::RegPair(RegisterPair::SP)], false) is None,
        encoding_of(Mnemonic::Lxi, seq![ParsedOperand::RegPair(RegisterPair::PSW), ParsedOperand::Imm16], false) is None,
        encoding_of(Mnemonic::Dad, seq![ParsedOperand::RegPair(RegisterPair::PSW)], false) is None,
        encoding_of(Mnemonic::Inx, seq![ParsedOperand::RegPair(RegisterPair::PSW)], false) is None,
        encoding_of(Mnemonic::Dcx, seq![ParsedOperand::RegPair(RegisterPair::PSW)], false) is None,
{
}

/// In 8080 mode `RST n` is the single byte 0xC7 + 8n for the vectors 0..7.
pub proof fn law_8080_restart_opcodes(n: u8)
    requires
        n < 8,
    ensures
        encoding_of(Mnemonic::Rst, seq![ParsedOperand::RstNum(n)], false) == Some(((0xC7 + 8 * n) as u8, ImmKind::NoImm)),
{
}

/// The number of bytes an instruction with this immediate kind takes.
pub open spec fn imm_size(k: ImmKind) -> nat {
    match k {
        ImmKind::NoImm => 1,
        ImmKind::Imm8 => 2,
        ImmKind::Imm16 => 3,
    }
}

// ---- executable encoder ----

fn reg_code_exec(r: Register) -> (c: u8)
    ensures
        c == reg_code(r),
{
    match r {
        Register::B => 0,
        Register::C => 1,
        Register::D => 2,
        Register::E => 3,
        Register::H => 4,
        Register::L => 5,
        Register::A => 7,
    }
}

fn r8_exec(op: ParsedOperand) -> (r: Option<u8>)
    ensures
        r == r8(op),
        r matches Some(c) ==> c < 8,
{
    match op {
        ParsedOperand::Reg(r) => Some(reg_code_exec(r)),
        ParsedOperand::Memory => Some(6),
        _ => None,
    }
}

fn rp_sp_exec(op: ParsedOperand) -> (r: Option<u8>)
    ensures
        r == rp_sp(op),
        r matches Some(c) ==> c < 4,
{
    match op {
        ParsedOperand::RegPair(RegisterPair::BC) => Some(0),
        ParsedOperand::RegPair(RegisterPair::DE) => Some(1),
        ParsedOperand::RegPair(RegisterPair::HL) => Some(2),
        ParsedOperand::RegPair(RegisterPair::SP) => Some(3),
        _ => None,
    }
}

fn rp_psw_exec(op: ParsedOperand) -> (r: Option<u8>)
    ensures
        r == rp_psw(op),
        r matches Some(c) ==> c < 4,
{
    match op {
        ParsedOperand::RegPair(RegisterPair::BC) => Some(0),
        ParsedOperand::RegPair(RegisterPair::DE) => Some(1),
        ParsedOperand::RegPair(RegisterPair::HL) => Some(2),
        ParsedOperand::RegPair(RegisterPair::PSW) => Some(3),
        _ => None,
    }
}

fn cc_code_exec(c: Condition) -> (r: u8)
    ensures
        r == cc_code(c),
{
    match c {
        Condition::NZ => 0,
        Condition::Z => 1,
        Condition::NC => 2,
        Condition::C => 3,
        Condition::PO => 4,
        Condition::PE => 5,
        Condition::P => 6,
        Condition::M => 7,
    }
}

fn z80_cond_exec(op: ParsedOperand) -> (r: Option<u8>)
    ensures
        r == z80_cond(op),
        r matches Some(c) ==> c < 8,
{
    match op {
        ParsedOperand::Condition(c) => Some(cc_code_exec(c)),
        ParsedOperand::Memory => Some(7),
        _ => None,
    }
}

fn is_value_exec(op: ParsedOperand) -> (r: bool)
    ensures
        r == is_value(op),
{
    match op {
        ParsedOperand::Imm8 | ParsedOperand::Imm16 => true,
        _ => false,
    }
}

fn is_pair(op: ParsedOperand, p: RegisterPair) -> (r: bool)
    ensures
        r == (op == ParsedOperand::RegPair(p)),
{
    match op {
        ParsedOperand::RegPair(q) => q == p,
        _ => false,
    }
}

fn is_reg_a(op: ParsedOperand) -> (r: bool)
    ensures
        r == (op == reg_a()),
{
    match op {
        ParsedOperand::Reg(Register::A) => true,
        _ => false,
    }
}

fn is_memory(op: ParsedOperand) -> (r: bool)
    ensures
        r == (op is Memory),
{
    match op {
        ParsedOperand::Memory => true,
        _ => false,
    }
}

fn is_mem16(op: ParsedOperand) -> (r: bool)
    ensures
        r == (op is Mem16),
{
    match op {
        ParsedOperand::Mem16 => true,
        _ => false,
    }
}

fn implied_exec(m: Mnemonic) -> (r: Option<u8>)
    ensures
        r == implied_opcode(m),
{
    match m {
        Mnemonic::Xchg => Some(0xEB),
        Mnemonic::Rlc | Mnemonic::Rlca => Some(0x07),
        Mnemonic::Rrc | Mnemonic::Rrca => Some(0x0F),
        Mnemonic::Ral | Mnemonic::Rla => Some(0x17),
        Mnemonic::Rar | Mnemonic::Rra => Some(0x1F),
        Mnemonic::Daa => Some(0x27),
        Mnemonic::Cma | Mnemonic::Cpl => Some(0x2F),
        Mnemonic::Stc | Mnemonic::Scf => Some(0x37),
        Mnemonic::Cmc | Mnemonic::Ccf => Some(0x3F),
        Mnemonic::Hlt | Mnemonic::Halt => Some(0x76),
        Mnemonic::Nop => Some(0x00),
        Mnemonic::Di => Some(0xF3),
        Mnemonic::Ei => Some(0xFB),
        Mnemonic::Pchl => Some(0xE9),
        Mnemonic::Sphl => Some(0xF9),
        Mnemonic::Xthl => Some(0xE3),
        _ => None,
    }
}

fn alu_reg_exec(m: Mnemonic) -> (r: Option<u8>)
    ensures
        r == alu_reg_base(m),
        r matches Some(b) ==> b <= 0xB8,
{
    match m {
        Mnemonic::Add => Some(0x80),
        Mnemonic::Adc => Some(0x88),
        Mnemonic::Sub => Some(0x90),
        Mnemonic::Sbb => Some(0x98),
        Mnemonic::Ana => Some(0xA0),
        Mnemonic::Xra => Some(0xA8),
        Mnemonic::Ora => Some(0xB0),
        Mnemonic::Cmp => Some(0xB8),
        _ => None,
    }
}

fn alu_imm_exec(m: Mnemonic) -> (r: Option<u8>)
    ensures
        r == alu_imm_opcode(m),
{
    match m {
        Mnemonic::Adi => Some(0xC6),
        Mnemonic::Aci => Some(0xCE),
        Mnemonic::Sui => Some(0xD6),
        Mnemonic::Sbi => Some(0xDE),
        Mnemonic::Ani => Some(0xE6),
        Mnemonic::Xri => Some(0xEE),
        Mnemonic::Ori => Some(0xF6),
        Mnemonic::Cpi => Some(0xFE),
        _ => None,
    }
}

fn addr_exec(m: Mnemonic) -> (r: Option<u8>)
    ensures
        r == addr_opcode(m),
{
    match m {
        Mnemonic::Lda => Some(0x3A),
        Mnemonic::Sta => Some(0x32),
        Mnemonic::Lhld => Some(0x2A),
        Mnemonic::Shld => Some(0x22),
        Mnemonic::Jmp => Some(0xC3),
        Mnemonic::Call => Some(0xCD),
        _ => None,
    }
}

fn jump_cc_exec(m: Mnemonic) -> (r: Option<u8>)
    ensures
        r == jump_cc(m),
        r matches Some(c) ==> c < 8,
{
    match m {
        Mnemonic::Jnz => Some(0),
        Mnemonic::Jz => Some(1),
        Mnemonic::Jnc => Some(2),
        Mnemonic::Jc => Some(3),
        Mnemonic::Jpo => Some(4),
        Mnemonic::Jpe => Some(5),
        Mnemonic::Jp => Some(6),
        Mnemonic::Jm => Some(7),
        _ => None,
    }
}

fn call_cc_exec(m: Mnemonic) -> (r: Option<u8>)
    ensures
        r == call_cc(m),
        r matches Some(c) ==> c < 8,
{
    match m {
        Mnemonic::Cnz => Some(0),
        Mnemonic::Cz => Some(1),
        Mnemonic::Cnc => Some(2),
        Mnemonic::Cc => Some(3),
        Mnemonic::Cpo => Some(4),
        Mnemonic::Cpe => Some(5),
        Mnemonic::Cp => Some(6),
        Mnemonic::Cm => Some(7),
        _ => None,
    }
}

fn ret_cc_exec(m: Mnemonic) -> (r: Option<u8>)
    ensures
        r == ret_cc(m),
        r matches Some(c) ==> c < 8,
{
    match m {
        Mnemonic::Rnz => Some(0),
        Mnemonic::Rz => Some(1),
        Mnemonic::Rnc => Some(2),
        Mnemonic::Rc => Some(3),
        Mnemonic::Rpo => Some(4),
        Mnemonic::Rpe => Some(5),
        Mnemonic::Rp => Some(6),
        Mnemonic::Rm => Some(7),
        _ => None,
    }
}

fn i8080_exec(m: Mnemonic, ops: &[ParsedOperand]) -> (r: Option<(u8, ImmKind)>)
    ensures
        r == i8080_encoding(m, ops@),
{
    let n = ops.len();
    if implied_exec(m).is_some() || m == Mnemonic::Ret {
        if n == 0 {
            return Some((if m == Mnemonic::Ret { 0xC9u8 } else { implied_exec(m).unwrap() }, ImmKind::NoImm));
        }
        return None;
    }
    if let Some(b) = alu_reg_exec(m) {
        if n == 1 {
            if let Some(s) = r8_exec(ops[0]) {
                return Some((b + s, ImmKind::NoImm));
            }
        }
        return None;
    }
    if let Some(o) = alu_imm_exec(m) {
        if n == 1 && is_value_exec(ops[0]) {
            return Some((o, ImmKind::Imm8));
        }
        return None;
    }
    if let Some(o) = addr_exec(m) {
        if n == 1 && is_value_exec(ops[0]) {
            return Some((o, ImmKind::Imm16));
        }
        return None;
    }
    if let Some(c) = jump_cc_exec(m) {
        if n == 1 && is_value_exec(ops[0]) {
            return Some((0xC2 + 8 * c, ImmKind::Imm16));
        }
        return None;
    }
    if let Some(c) = call_cc_exec(m) {
        if n == 1 && is_value_exec(ops[0]) {
            return Some((0xC4 + 8 * c, ImmKind::Imm16));
        }
        return None;
    }
    if let Some(c) = ret_cc_exec(m) {
        if n == 0 {
            return Some((0xC0 + 8 * c, ImmKind::NoImm));
        }
        return None;
    }
    match m {
        Mnemonic::Mov => {
            if n == 2 {
                if let (Some(d), Some(s)) = (r8_exec(ops[0]), r8_exec(ops[1])) {
                    if !(is_memory(ops[0]) && is_memory(ops[1])) {
                        return Some((0x40 + 8 * d + s, ImmKind::NoImm));
                    }
                }
            }
            None
        },
        Mnemonic::Mvi => {
            if n == 2 && is_value_exec(ops[1]) {
                if let Some(d) = r8_exec(ops[0]) {
                    return Some((0x06 + 8 * d, ImmKind::Imm8));
                }
            }
            None
        },
        Mnemonic::Lxi => {
            if n == 2 && is_value_exec(ops[1]) {
                if let Some(p) = rp_sp_exec(ops[0]) {
                    return Some((0x01 + 16 * p, ImmKind::Imm16));
                }
            }
            None
        },
        Mnemonic::Ldax => {
            if n == 1 && is_pair(ops[0], RegisterPair::BC) {
                Some((0x0A, ImmKind::NoImm))
            } else if n == 1 && is_pair(ops[0], RegisterPair::DE) {
                Some((0x1A, ImmKind::NoImm))
            } else {
                None
            }
        },
        Mnemonic::Stax => {
            if n == 1 && is_pair(ops[0], RegisterPair::BC) {
                Some((0x02, ImmKind::NoImm))
            } else if n == 1 && is_pair(ops[0], RegisterPair::DE) {
                Some((0x12, ImmKind::NoImm))
            } else {
                None
            }
        },
        Mnemonic::Push | Mnemonic::Pop => {
            if n == 1 {
                if let Some(p) = rp_psw_exec(ops[0]) {
                    let base: u8 = if m == Mnemonic::Push { 0xC5 } else { 0xC1 };
                    return Some((base + 16 * p, ImmKind::NoImm));
                }
            }
            None
        },
        Mnemonic::Dad | Mnemonic::Inx | Mnemonic::Dcx => {
            if n == 1 {
                if let Some(p) = rp_sp_exec(ops[0]) {
                    let base: u8 = if m == Mnemonic::Dad { 0x09 } else if m == Mnemonic::Inx { 0x03 } else { 0x0B };
                    return Some((base + 16 * p, ImmKind::NoImm));
                }
            }
            None
        },
        Mnemonic::Inr | Mnemonic::Dcr => {
            if n == 1 {
                if let Some(d) = r8_exec(ops[0]) {
                    let base: u8 = if m == Mnemonic::Inr { 0x04 } else { 0x05 };
                    return Some((base + 8 * d, ImmKind::NoImm));
                }
            }
            None
        },
        Mnemonic::In => {
            if n == 1 && is_value_exec(ops[0]) {
                Some((0xDB, ImmKind::Imm8))
            } else {
                None
            }
        },
        Mnemonic::Out => {
            if n == 1 && is_value_exec(ops[0]) {
                Some((0xD3, ImmKind::Imm8))
            } else {
                None
            }
        },
        Mnemonic::Rst => {
            if n == 1 {
                if let ParsedOperand::RstNum(k) = ops[0] {
                    if k < 8 {
                        return Some((0xC7 + 8 * k, ImmKind::NoImm));
                    }
                }
            }
            None
        },
        _ => None,
    }
}

fn is_z80_exec(m: Mnemonic) -> (r: bool)
    ensures
        r == is_z80_mnemonic(m),
{
    match m {
        Mnemonic::Ld | Mnemonic::Add | Mnemonic::Adc | Mnemonic::Sub | Mnemonic::Sbc | Mnemonic::And
        | Mnemonic::Xor | Mnemonic::Or | Mnemonic::Cp | Mnemonic::Inc | Mnemonic::Dec | Mnemonic::Jp
        | Mnemonic::Call | Mnemonic::Ret | Mnemonic::Ex | Mnemonic::In | Mnemonic::Out => true,
        _ => false,
    }
}

fn z80_alu_exec(m: Mnemonic) -> (r: Option<(u8, u8)>)
    ensures
        r == z80_alu(m),
        r matches Some((b, _)) ==> b <= 0xB8,
{
    match m {
        Mnemonic::Add => Some((0x80, 0xC6)),
        Mnemonic::Adc => Some((0x88, 0xCE)),
        Mnemonic::Sub => Some((0x90, 0xD6)),
        Mnemonic::Sbc => Some((0x98, 0xDE)),
        Mnemonic::And => Some((0xA0, 0xE6)),
        Mnemonic::Xor => Some((0xA8, 0xEE)),
        Mnemonic::Or => Some((0xB0, 0xF6)),
        Mnemonic::Cp => Some((0xB8, 0xFE)),
        _ => None,
    }
}

fn z80_alu_operand_exec(base: u8, imm: u8, x: ParsedOperand) -> (r: Option<(u8, ImmKind)>)
    requires
        base <= 0xB8,
    ensures
        r == z80_alu_operand(base, imm, x),
{
    if let Some(s) = r8_exec(x) {
        Some((base + s, ImmKind::NoImm))
    } else if is_value_exec(x) {
        Some((imm, ImmKind::Imm8))
    } else {
        None
    }
}

fn z80_exec(m: Mnemonic, ops: &[ParsedOperand]) -> (r: Option<(u8, ImmKind)>)
    ensures
        r == z80_encoding(m, ops@),
{
    let n = ops.len();
    if let Some((base, imm)) = z80_alu_exec(m) {
        if m == Mnemonic::Add && n == 2 && is_pair(ops[0], RegisterPair::HL) {
            if let Some(p) = rp_sp_exec(ops[1]) {
                return Some((0x09 + 16 * p, ImmKind::NoImm));
            }
        }
        if n == 2 && is_reg_a(ops[0]) {
            return z80_alu_operand_exec(base, imm, ops[1]);
        } else if n == 1 {
            return z80_alu_operand_exec(base, imm, ops[0]);
        } else {
            return None;
        }
    }
    match m {
        Mnemonic::Ld => {
            if n != 2 {
                return None;
            }
            let a = ops[0];
            let b = ops[1];
            if let (Some(d), Some(s)) = (r8_exec(a), r8_exec(b)) {
                if is_memory(a) && is_memory(b) {
                    return None;
                }
                return Some((0x40 + 8 * d + s, ImmKind::NoImm));
            }
            if let Some(d) = r8_exec(a) {
                if is_value_exec(b) {
                    return Some((0x06 + 8 * d, ImmKind::Imm8));
                }
            }
            if let Some(p) = rp_sp_exec(a) {
                if is_value_exec(b) {
                    return Some((0x01 + 16 * p, ImmKind::Imm16));
                }
            }
            if is_pair(a, RegisterPair::HL) && is_mem16(b) {
                Some((0x2A, ImmKind::Imm16))
            } else if is_mem16(a) && is_pair(b, RegisterPair::HL) {
                Some((0x22, ImmKind::Imm16))
            } else if is_reg_a(a) && is_mem16(b) {
                Some((0x3A, ImmKind::Imm16))
            } else if is_mem16(a) && is_reg_a(b) {
                Some((0x32, ImmKind::Imm16))
            } else if is_reg_a(a) && is_pair(b, RegisterPair::BC) {
                Some((0x0A, ImmKind::NoImm))
            } else if is_reg_a(a) && is_pair(b, RegisterPair::DE) {
                Some((0x1A, ImmKind::NoImm))
            } else if is_pair(a, RegisterPair::BC) && is_reg_a(b) {
                Some((0x02, ImmKind::NoImm))
            } else if is_pair(a, RegisterPair::DE) && is_reg_a(b) {
                Some((0x12, ImmKind::NoImm))
            } else if is_pair(a, RegisterPair::SP) && is_pair(b, RegisterPair::HL) {
                Some((0xF9, ImmKind::NoImm))
            } else {
                None
            }
        },
        Mnemonic::Inc | Mnemonic::Dec => {
            if n == 1 {
                if let Some(d) = r8_exec(ops[0]) {
                    let base: u8 = if m == Mnemonic::Inc { 0x04 } else { 0x05 };
                    return Some((base + 8 * d, ImmKind::NoImm));
                }
                if let Some(p) = rp_sp_exec(ops[0]) {
                    let base: u8 = if m == Mnemonic::Inc { 0x03 } else { 0x0B };
                    return Some((base + 16 * p, ImmKind::NoImm));
                }
            }
            None
        },
        Mnemonic::Jp => {
            if n == 1 && is_value_exec(ops[0]) {
                return Some((0xC3, ImmKind::Imm16));
            }
            if n == 1 && is_memory(ops[0]) {
                return Some((0xE9, ImmKind::NoImm));
            }
            if n == 2 && is_value_exec(ops[1]) {
                if let Some(c) = z80_cond_exec(ops[0]) {
                    return Some((0xC2 + 8 * c, ImmKind::Imm16));
                }
            }
            None
        },
        Mnemonic::Call => {
            if n == 1 && is_value_exec(ops[0]) {
                return Some((0xCD, ImmKind::Imm16));
            }
            if n == 2 && is_value_exec(ops[1]) {
                if let Some(c) = z80_cond_exec(ops[0]) {
                    return Some((0xC4 + 8 * c, ImmKind::Imm16));
                }
            }
            None
        },
        Mnemonic::Ret => {
            if n == 0 {
                return Some((0xC9, ImmKind::NoImm));
            }
            if n == 1 {
                if let Some(c) = z80_cond_exec(ops[0]) {
                    return Some((0xC0 + 8 * c, ImmKind::NoImm));
                }
            }
            None
        },
        Mnemonic::Ex => {
            if n == 2 && is_pair(ops[0], RegisterPair::DE) && is_pair(ops[1], RegisterPair::HL) {
                Some((0xEB, ImmKind::NoImm))
            } else if n == 2 && is_pair(ops[0], RegisterPair::SP) && is_pair(ops[1], RegisterPair::HL) {
                Some((0xE3, ImmKind::NoImm))
            } else {
                None
            }
        },
        Mnemonic::In => {
            if n == 2 && is_reg_a(ops[0]) && is_mem16(ops[1]) {
                Some((0xDB, ImmKind::Imm8))
            } else {
                i8080_exec(m, ops)
            }
        },
        Mnemonic::Out => {
            if n == 2 && is_mem16(ops[0]) && is_reg_a(ops[1]) {
                Some((0xD3, ImmKind::Imm8))
            } else {
                i8080_exec(m, ops)
            }
        },
        _ => None,
    }
}

/// The opcode bytes of an encoding: the opcode, then a zero byte for each
/// byte of immediate data.
pub open spec fn encoded_bytes(opcode: u8, k: ImmKind) -> Seq<u8> {
    match k {
        ImmKind::NoImm => seq![opcode],
        ImmKind::Imm8 => seq![opcode, 0u8],
        ImmKind::Imm16 => seq![opcode, 0u8, 0u8],
    }
}

/// The message of the error encoding `mnemonic` with `operands` gives when
/// it cannot be encoded: the mnemonic is unknown, or no form of it takes
/// these operands.
pub open spec fn encode_error(mnemonic: Seq<char>, operands: Seq<ParsedOperand>, z80: bool) -> Seq<char> {
    if mnemonic_of(mnemonic) is None {
        "Unknown instruction: "@ + mnemonic
    } else {
        "Invalid operands for instruction: "@ + mnemonic
    }
}

/// Encode `mnemonic` (upper case) with its operands for `cpu_mode`.
/// Succeeds exactly when the mnemonic is known and the operands fit one of
/// its forms; the bytes are the opcode followed by room for the immediate.
pub fn encode_instruction(mnemonic: &str, operands: &[ParsedOperand], cpu_mode: CpuMode) -> (r: AsmResult<
    EncodedInstruction,
>)
    ensures
        r is Ok <==> (mnemonic_of(mnemonic@) is Some && encoding_of(mnemonic_of(mnemonic@).unwrap(), operands@,
            cpu_mode == CpuMode::Z80) is Some),
        r matches Ok(enc) ==> ({
            let (op, k) = encoding_of(mnemonic_of(mnemonic@).unwrap(), operands@, cpu_mode == CpuMode::Z80).unwrap();
            &&& enc.bytes@ == encoded_bytes(op, k)
            &&& enc.size == imm_size(k)
            &&& enc.has_imm8 == (k == ImmKind::Imm8)
            &&& enc.has_imm16 == (k == ImmKind::Imm16)
        }),
        r matches Err(e) ==> e.message@ == encode_error(mnemonic@, operands@, cpu_mode == CpuMode::Z80),
{
    proof {
        reveal_strlit("");
    }
    let s = chars_of(mnemonic);
    let m = match lookup_mnemonic(&s) {
        Some(m) => m,
        None => { return Err(message_with_name("Unknown instruction: ", mnemonic, "")); },
    };
    let z80 = cpu_mode == CpuMode::Z80;
    let enc = if z80 && is_z80_exec(m) { z80_exec(m, operands) } else { i8080_exec(m, operands) };
    match enc {
        Some((op, k)) => {
            let mut bytes: Vec<u8> = Vec::new();
            bytes.push(op);
            let size: usize = match k {
                ImmKind::NoImm => 1,
                ImmKind::Imm8 => {
                    bytes.push(0);
                    2
                },
                ImmKind::Imm16 => {
                    bytes.push(0);
                    bytes.push(0);
                    3
                },
            };
            assert(bytes@ =~= encoded_bytes(op, k));
            Ok(EncodedInstruction {
                bytes,
                size,
                has_imm8: k == ImmKind::Imm8,
                has_imm16: k == ImmKind::Imm16,
            })
        },
        None => Err(message_with_name("Invalid operands for instruction: ", mnemonic, "")),
    }
}

} // verus!
