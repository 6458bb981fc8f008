//! The vocabulary shared by the tokenizer and the encoder: mnemonics,
//! registers, operands and tokens.

use vstd::prelude::*;

verus! {

/// The name of an instruction.
#[derive(Debug, Copy, Clone, PartialEq, Eq, Structural)]
pub enum Mnemonic {
    Add, And, Call, Cls,
    Drw, Jp, Ld, Or,
    Ret, Rnd, Se, Shl,
    Shr, Sknp, Skp, Sne,
    Sub, Subn, Sys, Xor,
}

/// One of the sixteen general registers.
#[derive(Debug, Copy, Clone, PartialEq, Eq, Structural)]
pub enum Register {
    V0, V1, V2, V3,
    V4, V5, V6, V7,
    V8, V9, Va, Vb,
    Vc, Vd, Ve, Vf,
}

impl Register {
    /// The register's index, `0` for `V0` up to `15` for `VF`.
    pub open spec fn index(self) -> int {
        match self {
            Register::V0 => 0, Register::V1 => 1,
            Register::V2 => 2, Register::V3 => 3,
            Register::V4 => 4, Register::V5 => 5,
            Register::V6 => 6, Register::V7 => 7,
            Register::V8 => 8, Register::V9 => 9,
            Register::Va => 10, Register::Vb => 11,
            Register::Vc => 12, Register::Vd => 13,
            Register::Ve => 14, Register::Vf => 15,
        }
    }

    /// Returns the register's index.
    pub fn number(&self) -> (n: u8)
        ensures
            n as int == self.index(),
            n < 16,
    {
        match *self {
            Register::V0 => 0, Register::V1 => 1,
            Register::V2 => 2, Register::V3 => 3,
            Register::V4 => 4, Register::V5 => 5,
            Register::V6 => 6, Register::V7 => 7,
            Register::V8 => 8, Register::V9 => 9,
            Register::Va => 0xa, Register::Vb => 0xb,
            Register::Vc => 0xc, Register::Vd => 0xd,
            Register::Ve => 0xe, Register::Vf => 0xf,
        }
    }
}

/// What may follow a mnemonic: a register, an immediate or one of the
/// pseudo-registers. It is a token without its line.
#[derive(Debug, Copy, Clone, PartialEq, Eq, Structural)]
pub enum Operand {
    Reg(Register),
    Imm(u16),
    F, B, K,
    I, St, Dt,
    IVal,
}

/// A lexical unit of the source text, tagged with the line it starts on.
#[derive(Debug, Copy, Clone, PartialEq, Eq, Structural)]
pub enum Token {
    Opcode(Mnemonic, u32),
    Reg(Register, u32),
    ImmConst(u16, u32),
    F(u32), B(u32), K(u32),
    I(u32), St(u32), Dt(u32),
    IVal(u32), Comment(u32),
}

impl Token {
    /// The line the token starts on.
    pub open spec fn line_number(self) -> u32 {
        match self {
            Token::Opcode(_, l) => l,
            Token::Reg(_, l) => l,
            Token::ImmConst(_, l) => l,
            Token::F(l) => l,
            Token::B(l) => l,
            Token::K(l) => l,
            Token::I(l) => l,
            Token::St(l) => l,
            Token::Dt(l) => l,
            Token::IVal(l) => l,
            Token::Comment(l) => l,
        }
    }

    /// The operand that the token stands for; an opcode or a comment
    /// stands for none.
    pub open spec fn operand(self) -> Option<Operand> {
        match self {
            Token::Opcode(_, _) => None,
            Token::Comment(_) => None,
            Token::Reg(r, _) => Some(Operand::Reg(r)),
            Token::ImmConst(v, _) => Some(Operand::Imm(v)),
            Token::F(_) => Some(Operand::F),
            Token::B(_) => Some(Operand::B),
            Token::K(_) => Some(Operand::K),
            Token::I(_) => Some(Operand::I),
            Token::St(_) => Some(Operand::St),
            Token::Dt(_) => Some(Operand::Dt),
            Token::IVal(_) => Some(Operand::IVal),
        }
    }

    /// The token with its line replaced by `line`.
    pub open spec fn at_line(self, line: u32) -> Token {
        match self {
            Token::Opcode(m, _) => Token::Opcode(m, line),
            Token::Reg(r, _) => Token::Reg(r, line),
            Token::ImmConst(v, _) => Token::ImmConst(v, line),
            Token::F(_) => Token::F(line),
            Token::B(_) => Token::B(line),
            Token::K(_) => Token::K(line),
            Token::I(_) => Token::I(line),
            Token::St(_) => Token::St(line),
            Token::Dt(_) => Token::Dt(line),
            Token::IVal(_) => Token::IVal(line),
            Token::Comment(_) => Token::Comment(line),
        }
    }

    /// Returns the line the token starts on.
    pub fn line(&self) -> (l: u32)
        ensures
            l == self.line_number(),
    {
        match *self {
            Token::Opcode(_, l) => l,
            Token::Reg(_, l) => l,
            Token::ImmConst(_, l) => l,
            Token::F(l) => l,
            Token::B(l) => l,
            Token::K(l) => l,
            Token::I(l) => l,
            Token::St(l) => l,
            Token::Dt(l) => l,
            Token::IVal(l) => l,
            Token::Comment(l) => l,
        }
    }
}

} // verus!
