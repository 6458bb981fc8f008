//! The instruction-format table: which operand lists each mnemonic takes and
//! the machine word each of them stands for.

use vstd::prelude::*;
use crate::token::{Mnemonic, Operand, Register};

verus! {

/// The word whose four nibbles are `n3 n2 n1 n0`, most significant first.
pub open spec fn nibbles(n3: int, n2: int, n1: int, n0: int) -> u16 {
    (n3 * 0x1000 + n2 * 0x100 + n1 * 0x10 + n0) as u16
}

/// The word with high nibble `n3`, register `x` and a byte field: `value`
/// reduced to its low eight bits.
pub open spec fn byte_word(n3: int, x: Register, value: u16) -> u16 {
    (n3 * 0x1000 + x.index() * 0x100 + value % 0x100) as u16
}

/// The word with high nibble `n3` and an address field: `value` reduced to its
/// low twelve bits.
pub open spec fn addr_word(n3: int, value: u16) -> u16 {
    (n3 * 0x1000 + value % 0x1000) as u16
}

/// The word with high nibble `n3`, register `x` and the fixed low byte `low`.
pub open spec fn reg_word(n3: int, x: Register, low: int) -> u16 {
    (n3 * 0x1000 + x.index() * 0x100 + low) as u16
}

/// `ops` is one register.
pub open spec fn one_reg(ops: Seq<Operand>) -> bool {
    ops.len() == 1 && ops[0] is Reg
}

/// `ops` is one immediate.
pub open spec fn one_imm(ops: Seq<Operand>) -> bool {
    ops.len() == 1 && ops[0] is Imm
}

/// `ops` is two registers.
pub open spec fn reg_reg(ops: Seq<Operand>) -> bool {
    ops.len() == 2 && ops[0] is Reg && ops[1] is Reg
}

/// `ops` is a register followed by an immediate.
pub open spec fn reg_imm(ops: Seq<Operand>) -> bool {
    ops.len() == 2 && ops[0] is Reg && ops[1] is Imm
}

/// `ops` is two registers followed by an immediate.
pub open spec fn reg_reg_imm(ops: Seq<Operand>) -> bool {
    ops.len() == 3 && ops[0] is Reg && ops[1] is Reg && ops[2] is Imm
}

/// `ops` is the pseudo-register `first` followed by a register.
pub open spec fn pseudo_reg(ops: Seq<Operand>, first: Operand) -> bool {
    ops.len() == 2 && ops[0] == first && ops[1] is Reg
}

/// The register at place `i` of `ops`.
pub open spec fn reg_at(ops: Seq<Operand>, i: int) -> Register {
    ops[i]->Reg_0
}

/// The immediate at place `i` of `ops`.
pub open spec fn imm_at(ops: Seq<Operand>, i: int) -> u16 {
    ops[i]->Imm_0
}

/// The word of a register-to-register instruction of the arithmetic group,
/// `8 x y n0`, where `ops` is two registers.
pub open spec fn alu_word(ops: Seq<Operand>, n0: int) -> Option<u16> {
    if reg_reg(ops) {
        Some(nibbles(0x8, reg_at(ops, 0).index(), reg_at(ops, 1).index(), n0))
    } else {
        None
    }
}

/// The word of a comparison or addition that takes a register and either a
/// second register (`hi_reg x y lo_reg`) or a byte (`hi_imm x k k`).
pub open spec fn reg_or_byte_word(
    ops: Seq<Operand>,
    hi_reg: int,
    lo_reg: int,
    hi_imm: int,
) -> Option<u16> {
    if reg_reg(ops) {
        Some(nibbles(hi_reg, reg_at(ops, 0).index(), reg_at(ops, 1).index(), lo_reg))
    } else if reg_imm(ops) {
        Some(byte_word(hi_imm, reg_at(ops, 0), imm_at(ops, 1)))
    } else {
        None
    }
}

/// The word of `LD` with the operand list `ops`.
pub open spec fn load_word(ops: Seq<Operand>) -> Option<u16> {
    if reg_reg(ops) {
        Some(nibbles(0x8, reg_at(ops, 0).index(), reg_at(ops, 1).index(), 0x0))
    } else if reg_imm(ops) {
        Some(byte_word(0x6, reg_at(ops, 0), imm_at(ops, 1)))
    } else if ops.len() == 2 && ops[0] == Operand::I && ops[1] is Imm {
        Some(addr_word(0xA, imm_at(ops, 1)))
    } else if pseudo_reg(ops, Operand::St) {
        Some(reg_word(0xF, reg_at(ops, 1), 0x18))
    } else if pseudo_reg(ops, Operand::Dt) {
        Some(reg_word(0xF, reg_at(ops, 1), 0x15))
    } else if pseudo_reg(ops, Operand::F) {
        Some(reg_word(0xF, reg_at(ops, 1), 0x29))
    } else if pseudo_reg(ops, Operand::B) {
        Some(reg_word(0xF, reg_at(ops, 1), 0x33))
    } else if ops.len() == 2 && ops[0] is Reg && ops[1] == Operand::K {
        Some(reg_word(0xF, reg_at(ops, 0), 0x0A))
    } else if pseudo_reg(ops, Operand::IVal) {
        Some(reg_word(0xF, reg_at(ops, 1), 0x55))
    } else if ops.len() == 2 && ops[0] is Reg && ops[1] == Operand::IVal {
        Some(reg_word(0xF, reg_at(ops, 0), 0x65))
    } else {
        None
    }
}

/// The format table. `Some(w)` where `ops` is a complete operand list of `m`,
/// and `w` is then the word of that instruction; `None` for every other list.
pub open spec fn instruction_word(m: Mnemonic, ops: Seq<Operand>) -> Option<u16> {
    match m {
        Mnemonic::Cls => if ops.len() == 0 { Some(0x00E0u16) } else { None },
        Mnemonic::Ret => if ops.len() == 0 { Some(0x00EEu16) } else { None },
        Mnemonic::Sys => None,
        Mnemonic::Call => if one_imm(ops) {
            Some(addr_word(0x2, imm_at(ops, 0)))
        } else {
            None
        },
        Mnemonic::Jp => if one_imm(ops) {
            Some(addr_word(0x1, imm_at(ops, 0)))
        } else if reg_imm(ops) && reg_at(ops, 0) == Register::V0 {
            Some(addr_word(0xB, imm_at(ops, 1)))
        } else {
            None
        },
        Mnemonic::Se => reg_or_byte_word(ops, 0x5, 0x0, 0x3),
        Mnemonic::Sne => reg_or_byte_word(ops, 0x9, 0x0, 0x4),
        Mnemonic::Skp => if one_reg(ops) {
            Some(reg_word(0xE, reg_at(ops, 0), 0x9E))
        } else {
            None
        },
        Mnemonic::Sknp => if one_reg(ops) {
            Some(reg_word(0xE, reg_at(ops, 0), 0xA1))
        } else {
            None
        },
        Mnemonic::Add => reg_or_byte_word(ops, 0x8, 0x4, 0x7),
        Mnemonic::Sub => alu_word(ops, 0x5),
        Mnemonic::Subn => alu_word(ops, 0x7),
        Mnemonic::Or => alu_word(ops, 0x1),
        Mnemonic::And => alu_word(ops, 0x2),
        Mnemonic::Xor => alu_word(ops, 0x3),
        Mnemonic::Shr => alu_word(ops, 0x6),
        Mnemonic::Shl => alu_word(ops, 0xE),
        Mnemonic::Rnd => if reg_imm(ops) {
            Some(byte_word(0xC, reg_at(ops, 0), imm_at(ops, 1)))
        } else {
            None
        },
        Mnemonic::Drw => if reg_reg_imm(ops) {
            Some(
                nibbles(
                    0xD,
                    reg_at(ops, 0).index(),
                    reg_at(ops, 1).index(),
                    (imm_at(ops, 2) % 0x10) as int,
                ),
            )
        } else {
            None
        },
        Mnemonic::Ld => load_word(ops),
    }
}

/// Whether `first` may open the operand list of `LD`: a register, or a
/// pseudo-register that `LD` takes in first place.
pub open spec fn opens_load(first: Operand) -> bool {
    first is Reg || first == Operand::I || first == Operand::St || first == Operand::Dt
        || first == Operand::F || first == Operand::B || first == Operand::IVal
}

/// Whether an instruction `m` that holds the operands `ops` is still open:
/// the list is not yet complete, and what it holds so far starts a list of
/// the table. `SYS` is open with no operand, although nothing completes it.
pub open spec fn awaits_operand(m: Mnemonic, ops: Seq<Operand>) -> bool {
    match m {
        Mnemonic::Cls | Mnemonic::Ret => false,
        Mnemonic::Sys | Mnemonic::Call | Mnemonic::Skp | Mnemonic::Sknp => ops.len() == 0,
        Mnemonic::Jp => ops.len() == 0 || (ops.len() == 1 && ops[0] == Operand::Reg(Register::V0)),
        Mnemonic::Drw => ops.len() == 0 || one_reg(ops) || reg_reg(ops),
        Mnemonic::Ld => ops.len() == 0 || (ops.len() == 1 && opens_load(ops[0])),
        _ => ops.len() == 0 || one_reg(ops),
    }
}

/// Builds the word `n3 x y n0` from a high nibble, two registers and a low
/// nibble.
pub fn pack_reg_reg(n3: u16, x: Register, y: Register, n0: u16) -> (w: u16)
    requires
        n3 < 0x10,
        n0 < 0x10,
    ensures
        w == nibbles(n3 as int, x.index(), y.index(), n0 as int),
{
    let xn: u16 = x.number() as u16;
    let yn: u16 = y.number() as u16;
    let w: u16 = (n3 << 12) | (xn << 8) | (yn << 4) | n0;
    assert(w == n3 * 0x1000 + xn * 0x100 + yn * 0x10 + n0) by (bit_vector)
        requires
            n3 < 0x10,
            xn < 0x10,
            yn < 0x10,
            n0 < 0x10,
            w == (n3 << 12) | (xn << 8) | (yn << 4) | n0,
    ;
    w
}

/// Builds the word `n3 x k k`: a high nibble, a register and the low eight
/// bits of `value`.
pub fn pack_byte(n3: u16, x: Register, value: u16) -> (w: u16)
    requires
        n3 < 0x10,
    ensures
        w == byte_word(n3 as int, x, value),
{
    let xn: u16 = x.number() as u16;
    let w: u16 = (n3 << 12) | (xn << 8) | (value & 0x00ff);
    assert(w == n3 * 0x1000 + xn * 0x100 + value % 0x100) by (bit_vector)
        requires
            n3 < 0x10,
            xn < 0x10,
            w == (n3 << 12) | (xn << 8) | (value & 0x00ff),
    ;
    w
}

/// Builds the word `n3 a a a`: a high nibble and the low twelve bits of
/// `value`.
pub fn pack_addr(n3: u16, value: u16) -> (w: u16)
    requires
        n3 < 0x10,
    ensures
        w == addr_word(n3 as int, value),
{
    let w: u16 = (n3 << 12) | (value & 0x0fff);
    assert(w == n3 * 0x1000 + value % 0x1000) by (bit_vector)
        requires
            n3 < 0x10,
            w == (n3 << 12) | (value & 0x0fff),
    ;
    w
}

/// Builds the word `n3 x l l`: a high nibble, a register and a fixed low
/// byte.
pub fn pack_reg(n3: u16, x: Register, low: u16) -> (w: u16)
    requires
        n3 < 0x10,
        low < 0x100,
    ensures
        w == reg_word(n3 as int, x, low as int),
{
    let xn: u16 = x.number() as u16;
    let w: u16 = (n3 << 12) | (xn << 8) | low;
    assert(w == n3 * 0x1000 + xn * 0x100 + low) by (bit_vector)
        requires
            n3 < 0x10,
            xn < 0x10,
            low < 0x100,
            w == (n3 << 12) | (xn << 8) | low,
    ;
    w
}

/// Builds the word `D x y n` of a draw: two registers and the low four bits of
/// `value`.
pub fn pack_draw(x: Register, y: Register, value: u16) -> (w: u16)
    ensures
        w == nibbles(0xD, x.index(), y.index(), (value % 0x10) as int),
{
    let n: u16 = value & 0x000f;
    assert(n == value % 0x10) by (bit_vector)
        requires
            n == value & 0x000f,
    ;
    pack_reg_reg(0xD, x, y, n)
}

} // verus!
