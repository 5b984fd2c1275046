//! RISC-V (RV64) code generation from the IR.

use vstd::prelude::*;
use crate::jit::ir::{IrBlock, IrInstruction, IrOpcode, IrOperand, IrReg};
use crate::wire::{bytes32, push_u32};

verus! {

/// The 32 RV64 integer registers, in ABI naming.
#[derive(Debug, Clone, Copy, PartialEq, Eq, Structural)]
pub enum RiscvReg {
    Zero,
    Ra,
    Sp,
    Gp,
    Tp,
    T0,
    T1,
    T2,
    S0,
    S1,
    A0,
    A1,
    A2,
    A3,
    A4,
    A5,
    A6,
    A7,
    S2,
    S3,
    S4,
    S5,
    S6,
    S7,
    S8,
    S9,
    S10,
    S11,
    T3,
    T4,
    T5,
    T6,
}

/// A register's number (x0..x31).
pub open spec fn rv_num(r: RiscvReg) -> u32 {
    match r {
        RiscvReg::Zero => 0,
        RiscvReg::Ra => 1,
        RiscvReg::Sp => 2,
        RiscvReg::Gp => 3,
        RiscvReg::Tp => 4,
        RiscvReg::T0 => 5,
        RiscvReg::T1 => 6,
        RiscvReg::T2 => 7,
        RiscvReg::S0 => 8,
        RiscvReg::S1 => 9,
        RiscvReg::A0 => 10,
        RiscvReg::A1 => 11,
        RiscvReg::A2 => 12,
        RiscvReg::A3 => 13,
        RiscvReg::A4 => 14,
        RiscvReg::A5 => 15,
        RiscvReg::A6 => 16,
        RiscvReg::A7 => 17,
        RiscvReg::S2 => 18,
        RiscvReg::S3 => 19,
        RiscvReg::S4 => 20,
        RiscvReg::S5 => 21,
        RiscvReg::S6 => 22,
        RiscvReg::S7 => 23,
        RiscvReg::S8 => 24,
        RiscvReg::S9 => 25,
        RiscvReg::S10 => 26,
        RiscvReg::S11 => 27,
        RiscvReg::T3 => 28,
        RiscvReg::T4 => 29,
        RiscvReg::T5 => 30,
        RiscvReg::T6 => 31,
    }
}

impl RiscvReg {
    pub fn number(&self) -> (r: u32)
        ensures
            r == rv_num(*self),
            r < 32,
    {
        match self {
            RiscvReg::Zero => 0,
            RiscvReg::Ra => 1,
            RiscvReg::Sp => 2,
            RiscvReg::Gp => 3,
            RiscvReg::Tp => 4,
            RiscvReg::T0 => 5,
            RiscvReg::T1 => 6,
            RiscvReg::T2 => 7,
            RiscvReg::S0 => 8,
            RiscvReg::S1 => 9,
            RiscvReg::A0 => 10,
            RiscvReg::A1 => 11,
            RiscvReg::A2 => 12,
            RiscvReg::A3 => 13,
            RiscvReg::A4 => 14,
            RiscvReg::A5 => 15,
            RiscvReg::A6 => 16,
            RiscvReg::A7 => 17,
            RiscvReg::S2 => 18,
            RiscvReg::S3 => 19,
            RiscvReg::S4 => 20,
            RiscvReg::S5 => 21,
            RiscvReg::S6 => 22,
            RiscvReg::S7 => 23,
            RiscvReg::S8 => 24,
            RiscvReg::S9 => 25,
            RiscvReg::S10 => 26,
            RiscvReg::S11 => 27,
            RiscvReg::T3 => 28,
            RiscvReg::T4 => 29,
            RiscvReg::T5 => 30,
            RiscvReg::T6 => 31,
        }
    }
}

/// Where a guest register goes on the host.
pub open spec fn rv_map(reg: IrReg) -> RiscvReg {
    match reg {
        IrReg::X(n) => {
            if n == 0 {
                RiscvReg::A0
            } else if n == 1 {
                RiscvReg::A1
            } else if n == 2 {
                RiscvReg::A2
            } else if n == 3 {
                RiscvReg::A3
            } else if n == 4 {
                RiscvReg::A4
            } else if n == 5 {
                RiscvReg::A5
            } else if n == 6 {
                RiscvReg::A6
            } else if n == 7 {
                RiscvReg::A7
            } else if n == 8 {
                RiscvReg::T0
            } else if n == 9 {
                RiscvReg::T1
            } else if n == 10 {
                RiscvReg::T2
            } else if n == 11 {
                RiscvReg::T3
            } else if n == 12 {
                RiscvReg::T4
            } else if n == 13 {
                RiscvReg::T5
            } else if n == 14 {
                RiscvReg::T6
            } else if n == 15 {
                RiscvReg::S2
            } else if n == 16 {
                RiscvReg::S3
            } else if n == 17 {
                RiscvReg::S4
            } else if n == 18 {
                RiscvReg::S5
            } else if n == 19 {
                RiscvReg::S6
            } else if n == 20 {
                RiscvReg::S7
            } else if n == 21 {
                RiscvReg::S8
            } else if n == 22 {
                RiscvReg::S9
            } else if n == 23 {
                RiscvReg::S10
            } else if n == 24 {
                RiscvReg::S11
            } else if n == 25 {
                RiscvReg::Gp
            } else if n == 26 {
                RiscvReg::Tp
            } else if n == 27 {
                RiscvReg::S1
            } else if n == 28 {
                RiscvReg::Ra
            } else if n == 29 {
                RiscvReg::S0
            } else if n == 30 {
                RiscvReg::Ra
            } else {
                RiscvReg::A0
            }
        },
        IrReg::SP => RiscvReg::Sp,
        _ => RiscvReg::A0,
    }
}

/// `addi rd, rs1, imm12`.
pub open spec fn addi(rd: u32, rs1: u32, imm12: u32) -> u32 {
    (imm12 << 20u32) | (rs1 << 15u32) | (rd << 7u32) | 0x13
}

/// An R-type ALU instruction with `funct7` (0 for add, 0x20 for sub).
pub open spec fn alu_rr(funct7: u32, rd: u32, rs1: u32, rs2: u32) -> u32 {
    (funct7 << 25u32) | (rs2 << 20u32) | (rs1 << 15u32) | (rd << 7u32) | 0x33
}

/// The first source register of an add or sub: its register, or the destination for an
/// immediate.
pub open spec fn rv_src1(inst: IrInstruction, rd: u32) -> u32 {
    match inst.src1 {
        IrOperand::Reg(r) => rv_num(rv_map(r)),
        _ => rd,
    }
}

/// The words emitted for one IR instruction (none for an unencodable move or arithmetic).
pub open spec fn rv_words(inst: IrInstruction) -> Seq<u32> {
    match inst.opcode {
        IrOpcode::Nop => seq![0x13u32],
        IrOpcode::Return => seq![0x8067u32],
        IrOpcode::Mov => match (inst.dst, inst.src1) {
            (Some(d), IrOperand::Imm(imm)) => seq![addi(rv_num(rv_map(d)), 0, (imm as u32) & 0xfff)],
            (Some(d), IrOperand::Reg(s)) => seq![(rv_num(rv_map(s)) << 15u32) | (rv_num(rv_map(d)) << 7u32) | 0x13],
            _ => Seq::empty(),
        },
        IrOpcode::Add | IrOpcode::Sub => match inst.dst {
            Some(d) => {
                let rd = rv_num(rv_map(d));
                let rs1 = rv_src1(inst, rd);
                let is_add = inst.opcode == IrOpcode::Add;
                match inst.src2 {
                    Some(IrOperand::Imm(imm)) => seq![addi(rd, rs1, (if is_add { imm as u32 } else { (-imm) as i64 as u32 }) & 0xfff)],
                    Some(IrOperand::Reg(r2)) => seq![alu_rr(if is_add { 0 } else { 0x20 }, rd, rs1, rv_num(rv_map(r2)))],
                    _ => Seq::empty(),
                }
            },
            None => Seq::empty(),
        },
        IrOpcode::MemoryBarrier => seq![0x0ff0000fu32],
        IrOpcode::Syscall => seq![0x73u32],
        IrOpcode::VecAdd => seq![((1u32 << 20u32) | (2u32 << 15u32)) | 0x57],
        IrOpcode::VecSub => seq![((2u32 << 26u32) | (1u32 << 20u32) | (2u32 << 15u32)) | 0x57],
        _ => seq![0x13u32],
    }
}

/// Negating the immediate of a SUB must not overflow.
pub open spec fn rv_encodable(inst: IrInstruction) -> bool {
    inst.opcode == IrOpcode::Sub && inst.dst is Some ==> match inst.src2 {
        Some(IrOperand::Imm(imm)) => imm != i64::MIN,
        _ => true,
    }
}

/// The words of the first `k` instructions.
pub open spec fn rv_code(insts: Seq<IrInstruction>, k: int) -> Seq<u32>
    decreases k,
{
    if k <= 0 || k > insts.len() { Seq::empty() } else { rv_code(insts, k - 1) + rv_words(insts[k - 1]) }
}

/// The little-endian bytes of a sequence of words.
pub open spec fn words_le(w: Seq<u32>) -> Seq<u8>
    decreases w.len(),
{
    if w.len() == 0 { Seq::empty() } else { words_le(w.drop_last()) + bytes32(w.last() as int) }
}

/// Each IR instruction gives at most one word, so a block gives at most one word per
/// instruction.
pub proof fn lemma_rv_code_one_word_each(insts: Seq<IrInstruction>, k: int)
    requires
        0 <= k <= insts.len(),
    ensures
        rv_code(insts, k).len() <= k,
    decreases k,
{
    if k > 0 {
        lemma_rv_code_one_word_each(insts, k - 1);
        assert(rv_words(insts[k - 1]).len() <= 1);
    }
}

/// The bytes of a sequence of words are four per word, each word's in order, little-endian.
pub proof fn lemma_words_le_layout(w: Seq<u32>)
    ensures
        words_le(w).len() == 4 * w.len(),
        forall|i: int| 0 <= i < w.len() ==> #[trigger] words_le(w).subrange(4 * i, 4 * i + 4) == bytes32(w[i] as int),
    decreases w.len(),
{
    if w.len() > 0 {
        let front = w.drop_last();
        lemma_words_le_layout(front);
        let b = bytes32(w.last() as int);
        assert(b.len() == 4);
        assert forall|i: int| 0 <= i < w.len() implies #[trigger] words_le(w).subrange(4 * i, 4 * i + 4) == bytes32(w[i] as int) by {
            if i < w.len() - 1 {
                assert(words_le(front).subrange(4 * i, 4 * i + 4) == bytes32(front[i] as int));
                assert(words_le(w).subrange(4 * i, 4 * i + 4) =~= words_le(front).subrange(4 * i, 4 * i + 4));
            } else {
                assert(words_le(w).subrange(4 * i, 4 * i + 4) =~= b);
            }
        }
    }
}

/// The RISC-V code generator.
pub struct RiscvBackend;

impl RiscvBackend {
    pub fn map_reg(reg: IrReg) -> (r: RiscvReg)
        ensures
            r == rv_map(reg),
    {
        match reg {
            IrReg::X(n) => {
                if n == 0 {
                    RiscvReg::A0
                } else if n == 1 {
                    RiscvReg::A1
                } else if n == 2 {
                    RiscvReg::A2
                } else if n == 3 {
                    RiscvReg::A3
                } else if n == 4 {
                    RiscvReg::A4
                } else if n == 5 {
                    RiscvReg::A5
                } else if n == 6 {
                    RiscvReg::A6
                } else if n == 7 {
                    RiscvReg::A7
                } else if n == 8 {
                    RiscvReg::T0
                } else if n == 9 {
                    RiscvReg::T1
                } else if n == 10 {
                    RiscvReg::T2
                } else if n == 11 {
                    RiscvReg::T3
                } else if n == 12 {
                    RiscvReg::T4
                } else if n == 13 {
                    RiscvReg::T5
                } else if n == 14 {
                    RiscvReg::T6
                } else if n == 15 {
                    RiscvReg::S2
                } else if n == 16 {
                    RiscvReg::S3
                } else if n == 17 {
                    RiscvReg::S4
                } else if n == 18 {
                    RiscvReg::S5
                } else if n == 19 {
                    RiscvReg::S6
                } else if n == 20 {
                    RiscvReg::S7
                } else if n == 21 {
                    RiscvReg::S8
                } else if n == 22 {
                    RiscvReg::S9
                } else if n == 23 {
                    RiscvReg::S10
                } else if n == 24 {
                    RiscvReg::S11
                } else if n == 25 {
                    RiscvReg::Gp
                } else if n == 26 {
                    RiscvReg::Tp
                } else if n == 27 {
                    RiscvReg::S1
                } else if n == 28 {
                    RiscvReg::Ra
                } else if n == 29 {
                    RiscvReg::S0
                } else if n == 30 {
                    RiscvReg::Ra
                } else {
                    RiscvReg::A0
                }
            },
            IrReg::SP => RiscvReg::Sp,
            _ => RiscvReg::A0,
        }
    }

    fn emit_instruction(code: &mut Vec<u32>, inst: &IrInstruction)
        requires
            rv_encodable(*inst),
        ensures
            final(code)@ == old(code)@ + rv_words(*inst),
    {
        let ghost start = code@;
        match inst.opcode {
            IrOpcode::Nop => code.push(0x13),
            IrOpcode::Return => code.push(0x8067),
            IrOpcode::Mov => {
                match (inst.dst, inst.src1) {
                    (Some(dst), IrOperand::Imm(imm)) => {
                        let rd = Self::map_reg(dst).number();
                        let imm12 = (imm as u32) & 0xfff;
                        code.push((imm12 << 20u32) | (0u32 << 15u32) | (rd << 7u32) | 0x13);
                    },
                    (Some(dst), IrOperand::Reg(src)) => {
                        let rd = Self::map_reg(dst).number();
                        let rs = Self::map_reg(src).number();
                        code.push((rs << 15u32) | (rd << 7u32) | 0x13);
                    },
                    _ => {},
                }
            },
            IrOpcode::Add | IrOpcode::Sub => {
                if let Some(dst) = inst.dst {
                    let rd = Self::map_reg(dst).number();
                    let rs1 = if let IrOperand::Reg(src1) = inst.src1 { Self::map_reg(src1).number() } else { rd };
                    let is_add = inst.opcode == IrOpcode::Add;
                    match inst.src2 {
                        Some(IrOperand::Imm(imm)) => {
                            let imm12 = (if is_add { imm as u32 } else { (-imm) as u32 }) & 0xfff;
                            code.push((imm12 << 20u32) | (rs1 << 15u32) | (rd << 7u32) | 0x13);
                        },
                        Some(IrOperand::Reg(src2)) => {
                            let rs2 = Self::map_reg(src2).number();
                            let f: u32 = if is_add { 0 } else { 0x20 };
                            code.push((f << 25u32) | (rs2 << 20u32) | (rs1 << 15u32) | (rd << 7u32) | 0x33);
                        },
                        _ => {},
                    }
                }
            },
            IrOpcode::MemoryBarrier => code.push(0x0ff0000f),
            IrOpcode::Syscall => code.push(0x73),
            IrOpcode::VecAdd => code.push(((1u32 << 20u32) | (2u32 << 15u32)) | 0x57),
            IrOpcode::VecSub => code.push(((2u32 << 26u32) | (1u32 << 20u32) | (2u32 << 15u32)) | 0x57),
            _ => code.push(0x13),
        }
        assert(code@ =~= start + rv_words(*inst));
    }

    /// Compiles a block to RISC-V instruction words.
    pub fn compile_block(block: &IrBlock) -> (r: Vec<u32>)
        requires
            forall|k: int| 0 <= k < block.instructions@.len() ==> rv_encodable(#[trigger] block.instructions@[k]),
        ensures
            r@ == rv_code(block.instructions@, block.instructions@.len() as int),
    {
        let mut code: Vec<u32> = Vec::new();
        let n = block.instructions.len();
        let mut k: usize = 0;
        while k < n
            invariant
                0 <= k <= n,
                n == block.instructions@.len(),
                forall|j: int| 0 <= j < block.instructions@.len() ==> rv_encodable(#[trigger] block.instructions@[j]),
                code@ == rv_code(block.instructions@, k as int),
            decreases n - k,
        {
            Self::emit_instruction(&mut code, &block.instructions[k]);
            k = k + 1;
        }
        code
    }

    /// Compiles a block and lays the words out in little-endian order.
    pub fn compile_to_bytes(block: &IrBlock) -> (r: Vec<u8>)
        requires
            forall|k: int| 0 <= k < block.instructions@.len() ==> rv_encodable(#[trigger] block.instructions@[k]),
        ensures
            r@ == words_le(rv_code(block.instructions@, block.instructions@.len() as int)),
    {
        let words = Self::compile_block(block);
        let mut bytes: Vec<u8> = Vec::new();
        let mut i: usize = 0;
        while i < words.len()
            invariant
                0 <= i <= words@.len(),
                bytes@ == words_le(words@.subrange(0, i as int)),
            decreases words@.len() - i,
        {
            push_u32(&mut bytes, words[i]);
            proof {
                assert(words@.subrange(0, i + 1).drop_last() =~= words@.subrange(0, i as int));
            }
            i = i + 1;
        }
        proof {
            assert(words@.subrange(0, words@.len() as int) =~= words@);
        }
        bytes
    }
}

/// An ADDI word is the OP-IMM major opcode (0x13) with funct3 0, and its fields read back as
/// the destination (bits 11..7), the source (bits 19..15) and the 12-bit immediate (bits
/// 31..20).
pub proof fn lemma_addi_fields(rd: u32, rs1: u32, imm12: u32)
    requires
        rd < 32,
        rs1 < 32,
        imm12 < 0x1000,
    ensures
        addi(rd, rs1, imm12) & 0x7f == 0x13,
        (addi(rd, rs1, imm12) >> 12u32) & 0x7 == 0,
        (addi(rd, rs1, imm12) >> 7u32) & 0x1f == rd,
        (addi(rd, rs1, imm12) >> 15u32) & 0x1f == rs1,
        addi(rd, rs1, imm12) >> 20u32 == imm12,
{
    assert(((imm12 << 20u32) | (rs1 << 15u32) | (rd << 7u32) | 0x13) & 0x7f == 0x13
        && (((imm12 << 20u32) | (rs1 << 15u32) | (rd << 7u32) | 0x13) >> 12u32) & 0x7 == 0
        && (((imm12 << 20u32) | (rs1 << 15u32) | (rd << 7u32) | 0x13) >> 7u32) & 0x1f == rd
        && (((imm12 << 20u32) | (rs1 << 15u32) | (rd << 7u32) | 0x13) >> 15u32) & 0x1f == rs1
        && ((imm12 << 20u32) | (rs1 << 15u32) | (rd << 7u32) | 0x13) >> 20u32 == imm12) by (bit_vector)
        requires
            rd < 32,
            rs1 < 32,
            imm12 < 0x1000,
    ;
}

/// An R-type ALU word is the OP major opcode (0x33) with funct3 0, and its fields read back
/// as the destination (bits 11..7), the sources (bits 19..15 and 24..20) and funct7 (bits
/// 31..25: 0 for ADD, 0x20 for SUB).
pub proof fn lemma_alu_rr_fields(funct7: u32, rd: u32, rs1: u32, rs2: u32)
    requires
        funct7 < 0x80,
        rd < 32,
        rs1 < 32,
        rs2 < 32,
    ensures
        alu_rr(funct7, rd, rs1, rs2) & 0x7f == 0x33,
        (alu_rr(funct7, rd, rs1, rs2) >> 12u32) & 0x7 == 0,
        (alu_rr(funct7, rd, rs1, rs2) >> 7u32) & 0x1f == rd,
        (alu_rr(funct7, rd, rs1, rs2) >> 15u32) & 0x1f == rs1,
        (alu_rr(funct7, rd, rs1, rs2) >> 20u32) & 0x1f == rs2,
        alu_rr(funct7, rd, rs1, rs2) >> 25u32 == funct7,
{
    assert(((funct7 << 25u32) | (rs2 << 20u32) | (rs1 << 15u32) | (rd << 7u32) | 0x33) & 0x7f == 0x33
        && (((funct7 << 25u32) | (rs2 << 20u32) | (rs1 << 15u32) | (rd << 7u32) | 0x33) >> 12u32) & 0x7 == 0
        && (((funct7 << 25u32) | (rs2 << 20u32) | (rs1 << 15u32) | (rd << 7u32) | 0x33) >> 7u32) & 0x1f == rd
        && (((funct7 << 25u32) | (rs2 << 20u32) | (rs1 << 15u32) | (rd << 7u32) | 0x33) >> 15u32) & 0x1f == rs1
        && (((funct7 << 25u32) | (rs2 << 20u32) | (rs1 << 15u32) | (rd << 7u32) | 0x33) >> 20u32) & 0x1f == rs2
        && ((funct7 << 25u32) | (rs2 << 20u32) | (rs1 << 15u32) | (rd << 7u32) | 0x33) >> 25u32 == funct7) by (bit_vector)
        requires
            funct7 < 0x80,
            rd < 32,
            rs1 < 32,
            rs2 < 32,
    ;
}

/// Guest registers X0 to X29 live in distinct host registers, none of them the zero
/// register or the host stack pointer; X30 shares the return-address register with X28.
pub proof fn lemma_rv_guest_registers(a: u8, b: u8)
    requires
        a <= 29,
        b <= 29,
    ensures
        a != b ==> rv_map(IrReg::X(a)) != rv_map(IrReg::X(b)),
        rv_map(IrReg::X(a)) != RiscvReg::Zero,
        rv_map(IrReg::X(a)) != RiscvReg::Sp,
        rv_map(IrReg::X(30)) == rv_map(IrReg::X(28)),
{
}

} // verus!
