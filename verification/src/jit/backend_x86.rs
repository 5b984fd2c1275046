//! x86-64 code generation from the IR.

use vstd::prelude::*;
use crate::jit::decoder::{Arm64Inst, Arm64Op, ConditionCode};
use crate::jit::tier0::{condition_holds, lemma_conditions_after_compare, plain_operand, signed64, spec_step, wrap64};
use crate::arch::context::CpuView;
use crate::jit::ir::{IrBlock, IrInstruction, IrOpcode, IrOperand, IrReg};
use crate::memory::mmap::{MemoryError, MemoryRegion, ProtFlags, spec_allocation};
use crate::wire::{bytes32, bytes64, push_u32, push_u64};
use crate::text::concat;

verus! {

/// The sixteen x86-64 general purpose registers.
#[derive(Debug, Clone, Copy, PartialEq, Eq, Structural)]
pub enum X86Reg {
    Rax,
    Rcx,
    Rdx,
    Rbx,
    Rsp,
    Rbp,
    Rsi,
    Rdi,
    R8,
    R9,
    R10,
    R11,
    R12,
    R13,
    R14,
    R15,
}

/// A register's hardware number.
pub open spec fn reg_num(r: X86Reg) -> u8 {
    match r {
        X86Reg::Rax => 0,
        X86Reg::Rcx => 1,
        X86Reg::Rdx => 2,
        X86Reg::Rbx => 3,
        X86Reg::Rsp => 4,
        X86Reg::Rbp => 5,
        X86Reg::Rsi => 6,
        X86Reg::Rdi => 7,
        X86Reg::R8 => 8,
        X86Reg::R9 => 9,
        X86Reg::R10 => 10,
        X86Reg::R11 => 11,
        X86Reg::R12 => 12,
        X86Reg::R13 => 13,
        X86Reg::R14 => 14,
        X86Reg::R15 => 15,
    }
}

pub open spec fn ext(r: X86Reg) -> bool {
    reg_num(r) >= 8
}

pub open spec fn low3(r: X86Reg) -> int {
    reg_num(r) as int % 8
}

impl X86Reg {
    pub fn number(&self) -> (r: u8)
        ensures
            r == reg_num(*self),
    {
        match self {
            X86Reg::Rax => 0,
            X86Reg::Rcx => 1,
            X86Reg::Rdx => 2,
            X86Reg::Rbx => 3,
            X86Reg::Rsp => 4,
            X86Reg::Rbp => 5,
            X86Reg::Rsi => 6,
            X86Reg::Rdi => 7,
            X86Reg::R8 => 8,
            X86Reg::R9 => 9,
            X86Reg::R10 => 10,
            X86Reg::R11 => 11,
            X86Reg::R12 => 12,
            X86Reg::R13 => 13,
            X86Reg::R14 => 14,
            X86Reg::R15 => 15,
        }
    }

    /// Whether encoding the register needs a REX extension bit (r8..r15).
    pub fn is_extended(&self) -> (r: bool)
        ensures
            r == ext(*self),
    {
        self.number() >= 8
    }

    /// The low three bits of the register number, as they go into ModRM.
    pub fn low_3bits(&self) -> (r: u8)
        ensures
            r == low3(*self),
    {
        self.number() % 8
    }
}

/// Where a guest general register goes on the host.
pub open spec fn x86_map(reg: IrReg) -> X86Reg {
    match reg {
        IrReg::X(n) => if n == 0 {
            X86Reg::Rdi
        } else if n == 1 {
            X86Reg::Rsi
        } else if n == 2 {
            X86Reg::Rdx
        } else if n == 3 {
            X86Reg::Rcx
        } else if n == 4 {
            X86Reg::R8
        } else if n == 5 {
            X86Reg::R9
        } else if n == 6 {
            X86Reg::R10
        } else if n == 7 {
            X86Reg::R11
        } else if n == 8 {
            X86Reg::Rax
        } else if n == 29 {
            X86Reg::Rbp
        } else if n == 30 {
            X86Reg::R12
        } else {
            let idx = n % 6 + 10;
            if idx == 10 {
                X86Reg::R10
            } else if idx == 11 {
                X86Reg::R11
            } else if idx == 12 {
                X86Reg::R12
            } else if idx == 13 {
                X86Reg::R13
            } else if idx == 14 {
                X86Reg::R14
            } else {
                X86Reg::R15
            }
        },
        IrReg::SP => X86Reg::Rsp,
        _ => X86Reg::Rax,
    }
}

/// REX.W with the B bit for a single register operand.
pub open spec fn rex1(r: X86Reg) -> u8 {
    if ext(r) { 0x49 } else { 0x48 }
}

/// REX.W with the R bit for the source and the B bit for the destination.
pub open spec fn rex_rr(dst: X86Reg, src: X86Reg) -> u8 {
    (0x48 + (if ext(src) { 4int } else { 0 }) + (if ext(dst) { 1int } else { 0 })) as u8
}

/// A register-to-register instruction with opcode `op` (`op dst, src`).
pub open spec fn rr(op: u8, dst: X86Reg, src: X86Reg) -> Seq<u8> {
    seq![rex_rr(dst, src), op, (0xc0 + low3(src) * 8 + low3(dst)) as u8]
}

/// `add dst, imm32` (sub when `ext_op` is 5) of the low 32 bits of `imm`.
pub open spec fn alu_imm(ext_op: int, dst: X86Reg, imm: i64) -> Seq<u8> {
    seq![rex1(dst), 0x81u8, (0xc0 + ext_op * 8 + low3(dst)) as u8] + bytes32((imm as i32) as u32 as int)
}

/// The jcc opcode byte for a condition, other than AL and NV.
pub open spec fn jcc(cond: ConditionCode) -> u8 {
    match cond {
        ConditionCode::EQ => 0x84,
        ConditionCode::NE => 0x85,
        ConditionCode::CS => 0x83,
        ConditionCode::CC => 0x82,
        ConditionCode::MI => 0x88,
        ConditionCode::PL => 0x89,
        ConditionCode::VS => 0x80,
        ConditionCode::VC => 0x81,
        ConditionCode::HI => 0x87,
        ConditionCode::LS => 0x86,
        ConditionCode::GE => 0x8d,
        ConditionCode::LT => 0x8c,
        ConditionCode::GT => 0x8f,
        _ => 0x8e,
    }
}

/// The jcc byte the straight-line emitter uses, which folds some conditions together.
pub open spec fn plain_jcc(cond: ConditionCode) -> u8 {
    match cond {
        ConditionCode::EQ => 0x84,
        ConditionCode::NE => 0x85,
        ConditionCode::CS | ConditionCode::HI => 0x87,
        ConditionCode::CC | ConditionCode::LS => 0x86,
        ConditionCode::GE => 0x8d,
        ConditionCode::LT => 0x8c,
        ConditionCode::GT => 0x8f,
        ConditionCode::LE => 0x8e,
        _ => 0x84,
    }
}

/// The move of the first source into the destination, unless they are one register.
pub open spec fn copy_first(rd: X86Reg, src1: IrOperand) -> Seq<u8> {
    match src1 {
        IrOperand::Reg(s1) => if rd != x86_map(s1) { rr(0x89, rd, x86_map(s1)) } else { Seq::empty() },
        _ => Seq::empty(),
    }
}

/// The add or sub of the second source into the destination.
pub open spec fn alu_second(is_add: bool, rd: X86Reg, src2: Option<IrOperand>) -> Seq<u8> {
    match src2 {
        Some(IrOperand::Imm(imm)) => alu_imm(if is_add { 0 } else { 5 }, rd, imm),
        Some(IrOperand::Reg(s2)) => rr(if is_add { 0x01 } else { 0x29 }, rd, x86_map(s2)),
        _ => Seq::empty(),
    }
}

/// The bytes of an instruction other than a resolved branch.
pub open spec fn x86_bytes(inst: IrInstruction) -> Seq<u8> {
    match inst.opcode {
        IrOpcode::Nop => seq![0x90u8],
        IrOpcode::Return => seq![0x48u8, 0x89, 0xf8, 0xc3],
        IrOpcode::Mov => match (inst.dst, inst.src1) {
            (Some(d), IrOperand::Imm(imm)) => seq![rex1(x86_map(d)), (0xb8 + low3(x86_map(d))) as u8]
                + bytes64(imm as u64 as int),
            (Some(d), IrOperand::Reg(s)) => rr(0x89, x86_map(d), x86_map(s)),
            _ => Seq::empty(),
        },
        IrOpcode::Add | IrOpcode::Sub => match inst.dst {
            Some(d) => copy_first(x86_map(d), inst.src1) + alu_second(inst.opcode == IrOpcode::Add, x86_map(d), inst.src2),
            None => Seq::empty(),
        },
        IrOpcode::Cmp => match (inst.src1, inst.src2) {
            (IrOperand::Reg(s1), Some(IrOperand::Imm(imm))) => alu_imm(7, x86_map(s1), imm),
            _ => Seq::empty(),
        },
        IrOpcode::Branch => match inst.src1 {
            IrOperand::Imm(off) => seq![0xe9u8] + bytes32((off as i32) as u32 as int),
            _ => Seq::empty(),
        },
        IrOpcode::CondBranch(c) => match inst.src1 {
            IrOperand::Imm(off) => seq![0x0fu8, plain_jcc(c)] + bytes32((off as i32) as u32 as int),
            _ => Seq::empty(),
        },
        IrOpcode::Syscall => seq![0x0fu8, 0x05],
        IrOpcode::MemoryBarrier => seq![0x0fu8, 0xae, 0xf0],
        IrOpcode::VecAdd => seq![0x66u8, 0x0f, 0xfe, 0xc1],
        IrOpcode::VecSub => seq![0x66u8, 0x0f, 0xfa, 0xc1],
        _ => seq![0x90u8],
    }
}

/// Whether the block compiler resolves `inst` as a branch to another instruction of the block.
pub open spec fn is_block_branch(inst: IrInstruction) -> bool {
    match (inst.opcode, inst.src1) {
        (IrOpcode::Branch, IrOperand::Imm(_)) => true,
        (IrOpcode::CondBranch(c), IrOperand::Imm(_)) => c != ConditionCode::NV,
        _ => false,
    }
}

/// The guest offset a block branch moves by.
pub open spec fn branch_offset(inst: IrInstruction) -> i64 {
    match inst.src1 {
        IrOperand::Imm(off) => off,
        _ => 0,
    }
}

/// The opcode bytes in front of a block branch's displacement.
pub open spec fn branch_prefix(inst: IrInstruction) -> Seq<u8> {
    match inst.opcode {
        IrOpcode::CondBranch(c) => if c == ConditionCode::AL { seq![0xe9u8] } else { seq![0x0fu8, jcc(c)] },
        _ => seq![0xe9u8],
    }
}

/// What the block compiler emits for `inst` before branches are resolved.
pub open spec fn piece(inst: IrInstruction) -> Seq<u8> {
    if is_block_branch(inst) {
        branch_prefix(inst) + seq![0u8, 0, 0, 0]
    } else if inst.opcode == IrOpcode::CondBranch(ConditionCode::NV) && inst.src1 is Imm {
        Seq::empty()
    } else {
        x86_bytes(inst)
    }
}

/// The host offset of instruction `k` of the block.
pub open spec fn host_offset(insts: Seq<IrInstruction>, k: int) -> int
    decreases k,
{
    if k <= 0 || k > insts.len() { 0 } else { host_offset(insts, k - 1) + piece(insts[k - 1]).len() }
}

/// Guest offsets count four-byte instructions; Rust division rounds toward zero.
pub open spec fn trunc_div4(g: int) -> int {
    if g >= 0 { g / 4 } else { -((-g) / 4) }
}

/// The index of the instruction a block branch at `k` lands on, when it lands inside the
/// block (the end of the block counts).
pub open spec fn branch_target_index(insts: Seq<IrInstruction>, k: int) -> Option<int> {
    let g = branch_offset(insts[k]) as int;
    let t = k + trunc_div4(g);
    if g % 4 == 0 && 0 <= t <= insts.len() { Some(t) } else { None }
}

/// The rel32 of a block branch at `k`, when it resolves and fits.
pub open spec fn branch_displacement(insts: Seq<IrInstruction>, k: int) -> Option<int> {
    match branch_target_index(insts, k) {
        Some(t) => {
            let d = host_offset(insts, t) - (host_offset(insts, k) + branch_prefix(insts[k]).len() + 4);
            if i32::MIN <= d <= i32::MAX { Some(d) } else { None }
        },
        None => None,
    }
}

/// What the block compiler finally emits for instruction `k`.
pub open spec fn final_piece(insts: Seq<IrInstruction>, k: int) -> Seq<u8> {
    if is_block_branch(insts[k]) {
        match branch_displacement(insts, k) {
            Some(d) => branch_prefix(insts[k]) + bytes32(if d >= 0 { d } else { d + 0x1_0000_0000 }),
            None => piece(insts[k]),
        }
    } else {
        piece(insts[k])
    }
}

/// The code of the first `k` instructions of a block.
pub open spec fn block_code(insts: Seq<IrInstruction>, k: int) -> Seq<u8>
    decreases k,
{
    if k <= 0 || k > insts.len() { Seq::empty() } else { block_code(insts, k - 1) + final_piece(insts, k - 1) }
}

/// Offset of guest register `n` in the context the context-mode code works on.
pub open spec fn reg_slot(n: int) -> int {
    n * 8
}

pub const REG_SP_OFFSET: i32 = 248;
pub const REG_PC_OFFSET: i32 = 256;

/// `mov reg, [r15 + offset]`.
pub open spec fn ctx_load(reg: u8, offset: i32) -> Seq<u8> {
    seq![(0x49 + (if reg >= 8 { 4int } else { 0 })) as u8, 0x8bu8, (0x87 + (reg as int % 8) * 8) as u8]
        + bytes32(offset as u32 as int)
}

/// `mov [r15 + offset], reg`.
pub open spec fn ctx_store(reg: u8, offset: i32) -> Seq<u8> {
    seq![(0x49 + (if reg >= 8 { 4int } else { 0 })) as u8, 0x89u8, (0x87 + (reg as int % 8) * 8) as u8]
        + bytes32(offset as u32 as int)
}

/// `movabs reg, value` for reg 0..7.
pub open spec fn mov_imm_to(value: i64, reg: u8) -> Seq<u8> {
    seq![0x48u8, (0xb8 + reg) as u8] + bytes64(value as u64 as int)
}

/// `op dst, src` on 64-bit registers given by number.
pub open spec fn reg_binary(op: u8, dst: u8, src: u8) -> Seq<u8> {
    seq![(0x48 + (if src >= 8 { 4int } else { 0 }) + (if dst >= 8 { 1int } else { 0 })) as u8, op,
        (0xc0 + (src as int % 8) * 8 + dst as int % 8) as u8]
}

/// Advance the guest PC by one instruction.
pub open spec fn pc_step() -> Seq<u8> {
    ctx_load(0, REG_PC_OFFSET) + mov_imm_to(4, 1) + reg_binary(0x01, 0, 1) + ctx_store(0, REG_PC_OFFSET)
}

pub open spec fn prologue() -> Seq<u8> {
    seq![0x55u8, 0x53, 0x41, 0x54, 0x41, 0x55, 0x41, 0x56, 0x41, 0x57, 0x49, 0x89, 0xff]
}

pub open spec fn epilogue() -> Seq<u8> {
    seq![0x41u8, 0x5f, 0x41, 0x5e, 0x41, 0x5d, 0x41, 0x5c, 0x5b, 0x5d, 0xc3]
}

/// Loading a register operand into host register `reg`, when the operand is a guest register.
pub open spec fn ctx_load_operand(op: IrOperand, reg: u8) -> Option<Seq<u8>> {
    match op {
        IrOperand::Reg(IrReg::X(i)) => if i < 31 { Some(ctx_load(reg, (i as int * 8) as i32)) } else { None },
        IrOperand::Reg(IrReg::SP) => Some(ctx_load(reg, REG_SP_OFFSET)),
        _ => None,
    }
}

/// The guest register a context-mode instruction writes.
pub open spec fn ctx_dst(inst: IrInstruction) -> Option<u8> {
    match inst.dst {
        Some(IrReg::X(r)) => if r < 31 { Some(r) } else { None },
        _ => None,
    }
}

/// A binary operation `op` in context mode.
pub open spec fn ctx_binary(inst: IrInstruction, op: u8) -> Option<Seq<u8>> {
    match (ctx_dst(inst), ctx_load_operand(inst.src1, 0)) {
        (Some(d), Some(l1)) => {
            let second = match inst.src2 {
                Some(IrOperand::Reg(r)) => ctx_load_operand(IrOperand::Reg(r), 1),
                Some(IrOperand::Imm(v)) => Some(mov_imm_to(v, 1)),
                _ => None,
            };
            match second {
                Some(l2) => Some(l1 + l2 + reg_binary(op, 0, 1) + ctx_store(0, (d as int * 8) as i32) + pc_step()),
                None => None,
            }
        },
        _ => None,
    }
}

/// What a context-mode block emits for one instruction, or None where context mode cannot
/// run it.
pub open spec fn ctx_piece(inst: IrInstruction) -> Option<Seq<u8>> {
    match inst.opcode {
        IrOpcode::Nop => Some(pc_step()),
        IrOpcode::Mov => match ctx_dst(inst) {
            Some(d) => match inst.src1 {
                IrOperand::Imm(v) => Some(mov_imm_to(v, 0) + ctx_store(0, (d as int * 8) as i32) + pc_step()),
                IrOperand::Reg(r) => match ctx_load_operand(IrOperand::Reg(r), 0) {
                    Some(l) => Some(l + ctx_store(0, (d as int * 8) as i32) + pc_step()),
                    None => None,
                },
                _ => None,
            },
            None => None,
        },
        IrOpcode::Add => ctx_binary(inst, 0x01),
        IrOpcode::Sub => ctx_binary(inst, 0x29),
        IrOpcode::And => ctx_binary(inst, 0x21),
        IrOpcode::Orr => ctx_binary(inst, 0x09),
        IrOpcode::Eor => ctx_binary(inst, 0x31),
        IrOpcode::MemoryBarrier => Some(seq![0x0fu8, 0xae, 0xf0]),
        IrOpcode::Return => match ctx_load_operand(inst.src1, 1) {
            Some(l) => Some(ctx_load(0, REG_PC_OFFSET) + l + ctx_store(1, REG_PC_OFFSET) + epilogue()),
            None => None,
        },
        _ => None,
    }
}

/// The context-mode code of the first `k` instructions, or None if one of them cannot run.
pub open spec fn ctx_code(insts: Seq<IrInstruction>, k: int) -> Option<Seq<u8>>
    decreases k,
{
    if k <= 0 || k > insts.len() {
        Some(Seq::empty())
    } else {
        match (ctx_code(insts, k - 1), ctx_piece(insts[k - 1])) {
            (Some(a), Some(b)) => Some(a + b),
            _ => None,
        }
    }
}

/// The whole context-mode function for a block.
pub open spec fn spec_context_block(insts: Seq<IrInstruction>) -> Option<Seq<u8>> {
    match ctx_code(insts, insts.len() as int) {
        Some(body) => Some(prologue() + body + if insts.len() > 0 && insts.last().opcode == IrOpcode::Return {
            Seq::empty()
        } else {
            pc_step() + epilogue()
        }),
        None => None,
    }
}

/// A region holding `code` from its start, zero after it, `len` bytes long at the first guest
/// mapping address, readable and executable.
pub open spec fn placed(region: MemoryRegion, code: Seq<u8>, len: int) -> bool {
    &&& region.inv()
    &&& region.spec_base() == crate::memory::mmap::GUEST_MAP_BASE
    &&& region.spec_len() == len
    &&& region.spec_prot().0 == 5
    &&& region.contents() == code + Seq::new((len - code.len()) as nat, |i: int| 0u8)
}

/// The x86-64 code generator.
pub struct X86Backend;

impl X86Backend {
    pub fn map_reg(reg: IrReg) -> (r: X86Reg)
        ensures
            r == x86_map(reg),
    {
        match reg {
            IrReg::X(n) => {
                if n == 0 {
                    X86Reg::Rdi
                } else if n == 1 {
                    X86Reg::Rsi
                } else if n == 2 {
                    X86Reg::Rdx
                } else if n == 3 {
                    X86Reg::Rcx
                } else if n == 4 {
                    X86Reg::R8
                } else if n == 5 {
                    X86Reg::R9
                } else if n == 6 {
                    X86Reg::R10
                } else if n == 7 {
                    X86Reg::R11
                } else if n == 8 {
                    X86Reg::Rax
                } else if n == 29 {
                    X86Reg::Rbp
                } else if n == 30 {
                    X86Reg::R12
                } else {
                    let idx = n % 6 + 10;
                    if idx == 10 {
                        X86Reg::R10
                    } else if idx == 11 {
                        X86Reg::R11
                    } else if idx == 12 {
                        X86Reg::R12
                    } else if idx == 13 {
                        X86Reg::R13
                    } else if idx == 14 {
                        X86Reg::R14
                    } else {
                        X86Reg::R15
                    }
                }
            },
            IrReg::SP => X86Reg::Rsp,
            _ => X86Reg::Rax,
        }
    }

    fn condition_opcode(cond: ConditionCode) -> (r: u8)
        requires
            cond != ConditionCode::AL,
            cond != ConditionCode::NV,
        ensures
            r == jcc(cond),
    {
        match cond {
            ConditionCode::EQ => 0x84,
            ConditionCode::NE => 0x85,
            ConditionCode::CS => 0x83,
            ConditionCode::CC => 0x82,
            ConditionCode::MI => 0x88,
            ConditionCode::PL => 0x89,
            ConditionCode::VS => 0x80,
            ConditionCode::VC => 0x81,
            ConditionCode::HI => 0x87,
            ConditionCode::LS => 0x86,
            ConditionCode::GE => 0x8d,
            ConditionCode::LT => 0x8c,
            ConditionCode::GT => 0x8f,
            _ => 0x8e,
        }
    }

    fn emit_rr(code: &mut Vec<u8>, op: u8, dst: X86Reg, src: X86Reg)
        ensures
            final(code)@ == old(code)@ + rr(op, dst, src),
    {
        let rex: u8 = 0x48 + (if src.is_extended() { 4u8 } else { 0u8 }) + (if dst.is_extended() { 1u8 } else { 0u8 });
        code.push(rex);
        code.push(op);
        code.push(0xc0 + src.low_3bits() * 8 + dst.low_3bits());
    }

    fn emit_mov_reg_reg(code: &mut Vec<u8>, dst: X86Reg, src: X86Reg)
        ensures
            final(code)@ == old(code)@ + rr(0x89, dst, src),
    {
        Self::emit_rr(code, 0x89, dst, src);
    }

    fn emit_add_reg_reg(code: &mut Vec<u8>, dst: X86Reg, src: X86Reg)
        ensures
            final(code)@ == old(code)@ + rr(0x01, dst, src),
    {
        Self::emit_rr(code, 0x01, dst, src);
    }

    fn emit_sub_reg_reg(code: &mut Vec<u8>, dst: X86Reg, src: X86Reg)
        ensures
            final(code)@ == old(code)@ + rr(0x29, dst, src),
    {
        Self::emit_rr(code, 0x29, dst, src);
    }

    fn emit_alu_imm(code: &mut Vec<u8>, ext_op: u8, dst: X86Reg, imm: i64)
        requires
            ext_op < 8,
        ensures
            final(code)@ == old(code)@ + alu_imm(ext_op as int, dst, imm),
    {
        code.push(if dst.is_extended() { 0x49u8 } else { 0x48u8 });
        code.push(0x81);
        code.push(0xc0 + ext_op * 8 + dst.low_3bits());
        push_u32(code, (imm as i32) as u32);
    }

    fn emit_add_imm(code: &mut Vec<u8>, dst: X86Reg, imm: i64)
        ensures
            final(code)@ == old(code)@ + alu_imm(0, dst, imm),
    {
        Self::emit_alu_imm(code, 0, dst, imm);
    }

    fn emit_sub_imm(code: &mut Vec<u8>, dst: X86Reg, imm: i64)
        ensures
            final(code)@ == old(code)@ + alu_imm(5, dst, imm),
    {
        Self::emit_alu_imm(code, 5, dst, imm);
    }

    fn emit_mov(code: &mut Vec<u8>, inst: &IrInstruction)
        requires
            inst.opcode == IrOpcode::Mov,
        ensures
            final(code)@ == old(code)@ + x86_bytes(*inst),
    {
        let ghost start = code@;
        match (inst.dst, inst.src1) {
            (Some(dst), IrOperand::Imm(imm)) => {
                let r = Self::map_reg(dst);
                code.push(if r.is_extended() { 0x49u8 } else { 0x48u8 });
                code.push(0xb8 + r.low_3bits());
                push_u64(code, imm as u64);
            },
            (Some(dst), IrOperand::Reg(src)) => {
                Self::emit_mov_reg_reg(code, Self::map_reg(dst), Self::map_reg(src));
            },
            _ => {},
        }
        assert(code@ =~= start + x86_bytes(*inst));
    }

    fn emit_copy_first(code: &mut Vec<u8>, rd: X86Reg, src1: IrOperand)
        ensures
            final(code)@ == old(code)@ + copy_first(rd, src1),
    {
        let ghost start = code@;
        if let IrOperand::Reg(s1) = src1 {
            let rs1 = Self::map_reg(s1);
            if rd != rs1 {
                Self::emit_mov_reg_reg(code, rd, rs1);
            }
        }
        assert(code@ =~= start + copy_first(rd, src1));
    }

    fn emit_alu_second(code: &mut Vec<u8>, is_add: bool, rd: X86Reg, src2: Option<IrOperand>)
        ensures
            final(code)@ == old(code)@ + alu_second(is_add, rd, src2),
    {
        let ghost start = code@;
        match src2 {
            Some(IrOperand::Imm(imm)) => {
                if is_add {
                    Self::emit_add_imm(code, rd, imm);
                } else {
                    Self::emit_sub_imm(code, rd, imm);
                }
            },
            Some(IrOperand::Reg(s2)) => {
                let rs2 = Self::map_reg(s2);
                if is_add {
                    Self::emit_add_reg_reg(code, rd, rs2);
                } else {
                    Self::emit_sub_reg_reg(code, rd, rs2);
                }
            },
            _ => {},
        }
        assert(code@ =~= start + alu_second(is_add, rd, src2));
    }

    fn emit_add_sub(code: &mut Vec<u8>, inst: &IrInstruction)
        requires
            inst.opcode == IrOpcode::Add || inst.opcode == IrOpcode::Sub,
        ensures
            final(code)@ == old(code)@ + x86_bytes(*inst),
    {
        let ghost start = code@;
        if let Some(dst) = inst.dst {
            let rd = Self::map_reg(dst);
            Self::emit_copy_first(code, rd, inst.src1);
            Self::emit_alu_second(code, inst.opcode == IrOpcode::Add, rd, inst.src2);
        }
        assert(code@ =~= start + x86_bytes(*inst));
    }

    fn emit_jump(code: &mut Vec<u8>, inst: &IrInstruction)
        requires
            inst.opcode == IrOpcode::Branch || inst.opcode is CondBranch,
        ensures
            final(code)@ == old(code)@ + x86_bytes(*inst),
    {
        let ghost start = code@;
        if let IrOperand::Imm(offset) = inst.src1 {
            if let IrOpcode::CondBranch(cond) = inst.opcode {
                let j: u8 = match cond {
                    ConditionCode::EQ => 0x84,
                    ConditionCode::NE => 0x85,
                    ConditionCode::CS | ConditionCode::HI => 0x87,
                    ConditionCode::CC | ConditionCode::LS => 0x86,
                    ConditionCode::GE => 0x8d,
                    ConditionCode::LT => 0x8c,
                    ConditionCode::GT => 0x8f,
                    ConditionCode::LE => 0x8e,
                    _ => 0x84,
                };
                code.push(0x0f);
                code.push(j);
            } else {
                code.push(0xe9);
            }
            push_u32(code, (offset as i32) as u32);
        }
        assert(code@ =~= start + x86_bytes(*inst));
    }

    fn emit_fixed(code: &mut Vec<u8>, bytes: &[u8])
        ensures
            final(code)@ == old(code)@ + bytes@,
    {
        let ghost start = code@;
        let mut i: usize = 0;
        while i < bytes.len()
            invariant
                0 <= i <= bytes@.len(),
                code@ == start + bytes@.subrange(0, i as int),
            decreases bytes@.len() - i,
        {
            code.push(bytes[i]);
            i = i + 1;
            assert(code@ =~= start + bytes@.subrange(0, i as int));
        }
        assert(bytes@.subrange(0, bytes@.len() as int) =~= bytes@);
    }

    /// Appends the straight-line encoding of `inst`.
    fn emit_instruction(code: &mut Vec<u8>, inst: &IrInstruction)
        ensures
            final(code)@ == old(code)@ + x86_bytes(*inst),
    {
        match inst.opcode {
            IrOpcode::Mov => Self::emit_mov(code, inst),
            IrOpcode::Add | IrOpcode::Sub => Self::emit_add_sub(code, inst),
            IrOpcode::Branch | IrOpcode::CondBranch(_) => Self::emit_jump(code, inst),
            IrOpcode::Cmp => {
                let ghost start = code@;
                if let (IrOperand::Reg(src1), Some(IrOperand::Imm(imm))) = (inst.src1, inst.src2) {
                    Self::emit_alu_imm(code, 7, Self::map_reg(src1), imm);
                }
                assert(code@ =~= start + x86_bytes(*inst));
            },
            IrOpcode::Return => Self::emit_fixed(code, &[0x48u8, 0x89, 0xf8, 0xc3]),
            IrOpcode::Syscall => Self::emit_fixed(code, &[0x0fu8, 0x05]),
            IrOpcode::MemoryBarrier => Self::emit_fixed(code, &[0x0fu8, 0xae, 0xf0]),
            IrOpcode::VecAdd => Self::emit_fixed(code, &[0x66u8, 0x0f, 0xfe, 0xc1]),
            IrOpcode::VecSub => Self::emit_fixed(code, &[0x66u8, 0x0f, 0xfa, 0xc1]),
            _ => Self::emit_fixed(code, &[0x90u8]),
        }
    }
}

/// The name of a condition code.
pub open spec fn condition_name(c: ConditionCode) -> Seq<char> {
    match c {
        ConditionCode::EQ => "EQ"@,
        ConditionCode::NE => "NE"@,
        ConditionCode::CS => "CS"@,
        ConditionCode::CC => "CC"@,
        ConditionCode::MI => "MI"@,
        ConditionCode::PL => "PL"@,
        ConditionCode::VS => "VS"@,
        ConditionCode::VC => "VC"@,
        ConditionCode::HI => "HI"@,
        ConditionCode::LS => "LS"@,
        ConditionCode::GE => "GE"@,
        ConditionCode::LT => "LT"@,
        ConditionCode::GT => "GT"@,
        ConditionCode::LE => "LE"@,
        ConditionCode::AL => "AL"@,
        ConditionCode::NV => "NV"@,
    }
}

/// The name of an opcode, with its condition for a conditional branch: `CondBranch(EQ)`.
pub open spec fn opcode_name(op: IrOpcode) -> Seq<char> {
    match op {
        IrOpcode::CondBranch(c) => "CondBranch("@ + condition_name(c) + ")"@,
        IrOpcode::Nop => "Nop"@,
        IrOpcode::Mov => "Mov"@,
        IrOpcode::Add => "Add"@,
        IrOpcode::Sub => "Sub"@,
        IrOpcode::Mul => "Mul"@,
        IrOpcode::Sdiv => "Sdiv"@,
        IrOpcode::Udiv => "Udiv"@,
        IrOpcode::And => "And"@,
        IrOpcode::Orr => "Orr"@,
        IrOpcode::Eor => "Eor"@,
        IrOpcode::Shl => "Shl"@,
        IrOpcode::Shr => "Shr"@,
        IrOpcode::Sar => "Sar"@,
        IrOpcode::Cmp => "Cmp"@,
        IrOpcode::Load64 => "Load64"@,
        IrOpcode::Load32 => "Load32"@,
        IrOpcode::Store64 => "Store64"@,
        IrOpcode::Store32 => "Store32"@,
        IrOpcode::Branch => "Branch"@,
        IrOpcode::Call => "Call"@,
        IrOpcode::Return => "Return"@,
        IrOpcode::Syscall => "Syscall"@,
        IrOpcode::MemoryBarrier => "MemoryBarrier"@,
        IrOpcode::VecAdd => "VecAdd"@,
        IrOpcode::VecSub => "VecSub"@,
        IrOpcode::VecMul => "VecMul"@,
    }
}

/// Whether context mode has code for an opcode (CMP aside, which it sends to Tier-0).
pub open spec fn context_opcode(op: IrOpcode) -> bool {
    match op {
        IrOpcode::Nop | IrOpcode::Mov | IrOpcode::Add | IrOpcode::Sub | IrOpcode::And | IrOpcode::Orr
        | IrOpcode::Eor | IrOpcode::Cmp | IrOpcode::MemoryBarrier | IrOpcode::Return => true,
        _ => false,
    }
}

fn condition_text(c: ConditionCode) -> (r: String)
    ensures
        r@ == condition_name(c),
{
    match c {
        ConditionCode::EQ => "EQ".to_string(),
        ConditionCode::NE => "NE".to_string(),
        ConditionCode::CS => "CS".to_string(),
        ConditionCode::CC => "CC".to_string(),
        ConditionCode::MI => "MI".to_string(),
        ConditionCode::PL => "PL".to_string(),
        ConditionCode::VS => "VS".to_string(),
        ConditionCode::VC => "VC".to_string(),
        ConditionCode::HI => "HI".to_string(),
        ConditionCode::LS => "LS".to_string(),
        ConditionCode::GE => "GE".to_string(),
        ConditionCode::LT => "LT".to_string(),
        ConditionCode::GT => "GT".to_string(),
        ConditionCode::LE => "LE".to_string(),
        ConditionCode::AL => "AL".to_string(),
        ConditionCode::NV => "NV".to_string(),
    }
}

/// The name of an opcode.
pub fn opcode_text(op: IrOpcode) -> (r: String)
    ensures
        r@ == opcode_name(op),
{
    match op {
        IrOpcode::CondBranch(c) => {
            let inner = concat("CondBranch(", condition_text(c).as_str());
            concat(inner.as_str(), ")")
        },
        IrOpcode::Nop => "Nop".to_string(),
        IrOpcode::Mov => "Mov".to_string(),
        IrOpcode::Add => "Add".to_string(),
        IrOpcode::Sub => "Sub".to_string(),
        IrOpcode::Mul => "Mul".to_string(),
        IrOpcode::Sdiv => "Sdiv".to_string(),
        IrOpcode::Udiv => "Udiv".to_string(),
        IrOpcode::And => "And".to_string(),
        IrOpcode::Orr => "Orr".to_string(),
        IrOpcode::Eor => "Eor".to_string(),
        IrOpcode::Shl => "Shl".to_string(),
        IrOpcode::Shr => "Shr".to_string(),
        IrOpcode::Sar => "Sar".to_string(),
        IrOpcode::Cmp => "Cmp".to_string(),
        IrOpcode::Load64 => "Load64".to_string(),
        IrOpcode::Load32 => "Load32".to_string(),
        IrOpcode::Store64 => "Store64".to_string(),
        IrOpcode::Store32 => "Store32".to_string(),
        IrOpcode::Branch => "Branch".to_string(),
        IrOpcode::Call => "Call".to_string(),
        IrOpcode::Return => "Return".to_string(),
        IrOpcode::Syscall => "Syscall".to_string(),
        IrOpcode::MemoryBarrier => "MemoryBarrier".to_string(),
        IrOpcode::VecAdd => "VecAdd".to_string(),
        IrOpcode::VecSub => "VecSub".to_string(),
        IrOpcode::VecMul => "VecMul".to_string(),
    }
}

/// The message of the error for an opcode that context mode does not compile.
fn describe_unsupported_opcode(opcode: IrOpcode) -> (r: String)
    ensures
        r@ == "unsupported context IR opcode: "@ + opcode_name(opcode),
{
    concat("unsupported context IR opcode: ", opcode_text(opcode).as_str())
}

proof fn lemma_piece_len(inst: IrInstruction)
    ensures
        piece(inst).len() <= 16,
{
}

proof fn lemma_block_code_len(insts: Seq<IrInstruction>, k: int)
    requires
        0 <= k <= insts.len(),
    ensures
        block_code(insts, k).len() == host_offset(insts, k),
    decreases k,
{
    if k > 0 {
        lemma_block_code_len(insts, k - 1);
        let i = insts[k - 1];
        if is_block_branch(i) {
            match branch_displacement(insts, k - 1) {
                Some(d) => {
                    assert(bytes32(if d >= 0 { d } else { d + 0x1_0000_0000 }).len() == 4);
                },
                None => {},
            }
        }
    }
}

proof fn lemma_host_offset_bound(insts: Seq<IrInstruction>, k: int)
    requires
        0 <= k <= insts.len(),
    ensures
        0 <= host_offset(insts, k) <= 16 * k,
    decreases k,
{
    if k > 0 {
        lemma_host_offset_bound(insts, k - 1);
        lemma_piece_len(insts[k - 1]);
    }
}

impl X86Backend {
    /// Appends what the block compiler emits for `inst` before branches are resolved.
    fn emit_piece(code: &mut Vec<u8>, inst: &IrInstruction)
        ensures
            final(code)@ == old(code)@ + piece(*inst),
    {
        let ghost start = code@;
        match (inst.opcode, inst.src1) {
            (IrOpcode::Branch, IrOperand::Imm(_)) => {
                Self::emit_fixed(code, &[0xe9u8, 0, 0, 0, 0]);
            },
            (IrOpcode::CondBranch(cond), IrOperand::Imm(_)) => {
                if cond == ConditionCode::AL {
                    Self::emit_fixed(code, &[0xe9u8, 0, 0, 0, 0]);
                } else if cond == ConditionCode::NV {
                } else {
                    let j = Self::condition_opcode(cond);
                    Self::emit_fixed(code, &[0x0fu8, j, 0, 0, 0, 0]);
                }
            },
            _ => Self::emit_instruction(code, inst),
        }
        assert(code@ =~= start + piece(*inst));
    }

    /// The length of `piece(inst)`.
    fn piece_len(inst: &IrInstruction) -> (r: usize)
        ensures
            r == piece(*inst).len(),
    {
        let mut scratch: Vec<u8> = Vec::new();
        Self::emit_piece(&mut scratch, inst);
        scratch.len()
    }

    /// Appends the prefix of a block branch.
    fn emit_branch_prefix(code: &mut Vec<u8>, inst: &IrInstruction)
        requires
            is_block_branch(*inst),
        ensures
            final(code)@ == old(code)@ + branch_prefix(*inst),
    {
        let ghost start = code@;
        if let IrOpcode::CondBranch(cond) = inst.opcode {
            if cond == ConditionCode::AL {
                code.push(0xe9);
            } else {
                let j = Self::condition_opcode(cond);
                code.push(0x0f);
                code.push(j);
            }
        } else {
            code.push(0xe9);
        }
        assert(code@ =~= start + branch_prefix(*inst));
    }

    /// Compiles a block to straight-line x86-64 code, resolving branches between its
    /// instructions into rel32 jumps.
    pub fn compile_block(block: &IrBlock) -> (r: Vec<u8>)
        requires
            block.instructions@.len() * 16 <= usize::MAX,
        ensures
            r@ == block_code(block.instructions@, block.instructions@.len() as int),
    {
        let insts = &block.instructions;
        let n = insts.len();
        let ghost s = insts@;
        let mut offsets: Vec<usize> = Vec::new();
        let mut total: usize = 0;
        let mut k: usize = 0;
        while k < n
            invariant
                0 <= k <= n,
                n == s.len(),
                s == insts@,
                n * 16 <= usize::MAX,
                offsets@.len() == k,
                total == host_offset(s, k as int),
                forall|j: int| 0 <= j < k ==> offsets@[j] == host_offset(s, j),
            decreases n - k,
        {
            proof {
                lemma_host_offset_bound(s, k as int);
                lemma_piece_len(s[k as int]);
            }
            offsets.push(total);
            let len = Self::piece_len(&insts[k]);
            total = total + len;
            k = k + 1;
        }
        offsets.push(total);
        let mut code: Vec<u8> = Vec::new();
        let mut k: usize = 0;
        while k < n
            invariant
                0 <= k <= n,
                n == s.len(),
                s == insts@,
                offsets@.len() == n + 1,
                forall|j: int| 0 <= j <= n ==> offsets@[j] == host_offset(s, j),
                code@ == block_code(s, k as int),
            decreases n - k,
        {
            let inst = &insts[k];
            let ghost before = code@;
            if let (true, IrOperand::Imm(g)) = (Self::is_branch(inst), inst.src1) {
                let gi = g as i128;
                let q: i128 = if gi >= 0 { gi / 4 } else { -((-gi) / 4) };
                let rem: i128 = if gi >= 0 { gi % 4 } else { (-gi) % 4 };
                let t: i128 = k as i128 + q;
                let prefix_len: usize = if let IrOpcode::CondBranch(c) = inst.opcode {
                    if c == ConditionCode::AL { 1 } else { 2 }
                } else {
                    1
                };
                let mut resolved = false;
                if rem == 0 && 0 <= t && t <= n as i128 {
                    let d: i128 = offsets[t as usize] as i128 - (offsets[k] as i128 + prefix_len as i128 + 4);
                    if -0x8000_0000 <= d && d <= 0x7fff_ffff {
                        Self::emit_branch_prefix(&mut code, inst);
                        let u: u32 = if d >= 0 { d as u32 } else { (d + 0x1_0000_0000) as u32 };
                        push_u32(&mut code, u);
                        resolved = true;
                    }
                }
                if !resolved {
                    Self::emit_piece(&mut code, inst);
                }
                proof {
                    assert(branch_prefix(*inst).len() == prefix_len);
                    assert(branch_offset(*inst) == g);
                    assert(final_piece(s, k as int) == code@.subrange(before.len() as int, code@.len() as int));
                }
            } else {
                Self::emit_piece(&mut code, inst);
            }
            proof {
                assert(code@ =~= before + final_piece(s, k as int));
            }
            k = k + 1;
        }
        code
    }

    fn is_branch(inst: &IrInstruction) -> (r: bool)
        ensures
            r == is_block_branch(*inst),
    {
        match (inst.opcode, inst.src1) {
            (IrOpcode::Branch, IrOperand::Imm(_)) => true,
            (IrOpcode::CondBranch(c), IrOperand::Imm(_)) => c != ConditionCode::NV,
            _ => false,
        }
    }
}

impl X86Backend {
    fn emit_context_load(code: &mut Vec<u8>, reg: u8, offset: i32)
        requires
            reg < 16,
        ensures
            final(code)@ == old(code)@ + ctx_load(reg, offset),
    {
        let ghost start = code@;
        code.push(0x49 + if reg >= 8 { 4u8 } else { 0u8 });
        code.push(0x8b);
        code.push(0x87 + (reg % 8) * 8);
        push_u32(code, offset as u32);
        assert(code@ =~= start + ctx_load(reg, offset));
    }

    fn emit_context_store(code: &mut Vec<u8>, reg: u8, offset: i32)
        requires
            reg < 16,
        ensures
            final(code)@ == old(code)@ + ctx_store(reg, offset),
    {
        let ghost start = code@;
        code.push(0x49 + if reg >= 8 { 4u8 } else { 0u8 });
        code.push(0x89);
        code.push(0x87 + (reg % 8) * 8);
        push_u32(code, offset as u32);
        assert(code@ =~= start + ctx_store(reg, offset));
    }

    fn emit_mov_imm_to(code: &mut Vec<u8>, value: i64, reg: u8)
        requires
            reg < 8,
        ensures
            final(code)@ == old(code)@ + mov_imm_to(value, reg),
    {
        let ghost start = code@;
        code.push(0x48);
        code.push(0xb8 + reg);
        push_u64(code, value as u64);
        assert(code@ =~= start + mov_imm_to(value, reg));
    }

    fn emit_mov_imm(code: &mut Vec<u8>, value: i64)
        ensures
            final(code)@ == old(code)@ + mov_imm_to(value, 0),
    {
        Self::emit_mov_imm_to(code, value, 0);
    }

    fn emit_reg_binary(code: &mut Vec<u8>, opcode: u8, dst: u8, src: u8)
        requires
            dst < 16,
            src < 16,
        ensures
            final(code)@ == old(code)@ + reg_binary(opcode, dst, src),
    {
        let ghost start = code@;
        code.push(0x48 + (if src >= 8 { 4u8 } else { 0u8 }) + (if dst >= 8 { 1u8 } else { 0u8 }));
        code.push(opcode);
        code.push(0xc0 + (src % 8) * 8 + dst % 8);
        assert(code@ =~= start + reg_binary(opcode, dst, src));
    }

    fn emit_context_pc_step(code: &mut Vec<u8>)
        ensures
            final(code)@ == old(code)@ + pc_step(),
    {
        let ghost start = code@;
        Self::emit_context_load(code, 0, REG_PC_OFFSET);
        Self::emit_mov_imm_to(code, 4, 1);
        Self::emit_reg_binary(code, 0x01, 0, 1);
        Self::emit_context_store(code, 0, REG_PC_OFFSET);
        assert(code@ =~= start + pc_step());
    }

    fn emit_context_epilogue(code: &mut Vec<u8>)
        ensures
            final(code)@ == old(code)@ + epilogue(),
    {
        Self::emit_fixed(code, &[0x41u8, 0x5f, 0x41, 0x5e, 0x41, 0x5d, 0x41, 0x5c, 0x5b, 0x5d, 0xc3]);
    }

    fn emit_context_load_reg(code: &mut Vec<u8>, operand: IrOperand, reg: u8) -> (r: Result<(), String>)
        requires
            reg < 16,
        ensures
            match ctx_load_operand(operand, reg) {
                Some(b) => r is Ok && final(code)@ == old(code)@ + b,
                None => r is Err,
            },
    {
        match operand {
            IrOperand::Reg(IrReg::X(index)) => {
                if index < 31 {
                    Self::emit_context_load(code, reg, index as i32 * 8);
                    Ok(())
                } else {
                    Err("unsupported context register operand".to_string())
                }
            },
            IrOperand::Reg(IrReg::SP) => {
                Self::emit_context_load(code, reg, REG_SP_OFFSET);
                Ok(())
            },
            _ => Err("unsupported context register operand".to_string()),
        }
    }

    fn context_dst(inst: &IrInstruction) -> (r: Option<u8>)
        ensures
            r == ctx_dst(*inst),
    {
        match inst.dst {
            Some(IrReg::X(reg)) => if reg < 31 { Some(reg) } else { None },
            _ => None,
        }
    }

    fn emit_context_mov(code: &mut Vec<u8>, inst: &IrInstruction) -> (r: Result<(), String>)
        requires
            inst.opcode == IrOpcode::Mov,
        ensures
            match ctx_piece(*inst) {
                Some(b) => r is Ok && final(code)@ == old(code)@ + b,
                None => r is Err,
            },
    {
        let ghost start = code@;
        let dst = match Self::context_dst(inst) {
            Some(d) => d,
            None => return Err("invalid context MOV destination".to_string()),
        };
        match inst.src1 {
            IrOperand::Imm(value) => {
                Self::emit_mov_imm(code, value);
                Self::emit_context_store(code, 0, dst as i32 * 8);
            },
            IrOperand::Reg(reg) => {
                match Self::emit_context_load_reg(code, IrOperand::Reg(reg), 0) {
                    Ok(()) => {},
                    Err(e) => return Err(e),
                }
                Self::emit_context_store(code, 0, dst as i32 * 8);
            },
            _ => return Err("invalid context MOV source".to_string()),
        }
        Self::emit_context_pc_step(code);
        assert(code@ =~= start + ctx_piece(*inst)->Some_0);
        Ok(())
    }

    fn emit_context_binary(code: &mut Vec<u8>, inst: &IrInstruction, opcode: u8) -> (r: Result<(), String>)
        ensures
            match ctx_binary(*inst, opcode) {
                Some(b) => r is Ok && final(code)@ == old(code)@ + b,
                None => r is Err,
            },
    {
        let ghost start = code@;
        let dst = match Self::context_dst(inst) {
            Some(d) => d,
            None => return Err("invalid context binary destination".to_string()),
        };
        match Self::emit_context_load_reg(code, inst.src1, 0) {
            Ok(()) => {},
            Err(e) => return Err(e),
        }
        match inst.src2 {
            Some(IrOperand::Reg(reg)) => {
                match Self::emit_context_load_reg(code, IrOperand::Reg(reg), 1) {
                    Ok(()) => {},
                    Err(e) => return Err(e),
                }
            },
            Some(IrOperand::Imm(value)) => Self::emit_mov_imm_to(code, value, 1),
            _ => return Err("invalid context binary operand".to_string()),
        }
        Self::emit_reg_binary(code, opcode, 0, 1);
        Self::emit_context_store(code, 0, dst as i32 * 8);
        Self::emit_context_pc_step(code);
        assert(code@ =~= start + ctx_binary(*inst, opcode)->Some_0);
        Ok(())
    }

    /// Appends the context-mode code of one instruction.
    fn emit_context_instruction(code: &mut Vec<u8>, inst: &IrInstruction) -> (r: Result<(), String>)
        ensures
            match ctx_piece(*inst) {
                Some(b) => r is Ok && final(code)@ == old(code)@ + b,
                None => r is Err,
            },
            inst.opcode is Cmp ==> (r matches Err(m) && m@ == "context CMP requires Tier-0 fallback"@),
            !context_opcode(inst.opcode) ==> (r matches Err(m) && m@ == "unsupported context IR opcode: "@ + opcode_name(inst.opcode)),
    {
        match inst.opcode {
            IrOpcode::Nop => {
                Self::emit_context_pc_step(code);
                Ok(())
            },
            IrOpcode::Mov => Self::emit_context_mov(code, inst),
            IrOpcode::Add => Self::emit_context_binary(code, inst, 0x01),
            IrOpcode::Sub => Self::emit_context_binary(code, inst, 0x29),
            IrOpcode::And => Self::emit_context_binary(code, inst, 0x21),
            IrOpcode::Orr => Self::emit_context_binary(code, inst, 0x09),
            IrOpcode::Eor => Self::emit_context_binary(code, inst, 0x31),
            IrOpcode::Cmp => Err("context CMP requires Tier-0 fallback".to_string()),
            IrOpcode::MemoryBarrier => {
                Self::emit_fixed(code, &[0x0fu8, 0xae, 0xf0]);
                Ok(())
            },
            IrOpcode::Return => {
                let ghost start = code@;
                Self::emit_context_load(code, 0, REG_PC_OFFSET);
                match Self::emit_context_load_reg(code, inst.src1, 1) {
                    Ok(()) => {},
                    Err(e) => return Err(e),
                }
                Self::emit_context_store(code, 1, REG_PC_OFFSET);
                Self::emit_context_epilogue(code);
                assert(code@ =~= start + ctx_piece(*inst)->Some_0);
                Ok(())
            },
            _ => Err(describe_unsupported_opcode(inst.opcode)),
        }
    }

    /// Compiles a block into a function that runs it on the guest context passed in its
    /// first argument; fails when an instruction needs the interpreter.
    pub fn compile_context_block(block: &IrBlock) -> (r: Result<Vec<u8>, String>)
        ensures
            match spec_context_block(block.instructions@) {
                Some(b) => r matches Ok(v) && v@ == b,
                None => r is Err,
            },
            forall|k: int| 0 <= k < block.instructions@.len() && ctx_code(block.instructions@, k) is Some
                && (#[trigger] block.instructions@[k]).opcode is Cmp
                ==> (r matches Err(m) && m@ == "context CMP requires Tier-0 fallback"@),
            forall|k: int| 0 <= k < block.instructions@.len() && ctx_code(block.instructions@, k) is Some
                && !context_opcode((#[trigger] block.instructions@[k]).opcode)
                ==> (r matches Err(m) && m@ == "unsupported context IR opcode: "@ + opcode_name(block.instructions@[k].opcode)),
    {
        let insts = &block.instructions;
        let n = insts.len();
        let ghost s = insts@;
        let mut code: Vec<u8> = Vec::new();
        Self::emit_fixed(&mut code, &[0x55u8, 0x53, 0x41, 0x54, 0x41, 0x55, 0x41, 0x56, 0x41, 0x57, 0x49, 0x89, 0xff]);
        let mut k: usize = 0;
        while k < n
            invariant
                0 <= k <= n,
                n == s.len(),
                s == insts@,
                s == block.instructions@,
                ctx_code(s, k as int) is Some,
                code@ == prologue() + ctx_code(s, k as int)->Some_0,
            decreases n - k,
        {
            let ghost before = code@;
            match Self::emit_context_instruction(&mut code, &insts[k]) {
                Ok(()) => {},
                Err(e) => {
                    proof {
                        assert(ctx_piece(s[k as int]) is None);
                        assert(ctx_code(s, k as int + 1) is None);
                        lemma_ctx_code_none(s, k as int + 1, n as int);
                        assert forall|j: int| 0 <= j < s.len() && ctx_code(s, j) is Some
                            && (s[j].opcode is Cmp || !context_opcode(s[j].opcode)) implies j == k by {
                            if j < k {
                                lemma_ctx_fails_after(s, j, k as int);
                            } else if j > k {
                                lemma_ctx_code_none_upto(s, k as int + 1, j);
                            }
                        }
                    }
                    return Err(e);
                },
            }
            proof {
                assert(code@ =~= prologue() + ctx_code(s, k + 1)->Some_0);
            }
            k = k + 1;
        }
        let ends_with_return = n > 0 && insts[n - 1].opcode == IrOpcode::Return;
        if !ends_with_return {
            let ghost before = code@;
            Self::emit_context_pc_step(&mut code);
            Self::emit_context_epilogue(&mut code);
            assert(code@ =~= before + (pc_step() + epilogue()));
        }
        proof {
            if n > 0 {
                assert(s.last() == s[n - 1]);
            }
            assert(code@ =~= spec_context_block(s)->Some_0);
            assert forall|j: int| 0 <= j < s.len() && ctx_code(s, j) is Some
                implies s[j].opcode !is Cmp && context_opcode(s[j].opcode) by {
                if s[j].opcode is Cmp || !context_opcode(s[j].opcode) {
                    lemma_ctx_fails_after(s, j, n as int);
                }
            }
        }
        Ok(code)
    }

    /// Compiles a block and places the code in a fresh executable region.
    pub fn emit_executable(block: &IrBlock) -> (r: Result<MemoryRegion, MemoryError>)
        requires
            block.instructions@.len() * 16 <= usize::MAX,
        ensures
            ({
                let code = block_code(block.instructions@, block.instructions@.len() as int);
                match spec_allocation(code.len() as int) {
                    Err(e) => r == Err::<MemoryRegion, MemoryError>(e),
                    Ok(len) => r matches Ok(region) && placed(region, code, len),
                }
            }),
    {
        let code_bytes = Self::compile_block(block);
        Self::place_code(code_bytes)
    }

    /// Compiles a block in context mode and places the code in a fresh executable region.
    pub fn emit_context_executable(block: &IrBlock) -> (r: Result<MemoryRegion, MemoryError>)
        ensures
            spec_context_block(block.instructions@) is None ==> r == Err::<MemoryRegion, MemoryError>(
                MemoryError::AllocationFailed { size: 0, errno: crate::memory::mmap::EINVAL },
            ),
            r matches Ok(region) ==> {
                &&& region.inv()
                &&& region.spec_prot().0 == 5
                &&& spec_context_block(block.instructions@) matches Some(b)
                &&& region.contents().subrange(0, b.len() as int) == b
            },
    {
        let code_bytes = match Self::compile_context_block(block) {
            Ok(c) => c,
            Err(_) => return Err(MemoryError::AllocationFailed { size: 0, errno: crate::memory::mmap::EINVAL }),
        };
        Self::place_code(code_bytes)
    }

    /// Copies code into a fresh region, then makes it read-only and executable.
    fn place_code(code_bytes: Vec<u8>) -> (r: Result<MemoryRegion, MemoryError>)
        ensures
            match spec_allocation(code_bytes@.len() as int) {
                Err(e) => r == Err::<MemoryRegion, MemoryError>(e),
                Ok(len) => r matches Ok(region) && placed(region, code_bytes@, len),
            },
    {
        let mut region = match MemoryRegion::allocate_16k(code_bytes.len(), ProtFlags::read_write()) {
            Ok(r) => r,
            Err(e) => return Err(e),
        };
        proof {
            crate::memory::page::lemma_round_16k(code_bytes@.len() as int);
            assert((3i32 & 2i32) != 0i32) by (bit_vector);
        }
        match region.write_at(0, code_bytes.as_slice()) {
            Ok(()) => {},
            Err(e) => return Err(e),
        }
        let _ = region.protect(ProtFlags::read_exec());
        proof {
            assert(region.contents().subrange(0, code_bytes@.len() as int) =~= code_bytes@);
            assert(region.contents() =~= code_bytes@ + Seq::new((region.spec_len() - code_bytes@.len()) as nat, |i: int| 0u8));
        }
        Ok(region)
    }
}

proof fn lemma_ctx_code_none_upto(s: Seq<IrInstruction>, k: int, m: int)
    requires
        0 < k <= m <= s.len(),
        ctx_code(s, k) is None,
    ensures
        ctx_code(s, m) is None,
    decreases m - k,
{
    if k < m {
        lemma_ctx_code_none_upto(s, k + 1, m);
    }
}

/// Once an instruction has no context code, no longer prefix has any.
proof fn lemma_ctx_fails_after(s: Seq<IrInstruction>, i: int, m: int)
    requires
        0 <= i < m <= s.len(),
        ctx_code(s, i) is Some,
        ctx_piece(s[i]) is None,
    ensures
        ctx_code(s, m) is None,
{
    assert(ctx_code(s, i + 1) is None);
    lemma_ctx_code_none_upto(s, i + 1, m);
}

proof fn lemma_ctx_code_none(s: Seq<IrInstruction>, k: int, n: int)
    requires
        0 < k <= n,
        n == s.len(),
        ctx_code(s, k) is None,
    ensures
        ctx_code(s, n) is None,
    decreases n - k,
{
    if k < n {
        lemma_ctx_code_none(s, k + 1, n);
    }
}

/// Whether an x86 conditional jump with condition nibble `cc & 0xf` is taken after
/// `cmp a, b` on 64-bit operands, as the architecture defines the sixteen conditions
/// (O, NO, B, AE, E, NE, BE, A, S, NS, P, NP, L, GE, LE, G); the parity conditions, which no
/// ARM condition maps to, are taken as never.
pub open spec fn x86_jump_after_compare(cc: u8, a: u64, b: u64) -> bool {
    let d = signed64(a) - signed64(b);
    let overflow = d < i64::MIN || d > i64::MAX;
    let sign = signed64(wrap64(a - b)) < 0;
    let n = cc % 16;
    if n == 0 { overflow }
    else if n == 1 { !overflow }
    else if n == 2 { a < b }
    else if n == 3 { a >= b }
    else if n == 4 { a == b }
    else if n == 5 { a != b }
    else if n == 6 { a <= b }
    else if n == 7 { a > b }
    else if n == 8 { sign }
    else if n == 9 { !sign }
    else if n == 12 { signed64(a) < signed64(b) }
    else if n == 13 { signed64(a) >= signed64(b) }
    else if n == 14 { signed64(a) <= signed64(b) }
    else if n == 15 { signed64(a) > signed64(b) }
    else { false }
}

/// The conditional jump a block branch compiles to is a two-byte `0f 8x` jump whose x86
/// condition, after the same comparison, is taken exactly when the ARM condition holds after
/// CMP (or SUBS) of those operands.
pub proof fn lemma_jcc_matches_arm_condition(v: CpuView, mem: Seq<u8>, base: int, i: Arm64Inst, c: ConditionCode)
    requires
        i.op == Arm64Op::Cmp || i.op == Arm64Op::Subs,
        c != ConditionCode::AL,
        c != ConditionCode::NV,
    ensures
        0x80 <= jcc(c) <= 0x8f,
        x86_jump_after_compare(jcc(c), v.regs[i.rn as int], plain_operand(v, i))
            == condition_holds(spec_step(v, mem, base, i).0.pstate, c),
{
    lemma_conditions_after_compare(v, mem, base, i);
}

/// A register-to-register instruction names both registers recoverably: the REX prefix's R
/// and B bits are the high bits of the source and destination numbers, and the register-
/// direct ModRM byte (top bits 11) carries their low three bits.
pub proof fn lemma_rr_encodes_registers(op: u8, dst: X86Reg, src: X86Reg)
    ensures
        rr(op, dst, src).len() == 3,
        rr(op, dst, src)[1] == op,
        rr(op, dst, src)[0] as int / 8 == 9,
        reg_num(src) as int == (rr(op, dst, src)[0] as int / 4 % 2) * 8 + (rr(op, dst, src)[2] as int / 8 % 8),
        reg_num(dst) as int == (rr(op, dst, src)[0] as int % 2) * 8 + (rr(op, dst, src)[2] as int % 8),
        rr(op, dst, src)[2] as int / 64 == 3,
{
}

/// Guest registers X0 to X8, X29 and X30 live in distinct host registers, none of them the
/// host stack pointer.
pub proof fn lemma_guest_registers_distinct(a: u8, b: u8)
    requires
        a <= 8 || a == 29 || a == 30,
        b <= 8 || b == 29 || b == 30,
    ensures
        a != b ==> x86_map(IrReg::X(a)) != x86_map(IrReg::X(b)),
        x86_map(IrReg::X(a)) != X86Reg::Rsp,
{
}

} // verus!
