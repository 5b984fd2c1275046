//! Architecture-neutral intermediate representation of guest code.

use vstd::prelude::*;
use crate::jit::decoder::{Arm64Inst, Arm64Op, ConditionCode};

verus! {

/// A decoded instruction the translator does not handle.
#[derive(Debug, Clone, Copy, PartialEq, Eq, Structural)]
pub struct UnsupportedInstruction {
    pub raw: u32,
}

/// A register of the IR.
#[derive(Debug, Clone, Copy, PartialEq, Eq, Hash, Structural)]
pub enum IrReg {
    /// Guest general purpose register x0..x30.
    X(u8),
    /// Guest vector register v0..v31.
    V(u8),
    /// A temporary.
    Temp(u32),
    SP,
    PC,
}

/// An operand: register, immediate or memory at a base register plus offset.
#[derive(Debug, Clone, Copy, PartialEq, Eq, Structural)]
pub enum IrOperand {
    Reg(IrReg),
    Imm(i64),
    Memory { base: IrReg, offset: i64 },
}

#[derive(Debug, Clone, Copy, PartialEq, Eq, Structural)]
pub enum IrOpcode {
    Nop,
    Mov,
    Add,
    Sub,
    Mul,
    Sdiv,
    Udiv,
    And,
    Orr,
    Eor,
    Shl,
    Shr,
    Sar,
    Cmp,
    Load64,
    Load32,
    Store64,
    Store32,
    Branch,
    CondBranch(ConditionCode),
    Call,
    Return,
    Syscall,
    MemoryBarrier,
    VecAdd,
    VecSub,
    VecMul,
}

/// One IR instruction: an opcode, an optional destination and up to two sources.
#[derive(Debug, Clone, Copy, PartialEq, Eq, Structural)]
pub struct IrInstruction {
    pub opcode: IrOpcode,
    pub dst: Option<IrReg>,
    pub src1: IrOperand,
    pub src2: Option<IrOperand>,
}

impl IrInstruction {
    pub fn new(opcode: IrOpcode, dst: Option<IrReg>, src1: IrOperand, src2: Option<IrOperand>) -> (r: IrInstruction)
        ensures
            r == (IrInstruction { opcode, dst, src1, src2 }),
    {
        IrInstruction { opcode, dst, src1, src2 }
    }
}

/// A straight-line block of IR starting at a guest address.
#[derive(Debug, Clone)]
pub struct IrBlock {
    pub start_address: u64,
    pub instructions: Vec<IrInstruction>,
}

/// The second operand of an arithmetic instruction: register `rm` when nonzero, else the
/// immediate.
pub open spec fn arith_src2(i: Arm64Inst) -> IrOperand {
    if i.rm != 0 { IrOperand::Reg(IrReg::X(i.rm)) } else { IrOperand::Imm(i.imm) }
}

pub open spec fn ir(opcode: IrOpcode, dst: Option<IrReg>, src1: IrOperand, src2: Option<IrOperand>) -> IrInstruction {
    IrInstruction { opcode, dst, src1, src2 }
}

/// The IR one decoded instruction becomes.
pub open spec fn spec_translate(i: Arm64Inst) -> IrInstruction {
    match i.op {
        Arm64Op::Nop => ir(IrOpcode::Nop, None, IrOperand::Imm(0), None),
        Arm64Op::Add => ir(IrOpcode::Add, Some(IrReg::X(i.rd)), IrOperand::Reg(IrReg::X(i.rn)), Some(arith_src2(i))),
        Arm64Op::Sub => ir(IrOpcode::Sub, Some(IrReg::X(i.rd)), IrOperand::Reg(IrReg::X(i.rn)), Some(arith_src2(i))),
        Arm64Op::Cmp => ir(IrOpcode::Cmp, None, IrOperand::Reg(IrReg::X(i.rn)), Some(arith_src2(i))),
        Arm64Op::Mov | Arm64Op::Movz => ir(IrOpcode::Mov, Some(IrReg::X(i.rd)), IrOperand::Imm(i.imm << i.shift), None),
        Arm64Op::Ldr => ir(
            if i.is_64bit { IrOpcode::Load64 } else { IrOpcode::Load32 },
            Some(IrReg::X(i.rd)),
            IrOperand::Memory { base: IrReg::X(i.rn), offset: i.imm },
            None,
        ),
        Arm64Op::Str => ir(
            if i.is_64bit { IrOpcode::Store64 } else { IrOpcode::Store32 },
            None,
            IrOperand::Reg(IrReg::X(i.rd)),
            Some(IrOperand::Memory { base: IrReg::X(i.rn), offset: i.imm }),
        ),
        Arm64Op::B => ir(IrOpcode::Branch, None, IrOperand::Imm(i.imm), None),
        Arm64Op::Bcc(c) => ir(IrOpcode::CondBranch(c), None, IrOperand::Imm(i.imm), None),
        Arm64Op::Ret => ir(IrOpcode::Return, None, IrOperand::Reg(IrReg::X(i.rn)), None),
        Arm64Op::Svc => ir(IrOpcode::Syscall, None, IrOperand::Imm(i.imm), None),
        Arm64Op::Dmb | Arm64Op::Dsb => ir(IrOpcode::MemoryBarrier, None, IrOperand::Imm(i.imm), None),
        Arm64Op::Vadd => ir(IrOpcode::VecAdd, Some(IrReg::V(i.rd)), IrOperand::Reg(IrReg::V(i.rn)),
            Some(IrOperand::Reg(IrReg::V(i.rm)))),
        Arm64Op::Vsub => ir(IrOpcode::VecSub, Some(IrReg::V(i.rd)), IrOperand::Reg(IrReg::V(i.rn)),
            Some(IrOperand::Reg(IrReg::V(i.rm)))),
        _ => ir(IrOpcode::Nop, None, IrOperand::Imm(i.raw as i64), None),
    }
}

/// Translation shifts the immediate of a move only by less than the register width.
pub open spec fn translatable(i: Arm64Inst) -> bool {
    (i.op == Arm64Op::Mov || i.op == Arm64Op::Movz) ==> i.shift < 64
}

impl IrBlock {
    pub fn new(start_address: u64) -> (r: IrBlock)
        ensures
            r.start_address == start_address,
            r.instructions@ == Seq::<IrInstruction>::empty(),
    {
        IrBlock { start_address, instructions: Vec::new() }
    }

    pub fn push(&mut self, inst: IrInstruction)
        ensures
            final(self).start_address == old(self).start_address,
            final(self).instructions@ == old(self).instructions@.push(inst),
    {
        self.instructions.push(inst);
    }

    /// Appends the IR of one decoded instruction.
    pub fn translate_arm64_inst(&mut self, inst: &Arm64Inst)
        requires
            translatable(*inst),
        ensures
            final(self).start_address == old(self).start_address,
            final(self).instructions@ == old(self).instructions@.push(spec_translate(*inst)),
    {
        let src2 = if inst.rm != 0 { IrOperand::Reg(IrReg::X(inst.rm)) } else { IrOperand::Imm(inst.imm) };
        let t = match inst.op {
            Arm64Op::Nop => IrInstruction::new(IrOpcode::Nop, None, IrOperand::Imm(0), None),
            Arm64Op::Add => IrInstruction::new(IrOpcode::Add, Some(IrReg::X(inst.rd)),
                IrOperand::Reg(IrReg::X(inst.rn)), Some(src2)),
            Arm64Op::Sub => IrInstruction::new(IrOpcode::Sub, Some(IrReg::X(inst.rd)),
                IrOperand::Reg(IrReg::X(inst.rn)), Some(src2)),
            Arm64Op::Cmp => IrInstruction::new(IrOpcode::Cmp, None, IrOperand::Reg(IrReg::X(inst.rn)), Some(src2)),
            Arm64Op::Mov | Arm64Op::Movz => IrInstruction::new(IrOpcode::Mov, Some(IrReg::X(inst.rd)),
                IrOperand::Imm(inst.imm << inst.shift), None),
            Arm64Op::Ldr => IrInstruction::new(
                if inst.is_64bit { IrOpcode::Load64 } else { IrOpcode::Load32 },
                Some(IrReg::X(inst.rd)),
                IrOperand::Memory { base: IrReg::X(inst.rn), offset: inst.imm },
                None,
            ),
            Arm64Op::Str => IrInstruction::new(
                if inst.is_64bit { IrOpcode::Store64 } else { IrOpcode::Store32 },
                None,
                IrOperand::Reg(IrReg::X(inst.rd)),
                Some(IrOperand::Memory { base: IrReg::X(inst.rn), offset: inst.imm }),
            ),
            Arm64Op::B => IrInstruction::new(IrOpcode::Branch, None, IrOperand::Imm(inst.imm), None),
            Arm64Op::Bcc(cond) => IrInstruction::new(IrOpcode::CondBranch(cond), None, IrOperand::Imm(inst.imm), None),
            Arm64Op::Ret => IrInstruction::new(IrOpcode::Return, None, IrOperand::Reg(IrReg::X(inst.rn)), None),
            Arm64Op::Svc => IrInstruction::new(IrOpcode::Syscall, None, IrOperand::Imm(inst.imm), None),
            Arm64Op::Dmb | Arm64Op::Dsb => IrInstruction::new(IrOpcode::MemoryBarrier, None,
                IrOperand::Imm(inst.imm), None),
            Arm64Op::Vadd => IrInstruction::new(IrOpcode::VecAdd, Some(IrReg::V(inst.rd)),
                IrOperand::Reg(IrReg::V(inst.rn)), Some(IrOperand::Reg(IrReg::V(inst.rm)))),
            Arm64Op::Vsub => IrInstruction::new(IrOpcode::VecSub, Some(IrReg::V(inst.rd)),
                IrOperand::Reg(IrReg::V(inst.rn)), Some(IrOperand::Reg(IrReg::V(inst.rm)))),
            _ => IrInstruction::new(IrOpcode::Nop, None, IrOperand::Imm(inst.raw as i64), None),
        };
        self.push(t);
    }

    /// Appends the IR of `inst`, refusing undecoded instructions.
    pub fn translate_arm64_inst_checked(&mut self, inst: &Arm64Inst) -> (r: Result<(), UnsupportedInstruction>)
        requires
            translatable(*inst),
        ensures
            inst.op is Unknown ==> r == Err::<(), UnsupportedInstruction>(UnsupportedInstruction { raw: inst.raw })
                && *final(self) == *old(self),
            !(inst.op is Unknown) ==> r is Ok && final(self).start_address == old(self).start_address
                && final(self).instructions@ == old(self).instructions@.push(spec_translate(*inst)),
    {
        if let Arm64Op::Unknown(_) = inst.op {
            return Err(UnsupportedInstruction { raw: inst.raw });
        }
        self.translate_arm64_inst(inst);
        Ok(())
    }
}

} // verus!
