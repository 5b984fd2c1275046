//! The tier-0 interpreter: executes decoded AArch64 instructions on a CPU context and a
//! guest memory region.

use vstd::prelude::*;
use crate::arch::context::{Arm64CpuContext, CpuView, bit, with_flags};
use crate::jit::decoder::{Arm64Decoder, Arm64Inst, Arm64Op, ConditionCode, spec_decode};
use crate::memory::mmap::MemoryRegion;
use crate::wire::{le64, bytes64};

verus! {

pub open spec fn wrap64(x: int) -> u64 {
    (x % 0x1_0000_0000_0000_0000) as u64
}

pub open spec fn wrap32(x: int) -> u64 {
    (x % 0x1_0000_0000) as u64
}

/// The sum or difference of `a` and `b`, wrapped to 64 bits, or to 32 bits for a 32-bit
/// operation.
pub open spec fn arith_value(a: u64, b: u64, is_add: bool, is_64bit: bool) -> u64 {
    if is_64bit {
        if is_add { wrap64(a + b) } else { wrap64(a - b) }
    } else {
        if is_add { wrap32(a as u32 + b as u32) } else { wrap32(a as u32 - b as u32) }
    }
}

/// Whether `cond` holds for the flags in `pstate`.
pub open spec fn condition_holds(pstate: u64, cond: ConditionCode) -> bool {
    let n = bit(pstate, 31);
    let z = bit(pstate, 30);
    let c = bit(pstate, 29);
    let v = bit(pstate, 28);
    match cond {
        ConditionCode::EQ => z,
        ConditionCode::NE => !z,
        ConditionCode::CS => c,
        ConditionCode::CC => !c,
        ConditionCode::MI => n,
        ConditionCode::PL => !n,
        ConditionCode::VS => v,
        ConditionCode::VC => !v,
        ConditionCode::HI => c && !z,
        ConditionCode::LS => !c || z,
        ConditionCode::GE => n == v,
        ConditionCode::LT => n != v,
        ConditionCode::GT => !z && n == v,
        ConditionCode::LE => z || n != v,
        ConditionCode::AL => true,
        ConditionCode::NV => false,
    }
}

/// The shifted register or immediate second operand of ADD and SUB.
pub open spec fn shifted_operand(v: CpuView, i: Arm64Inst) -> u64 {
    if i.rm != 0 { v.regs[i.rm as int] << i.shift } else { i.imm as u64 }
}

/// The unshifted register or immediate second operand of ADDS, SUBS and CMP.
pub open spec fn plain_operand(v: CpuView, i: Arm64Inst) -> u64 {
    if i.rm != 0 { v.regs[i.rm as int] } else { i.imm as u64 }
}

/// The guest address a load or store names.
pub open spec fn access_address(v: CpuView, i: Arm64Inst) -> usize {
    ((v.regs[i.rn as int] as i64) + i.imm) as i64 as usize
}

/// Where 8 bytes at guest address `addr` sit inside memory based at `base`, if they do.
pub open spec fn in_memory(addr: int, base: int, len: int) -> bool {
    addr != 0 && base <= addr && addr + 8 <= base + len
}

/// The target of a PC-relative branch.
pub open spec fn branch_target(pc: u64, imm: i64) -> u64 {
    ((pc as i64) + imm) as i64 as u64
}

/// Whether executing `i` stays within the registers and the integer ranges the interpreter
/// computes in.
pub open spec fn step_ok(v: CpuView, i: Arm64Inst) -> bool {
    match i.op {
        Arm64Op::Nop => true,
        Arm64Op::Add | Arm64Op::Sub => i.rn < 31 && i.rd < 31 && (i.rm != 0 ==> i.rm < 31 && i.shift < 64),
        Arm64Op::Adds | Arm64Op::Subs => i.rn < 31 && i.rd < 31 && (i.rm != 0 ==> i.rm < 31),
        Arm64Op::Cmp => i.rn < 31 && (i.rm != 0 ==> i.rm < 31),
        Arm64Op::Mov | Arm64Op::Movz | Arm64Op::Movk => i.rd < 31 && i.shift < 64,
        Arm64Op::And | Arm64Op::Orr | Arm64Op::Eor => i.rn < 31 && i.rm < 31 && i.rd < 31,
        Arm64Op::Ldr | Arm64Op::Str => i.rn < 31 && i.rd < 31
            && i64::MIN <= (v.regs[i.rn as int] as i64) + i.imm <= i64::MAX,
        Arm64Op::B => i64::MIN <= (v.pc as i64) + i.imm <= i64::MAX,
        Arm64Op::Bcc(c) => if condition_holds(v.pstate, c) {
            i64::MIN <= (v.pc as i64) + i.imm <= i64::MAX
        } else {
            v.pc + 4 <= u64::MAX
        },
        Arm64Op::Cbz | Arm64Op::Cbnz => i.rd < 31 && if (v.regs[i.rd as int] == 0) == (i.op == Arm64Op::Cbz) {
            i64::MIN <= (v.pc as i64) + i.imm <= i64::MAX
        } else {
            v.pc + 4 <= u64::MAX
        },
        Arm64Op::Ret => i.rn < 31,
        _ => v.pc + 4 <= u64::MAX,
    }
}

pub open spec fn set_reg(v: CpuView, r: u8, x: u64) -> CpuView {
    CpuView { regs: v.regs.update(r as int, x), ..v }
}

pub open spec fn set_pc(v: CpuView, pc: u64) -> CpuView {
    CpuView { pc, ..v }
}

/// The effect of one instruction on the registers and on memory based at `base`, and whether
/// execution continues with the next instruction.
pub open spec fn spec_step(v: CpuView, mem: Seq<u8>, base: int, i: Arm64Inst) -> (CpuView, Seq<u8>, bool) {
    match i.op {
        Arm64Op::Nop => (v, mem, true),
        Arm64Op::Add => (set_reg(v, i.rd, arith_value(v.regs[i.rn as int], shifted_operand(v, i), true, i.is_64bit)),
            mem, true),
        Arm64Op::Sub => (set_reg(v, i.rd, arith_value(v.regs[i.rn as int], shifted_operand(v, i), false, i.is_64bit)),
            mem, true),
        Arm64Op::Adds => {
            let a = v.regs[i.rn as int];
            let b = plain_operand(v, i);
            let r = wrap64(a + b);
            let p = with_flags(v.pstate, r >= 0x8000_0000_0000_0000, r == 0, r < a,
                ((a ^ r) & (b ^ r) & 0x8000_0000_0000_0000u64) != 0);
            (set_reg(CpuView { pstate: p, ..v }, i.rd, r), mem, true)
        },
        Arm64Op::Subs | Arm64Op::Cmp => {
            let a = v.regs[i.rn as int];
            let b = plain_operand(v, i);
            let r = wrap64(a - b);
            let p = with_flags(v.pstate, r >= 0x8000_0000_0000_0000, r == 0, a >= b,
                ((a ^ b) & (a ^ r) & 0x8000_0000_0000_0000u64) != 0);
            let f = CpuView { pstate: p, ..v };
            (if i.op == Arm64Op::Cmp { f } else { set_reg(f, i.rd, r) }, mem, true)
        },
        Arm64Op::Mov | Arm64Op::Movz => (set_reg(v, i.rd, (i.imm as u64) << i.shift), mem, true),
        Arm64Op::Movk => (set_reg(v, i.rd, (v.regs[i.rd as int] & !(0xffffu64 << i.shift)) | ((i.imm as u64) << i.shift)),
            mem, true),
        Arm64Op::And => (set_reg(v, i.rd, v.regs[i.rn as int] & v.regs[i.rm as int]), mem, true),
        Arm64Op::Orr => (set_reg(v, i.rd, v.regs[i.rn as int] | v.regs[i.rm as int]), mem, true),
        Arm64Op::Eor => (set_reg(v, i.rd, v.regs[i.rn as int] ^ v.regs[i.rm as int]), mem, true),
        Arm64Op::Ldr => {
            let addr = access_address(v, i) as int;
            if in_memory(addr, base, mem.len() as int) {
                (set_reg(v, i.rd, le64(mem, addr - base) as u64), mem, true)
            } else {
                (v, mem, true)
            }
        },
        Arm64Op::Str => {
            let addr = access_address(v, i) as int;
            if in_memory(addr, base, mem.len() as int) {
                let off = addr - base;
                (v, mem.subrange(0, off) + bytes64(v.regs[i.rd as int] as int) + mem.subrange(off + 8, mem.len() as int), true)
            } else {
                (v, mem, true)
            }
        },
        Arm64Op::B => (set_pc(v, branch_target(v.pc, i.imm)), mem, false),
        Arm64Op::Bcc(c) => (set_pc(v, if condition_holds(v.pstate, c) { branch_target(v.pc, i.imm) } else {
            (v.pc + 4) as u64 }), mem, false),
        Arm64Op::Cbz => (set_pc(v, if v.regs[i.rd as int] == 0 { branch_target(v.pc, i.imm) } else {
            (v.pc + 4) as u64 }), mem, false),
        Arm64Op::Cbnz => (set_pc(v, if v.regs[i.rd as int] != 0 { branch_target(v.pc, i.imm) } else {
            (v.pc + 4) as u64 }), mem, false),
        Arm64Op::Ret => (set_pc(v, v.regs[i.rn as int]), mem, false),
        _ => (set_pc(v, (v.pc + 4) as u64), mem, true),
    }
}

/// The result of running instructions `k..` of `ops`, stopping after `max` steps, at the
/// first branch, or at the end: final registers, memory and the number of steps taken.
pub open spec fn spec_run(v: CpuView, mem: Seq<u8>, base: int, ops: Seq<u32>, max: int, k: int) -> (CpuView, Seq<u8>, int)
    decreases ops.len() - k,
{
    if k >= ops.len() || k >= max || k < 0 {
        (v, mem, k)
    } else {
        let (v2, m2, cont) = spec_step(v, mem, base, spec_decode(ops[k]));
        if !cont {
            (v2, m2, k + 1)
        } else {
            spec_run(set_pc(v2, (v2.pc + 4) as u64), m2, base, ops, max, k + 1)
        }
    }
}

/// Whether every step of that run stays in range, including the PC advance after each
/// sequential instruction.
pub open spec fn run_ok(v: CpuView, mem: Seq<u8>, base: int, ops: Seq<u32>, max: int, k: int) -> bool
    decreases ops.len() - k,
{
    if k >= ops.len() || k >= max || k < 0 {
        true
    } else {
        let i = spec_decode(ops[k]);
        let (v2, m2, cont) = spec_step(v, mem, base, i);
        step_ok(v, i) && (cont ==> v2.pc + 4 <= u64::MAX && run_ok(set_pc(v2, (v2.pc + 4) as u64), m2, base, ops, max, k + 1))
    }
}

/// The tier-0 interpreter.
pub struct Tier0FastJit;

impl Tier0FastJit {
    /// ADD and SUB.
    #[verifier::rlimit(40)]
    fn step_arith(ctx: &mut Arm64CpuContext, memory: &mut MemoryRegion, inst: &Arm64Inst) -> (r: bool)
        requires
            old(memory).inv(),
            step_ok(old(ctx)@, *inst),
            inst.op == Arm64Op::Add || inst.op == Arm64Op::Sub,
        ensures
            ({
                let (v, m, cont) = spec_step(old(ctx)@, old(memory).contents(), old(memory).spec_base() as int, *inst);
                &&& final(ctx)@ == v
                &&& final(memory).contents() == m
                &&& r == cont
            }),
            final(ctx).vregs == old(ctx).vregs,
            final(ctx).sp == old(ctx).sp,
            final(memory).inv(),
            final(memory).spec_base() == old(memory).spec_base(),
            final(memory).spec_len() == old(memory).spec_len(),
            final(memory).spec_prot() == old(memory).spec_prot(),
    {
        let a = ctx.regs[inst.rn as usize];
        let b = if inst.rm != 0 { ctx.regs[inst.rm as usize] << inst.shift } else { inst.imm as u64 };
        let val = Self::arith(a, b, inst.op == Arm64Op::Add, inst.is_64bit);
        ctx.regs[inst.rd as usize] = val;
        true
    }

    /// ADDS, SUBS and CMP, which set the flags.
    #[verifier::rlimit(40)]
    fn step_flags(ctx: &mut Arm64CpuContext, memory: &mut MemoryRegion, inst: &Arm64Inst) -> (r: bool)
        requires
            old(memory).inv(),
            step_ok(old(ctx)@, *inst),
            inst.op == Arm64Op::Adds || inst.op == Arm64Op::Subs || inst.op == Arm64Op::Cmp,
        ensures
            ({
                let (v, m, cont) = spec_step(old(ctx)@, old(memory).contents(), old(memory).spec_base() as int, *inst);
                &&& final(ctx)@ == v
                &&& final(memory).contents() == m
                &&& r == cont
            }),
            final(ctx).vregs == old(ctx).vregs,
            final(ctx).sp == old(ctx).sp,
            final(memory).inv(),
            final(memory).spec_base() == old(memory).spec_base(),
            final(memory).spec_len() == old(memory).spec_len(),
            final(memory).spec_prot() == old(memory).spec_prot(),
    {
        let a = ctx.regs[inst.rn as usize];
        let b = if inst.rm != 0 { ctx.regs[inst.rm as usize] } else { inst.imm as u64 };
        if inst.op == Arm64Op::Adds {
            let res = a.wrapping_add(b);
            ctx.set_flags(res >= 0x8000_0000_0000_0000, res == 0, res < a,
                ((a ^ res) & (b ^ res) & 0x8000_0000_0000_0000u64) != 0);
            ctx.regs[inst.rd as usize] = res;
        } else {
            let res = a.wrapping_sub(b);
            ctx.set_flags(res >= 0x8000_0000_0000_0000, res == 0, a >= b,
                ((a ^ b) & (a ^ res) & 0x8000_0000_0000_0000u64) != 0);
            if inst.op != Arm64Op::Cmp {
                ctx.regs[inst.rd as usize] = res;
            }
        }
        true
    }

    /// Moves and bitwise logic.
    fn step_move(ctx: &mut Arm64CpuContext, memory: &mut MemoryRegion, inst: &Arm64Inst) -> (r: bool)
        requires
            old(memory).inv(),
            step_ok(old(ctx)@, *inst),
            inst.op == Arm64Op::Mov || inst.op == Arm64Op::Movz || inst.op == Arm64Op::Movk || inst.op == Arm64Op::And || inst.op == Arm64Op::Orr || inst.op == Arm64Op::Eor,
        ensures
            ({
                let (v, m, cont) = spec_step(old(ctx)@, old(memory).contents(), old(memory).spec_base() as int, *inst);
                &&& final(ctx)@ == v
                &&& final(memory).contents() == m
                &&& r == cont
            }),
            final(ctx).vregs == old(ctx).vregs,
            final(ctx).sp == old(ctx).sp,
            final(memory).inv(),
            final(memory).spec_base() == old(memory).spec_base(),
            final(memory).spec_len() == old(memory).spec_len(),
            final(memory).spec_prot() == old(memory).spec_prot(),
    {
        let val = match inst.op {
            Arm64Op::Mov | Arm64Op::Movz => (inst.imm as u64) << inst.shift,
            Arm64Op::Movk => (ctx.regs[inst.rd as usize] & !(0xffffu64 << inst.shift)) | ((inst.imm as u64) << inst.shift),
            Arm64Op::And => ctx.regs[inst.rn as usize] & ctx.regs[inst.rm as usize],
            Arm64Op::Orr => ctx.regs[inst.rn as usize] | ctx.regs[inst.rm as usize],
            _ => ctx.regs[inst.rn as usize] ^ ctx.regs[inst.rm as usize],
        };
        ctx.regs[inst.rd as usize] = val;
        true
    }

    /// Loads and stores of 8 bytes.
    fn step_memory(ctx: &mut Arm64CpuContext, memory: &mut MemoryRegion, inst: &Arm64Inst) -> (r: bool)
        requires
            old(memory).inv(),
            step_ok(old(ctx)@, *inst),
            inst.op == Arm64Op::Ldr || inst.op == Arm64Op::Str,
        ensures
            ({
                let (v, m, cont) = spec_step(old(ctx)@, old(memory).contents(), old(memory).spec_base() as int, *inst);
                &&& final(ctx)@ == v
                &&& final(memory).contents() == m
                &&& r == cont
            }),
            final(ctx).vregs == old(ctx).vregs,
            final(ctx).sp == old(ctx).sp,
            final(memory).inv(),
            final(memory).spec_base() == old(memory).spec_base(),
            final(memory).spec_len() == old(memory).spec_len(),
            final(memory).spec_prot() == old(memory).spec_prot(),
    {
        proof {
            memory.lemma_inv();
        }
        let addr = ((ctx.regs[inst.rn as usize] as i64) + inst.imm) as usize;
        let base = memory.as_ptr();
        let len = memory.len();
        if addr != 0 && base <= addr && addr - base <= len && len - (addr - base) >= 8 {
            if inst.op == Arm64Op::Ldr {
                let bytes = memory.load(addr - base, 8);
                let val = crate::wire::read_u64(bytes.as_slice(), 0);
                proof {
                    assert forall|k: int| 0 <= k < 8 implies bytes@[k] == memory.contents()[addr - base + k] by {}
                }
                ctx.regs[inst.rd as usize] = val;
            } else {
                let mut bytes: Vec<u8> = Vec::new();
                crate::wire::push_u64(&mut bytes, ctx.regs[inst.rd as usize]);
                assert(bytes@.len() == 8);
                memory.store(addr - base, bytes.as_slice());
            }
        }
        true
    }

    /// PC-relative branches.
    fn step_branch(ctx: &mut Arm64CpuContext, memory: &mut MemoryRegion, inst: &Arm64Inst) -> (r: bool)
        requires
            old(memory).inv(),
            step_ok(old(ctx)@, *inst),
            inst.op == Arm64Op::B || inst.op is Bcc || inst.op == Arm64Op::Cbz || inst.op == Arm64Op::Cbnz,
        ensures
            ({
                let (v, m, cont) = spec_step(old(ctx)@, old(memory).contents(), old(memory).spec_base() as int, *inst);
                &&& final(ctx)@ == v
                &&& final(memory).contents() == m
                &&& r == cont
            }),
            final(ctx).vregs == old(ctx).vregs,
            final(ctx).sp == old(ctx).sp,
            final(memory).inv(),
            final(memory).spec_base() == old(memory).spec_base(),
            final(memory).spec_len() == old(memory).spec_len(),
            final(memory).spec_prot() == old(memory).spec_prot(),
    {
        let taken = match inst.op {
            Arm64Op::B => true,
            Arm64Op::Bcc(cond) => Self::eval_condition(ctx, cond),
            Arm64Op::Cbz => ctx.regs[inst.rd as usize] == 0,
            _ => ctx.regs[inst.rd as usize] != 0,
        };
        if taken {
            ctx.pc = ((ctx.pc as i64) + inst.imm) as u64;
        } else {
            ctx.pc = ctx.pc + 4;
        }
        false
    }

    fn arith(a: u64, b: u64, is_add: bool, is_64bit: bool) -> (r: u64)
        ensures
            r == arith_value(a, b, is_add, is_64bit),
    {
        if is_64bit {
            if is_add { a.wrapping_add(b) } else { a.wrapping_sub(b) }
        } else {
            let x = a as u32;
            let y = b as u32;
            if is_add { x.wrapping_add(y) as u64 } else { x.wrapping_sub(y) as u64 }
        }
    }

    /// Executes one instruction; true when execution continues with the next one.
    pub fn step(ctx: &mut Arm64CpuContext, memory: &mut MemoryRegion, inst: &Arm64Inst) -> (r: bool)
        requires
            old(memory).inv(),
            step_ok(old(ctx)@, *inst),
        ensures
            ({
                let (v, m, cont) = spec_step(old(ctx)@, old(memory).contents(), old(memory).spec_base() as int, *inst);
                &&& final(ctx)@ == v
                &&& final(memory).contents() == m
                &&& r == cont
            }),
            final(ctx).vregs == old(ctx).vregs,
            final(ctx).sp == old(ctx).sp,
            final(memory).inv(),
            final(memory).spec_base() == old(memory).spec_base(),
            final(memory).spec_len() == old(memory).spec_len(),
            final(memory).spec_prot() == old(memory).spec_prot(),
    {
        match inst.op {
            Arm64Op::Nop => true,
            Arm64Op::Add | Arm64Op::Sub => Self::step_arith(ctx, memory, inst),
            Arm64Op::Adds | Arm64Op::Subs | Arm64Op::Cmp => Self::step_flags(ctx, memory, inst),
            Arm64Op::Mov | Arm64Op::Movz | Arm64Op::Movk | Arm64Op::And | Arm64Op::Orr | Arm64Op::Eor =>
                Self::step_move(ctx, memory, inst),
            Arm64Op::Ldr | Arm64Op::Str => Self::step_memory(ctx, memory, inst),
            Arm64Op::B | Arm64Op::Bcc(_) | Arm64Op::Cbz | Arm64Op::Cbnz => Self::step_branch(ctx, memory, inst),
            Arm64Op::Ret => {
                ctx.pc = ctx.regs[inst.rn as usize];
                false
            },
            _ => {
                ctx.pc = ctx.pc + 4;
                true
            },
        }
    }

    /// Whether `cond` holds for the context's flags.
    pub fn eval_condition(ctx: &Arm64CpuContext, cond: ConditionCode) -> (r: bool)
        ensures
            r == condition_holds(ctx.pstate, cond),
    {
        let n = ctx.flag_n();
        let z = ctx.flag_z();
        let c = ctx.flag_c();
        let v = ctx.flag_v();
        match cond {
            ConditionCode::EQ => z,
            ConditionCode::NE => !z,
            ConditionCode::CS => c,
            ConditionCode::CC => !c,
            ConditionCode::MI => n,
            ConditionCode::PL => !n,
            ConditionCode::VS => v,
            ConditionCode::VC => !v,
            ConditionCode::HI => c && !z,
            ConditionCode::LS => !c || z,
            ConditionCode::GE => n == v,
            ConditionCode::LT => n != v,
            ConditionCode::GT => !z && n == v,
            ConditionCode::LE => z || n != v,
            ConditionCode::AL => true,
            ConditionCode::NV => false,
        }
    }

    /// Decodes and executes `opcodes` in order, for at most `max_steps` instructions, until
    /// one branches; returns the number executed.
    pub fn execute_block(ctx: &mut Arm64CpuContext, memory: &mut MemoryRegion, opcodes: &[u32], max_steps: usize) -> (r: usize)
        requires
            old(memory).inv(),
            run_ok(old(ctx)@, old(memory).contents(), old(memory).spec_base() as int, opcodes@, max_steps as int, 0),
        ensures
            ({
                let (v, m, k) = spec_run(old(ctx)@, old(memory).contents(), old(memory).spec_base() as int,
                    opcodes@, max_steps as int, 0);
                &&& final(ctx)@ == v
                &&& final(memory).contents() == m
                &&& r == k
            }),
            final(memory).inv(),
            final(memory).spec_base() == old(memory).spec_base(),
            final(memory).spec_len() == old(memory).spec_len(),
    {
        let ghost base = memory.spec_base() as int;
        let mut steps: usize = 0;
        let n = opcodes.len();
        while steps < n && steps < max_steps
            invariant
                0 <= steps <= n,
                n == opcodes@.len(),
                memory.inv(),
                memory.spec_base() == old(memory).spec_base(),
                memory.spec_len() == old(memory).spec_len(),
                base == memory.spec_base(),
                run_ok(ctx@, memory.contents(), base, opcodes@, max_steps as int, steps as int),
                spec_run(old(ctx)@, old(memory).contents(), base, opcodes@, max_steps as int, 0)
                    == spec_run(ctx@, memory.contents(), base, opcodes@, max_steps as int, steps as int),
            decreases n - steps,
        {
            let inst = Arm64Decoder::decode(opcodes[steps]);
            steps = steps + 1;
            let cont = Self::step(ctx, memory, &inst);
            if !cont {
                return steps;
            }
            ctx.pc = ctx.pc + 4;
        }
        steps
    }

    /// Whether an instruction can run from this context: its registers are in range and the
    /// addresses it computes fit.
    pub fn step_allowed(ctx: &Arm64CpuContext, i: &Arm64Inst) -> (r: bool)
        ensures
            r == step_ok(ctx@, *i),
    {
        let pc_fits = ctx.pc <= u64::MAX - 4;
        match i.op {
            Arm64Op::Nop => true,
            Arm64Op::Add | Arm64Op::Sub => i.rn < 31 && i.rd < 31 && (i.rm == 0 || (i.rm < 31 && i.shift < 64)),
            Arm64Op::Adds | Arm64Op::Subs => i.rn < 31 && i.rd < 31 && (i.rm == 0 || i.rm < 31),
            Arm64Op::Cmp => i.rn < 31 && (i.rm == 0 || i.rm < 31),
            Arm64Op::Mov | Arm64Op::Movz | Arm64Op::Movk => i.rd < 31 && i.shift < 64,
            Arm64Op::And | Arm64Op::Orr | Arm64Op::Eor => i.rn < 31 && i.rm < 31 && i.rd < 31,
            Arm64Op::Ldr | Arm64Op::Str => i.rn < 31 && i.rd < 31
                && (ctx.regs[i.rn as usize] as i64).checked_add(i.imm).is_some(),
            Arm64Op::B => (ctx.pc as i64).checked_add(i.imm).is_some(),
            Arm64Op::Bcc(c) => if Self::eval_condition(ctx, c) {
                (ctx.pc as i64).checked_add(i.imm).is_some()
            } else {
                pc_fits
            },
            Arm64Op::Cbz | Arm64Op::Cbnz => i.rd < 31 && if (ctx.regs[i.rd as usize] == 0) == (i.op == Arm64Op::Cbz) {
                (ctx.pc as i64).checked_add(i.imm).is_some()
            } else {
                pc_fits
            },
            Arm64Op::Ret => i.rn < 31,
            _ => pc_fits,
        }
    }

    /// Runs `opcodes` as `execute_block` does, checking before each step that it stays in
    /// range: the number executed, or None where a step would leave the range (the steps
    /// before it have then run).
    pub fn execute_block_checked(ctx: &mut Arm64CpuContext, memory: &mut MemoryRegion, opcodes: &[u32], max_steps: usize)
        -> (r: Option<usize>)
        requires
            old(memory).inv(),
        ensures
            r is Some <==> run_ok(old(ctx)@, old(memory).contents(), old(memory).spec_base() as int, opcodes@,
                max_steps as int, 0),
            r matches Some(k) ==> ({
                let (v, m, j) = spec_run(old(ctx)@, old(memory).contents(), old(memory).spec_base() as int,
                    opcodes@, max_steps as int, 0);
                &&& final(ctx)@ == v
                &&& final(memory).contents() == m
                &&& k == j
            }),
            final(memory).inv(),
            final(memory).spec_base() == old(memory).spec_base(),
            final(memory).spec_len() == old(memory).spec_len(),
    {
        let ghost base = memory.spec_base() as int;
        let mut steps: usize = 0;
        let n = opcodes.len();
        while steps < n && steps < max_steps
            invariant
                0 <= steps <= n,
                n == opcodes@.len(),
                memory.inv(),
                memory.spec_base() == old(memory).spec_base(),
                memory.spec_len() == old(memory).spec_len(),
                base == memory.spec_base(),
                run_ok(old(ctx)@, old(memory).contents(), base, opcodes@, max_steps as int, 0)
                    == run_ok(ctx@, memory.contents(), base, opcodes@, max_steps as int, steps as int),
                spec_run(old(ctx)@, old(memory).contents(), base, opcodes@, max_steps as int, 0)
                    == spec_run(ctx@, memory.contents(), base, opcodes@, max_steps as int, steps as int),
            decreases n - steps,
        {
            let inst = Arm64Decoder::decode(opcodes[steps]);
            if !Self::step_allowed(ctx, &inst) {
                return None;
            }
            steps = steps + 1;
            let cont = Self::step(ctx, memory, &inst);
            if !cont {
                return Some(steps);
            }
            if ctx.pc > u64::MAX - 4 {
                return None;
            }
            ctx.pc = ctx.pc + 4;
        }
        Some(steps)
    }
}

/// A 64-bit word read as a two's complement number.
pub open spec fn signed64(x: u64) -> int {
    if x < 0x8000_0000_0000_0000 { x as int } else { x - 0x1_0000_0000_0000_0000 }
}

proof fn lemma_sub_flag_bits(a: u64, b: u64, r: u64)
    by (bit_vector)
    requires
        r as int == (if a >= b { a - b } else { a - b + 0x1_0000_0000_0000_0000 }),
    ensures
        (r == 0) == (a == b),
        (r >= 0x8000_0000_0000_0000) == (((if r < 0x8000_0000_0000_0000 { r as int } else { r - 0x1_0000_0000_0000_0000 })) < 0),
        (((a ^ b) & (a ^ r) & 0x8000_0000_0000_0000u64) != 0) == ({
            let d = (if a < 0x8000_0000_0000_0000 { a as int } else { a - 0x1_0000_0000_0000_0000 })
                - (if b < 0x8000_0000_0000_0000 { b as int } else { b - 0x1_0000_0000_0000_0000 });
            d < -0x8000_0000_0000_0000 || d > 0x7fff_ffff_ffff_ffff
        }),
        ((r >= 0x8000_0000_0000_0000) == (((a ^ b) & (a ^ r) & 0x8000_0000_0000_0000u64) != 0)) == (
            (if a < 0x8000_0000_0000_0000 { a as int } else { a - 0x1_0000_0000_0000_0000 })
            >= (if b < 0x8000_0000_0000_0000 { b as int } else { b - 0x1_0000_0000_0000_0000 })),
{
}

proof fn lemma_with_flags_bits(p: u64, n: bool, z: bool, c: bool, v: bool)
    by (bit_vector)
    ensures
        (with_flags(p, n, z, c, v) & (1u64 << 31u64) != 0) == n,
        (with_flags(p, n, z, c, v) & (1u64 << 30u64) != 0) == z,
        (with_flags(p, n, z, c, v) & (1u64 << 29u64) != 0) == c,
        (with_flags(p, n, z, c, v) & (1u64 << 28u64) != 0) == v,
{
}

/// After a CMP or SUBS of `a` (the first register) and `b` (the second operand), each
/// condition code holds exactly when the comparison it names does: EQ/NE equality, CS/CC/HI/LS
/// the unsigned order, GE/LT/GT/LE the signed order, MI/PL the sign of the 64-bit difference,
/// VS/VC whether the signed difference overflows; AL always.
pub proof fn lemma_conditions_after_compare(v: CpuView, mem: Seq<u8>, base: int, i: Arm64Inst)
    requires
        i.op == Arm64Op::Cmp || i.op == Arm64Op::Subs,
    ensures
        ({
            let a = v.regs[i.rn as int];
            let b = plain_operand(v, i);
            let p = spec_step(v, mem, base, i).0.pstate;
            let d = signed64(a) - signed64(b);
            &&& condition_holds(p, ConditionCode::EQ) == (a == b)
            &&& condition_holds(p, ConditionCode::NE) == (a != b)
            &&& condition_holds(p, ConditionCode::CS) == (a >= b)
            &&& condition_holds(p, ConditionCode::CC) == (a < b)
            &&& condition_holds(p, ConditionCode::HI) == (a > b)
            &&& condition_holds(p, ConditionCode::LS) == (a <= b)
            &&& condition_holds(p, ConditionCode::GE) == (signed64(a) >= signed64(b))
            &&& condition_holds(p, ConditionCode::LT) == (signed64(a) < signed64(b))
            &&& condition_holds(p, ConditionCode::GT) == (signed64(a) > signed64(b))
            &&& condition_holds(p, ConditionCode::LE) == (signed64(a) <= signed64(b))
            &&& condition_holds(p, ConditionCode::MI) == (signed64(wrap64(a - b)) < 0)
            &&& condition_holds(p, ConditionCode::PL) == (signed64(wrap64(a - b)) >= 0)
            &&& condition_holds(p, ConditionCode::VS) == (d < i64::MIN || d > i64::MAX)
            &&& condition_holds(p, ConditionCode::VC) == (i64::MIN <= d <= i64::MAX)
            &&& condition_holds(p, ConditionCode::AL)
        }),
{
    let a = v.regs[i.rn as int];
    let b = plain_operand(v, i);
    let x = a - b;
    let r = wrap64(x);
    let m = if a >= b { a - b } else { a - b + 0x1_0000_0000_0000_0000 };
    vstd::arithmetic::div_mod::lemma_fundamental_div_mod_converse(x, 0x1_0000_0000_0000_0000,
        if a >= b { 0 } else { -1 }, m);
    assert(r as int == m);
    lemma_sub_flag_bits(a, b, r);
    let n = r >= 0x8000_0000_0000_0000;
    let z = r == 0;
    let c = a >= b;
    let ov = ((a ^ b) & (a ^ r) & 0x8000_0000_0000_0000u64) != 0;
    lemma_with_flags_bits(v.pstate, n, z, c, ov);
    let p = spec_step(v, mem, base, i).0.pstate;
    assert(p == with_flags(v.pstate, n, z, c, ov));
    assert(bit(p, 31) == n && bit(p, 30) == z && bit(p, 29) == c && bit(p, 28) == ov);
}

proof fn lemma_add_flag_bits(a: u64, b: u64, r: u64)
    by (bit_vector)
    requires
        r as int == (if a + b < 0x1_0000_0000_0000_0000 { a + b } else { a + b - 0x1_0000_0000_0000_0000 }),
    ensures
        (r < a) == (a + b >= 0x1_0000_0000_0000_0000),
        (((a ^ r) & (b ^ r) & 0x8000_0000_0000_0000u64) != 0) == ({
            let d = (if a < 0x8000_0000_0000_0000 { a as int } else { a - 0x1_0000_0000_0000_0000 })
                + (if b < 0x8000_0000_0000_0000 { b as int } else { b - 0x1_0000_0000_0000_0000 });
            d < -0x8000_0000_0000_0000 || d > 0x7fff_ffff_ffff_ffff
        }),
{
}

/// ADDS of `a` (the first register) and `b` (the second operand) writes their sum modulo
/// 2^64 and sets the flags by it: Z when the sum wraps to zero, C when the unsigned sum
/// carries out of 64 bits, N when the result is negative, V when the signed sum overflows.
pub proof fn lemma_adds_flags(v: CpuView, mem: Seq<u8>, base: int, i: Arm64Inst)
    requires
        i.op == Arm64Op::Adds,
        i.rd < 31,
        v.regs.len() == 31,
    ensures
        ({
            let a = v.regs[i.rn as int];
            let b = plain_operand(v, i);
            let v2 = spec_step(v, mem, base, i).0;
            let sum = (a + b) % 0x1_0000_0000_0000_0000;
            let d = signed64(a) + signed64(b);
            &&& v2.regs[i.rd as int] == sum
            &&& condition_holds(v2.pstate, ConditionCode::EQ) == (sum == 0)
            &&& condition_holds(v2.pstate, ConditionCode::CS) == (a + b >= 0x1_0000_0000_0000_0000)
            &&& condition_holds(v2.pstate, ConditionCode::MI) == (sum >= 0x8000_0000_0000_0000)
            &&& condition_holds(v2.pstate, ConditionCode::VS) == (d < i64::MIN || d > i64::MAX)
        }),
{
    let a = v.regs[i.rn as int];
    let b = plain_operand(v, i);
    let x = a + b;
    let r = wrap64(x);
    let m = if x < 0x1_0000_0000_0000_0000 { x } else { x - 0x1_0000_0000_0000_0000 };
    vstd::arithmetic::div_mod::lemma_fundamental_div_mod_converse(x, 0x1_0000_0000_0000_0000,
        if x < 0x1_0000_0000_0000_0000 { 0 } else { 1 }, m);
    assert(r as int == m);
    lemma_add_flag_bits(a, b, r);
    let n = r >= 0x8000_0000_0000_0000;
    let z = r == 0;
    let c = r < a;
    let ov = ((a ^ r) & (b ^ r) & 0x8000_0000_0000_0000u64) != 0;
    lemma_with_flags_bits(v.pstate, n, z, c, ov);
    let v2 = spec_step(v, mem, base, i).0;
    assert(v2.pstate == with_flags(v.pstate, n, z, c, ov));
    assert(bit(v2.pstate, 31) == n && bit(v2.pstate, 30) == z && bit(v2.pstate, 29) == c && bit(v2.pstate, 28) == ov);
}

/// A load from where a store just wrote reads the stored value back.
pub proof fn lemma_store_then_load(v: CpuView, mem: Seq<u8>, base: int, st: Arm64Inst, ld: Arm64Inst)
    requires
        st.op == Arm64Op::Str,
        ld.op == Arm64Op::Ldr,
        ld.rd < 31,
        v.regs.len() == 31,
        access_address(v, st) == access_address(v, ld),
        in_memory(access_address(v, st) as int, base, mem.len() as int),
    ensures
        ({
            let (v1, m1, _) = spec_step(v, mem, base, st);
            let (v2, m2, _) = spec_step(v1, m1, base, ld);
            &&& v2.regs[ld.rd as int] == v.regs[st.rd as int]
            &&& m1.len() == mem.len()
        }),
{
    let addr = access_address(v, st) as int;
    let off = addr - base;
    let x = v.regs[st.rd as int];
    crate::wire::lemma_le64_bytes64(x as int);
    let (v1, m1, _) = spec_step(v, mem, base, st);
    assert(m1 == mem.subrange(0, off) + bytes64(x as int) + mem.subrange(off + 8, mem.len() as int));
    crate::wire::lemma_le_in_middle(mem.subrange(0, off), bytes64(x as int), mem.subrange(off + 8, mem.len() as int), 0);
    assert(v1 == v);
}

proof fn lemma_bitwise_bit(a: u64, b: u64, k: u64)
    by (bit_vector)
    requires
        k < 64,
    ensures
        ((((a & b) >> k) & 1) == 1) == ((((a >> k) & 1) == 1) && (((b >> k) & 1) == 1)),
        ((((a | b) >> k) & 1) == 1) == ((((a >> k) & 1) == 1) || (((b >> k) & 1) == 1)),
        ((((a ^ b) >> k) & 1) == 1) == (((a >> k) & 1) != ((b >> k) & 1)),
        ((a >> k) & 1) <= 1,
        ((b >> k) & 1) <= 1,
{
}

/// AND, ORR and EOR combine their registers bit by bit: each bit of the result is set when
/// both, either, or exactly one of the sources' bits are.
pub proof fn lemma_logical_results(v: CpuView, mem: Seq<u8>, base: int, i: Arm64Inst, k: u64)
    requires
        i.op == Arm64Op::And || i.op == Arm64Op::Orr || i.op == Arm64Op::Eor,
        i.rd < 31,
        v.regs.len() == 31,
        k < 64,
    ensures
        ({
            let a = (v.regs[i.rn as int] >> k) & 1;
            let b = (v.regs[i.rm as int] >> k) & 1;
            let r = (spec_step(v, mem, base, i).0.regs[i.rd as int] >> k) & 1;
            &&& i.op == Arm64Op::And ==> (r == 1 <==> a == 1 && b == 1)
            &&& i.op == Arm64Op::Orr ==> (r == 1 <==> a == 1 || b == 1)
            &&& i.op == Arm64Op::Eor ==> (r == 1 <==> a != b)
        }),
{
    let x = v.regs[i.rn as int];
    let y = v.regs[i.rm as int];
    lemma_bitwise_bit(x, y, k);
    let r = spec_step(v, mem, base, i).0.regs[i.rd as int];
    if i.op == Arm64Op::And {
        assert(r == x & y);
    } else if i.op == Arm64Op::Orr {
        assert(r == x | y);
    } else {
        assert(r == x ^ y);
    }
}

/// A 64-bit ADD or SUB writes the sum or difference of its first register and its second
/// operand modulo 2^64; a 32-bit one that of their low 32 bits modulo 2^32.
pub proof fn lemma_add_sub_results(v: CpuView, mem: Seq<u8>, base: int, i: Arm64Inst)
    requires
        i.op == Arm64Op::Add || i.op == Arm64Op::Sub,
        i.rd < 31,
        v.regs.len() == 31,
    ensures
        ({
            let a = v.regs[i.rn as int];
            let b = shifted_operand(v, i);
            let r = spec_step(v, mem, base, i).0.regs[i.rd as int];
            &&& i.op == Arm64Op::Add && i.is_64bit ==> (r as int) == (a + b) % 0x1_0000_0000_0000_0000
            &&& i.op == Arm64Op::Sub && i.is_64bit ==> (r as int) == (a - b) % 0x1_0000_0000_0000_0000
            &&& i.op == Arm64Op::Add && !i.is_64bit ==> (r as int) == ((a % 0x1_0000_0000) + (b % 0x1_0000_0000)) % 0x1_0000_0000
            &&& i.op == Arm64Op::Sub && !i.is_64bit ==> (r as int) == ((a % 0x1_0000_0000) - (b % 0x1_0000_0000)) % 0x1_0000_0000
        }),
{
    let a = v.regs[i.rn as int];
    let b = shifted_operand(v, i);
    let r = spec_step(v, mem, base, i).0.regs[i.rd as int];
    let a32 = a as u32;
    let b32 = b as u32;
    assert(a32 == a % 0x1_0000_0000 && b32 == b % 0x1_0000_0000) by (bit_vector)
        requires
            a32 == a as u32,
            b32 == b as u32,
    ;
    if i.is_64bit {
        if i.op == Arm64Op::Add {
            assert(r == wrap64(a + b));
        } else {
            assert(r == wrap64(a - b));
        }
    } else {
        if i.op == Arm64Op::Add {
            assert(r == wrap32(a32 + b32));
        } else {
            assert(r == wrap32(a32 - b32));
        }
    }
}

/// CBZ branches exactly when its register is zero, CBNZ exactly when it is not, and B.cond
/// exactly when its condition holds; otherwise execution goes on at the next word.
pub proof fn lemma_conditional_branches(v: CpuView, mem: Seq<u8>, base: int, i: Arm64Inst)
    requires
        i.op is Cbz || i.op is Cbnz || i.op is Bcc,
        v.regs.len() == 31,
        i.rd < 31,
        v.pc + 4 <= u64::MAX,
    ensures
        ({
            let taken = match i.op {
                Arm64Op::Cbz => v.regs[i.rd as int] == 0,
                Arm64Op::Cbnz => v.regs[i.rd as int] != 0,
                Arm64Op::Bcc(c) => condition_holds(v.pstate, c),
                _ => false,
            };
            let pc = spec_step(v, mem, base, i).0.pc;
            &&& taken ==> pc == ((v.pc as i64) + i.imm) as i64 as u64
            &&& !taken ==> pc == v.pc + 4
            &&& !spec_step(v, mem, base, i).2
        }),
{
}

proof fn lemma_move_bits(old: u64, imm: u64, s: u64, k: u64)
    by (bit_vector)
    requires
        imm < 0x10000,
        s < 64,
        k < 64,
    ensures
        s <= k && k < s + 16 ==> (((imm << s) >> k) & 1) == ((imm >> ((k - s) as u64)) & 1),
        !(s <= k && k < s + 16) ==> (((imm << s) >> k) & 1) == 0,
        s <= k && k < s + 16 ==> ((((old & !(0xffffu64 << s)) | (imm << s)) >> k) & 1) == ((imm >> ((k - s) as u64)) & 1),
        !(s <= k && k < s + 16) ==> ((((old & !(0xffffu64 << s)) | (imm << s)) >> k) & 1) == ((old >> k) & 1),
{
}

/// MOVZ and MOVK place the 16-bit immediate at bit `shift` of the destination: each bit in
/// that half-word is the matching bit of the immediate; every other bit is cleared by MOVZ
/// and kept by MOVK.
pub proof fn lemma_move_wide_results(v: CpuView, mem: Seq<u8>, base: int, i: Arm64Inst, k: u64)
    requires
        i.op == Arm64Op::Movz || i.op == Arm64Op::Movk,
        i.rd < 31,
        v.regs.len() == 31,
        0 <= i.imm < 0x10000,
        i.shift < 64,
        k < 64,
    ensures
        ({
            let s = i.shift as u64;
            let imm = i.imm as u64;
            let r = spec_step(v, mem, base, i).0.regs[i.rd as int];
            &&& s <= k < s + 16 ==> ((r >> k) & 1) == ((imm >> (k - s) as u64) & 1)
            &&& !(s <= k < s + 16) && i.op == Arm64Op::Movz ==> ((r >> k) & 1) == 0
            &&& !(s <= k < s + 16) && i.op == Arm64Op::Movk ==> ((r >> k) & 1) == ((v.regs[i.rd as int] >> k) & 1)
        }),
{
    let s = i.shift as u64;
    let imm = i.imm as u64;
    assert(imm < 0x10000);
    lemma_move_bits(v.regs[i.rd as int], imm, s, k);
    assert(((imm << i.shift) == (imm << s)) && ((0xffffu64 << i.shift) == (0xffffu64 << s)));
}

/// Instructions that write one register leave every other register, the program counter and
/// memory as they were; CMP writes no register at all.
pub proof fn lemma_step_writes_only_destination(v: CpuView, mem: Seq<u8>, base: int, i: Arm64Inst, j: int)
    requires
        i.op == Arm64Op::Add || i.op == Arm64Op::Sub || i.op == Arm64Op::Adds || i.op == Arm64Op::Subs
            || i.op == Arm64Op::Cmp || i.op == Arm64Op::Mov || i.op == Arm64Op::Movz || i.op == Arm64Op::Movk
            || i.op == Arm64Op::And || i.op == Arm64Op::Orr || i.op == Arm64Op::Eor || i.op == Arm64Op::Ldr,
        i.rd < 31,
        v.regs.len() == 31,
        0 <= j < 31,
        j != i.rd || i.op == Arm64Op::Cmp,
    ensures
        ({
            let (v2, m2, cont) = spec_step(v, mem, base, i);
            &&& v2.regs.len() == 31
            &&& v2.regs[j] == v.regs[j]
            &&& v2.pc == v.pc
            &&& m2 == mem
            &&& cont
        }),
{
}

/// A store changes only the eight bytes it writes, and no register.
pub proof fn lemma_store_writes_only_target(v: CpuView, mem: Seq<u8>, base: int, i: Arm64Inst, q: int)
    requires
        i.op == Arm64Op::Str,
        0 <= q < mem.len(),
        !(access_address(v, i) - base <= q < access_address(v, i) - base + 8)
            || !in_memory(access_address(v, i) as int, base, mem.len() as int),
    ensures
        ({
            let (v2, m2, cont) = spec_step(v, mem, base, i);
            &&& v2 == v
            &&& m2.len() == mem.len()
            &&& m2[q] == mem[q]
            &&& cont
        }),
{
    let addr = access_address(v, i) as int;
    if in_memory(addr, base, mem.len() as int) {
        let off = addr - base;
        let x = v.regs[i.rd as int];
        crate::wire::lemma_le64_bytes64(x as int);
        let m2 = spec_step(v, mem, base, i).1;
        assert(m2 == mem.subrange(0, off) + bytes64(x as int) + mem.subrange(off + 8, mem.len() as int));
        if q < off {
            assert(m2[q] == mem.subrange(0, off)[q]);
        } else {
            assert(m2[q] == mem.subrange(off + 8, mem.len() as int)[q - off - 8]);
        }
    }
}

/// B goes to its target and RET to the address in its register, changing no register; NOP
/// changes nothing and execution goes on.
pub proof fn lemma_jumps_and_nop(v: CpuView, mem: Seq<u8>, base: int, i: Arm64Inst)
    requires
        i.op == Arm64Op::B || i.op == Arm64Op::Ret || i.op == Arm64Op::Nop,
    ensures
        ({
            let (v2, m2, cont) = spec_step(v, mem, base, i);
            &&& i.op == Arm64Op::B ==> v2.pc == ((v.pc as i64) + i.imm) as i64 as u64 && !cont
            &&& i.op == Arm64Op::Ret ==> v2.pc == v.regs[i.rn as int] && !cont
            &&& i.op == Arm64Op::Nop ==> v2 == v && cont
            &&& v2.regs == v.regs
            &&& v2.pstate == v.pstate
            &&& m2 == mem
        }),
{
}

/// AL holds and NV does not, whatever the flags; each other condition and its complement
/// (EQ/NE, CS/CC, MI/PL, VS/VC, HI/LS, GE/LT, GT/LE) hold for opposite flag states.
pub proof fn lemma_condition_complements(pstate: u64)
    ensures
        condition_holds(pstate, ConditionCode::AL),
        !condition_holds(pstate, ConditionCode::NV),
        condition_holds(pstate, ConditionCode::EQ) != condition_holds(pstate, ConditionCode::NE),
        condition_holds(pstate, ConditionCode::CS) != condition_holds(pstate, ConditionCode::CC),
        condition_holds(pstate, ConditionCode::MI) != condition_holds(pstate, ConditionCode::PL),
        condition_holds(pstate, ConditionCode::VS) != condition_holds(pstate, ConditionCode::VC),
        condition_holds(pstate, ConditionCode::HI) != condition_holds(pstate, ConditionCode::LS),
        condition_holds(pstate, ConditionCode::GE) != condition_holds(pstate, ConditionCode::LT),
        condition_holds(pstate, ConditionCode::GT) != condition_holds(pstate, ConditionCode::LE),
{
}

/// An instruction the interpreter does not execute (a multiply, a shift, a pair load, a
/// system call, an unknown word...) changes nothing but the program counter, which moves to
/// the next word, and execution goes on.
pub proof fn lemma_unsupported_advances(v: CpuView, mem: Seq<u8>, base: int, i: Arm64Inst)
    requires
        !(i.op is Nop || i.op is Add || i.op is Sub || i.op is Adds || i.op is Subs || i.op is Cmp
            || i.op is Mov || i.op is Movz || i.op is Movk || i.op is And || i.op is Orr || i.op is Eor
            || i.op is Ldr || i.op is Str || i.op is B || i.op is Bcc || i.op is Cbz || i.op is Cbnz
            || i.op is Ret),
        v.pc + 4 <= u64::MAX,
    ensures
        ({
            let (v2, m2, cont) = spec_step(v, mem, base, i);
            &&& v2.pc == v.pc + 4
            &&& v2.regs == v.regs
            &&& v2.pstate == v.pstate
            &&& v2.sp == v.sp
            &&& m2 == mem
            &&& cont
        }),
{
}

/// Whether an instruction ends a block: B, B.cond, CBZ, CBNZ or RET.
pub open spec fn ends_block(op: Arm64Op) -> bool {
    op is B || op is Bcc || op is Cbz || op is Cbnz || op is Ret
}

/// Whether the instruction word `w` decodes to one that ends a block.
#[verifier::opaque]
pub open spec fn word_ends_block(w: u32) -> bool {
    ends_block(spec_decode(w).op)
}

proof fn lemma_step_continues(v: CpuView, mem: Seq<u8>, base: int, w: u32)
    ensures
        spec_step(v, mem, base, spec_decode(w)).2 == !word_ends_block(w),
{
    reveal(word_ends_block);
}

/// The number of instructions a run from `k` executes (what `execute_block` returns, from 0).
#[verifier::opaque]
pub open spec fn run_count(v: CpuView, mem: Seq<u8>, base: int, ops: Seq<u32>, max: int, k: int) -> int {
    spec_run(v, mem, base, ops, max, k).2
}

proof fn lemma_run_next(v: CpuView, mem: Seq<u8>, base: int, ops: Seq<u32>, max: int, k: int) -> (r: (CpuView, Seq<u8>))
    ensures
        k < 0 || k >= ops.len() || k >= max ==> run_count(v, mem, base, ops, max, k) == k,
        0 <= k < ops.len() && k < max && word_ends_block(ops[k]) ==> run_count(v, mem, base, ops, max, k) == k + 1,
        0 <= k < ops.len() && k < max && !word_ends_block(ops[k])
            ==> run_count(v, mem, base, ops, max, k) == run_count(r.0, r.1, base, ops, max, k + 1),
{
    reveal(run_count);
    if 0 <= k < ops.len() && k < max {
        lemma_step_continues(v, mem, base, ops[k]);
    }
    let st = spec_step(v, mem, base, spec_decode(ops[k]));
    (set_pc(st.0, (st.0.pc + 4) as u64), st.1)
}

/// A run from instruction `k` executes at least one instruction when there is one to run,
/// and at most up to the end of the words and the step limit; when none of those words ends
/// the block, it executes all of them up to the limit, and when it stops earlier, the last
/// word it executed ends the block.
pub proof fn lemma_run_length(v: CpuView, mem: Seq<u8>, base: int, ops: Seq<u32>, max: int, k: int)
    requires
        0 <= k,
    ensures
        ({
            let j = run_count(v, mem, base, ops, max, k);
            let limit = if ops.len() < max { ops.len() as int } else { max };
            &&& k <= j
            &&& k < limit ==> k < j
            &&& k <= limit ==> j <= limit
            &&& k <= limit && (forall|q: int| k <= q < ops.len() ==> !word_ends_block(#[trigger] ops[q]))
                ==> j == limit
            &&& k < j < limit ==> word_ends_block(ops[j - 1])
        }),
    decreases ops.len() - k,
{
    let (v2, m2) = lemma_run_next(v, mem, base, ops, max, k);
    if !(k >= ops.len() || k >= max) {
        if !word_ends_block(ops[k]) {
            lemma_run_length(v2, m2, base, ops, max, k + 1);
        }
    }
}

} // verus!