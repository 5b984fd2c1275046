//! AArch64 instruction decoding.

use vstd::prelude::*;

verus! {

/// AArch64 condition codes, in encoding order.
#[derive(Debug, Clone, Copy, PartialEq, Eq, Structural)]
pub enum ConditionCode {
    EQ,
    NE,
    CS,
    CC,
    MI,
    PL,
    VS,
    VC,
    HI,
    LS,
    GE,
    LT,
    GT,
    LE,
    AL,
    NV,
}

/// The condition with encoding `c` (0..15).
pub open spec fn cond_of(c: int) -> ConditionCode {
    if c == 0 {
        ConditionCode::EQ
    } else if c == 1 {
        ConditionCode::NE
    } else if c == 2 {
        ConditionCode::CS
    } else if c == 3 {
        ConditionCode::CC
    } else if c == 4 {
        ConditionCode::MI
    } else if c == 5 {
        ConditionCode::PL
    } else if c == 6 {
        ConditionCode::VS
    } else if c == 7 {
        ConditionCode::VC
    } else if c == 8 {
        ConditionCode::HI
    } else if c == 9 {
        ConditionCode::LS
    } else if c == 10 {
        ConditionCode::GE
    } else if c == 11 {
        ConditionCode::LT
    } else if c == 12 {
        ConditionCode::GT
    } else if c == 13 {
        ConditionCode::LE
    } else if c == 14 {
        ConditionCode::AL
    } else {
        ConditionCode::NV
    }
}

impl ConditionCode {
    /// The condition encoded in the low four bits of `val`.
    pub fn from_u8(val: u8) -> (r: ConditionCode)
        ensures
            r == cond_of((val % 16) as int),
    {
        let c = val % 16;
        match c {
            0 => ConditionCode::EQ,
            1 => ConditionCode::NE,
            2 => ConditionCode::CS,
            3 => ConditionCode::CC,
            4 => ConditionCode::MI,
            5 => ConditionCode::PL,
            6 => ConditionCode::VS,
            7 => ConditionCode::VC,
            8 => ConditionCode::HI,
            9 => ConditionCode::LS,
            10 => ConditionCode::GE,
            11 => ConditionCode::LT,
            12 => ConditionCode::GT,
            13 => ConditionCode::LE,
            14 => ConditionCode::AL,
            _ => ConditionCode::NV,
        }
    }
}

/// Decoded operation kinds.
#[derive(Debug, Clone, Copy, PartialEq, Eq, Structural)]
pub enum Arm64Op {
    Add,
    Adds,
    Sub,
    Subs,
    Cmp,
    Cmn,
    Mul,
    Smull,
    Umull,
    Sdiv,
    Udiv,
    And,
    Ands,
    Orr,
    Eor,
    Lsl,
    Lsr,
    Asr,
    Ror,
    Clz,
    Rev,
    Mov,
    Movz,
    Movk,
    Movn,
    B,
    Bl,
    Bcc(ConditionCode),
    Cbz,
    Cbnz,
    Tbz,
    Tbnz,
    Br,
    Blr,
    Ret,
    Ldr,
    Str,
    Ldp,
    Stp,
    Ldrb,
    Strb,
    Ldrh,
    Strh,
    Ldur,
    Stur,
    Fadd,
    Fsub,
    Fmul,
    Fdiv,
    Fsqrt,
    Fabs,
    Fneg,
    Fcmp,
    Fmov,
    Vadd,
    Vsub,
    Vmul,
    Vdup,
    Vmov,
    Dmb,
    Dsb,
    Isb,
    Svc,
    Brk,
    Nop,
    Mrs,
    Msr,
    Unknown(u32),
}

/// A decoded instruction: operation, register numbers, immediate, shift and width.
#[derive(Debug, Clone, Copy, PartialEq, Eq, Structural)]
pub struct Arm64Inst {
    pub op: Arm64Op,
    pub rd: u8,
    pub rn: u8,
    pub rm: u8,
    pub imm: i64,
    pub shift: u8,
    pub is_64bit: bool,
    pub raw: u32,
}

/// An instruction with the given fields.
pub open spec fn inst(op: Arm64Op, raw: u32, rd: u8, rn: u8, rm: u8, imm: int, shift: u8, is_64bit: bool) -> Arm64Inst {
    Arm64Inst { op, rd, rn, rm, imm: imm as i64, shift, is_64bit, raw }
}

/// An instruction with no operands.
pub open spec fn bare(op: Arm64Op, raw: u32) -> Arm64Inst {
    inst(op, raw, 0, 0, 0, 0, 0, true)
}

/// `width` bits of `raw` starting at bit `lo`, as a number.
pub open spec fn bits(raw: u32, lo: u32, mask: u32) -> u32 {
    (raw >> lo) & mask
}

/// A register number: five bits of `raw` starting at `lo`.
pub open spec fn reg(raw: u32, lo: u32) -> u8 {
    bits(raw, lo, 0x1f) as u8
}

/// The two's complement value of `v`, read as a number of `2 * half` values.
pub open spec fn sign_extend(v: int, half: int) -> int {
    if v >= half { v - 2 * half } else { v }
}

/// The opcode class of ADD/SUB/ADDS/SUBS/CMP/CMN, given the op and S bits and whether the
/// destination is register 31.
pub open spec fn add_sub_op(is_sub: bool, set_flags: bool, rd_is_31: bool) -> Arm64Op {
    if !is_sub {
        if !set_flags { Arm64Op::Add } else if rd_is_31 { Arm64Op::Cmn } else { Arm64Op::Adds }
    } else {
        if !set_flags { Arm64Op::Sub } else if rd_is_31 { Arm64Op::Cmp } else { Arm64Op::Subs }
    }
}

/// The load/store opcode for a size field and direction.
pub open spec fn ldst_op(is_load: bool, size: u32) -> Arm64Op {
    if size == 0 {
        if is_load { Arm64Op::Ldrb } else { Arm64Op::Strb }
    } else if size == 1 {
        if is_load { Arm64Op::Ldrh } else { Arm64Op::Strh }
    } else {
        if is_load { Arm64Op::Ldr } else { Arm64Op::Str }
    }
}

/// The move-wide opcode for an `opc` field.
pub open spec fn movw_op(opc: u32) -> Arm64Op {
    if opc == 0 {
        Arm64Op::Movn
    } else if opc == 2 {
        Arm64Op::Movz
    } else if opc == 3 {
        Arm64Op::Movk
    } else {
        Arm64Op::Mov
    }
}

/// The logical (shifted register) opcode for an `opc` field.
pub open spec fn logical_op(opc: u32) -> Arm64Op {
    if opc == 0 {
        Arm64Op::And
    } else if opc == 1 {
        Arm64Op::Orr
    } else if opc == 2 {
        Arm64Op::Eor
    } else {
        Arm64Op::Ands
    }
}

/// What each 32-bit word decodes to, class by class, in the order the classes are tried.
pub open spec fn spec_decode(raw: u32) -> Arm64Inst {
    let sf = raw & 0x8000_0000 != 0;
    if raw == 0xd503201f {
        bare(Arm64Op::Nop, raw)
    } else if raw & 0xfffffc1f == 0xd65f0000 {
        inst(Arm64Op::Ret, raw, 0, reg(raw, 5), 0, 0, 0, true)
    } else if raw & 0xffe0001f == 0xd4000001 {
        inst(Arm64Op::Svc, raw, 0, 0, 0, bits(raw, 5, 0xffff) as int, 0, true)
    } else if raw & 0xffe0001f == 0xd4200000 {
        inst(Arm64Op::Brk, raw, 0, 0, 0, bits(raw, 5, 0xffff) as int, 0, true)
    } else if raw == 0xd50339bf || raw & 0xfffff0ff == 0xd503309f {
        inst(Arm64Op::Dsb, raw, 0, 0, 0, bits(raw, 8, 0xf) as int, 0, true)
    } else if raw & 0xfffff0ff == 0xd50330bf {
        inst(Arm64Op::Dmb, raw, 0, 0, 0, bits(raw, 8, 0xf) as int, 0, true)
    } else if raw == 0xd5033fdf {
        bare(Arm64Op::Isb, raw)
    } else if raw & 0x7c000000 == 0x14000000 {
        inst(if sf { Arm64Op::Bl } else { Arm64Op::B }, raw, 0, 0, 0,
            4 * sign_extend(bits(raw, 0, 0x03ffffff) as int, 0x0200_0000), 0, true)
    } else if raw & 0xff000010 == 0x54000000 {
        inst(Arm64Op::Bcc(cond_of(bits(raw, 0, 0xf) as int)), raw, 0, 0, 0,
            4 * sign_extend(bits(raw, 5, 0x7ffff) as int, 0x40000), 0, true)
    } else if raw & 0x7e000000 == 0x34000000 {
        inst(if raw & 0x01000000 != 0 { Arm64Op::Cbnz } else { Arm64Op::Cbz }, raw, reg(raw, 0), 0, 0,
            4 * sign_extend(bits(raw, 5, 0x7ffff) as int, 0x40000), 0, sf)
    } else if raw & 0x7f800000 == 0x12800000 || raw & 0x7f800000 == 0x52800000 || raw & 0x7f800000 == 0x72800000 {
        inst(movw_op(bits(raw, 29, 0x3)), raw, reg(raw, 0), 0, 0, bits(raw, 5, 0xffff) as int,
            (bits(raw, 21, 0x3) * 16) as u8, sf)
    } else if raw & 0x1f000000 == 0x11000000 {
        let imm12 = bits(raw, 10, 0xfff) as int;
        inst(add_sub_op(raw & 0x40000000 != 0, raw & 0x20000000 != 0, reg(raw, 0) == 31), raw,
            reg(raw, 0), reg(raw, 5), 0, if bits(raw, 22, 1) == 1 { imm12 * 0x1000 } else { imm12 }, 0, sf)
    } else if raw & 0x1f000000 == 0x0b000000 {
        inst(add_sub_op(raw & 0x40000000 != 0, raw & 0x20000000 != 0, reg(raw, 0) == 31), raw,
            reg(raw, 0), reg(raw, 5), reg(raw, 16), 0, bits(raw, 10, 0x3f) as u8, sf)
    } else if raw & 0x1f000000 == 0x0a000000 {
        inst(logical_op(bits(raw, 29, 0x3)), raw, reg(raw, 0), reg(raw, 5), reg(raw, 16), 0, 0, sf)
    } else if raw & 0x3b200c00 == 0x38000000 || raw & 0x3b200c00 == 0x38200000 {
        inst(ldst_op(bits(raw, 22, 1) != 0, bits(raw, 30, 0x3)), raw, reg(raw, 0), reg(raw, 5), 0,
            sign_extend(bits(raw, 12, 0x1ff) as int, 0x100), 0, bits(raw, 30, 0x3) == 3)
    } else if raw & 0x3f000000 == 0x28000000 || raw & 0x3f000000 == 0x29000000 {
        inst(if raw & 0x00400000 != 0 { Arm64Op::Ldp } else { Arm64Op::Stp }, raw, reg(raw, 0), reg(raw, 5),
            reg(raw, 10), (if sf { 8int } else { 4int }) * sign_extend(bits(raw, 15, 0x7f) as int, 0x40), 0, sf)
    } else if raw & 0xbf200400 == 0x0e200400 {
        inst(if raw & 0x00800000 != 0 { Arm64Op::Vsub } else { Arm64Op::Vadd }, raw, reg(raw, 0), reg(raw, 5),
            reg(raw, 16), 0, 0, true)
    } else {
        bare(Arm64Op::Unknown(raw), raw)
    }
}

/// Masked fields never exceed their mask.
proof fn lemma_field_bounds(raw: u32)
    by (bit_vector)
    ensures
        (raw >> 0u32) & 0x03ffffffu32 <= 0x03ffffffu32,
        (raw >> 5u32) & 0x7ffffu32 <= 0x7ffffu32,
        (raw >> 12u32) & 0x1ffu32 <= 0x1ffu32,
        (raw >> 15u32) & 0x7fu32 <= 0x7fu32,
        (raw >> 10u32) & 0xfffu32 <= 0xfffu32,
        (raw >> 21u32) & 0x3u32 <= 0x3u32,
        (raw >> 0u32) & 0xfu32 <= 0xfu32,
{
}

impl Arm64Inst {
    /// An instruction with operation `op`, no operands, 64-bit width.
    pub fn new(op: Arm64Op, raw: u32) -> (r: Arm64Inst)
        ensures
            r == bare(op, raw),
    {
        Arm64Inst { op, rd: 0, rn: 0, rm: 0, imm: 0, shift: 0, is_64bit: true, raw }
    }
}

/// Bits of `raw` from `lo` under `mask`.
fn field(raw: u32, lo: u32, mask: u32) -> (r: u32)
    requires
        lo < 32,
    ensures
        r == bits(raw, lo, mask),
{
    (raw >> lo) & mask
}

/// A register number field.
fn reg_field(raw: u32, lo: u32) -> (r: u8)
    requires
        lo < 32,
    ensures
        r == reg(raw, lo),
{
    ((raw >> lo) & 0x1f) as u8
}

/// `v` sign-extended from its top bit, `half` being the weight of that bit.
fn sign_extend_field(v: u32, half: u32) -> (r: i64)
    requires
        0 < half <= 0x0200_0000,
        v < 2 * half,
    ensures
        r == sign_extend(v as int, half as int),
{
    if v >= half {
        v as i64 - 2 * (half as i64)
    } else {
        v as i64
    }
}

/// The AArch64 decoder.
pub struct Arm64Decoder;

impl Arm64Decoder {
    /// Decodes one 32-bit AArch64 instruction word.
    pub fn decode(raw: u32) -> (r: Arm64Inst)
        ensures
            r == spec_decode(raw),
    {
        proof {
            lemma_field_bounds(raw);
        }
        let sf = raw & 0x8000_0000 != 0;
        if raw == 0xd503201f {
            return Arm64Inst::new(Arm64Op::Nop, raw);
        }
        if raw & 0xfffffc1f == 0xd65f0000 {
            let mut i = Arm64Inst::new(Arm64Op::Ret, raw);
            i.rn = reg_field(raw, 5);
            return i;
        }
        if raw & 0xffe0001f == 0xd4000001 {
            let mut i = Arm64Inst::new(Arm64Op::Svc, raw);
            i.imm = field(raw, 5, 0xffff) as i64;
            return i;
        }
        if raw & 0xffe0001f == 0xd4200000 {
            let mut i = Arm64Inst::new(Arm64Op::Brk, raw);
            i.imm = field(raw, 5, 0xffff) as i64;
            return i;
        }
        if raw == 0xd50339bf || raw & 0xfffff0ff == 0xd503309f {
            let mut i = Arm64Inst::new(Arm64Op::Dsb, raw);
            i.imm = field(raw, 8, 0xf) as i64;
            return i;
        }
        if raw & 0xfffff0ff == 0xd50330bf {
            let mut i = Arm64Inst::new(Arm64Op::Dmb, raw);
            i.imm = field(raw, 8, 0xf) as i64;
            return i;
        }
        if raw == 0xd5033fdf {
            return Arm64Inst::new(Arm64Op::Isb, raw);
        }
        if raw & 0x7c000000 == 0x14000000 {
            let off = sign_extend_field(field(raw, 0, 0x03ffffff), 0x0200_0000);
            let mut i = Arm64Inst::new(if sf { Arm64Op::Bl } else { Arm64Op::B }, raw);
            i.imm = off * 4;
            return i;
        }
        if raw & 0xff000010 == 0x54000000 {
            let cond = ConditionCode::from_u8(field(raw, 0, 0xf) as u8);
            let off = sign_extend_field(field(raw, 5, 0x7ffff), 0x40000);
            let mut i = Arm64Inst::new(Arm64Op::Bcc(cond), raw);
            i.imm = off * 4;
            return i;
        }
        if raw & 0x7e000000 == 0x34000000 {
            let off = sign_extend_field(field(raw, 5, 0x7ffff), 0x40000);
            let mut i = Arm64Inst::new(if raw & 0x01000000 != 0 { Arm64Op::Cbnz } else { Arm64Op::Cbz }, raw);
            i.rd = reg_field(raw, 0);
            i.imm = off * 4;
            i.is_64bit = sf;
            return i;
        }
        if raw & 0x7f800000 == 0x12800000 || raw & 0x7f800000 == 0x52800000 || raw & 0x7f800000 == 0x72800000 {
            let opc = field(raw, 29, 0x3);
            let op = if opc == 0 {
                Arm64Op::Movn
            } else if opc == 2 {
                Arm64Op::Movz
            } else if opc == 3 {
                Arm64Op::Movk
            } else {
                Arm64Op::Mov
            };
            let mut i = Arm64Inst::new(op, raw);
            i.rd = reg_field(raw, 0);
            i.imm = field(raw, 5, 0xffff) as i64;
            i.shift = (field(raw, 21, 0x3) * 16) as u8;
            i.is_64bit = sf;
            return i;
        }
        if raw & 0x1f000000 == 0x11000000 {
            let rd = reg_field(raw, 0);
            let op = Self::add_sub(raw & 0x40000000 != 0, raw & 0x20000000 != 0, rd == 31);
            let imm12 = field(raw, 10, 0xfff) as i64;
            let mut i = Arm64Inst::new(op, raw);
            i.rd = rd;
            i.rn = reg_field(raw, 5);
            i.imm = if field(raw, 22, 1) == 1 { imm12 * 0x1000 } else { imm12 };
            i.is_64bit = sf;
            return i;
        }
        if raw & 0x1f000000 == 0x0b000000 {
            let rd = reg_field(raw, 0);
            let op = Self::add_sub(raw & 0x40000000 != 0, raw & 0x20000000 != 0, rd == 31);
            let mut i = Arm64Inst::new(op, raw);
            i.rd = rd;
            i.rn = reg_field(raw, 5);
            i.rm = reg_field(raw, 16);
            i.shift = field(raw, 10, 0x3f) as u8;
            i.is_64bit = sf;
            return i;
        }
        if raw & 0x1f000000 == 0x0a000000 {
            let opc = field(raw, 29, 0x3);
            let op = if opc == 0 {
                Arm64Op::And
            } else if opc == 1 {
                Arm64Op::Orr
            } else if opc == 2 {
                Arm64Op::Eor
            } else {
                Arm64Op::Ands
            };
            let mut i = Arm64Inst::new(op, raw);
            i.rd = reg_field(raw, 0);
            i.rn = reg_field(raw, 5);
            i.rm = reg_field(raw, 16);
            i.is_64bit = sf;
            return i;
        }
        if raw & 0x3b200c00 == 0x38000000 || raw & 0x3b200c00 == 0x38200000 {
            let size = field(raw, 30, 0x3);
            let is_load = field(raw, 22, 1) != 0;
            let op = if size == 0 {
                if is_load { Arm64Op::Ldrb } else { Arm64Op::Strb }
            } else if size == 1 {
                if is_load { Arm64Op::Ldrh } else { Arm64Op::Strh }
            } else {
                if is_load { Arm64Op::Ldr } else { Arm64Op::Str }
            };
            let mut i = Arm64Inst::new(op, raw);
            i.rd = reg_field(raw, 0);
            i.rn = reg_field(raw, 5);
            i.imm = sign_extend_field(field(raw, 12, 0x1ff), 0x100);
            i.is_64bit = size == 3;
            return i;
        }
        if raw & 0x3f000000 == 0x28000000 || raw & 0x3f000000 == 0x29000000 {
            let scale: i64 = if sf { 8 } else { 4 };
            let off = sign_extend_field(field(raw, 15, 0x7f), 0x40);
            let mut i = Arm64Inst::new(if raw & 0x00400000 != 0 { Arm64Op::Ldp } else { Arm64Op::Stp }, raw);
            i.rd = reg_field(raw, 0);
            i.rm = reg_field(raw, 10);
            i.rn = reg_field(raw, 5);
            i.imm = scale * off;
            i.is_64bit = sf;
            return i;
        }
        if raw & 0xbf200400 == 0x0e200400 {
            let mut i = Arm64Inst::new(if raw & 0x00800000 != 0 { Arm64Op::Vsub } else { Arm64Op::Vadd }, raw);
            i.rd = reg_field(raw, 0);
            i.rn = reg_field(raw, 5);
            i.rm = reg_field(raw, 16);
            return i;
        }
        Arm64Inst::new(Arm64Op::Unknown(raw), raw)
    }

    fn add_sub(is_sub: bool, set_flags: bool, rd_is_31: bool) -> (r: Arm64Op)
        ensures
            r == add_sub_op(is_sub, set_flags, rd_is_31),
    {
        if !is_sub {
            if !set_flags { Arm64Op::Add } else if rd_is_31 { Arm64Op::Cmn } else { Arm64Op::Adds }
        } else {
            if !set_flags { Arm64Op::Sub } else if rd_is_31 { Arm64Op::Cmp } else { Arm64Op::Subs }
        }
    }
}

/// An unconditional branch or call moves by a multiple of four within 128 MiB either way.
pub proof fn lemma_branch_range(raw: u32)
    requires
        spec_decode(raw).op == Arm64Op::B || spec_decode(raw).op == Arm64Op::Bl,
    ensures
        spec_decode(raw).imm % 4 == 0,
        -0x0800_0000 <= spec_decode(raw).imm < 0x0800_0000,
{
    lemma_field_bounds(raw);
}

/// Decoding keeps the instruction word it was given.
pub proof fn lemma_decode_keeps_raw(raw: u32)
    ensures
        spec_decode(raw).raw == raw,
{
}

proof fn lemma_logical_class_is_not_earlier(raw: u32)
    by (bit_vector)
    requires
        raw & 0x1f000000 == 0x0a000000,
    ensures
        raw != 0xd503201f,
        raw & 0xfffffc1f != 0xd65f0000,
        raw & 0xffe0001f != 0xd4000001,
        raw & 0xffe0001f != 0xd4200000,
        raw != 0xd50339bf,
        raw & 0xfffff0ff != 0xd503309f,
        raw & 0xfffff0ff != 0xd50330bf,
        raw != 0xd5033fdf,
        raw & 0x7c000000 != 0x14000000,
        raw & 0xff000010 != 0x54000000,
        raw & 0x7e000000 != 0x34000000,
        raw & 0x7f800000 != 0x12800000,
        raw & 0x7f800000 != 0x52800000,
        raw & 0x7f800000 != 0x72800000,
        raw & 0x1f000000 != 0x11000000,
        raw & 0x1f000000 != 0x0b000000,
        (raw & 0x60000000 == 0x00000000) == ((raw >> 29u32) & 0x3 == 0),
        (raw & 0x60000000 == 0x20000000) == ((raw >> 29u32) & 0x3 == 1),
        (raw & 0x60000000 == 0x40000000) == ((raw >> 29u32) & 0x3 == 2),
        (raw & 0x60000000 == 0x60000000) == ((raw >> 29u32) & 0x3 == 3),
{
}

/// A logical (shifted register) word — bits 28..24 are 01010 — is AND, ORR, EOR or ANDS as
/// bits 30..29 are 00, 01, 10 or 11, with the destination in bits 4..0, the first source in
/// bits 9..5, the second in bits 20..16, and 64 bits wide when bit 31 is set.
pub proof fn lemma_decode_logical(raw: u32)
    requires
        raw & 0x1f000000 == 0x0a000000,
    ensures
        spec_decode(raw).op == (if raw & 0x60000000 == 0 {
            Arm64Op::And
        } else if raw & 0x60000000 == 0x20000000 {
            Arm64Op::Orr
        } else if raw & 0x60000000 == 0x40000000 {
            Arm64Op::Eor
        } else {
            Arm64Op::Ands
        }),
        spec_decode(raw).rd == raw & 0x1f,
        spec_decode(raw).rn == (raw >> 5u32) & 0x1f,
        spec_decode(raw).rm == (raw >> 16u32) & 0x1f,
        spec_decode(raw).is_64bit == (raw & 0x8000_0000 != 0),
{
    lemma_logical_class_is_not_earlier(raw);
    assert(raw & 0x60000000 == 0 || raw & 0x60000000 == 0x20000000 || raw & 0x60000000 == 0x40000000
        || raw & 0x60000000 == 0x60000000) by (bit_vector);
    assert((raw >> 0u32) & 0x1f == raw & 0x1f && raw & 0x1f < 32 && (raw >> 5u32) & 0x1f < 32
        && (raw >> 16u32) & 0x1f < 32) by (bit_vector);
    assert(reg(raw, 0) == raw & 0x1f);
    assert(reg(raw, 5) == (raw >> 5u32) & 0x1f);
    assert(reg(raw, 16) == (raw >> 16u32) & 0x1f);
}

/// A conditional branch word (0101 0100 in bits 31..24, bit 4 clear) branches on the
/// condition its low four bits encode, in the architecture's order (EQ, NE, CS, CC, MI, PL,
/// VS, VC, HI, LS, GE, LT, GT, LE, AL, NV), by four times its signed 19-bit field.
pub proof fn lemma_decode_conditional_branch(raw: u32)
    requires
        raw & 0xff000010 == 0x54000000,
    ensures
        spec_decode(raw).op == Arm64Op::Bcc(seq![ConditionCode::EQ, ConditionCode::NE, ConditionCode::CS,
            ConditionCode::CC, ConditionCode::MI, ConditionCode::PL, ConditionCode::VS, ConditionCode::VC,
            ConditionCode::HI, ConditionCode::LS, ConditionCode::GE, ConditionCode::LT, ConditionCode::GT,
            ConditionCode::LE, ConditionCode::AL, ConditionCode::NV][(raw & 0xf) as int]),
        spec_decode(raw).imm == 4 * (if (raw >> 5u32) & 0x7ffff >= 0x40000 {
            ((raw >> 5u32) & 0x7ffff) - 0x80000
        } else {
            ((raw >> 5u32) & 0x7ffff) as int
        }),
{
    assert(raw != 0xd503201f && raw & 0xfffffc1f != 0xd65f0000 && raw & 0xffe0001f != 0xd4000001
        && raw & 0xffe0001f != 0xd4200000 && raw != 0xd50339bf && raw & 0xfffff0ff != 0xd503309f
        && raw & 0xfffff0ff != 0xd50330bf && raw != 0xd5033fdf && raw & 0x7c000000 != 0x14000000
        && (raw >> 0u32) & 0xf == raw & 0xf && raw & 0xf < 16 && (raw >> 5u32) & 0x7ffff < 0x80000) by (bit_vector)
        requires
            raw & 0xff000010 == 0x54000000,
    ;
}

/// A move-wide word is MOVN, MOVZ or MOVK as bits 30..29 are 00, 10 or 11, moving the 16-bit
/// field in bits 20..5 to the half-word bits 22..21 select, into the register in bits 4..0.
pub proof fn lemma_decode_move_wide(raw: u32)
    requires
        raw & 0x7f800000 == 0x12800000 || raw & 0x7f800000 == 0x52800000 || raw & 0x7f800000 == 0x72800000,
    ensures
        spec_decode(raw).op == (if raw & 0x60000000 == 0 {
            Arm64Op::Movn
        } else if raw & 0x60000000 == 0x40000000 {
            Arm64Op::Movz
        } else {
            Arm64Op::Movk
        }),
        spec_decode(raw).imm == (raw >> 5u32) & 0xffff,
        spec_decode(raw).shift == 16 * ((raw >> 21u32) & 0x3),
        spec_decode(raw).rd == raw & 0x1f,
{
    assert(raw != 0xd503201f && raw & 0xfffffc1f != 0xd65f0000 && raw & 0xffe0001f != 0xd4000001
        && raw & 0xffe0001f != 0xd4200000 && raw != 0xd50339bf && raw & 0xfffff0ff != 0xd503309f
        && raw & 0xfffff0ff != 0xd50330bf && raw != 0xd5033fdf && raw & 0x7c000000 != 0x14000000
        && raw & 0xff000010 != 0x54000000 && raw & 0x7e000000 != 0x34000000
        && (raw & 0x60000000 == 0) == ((raw >> 29u32) & 0x3 == 0)
        && (raw & 0x60000000 == 0x40000000) == ((raw >> 29u32) & 0x3 == 2)
        && (raw & 0x60000000 == 0x60000000) == ((raw >> 29u32) & 0x3 == 3)
        && (raw & 0x60000000 != 0x20000000)
        && (raw & 0x60000000 == 0 || raw & 0x60000000 == 0x40000000 || raw & 0x60000000 == 0x60000000)
        && (raw >> 0u32) & 0x1f == raw & 0x1f && raw & 0x1f < 32
        && (raw >> 21u32) & 0x3 < 4 && (raw >> 5u32) & 0xffff < 0x10000) by (bit_vector)
        requires
            raw & 0x7f800000 == 0x12800000 || raw & 0x7f800000 == 0x52800000 || raw & 0x7f800000 == 0x72800000,
    ;
}

/// An add/subtract (immediate) word — bits 28..24 are 10001 — adds when bit 30 is clear and
/// subtracts when it is set; with bit 29 (set flags) it is ADDS/SUBS, or CMN/CMP when the
/// destination is register 31. The immediate is bits 21..10, shifted left by 12 when bit 22
/// is set.
pub proof fn lemma_decode_add_sub_immediate(raw: u32)
    requires
        raw & 0x1f000000 == 0x11000000,
    ensures
        spec_decode(raw).op == (if raw & 0x40000000 == 0 {
            if raw & 0x20000000 == 0 { Arm64Op::Add } else if raw & 0x1f == 0x1f { Arm64Op::Cmn } else { Arm64Op::Adds }
        } else {
            if raw & 0x20000000 == 0 { Arm64Op::Sub } else if raw & 0x1f == 0x1f { Arm64Op::Cmp } else { Arm64Op::Subs }
        }),
        spec_decode(raw).imm == (if raw & 0x00400000 != 0 { ((raw >> 10u32) & 0xfff) * 0x1000 } else { ((raw >> 10u32) & 0xfff) as int }),
        spec_decode(raw).rd == raw & 0x1f,
        spec_decode(raw).rn == (raw >> 5u32) & 0x1f,
{
    assert(raw != 0xd503201f && raw & 0xfffffc1f != 0xd65f0000 && raw & 0xffe0001f != 0xd4000001
        && raw & 0xffe0001f != 0xd4200000 && raw != 0xd50339bf && raw & 0xfffff0ff != 0xd503309f
        && raw & 0xfffff0ff != 0xd50330bf && raw != 0xd5033fdf && raw & 0x7c000000 != 0x14000000
        && raw & 0xff000010 != 0x54000000 && raw & 0x7e000000 != 0x34000000
        && raw & 0x7f800000 != 0x12800000 && raw & 0x7f800000 != 0x52800000 && raw & 0x7f800000 != 0x72800000
        && (raw >> 0u32) & 0x1f == raw & 0x1f && raw & 0x1f < 32 && (raw >> 5u32) & 0x1f < 32
        && ((raw >> 22u32) & 1 == 1) == (raw & 0x00400000 != 0)
        && (raw >> 10u32) & 0xfff < 0x1000) by (bit_vector)
        requires
            raw & 0x1f000000 == 0x11000000,
    ;
}

/// An unconditional immediate branch word (bits 30..26 are 00101) is B, or BL when bit 31 is
/// set, by four times its signed 26-bit field.
pub proof fn lemma_decode_branch(raw: u32)
    requires
        raw & 0x7c000000 == 0x14000000,
    ensures
        spec_decode(raw).op == (if raw & 0x8000_0000 != 0 { Arm64Op::Bl } else { Arm64Op::B }),
        spec_decode(raw).imm == 4 * (if raw & 0x03ffffff >= 0x0200_0000 {
            (raw & 0x03ffffff) - 0x0400_0000
        } else {
            (raw & 0x03ffffff) as int
        }),
{
    assert(raw != 0xd503201f && raw & 0xfffffc1f != 0xd65f0000 && raw & 0xffe0001f != 0xd4000001
        && raw & 0xffe0001f != 0xd4200000 && raw != 0xd50339bf && raw & 0xfffff0ff != 0xd503309f
        && raw & 0xfffff0ff != 0xd50330bf && raw != 0xd5033fdf
        && (raw >> 0u32) & 0x03ffffff == raw & 0x03ffffff) by (bit_vector)
        requires
            raw & 0x7c000000 == 0x14000000,
    ;
}

/// A compare-and-branch word (bits 30..25 are 011010) is CBZ, or CBNZ when bit 24 is set, on
/// the register in bits 4..0, by four times its signed 19-bit field.
pub proof fn lemma_decode_compare_branch(raw: u32)
    requires
        raw & 0x7e000000 == 0x34000000,
    ensures
        spec_decode(raw).op == (if raw & 0x01000000 != 0 { Arm64Op::Cbnz } else { Arm64Op::Cbz }),
        spec_decode(raw).rd == raw & 0x1f,
        spec_decode(raw).imm == 4 * (if (raw >> 5u32) & 0x7ffff >= 0x40000 {
            ((raw >> 5u32) & 0x7ffff) - 0x80000
        } else {
            ((raw >> 5u32) & 0x7ffff) as int
        }),
        spec_decode(raw).is_64bit == (raw & 0x8000_0000 != 0),
{
    assert(raw != 0xd503201f && raw & 0xfffffc1f != 0xd65f0000 && raw & 0xffe0001f != 0xd4000001
        && raw & 0xffe0001f != 0xd4200000 && raw != 0xd50339bf && raw & 0xfffff0ff != 0xd503309f
        && raw & 0xfffff0ff != 0xd50330bf && raw != 0xd5033fdf && raw & 0x7c000000 != 0x14000000
        && raw & 0xff000010 != 0x54000000
        && (raw >> 0u32) & 0x1f == raw & 0x1f && raw & 0x1f < 32 && (raw >> 5u32) & 0x7ffff < 0x80000) by (bit_vector)
        requires
            raw & 0x7e000000 == 0x34000000,
    ;
}

/// An add/subtract (shifted register) word — bits 28..24 are 01011 — adds when bit 30 is clear
/// and subtracts when it is set; with bit 29 it is ADDS/SUBS, or CMN/CMP when the destination
/// is register 31; the sources are the registers in bits 9..5 and 20..16.
pub proof fn lemma_decode_add_sub_register(raw: u32)
    requires
        raw & 0x1f000000 == 0x0b000000,
    ensures
        spec_decode(raw).op == (if raw & 0x40000000 == 0 {
            if raw & 0x20000000 == 0 { Arm64Op::Add } else if raw & 0x1f == 0x1f { Arm64Op::Cmn } else { Arm64Op::Adds }
        } else {
            if raw & 0x20000000 == 0 { Arm64Op::Sub } else if raw & 0x1f == 0x1f { Arm64Op::Cmp } else { Arm64Op::Subs }
        }),
        spec_decode(raw).rd == raw & 0x1f,
        spec_decode(raw).rn == (raw >> 5u32) & 0x1f,
        spec_decode(raw).rm == (raw >> 16u32) & 0x1f,
{
    assert(raw != 0xd503201f && raw & 0xfffffc1f != 0xd65f0000 && raw & 0xffe0001f != 0xd4000001
        && raw & 0xffe0001f != 0xd4200000 && raw != 0xd50339bf && raw & 0xfffff0ff != 0xd503309f
        && raw & 0xfffff0ff != 0xd50330bf && raw != 0xd5033fdf && raw & 0x7c000000 != 0x14000000
        && raw & 0xff000010 != 0x54000000 && raw & 0x7e000000 != 0x34000000
        && raw & 0x7f800000 != 0x12800000 && raw & 0x7f800000 != 0x52800000 && raw & 0x7f800000 != 0x72800000
        && raw & 0x1f000000 != 0x11000000
        && (raw >> 0u32) & 0x1f == raw & 0x1f && raw & 0x1f < 32 && (raw >> 5u32) & 0x1f < 32
        && (raw >> 16u32) & 0x1f < 32) by (bit_vector)
        requires
            raw & 0x1f000000 == 0x0b000000,
    ;
}

/// A load/store (immediate, unscaled or pre/post-indexed) word loads when bit 22 is set and
/// stores otherwise; bits 31..30 give the size: a byte (LDRB/STRB), a half-word (LDRH/STRH),
/// else a word or double word (LDR/STR, 64 bits when both are set). The offset is the signed
/// 9-bit field in bits 20..12.
pub proof fn lemma_decode_load_store(raw: u32)
    requires
        raw & 0x3b200c00 == 0x38000000 || raw & 0x3b200c00 == 0x38200000,
    ensures
        spec_decode(raw).op == (if raw & 0x00400000 != 0 {
            if raw & 0xc0000000 == 0 { Arm64Op::Ldrb } else if raw & 0xc0000000 == 0x40000000 { Arm64Op::Ldrh } else { Arm64Op::Ldr }
        } else {
            if raw & 0xc0000000 == 0 { Arm64Op::Strb } else if raw & 0xc0000000 == 0x40000000 { Arm64Op::Strh } else { Arm64Op::Str }
        }),
        spec_decode(raw).is_64bit == (raw & 0xc0000000 == 0xc0000000),
        spec_decode(raw).imm == (if (raw >> 12u32) & 0x1ff >= 0x100 {
            ((raw >> 12u32) & 0x1ff) - 0x200
        } else {
            ((raw >> 12u32) & 0x1ff) as int
        }),
        spec_decode(raw).rd == raw & 0x1f,
        spec_decode(raw).rn == (raw >> 5u32) & 0x1f,
{
    assert(raw != 0xd503201f && raw & 0xfffffc1f != 0xd65f0000 && raw & 0xffe0001f != 0xd4000001
        && raw & 0xffe0001f != 0xd4200000 && raw != 0xd50339bf && raw & 0xfffff0ff != 0xd503309f
        && raw & 0xfffff0ff != 0xd50330bf && raw != 0xd5033fdf && raw & 0x7c000000 != 0x14000000
        && raw & 0xff000010 != 0x54000000 && raw & 0x7e000000 != 0x34000000
        && raw & 0x7f800000 != 0x12800000 && raw & 0x7f800000 != 0x52800000 && raw & 0x7f800000 != 0x72800000
        && raw & 0x1f000000 != 0x11000000 && raw & 0x1f000000 != 0x0b000000 && raw & 0x1f000000 != 0x0a000000
        && ((raw >> 22u32) & 1 != 0) == (raw & 0x00400000 != 0)
        && ((raw >> 30u32) & 0x3 == 0) == (raw & 0xc0000000 == 0)
        && ((raw >> 30u32) & 0x3 == 1) == (raw & 0xc0000000 == 0x40000000)
        && ((raw >> 30u32) & 0x3 == 3) == (raw & 0xc0000000 == 0xc0000000)
        && (raw >> 0u32) & 0x1f == raw & 0x1f && raw & 0x1f < 32 && (raw >> 5u32) & 0x1f < 32
        && (raw >> 12u32) & 0x1ff < 0x200) by (bit_vector)
        requires
            raw & 0x3b200c00 == 0x38000000 || raw & 0x3b200c00 == 0x38200000,
    ;
}

/// The fixed system words: 0xd503201f is NOP; RET returns through the register in bits
/// 9..5; SVC and BRK carry the 16-bit immediate in bits 20..5; 0xd5033fdf is ISB.
pub proof fn lemma_decode_system(raw: u32)
    ensures
        raw == 0xd503201f ==> spec_decode(raw).op == Arm64Op::Nop,
        raw & 0xfffffc1f == 0xd65f0000 ==> spec_decode(raw).op == Arm64Op::Ret
            && spec_decode(raw).rn == (raw >> 5u32) & 0x1f,
        raw & 0xffe0001f == 0xd4000001 ==> spec_decode(raw).op == Arm64Op::Svc
            && spec_decode(raw).imm == (raw >> 5u32) & 0xffff,
        raw & 0xffe0001f == 0xd4200000 ==> spec_decode(raw).op == Arm64Op::Brk
            && spec_decode(raw).imm == (raw >> 5u32) & 0xffff,
        raw == 0xd5033fdf ==> spec_decode(raw).op == Arm64Op::Isb,
{
    assert((raw & 0xfffffc1f == 0xd65f0000 ==> raw != 0xd503201f && (raw >> 5u32) & 0x1f < 32)
        && (raw & 0xffe0001f == 0xd4000001 ==> raw != 0xd503201f && raw & 0xfffffc1f != 0xd65f0000)
        && (raw & 0xffe0001f == 0xd4200000 ==> raw != 0xd503201f && raw & 0xfffffc1f != 0xd65f0000
            && raw & 0xffe0001f != 0xd4000001)
        && (raw == 0xd5033fdf ==> raw & 0xfffffc1f != 0xd65f0000 && raw & 0xffe0001f != 0xd4000001
            && raw & 0xffe0001f != 0xd4200000 && raw & 0xfffff0ff != 0xd503309f
            && raw & 0xfffff0ff != 0xd50330bf)) by (bit_vector);
}

/// A load/store pair word (bits 29..24 are 101000 or 101001) is LDP when bit 22 is set and
/// STP otherwise, on the registers in bits 4..0 and 14..10 at the base in bits 9..5, offset by
/// the signed 7-bit field in bits 21..15 scaled by the register size (8 bytes when bit 31 is
/// set, else 4).
pub proof fn lemma_decode_pair(raw: u32)
    requires
        raw & 0x3f000000 == 0x28000000 || raw & 0x3f000000 == 0x29000000,
    ensures
        spec_decode(raw).op == (if raw & 0x00400000 != 0 { Arm64Op::Ldp } else { Arm64Op::Stp }),
        spec_decode(raw).rd == raw & 0x1f,
        spec_decode(raw).rn == (raw >> 5u32) & 0x1f,
        spec_decode(raw).rm == (raw >> 10u32) & 0x1f,
        spec_decode(raw).imm == (if raw & 0x8000_0000 != 0 { 8int } else { 4int }) * (
            if (raw >> 15u32) & 0x7f >= 0x40 { ((raw >> 15u32) & 0x7f) - 0x80 } else { ((raw >> 15u32) & 0x7f) as int }),
        spec_decode(raw).is_64bit == (raw & 0x8000_0000 != 0),
{
    assert(raw != 0xd503201f && raw & 0xfffffc1f != 0xd65f0000 && raw & 0xffe0001f != 0xd4000001
        && raw & 0xffe0001f != 0xd4200000 && raw != 0xd50339bf && raw & 0xfffff0ff != 0xd503309f
        && raw & 0xfffff0ff != 0xd50330bf && raw != 0xd5033fdf && raw & 0x7c000000 != 0x14000000
        && raw & 0xff000010 != 0x54000000 && raw & 0x7e000000 != 0x34000000
        && raw & 0x7f800000 != 0x12800000 && raw & 0x7f800000 != 0x52800000 && raw & 0x7f800000 != 0x72800000
        && raw & 0x1f000000 != 0x11000000 && raw & 0x1f000000 != 0x0b000000 && raw & 0x1f000000 != 0x0a000000
        && raw & 0x3b200c00 != 0x38000000 && raw & 0x3b200c00 != 0x38200000
        && (raw >> 0u32) & 0x1f == raw & 0x1f && raw & 0x1f < 32 && (raw >> 5u32) & 0x1f < 32
        && (raw >> 10u32) & 0x1f < 32 && (raw >> 15u32) & 0x7f < 0x80) by (bit_vector)
        requires
            raw & 0x3f000000 == 0x28000000 || raw & 0x3f000000 == 0x29000000,
    ;
}

/// Barriers: DSB (0xd503309f with bits 11..8 free, or 0xd50339bf) and any other word of
/// the form 0xd50330bf with bits 11..8 free, which is DMB; both carry the option in bits
/// 11..8.
pub proof fn lemma_decode_barriers(raw: u32)
    ensures
        raw & 0xfffff0ff == 0xd503309f || raw == 0xd50339bf ==> spec_decode(raw).op == Arm64Op::Dsb
            && spec_decode(raw).imm == (raw >> 8u32) & 0xf,
        raw & 0xfffff0ff == 0xd50330bf && raw != 0xd50339bf ==> spec_decode(raw).op == Arm64Op::Dmb
            && spec_decode(raw).imm == (raw >> 8u32) & 0xf,
{
    assert(raw & 0xfffff0ff == 0xd50330bf ==> raw != 0xd503201f && raw & 0xfffffc1f != 0xd65f0000
        && raw & 0xffe0001f != 0xd4000001 && raw & 0xffe0001f != 0xd4200000
        && raw & 0xfffff0ff != 0xd503309f) by (bit_vector);
    assert((raw & 0xfffff0ff == 0xd503309f || raw == 0xd50339bf) ==> raw != 0xd503201f
        && raw & 0xfffffc1f != 0xd65f0000 && raw & 0xffe0001f != 0xd4000001 && raw & 0xffe0001f != 0xd4200000)
        by (bit_vector);
}

/// A vector add/subtract word (mask 0xbf200400 gives 0x0e200400) is VSUB when bit 23 is set
/// and VADD otherwise, on the vector registers in bits 4..0, 9..5 and 20..16.
pub proof fn lemma_decode_vector(raw: u32)
    requires
        raw & 0xbf200400 == 0x0e200400,
    ensures
        spec_decode(raw).op == (if raw & 0x00800000 != 0 { Arm64Op::Vsub } else { Arm64Op::Vadd }),
        spec_decode(raw).rd == raw & 0x1f,
        spec_decode(raw).rn == (raw >> 5u32) & 0x1f,
        spec_decode(raw).rm == (raw >> 16u32) & 0x1f,
{
    assert(raw != 0xd503201f && raw & 0xfffffc1f != 0xd65f0000 && raw & 0xffe0001f != 0xd4000001
        && raw & 0xffe0001f != 0xd4200000 && raw != 0xd50339bf && raw & 0xfffff0ff != 0xd503309f
        && raw & 0xfffff0ff != 0xd50330bf && raw != 0xd5033fdf && raw & 0x7c000000 != 0x14000000
        && raw & 0xff000010 != 0x54000000 && raw & 0x7e000000 != 0x34000000
        && raw & 0x7f800000 != 0x12800000 && raw & 0x7f800000 != 0x52800000 && raw & 0x7f800000 != 0x72800000
        && raw & 0x1f000000 != 0x11000000 && raw & 0x1f000000 != 0x0b000000 && raw & 0x1f000000 != 0x0a000000
        && raw & 0x3b200c00 != 0x38000000 && raw & 0x3b200c00 != 0x38200000
        && raw & 0x3f000000 != 0x28000000 && raw & 0x3f000000 != 0x29000000
        && (raw >> 0u32) & 0x1f == raw & 0x1f && raw & 0x1f < 32 && (raw >> 5u32) & 0x1f < 32
        && (raw >> 16u32) & 0x1f < 32) by (bit_vector)
        requires
            raw & 0xbf200400 == 0x0e200400,
    ;
}

} // verus!
