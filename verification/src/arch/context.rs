use vstd::prelude::*;

verus! {

/// The AArch64 register file of a guest thread.
#[derive(Clone, Copy, PartialEq, Eq)]
pub struct Arm64CpuContext {
    pub regs: [u64; 31],
    pub sp: u64,
    pub pc: u64,
    pub pstate: u64,
    pub vregs: [[u8; 16]; 32],
}

/// Bit `b` of `x`.
pub open spec fn bit(x: u64, b: u64) -> bool {
    x & (1u64 << b) != 0
}

/// The condition flags occupy bits 28..31 of PSTATE: V, C, Z, N.
pub open spec fn flags_mask() -> u64 {
    0xf000_0000u64
}

/// PSTATE with the four condition flags replaced.
pub open spec fn with_flags(p: u64, n: bool, z: bool, c: bool, v: bool) -> u64 {
    (p & !(0xfu64 << 28u64)) | ((if n { 1u64 << 31u64 } else { 0u64 }) | (if z { 1u64 << 30u64 } else { 0u64 })
        | (if c { 1u64 << 29u64 } else { 0u64 }) | (if v { 1u64 << 28u64 } else { 0u64 }))
}

/// The integer registers and special registers of a context.
pub struct CpuView {
    pub regs: Seq<u64>,
    pub sp: u64,
    pub pc: u64,
    pub pstate: u64,
}

impl View for Arm64CpuContext {
    type V = CpuView;

    open spec fn view(&self) -> CpuView {
        CpuView { regs: self.regs@, sp: self.sp, pc: self.pc, pstate: self.pstate }
    }
}

impl Arm64CpuContext {
    pub open spec fn spec_flag_n(&self) -> bool {
        bit(self.pstate, 31)
    }

    pub open spec fn spec_flag_z(&self) -> bool {
        bit(self.pstate, 30)
    }

    pub open spec fn spec_flag_c(&self) -> bool {
        bit(self.pstate, 29)
    }

    pub open spec fn spec_flag_v(&self) -> bool {
        bit(self.pstate, 28)
    }

    /// A context with every register zero.
    pub fn new() -> (r: Arm64CpuContext)
        ensures
            forall|i: int| 0 <= i < 31 ==> r.regs[i] == 0,
            forall|i: int, j: int| 0 <= i < 32 && 0 <= j < 16 ==> r.vregs[i][j] == 0,
            r.sp == 0,
            r.pc == 0,
            r.pstate == 0,
    {
        Arm64CpuContext { regs: [0u64; 31], sp: 0, pc: 0, pstate: 0, vregs: [[0u8; 16]; 32] }
    }

    /// Argument register `index` (x0..x7); zero past the eighth.
    pub fn get_arg(&self, index: usize) -> (r: u64)
        ensures
            r == (if index < 8 { self.regs[index as int] } else { 0 }),
    {
        if index < 8 {
            self.regs[index]
        } else {
            0
        }
    }

    /// Sets argument register `index`; indices past the eighth are ignored.
    pub fn set_arg(&mut self, index: usize, val: u64)
        ensures
            index < 8 ==> final(self).regs@ == old(self).regs@.update(index as int, val),
            index >= 8 ==> final(self).regs@ == old(self).regs@,
            final(self).sp == old(self).sp,
            final(self).pc == old(self).pc,
            final(self).pstate == old(self).pstate,
            final(self).vregs == old(self).vregs,
    {
        if index < 8 {
            self.regs[index] = val;
        }
    }

    pub fn get_return(&self) -> (r: u64)
        ensures
            r == self.regs[0],
    {
        self.regs[0]
    }

    pub fn set_return(&mut self, val: u64)
        ensures
            final(self).regs@ == old(self).regs@.update(0, val),
            final(self).sp == old(self).sp,
            final(self).pc == old(self).pc,
            final(self).pstate == old(self).pstate,
            final(self).vregs == old(self).vregs,
    {
        self.regs[0] = val;
    }

    pub fn get_return_secondary(&self) -> (r: u64)
        ensures
            r == self.regs[1],
    {
        self.regs[1]
    }

    pub fn set_return_secondary(&mut self, val: u64)
        ensures
            final(self).regs@ == old(self).regs@.update(1, val),
            final(self).sp == old(self).sp,
            final(self).pc == old(self).pc,
            final(self).pstate == old(self).pstate,
            final(self).vregs == old(self).vregs,
    {
        self.regs[1] = val;
    }

    /// The link register, x30.
    pub fn lr(&self) -> (r: u64)
        ensures
            r == self.regs[30],
    {
        self.regs[30]
    }

    pub fn set_lr(&mut self, val: u64)
        ensures
            final(self).regs@ == old(self).regs@.update(30, val),
            final(self).sp == old(self).sp,
            final(self).pc == old(self).pc,
            final(self).pstate == old(self).pstate,
            final(self).vregs == old(self).vregs,
    {
        self.regs[30] = val;
    }

    /// The frame pointer, x29.
    pub fn fp(&self) -> (r: u64)
        ensures
            r == self.regs[29],
    {
        self.regs[29]
    }

    pub fn set_fp(&mut self, val: u64)
        ensures
            final(self).regs@ == old(self).regs@.update(29, val),
            final(self).sp == old(self).sp,
            final(self).pc == old(self).pc,
            final(self).pstate == old(self).pstate,
            final(self).vregs == old(self).vregs,
    {
        self.regs[29] = val;
    }

    pub fn flag_n(&self) -> (r: bool)
        ensures
            r == self.spec_flag_n(),
    {
        (self.pstate & (1u64 << 31u64)) != 0
    }

    pub fn flag_z(&self) -> (r: bool)
        ensures
            r == self.spec_flag_z(),
    {
        (self.pstate & (1u64 << 30u64)) != 0
    }

    pub fn flag_c(&self) -> (r: bool)
        ensures
            r == self.spec_flag_c(),
    {
        (self.pstate & (1u64 << 29u64)) != 0
    }

    pub fn flag_v(&self) -> (r: bool)
        ensures
            r == self.spec_flag_v(),
    {
        (self.pstate & (1u64 << 28u64)) != 0
    }

    /// Replaces the four condition flags, keeping every other PSTATE bit.
    pub fn set_flags(&mut self, n: bool, z: bool, c: bool, v: bool)
        ensures
            final(self).spec_flag_n() == n,
            final(self).spec_flag_z() == z,
            final(self).spec_flag_c() == c,
            final(self).spec_flag_v() == v,
            final(self).pstate == with_flags(old(self).pstate, n, z, c, v),
            final(self).pstate & !flags_mask() == old(self).pstate & !flags_mask(),
            final(self).regs == old(self).regs,
            final(self).sp == old(self).sp,
            final(self).pc == old(self).pc,
            final(self).vregs == old(self).vregs,
    {
        let mask: u64 = (if n { 1u64 << 31u64 } else { 0u64 }) | (if z { 1u64 << 30u64 } else { 0u64 })
            | (if c { 1u64 << 29u64 } else { 0u64 }) | (if v { 1u64 << 28u64 } else { 0u64 });
        let p = self.pstate;
        proof {
            lemma_flag_bits(p, n, z, c, v, mask);
        }
        self.pstate = (p & !(0xfu64 << 28u64)) | mask;
    }
}

proof fn lemma_flag_bits(p: u64, n: bool, z: bool, c: bool, v: bool, mask: u64)
    by (bit_vector)
    requires
        mask == ((if n { 1u64 << 31u64 } else { 0u64 }) | (if z { 1u64 << 30u64 } else { 0u64 })
            | (if c { 1u64 << 29u64 } else { 0u64 }) | (if v { 1u64 << 28u64 } else { 0u64 })),
    ensures
        ({
            let q = (p & !(0xfu64 << 28u64)) | mask;
            &&& bit(q, 31) == n
            &&& bit(q, 30) == z
            &&& bit(q, 29) == c
            &&& bit(q, 28) == v
            &&& q & !flags_mask() == p & !flags_mask()
        }),
{
}

} // verus!
