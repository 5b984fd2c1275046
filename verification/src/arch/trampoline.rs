use vstd::prelude::*;
use crate::memory::mmap::{MemoryError, MemoryRegion, ProtFlags};
use crate::wire::{bytes32, bytes64, push_u32, push_u64};

verus! {

/// `stp x29, x30, [sp, #-16]!`
pub const STP_X29_X30_PRE_INDEX_16: u32 = 0xa9bf7bfd;
/// `ldr x16, #20`
pub const LDR_X16_LITERAL_20: u32 = 0x580000b0;
/// `blr x16`
pub const BLR_X16: u32 = 0xd63f0200;
/// `ldp x29, x30, [sp], #16`
pub const LDP_X29_X30_POST_INDEX_16: u32 = 0xa8c17bfd;
/// `ret`
pub const RET: u32 = 0xd65f03c0;
/// `nop`, padding the literal to an 8-byte boundary.
pub const NOP: u32 = 0xd503201f;

/// The trampoline's code: save the frame, call the handler whose address sits in the
/// literal after the code, restore the frame and return.
pub open spec fn trampoline_code(handler: u64) -> Seq<u8> {
    bytes32(STP_X29_X30_PRE_INDEX_16 as int) + bytes32(LDR_X16_LITERAL_20 as int) + bytes32(BLR_X16 as int)
        + bytes32(LDP_X29_X30_POST_INDEX_16 as int) + bytes32(RET as int) + bytes32(NOP as int)
        + bytes64(handler as int)
}

/// A guest-callable stub that forwards to a host handler.
#[derive(Debug)]
pub struct Arm64ContextTrampoline {
    region: MemoryRegion,
    code_len: usize,
}

impl Arm64ContextTrampoline {
    pub closed spec fn spec_region(&self) -> MemoryRegion {
        self.region
    }

    pub closed spec fn spec_code_len(&self) -> usize {
        self.code_len
    }

    /// The 32 bytes of the trampoline for `handler`.
    pub fn machine_code(handler: usize) -> (r: Vec<u8>)
        ensures
            r@ == trampoline_code(handler as u64),
            r@.len() == 32,
    {
        let mut code: Vec<u8> = Vec::with_capacity(32);
        push_u32(&mut code, STP_X29_X30_PRE_INDEX_16);
        push_u32(&mut code, LDR_X16_LITERAL_20);
        push_u32(&mut code, BLR_X16);
        push_u32(&mut code, LDP_X29_X30_POST_INDEX_16);
        push_u32(&mut code, RET);
        push_u32(&mut code, NOP);
        push_u64(&mut code, handler as u64);
        code
    }

    /// Places the trampoline for `handler` in a fresh region, then makes it read-only and
    /// executable.
    pub fn emit_address(handler: usize) -> (r: Result<Arm64ContextTrampoline, MemoryError>)
        ensures
            r matches Ok(t) && {
                &&& t.spec_code_len() == 32
                &&& t.spec_region().inv()
                &&& t.spec_region().spec_prot().0 == 5
                &&& t.spec_region().contents().subrange(0, 32) == trampoline_code(handler as u64)
            },
    {
        let code = Self::machine_code(handler);
        assert(crate::memory::page::round_up_16k(32) == 0x4000);
        assert(crate::memory::mmap::spec_allocation(32) == Ok::<int, MemoryError>(0x4000));
        let mut region = match MemoryRegion::allocate_16k(code.len(), ProtFlags::read_write()) {
            Ok(r) => r,
            Err(e) => return Err(e),
        };
        assert(region.spec_len() == 0x4000);
        assert(region.spec_prot().0 & 2 != 0);
        let w = region.write_at(0, code.as_slice());
        proof {
            assert(w is Ok);
            assert(region.contents().subrange(0, 32) =~= code@);
        }
        let p = region.protect(ProtFlags::read_exec());
        Ok(Arm64ContextTrampoline { region, code_len: code.len() })
    }

    /// The guest address of the trampoline's first instruction.
    pub fn as_ptr(&self) -> (r: usize)
        ensures
            r == self.spec_region().spec_base(),
    {
        self.region.as_ptr()
    }

    pub fn code_len(&self) -> (r: usize)
        ensures
            r == self.spec_code_len(),
    {
        self.code_len
    }

    pub fn protection(&self) -> (r: ProtFlags)
        ensures
            r == self.spec_region().spec_prot(),
    {
        self.region.prot()
    }
}

} // verus!
