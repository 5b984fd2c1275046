//! 16 KiB page masking and alignment.
//!
//! Android 15+ supports 16 KiB pages (`0x4000` bytes). Every ELF segment, virtual memory
//! allocation and boundary check in LAR follows 16 KiB alignment on every host.
use vstd::prelude::*;

verus! {

/// Standard 16KB page size in bytes (0x4000 = 16384).
pub const PAGE_SIZE_16K: usize = 0x4000;

/// Standard 4KB page size in bytes (0x1000 = 4096).
pub const PAGE_SIZE_4K: usize = 0x1000;

/// Bitmask for the offset inside a 16KB page (0x3FFF).
pub const PAGE_OFFSET_MASK_16K: usize = 0x3fff;

/// Bitmask for 16KB page boundary alignment (!0x3FFF).
pub const PAGE_MASK_16K: usize = !0x3fffusize;

/// The smallest multiple of 16 KiB that is not below `addr`.
pub open spec fn round_up_16k(addr: int) -> int {
    ((addr + 0x3fff) / 0x4000) * 0x4000
}

/// The largest multiple of 16 KiB that is not above `addr`.
pub open spec fn round_down_16k(addr: int) -> int {
    (addr / 0x4000) * 0x4000
}

/// Number of 16 KiB pages touched by the byte range `[offset, offset + len)`.
pub open spec fn pages_spanned_16k(offset: int, len: int) -> int {
    if len == 0 {
        0
    } else {
        (round_up_16k(offset + len) - round_down_16k(offset)) / 0x4000
    }
}

proof fn lemma_16k_masks(a: usize)
    ensures
        a & 0x3fff == a % 0x4000,
        a & !0x3fffusize == a - a % 0x4000,
{
    assert(a & 0x3fff == a % 0x4000) by (bit_vector);
    assert(a & !0x3fffusize == a - (a & 0x3fff)) by (bit_vector);
}

/// Checks if an address or size is aligned to a given power-of-two alignment.
pub fn is_aligned(addr: usize, align: usize) -> (r: bool)
    ensures
        r == (align != 0 && addr & ((align - 1) as usize) == 0),
{
    if align == 0 {
        return false;
    }
    (addr & (align - 1)) == 0
}

/// Checks if an address or size is aligned to a 16KB boundary.
pub fn is_16k_aligned(addr: usize) -> (r: bool)
    ensures
        r == (addr % 0x4000 == 0),
{
    proof {
        lemma_16k_masks(addr);
    }
    (addr & PAGE_OFFSET_MASK_16K) == 0
}

/// Aligns an address or size up to the next multiple of `align` (a power of two).
pub fn align_up(addr: usize, align: usize) -> (r: usize)
    requires
        align == 0 || addr + align - 1 <= usize::MAX,
    ensures
        align == 0 ==> r == addr,
        align != 0 ==> r == (((addr + (align - 1)) as usize) & !((align - 1) as usize)),
{
    if align == 0 {
        return addr;
    }
    (addr + (align - 1)) & !(align - 1)
}

/// Aligns an address or size down to the nearest multiple of `align` (a power of two).
pub fn align_down(addr: usize, align: usize) -> (r: usize)
    ensures
        align == 0 ==> r == addr,
        align != 0 ==> r == (addr & !((align - 1) as usize)),
{
    if align == 0 {
        return addr;
    }
    addr & !(align - 1)
}

/// Aligns an address up to the next 16KB page boundary.
pub fn align_up_16k(addr: usize) -> (r: usize)
    requires
        addr + 0x3fff <= usize::MAX,
    ensures
        r == round_up_16k(addr as int),
{
    let s = addr + PAGE_OFFSET_MASK_16K;
    proof {
        lemma_16k_masks(s);
    }
    s & PAGE_MASK_16K
}

/// Aligns an address down to the nearest 16KB page boundary.
pub fn align_down_16k(addr: usize) -> (r: usize)
    ensures
        r == round_down_16k(addr as int),
{
    proof {
        lemma_16k_masks(addr);
    }
    addr & PAGE_MASK_16K
}

/// Calculates the offset within a 16KB page.
pub fn page_offset_16k(addr: usize) -> (r: usize)
    ensures
        r == addr % 0x4000,
{
    proof {
        lemma_16k_masks(addr);
    }
    addr & PAGE_OFFSET_MASK_16K
}

/// Calculates the number of 16KB pages needed to span `len` bytes starting at `offset`.
pub fn page_count_16k(offset: usize, len: usize) -> (r: usize)
    requires
        offset + len + 0x3fff <= usize::MAX,
    ensures
        r == pages_spanned_16k(offset as int, len as int),
{
    if len == 0 {
        return 0;
    }
    let end = align_up_16k(offset + len);
    let start = align_down_16k(offset);
    (end - start) / PAGE_SIZE_16K
}

/// Rounding to 16 KiB pages: rounding up gives an aligned value within one page above,
/// rounding down one within one page below, and both leave aligned values unchanged.
pub proof fn lemma_round_16k(addr: int)
    requires
        addr >= 0,
    ensures
        round_up_16k(addr) % 0x4000 == 0,
        addr <= round_up_16k(addr) < addr + 0x4000,
        round_down_16k(addr) % 0x4000 == 0,
        round_down_16k(addr) <= addr < round_down_16k(addr) + 0x4000,
        addr % 0x4000 == 0 ==> round_up_16k(addr) == addr && round_down_16k(addr) == addr,
        round_up_16k(round_up_16k(addr)) == round_up_16k(addr),
        round_down_16k(round_down_16k(addr)) == round_down_16k(addr),
{
    vstd::arithmetic::div_mod::lemma_fundamental_div_mod(addr, 0x4000);
    vstd::arithmetic::div_mod::lemma_fundamental_div_mod(addr + 0x3fff, 0x4000);
    vstd::arithmetic::div_mod::lemma_mod_multiples_basic((addr + 0x3fff) / 0x4000, 0x4000);
    vstd::arithmetic::div_mod::lemma_mod_multiples_basic(addr / 0x4000, 0x4000);
    let u = round_up_16k(addr);
    let d = round_down_16k(addr);
    assert(u % 0x4000 == 0);
    assert(d % 0x4000 == 0);
    vstd::arithmetic::div_mod::lemma_fundamental_div_mod(u + 0x3fff, 0x4000);
    vstd::arithmetic::div_mod::lemma_fundamental_div_mod(u, 0x4000);
    vstd::arithmetic::div_mod::lemma_fundamental_div_mod(d, 0x4000);
}

} // verus!
