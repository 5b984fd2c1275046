//! The execution cache: block hashing, the on-disk image of compiled blocks, and the
//! in-memory cache built from an image.

use vstd::prelude::*;
use std::collections::HashMap;
use crate::arch::HostArch;
use crate::arch::context::Arm64CpuContext;
use crate::memory::mmap::{MemoryError, MemoryRegion, ProtFlags, spec_allocation};
use crate::memory::page::{PAGE_SIZE_16K, align_up_16k, round_up_16k, lemma_round_16k};
use crate::wire::{bytes32, bytes64, le32, le64, push_u32, push_u64, read_u32, read_u64};

verus! {

/// The image's magic number, "LARCACH1".
pub open spec fn cache_magic() -> Seq<u8> {
    seq![0x4cu8, 0x41, 0x52, 0x43, 0x41, 0x43, 0x48, 0x31]
}

/// The calling convention of cached code: it takes the guest context.
pub const CACHE_ABI_CONTEXT: u8 = 1;

/// FNV-1a's 64-bit prime.
pub const FNV_PRIME: u64 = 0x100000001b3;

/// FNV-1a's 64-bit offset basis.
pub const FNV_OFFSET: u64 = 0xcbf29ce484222325;

/// Errors of building a cache from an image.
#[derive(Debug)]
pub enum CacheError {
    /// The image ended before a part that must be there.
    Io(String),
    Memory(MemoryError),
    InvalidMagic,
    ArchMismatch { expected: HostArch, found: u8 },
    CorruptedCache(String),
}

/// One FNV-1a step: mix in `x` and multiply by the prime, modulo 2^64.
pub open spec fn fnv(h: u64, x: u64) -> u64 {
    ((((h ^ x) as int) * (FNV_PRIME as int)) % 0x1_0000_0000_0000_0000) as u64
}

/// The hash after mixing in opcodes `0..k`.
pub open spec fn fnv_ops(h: u64, ops: Seq<u32>, k: int) -> u64
    decreases k,
{
    if k <= 0 || k > ops.len() { h } else { fnv(fnv_ops(h, ops, k - 1), ops[k - 1] as u64) }
}

/// The hash of a block of opcodes at `pc`.
pub open spec fn spec_block_hash(pc: u64, ops: Seq<u32>) -> u64 {
    fnv_ops(fnv(FNV_OFFSET, pc), ops, ops.len() as int)
}

/// The hash after mixing in registers `0..k`.
pub open spec fn fnv_regs(h: u64, regs: Seq<u64>, k: int) -> u64
    decreases k,
{
    if k <= 0 || k > regs.len() { h } else { fnv(fnv_regs(h, regs, k - 1), regs[k - 1]) }
}

/// The hash of a block together with the register state it starts from: registers, SP and
/// the condition flags.
pub open spec fn spec_context_hash(ctx: Arm64CpuContext, ops: Seq<u32>) -> u64 {
    let h = fnv_regs(spec_block_hash(ctx.pc, ops), ctx.regs@, 31);
    fnv(fnv(h, ctx.sp), ctx.pstate & 0xf000_0000)
}

fn fnv_step(h: u64, x: u64) -> (r: u64)
    ensures
        r == fnv(h, x),
{
    (h ^ x).wrapping_mul(FNV_PRIME)
}

/// A fast non-cryptographic (FNV-1a) hash of a block of opcodes at `guest_pc`.
pub fn hash_arm64_block(guest_pc: u64, opcodes: &[u32]) -> (r: u64)
    ensures
        r == spec_block_hash(guest_pc, opcodes@),
{
    let mut hash = fnv_step(FNV_OFFSET, guest_pc);
    let ghost h0 = hash;
    let mut i: usize = 0;
    while i < opcodes.len()
        invariant
            0 <= i <= opcodes@.len(),
            h0 == fnv(FNV_OFFSET, guest_pc),
            hash == fnv_ops(h0, opcodes@, i as int),
        decreases opcodes@.len() - i,
    {
        hash = fnv_step(hash, opcodes[i] as u64);
        i = i + 1;
    }
    hash
}

/// A hash extended with the register state: x0..x30, SP and the condition flags.
pub open spec fn context_mix(h: u64, ctx: Arm64CpuContext) -> u64 {
    fnv(fnv(fnv_regs(h, ctx.regs@, 31), ctx.sp), ctx.pstate & 0xf000_0000)
}

/// `pc` relative to `base`, wrapping.
pub open spec fn rebased(pc: u64, base: u64) -> u64 {
    (if pc >= base { pc - base } else { pc + 0x1_0000_0000_0000_0000 - base }) as u64
}

/// The context hash of a block of a library loaded at `base`: its PC taken relative to the
/// base, so that a cache built for the library at address 0 serves it wherever it is loaded.
pub open spec fn spec_context_hash_at(base: u64, ctx: Arm64CpuContext, ops: Seq<u32>) -> u64 {
    context_mix(spec_block_hash(rebased(ctx.pc, base), ops), ctx)
}

/// At base 0 the library-relative hash is the plain context hash.
pub proof fn lemma_context_hash_at_zero(ctx: Arm64CpuContext, ops: Seq<u32>)
    ensures
        spec_context_hash_at(0, ctx, ops) == spec_context_hash(ctx, ops),
{
}

fn mix_context(h0: u64, ctx: &Arm64CpuContext) -> (r: u64)
    ensures
        r == context_mix(h0, *ctx),
{
    let mut hash = h0;
    let mut i: usize = 0;
    while i < 31
        invariant
            0 <= i <= 31,
            ctx.regs@.len() == 31,
            hash == fnv_regs(h0, ctx.regs@, i as int),
        decreases 31 - i,
    {
        hash = fnv_step(hash, ctx.regs[i]);
        i = i + 1;
    }
    hash = fnv_step(hash, ctx.sp);
    fnv_step(hash, ctx.pstate & 0xf000_0000)
}

/// The block hash extended with the register state: x0..x30, SP and the condition flags.
pub fn hash_arm64_block_with_context(ctx: &Arm64CpuContext, opcodes: &[u32]) -> (r: u64)
    ensures
        r == spec_context_hash(*ctx, opcodes@),
{
    mix_context(hash_arm64_block(ctx.pc, opcodes), ctx)
}

/// The context hash of a block of a library loaded at `load_base`.
pub fn hash_arm64_block_with_context_and_base(load_base: u64, ctx: &Arm64CpuContext, opcodes: &[u32]) -> (r: u64)
    ensures
        r == spec_context_hash_at(load_base, *ctx, opcodes@),
{
    mix_context(hash_arm64_block(ctx.pc.wrapping_sub(load_base), opcodes), ctx)
}

/// A table entry of the image.
#[derive(Debug, Clone, Copy, PartialEq, Eq, Structural)]
pub struct CacheBlockEntry {
    pub block_hash: u64,
    pub guest_pc: u64,
    pub code_offset: u32,
    pub code_size: u32,
}

/// A compiled block to store in an image.
pub struct CompiledBlock {
    pub block_hash: u64,
    pub guest_pc: u64,
    pub machine_code: Vec<u8>,
}

/// The architecture tag an image records.
pub open spec fn arch_tag(arch: HostArch) -> u8 {
    match arch {
        HostArch::X86_64 => 1,
        HostArch::Riscv64 => 2,
        HostArch::Arm64 => 3,
        HostArch::Unknown => 0,
    }
}

fn tag_of(arch: HostArch) -> (r: u8)
    ensures
        r == arch_tag(arch),
{
    match arch {
        HostArch::X86_64 => 1,
        HostArch::Riscv64 => 2,
        HostArch::Arm64 => 3,
        HostArch::Unknown => 0,
    }
}

/// The total code size of blocks `0..k`.
pub open spec fn code_sum(blocks: Seq<CompiledBlock>, k: int) -> int
    decreases k,
{
    if k <= 0 || k > blocks.len() { 0 } else { code_sum(blocks, k - 1) + blocks[k - 1].machine_code@.len() }
}

/// Where the code of the blocks starts: past the header and table, on a page boundary.
pub open spec fn code_base(n: int) -> int {
    round_up_16k(16 + 24 * n)
}

/// The table entries of blocks `0..k`.
pub open spec fn table_bytes(blocks: Seq<CompiledBlock>, k: int) -> Seq<u8>
    decreases k,
{
    if k <= 0 || k > blocks.len() {
        Seq::empty()
    } else {
        let b = blocks[k - 1];
        table_bytes(blocks, k - 1) + bytes64(b.block_hash as int) + bytes64(b.guest_pc as int)
            + bytes32(((code_base(blocks.len() as int) + code_sum(blocks, k - 1)) as u32) as int)
            + bytes32((b.machine_code@.len() as u32) as int)
    }
}

/// The code of blocks `0..k`, back to back.
pub open spec fn code_bytes(blocks: Seq<CompiledBlock>, k: int) -> Seq<u8>
    decreases k,
{
    if k <= 0 || k > blocks.len() { Seq::empty() } else { code_bytes(blocks, k - 1) + blocks[k - 1].machine_code@ }
}

/// The image of `blocks` for `arch`: magic, architecture, ABI, count, table, padding to the
/// code base, code.
#[verifier::opaque]
pub open spec fn cache_image(arch: HostArch, blocks: Seq<CompiledBlock>) -> Seq<u8> {
    let n = blocks.len() as int;
    cache_magic() + seq![arch_tag(arch), CACHE_ABI_CONTEXT, 0u8, 0u8] + bytes32((n as u32) as int)
        + table_bytes(blocks, n) + Seq::new((code_base(n) - (16 + 24 * n)) as nat, |i: int| 0u8)
        + code_bytes(blocks, n)
}

/// The blocks fit in the address space when laid out.
pub open spec fn image_fits(blocks: Seq<CompiledBlock>) -> bool {
    code_base(blocks.len() as int) + code_sum(blocks, blocks.len() as int) + 0x4000 <= usize::MAX
}

proof fn lemma_code_sum_mono(blocks: Seq<CompiledBlock>, j: int, k: int)
    requires
        0 <= j <= k <= blocks.len(),
    ensures
        code_sum(blocks, j) <= code_sum(blocks, k),
    decreases k - j,
{
    if j < k {
        lemma_code_sum_mono(blocks, j, k - 1);
    }
}

/// The executable cache: code mapped into a region, and a table from block hash to the
/// offset and size of its code.
pub struct MmapExecutionCache {
    pub host_arch: HostArch,
    pub region: MemoryRegion,
    pub entries: HashMap<u64, (usize, usize)>,
}

impl MmapExecutionCache {
    fn push_entry(out: &mut Vec<u8>, b: &CompiledBlock, offset: usize)
        ensures
            final(out)@ == old(out)@ + bytes64(b.block_hash as int) + bytes64(b.guest_pc as int)
                + bytes32((offset as u32) as int) + bytes32((b.machine_code@.len() as u32) as int),
    {
        push_u64(out, b.block_hash);
        push_u64(out, b.guest_pc);
        push_u32(out, offset as u32);
        push_u32(out, b.machine_code.len() as u32);
    }

    /// The image of `blocks` for `arch`, as `create_and_save` writes it.
    #[verifier::spinoff_prover]
    #[verifier::rlimit(60)]
    pub fn serialize(arch: HostArch, blocks: &[CompiledBlock]) -> (r: Vec<u8>)
        requires
            image_fits(blocks@),
        ensures
            r@ == cache_image(arch, blocks@),
    {
        let n = blocks.len();
        let ghost bs = blocks@;
        let mut out: Vec<u8> = Vec::new();
        out.push(0x4c);
        out.push(0x41);
        out.push(0x52);
        out.push(0x43);
        out.push(0x41);
        out.push(0x43);
        out.push(0x48);
        out.push(0x31);
        out.push(tag_of(arch));
        out.push(CACHE_ABI_CONTEXT);
        out.push(0);
        out.push(0);
        push_u32(&mut out, n as u32);
        let ghost header = out@;
        assert(header =~= cache_magic() + seq![arch_tag(arch), CACHE_ABI_CONTEXT, 0u8, 0u8] + bytes32((n as u32) as int));
        proof {
            lemma_round_16k(16 + 24 * n);
            lemma_code_sum_mono(bs, 0, n as int);
        }
        let table_end = 16 + n * 24;
        let base = align_up_16k(table_end);
        let mut offset = base;
        let mut i: usize = 0;
        while i < n
            invariant
                0 <= i <= n,
                n == bs.len(),
                bs == blocks@,
                image_fits(bs),
                base == code_base(n as int),
                offset == base + code_sum(bs, i as int),
                out@ == header + table_bytes(bs, i as int),
            decreases n - i,
        {
            proof {
                lemma_code_sum_mono(bs, i + 1, n as int);
            }
            let b = &blocks[i];
            Self::push_entry(&mut out, b, offset);
            offset = offset + b.machine_code.len();
            i = i + 1;
            proof {
                assert(out@ =~= header + table_bytes(bs, i as int));
            }
        }
        let ghost with_table = out@;
        let mut p = table_end;
        while p < base
            invariant
                table_end <= p <= base,
                out@ == with_table + Seq::new((p - table_end) as nat, |i: int| 0u8),
            decreases base - p,
        {
            out.push(0);
            p = p + 1;
            assert(out@ =~= with_table + Seq::new((p - table_end) as nat, |i: int| 0u8));
        }
        let ghost with_pad = out@;
        let mut i: usize = 0;
        while i < n
            invariant
                0 <= i <= n,
                n == bs.len(),
                bs == blocks@,
                out@ == with_pad + code_bytes(bs, i as int),
            decreases n - i,
        {
            let code = &blocks[i].machine_code;
            let ghost before = out@;
            let mut j: usize = 0;
            while j < code.len()
                invariant
                    0 <= j <= code@.len(),
                    out@ == before + code@.subrange(0, j as int),
                decreases code@.len() - j,
            {
                out.push(code[j]);
                j = j + 1;
                assert(out@ =~= before + code@.subrange(0, j as int));
            }
            assert(code@.subrange(0, code@.len() as int) =~= code@);
            i = i + 1;
            assert(out@ =~= with_pad + code_bytes(bs, i as int));
        }
        proof {
            reveal(cache_image);
        }
        out
    }
}

/// Why an image cannot be loaded, as a value that contracts can compare.
pub enum CacheFault {
    Truncated,
    BadMagic,
    BadAbi,
    Arch(u8),
    TableOverflow,
    RangeOverflow,
    Overlap,
    SizeOverflow,
    Memory(MemoryError),
}

/// Whether a returned error is the fault.
pub open spec fn fault_matches(e: CacheError, f: CacheFault, arch: HostArch) -> bool {
    match f {
        CacheFault::Truncated => e matches CacheError::Io(s) && s@ == "failed to fill whole buffer"@,
        CacheFault::BadMagic => e is InvalidMagic,
        CacheFault::BadAbi => e matches CacheError::CorruptedCache(s) && s@ == "unsupported execution ABI"@,
        CacheFault::Arch(t) => e == CacheError::ArchMismatch { expected: arch, found: t },
        CacheFault::TableOverflow => e matches CacheError::CorruptedCache(s) && s@ == "entry table size overflow"@,
        CacheFault::RangeOverflow => e matches CacheError::CorruptedCache(s) && s@ == "block range overflow"@,
        CacheFault::Overlap => e matches CacheError::CorruptedCache(s) && s@ == "block range overlaps cache header"@,
        CacheFault::SizeOverflow => e matches CacheError::CorruptedCache(s) && s@ == "cache size overflow"@,
        CacheFault::Memory(m) => e == CacheError::Memory(m),
    }
}

/// The fields of table entry `i`: hash, code offset, code size.
pub open spec fn entry_hash(b: Seq<u8>, i: int) -> u64 {
    le64(b, 16 + 24 * i) as u64
}

pub open spec fn entry_offset(b: Seq<u8>, i: int) -> int {
    le32(b, 16 + 24 * i + 16)
}

pub open spec fn entry_size(b: Seq<u8>, i: int) -> int {
    le32(b, 16 + 24 * i + 20)
}

/// Entries `0..k` checked and collected: the hash table and the end of the furthest block.
pub open spec fn scan_entries(b: Seq<u8>, table_len: int, k: int) -> Result<(Map<u64, (usize, usize)>, int), CacheFault>
    decreases k,
{
    if k <= 0 {
        Ok((Map::empty(), 0))
    } else {
        match scan_entries(b, table_len, k - 1) {
            Err(f) => Err(f),
            Ok((m, mx)) => {
                let off = entry_offset(b, k - 1);
                let size = entry_size(b, k - 1);
                if off + size > usize::MAX {
                    Err(CacheFault::RangeOverflow)
                } else if off < round_up_16k(16 + table_len) {
                    Err(CacheFault::Overlap)
                } else {
                    Ok((m.insert(entry_hash(b, k - 1), (off as usize, size as usize)),
                        if off + size > mx { off + size } else { mx }))
                }
            },
        }
    }
}

/// Loading an image: the entry table and the region length, or why it fails.
pub open spec fn spec_load(b: Seq<u8>, arch: HostArch) -> Result<(Map<u64, (usize, usize)>, int), CacheFault> {
    if b.len() < 16 {
        Err(CacheFault::Truncated)
    } else if b.subrange(0, 8) != cache_magic() {
        Err(CacheFault::BadMagic)
    } else if b[9] != CACHE_ABI_CONTEXT {
        Err(CacheFault::BadAbi)
    } else if b[8] != arch_tag(arch) {
        Err(CacheFault::Arch(b[8]))
    } else {
        let num = le32(b, 12);
        let table_len = num * 24;
        if table_len + 16 + 0x3fff > usize::MAX {
            Err(CacheFault::TableOverflow)
        } else if b.len() < 16 + table_len {
            Err(CacheFault::Truncated)
        } else {
            match scan_entries(b, table_len, num) {
                Err(f) => Err(f),
                Ok((m, mx)) => if mx + 0x4000 + 0x3fff > usize::MAX {
                    Err(CacheFault::SizeOverflow)
                } else {
                    match spec_allocation(round_up_16k(mx + 0x4000)) {
                        Err(e) => Err(CacheFault::Memory(e)),
                        Ok(len) => Ok((m, len)),
                    }
                },
            }
        }
    }
}

/// A region of `len` bytes holding the start of the image, zero past its end.
pub open spec fn loaded_contents(b: Seq<u8>, len: int) -> Seq<u8> {
    let n = if b.len() < len { b.len() as int } else { len };
    b.subrange(0, n) + Seq::new((len - n) as nat, |i: int| 0u8)
}

proof fn lemma_scan_err(b: Seq<u8>, t: int, k: int, n: int)
    requires
        0 < k <= n,
        scan_entries(b, t, k) is Err,
    ensures
        scan_entries(b, t, n) == scan_entries(b, t, k),
    decreases n - k,
{
    if k < n {
        lemma_scan_err(b, t, k + 1, n);
    }
}

impl MmapExecutionCache {
    /// Reads and checks table entry `i`.
    fn read_entry(bytes: &[u8], i: usize, table_len: usize, header_end: usize) -> (r: Result<(u64, usize, usize), CacheError>)
        requires
            i * 24 + 24 <= table_len,
            16 + table_len <= bytes@.len(),
            header_end == round_up_16k(16 + table_len),
        ensures
            ({
                let off = entry_offset(bytes@, i as int);
                let size = entry_size(bytes@, i as int);
                if off + size > usize::MAX {
                    r matches Err(e) && fault_matches(e, CacheFault::RangeOverflow, HostArch::Unknown)
                } else if off < header_end {
                    r matches Err(e) && fault_matches(e, CacheFault::Overlap, HostArch::Unknown)
                } else {
                    r == Ok::<(u64, usize, usize), CacheError>((entry_hash(bytes@, i as int), off as usize, size as usize))
                }
            }),
    {
        let start = 16 + i * 24;
        let hash = read_u64(bytes, start);
        let offset = read_u32(bytes, start + 16) as usize;
        let size = read_u32(bytes, start + 20) as usize;
        if offset > usize::MAX - size {
            return Err(CacheError::CorruptedCache("block range overflow".to_string()));
        }
        if offset < header_end {
            return Err(CacheError::CorruptedCache("block range overlaps cache header".to_string()));
        }
        Ok((hash, offset, size))
    }

    /// Builds the executable cache from an image, as `load_from_file` reads it, checking the
    /// header, the architecture and every table entry.
    #[verifier::spinoff_prover]
    #[verifier::rlimit(50)]
    pub fn load_from_bytes(bytes: &[u8], expected_arch: HostArch) -> (r: Result<MmapExecutionCache, CacheError>)
        ensures
            match spec_load(bytes@, expected_arch) {
                Err(f) => r matches Err(e) && fault_matches(e, f, expected_arch),
                Ok((m, len)) => r matches Ok(c) && {
                    &&& c.host_arch == expected_arch
                    &&& c.entries@ == m
                    &&& c.region.inv()
                    &&& c.region.spec_len() == len
                    &&& c.region.spec_prot().0 == 5
                    &&& c.region.contents() == loaded_contents(bytes@, len)
                },
            },
    {
        let blen = bytes.len();
        if blen < 16 {
            return Err(CacheError::Io("failed to fill whole buffer".to_string()));
        }
        if !(bytes[0] == 0x4c && bytes[1] == 0x41 && bytes[2] == 0x52 && bytes[3] == 0x43 && bytes[4] == 0x41
            && bytes[5] == 0x43 && bytes[6] == 0x48 && bytes[7] == 0x31) {
            proof {
                if bytes@.subrange(0, 8) == cache_magic() {
                    assert(bytes@[0] == bytes@.subrange(0, 8)[0]);
                    assert(bytes@[7] == bytes@.subrange(0, 8)[7]);
                }
            }
            return Err(CacheError::InvalidMagic);
        }
        assert(bytes@.subrange(0, 8) =~= cache_magic());
        let tag = bytes[8];
        if bytes[9] != CACHE_ABI_CONTEXT {
            return Err(CacheError::CorruptedCache("unsupported execution ABI".to_string()));
        }
        let expected_tag = tag_of(expected_arch);
        if tag != expected_tag {
            return Err(CacheError::ArchMismatch { expected: expected_arch, found: tag });
        }
        let num = read_u32(bytes, 12) as usize;
        let table_len = match num.checked_mul(24) {
            Some(t) => t,
            None => return Err(CacheError::CorruptedCache("entry table size overflow".to_string())),
        };
        if table_len > usize::MAX - 16 - 0x3fff {
            return Err(CacheError::CorruptedCache("entry table size overflow".to_string()));
        }
        if blen - 16 < table_len {
            return Err(CacheError::Io("failed to fill whole buffer".to_string()));
        }
        let header_end = align_up_16k(16 + table_len);
        let mut entries: HashMap<u64, (usize, usize)> = HashMap::new();
        let mut max_end: usize = 0;
        let mut i: usize = 0;
        while i < num
            invariant
                0 <= i <= num,
                num * 24 == table_len,
                bytes@.subrange(0, 8) == cache_magic(),
                bytes@[9] == CACHE_ABI_CONTEXT,
                bytes@[8] == arch_tag(expected_arch),
                table_len + 16 + 0x3fff <= usize::MAX,
                num == le32(bytes@, 12),
                table_len == num * 24,
                16 + table_len <= blen,
                blen == bytes@.len(),
                header_end == round_up_16k(16 + table_len),
                scan_entries(bytes@, table_len as int, i as int) == Ok::<(Map<u64, (usize, usize)>, int), CacheFault>(
                    (entries@, max_end as int)),
            decreases num - i,
        {
            let (hash, offset, size) = match Self::read_entry(bytes, i, table_len, header_end) {
                Ok(e) => e,
                Err(e) => {
                    proof {
                        lemma_scan_err(bytes@, table_len as int, i as int + 1, num as int);
                    }
                    return Err(e);
                },
            };
            if offset + size > max_end {
                max_end = offset + size;
            }
            entries.insert(hash, (offset, size));
            i = i + 1;
        }
        if max_end > usize::MAX - PAGE_SIZE_16K - 0x3fff {
            return Err(CacheError::CorruptedCache("cache size overflow".to_string()));
        }
        let total = align_up_16k(max_end + PAGE_SIZE_16K);
        let mut region = match MemoryRegion::allocate_16k(total, ProtFlags::read_write()) {
            Ok(r) => r,
            Err(e) => return Err(CacheError::Memory(e)),
        };
        proof {
            region.lemma_inv();
        }
        let len = region.len();
        let copy_len = if blen < len { blen } else { len };
        let ghost zeros = region.contents();
        region.store(0, &bytes[0..copy_len]);
        let _ = region.protect(ProtFlags::read_exec());
        proof {
            assert(region.contents() =~= loaded_contents(bytes@, len as int));
        }
        Ok(MmapExecutionCache { host_arch: expected_arch, region, entries })
    }

    /// The guest address of the code cached for `hash`, if its range lies in the region.
    pub fn lookup_block(&self, hash: u64) -> (r: Option<usize>)
        requires
            self.region.inv(),
        ensures
            r == (if self.entries@.contains_key(hash) && self.entries@[hash].1 > 0
                && self.entries@[hash].0 + self.entries@[hash].1 <= self.region.spec_len() {
                Some((self.region.spec_base() + self.entries@[hash].0) as usize)
            } else {
                None::<usize>
            }),
    {
        proof {
            self.region.lemma_inv();
        }
        match self.entries.get(&hash) {
            Some(entry) => {
                let (offset, size) = *entry;
                let len = self.region.len();
                if size > 0 && offset <= len && size <= len - offset {
                    Some(self.region.as_ptr() + offset)
                } else {
                    None
                }
            },
            None => None,
        }
    }
}

} // verus!
