//! What loading gives back of a serialized execution cache image.

use vstd::prelude::*;
use crate::arch::HostArch;
use crate::jit::cache::{CompiledBlock, CacheFault, cache_image, cache_magic, code_base, code_bytes, code_sum, table_bytes,
    arch_tag, scan_entries, spec_load, loaded_contents, entry_hash, entry_offset, entry_size, CACHE_ABI_CONTEXT};
use crate::memory::mmap::{spec_allocation, MAX_REGION_BYTES};
use crate::memory::page::{round_up_16k, lemma_round_16k};
use crate::wire::{bytes32, bytes64, le32, le64, lemma_le32_bytes32, lemma_le64_bytes64, lemma_le_in_middle,
    lemma_le32_in_middle};

verus! {

/// Where the code of block `i` starts in the image of `blocks`.
pub open spec fn block_offset(blocks: Seq<CompiledBlock>, i: int) -> int {
    code_base(blocks.len() as int) + code_sum(blocks, i)
}

/// The table built from blocks `0..k`: each block's hash mapped to the offset and size of its
/// code, a later block replacing an earlier one with the same hash.
pub open spec fn image_entries(blocks: Seq<CompiledBlock>, k: int) -> Map<u64, (usize, usize)>
    decreases k,
{
    if k <= 0 || k > blocks.len() {
        Map::empty()
    } else {
        image_entries(blocks, k - 1).insert(
            blocks[k - 1].block_hash,
            (block_offset(blocks, k - 1) as usize, blocks[k - 1].machine_code@.len() as usize),
        )
    }
}

/// The end of the code of blocks `0..k`, zero when there are none.
pub open spec fn image_end(blocks: Seq<CompiledBlock>, k: int) -> int {
    if k <= 0 { 0 } else { block_offset(blocks, k) }
}

/// The blocks are small enough that their image maps into one region.
pub open spec fn image_mappable(blocks: Seq<CompiledBlock>) -> bool {
    code_base(blocks.len() as int) + code_sum(blocks, blocks.len() as int) + 0x8000 <= MAX_REGION_BYTES
}

/// The table entry of block `i`.
pub open spec fn entry_bytes(blocks: Seq<CompiledBlock>, i: int) -> Seq<u8> {
    bytes64(blocks[i].block_hash as int) + bytes64(blocks[i].guest_pc as int)
        + bytes32(((code_base(blocks.len() as int) + code_sum(blocks, i)) as u32) as int)
        + bytes32((blocks[i].machine_code@.len() as u32) as int)
}

proof fn lemma_bytes_len(x: int)
    ensures
        bytes32(x).len() == 4,
        bytes64(x).len() == 8,
{
}

proof fn lemma_code_sum_nonneg(blocks: Seq<CompiledBlock>, k: int)
    ensures
        code_sum(blocks, k) >= 0,
    decreases k,
{
    if k > 0 && k <= blocks.len() {
        lemma_code_sum_nonneg(blocks, k - 1);
    }
}

proof fn lemma_code_sum_mono(blocks: Seq<CompiledBlock>, j: int, k: int)
    requires
        0 <= j <= k <= blocks.len(),
    ensures
        code_sum(blocks, j) <= code_sum(blocks, k),
    decreases k - j,
{
    if j < k {
        lemma_code_sum_mono(blocks, j, k - 1);
    }
}

proof fn lemma_table(blocks: Seq<CompiledBlock>, k: int)
    requires
        0 <= k <= blocks.len(),
    ensures
        table_bytes(blocks, k).len() == 24 * k,
        forall|i: int| 0 <= i < k ==> #[trigger] table_bytes(blocks, k).subrange(24 * i, 24 * i + 24) == entry_bytes(blocks, i),
    decreases k,
{
    if k > 0 {
        lemma_table(blocks, k - 1);
        let prev = table_bytes(blocks, k - 1);
        let e = entry_bytes(blocks, k - 1);
        lemma_bytes_len(0);
        assert(table_bytes(blocks, k) =~= prev + e);
        assert forall|i: int| 0 <= i < k implies #[trigger] table_bytes(blocks, k).subrange(24 * i, 24 * i + 24)
            == entry_bytes(blocks, i) by {
            if i < k - 1 {
                assert(table_bytes(blocks, k).subrange(24 * i, 24 * i + 24) =~= prev.subrange(24 * i, 24 * i + 24));
            } else {
                assert(table_bytes(blocks, k).subrange(24 * i, 24 * i + 24) =~= e);
            }
        }
    }
}

proof fn lemma_code(blocks: Seq<CompiledBlock>, k: int)
    requires
        0 <= k <= blocks.len(),
    ensures
        code_bytes(blocks, k).len() == code_sum(blocks, k),
        forall|i: int| 0 <= i < k ==> #[trigger] code_bytes(blocks, k).subrange(code_sum(blocks, i), code_sum(blocks, i + 1))
            == blocks[i].machine_code@,
    decreases k,
{
    if k > 0 {
        lemma_code(blocks, k - 1);
        let prev = code_bytes(blocks, k - 1);
        assert forall|i: int| 0 <= i < k implies #[trigger] code_bytes(blocks, k).subrange(code_sum(blocks, i), code_sum(blocks, i + 1))
            == blocks[i].machine_code@ by {
            lemma_code_sum_mono(blocks, i, k - 1);
            lemma_code_sum_nonneg(blocks, i);
            if i < k - 1 {
                lemma_code_sum_mono(blocks, i + 1, k - 1);
                assert(code_bytes(blocks, k).subrange(code_sum(blocks, i), code_sum(blocks, i + 1))
                    =~= prev.subrange(code_sum(blocks, i), code_sum(blocks, i + 1)));
            } else {
                assert(code_bytes(blocks, k).subrange(code_sum(blocks, i), code_sum(blocks, i + 1)) =~= blocks[i].machine_code@);
            }
        }
    }
}

/// The image's parts: header, table, padding and code.
proof fn lemma_image_parts(arch: HostArch, blocks: Seq<CompiledBlock>)
    requires
        image_mappable(blocks),
    ensures
        ({
            let n = blocks.len() as int;
            let img = cache_image(arch, blocks);
            let header = cache_magic() + seq![arch_tag(arch), CACHE_ABI_CONTEXT, 0u8, 0u8] + bytes32((n as u32) as int);
            let rest = Seq::new((code_base(n) - (16 + 24 * n)) as nat, |i: int| 0u8) + code_bytes(blocks, n);
            &&& header.len() == 16
            &&& img == header + table_bytes(blocks, n) + rest
            &&& img.len() == code_base(n) + code_sum(blocks, n)
            &&& code_base(n) >= 16 + 24 * n
            &&& code_base(n) % 0x4000 == 0
            &&& img.subrange(code_base(n), img.len() as int) == code_bytes(blocks, n)
        }),
{
    let n = blocks.len() as int;
    reveal(cache_image);
    lemma_round_16k(16 + 24 * n);
    lemma_table(blocks, n);
    lemma_code(blocks, n);
    lemma_bytes_len(n);
    let img = cache_image(arch, blocks);
    let header = cache_magic() + seq![arch_tag(arch), CACHE_ABI_CONTEXT, 0u8, 0u8] + bytes32((n as u32) as int);
    let pad = Seq::new((code_base(n) - (16 + 24 * n)) as nat, |i: int| 0u8);
    let rest = pad + code_bytes(blocks, n);
    assert(img =~= header + table_bytes(blocks, n) + rest);
    assert(img.subrange(code_base(n), img.len() as int) =~= code_bytes(blocks, n));
}

/// Reading an entry of a table that sits after a 16-byte header reads its four fields.
proof fn lemma_read_entry(header: Seq<u8>, t: Seq<u8>, rest: Seq<u8>, i: int, hash: int, pc: int, off: int, size: int)
    requires
        header.len() == 16,
        0 <= i,
        24 * i + 24 <= t.len(),
        0 <= hash < 0x1_0000_0000_0000_0000,
        0 <= pc < 0x1_0000_0000_0000_0000,
        0 <= off < 0x1_0000_0000,
        0 <= size < 0x1_0000_0000,
        t.subrange(24 * i, 24 * i + 24) == bytes64(hash) + bytes64(pc) + bytes32(off) + bytes32(size),
    ensures
        le64(header + t + rest, 16 + 24 * i) == hash,
        le32(header + t + rest, 16 + 24 * i + 16) == off,
        le32(header + t + rest, 16 + 24 * i + 20) == size,
{
    lemma_bytes_len(0);
    let h = bytes64(hash);
    let g = bytes64(pc);
    let o = bytes32(off);
    let z = bytes32(size);
    let e = h + g + o + z;
    let before = t.subrange(0, 24 * i);
    let after = t.subrange(24 * i + 24, t.len() as int);
    assert(t =~= before + e + after);
    lemma_le_in_middle(header, t, rest, 24 * i);
    lemma_le_in_middle(before, e, after, 0);
    lemma_le32_in_middle(header, t, rest, 24 * i + 16);
    lemma_le32_in_middle(before, e, after, 16);
    lemma_le32_in_middle(header, t, rest, 24 * i + 20);
    lemma_le32_in_middle(before, e, after, 20);
    lemma_le64_bytes64(hash);
    assert(e =~= Seq::<u8>::empty() + h + (g + o + z));
    lemma_le_in_middle(Seq::empty(), h, g + o + z, 0);
    lemma_le32_bytes32(off);
    assert(e =~= (h + g) + o + z);
    lemma_le32_in_middle(h + g, o, z, 0);
    lemma_le32_bytes32(size);
    assert(e =~= (h + g + o) + z + Seq::<u8>::empty());
    lemma_le32_in_middle(h + g + o, z, Seq::empty(), 0);
}

/// Table entry `i` of the image reads back as block `i`'s hash, code offset and code size.
proof fn lemma_entry_fields(arch: HostArch, blocks: Seq<CompiledBlock>, i: int)
    requires
        image_mappable(blocks),
        0 <= i < blocks.len(),
    ensures
        entry_hash(cache_image(arch, blocks), i) == blocks[i].block_hash,
        entry_offset(cache_image(arch, blocks), i) == block_offset(blocks, i),
        entry_size(cache_image(arch, blocks), i) == blocks[i].machine_code@.len(),
{
    let n = blocks.len() as int;
    lemma_image_parts(arch, blocks);
    lemma_table(blocks, n);
    lemma_code_sum_nonneg(blocks, i);
    lemma_code_sum_mono(blocks, i + 1, n);
    let header = cache_magic() + seq![arch_tag(arch), CACHE_ABI_CONTEXT, 0u8, 0u8] + bytes32((n as u32) as int);
    let t = table_bytes(blocks, n);
    let rest = Seq::new((code_base(n) - (16 + 24 * n)) as nat, |i: int| 0u8) + code_bytes(blocks, n);
    let off = block_offset(blocks, i);
    let size = blocks[i].machine_code@.len() as int;
    assert(code_sum(blocks, i + 1) == code_sum(blocks, i) + size);
    assert(t.subrange(24 * i, 24 * i + 24) == entry_bytes(blocks, i));
    lemma_read_entry(header, t, rest, i, blocks[i].block_hash as int, blocks[i].guest_pc as int, off, size);
}

/// Scanning the first `k` entries of the image finds the blocks' table.
#[verifier::spinoff_prover]
#[verifier::rlimit(40)]
proof fn lemma_scan(arch: HostArch, blocks: Seq<CompiledBlock>, k: int)
    requires
        image_mappable(blocks),
        0 <= k <= blocks.len(),
    ensures
        scan_entries(cache_image(arch, blocks), 24 * (blocks.len() as int), k) == Ok::<(Map<u64, (usize, usize)>, int), CacheFault>(
            (image_entries(blocks, k), image_end(blocks, k))),
    decreases k,
{
    let n = blocks.len() as int;
    if k > 0 {
        lemma_scan(arch, blocks, k - 1);
        lemma_entry_fields(arch, blocks, k - 1);
        lemma_image_parts(arch, blocks);
        lemma_code_sum_nonneg(blocks, k - 1);
        lemma_code_sum_mono(blocks, k, n);
        lemma_code_sum_mono(blocks, k - 1, k);
        assert(code_sum(blocks, k) == code_sum(blocks, k - 1) + blocks[k - 1].machine_code@.len());
    }
}

/// Loading the image of blocks for the architecture it was made for gives back each block's
/// hash mapped to where its code is, in a region that holds the image; and the code at that
/// place is the block's code.
#[verifier::spinoff_prover]
#[verifier::rlimit(60)]
pub proof fn lemma_cache_image_loads(arch: HostArch, blocks: Seq<CompiledBlock>)
    requires
        image_mappable(blocks),
    ensures
        ({
            let n = blocks.len() as int;
            let img = cache_image(arch, blocks);
            let len = round_up_16k(image_end(blocks, n) + 0x4000);
            &&& spec_load(img, arch) == Ok::<(Map<u64, (usize, usize)>, int), CacheFault>((image_entries(blocks, n), len))
            &&& n > 0 ==> img.len() < len
            &&& forall|i: int| 0 <= i < n ==> loaded_contents(img, len).subrange(block_offset(blocks, i),
                block_offset(blocks, i) + blocks[i].machine_code@.len()) == #[trigger] blocks[i].machine_code@
        }),
{
    let n = blocks.len() as int;
    let img = cache_image(arch, blocks);
    lemma_image_parts(arch, blocks);
    lemma_code(blocks, n);
    lemma_code_sum_nonneg(blocks, n);
    lemma_bytes_len(n);
    let header = cache_magic() + seq![arch_tag(arch), CACHE_ABI_CONTEXT, 0u8, 0u8] + bytes32((n as u32) as int);
    let t = table_bytes(blocks, n);
    let rest = Seq::new((code_base(n) - (16 + 24 * n)) as nat, |i: int| 0u8) + code_bytes(blocks, n);
    assert(img.subrange(0, 8) =~= cache_magic());
    assert(img[8] == arch_tag(arch));
    assert(img[9] == CACHE_ABI_CONTEXT);
    lemma_le32_bytes32(n);
    let h12 = cache_magic() + seq![arch_tag(arch), CACHE_ABI_CONTEXT, 0u8, 0u8];
    assert(img =~= h12 + bytes32(n) + (t + rest));
    lemma_le32_in_middle(h12, bytes32(n), t + rest, 0);
    assert(le32(img, 12) == n);
    lemma_scan(arch, blocks, n);
    let mx = image_end(blocks, n);
    let len = round_up_16k(mx + 0x4000);
    lemma_round_16k(mx + 0x4000);
    lemma_round_16k(len);
    assert(spec_allocation(len) == Ok::<int, crate::memory::mmap::MemoryError>(len));
    assert(n > 0 ==> mx == img.len());
    lemma_contents(arch, blocks, len);
}

proof fn lemma_contents(arch: HostArch, blocks: Seq<CompiledBlock>, len: int)
    requires
        image_mappable(blocks),
        cache_image(arch, blocks).len() <= len,
    ensures
        forall|i: int| 0 <= i < blocks.len() ==> loaded_contents(cache_image(arch, blocks), len).subrange(
            block_offset(blocks, i), block_offset(blocks, i) + blocks[i].machine_code@.len()) == #[trigger] blocks[i].machine_code@,
{
    let n = blocks.len() as int;
    let img = cache_image(arch, blocks);
    lemma_image_parts(arch, blocks);
    lemma_code(blocks, n);
    let lc = loaded_contents(img, len);
    assert(lc.subrange(0, img.len() as int) =~= img);
    assert forall|i: int| 0 <= i < n implies lc.subrange(block_offset(blocks, i),
        block_offset(blocks, i) + blocks[i].machine_code@.len()) == #[trigger] blocks[i].machine_code@ by {
        lemma_code_sum_nonneg(blocks, i);
        lemma_code_sum_mono(blocks, i, n);
        lemma_code_sum_mono(blocks, i + 1, n);
        let c = code_bytes(blocks, n);
        assert(code_sum(blocks, i + 1) == code_sum(blocks, i) + blocks[i].machine_code@.len());
        assert(img.subrange(code_base(n), img.len() as int) == c);
        assert(lc.subrange(block_offset(blocks, i), block_offset(blocks, i) + blocks[i].machine_code@.len())
            =~= c.subrange(code_sum(blocks, i), code_sum(blocks, i + 1)));
    }
}

/// An image made for one architecture is refused by a cache for another, with the tag it
/// carries.
#[verifier::spinoff_prover]
#[verifier::rlimit(60)]
pub proof fn lemma_cache_image_arch_mismatch(made_for: HostArch, loading_on: HostArch, blocks: Seq<CompiledBlock>)
    requires
        arch_tag(made_for) != arch_tag(loading_on),
    ensures
        spec_load(cache_image(made_for, blocks), loading_on) == Err::<(Map<u64, (usize, usize)>, int), CacheFault>(
            CacheFault::Arch(arch_tag(made_for))),
{
    let n = blocks.len() as int;
    reveal(cache_image);
    let img = cache_image(made_for, blocks);
    lemma_bytes_len(n);
    let h12 = cache_magic() + seq![arch_tag(made_for), CACHE_ABI_CONTEXT, 0u8, 0u8];
    let rest = table_bytes(blocks, n) + Seq::new((code_base(n) - (16 + 24 * n)) as nat, |i: int| 0u8) + code_bytes(blocks, n);
    assert(img =~= h12 + (bytes32((n as u32) as int) + rest));
    assert(img.subrange(0, 8) =~= cache_magic());
    assert(img[8] == arch_tag(made_for));
    assert(img[9] == CACHE_ABI_CONTEXT);
}

} // verus!
