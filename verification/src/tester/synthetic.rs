//! Synthetic test inputs: a small AArch64 shared library image and a stored ZIP (APK) archive
//! built in memory.

use vstd::prelude::*;
use vstd::string::StringSliceAdditionalSpecFns;
use crate::linker::elf::{spec_elfmag, elfmag, ELFCLASS64, ELFDATA2LSB, EV_CURRENT, ET_DYN, EM_AARCH64, PT_LOAD,
    PT_DYNAMIC, PF_R, PF_W, PF_X, STB_GLOBAL, STT_FUNC, R_AARCH64_RELATIVE, R_AARCH64_GLOB_DAT, DT_SONAME, DT_STRTAB,
    DT_STRSZ, DT_SYMTAB, DT_SYMENT, DT_RELA, DT_RELASZ, DT_RELAENT, DT_INIT, DT_NULL};
use crate::wire::{bytes16, bytes32, bytes64, push_u16, push_u32, push_u64};
use crate::tester::apk::{LOCAL, CENTRAL, EOCD, Entry, MAX_ENTRY, central_at, central_list, spec_central_entries,
    eocd_position, last_eocd, stored_data, entry_span, entry_within_limits};
use crate::wire::{le16, le32, lemma_le16_bytes16, lemma_le32_bytes32};

verus! {

/// `s` with `b` written over it from `off`.
pub open spec fn overwrite(s: Seq<u8>, off: int, b: Seq<u8>) -> Seq<u8> {
    s.subrange(0, off) + b + s.subrange(off + b.len(), s.len() as int)
}

/// Writes `b` over `v` from `off`.
pub fn put(v: &mut Vec<u8>, off: usize, b: &[u8])
    requires
        off + b@.len() <= old(v)@.len(),
    ensures
        final(v)@ == overwrite(old(v)@, off as int, b@),
{
    let n = b.len();
    let total = v.len();
    let mut i: usize = 0;
    while i < n
        invariant
            0 <= i <= n,
            n == b@.len(),
            total == v@.len(),
            off + n <= v@.len(),
            v@.len() == old(v)@.len(),
            v@ == overwrite(old(v)@, off as int, b@.subrange(0, i as int)),
        decreases n - i,
    {
        v[off + i] = b[i];
        i = i + 1;
        assert(v@ =~= overwrite(old(v)@, off as int, b@.subrange(0, i as int)));
    }
    assert(b@.subrange(0, n as int) =~= b@);
}

/// `n` zero bytes.
pub open spec fn zeros(n: nat) -> Seq<u8> {
    Seq::new(n, |i: int| 0u8)
}

fn push_zeros(v: &mut Vec<u8>, n: usize)
    ensures
        final(v)@ == old(v)@ + zeros(n as nat),
{
    let mut i: usize = 0;
    while i < n
        invariant
            0 <= i <= n,
            v@ == old(v)@ + zeros(i as nat),
        decreases n - i,
    {
        v.push(0);
        i = i + 1;
        assert(v@ =~= old(v)@ + zeros(i as nat));
    }
}

fn push_bytes(v: &mut Vec<u8>, b: &[u8])
    ensures
        final(v)@ == old(v)@ + b@,
{
    let mut i: usize = 0;
    while i < b.len()
        invariant
            0 <= i <= b@.len(),
            v@ == old(v)@ + b@.subrange(0, i as int),
        decreases b@.len() - i,
    {
        v.push(b[i]);
        i = i + 1;
        assert(v@ =~= old(v)@ + b@.subrange(0, i as int));
    }
    assert(b@.subrange(0, b@.len() as int) =~= b@);
}

/// The ELF header of the synthetic library: a 64-bit little-endian AArch64 shared object
/// entered at 0x1000, with three program headers right after the header.
pub open spec fn so_header() -> Seq<u8> {
    spec_elfmag() + seq![ELFCLASS64, ELFDATA2LSB, EV_CURRENT] + zeros(9) + bytes16(ET_DYN as int)
        + bytes16(EM_AARCH64 as int) + bytes32(1) + bytes64(0x1000) + bytes64(64) + zeros(12)
        + bytes16(64) + bytes16(56) + bytes16(3) + zeros(6)
}

/// A program header.
pub open spec fn phdr(kind: int, flags: int, offset: int, vaddr: int, filesz: int, memsz: int, align: int) -> Seq<u8> {
    bytes32(kind) + bytes32(flags) + bytes64(offset) + bytes64(vaddr) + bytes64(vaddr) + bytes64(filesz)
        + bytes64(memsz) + bytes64(align)
}

/// The program headers: text (read and execute), data (read and write), dynamic.
pub open spec fn so_phdrs() -> Seq<u8> {
    phdr(PT_LOAD as int, (PF_R | PF_X) as int, 0, 0, 0x1000, 0x1000, 0x4000)
        + phdr(PT_LOAD as int, (PF_R | PF_W) as int, 0x1000, 0x4000, 0x1000, 0x2000, 0x4000)
        + phdr(PT_DYNAMIC as int, (PF_R | PF_W) as int, 0x1000, 0x4000, 0x200, 0x200, 8)
}

/// The string table: empty name, the exported symbol, `malloc`, the library's name.
pub open spec fn so_strtab(lib: Seq<u8>, sym: Seq<u8>) -> Seq<u8> {
    seq![0u8] + sym + seq![0u8] + seq![0x6du8, 0x61u8, 0x6cu8, 0x6cu8, 0x6fu8, 0x63u8, 0u8] + lib + seq![0u8]
}

/// A symbol table entry.
pub open spec fn sym_entry(name: int, info: u8, shndx: int, value: int, size: int) -> Seq<u8> {
    bytes32(name) + seq![info, 0u8] + bytes16(shndx) + bytes64(value) + bytes64(size)
}

/// The symbol table: the null symbol, the exported function at 0x800, `malloc` undefined.
pub open spec fn so_symtab(sym: Seq<u8>) -> Seq<u8> {
    zeros(24) + sym_entry(1, (STB_GLOBAL * 16 + STT_FUNC) as u8, 1, 0x800, 64)
        + sym_entry(sym.len() + 2int, (STB_GLOBAL * 16 + STT_FUNC) as u8, 0, 0, 0)
}

/// The relocations: a relative one at 0x4500 and `malloc`'s at 0x4508.
pub open spec fn so_rela() -> Seq<u8> {
    bytes64(0x4500) + bytes64(R_AARCH64_RELATIVE as int) + bytes64(0x800)
        + bytes64(0x4508) + bytes64(2 * 0x1_0000_0000 + R_AARCH64_GLOB_DAT as int) + bytes64(0)
}

/// A dynamic entry.
pub open spec fn dyn_entry(tag: int, val: int) -> Seq<u8> {
    bytes64(tag) + bytes64(val)
}

/// The dynamic section.
pub open spec fn so_dynamic(lib: Seq<u8>, sym: Seq<u8>) -> Seq<u8> {
    dyn_entry(DT_SONAME as int, sym.len() + 9int) + dyn_entry(DT_STRTAB as int, 0x4200)
        + dyn_entry(DT_STRSZ as int, so_strtab(lib, sym).len() as int) + dyn_entry(DT_SYMTAB as int, 0x4300)
        + dyn_entry(DT_SYMENT as int, 24) + dyn_entry(DT_RELA as int, 0x4400)
        + dyn_entry(DT_RELASZ as int, 48) + dyn_entry(DT_RELAENT as int, 24)
        + dyn_entry(DT_INIT as int, 0x800) + dyn_entry(DT_NULL as int, 0)
}

/// The synthetic library's image: 8 KiB, with a `nop; ret` function at 0x800, the headers,
/// and the dynamic section, string table, symbol table and relocations from 0x1000 on.
#[verifier::opaque]
pub open spec fn so_image(lib: Seq<u8>, sym: Seq<u8>) -> Seq<u8> {
    let e = overwrite(zeros(0x2000), 0x800, bytes32(0xd503201f));
    let e = overwrite(e, 0x804, bytes32(0xd65f03c0));
    let e = overwrite(e, 0, so_header());
    let e = overwrite(e, 64, so_phdrs());
    let e = overwrite(e, 0x1000, so_dynamic(lib, sym));
    let e = overwrite(e, 0x1200, so_strtab(lib, sym));
    let e = overwrite(e, 0x1300, so_symtab(sym));
    overwrite(e, 0x1400, so_rela())
}

fn header_bytes() -> (r: Vec<u8>)
    ensures
        r@ == so_header(),
{
    let mag = elfmag();
    let mut v: Vec<u8> = Vec::new();
    push_bytes(&mut v, &mag);
    v.push(ELFCLASS64);
    v.push(ELFDATA2LSB);
    v.push(EV_CURRENT);
    push_zeros(&mut v, 9);
    push_u16(&mut v, ET_DYN);
    push_u16(&mut v, EM_AARCH64);
    push_u32(&mut v, 1);
    push_u64(&mut v, 0x1000);
    push_u64(&mut v, 64);
    push_zeros(&mut v, 12);
    push_u16(&mut v, 64);
    push_u16(&mut v, 56);
    push_u16(&mut v, 3);
    push_zeros(&mut v, 6);
    assert(v@ =~= so_header());
    v
}

fn push_phdr(v: &mut Vec<u8>, kind: u32, flags: u32, offset: u64, vaddr: u64, filesz: u64, memsz: u64, align: u64)
    ensures
        final(v)@ == old(v)@ + phdr(kind as int, flags as int, offset as int, vaddr as int, filesz as int, memsz as int, align as int),
{
    push_u32(v, kind);
    push_u32(v, flags);
    push_u64(v, offset);
    push_u64(v, vaddr);
    push_u64(v, vaddr);
    push_u64(v, filesz);
    push_u64(v, memsz);
    push_u64(v, align);
    assert(final(v)@ =~= old(v)@ + phdr(kind as int, flags as int, offset as int, vaddr as int, filesz as int, memsz as int, align as int));
}

fn phdr_bytes() -> (r: Vec<u8>)
    ensures
        r@ == so_phdrs(),
{
    let mut v: Vec<u8> = Vec::new();
    push_phdr(&mut v, PT_LOAD, PF_R | PF_X, 0, 0, 0x1000, 0x1000, 0x4000);
    push_phdr(&mut v, PT_LOAD, PF_R | PF_W, 0x1000, 0x4000, 0x1000, 0x2000, 0x4000);
    push_phdr(&mut v, PT_DYNAMIC, PF_R | PF_W, 0x1000, 0x4000, 0x200, 0x200, 8);
    assert(v@ =~= so_phdrs());
    v
}

fn strtab_bytes(lib: &[u8], sym: &[u8]) -> (r: Vec<u8>)
    ensures
        r@ == so_strtab(lib@, sym@),
{
    let mut v: Vec<u8> = Vec::new();
    v.push(0);
    push_bytes(&mut v, sym);
    v.push(0);
    let malloc: [u8; 7] = [0x6d, 0x61, 0x6c, 0x6c, 0x6f, 0x63, 0];
    push_bytes(&mut v, &malloc);
    push_bytes(&mut v, lib);
    v.push(0);
    assert(v@ =~= so_strtab(lib@, sym@));
    v
}

fn push_sym(v: &mut Vec<u8>, name: u32, info: u8, shndx: u16, value: u64, size: u64)
    ensures
        final(v)@ == old(v)@ + sym_entry(name as int, info, shndx as int, value as int, size as int),
{
    push_u32(v, name);
    v.push(info);
    v.push(0);
    push_u16(v, shndx);
    push_u64(v, value);
    push_u64(v, size);
    assert(final(v)@ =~= old(v)@ + sym_entry(name as int, info, shndx as int, value as int, size as int));
}

fn symtab_bytes(sym_len: u32) -> (r: Vec<u8>)
    requires
        sym_len + 2 <= u32::MAX,
    ensures
        forall|sym: Seq<u8>| sym.len() == sym_len ==> r@ == #[trigger] so_symtab(sym),
{
    let mut v: Vec<u8> = Vec::new();
    push_zeros(&mut v, 24);
    let info: u8 = STB_GLOBAL * 16 + STT_FUNC;
    push_sym(&mut v, 1, info, 1, 0x800, 64);
    push_sym(&mut v, sym_len + 2, info, 0, 0, 0);
    v
}

fn rela_bytes() -> (r: Vec<u8>)
    ensures
        r@ == so_rela(),
{
    let mut v: Vec<u8> = Vec::new();
    push_u64(&mut v, 0x4500);
    push_u64(&mut v, R_AARCH64_RELATIVE as u64);
    push_u64(&mut v, 0x800);
    push_u64(&mut v, 0x4508);
    push_u64(&mut v, 2 * 0x1_0000_0000 + R_AARCH64_GLOB_DAT as u64);
    push_u64(&mut v, 0);
    assert(v@ =~= so_rela());
    v
}

fn push_dyn(v: &mut Vec<u8>, tag: u64, val: u64)
    ensures
        final(v)@ == old(v)@ + dyn_entry(tag as int, val as int),
{
    push_u64(v, tag);
    push_u64(v, val);
    assert(final(v)@ =~= old(v)@ + dyn_entry(tag as int, val as int));
}

fn dynamic_bytes(sym_len: u64, strtab_len: u64) -> (r: Vec<u8>)
    requires
        sym_len + 9 <= u64::MAX,
    ensures
        forall|lib: Seq<u8>, sym: Seq<u8>| sym.len() == sym_len && so_strtab(lib, sym).len() == strtab_len
            ==> r@ == #[trigger] so_dynamic(lib, sym),
{
    let mut v: Vec<u8> = Vec::new();
    push_dyn(&mut v, DT_SONAME, sym_len + 9);
    push_dyn(&mut v, DT_STRTAB, 0x4200);
    push_dyn(&mut v, DT_STRSZ, strtab_len);
    push_dyn(&mut v, DT_SYMTAB, 0x4300);
    push_dyn(&mut v, DT_SYMENT, 24);
    push_dyn(&mut v, DT_RELA, 0x4400);
    push_dyn(&mut v, DT_RELASZ, 48);
    push_dyn(&mut v, DT_RELAENT, 24);
    push_dyn(&mut v, DT_INIT, 0x800);
    push_dyn(&mut v, DT_NULL, 0);
    v
}

/// A synthetic AArch64 shared library named `lib_name` that exports the function
/// `export_symbol` and imports `malloc`. The names must fit in the string table's space.
#[verifier::spinoff_prover]
#[verifier::rlimit(40)]
pub fn generate_synthetic_arm64_so(lib_name: &str, export_symbol: &str) -> (r: Vec<u8>)
    requires
        lib_name.spec_bytes().len() + export_symbol.spec_bytes().len() + 10 <= 0xe00,
    ensures
        r@ == so_image(lib_name.spec_bytes(), export_symbol.spec_bytes()),
{
    proof {
        reveal(so_image);
    }
    let lib = lib_name.as_bytes();
    let sym = export_symbol.as_bytes();
    let mut elf: Vec<u8> = Vec::new();
    push_zeros(&mut elf, 0x2000);
    assert(elf@ =~= zeros(0x2000));
    let mut code: Vec<u8> = Vec::new();
    push_u32(&mut code, 0xd503201f);
    put(&mut elf, 0x800, code.as_slice());
    let mut code2: Vec<u8> = Vec::new();
    push_u32(&mut code2, 0xd65f03c0);
    put(&mut elf, 0x804, code2.as_slice());
    let h = header_bytes();
    put(&mut elf, 0, h.as_slice());
    let p = phdr_bytes();
    put(&mut elf, 64, p.as_slice());
    let strtab = strtab_bytes(lib, sym);
    let dynamic = dynamic_bytes(sym.len() as u64, strtab.len() as u64);
    assert(dynamic@ == so_dynamic(lib@, sym@));
    assert(dynamic@.len() == 160);
    put(&mut elf, 0x1000, dynamic.as_slice());
    put(&mut elf, 0x1200, strtab.as_slice());
    let symtab = symtab_bytes(sym.len() as u32);
    assert(symtab@ == so_symtab(sym@));
    assert(symtab@.len() == 72);
    put(&mut elf, 0x1300, symtab.as_slice());
    let rela = rela_bytes();
    put(&mut elf, 0x1400, rela.as_slice());
    elf
}


/// UTF-8 takes at most four bytes per character.
pub proof fn lemma_utf8_len(c: Seq<char>)
    ensures
        vstd::utf8::encode_utf8(c).len() <= 4 * c.len(),
    decreases c.len(),
{
    if c.len() > 0 {
        lemma_utf8_len(c.drop_first());
    }
}

/// The entries of the self-test's APK: the two synthetic libraries under `lib/arm64-v8a/`.
pub open spec fn self_test_entries() -> Seq<(Seq<u8>, Seq<u8>)> {
    seq![
        ("lib/arm64-v8a/libcore.so".spec_bytes(), so_image("libcore.so".spec_bytes(), "native_core_init".spec_bytes())),
        ("lib/arm64-v8a/libgame.so".spec_bytes(),
            so_image("libgame.so".spec_bytes(), "Java_com_example_renderFrame".spec_bytes())),
    ]
}

/// The synthetic APK of the self-test: two libraries, `libcore.so` exporting
/// `native_core_init` and `libgame.so` exporting `Java_com_example_renderFrame`.
#[verifier::spinoff_prover]
#[verifier::rlimit(40)]
pub fn self_test_apk() -> (r: Vec<u8>)
    ensures
        r@ == apk_image(self_test_entries()),
{
    proof {
        reveal_strlit("libcore.so");
        reveal_strlit("native_core_init");
        reveal_strlit("libgame.so");
        reveal_strlit("Java_com_example_renderFrame");
        lemma_utf8_len("libcore.so"@);
        lemma_utf8_len("native_core_init"@);
        lemma_utf8_len("libgame.so"@);
        lemma_utf8_len("Java_com_example_renderFrame"@);
    }
    let core = generate_synthetic_arm64_so("libcore.so", "native_core_init");
    let game = generate_synthetic_arm64_so("libgame.so", "Java_com_example_renderFrame");
    let entries: [(&str, &[u8]); 2] = [
        ("lib/arm64-v8a/libcore.so", core.as_slice()),
        ("lib/arm64-v8a/libgame.so", game.as_slice()),
    ];
    assert(entries@[0].1@ == core@);
    assert(entries@[1].1@ == game@);
    assert(entries_bytes(entries@) =~= self_test_entries());
    generate_synthetic_apk(&entries)
}

/// `x` reduced to 32 bits, as the archive's size and offset fields hold it.
pub open spec fn low32(x: int) -> int {
    x % 0x1_0000_0000
}

/// A stored entry's local header, name and data.
pub open spec fn local_record(name: Seq<u8>, data: Seq<u8>) -> Seq<u8> {
    bytes32(LOCAL as int) + bytes16(20) + zeros(12) + bytes32(low32(data.len() as int))
        + bytes32(low32(data.len() as int)) + bytes16(name.len() as int % 0x10000) + bytes16(0) + name + data
}

/// A stored entry's central directory header, whose local header is at `offset`.
pub open spec fn central_record(name: Seq<u8>, data: Seq<u8>, offset: int) -> Seq<u8> {
    bytes32(CENTRAL as int) + bytes16(20) + bytes16(20) + zeros(12) + bytes32(low32(data.len() as int))
        + bytes32(low32(data.len() as int)) + bytes16(name.len() as int % 0x10000) + zeros(12) + bytes32(offset) + name
}

/// The local records of the first `k` entries.
pub open spec fn local_records(es: Seq<(Seq<u8>, Seq<u8>)>, k: int) -> Seq<u8>
    decreases k,
{
    if k <= 0 || k > es.len() {
        Seq::empty()
    } else {
        local_records(es, k - 1) + local_record(es[k - 1].0, es[k - 1].1)
    }
}

/// The central directory headers of the first `k` entries.
pub open spec fn central_records(es: Seq<(Seq<u8>, Seq<u8>)>, k: int) -> Seq<u8>
    decreases k,
{
    if k <= 0 || k > es.len() {
        Seq::empty()
    } else {
        central_records(es, k - 1) + central_record(es[k - 1].0, es[k - 1].1, low32(local_records(es, k - 1).len() as int))
    }
}

/// The end-of-central-directory record.
pub open spec fn eocd_record(count: int, cd_len: int, cd_start: int) -> Seq<u8> {
    bytes32(EOCD as int) + zeros(4) + bytes16(count) + bytes16(count) + bytes32(cd_len) + bytes32(cd_start) + zeros(2)
}

/// A stored ZIP archive of the entries: local records, central directory, end record.
#[verifier::opaque]
pub open spec fn apk_image(es: Seq<(Seq<u8>, Seq<u8>)>) -> Seq<u8> {
    let locals = local_records(es, es.len() as int);
    let centrals = central_records(es, es.len() as int);
    locals + centrals + eocd_record(es.len() as int % 0x10000, low32(centrals.len() as int), low32(locals.len() as int))
}

/// The entries' names and data as bytes.
pub open spec fn entries_bytes(entries: Seq<(&str, &[u8])>) -> Seq<(Seq<u8>, Seq<u8>)> {
    entries.map_values(|e: (&str, &[u8])| (e.0.spec_bytes(), e.1@))
}

/// A stored (uncompressed) ZIP archive holding the entries, in order.
pub fn generate_synthetic_apk(entries: &[(&str, &[u8])]) -> (r: Vec<u8>)
    ensures
        r@ == apk_image(entries_bytes(entries@)),
{
    let ghost es = entries_bytes(entries@);
    let n = entries.len();
    let mut apk: Vec<u8> = Vec::new();
    let mut offsets: Vec<u32> = Vec::new();
    let mut i: usize = 0;
    while i < n
        invariant
            0 <= i <= n,
            n == entries@.len(),
            es == entries_bytes(entries@),
            apk@ == local_records(es, i as int),
            offsets@.len() == i,
            forall|j: int| 0 <= j < i ==> #[trigger] offsets@[j] == low32(local_records(es, j).len() as int),
        decreases n - i,
    {
        let (name, data) = entries[i];
        let nb = name.as_bytes();
        offsets.push((apk.len() as u64 % 0x1_0000_0000) as u32);
        let ghost before = apk@;
        push_u32(&mut apk, LOCAL);
        push_u16(&mut apk, 20);
        push_zeros(&mut apk, 12);
        push_u32(&mut apk, (data.len() as u64 % 0x1_0000_0000) as u32);
        push_u32(&mut apk, (data.len() as u64 % 0x1_0000_0000) as u32);
        push_u16(&mut apk, (nb.len() % 0x10000) as u16);
        push_u16(&mut apk, 0);
        push_bytes(&mut apk, nb);
        push_bytes(&mut apk, data);
        proof {
            assert(es[i as int] == (nb@, data@));
            assert(apk@ =~= before + local_record(nb@, data@));
        }
        i = i + 1;
    }
    let cd_start = (apk.len() as u64 % 0x1_0000_0000) as u32;
    let mut cd: Vec<u8> = Vec::new();
    let mut i: usize = 0;
    while i < n
        invariant
            0 <= i <= n,
            n == entries@.len(),
            es == entries_bytes(entries@),
            offsets@.len() == n,
            forall|j: int| 0 <= j < n ==> #[trigger] offsets@[j] == low32(local_records(es, j).len() as int),
            cd@ == central_records(es, i as int),
        decreases n - i,
    {
        let (name, data) = entries[i];
        let nb = name.as_bytes();
        let ghost before = cd@;
        push_u32(&mut cd, CENTRAL);
        push_u16(&mut cd, 20);
        push_u16(&mut cd, 20);
        push_zeros(&mut cd, 12);
        push_u32(&mut cd, (data.len() as u64 % 0x1_0000_0000) as u32);
        push_u32(&mut cd, (data.len() as u64 % 0x1_0000_0000) as u32);
        push_u16(&mut cd, (nb.len() % 0x10000) as u16);
        push_zeros(&mut cd, 12);
        push_u32(&mut cd, offsets[i]);
        push_bytes(&mut cd, nb);
        proof {
            assert(es[i as int] == (nb@, data@));
            assert(cd@ =~= before + central_record(nb@, data@, offsets@[i as int] as int));
        }
        i = i + 1;
    }
    let cd_len = (cd.len() as u64 % 0x1_0000_0000) as u32;
    push_bytes(&mut apk, cd.as_slice());
    push_u32(&mut apk, EOCD);
    push_zeros(&mut apk, 4);
    push_u16(&mut apk, (n % 0x10000) as u16);
    push_u16(&mut apk, (n % 0x10000) as u16);
    push_u32(&mut apk, cd_len);
    push_u32(&mut apk, cd_start);
    push_zeros(&mut apk, 2);
    proof {
        reveal(apk_image);
    }
    assert(apk@ =~= apk_image(es));
    apk
}


/// The fields of a stored entry's central directory header.
#[verifier::spinoff_prover]
#[verifier::rlimit(40)]
pub proof fn lemma_central_fields(name: Seq<u8>, data: Seq<u8>, offset: int)
    requires
        name.len() < 0x10000,
        data.len() < 0x1_0000_0000,
        0 <= offset < 0x1_0000_0000,
    ensures
        central_record(name, data, offset).len() == 46 + name.len(),
        le32(central_record(name, data, offset), 0) == CENTRAL,
        le16(central_record(name, data, offset), 10) == 0,
        le32(central_record(name, data, offset), 20) == data.len(),
        le32(central_record(name, data, offset), 24) == data.len(),
        le16(central_record(name, data, offset), 28) == name.len(),
        le16(central_record(name, data, offset), 30) == 0,
        le16(central_record(name, data, offset), 32) == 0,
        le32(central_record(name, data, offset), 42) == offset,
        central_record(name, data, offset).subrange(46, 46 + name.len() as int) == name,
{
    let r = central_record(name, data, offset);
    lemma_le32_bytes32(CENTRAL as int);
    lemma_le32_bytes32(data.len() as int);
    lemma_le32_bytes32(offset);
    lemma_le16_bytes16(20);
    lemma_le16_bytes16(name.len() as int);
    let b = bytes32(data.len() as int);
    let o = bytes32(offset);
    let c = bytes32(CENTRAL as int);
    let nb = bytes16(name.len() as int);
    assert(r[0] == c[0] && r[1] == c[1] && r[2] == c[2] && r[3] == c[3]);
    assert(r[10] == 0 && r[11] == 0);
    assert(r[20] == b[0] && r[21] == b[1] && r[22] == b[2] && r[23] == b[3]);
    assert(r[24] == b[0] && r[25] == b[1] && r[26] == b[2] && r[27] == b[3]);
    assert(r[28] == nb[0] && r[29] == nb[1]);
    assert(r[30] == 0 && r[31] == 0 && r[32] == 0 && r[33] == 0);
    assert(r[42] == o[0] && r[43] == o[1] && r[44] == o[2] && r[45] == o[3]);
    assert(r.subrange(46, 46 + name.len() as int) =~= name);
}

/// The fields of a stored entry's local header.
pub proof fn lemma_local_fields(name: Seq<u8>, data: Seq<u8>)
    requires
        name.len() < 0x10000,
        data.len() < 0x1_0000_0000,
    ensures
        local_record(name, data).len() == 30 + name.len() + data.len(),
        le32(local_record(name, data), 0) == LOCAL,
        le16(local_record(name, data), 26) == name.len(),
        le16(local_record(name, data), 28) == 0,
        local_record(name, data).subrange(30 + name.len() as int, 30 + name.len() + data.len() as int) == data,
{
    let r = local_record(name, data);
    lemma_le32_bytes32(LOCAL as int);
    lemma_le16_bytes16(name.len() as int);
    let c = bytes32(LOCAL as int);
    let nb = bytes16(name.len() as int);
    assert(r[0] == c[0] && r[1] == c[1] && r[2] == c[2] && r[3] == c[3]);
    assert(r[26] == nb[0] && r[27] == nb[1]);
    assert(r[28] == 0 && r[29] == 0);
    assert(r.subrange(30 + name.len() as int, 30 + name.len() + data.len() as int) =~= data);
}


/// The central headers of the first `k` entries begin those of the first `n`.
pub proof fn lemma_centrals_prefix(es: Seq<(Seq<u8>, Seq<u8>)>, k: int, n: int)
    requires
        0 <= k <= n <= es.len(),
    ensures
        central_records(es, k).len() <= central_records(es, n).len(),
        central_records(es, n).subrange(0, central_records(es, k).len() as int) == central_records(es, k),
    decreases n - k,
{
    if k < n {
        lemma_centrals_prefix(es, k, n - 1);
        let a = central_records(es, n - 1);
        let c = central_records(es, k);
        assert(central_records(es, n).subrange(0, c.len() as int) =~= a.subrange(0, c.len() as int));
    } else {
        assert(central_records(es, n).subrange(0, central_records(es, k).len() as int) =~= central_records(es, k));
    }
}

/// The local records of the first `k` entries begin those of the first `n`.
pub proof fn lemma_locals_prefix(es: Seq<(Seq<u8>, Seq<u8>)>, k: int, n: int)
    requires
        0 <= k <= n <= es.len(),
    ensures
        local_records(es, k).len() <= local_records(es, n).len(),
        local_records(es, n).subrange(0, local_records(es, k).len() as int) == local_records(es, k),
    decreases n - k,
{
    if k < n {
        lemma_locals_prefix(es, k, n - 1);
        let a = local_records(es, n - 1);
        let c = local_records(es, k);
        assert(local_records(es, n).subrange(0, c.len() as int) =~= a.subrange(0, c.len() as int));
    } else {
        assert(local_records(es, n).subrange(0, local_records(es, k).len() as int) =~= local_records(es, k));
    }
}

/// What the reader should find for entry `i`: stored, with the data's size, at its local
/// record's offset, under its name.
pub open spec fn expected_entry(es: Seq<(Seq<u8>, Seq<u8>)>, i: int) -> (Entry, Seq<u8>) {
    (Entry {
        method: 0,
        compressed: es[i].1.len() as usize,
        uncompressed: es[i].1.len() as usize,
        offset: local_records(es, i).len() as usize,
    }, es[i].0)
}

/// What the reader should find: each entry, in order.
pub open spec fn expected_entries(es: Seq<(Seq<u8>, Seq<u8>)>) -> Seq<(Entry, Seq<u8>)> {
    Seq::new(es.len(), |i: int| expected_entry(es, i))
}

/// Whether the archive is small enough for its 16- and 32-bit fields: fewer than 0xffff
/// entries, names shorter than 64 KiB, and less than 4 GiB in all.
pub open spec fn fits_zip_fields(es: Seq<(Seq<u8>, Seq<u8>)>) -> bool {
    &&& es.len() < 0xffff
    &&& apk_image(es).len() < 0x1_0000_0000
    &&& forall|i: int| 0 <= i < es.len() ==> (#[trigger] es[i]).0.len() < 0x10000
}

/// Whether no end-of-central-directory signature appears after the real one begins.
pub open spec fn no_late_eocd(b: Seq<u8>) -> bool {
    forall|p: int| b.len() - 22 < p < b.len() - 3 ==> #[trigger] le32(b, p) != EOCD
}

/// The backwards search finds the last signature before `stop`.
pub proof fn lemma_last_eocd_at(b: Seq<u8>, start: int, stop: int, q: int)
    requires
        start <= q < stop,
        q + 4 <= b.len(),
        le32(b, q) == EOCD,
        forall|p: int| q < p < stop && p + 4 <= b.len() ==> #[trigger] le32(b, p) != EOCD,
    ensures
        last_eocd(b, start, stop) == Some(q),
    decreases stop - start,
{
    if stop - 1 > q {
        assert(le32(b, stop - 1) != EOCD || stop - 1 + 4 > b.len());
        lemma_last_eocd_at(b, start, stop - 1, q);
    }
}


/// The sizes of the records.
pub proof fn lemma_record_sizes(es: Seq<(Seq<u8>, Seq<u8>)>, k: int)
    requires
        0 <= k <= es.len(),
    ensures
        k > 0 ==> local_records(es, k).len() == local_records(es, k - 1).len() + 30 + es[k - 1].0.len() + es[k - 1].1.len(),
        k > 0 ==> central_records(es, k).len() == central_records(es, k - 1).len() + 46 + es[k - 1].0.len(),
{
}

/// The archive's length: local records, central headers and the 22-byte end record.
pub proof fn lemma_image_len(es: Seq<(Seq<u8>, Seq<u8>)>)
    ensures
        apk_image(es).len() == local_records(es, es.len() as int).len() + central_records(es, es.len() as int).len() + 22,
{
    reveal(apk_image);
}

/// An entry's data and local offset lie within the archive.
pub proof fn lemma_entry_bounds(es: Seq<(Seq<u8>, Seq<u8>)>, k: int)
    requires
        0 <= k < es.len(),
    ensures
        local_records(es, k).len() + 30 + es[k].0.len() + es[k].1.len() <= local_records(es, es.len() as int).len(),
        local_records(es, es.len() as int).len() < apk_image(es).len(),
{
    lemma_locals_prefix(es, k + 1, es.len() as int);
    lemma_image_len(es);
}

/// Where the `k`-th central header of the synthetic archive starts.
pub open spec fn cd_pos(es: Seq<(Seq<u8>, Seq<u8>)>, k: int) -> int {
    local_records(es, es.len() as int).len() + central_records(es, k).len() as int
}

/// Reads at a header's fields read the header.
pub proof fn lemma_read_header(img: Seq<u8>, p: int, r: Seq<u8>)
    requires
        0 <= p,
        p + r.len() <= img.len(),
        r.len() >= 46,
        img.subrange(p, p + r.len()) == r,
    ensures
        le32(img, p) == le32(r, 0),
        le16(img, p + 10) == le16(r, 10),
        le32(img, p + 20) == le32(r, 20),
        le32(img, p + 24) == le32(r, 24),
        le16(img, p + 28) == le16(r, 28),
        le16(img, p + 30) == le16(r, 30),
        le16(img, p + 32) == le16(r, 32),
        le32(img, p + 42) == le32(r, 42),
{
    assert(img[p + 0] == img.subrange(p, p + r.len())[0]);
    assert(img[p + 1] == img.subrange(p, p + r.len())[1]);
    assert(img[p + 2] == img.subrange(p, p + r.len())[2]);
    assert(img[p + 3] == img.subrange(p, p + r.len())[3]);
    assert(img[p + 10] == img.subrange(p, p + r.len())[10]);
    assert(img[p + 11] == img.subrange(p, p + r.len())[11]);
    assert(img[p + 20] == img.subrange(p, p + r.len())[20]);
    assert(img[p + 21] == img.subrange(p, p + r.len())[21]);
    assert(img[p + 22] == img.subrange(p, p + r.len())[22]);
    assert(img[p + 23] == img.subrange(p, p + r.len())[23]);
    assert(img[p + 24] == img.subrange(p, p + r.len())[24]);
    assert(img[p + 25] == img.subrange(p, p + r.len())[25]);
    assert(img[p + 26] == img.subrange(p, p + r.len())[26]);
    assert(img[p + 27] == img.subrange(p, p + r.len())[27]);
    assert(img[p + 28] == img.subrange(p, p + r.len())[28]);
    assert(img[p + 29] == img.subrange(p, p + r.len())[29]);
    assert(img[p + 30] == img.subrange(p, p + r.len())[30]);
    assert(img[p + 31] == img.subrange(p, p + r.len())[31]);
    assert(img[p + 32] == img.subrange(p, p + r.len())[32]);
    assert(img[p + 33] == img.subrange(p, p + r.len())[33]);
    assert(img[p + 42] == img.subrange(p, p + r.len())[42]);
    assert(img[p + 43] == img.subrange(p, p + r.len())[43]);
    assert(img[p + 44] == img.subrange(p, p + r.len())[44]);
    assert(img[p + 45] == img.subrange(p, p + r.len())[45]);
}

/// The `k`-th central header lies where the reader looks for it.
#[verifier::spinoff_prover]
pub proof fn lemma_header_in_image(es: Seq<(Seq<u8>, Seq<u8>)>, k: int)
    requires
        0 <= k < es.len(),
    ensures
        ({
            let r = central_record(es[k].0, es[k].1, low32(local_records(es, k).len() as int));
            &&& cd_pos(es, k + 1) == cd_pos(es, k) + r.len()
            &&& cd_pos(es, k + 1) + 22 <= apk_image(es).len()
            &&& apk_image(es).subrange(cd_pos(es, k), cd_pos(es, k) + r.len()) == r
        }),
{
    lemma_image_parts(es);
    lemma_image_len(es);
    let n = es.len() as int;
    let img = apk_image(es);
    let l = local_records(es, n);
    let c = central_records(es, n);
    let ck = central_records(es, k);
    let ck1 = central_records(es, k + 1);
    lemma_centrals_prefix(es, k + 1, n);
    let r = central_record(es[k].0, es[k].1, low32(local_records(es, k).len() as int));
    assert(ck1 == ck + r);
    let p = cd_pos(es, k);
    assert(c.subrange(0, ck1.len() as int) == ck1);
    assert(img.subrange(p, p + r.len()) =~= r) by {
        assert forall|j: int| 0 <= j < r.len() implies #[trigger] img.subrange(p, p + r.len())[j] == r[j] by {
            assert(img[p + j] == c[ck.len() + j]);
            assert(c[ck.len() + j] == ck1[ck.len() + j]);
        }
    }
}


/// The reader parses the `k`-th central header of the synthetic archive as the `k`-th
/// entry, and goes on to the next header.
#[verifier::spinoff_prover]
#[verifier::rlimit(60)]
pub proof fn lemma_central_at(es: Seq<(Seq<u8>, Seq<u8>)>, k: int)
    requires
        fits_zip_fields(es),
        0 <= k < es.len(),
    ensures
        central_at(apk_image(es), cd_pos(es, k)) == Some((expected_entry(es, k).0, expected_entry(es, k).1, cd_pos(es, k + 1))),
{
    reveal(central_at);
    let n = es.len() as int;
    let img = apk_image(es);
    let (name, data) = es[k];
    lemma_locals_prefix(es, k, n);
    let off = local_records(es, k).len() as int;
    let r = central_record(name, data, low32(off));
    lemma_header_in_image(es, k);
    assert(name.len() < 0x10000);
    lemma_entry_bounds(es, k);
    lemma_central_fields(name, data, low32(off));
    let p = cd_pos(es, k);
    lemma_read_header(img, p, r);
    assert(img.subrange(p + 46, p + 46 + name.len()) =~= r.subrange(46, 46 + name.len() as int)) by {
        assert forall|j: int| 0 <= j < name.len() implies #[trigger] img.subrange(p + 46, p + 46 + name.len())[j]
            == r.subrange(46, 46 + name.len() as int)[j] by {
            assert(img[p + 46 + j] == img.subrange(p, p + r.len())[46 + j]);
        }
    }
    assert(low32(off) == off);
    let nl = le16(img, p + 28);
    assert(nl == name.len());
    assert(le16(img, p + 30) == 0 && le16(img, p + 32) == 0);
    assert(p + 46 + nl <= img.len());
    let ent = Entry {
        method: le16(img, p + 10) as u16,
        compressed: le32(img, p + 20) as usize,
        uncompressed: le32(img, p + 24) as usize,
        offset: le32(img, p + 42) as usize,
    };
    assert(ent == expected_entry(es, k).0);
}


/// From the `k`-th header on, the reader finds the remaining entries.
pub proof fn lemma_central_list_from(es: Seq<(Seq<u8>, Seq<u8>)>, k: int)
    requires
        fits_zip_fields(es),
        0 <= k <= es.len(),
    ensures
        central_list(apk_image(es), cd_pos(es, k), es.len() - k)
            == Some(expected_entries(es).subrange(k, es.len() as int)),
    decreases es.len() - k,
{
    if k < es.len() {
        lemma_central_at(es, k);
        lemma_central_list_from(es, k + 1);
        let ex = expected_entries(es);
        assert(seq![(ex[k].0, ex[k].1)] + ex.subrange(k + 1, es.len() as int) =~= ex.subrange(k, es.len() as int));
    } else {
        assert(expected_entries(es).subrange(k, es.len() as int) =~= Seq::<(Entry, Seq<u8>)>::empty());
    }
}

/// The fields of the end record.
pub proof fn lemma_eocd_fields(count: int, cd_len: int, cd_start: int)
    requires
        0 <= count < 0x10000,
        0 <= cd_len < 0x1_0000_0000,
        0 <= cd_start < 0x1_0000_0000,
    ensures
        eocd_record(count, cd_len, cd_start).len() == 22,
        le32(eocd_record(count, cd_len, cd_start), 0) == EOCD,
        le16(eocd_record(count, cd_len, cd_start), 10) == count,
        le32(eocd_record(count, cd_len, cd_start), 12) == cd_len,
        le32(eocd_record(count, cd_len, cd_start), 16) == cd_start,
{
    let r = eocd_record(count, cd_len, cd_start);
    lemma_le32_bytes32(EOCD as int);
    lemma_le16_bytes16(count);
    lemma_le32_bytes32(cd_len);
    lemma_le32_bytes32(cd_start);
    let m = bytes32(EOCD as int);
    let c = bytes16(count);
    let a = bytes32(cd_len);
    let b = bytes32(cd_start);
    assert(r[0] == m[0] && r[1] == m[1] && r[2] == m[2] && r[3] == m[3]);
    assert(r[10] == c[0] && r[11] == c[1]);
    assert(r[12] == a[0] && r[13] == a[1] && r[14] == a[2] && r[15] == a[3]);
    assert(r[16] == b[0] && r[17] == b[1] && r[18] == b[2] && r[19] == b[3]);
}

/// The archive is its local records, its central headers and its end record.
pub proof fn lemma_image_parts(es: Seq<(Seq<u8>, Seq<u8>)>)
    ensures
        apk_image(es) == (local_records(es, es.len() as int) + central_records(es, es.len() as int))
            + eocd_record(es.len() as int % 0x10000, low32(central_records(es, es.len() as int).len() as int),
                low32(local_records(es, es.len() as int).len() as int)) + Seq::<u8>::empty(),
{
    reveal(apk_image);
    let l = local_records(es, es.len() as int);
    let c = central_records(es, es.len() as int);
    let e = eocd_record(es.len() as int % 0x10000, low32(c.len() as int), low32(l.len() as int));
    assert(l + c + e =~= (l + c) + e + Seq::<u8>::empty());
}

/// The end record is where the reader searches for it, and says how many entries there are
/// and where the central directory is.
#[verifier::spinoff_prover]
#[verifier::rlimit(60)]
pub proof fn lemma_eocd_located(es: Seq<(Seq<u8>, Seq<u8>)>)
    requires
        fits_zip_fields(es),
        no_late_eocd(apk_image(es)),
    ensures
        eocd_position(apk_image(es)) == Some(apk_image(es).len() - 22),
        le16(apk_image(es), apk_image(es).len() - 22 + 10) == es.len(),
        le32(apk_image(es), apk_image(es).len() - 22 + 12) == central_records(es, es.len() as int).len(),
        le32(apk_image(es), apk_image(es).len() - 22 + 16) == local_records(es, es.len() as int).len(),
{
    let n = es.len() as int;
    let img = apk_image(es);
    let l = local_records(es, n);
    let c = central_records(es, n);
    lemma_image_len(es);
    let pos = img.len() - 22;
    let e = eocd_record(n % 0x10000, low32(c.len() as int), low32(l.len() as int));
    lemma_image_parts(es);
    lemma_eocd_fields(n % 0x10000, low32(c.len() as int), low32(l.len() as int));
    crate::wire::lemma_le32_in_middle(l + c, e, Seq::empty(), 0);
    crate::wire::lemma_le32_in_middle(l + c, e, Seq::empty(), 10);
    crate::wire::lemma_le32_in_middle(l + c, e, Seq::empty(), 12);
    crate::wire::lemma_le32_in_middle(l + c, e, Seq::empty(), 16);
    assert(low32(c.len() as int) == c.len());
    assert(low32(l.len() as int) == l.len());
    assert(n % 0x10000 == n);
    assert(le32(img, pos) == EOCD);
    assert(le16(img, pos + 10) == n);
    lemma_eocd_search(img);
}

/// The backwards search stops at the end record when no stray signature follows it.
pub proof fn lemma_eocd_search(img: Seq<u8>)
    requires
        img.len() >= 22,
        le32(img, img.len() - 22) == EOCD,
        no_late_eocd(img),
    ensures
        eocd_position(img) == Some(img.len() - 22),
{
    let pos = img.len() - 22;
    let start = if img.len() >= 22 + 65535 { img.len() - (22 + 65535) } else { 0 };
    let stop = if img.len() >= 3 { img.len() - 3 } else { 0 };
    lemma_last_eocd_at(img, start, stop, pos);
}

/// Reading back a synthetic archive: when its fields hold the sizes exactly and no stray
/// end-of-central-directory signature follows the real one, the reader finds every entry,
/// in order, stored, with its name, size and local offset.
pub proof fn lemma_synthetic_apk_reads_back(es: Seq<(Seq<u8>, Seq<u8>)>)
    requires
        fits_zip_fields(es),
        no_late_eocd(apk_image(es)),
    ensures
        spec_central_entries(apk_image(es)) == Some(expected_entries(es)),
{
    let n = es.len() as int;
    lemma_eocd_located(es);
    lemma_image_len(es);
    lemma_central_list_from(es, 0);
    assert(cd_pos(es, 0) == local_records(es, n).len());
    assert(expected_entries(es).subrange(0, n) =~= expected_entries(es));
}


/// The `i`-th local record lies at the offset its central header gives.
#[verifier::spinoff_prover]
pub proof fn lemma_local_in_image(es: Seq<(Seq<u8>, Seq<u8>)>, i: int)
    requires
        0 <= i < es.len(),
    ensures
        ({
            let r = local_record(es[i].0, es[i].1);
            let off = local_records(es, i).len() as int;
            &&& off + r.len() <= apk_image(es).len()
            &&& apk_image(es).subrange(off, off + r.len()) == r
        }),
{
    let n = es.len() as int;
    lemma_image_parts(es);
    lemma_image_len(es);
    let img = apk_image(es);
    let l = local_records(es, n);
    let li = local_records(es, i);
    let li1 = local_records(es, i + 1);
    lemma_locals_prefix(es, i + 1, n);
    let r = local_record(es[i].0, es[i].1);
    assert(li1 == li + r);
    let off = li.len() as int;
    assert(l.subrange(0, li1.len() as int) == li1);
    assert(img.subrange(off, off + r.len()) =~= r) by {
        assert forall|j: int| 0 <= j < r.len() implies #[trigger] img.subrange(off, off + r.len())[j] == r[j] by {
            assert(img[off + j] == l[li.len() + j]);
            assert(l[li.len() + j] == li1[li.len() + j]);
        }
    }
}

/// Reading back an entry's data: a stored entry of a synthetic archive, within the reader's
/// size limit, reads as the data that was packed.
pub proof fn lemma_synthetic_entry_reads_back(es: Seq<(Seq<u8>, Seq<u8>)>, i: int)
    requires
        fits_zip_fields(es),
        0 <= i < es.len(),
        es[i].1.len() <= MAX_ENTRY,
    ensures
        stored_data(apk_image(es), expected_entry(es, i).0) == Some(es[i].1),
{
    let img = apk_image(es);
    let (name, data) = es[i];
    lemma_local_in_image(es, i);
    lemma_entry_bounds(es, i);
    assert(name.len() < 0x10000);
    lemma_local_fields(name, data);
    let r = local_record(name, data);
    let off = local_records(es, i).len() as int;
    assert(img[off + 0] == img.subrange(off, off + r.len())[0]);
    assert(img[off + 1] == img.subrange(off, off + r.len())[1]);
    assert(img[off + 2] == img.subrange(off, off + r.len())[2]);
    assert(img[off + 3] == img.subrange(off, off + r.len())[3]);
    assert(img[off + 26] == img.subrange(off, off + r.len())[26]);
    assert(img[off + 27] == img.subrange(off, off + r.len())[27]);
    assert(img[off + 28] == img.subrange(off, off + r.len())[28]);
    assert(img[off + 29] == img.subrange(off, off + r.len())[29]);
    let s0 = off + 30 + name.len();
    assert(img.subrange(s0, s0 + data.len()) =~= data) by {
        assert forall|j: int| 0 <= j < data.len() implies #[trigger] img.subrange(s0, s0 + data.len())[j] == data[j] by {
            assert(img[s0 + j] == img.subrange(off, off + r.len())[30 + name.len() + j]);
        }
    }
}

} // verus!
