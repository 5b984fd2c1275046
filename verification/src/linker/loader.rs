//! Loading AArch64 shared libraries: mapping segments into a guest memory region, reading the
//! dynamic section, registering exports, applying relocations and collecting startup routines.

use vstd::prelude::*;
use crate::linker::elf::{ElfError, Elf64Dyn, Elf64Phdr, Elf64Rela, ParsedElf, DT_STRTAB, DT_STRSZ, DT_SYMTAB, DT_RELA, DT_RELASZ, DT_JMPREL, DT_PLTRELSZ, DT_INIT, DT_INIT_ARRAY, DT_INIT_ARRAYSZ, DT_FINI, DT_FINI_ARRAY, DT_FINI_ARRAYSZ, PF_X, PF_R, PF_W, R_AARCH64_NONE, R_AARCH64_RELATIVE, R_AARCH64_GLOB_DAT, R_AARCH64_JUMP_SLOT, R_AARCH64_ABS64, spec_rela, parsed_matches, spec_loads, min_vaddr, max_end, load_end_overflows, spec_dynamic_entries};
use crate::linker::symbols::{DynamicSymbolTable, SymbolRegistry, SymbolView, registered, last_exported, exported, symbol_address,
    table_len, table_symbol};
use crate::memory::mmap::{MemoryError, MemoryRegion, ProtFlags, VirtualMemoryManager, PROT_READ, PROT_WRITE, PROT_EXEC, spec_allocation};
use crate::memory::page::{PAGE_SIZE_16K, align_down_16k, align_up_16k, round_up_16k, round_down_16k, lemma_round_16k};
use crate::wire::{le64, bytes64, push_u64, read_u64, lemma_le_in_middle};

verus! {

/// Errors of loading and linking a library.
#[derive(Debug)]
pub enum LoaderError {
    Elf(ElfError),
    Memory(MemoryError),
    UnresolvedSymbol(String),
    UnsupportedRelocation(u32),
    IoError(String),
    RelocationFailed { offset: usize, msg: String },
    InvalidStartupAddress(usize),
}

/// How a startup routine was declared.
#[derive(Debug, Clone, Copy, PartialEq, Eq, Structural)]
pub enum InitRoutineKind {
    DtInit,
    DtInitArray,
}

/// A startup routine, in the order it must run.
#[derive(Debug, Clone, Copy, PartialEq, Eq, Structural)]
pub struct InitRoutine {
    pub address: usize,
    pub kind: InitRoutineKind,
    pub order: usize,
}

/// Where a library is in its life.
#[derive(Debug, Clone, Copy, PartialEq, Eq, Structural)]
pub enum LibraryLifecycle {
    Loaded,
    StartupPrepared,
    Initialized,
    Finalized,
}

/// A loaded, relocated library.
#[derive(Debug)]
pub struct LoadedLibrary {
    pub name: String,
    pub load_base: usize,
    pub mem_region: MemoryRegion,
    pub symtab: DynamicSymbolTable,
    pub init_array: Vec<usize>,
    pub fini_array: Vec<usize>,
    pub entry_point: Option<usize>,
    pub init: Option<usize>,
    pub jni_on_load: Option<usize>,
    pub init_routines: Vec<InitRoutine>,
    /// The protection of each loadable segment: guest address, length and flags.
    pub segment_protections: Vec<(usize, usize, ProtFlags)>,
    /// Where the library is in its life.
    pub lifecycle: LibraryLifecycle,
}

/// The image offset of a virtual address, or the error for one before the image or too large.
pub open spec fn spec_va_offset(vaddr_min: u64, va: u64) -> Option<usize> {
    if va < vaddr_min || va - vaddr_min > usize::MAX { None } else { Some((va - vaddr_min) as usize) }
}

impl LoadedLibrary {
    pub open spec fn spec_lifecycle(&self) -> LibraryLifecycle {
        self.lifecycle
    }

    /// The address of the exported symbol `name`.
    pub fn lookup_symbol(&self, name: &str) -> (r: Option<usize>)
        ensures
            match last_exported(self.symtab.syms(), name@) {
                Some(i) => r == Some(symbol_address(self.symtab.syms()[i])),
                None => r is None,
            },
    {
        match self.symtab.lookup(name) {
            Some(s) => Some(s.address),
            None => None,
        }
    }

    pub fn lifecycle(&self) -> (r: LibraryLifecycle)
        ensures
            r == self.spec_lifecycle(),
    {
        self.lifecycle
    }

    /// Moves a freshly loaded library to startup-prepared; true when it did.
    pub fn prepare_startup(&mut self) -> (r: bool)
        ensures
            r == (old(self).spec_lifecycle() == LibraryLifecycle::Loaded),
            final(self).spec_lifecycle() == (if r { LibraryLifecycle::StartupPrepared } else { old(self).spec_lifecycle() }),
            final(self).load_base == old(self).load_base,
            final(self).init_routines@ == old(self).init_routines@,
            final(self).jni_on_load == old(self).jni_on_load,
            final(self).name@ == old(self).name@,
            final(self).symtab.syms() == old(self).symtab.syms(),
    {
        if self.lifecycle == LibraryLifecycle::Loaded {
            self.lifecycle = LibraryLifecycle::StartupPrepared;
            true
        } else {
            false
        }
    }

    /// Records that the startup routines ran; only a prepared library can be initialized.
    pub fn mark_initialized(&mut self) -> (r: bool)
        ensures
            r == (old(self).spec_lifecycle() == LibraryLifecycle::StartupPrepared),
            final(self).spec_lifecycle() == (if r { LibraryLifecycle::Initialized } else { old(self).spec_lifecycle() }),
    {
        if self.lifecycle == LibraryLifecycle::StartupPrepared {
            self.lifecycle = LibraryLifecycle::Initialized;
            true
        } else {
            false
        }
    }
}

/// Startup runs at most once: preparing succeeds only from the loaded state, so a second
/// preparation of the same library is refused.
pub proof fn lemma_prepare_once(l: LibraryLifecycle)
    ensures
        l == LibraryLifecycle::Loaded ==> (if l == LibraryLifecycle::Loaded { LibraryLifecycle::StartupPrepared } else { l })
            != LibraryLifecycle::Loaded,
{
}

/// The dynamic-section values the loader uses (image offsets and sizes).
pub struct DynamicInfo {
    pub strtab: Option<usize>,
    pub strsz: usize,
    pub symtab: Option<usize>,
    pub rela: Option<usize>,
    pub relasz: usize,
    pub jmprel: Option<usize>,
    pub pltrelsz: usize,
    pub init: Option<usize>,
    pub init_array: Option<usize>,
    pub init_arraysz: usize,
    pub fini: Option<usize>,
    pub fini_array: Option<usize>,
    pub fini_arraysz: usize,
}

/// No dynamic values read yet.
pub open spec fn empty_info() -> DynamicInfo {
    DynamicInfo {
        strtab: None, strsz: 0, symtab: None, rela: None, relasz: 0, jmprel: None, pltrelsz: 0, init: None,
        init_array: None, init_arraysz: 0, fini: None, fini_array: None, fini_arraysz: 0,
    }
}

/// `info` after dynamic entry `d`: an address tag records the image offset of its value, a
/// size tag records its value, other tags change nothing; `None` when a value does not fit.
pub open spec fn dyn_step(info: DynamicInfo, d: Elf64Dyn, vaddr_min: u64) -> Option<DynamicInfo> {
    let t = d.d_tag;
    if t == DT_STRTAB || t == DT_SYMTAB || t == DT_RELA || t == DT_JMPREL || t == DT_INIT || t == DT_INIT_ARRAY
        || t == DT_FINI || t == DT_FINI_ARRAY {
        match spec_va_offset(vaddr_min, d.d_val) {
            None => None,
            Some(o) => Some(
                if t == DT_STRTAB { DynamicInfo { strtab: Some(o), ..info } }
                else if t == DT_SYMTAB { DynamicInfo { symtab: Some(o), ..info } }
                else if t == DT_RELA { DynamicInfo { rela: Some(o), ..info } }
                else if t == DT_JMPREL { DynamicInfo { jmprel: Some(o), ..info } }
                else if t == DT_INIT { DynamicInfo { init: Some(o), ..info } }
                else if t == DT_INIT_ARRAY { DynamicInfo { init_array: Some(o), ..info } }
                else if t == DT_FINI { DynamicInfo { fini: Some(o), ..info } }
                else { DynamicInfo { fini_array: Some(o), ..info } }
            ),
        }
    } else if t == DT_STRSZ || t == DT_RELASZ || t == DT_PLTRELSZ || t == DT_INIT_ARRAYSZ || t == DT_FINI_ARRAYSZ {
        if d.d_val > usize::MAX {
            None
        } else {
            let v = d.d_val as usize;
            Some(
                if t == DT_STRSZ { DynamicInfo { strsz: v, ..info } }
                else if t == DT_RELASZ { DynamicInfo { relasz: v, ..info } }
                else if t == DT_PLTRELSZ { DynamicInfo { pltrelsz: v, ..info } }
                else if t == DT_INIT_ARRAYSZ { DynamicInfo { init_arraysz: v, ..info } }
                else { DynamicInfo { fini_arraysz: v, ..info } }
            )
        }
    } else {
        Some(info)
    }
}

/// The dynamic values after the first `k` entries, or `None` when one does not fit.
pub open spec fn spec_dynamic_info(es: Seq<Elf64Dyn>, vaddr_min: u64, k: int) -> Option<DynamicInfo>
    decreases k,
{
    if k <= 0 {
        Some(empty_info())
    } else {
        match spec_dynamic_info(es, vaddr_min, k - 1) {
            None => None,
            Some(i) => dyn_step(i, es[k - 1], vaddr_min),
        }
    }
}

proof fn lemma_dynamic_info_none(es: Seq<Elf64Dyn>, vaddr_min: u64, k: int, n: int)
    requires
        0 <= k <= n,
        spec_dynamic_info(es, vaddr_min, k) is None,
    ensures
        spec_dynamic_info(es, vaddr_min, n) is None,
    decreases n - k,
{
    if k < n {
        lemma_dynamic_info_none(es, vaddr_min, k + 1, n);
    }
}

/// The nonzero words among the first `count` 64-bit words at `off`, as addresses.
pub open spec fn fini_words(c: Seq<u8>, off: int, count: int) -> Seq<usize>
    decreases count,
{
    if count <= 0 {
        Seq::empty()
    } else {
        let prev = fini_words(c, off, count - 1);
        let w = le64(c, off + 8 * (count - 1)) as u64;
        if w != 0 { prev.push(w as usize) } else { prev }
    }
}

/// The finalizers of an image with contents `c` of `len` bytes loaded at `load_base`.
pub open spec fn spec_fini(c: Seq<u8>, len: int, info: DynamicInfo, load_base: usize) -> Seq<usize> {
    (match info.fini {
        Some(f) => if f != 0 { seq![vstd::wrapping::usize_specs::wrapping_add(load_base, f)] } else { Seq::empty() },
        None => Seq::empty(),
    }) + (match info.fini_array {
        Some(off) => if off + info.fini_arraysz <= len {
            fini_words(c, off as int, info.fini_arraysz as int / 8)
        } else {
            Seq::empty()
        },
        None => Seq::empty(),
    })
}

/// The startup routines among the first `count` words of `DT_INIT_ARRAY` at `off` in an image
/// at `base` of `len` bytes, or the first address that lies outside the image.
pub open spec fn init_words(c: Seq<u8>, off: int, count: int, base: int, len: int) -> Result<Seq<InitRoutine>, usize>
    decreases count,
{
    if count <= 0 {
        Ok(Seq::empty())
    } else {
        match init_words(c, off, count - 1, base, len) {
            Err(a) => Err(a),
            Ok(prev) => {
                let w = le64(c, off + 8 * (count - 1)) as u64;
                if w == 0 {
                    Ok(prev)
                } else if w > usize::MAX - base {
                    Err(w as usize)
                } else if base + w >= base + len {
                    Err((base + w) as usize)
                } else {
                    Ok(prev.push(InitRoutine { address: (base + w) as usize, kind: InitRoutineKind::DtInitArray,
                        order: (count - 1) as usize }))
                }
            },
        }
    }
}

/// The startup routines of an image with contents `c` at `base` of `len` bytes: `DT_INIT`,
/// then the nonzero `DT_INIT_ARRAY` words when the array lies in the image; or the first
/// address that lies outside it.
pub open spec fn spec_init(c: Seq<u8>, base: int, len: int, info: DynamicInfo) -> Result<Seq<InitRoutine>, usize> {
    let first: Result<Seq<InitRoutine>, usize> = match info.init {
        Some(i) => if i == 0 {
            Ok(Seq::empty())
        } else if base > usize::MAX - i {
            Err(i)
        } else if base + i >= base + len {
            Err((base + i) as usize)
        } else {
            Ok(seq![InitRoutine { address: (base + i) as usize, kind: InitRoutineKind::DtInit, order: 0 }])
        },
        None => Ok(Seq::empty()),
    };
    match first {
        Err(a) => Err(a),
        Ok(h) => match info.init_array {
            Some(off) => if off + info.init_arraysz <= len {
                match init_words(c, off as int, info.init_arraysz as int / 8, base, len) {
                    Err(a) => Err(a),
                    Ok(ws) => Ok(h + ws),
                }
            } else {
                Ok(h)
            },
            None => Ok(h),
        },
    }
}

proof fn lemma_init_words_err(c: Seq<u8>, off: int, k: int, n: int, base: int, len: int)
    requires
        0 <= k <= n,
        init_words(c, off, k, base, len) is Err,
    ensures
        init_words(c, off, n, base, len) == init_words(c, off, k, base, len),
    decreases n - k,
{
    if k < n {
        lemma_init_words_err(c, off, k, n - 1, base, len);
    }
}

/// The protection bits a segment's flags ask for.
pub open spec fn segment_prot(ph: Elf64Phdr) -> ProtFlags {
    ProtFlags((if (ph.p_flags & PF_R) != 0 { PROT_READ } else { 0 })
        | (if (ph.p_flags & PF_W) != 0 { PROT_WRITE } else { 0 })
        | (if (ph.p_flags & PF_X) != 0 { PROT_EXEC } else { 0 }))
}

/// The page range (address, length) and protection of a segment of an image at `base` of
/// `len` bytes, or `None` when its range is out of the image.
pub open spec fn segment_range(ph: Elf64Phdr, vaddr_min: u64, base: int, len: int) -> Option<(usize, usize, ProtFlags)> {
    match spec_va_offset(vaddr_min, ph.p_vaddr) {
        None => None,
        Some(s) => if ph.p_vaddr > u64::MAX - ph.p_memsz {
            None
        } else {
            match spec_va_offset(vaddr_min, (ph.p_vaddr + ph.p_memsz) as u64) {
                None => None,
                Some(e) => {
                    let start = round_down_16k(s as int);
                    let end = round_up_16k(e as int);
                    if e > len || end > len || start >= end {
                        None
                    } else {
                        Some(((base + start) as usize, (end - start) as usize, segment_prot(ph)))
                    }
                },
            }
        },
    }
}

/// The ranges of the first `k` segments, or `None` when one is out of the image.
pub open spec fn segment_ranges(loads: Seq<Elf64Phdr>, vaddr_min: u64, base: int, len: int, k: int)
    -> Option<Seq<(usize, usize, ProtFlags)>>
    decreases k,
{
    if k <= 0 {
        Some(Seq::empty())
    } else {
        match segment_ranges(loads, vaddr_min, base, len, k - 1) {
            None => None,
            Some(prev) => match segment_range(loads[k - 1], vaddr_min, base, len) {
                None => None,
                Some(x) => Some(prev.push(x)),
            },
        }
    }
}

proof fn lemma_segment_ranges_none(loads: Seq<Elf64Phdr>, vaddr_min: u64, base: int, len: int, k: int, n: int)
    requires
        0 <= k <= n,
        segment_ranges(loads, vaddr_min, base, len, k) is None,
    ensures
        segment_ranges(loads, vaddr_min, base, len, n) is None,
    decreases n - k,
{
    if k < n {
        lemma_segment_ranges_none(loads, vaddr_min, base, len, k + 1, n);
    }
}

/// The contents `c` after copying segment `ph`'s file bytes from `b` to its place, or `None`
/// when the segment does not fit the file or the image.
pub open spec fn map_segment(c: Seq<u8>, b: Seq<u8>, ph: Elf64Phdr, vaddr_min: u64) -> Option<Seq<u8>> {
    if ph.p_offset > usize::MAX || ph.p_filesz > usize::MAX || ph.p_memsz > usize::MAX || ph.p_filesz > ph.p_memsz {
        None
    } else {
        match spec_va_offset(vaddr_min, ph.p_vaddr) {
            None => None,
            Some(d) => if d + ph.p_memsz > usize::MAX || d + ph.p_memsz > c.len() {
                None
            } else if ph.p_filesz == 0 {
                Some(c)
            } else if ph.p_offset + ph.p_filesz > usize::MAX || ph.p_offset + ph.p_filesz > b.len() {
                None
            } else {
                Some(c.subrange(0, d as int) + b.subrange(ph.p_offset as int, ph.p_offset + ph.p_filesz)
                    + c.subrange(d + ph.p_filesz, c.len() as int))
            },
        }
    }
}

/// The contents after mapping the first `k` segments, or `None` when one does not fit.
pub open spec fn map_segments_spec(c: Seq<u8>, b: Seq<u8>, loads: Seq<Elf64Phdr>, vaddr_min: u64, k: int) -> Option<Seq<u8>>
    decreases k,
{
    if k <= 0 {
        Some(c)
    } else {
        match map_segments_spec(c, b, loads, vaddr_min, k - 1) {
            None => None,
            Some(c2) => map_segment(c2, b, loads[k - 1], vaddr_min),
        }
    }
}

proof fn lemma_map_segments_none(c: Seq<u8>, b: Seq<u8>, loads: Seq<Elf64Phdr>, vaddr_min: u64, k: int, n: int)
    requires
        0 <= k <= n,
        map_segments_spec(c, b, loads, vaddr_min, k) is None,
    ensures
        map_segments_spec(c, b, loads, vaddr_min, n) is None,
    decreases n - k,
{
    if k < n {
        lemma_map_segments_none(c, b, loads, vaddr_min, k + 1, n);
    }
}

/// The ELF loader.
pub struct ElfLoader;

impl ElfLoader {
    /// The image offset of `va`.
    fn va_to_offset(vaddr_min: u64, va: u64) -> (r: Result<usize, LoaderError>)
        ensures
            match spec_va_offset(vaddr_min, va) {
                Some(o) => r == Ok::<usize, LoaderError>(o),
                None => r is Err,
            },
    {
        if va < vaddr_min {
            return Err(LoaderError::Elf(ElfError::CorruptedData("Virtual address precedes PT_LOAD range")));
        }
        let d = va - vaddr_min;
        if d > usize::MAX as u64 {
            return Err(LoaderError::Elf(ElfError::CorruptedData("Virtual address is too large")));
        }
        Ok(d as usize)
    }

    fn size_of(v: u64, msg: &'static str) -> (r: Result<usize, LoaderError>)
        ensures
            v <= usize::MAX ==> r == Ok::<usize, LoaderError>(v as usize),
            v > usize::MAX ==> r is Err,
    {
        if v > usize::MAX as u64 {
            return Err(LoaderError::Elf(ElfError::CorruptedData(msg)));
        }
        Ok(v as usize)
    }

    /// Copies the file bytes of every loadable segment to its place in the region, after
    /// checking the segment against the file and the region.
    #[verifier::spinoff_prover]
    #[verifier::rlimit(60)]
    fn map_segments(region: &mut MemoryRegion, elf_bytes: &[u8], loads: &Vec<Elf64Phdr>, vaddr_min: u64) -> (r: Result<(), LoaderError>)
        requires
            old(region).inv(),
        ensures
            final(region).inv(),
            final(region).spec_base() == old(region).spec_base(),
            final(region).spec_len() == old(region).spec_len(),
            final(region).spec_prot() == old(region).spec_prot(),
            match map_segments_spec(old(region).contents(), elf_bytes@, loads@, vaddr_min, loads@.len() as int) {
                Some(c) => r is Ok && final(region).contents() == c,
                None => r is Err,
            },
    {
        let ghost c0 = region.contents();
        let mut i: usize = 0;
        while i < loads.len()
            invariant
                0 <= i <= loads@.len(),
                region.inv(),
                region.spec_base() == old(region).spec_base(),
                region.spec_len() == old(region).spec_len(),
                region.spec_prot() == old(region).spec_prot(),
                c0 == old(region).contents(),
                map_segments_spec(c0, elf_bytes@, loads@, vaddr_min, i as int) == Some(region.contents()),
            decreases loads@.len() - i,
        {
            let phdr = loads[i];
            proof {
                region.lemma_inv();
                if map_segments_spec(c0, elf_bytes@, loads@, vaddr_min, i + 1) is None {
                    lemma_map_segments_none(c0, elf_bytes@, loads@, vaddr_min, i + 1, loads@.len() as int);
                }
            }
            let seg_offset = match Self::size_of(phdr.p_offset, "PT_LOAD file offset is too large") {
                Ok(v) => v,
                Err(e) => return Err(e),
            };
            let seg_filesz = match Self::size_of(phdr.p_filesz, "PT_LOAD file size is too large") {
                Ok(v) => v,
                Err(e) => return Err(e),
            };
            let seg_memsz = match Self::size_of(phdr.p_memsz, "PT_LOAD memory size is too large") {
                Ok(v) => v,
                Err(e) => return Err(e),
            };
            if seg_filesz > seg_memsz {
                return Err(LoaderError::Elf(ElfError::CorruptedData("PT_LOAD file size exceeds memory size")));
            }
            let dest_offset = match Self::va_to_offset(vaddr_min, phdr.p_vaddr) {
                Ok(v) => v,
                Err(e) => return Err(e),
            };
            if dest_offset > usize::MAX - seg_memsz {
                return Err(LoaderError::Elf(ElfError::CorruptedData("PT_LOAD memory range overflows")));
            }
            let dest_end = dest_offset + seg_memsz;
            if dest_end > region.len() {
                return Err(LoaderError::Elf(ElfError::CorruptedData("PT_LOAD segment exceeds mapped bounds")));
            }
            if seg_filesz > 0 {
                if seg_offset > usize::MAX - seg_filesz {
                    return Err(LoaderError::Elf(ElfError::CorruptedData("PT_LOAD file range overflows")));
                }
                let file_end = seg_offset + seg_filesz;
                if file_end > elf_bytes.len() {
                    return Err(LoaderError::Elf(ElfError::BufferTooSmall { expected: file_end, found: elf_bytes.len() }));
                }
                let ghost before = region.contents();
                region.store(dest_offset, &elf_bytes[seg_offset..file_end]);
                assert(region.contents() =~= before.subrange(0, dest_offset as int)
                    + elf_bytes@.subrange(seg_offset as int, file_end as int)
                    + before.subrange(dest_offset + seg_filesz, before.len() as int));
            }
            i = i + 1;
        }
        Ok(())
    }

    /// Reads the dynamic entries the loader uses; later entries of a tag override earlier ones.
    fn read_dynamic_info(entries: &Vec<Elf64Dyn>, vaddr_min: u64) -> (r: Result<DynamicInfo, LoaderError>)
        ensures
            match spec_dynamic_info(entries@, vaddr_min, entries@.len() as int) {
                Some(i) => r == Ok::<DynamicInfo, LoaderError>(i),
                None => r is Err,
            },
    {
        let mut info = DynamicInfo {
            strtab: None,
            strsz: 0,
            symtab: None,
            rela: None,
            relasz: 0,
            jmprel: None,
            pltrelsz: 0,
            init: None,
            init_array: None,
            init_arraysz: 0,
            fini: None,
            fini_array: None,
            fini_arraysz: 0,
        };
        let mut i: usize = 0;
        while i < entries.len()
            invariant
                0 <= i <= entries@.len(),
                spec_dynamic_info(entries@, vaddr_min, i as int) == Some(info),
            decreases entries@.len() - i,
        {
            let d = entries[i];
            proof {
                if spec_dynamic_info(entries@, vaddr_min, i + 1) is None {
                    lemma_dynamic_info_none(entries@, vaddr_min, i + 1, entries@.len() as int);
                }
            }
            let tag = d.d_tag;
            if tag == DT_STRTAB || tag == DT_SYMTAB || tag == DT_RELA || tag == DT_JMPREL || tag == DT_INIT
                || tag == DT_INIT_ARRAY || tag == DT_FINI || tag == DT_FINI_ARRAY {
                let off = match Self::va_to_offset(vaddr_min, d.d_val) {
                    Ok(v) => v,
                    Err(e) => return Err(e),
                };
                if tag == DT_STRTAB {
                    info.strtab = Some(off);
                } else if tag == DT_SYMTAB {
                    info.symtab = Some(off);
                } else if tag == DT_RELA {
                    info.rela = Some(off);
                } else if tag == DT_JMPREL {
                    info.jmprel = Some(off);
                } else if tag == DT_INIT {
                    info.init = Some(off);
                } else if tag == DT_INIT_ARRAY {
                    info.init_array = Some(off);
                } else if tag == DT_FINI {
                    info.fini = Some(off);
                } else {
                    info.fini_array = Some(off);
                }
            } else if tag == DT_STRSZ {
                info.strsz = match Self::size_of(d.d_val, "String table size is too large") {
                    Ok(v) => v,
                    Err(e) => return Err(e),
                };
            } else if tag == DT_RELASZ {
                info.relasz = match Self::size_of(d.d_val, "Relocation table size is too large") {
                    Ok(v) => v,
                    Err(e) => return Err(e),
                };
            } else if tag == DT_PLTRELSZ {
                info.pltrelsz = match Self::size_of(d.d_val, "PLT relocation size is too large") {
                    Ok(v) => v,
                    Err(e) => return Err(e),
                };
            } else if tag == DT_INIT_ARRAYSZ {
                info.init_arraysz = match Self::size_of(d.d_val, "Init array size is too large") {
                    Ok(v) => v,
                    Err(e) => return Err(e),
                };
            } else if tag == DT_FINI_ARRAYSZ {
                info.fini_arraysz = match Self::size_of(d.d_val, "Fini array size is too large") {
                    Ok(v) => v,
                    Err(e) => return Err(e),
                };
            }
            i = i + 1;
        }
        Ok(info)
    }
}

/// What a relocation entry does: nothing, write a value, or fail.
pub enum RelocEffect {
    Skip,
    Write(u64),
    Unresolved(Seq<char>),
    Unsupported(u32),
}

/// The symbol value a symbolic relocation binds to: a defined local symbol's address, else the
/// registry's address for its name.
pub open spec fn bound_address(syms: Seq<SymbolView>, reg: Map<Seq<char>, usize>, idx: int) -> Option<usize> {
    let name = if 0 <= idx < syms.len() { syms[idx].name } else { Seq::empty() };
    if 0 <= idx < syms.len() && syms[idx].address != 0 {
        Some(syms[idx].address)
    } else if reg.contains_key(name) {
        Some(reg[name])
    } else {
        None
    }
}

/// The effect of a relocation entry of an image loaded at `load_base`.
pub open spec fn reloc_effect(rela: Elf64Rela, syms: Seq<SymbolView>, reg: Map<Seq<char>, usize>, load_base: usize) -> RelocEffect {
    let t = (rela.r_info % 0x1_0000_0000) as u32;
    let idx = (rela.r_info / 0x1_0000_0000) as int;
    if t == R_AARCH64_NONE {
        RelocEffect::Skip
    } else if t == R_AARCH64_RELATIVE {
        RelocEffect::Write(vstd::wrapping::i64_specs::wrapping_add(load_base as i64, rela.r_addend) as u64)
    } else if t == R_AARCH64_GLOB_DAT || t == R_AARCH64_JUMP_SLOT || t == R_AARCH64_ABS64 {
        match bound_address(syms, reg, idx) {
            Some(a) => RelocEffect::Write(vstd::wrapping::i64_specs::wrapping_add(a as i64, rela.r_addend) as u64),
            None => if 0 <= idx < syms.len() && syms[idx].binding == STB_WEAK_BINDING {
                RelocEffect::Write(0)
            } else {
                RelocEffect::Unresolved(if 0 <= idx < syms.len() { syms[idx].name } else { Seq::empty() })
            },
        }
    } else {
        RelocEffect::Unsupported(t)
    }
}

/// The weak binding.
pub const STB_WEAK_BINDING: u8 = 2;

/// The contents `c` after applying one relocation entry, or `None` when it fails.
#[verifier::opaque]
pub open spec fn reloc_apply(c: Seq<u8>, rela: Elf64Rela, syms: Seq<SymbolView>, reg: Map<Seq<char>, usize>,
    load_base: usize, vaddr_min: u64) -> Option<Seq<u8>> {
    match spec_va_offset(vaddr_min, rela.r_offset) {
        None => None,
        Some(off) => if off + 8 > c.len() {
            None
        } else {
            match reloc_effect(rela, syms, reg, load_base) {
                RelocEffect::Write(v) => Some(c.subrange(0, off as int) + bytes64(v as int) + c.subrange(off + 8, c.len() as int)),
                RelocEffect::Skip => Some(c),
                _ => None,
            }
        },
    }
}

/// The contents after applying the first `k` entries of the table at `rela_off`, each read
/// from the contents as the earlier ones left them; `None` when one fails.
pub open spec fn rela_table(c: Seq<u8>, syms: Seq<SymbolView>, reg: Map<Seq<char>, usize>, load_base: usize,
    vaddr_min: u64, rela_off: int, k: int) -> Option<Seq<u8>>
    decreases k,
{
    if k <= 0 {
        Some(c)
    } else {
        match rela_table(c, syms, reg, load_base, vaddr_min, rela_off, k - 1) {
            None => None,
            Some(c2) => reloc_apply(c2, spec_rela(c2, rela_off + 24 * (k - 1)), syms, reg, load_base, vaddr_min),
        }
    }
}

proof fn lemma_rela_table_none(c: Seq<u8>, syms: Seq<SymbolView>, reg: Map<Seq<char>, usize>, load_base: usize,
    vaddr_min: u64, rela_off: int, k: int, n: int)
    requires
        0 <= k <= n,
        rela_table(c, syms, reg, load_base, vaddr_min, rela_off, k) is None,
    ensures
        rela_table(c, syms, reg, load_base, vaddr_min, rela_off, n) is None,
    decreases n - k,
{
    if k < n {
        lemma_rela_table_none(c, syms, reg, load_base, vaddr_min, rela_off, k + 1, n);
    }
}

impl ElfLoader {
    /// Applies one relocation entry to the region.
    fn apply_relocation(region: &mut MemoryRegion, rela: &Elf64Rela, symtab: &DynamicSymbolTable,
        registry: &SymbolRegistry, load_base: usize, vaddr_min: u64) -> (r: Result<(), LoaderError>)
        requires
            old(region).inv(),
            registry.wf(),
        ensures
            final(region).inv(),
            final(region).spec_base() == old(region).spec_base(),
            final(region).spec_len() == old(region).spec_len(),
            final(region).spec_prot() == old(region).spec_prot(),
            r is Ok ==> match spec_va_offset(vaddr_min, rela.r_offset) {
                Some(off) => off + 8 <= old(region).spec_len() && match reloc_effect(*rela, symtab.syms(), registry.view(), load_base) {
                    RelocEffect::Write(v) => final(region).contents() == old(region).contents().subrange(0, off as int)
                        + bytes64(v as int) + old(region).contents().subrange(off + 8, old(region).spec_len() as int),
                    RelocEffect::Skip => final(region).contents() == old(region).contents(),
                    _ => false,
                },
                None => false,
            },
            r is Err ==> final(region).contents() == old(region).contents(),
            match reloc_apply(old(region).contents(), *rela, symtab.syms(), registry.view(), load_base, vaddr_min) {
                Some(c) => r is Ok && final(region).contents() == c,
                None => r is Err,
            },
            r is Ok <==> match spec_va_offset(vaddr_min, rela.r_offset) {
                Some(off) => off + 8 <= old(region).spec_len() && (reloc_effect(*rela, symtab.syms(), registry.view(), load_base) is Write
                    || reloc_effect(*rela, symtab.syms(), registry.view(), load_base) is Skip),
                None => false,
            },
    {
        proof {
            region.lemma_inv();
            reveal(reloc_apply);
        }
        let target_offset = match Self::va_to_offset(vaddr_min, rela.r_offset) {
            Ok(v) => v,
            Err(e) => return Err(e),
        };
        if target_offset > usize::MAX - 8 {
            return Err(LoaderError::RelocationFailed { offset: target_offset, msg: "Relocation target address overflows".to_string() });
        }
        if target_offset + 8 > region.len() {
            return Err(LoaderError::RelocationFailed { offset: target_offset, msg: "Relocation target address out of bounds".to_string() });
        }
        let r_type = rela.r_type();
        let sym_idx = rela.r_sym() as usize;
        let value: u64 = if r_type == R_AARCH64_NONE {
            return Ok(());
        } else if r_type == R_AARCH64_RELATIVE {
            (load_base as i64).wrapping_add(rela.r_addend) as u64
        } else if r_type == R_AARCH64_GLOB_DAT || r_type == R_AARCH64_JUMP_SLOT || r_type == R_AARCH64_ABS64 {
            let sym = symtab.get(sym_idx);
            let resolved = match sym {
                Some(s) => if s.address != 0 { Some(s.address) } else { registry.resolve(s.name.as_str()) },
                None => registry.resolve(""),
            };
            proof {
                reveal_strlit("");
                assert(""@ =~= Seq::<char>::empty());
                if sym_idx < symtab.syms().len() {
                    assert(sym matches Some(s) && s@ == symtab.syms()[sym_idx as int]);
                }
            }
            assert(resolved == bound_address(symtab.syms(), registry.view(), sym_idx as int));
            match resolved {
                Some(a) => (a as i64).wrapping_add(rela.r_addend) as u64,
                None => {
                    match sym {
                        Some(s) => if s.is_weak() {
                            0
                        } else {
                            return Err(LoaderError::UnresolvedSymbol(s.name.clone()));
                        },
                        None => return Err(LoaderError::UnresolvedSymbol(String::new())),
                    }
                },
            }
        } else {
            return Err(LoaderError::UnsupportedRelocation(r_type));
        };
        assert(reloc_effect(*rela, symtab.syms(), registry.view(), load_base) == RelocEffect::Write(value));
        let mut bytes: Vec<u8> = Vec::new();
        push_u64(&mut bytes, value);
        region.store(target_offset, bytes.as_slice());
        Ok(())
    }

    /// Applies the relocation table of `total_sz` bytes at image offset `rela_off`, reading
    /// each entry from the region as it stands.
    #[verifier::spinoff_prover]
    #[verifier::rlimit(60)]
    fn process_rela_table(region: &mut MemoryRegion, symtab: &DynamicSymbolTable, registry: &SymbolRegistry,
        load_base: usize, vaddr_min: u64, rela_off: usize, total_sz: usize) -> (r: Result<(), LoaderError>)
        requires
            old(region).inv(),
            registry.wf(),
        ensures
            final(region).inv(),
            final(region).spec_base() == old(region).spec_base(),
            final(region).spec_len() == old(region).spec_len(),
            final(region).spec_prot() == old(region).spec_prot(),
            rela_off + total_sz > old(region).spec_len() ==> r is Err,
            total_sz % 24 != 0 ==> r is Err,
            rela_off + total_sz <= old(region).spec_len() && total_sz % 24 == 0 ==> match rela_table(old(region).contents(),
                symtab.syms(), registry.view(), load_base, vaddr_min, rela_off as int, total_sz as int / 24) {
                Some(c) => r is Ok && final(region).contents() == c,
                None => r is Err,
            },
    {
        let ghost c0 = region.contents();
        proof {
            region.lemma_inv();
        }
        if rela_off > usize::MAX - total_sz {
            return Err(LoaderError::Elf(ElfError::CorruptedData("Relocation table range overflows")));
        }
        if rela_off + total_sz > region.len() {
            return Err(LoaderError::Elf(ElfError::CorruptedData("Relocation table exceeds mapped bounds")));
        }
        if total_sz % 24 != 0 {
            return Err(LoaderError::Elf(ElfError::CorruptedData("Relocation table has a partial entry")));
        }
        let num = total_sz / 24;
        let mut i: usize = 0;
        while i < num
            invariant
                0 <= i <= num,
                num * 24 == total_sz,
                rela_off + total_sz <= region.spec_len(),
                region.inv(),
                registry.wf(),
                region.spec_base() == old(region).spec_base(),
                region.spec_len() == old(region).spec_len(),
                region.spec_prot() == old(region).spec_prot(),
                c0 == old(region).contents(),
                num == total_sz as int / 24,
                rela_table(c0, symtab.syms(), registry.view(), load_base, vaddr_min, rela_off as int, i as int)
                    == Some(region.contents()),
            decreases num - i,
        {
            assert(i * 24 + 24 <= total_sz) by (nonlinear_arith)
                requires
                    i < num,
                    num * 24 == total_sz,
            ;
            let ghost cur = region.contents();
            proof {
                region.lemma_inv();
            }
            let entry = region.load(rela_off + i * 24, 24);
            let rela = match Elf64Rela::parse(entry.as_slice()) {
                Ok(r) => r,
                Err(e) => return Err(LoaderError::Elf(e)),
            };
            proof {
                let p = rela_off + i * 24;
                let a = cur.subrange(0, p as int);
                let z = cur.subrange(p + 24, cur.len() as int);
                assert(cur =~= a + entry@ + z);
                lemma_le_in_middle(a, entry@, z, 0);
                lemma_le_in_middle(a, entry@, z, 8);
                lemma_le_in_middle(a, entry@, z, 16);
                assert(rela == spec_rela(cur, p as int));
                if rela_table(c0, symtab.syms(), registry.view(), load_base, vaddr_min, rela_off as int, i + 1) is None {
                    lemma_rela_table_none(c0, symtab.syms(), registry.view(), load_base, vaddr_min, rela_off as int, i + 1,
                        num as int);
                }
            }
            assert(rela_table(c0, symtab.syms(), registry.view(), load_base, vaddr_min, rela_off as int, i + 1)
                == reloc_apply(cur, rela, symtab.syms(), registry.view(), load_base, vaddr_min));
            match Self::apply_relocation(region, &rela, symtab, registry, load_base, vaddr_min) {
                Ok(()) => {},
                Err(e) => return Err(e),
            }
            i = i + 1;
        }
        Ok(())
    }

    /// The startup routines: `DT_INIT` first, then the nonzero `DT_INIT_ARRAY` entries in
    /// order, each checked to lie inside the mapped image.
    #[verifier::spinoff_prover]
    #[verifier::rlimit(80)]
    fn collect_init(region: &MemoryRegion, info: &DynamicInfo) -> (r: Result<Vec<InitRoutine>, LoaderError>)
        requires
            region.inv(),
        ensures
            r matches Ok(v) ==> forall|k: int| 0 <= k < v@.len() ==> region.spec_base() <= (#[trigger] v@[k]).address
                < region.spec_base() + region.spec_len(),
            match spec_init(region.contents(), region.spec_base() as int, region.spec_len() as int, *info) {
                Ok(v) => r matches Ok(x) && x@ == v,
                Err(a) => r matches Err(LoaderError::InvalidStartupAddress(b)) && b == a,
            },
    {
        proof {
            region.lemma_inv();
        }
        let mapped_base = region.as_ptr();
        let len = region.len();
        let mut routines: Vec<InitRoutine> = Vec::new();
        if let Some(init) = info.init {
            if init != 0 {
                if mapped_base > usize::MAX - init {
                    return Err(LoaderError::InvalidStartupAddress(init));
                }
                let address = mapped_base + init;
                if address >= mapped_base + len {
                    return Err(LoaderError::InvalidStartupAddress(address));
                }
                routines.push(InitRoutine { address, kind: InitRoutineKind::DtInit, order: 0 });
            }
        }
        let ghost head = routines@;
        let ghost c = region.contents();
        proof {
            match info.init {
                Some(i) => if i != 0 {
                    assert(head =~= seq![InitRoutine { address: (mapped_base + i) as usize, kind: InitRoutineKind::DtInit, order: 0 }]);
                } else {
                    assert(head =~= Seq::<InitRoutine>::empty());
                },
                None => assert(head =~= Seq::<InitRoutine>::empty()),
            }
            assert(spec_init(c, mapped_base as int, len as int, *info) == match info.init_array {
                Some(off) => if off + info.init_arraysz <= len {
                    match init_words(c, off as int, info.init_arraysz as int / 8, mapped_base as int, len as int) {
                        Err(a) => Err::<Seq<InitRoutine>, usize>(a),
                        Ok(ws) => Ok(head + ws),
                    }
                } else {
                    Ok(head)
                },
                None => Ok(head),
            });
            assert(head + Seq::<InitRoutine>::empty() =~= head);
        }
        if let Some(off) = info.init_array {
            let sz = info.init_arraysz;
            if off <= usize::MAX - sz && off + sz <= len {
                let count = sz / 8;
                let mut i: usize = 0;
                while i < count
                    invariant
                        0 <= i <= count,
                        count == sz / 8,
                        off + sz <= len,
                        len == region.spec_len(),
                        mapped_base == region.spec_base(),
                        region.inv(),
                        mapped_base + len <= usize::MAX,
                        forall|k: int| 0 <= k < routines@.len() ==> mapped_base <= (#[trigger] routines@[k]).address < mapped_base + len,
                        c == region.contents(),
                        spec_init(c, mapped_base as int, len as int, *info) == match init_words(c, off as int, count as int,
                            mapped_base as int, len as int) {
                            Err(a) => Err::<Seq<InitRoutine>, usize>(a),
                            Ok(ws) => Ok(head + ws),
                        },
                        init_words(c, off as int, i as int, mapped_base as int, len as int) matches Ok(ws) && routines@ == head + ws,
                    decreases count - i,
                {
                    assert(i * 8 + 8 <= sz) by (nonlinear_arith)
                        requires
                            i < count,
                            count == sz / 8,
                    ;
                    proof {
                        region.lemma_inv();
                    }
                    let word = region.load(off + i * 8, 8);
                    let func_ptr = read_u64(word.as_slice(), 0);
                    proof {
                        lemma_le_in_middle(c.subrange(0, off + i * 8), word@, c.subrange(off + i * 8 + 8, len as int), 0);
                        assert(c =~= c.subrange(0, off + i * 8) + word@ + c.subrange(off + i * 8 + 8, len as int));
                        if init_words(c, off as int, i + 1, mapped_base as int, len as int) is Err {
                            lemma_init_words_err(c, off as int, i + 1, count as int, mapped_base as int, len as int);
                        }
                    }
                    if func_ptr != 0 {
                        if func_ptr > (usize::MAX - mapped_base) as u64 {
                            return Err(LoaderError::InvalidStartupAddress(#[verifier::truncate] (func_ptr as usize)));
                        }
                        let address = mapped_base + func_ptr as usize;
                        if address >= mapped_base + len {
                            return Err(LoaderError::InvalidStartupAddress(address));
                        }
                        let ghost before = routines@;
                        routines.push(InitRoutine { address, kind: InitRoutineKind::DtInitArray, order: i });
                        proof {
                            let ws = init_words(c, off as int, i as int, mapped_base as int, len as int)->Ok_0;
                            assert(routines@ =~= head + ws.push(InitRoutine { address, kind: InitRoutineKind::DtInitArray, order: i }));
                        }
                    }
                    i = i + 1;
                }
            }
        }
        Ok(routines)
    }

    /// The finalizers: `DT_FINI` relative to the load base, then the nonzero raw
    /// `DT_FINI_ARRAY` entries.
    fn collect_fini(region: &MemoryRegion, info: &DynamicInfo, load_base: usize) -> (r: Vec<usize>)
        requires
            region.inv(),
        ensures
            r@ == spec_fini(region.contents(), region.spec_len() as int, *info, load_base),
    {
        proof {
            region.lemma_inv();
        }
        let len = region.len();
        let mut out: Vec<usize> = Vec::new();
        if let Some(fini) = info.fini {
            if fini != 0 {
                out.push(load_base.wrapping_add(fini));
            }
        }
        let ghost head = out@;
        assert(head =~= spec_fini(region.contents(), len as int, *info, load_base).subrange(0, head.len() as int)) by {
            assert(spec_fini(region.contents(), len as int, *info, load_base) =~= head + (match info.fini_array {
                Some(off) => if off + info.fini_arraysz <= len {
                    fini_words(region.contents(), off as int, info.fini_arraysz as int / 8)
                } else {
                    Seq::empty()
                },
                None => Seq::empty(),
            }));
        }
        if let Some(off) = info.fini_array {
            let sz = info.fini_arraysz;
            if off <= usize::MAX - sz && off + sz <= len {
                let count = sz / 8;
                let mut i: usize = 0;
                while i < count
                    invariant
                        0 <= i <= count,
                        count == sz / 8,
                        off + sz <= len,
                        len == region.spec_len(),
                        region.inv(),
                        out@ == head + fini_words(region.contents(), off as int, i as int),
                    decreases count - i,
                {
                    assert(i * 8 + 8 <= sz) by (nonlinear_arith)
                        requires
                            i < count,
                            count == sz / 8,
                    ;
                    proof {
                        region.lemma_inv();
                    }
                    let word = region.load(off + i * 8, 8);
                    let func_ptr = read_u64(word.as_slice(), 0);
                    proof {
                        lemma_le_in_middle(region.contents().subrange(0, off + i * 8), word@,
                            region.contents().subrange(off + i * 8 + 8, len as int), 0);
                        assert(region.contents() =~= region.contents().subrange(0, off + i * 8) + word@
                            + region.contents().subrange(off + i * 8 + 8, len as int));
                    }
                    if func_ptr != 0 {
                        out.push(#[verifier::truncate] (func_ptr as usize));
                    }
                    i = i + 1;
                }
                assert(spec_fini(region.contents(), len as int, *info, load_base)
                    =~= head + fini_words(region.contents(), off as int, count as int));
            } else {
                assert(spec_fini(region.contents(), len as int, *info, load_base) =~= head);
            }
        } else {
            assert(spec_fini(region.contents(), len as int, *info, load_base) =~= head);
        }
        out
    }

    /// The protection of each loadable segment over its page range.
    #[verifier::spinoff_prover]
    #[verifier::rlimit(80)]
    fn segment_protections(region: &MemoryRegion, loads: &Vec<Elf64Phdr>, vaddr_min: u64) -> (r: Result<Vec<(usize, usize, ProtFlags)>, LoaderError>)
        requires
            region.inv(),
        ensures
            r matches Ok(v) ==> v@.len() == loads@.len() && forall|k: int| 0 <= k < v@.len() ==> {
                &&& region.spec_base() <= (#[trigger] v@[k]).0
                &&& v@[k].0 + v@[k].1 <= region.spec_base() + region.spec_len()
                &&& v@[k].0 % 0x4000 == 0
                &&& v@[k].1 % 0x4000 == 0
                &&& v@[k].1 > 0
            },
            match segment_ranges(loads@, vaddr_min, region.spec_base() as int, region.spec_len() as int, loads@.len() as int) {
                Some(v) => r matches Ok(x) && x@ == v,
                None => r is Err,
            },
    {
        proof {
            region.lemma_inv();
        }
        let base = region.as_ptr();
        let len = region.len();
        let mut out: Vec<(usize, usize, ProtFlags)> = Vec::new();
        let mut i: usize = 0;
        while i < loads.len()
            invariant
                0 <= i <= loads@.len(),
                out@.len() == i,
                base == region.spec_base(),
                len == region.spec_len(),
                region.inv(),
                len % 0x4000 == 0,
                base % 0x4000 == 0,
                base + len <= usize::MAX,
                forall|k: int| 0 <= k < out@.len() ==> {
                    &&& base <= (#[trigger] out@[k]).0
                    &&& out@[k].0 + out@[k].1 <= base + len
                    &&& out@[k].0 % 0x4000 == 0
                    &&& out@[k].1 % 0x4000 == 0
                    &&& out@[k].1 > 0
                },
                segment_ranges(loads@, vaddr_min, base as int, len as int, i as int) == Some(out@),
            decreases loads@.len() - i,
        {
            let phdr = loads[i];
            proof {
                if segment_ranges(loads@, vaddr_min, base as int, len as int, i + 1) is None {
                    lemma_segment_ranges_none(loads@, vaddr_min, base as int, len as int, i + 1, loads@.len() as int);
                }
            }
            let start_off = match Self::va_to_offset(vaddr_min, phdr.p_vaddr) {
                Ok(v) => v,
                Err(e) => return Err(e),
            };
            if phdr.p_vaddr > u64::MAX - phdr.p_memsz {
                return Err(LoaderError::Elf(ElfError::CorruptedData("PT_LOAD virtual range overflows")));
            }
            let end_off = match Self::va_to_offset(vaddr_min, phdr.p_vaddr + phdr.p_memsz) {
                Ok(v) => v,
                Err(e) => return Err(e),
            };
            if end_off > len {
                return Err(LoaderError::Elf(ElfError::CorruptedData("PT_LOAD protection range exceeds mapped bounds")));
            }
            let start = align_down_16k(start_off);
            let end = align_up_16k(end_off);
            proof {
                lemma_round_16k(start_off as int);
                lemma_round_16k(end_off as int);
                lemma_round_16k(len as int);
            }
            if end > len || start >= end {
                return Err(LoaderError::Elf(ElfError::CorruptedData("PT_LOAD protection range exceeds mapped bounds")));
            }
            let prot = ProtFlags((if phdr.is_readable() { PROT_READ } else { 0 })
                | (if phdr.is_writable() { PROT_WRITE } else { 0 })
                | (if phdr.is_executable() { PROT_EXEC } else { 0 }));
            out.push((base + start, end - start, prot));
            i = i + 1;
        }
        Ok(out)
    }
}

/// The string table a library's dynamic section names, clipped to the image `c`.
pub open spec fn strtab_bytes(c: Seq<u8>, info: DynamicInfo) -> Seq<u8> {
    match info.strtab {
        Some(off) => if off < c.len() {
            let sz = if info.strsz < c.len() - off { info.strsz as int } else { c.len() - off };
            c.subrange(off as int, off + sz)
        } else {
            Seq::empty()
        },
        None => Seq::empty(),
    }
}

/// The symbol table a library's dynamic section names: up to the relocation table when that
/// follows it, else to the end of the image `c`.
pub open spec fn symtab_bytes(c: Seq<u8>, info: DynamicInfo) -> Seq<u8> {
    match info.symtab {
        Some(off) => if off < c.len() {
            let available = c.len() - off;
            let bounded = match info.rela {
                Some(rela_off) => if rela_off > off && rela_off - off < available { rela_off - off } else { available },
                None => available,
            };
            c.subrange(off as int, off + bounded)
        } else {
            Seq::empty()
        },
        None => Seq::empty(),
    }
}

/// The symbols of a symbol table with names from a string table, at `base`.
pub open spec fn table_syms(symtab: Seq<u8>, strtab: Seq<u8>, base: usize) -> Seq<SymbolView> {
    Seq::new(table_len(symtab, 0) as nat, |i: int| table_symbol(symtab, strtab, base, i))
}

/// The image after applying the relocation table at `off`, if there is one.
pub open spec fn rela_step(c: Seq<u8>, syms: Seq<SymbolView>, reg: Map<Seq<char>, usize>, load_base: usize,
    vaddr_min: u64, off: Option<usize>, sz: usize) -> Option<Seq<u8>> {
    match off {
        None => Some(c),
        Some(o) => if o + sz > c.len() || sz % 24 != 0 {
            None
        } else {
            rela_table(c, syms, reg, load_base, vaddr_min, o as int, sz as int / 24)
        },
    }
}

/// The size of the region a library with these loadable segments needs.
pub open spec fn image_region_size(vmin: u64, vmax: int) -> int {
    if round_up_16k(vmax - vmin) < 0x4000 { 0x4000 } else { round_up_16k(vmax - vmin) }
}

/// Whether the linking steps succeed on the mapped image `c1` of `len` bytes at `base`: the
/// dynamic section reads, both relocation tables apply against the registry extended with the
/// library's exports, the startup routines lie in the image, the entry point has an address
/// and the segments' protections fit the region.
pub open spec fn links(b: Seq<u8>, phdrs: Seq<Elf64Phdr>, c1: Seq<u8>, base: usize, len: int,
    reg: Map<Seq<char>, usize>) -> bool {
    let loads = spec_loads(phdrs);
    let vmin = min_vaddr(loads);
    let load_base = (base - vmin) as usize;
    match spec_dynamic_info(spec_dynamic_entries(b, phdrs), vmin, spec_dynamic_entries(b, phdrs).len() as int) {
        None => false,
        Some(info) => {
            let syms = table_syms(symtab_bytes(c1, info), strtab_bytes(c1, info), load_base);
            let reg1 = registered(reg, syms, syms.len() as int);
            match rela_step(c1, syms, reg1, load_base, vmin, info.rela, info.relasz) {
                None => false,
                Some(c2) => match rela_step(c2, syms, reg1, load_base, vmin, info.jmprel, info.pltrelsz) {
                    None => false,
                    Some(c3) => {
                        &&& spec_init(c3, base as int, len, info) is Ok
                        &&& le64(b, 24) != 0 ==> match spec_va_offset(vmin, le64(b, 24) as u64) {
                            None => false,
                            Some(o) => base + o <= usize::MAX,
                        }
                        &&& segment_ranges(loads, vmin, base as int, len, loads.len() as int) is Some
                    },
                },
            }
        },
    }
}

/// Whether the loader accepts the file `b` for a region at `base` with registry `reg`: the
/// headers parse, there are loadable segments whose span fits the address space and a region
/// at `base`, the link-time addresses do not lie above `base`, the segments map, and the
/// linking steps succeed.
#[verifier::opaque]
pub open spec fn library_loads(b: Seq<u8>, base: usize, reg: Map<Seq<char>, usize>) -> bool {
    if crate::linker::elf::ehdr_error(b) is Some {
        false
    } else {
        let h = choose|h: crate::linker::elf::Elf64Ehdr| crate::linker::elf::ehdr_fields_match(h, b);
        match crate::linker::elf::phdr_table(b, h, 0) {
            Err(_) => false,
            Ok(phdrs) => {
                let loads = spec_loads(phdrs);
                let vmin = min_vaddr(loads);
                let vmax = max_end(loads);
                if load_end_overflows(loads) || loads.len() == 0 || vmax < vmin || vmax - vmin > usize::MAX - 0x3fff {
                    false
                } else {
                    match spec_allocation(image_region_size(vmin, vmax)) {
                        Err(_) => false,
                        Ok(len) => if base + len > crate::memory::mmap::GUEST_MAP_LIMIT || vmin > base {
                            false
                        } else {
                            match map_segments_spec(Seq::new(len as nat, |i: int| 0u8), b, loads, vmin, loads.len() as int) {
                                None => false,
                                Some(c1) => links(b, phdrs, c1, base, len, reg),
                            }
                        },
                    }
                }
            },
        }
    }
}

/// What a successful load gives: a well-formed region at `base`, the load bias, the name,
/// a freshly loaded lifecycle, startup routines inside the image, `JNI_OnLoad` looked up in
/// the library's own table, and the registry extended with the library's exports.
pub open spec fn loaded_ok(lib: LoadedLibrary, name: Seq<char>, base: usize, reg_before: Map<Seq<char>, usize>,
    reg_after: Map<Seq<char>, usize>) -> bool {
    &&& lib.mem_region.inv()
    &&& lib.mem_region.spec_base() == base
    &&& lib.name@ == name
    &&& lib.lifecycle == LibraryLifecycle::Loaded
    &&& lib.init_array@.len() == lib.init_routines@.len()
    &&& forall|k: int| 0 <= k < lib.init_routines@.len() ==> {
        &&& lib.init_array@[k] == (#[trigger] lib.init_routines@[k]).address
        &&& base <= lib.init_routines@[k].address < base + lib.mem_region.spec_len()
    }
    &&& forall|k: int| 0 <= k < lib.segment_protections@.len() ==> {
        &&& base <= (#[trigger] lib.segment_protections@[k]).0
        &&& lib.segment_protections@[k].0 + lib.segment_protections@[k].1 <= base + lib.mem_region.spec_len()
    }
    &&& lib.jni_on_load == match last_exported(lib.symtab.syms(), "JNI_OnLoad"@) {
        Some(i) => Some(symbol_address(lib.symtab.syms()[i])),
        None => None::<usize>,
    }
    &&& reg_after == registered(reg_before, lib.symtab.syms(), lib.symtab.syms().len() as int)
}

impl ElfLoader {
    /// Loads a library from its file bytes at the first guest mapping address.
    pub fn load_from_memory(name: &str, elf_bytes: &[u8], registry: &mut SymbolRegistry) -> (r: Result<LoadedLibrary, LoaderError>)
        requires
            old(registry).wf(),
        ensures
            final(registry).wf(),
            crate::linker::elf::ehdr_error(elf_bytes@) matches Some(e) ==> r == Err::<LoadedLibrary, LoaderError>(LoaderError::Elf(e)),
            r matches Ok(lib) ==> loaded_ok(lib, name@, crate::memory::mmap::GUEST_MAP_BASE, old(registry).view(), final(registry).view()),
            r is Ok <==> library_loads(elf_bytes@, crate::memory::mmap::GUEST_MAP_BASE, old(registry).view()),
    {
        let mut vmm = VirtualMemoryManager::new();
        Self::load_from_memory_in(name, elf_bytes, registry, &mut vmm)
    }

    /// Loads a library from its file bytes into a fresh region of `vmm`: maps the loadable
    /// segments, reads the dynamic section, registers the exports, applies the relocations and
    /// collects the startup and shutdown routines and the segment protections.
    #[verifier::spinoff_prover]
    #[verifier::rlimit(100)]
    pub fn load_from_memory_in(name: &str, elf_bytes: &[u8], registry: &mut SymbolRegistry,
        vmm: &mut VirtualMemoryManager) -> (r: Result<LoadedLibrary, LoaderError>)
        requires
            old(registry).wf(),
            old(vmm).inv(),
        ensures
            final(registry).wf(),
            final(vmm).inv(),
            crate::linker::elf::ehdr_error(elf_bytes@) matches Some(e) ==> r == Err::<LoadedLibrary, LoaderError>(LoaderError::Elf(e)),
            r matches Ok(lib) ==> loaded_ok(lib, name@, old(vmm).spec_next_base(), old(registry).view(), final(registry).view()),
            r is Ok <==> library_loads(elf_bytes@, old(vmm).spec_next_base(), old(registry).view()),
    {
        let ghost b = elf_bytes@;
        let ghost base = vmm.spec_next_base();
        let ghost reg = registry.view();
        let parsed = match ParsedElf::parse(elf_bytes) {
            Ok(p) => p,
            Err(e) => {
                proof {
                    if crate::linker::elf::ehdr_error(b) is None {
                        let h = choose|h: crate::linker::elf::Elf64Ehdr| crate::linker::elf::ehdr_fields_match(h, b);
                        assert(crate::linker::elf::ehdr_fields_match(h, b));
                    }
                    assert(!library_loads(b, base, reg)) by { reveal(library_loads); }
                }
                return Err(LoaderError::Elf(e));
            },
        };
        let ghost h = choose|h: crate::linker::elf::Elf64Ehdr| crate::linker::elf::ehdr_fields_match(h, b);
        let ghost phdrs = parsed.phdrs@;
        proof {
            assert(crate::linker::elf::ehdr_fields_match(parsed.ehdr, b));
            assert(crate::linker::elf::ehdr_fields_match(h, b));
            crate::linker::elf::lemma_ehdr_unique(h, parsed.ehdr, b);
            assert(crate::linker::elf::phdr_table(b, h, 0) == Ok::<Seq<Elf64Phdr>, ElfError>(phdrs));
            assert(!load_end_overflows(spec_loads(phdrs)));
        }
        let ghost loads = spec_loads(phdrs);
        assert(parsed.load_segments@ == loads);
        if parsed.load_segments.len() == 0 {
            assert(!library_loads(b, base, reg)) by { reveal(library_loads); }
            return Err(LoaderError::Elf(ElfError::CorruptedData("No PT_LOAD segments found")));
        }
        assert(parsed.vaddr_min == min_vaddr(loads) && parsed.vaddr_max == max_end(loads));
        if parsed.vaddr_max < parsed.vaddr_min {
            assert(!library_loads(b, base, reg)) by { reveal(library_loads); }
            return Err(LoaderError::Elf(ElfError::CorruptedData("PT_LOAD virtual address range underflows")));
        }
        let image_size = match Self::size_of(parsed.vaddr_max - parsed.vaddr_min, "PT_LOAD image size is too large") {
            Ok(v) => v,
            Err(e) => {
                assert(!library_loads(b, base, reg)) by { reveal(library_loads); }
                return Err(e);
            },
        };
        if image_size > usize::MAX - (PAGE_SIZE_16K - 1) {
            assert(!library_loads(b, base, reg)) by { reveal(library_loads); }
            return Err(LoaderError::Elf(ElfError::CorruptedData("PT_LOAD image size overflows")));
        }
        let rounded = align_up_16k(image_size);
        let total_size = if rounded < PAGE_SIZE_16K { PAGE_SIZE_16K } else { rounded };
        assert(total_size == image_region_size(min_vaddr(loads), max_end(loads)));
        let mut region = match vmm.allocate_region(total_size, ProtFlags::read_write()) {
            Ok(r) => r,
            Err(e) => {
                assert(!library_loads(b, base, reg)) by { reveal(library_loads); }
                return Err(LoaderError::Memory(e));
            },
        };
        proof {
            region.lemma_inv();
        }
        let ghost rlen = region.spec_len() as int;
        let mapped_base = region.as_ptr();
        let vaddr_min = match Self::size_of(parsed.vaddr_min, "PT_LOAD virtual address is too large") {
            Ok(v) => v,
            Err(e) => {
                assert(!library_loads(b, base, reg)) by { reveal(library_loads); }
                return Err(e);
            },
        };
        if vaddr_min > mapped_base {
            assert(!library_loads(b, base, reg)) by { reveal(library_loads); }
            return Err(LoaderError::Elf(ElfError::CorruptedData("Load bias underflows")));
        }
        let load_base = mapped_base - vaddr_min;
        assert(region.contents() =~= Seq::new(rlen as nat, |i: int| 0u8));
        match Self::map_segments(&mut region, elf_bytes, &parsed.load_segments, parsed.vaddr_min) {
            Ok(()) => {},
            Err(e) => {
                assert(!library_loads(b, base, reg)) by { reveal(library_loads); }
                return Err(e);
            },
        }
        let ghost c1 = region.contents();
        assert(library_loads(b, base, reg) == links(b, phdrs, c1, base, rlen, reg)) by { reveal(library_loads); }
        assert(parsed.dynamic_entries@ == spec_dynamic_entries(b, phdrs));
        let info = match Self::read_dynamic_info(&parsed.dynamic_entries, parsed.vaddr_min) {
            Ok(i) => i,
            Err(e) => {
                assert(!links(b, phdrs, c1, base, rlen, reg));
                return Err(e);
            },
        };
        proof {
            region.lemma_inv();
        }
        let len = region.len();
        let strtab_data: Vec<u8> = match info.strtab {
            Some(off) => if off < len {
                let sz = if info.strsz < len - off { info.strsz } else { len - off };
                region.load(off, sz)
            } else {
                Vec::new()
            },
            None => Vec::new(),
        };
        let symtab_data: Vec<u8> = match info.symtab {
            Some(off) => if off < len {
                let available = len - off;
                let bounded = match info.rela {
                    Some(rela_off) => if rela_off > off && rela_off - off < available { rela_off - off } else { available },
                    None => available,
                };
                region.load(off, bounded)
            } else {
                Vec::new()
            },
            None => Vec::new(),
        };
        assert(strtab_data@ == strtab_bytes(c1, info));
        assert(symtab_data@ == symtab_bytes(c1, info));
        let symtab = DynamicSymbolTable::parse(symtab_data.as_slice(), strtab_data.as_slice(), load_base);
        let ghost syms = table_syms(symtab_bytes(c1, info), strtab_bytes(c1, info), load_base);
        assert(symtab.syms() =~= syms);
        registry.register_symbol_table(&symtab);
        let ghost reg_after = registry.view();
        let ghost vmin = min_vaddr(loads);
        assert(load_base == (base - vmin) as usize);
        if let Some(off) = info.rela {
            match Self::process_rela_table(&mut region, &symtab, registry, load_base, parsed.vaddr_min, off, info.relasz) {
                Ok(()) => {},
                Err(e) => {
                    assert(rela_step(c1, syms, reg_after, load_base, vmin, info.rela, info.relasz) is None);
                    assert(!links(b, phdrs, c1, base, rlen, reg));
                    return Err(e);
                },
            }
        }
        let ghost c2 = region.contents();
        proof {
            region.lemma_inv();
        }
        assert(rela_step(c1, syms, reg_after, load_base, vmin, info.rela, info.relasz) == Some(c2));
        if let Some(off) = info.jmprel {
            match Self::process_rela_table(&mut region, &symtab, registry, load_base, parsed.vaddr_min, off, info.pltrelsz) {
                Ok(()) => {},
                Err(e) => {
                    assert(rela_step(c2, syms, reg_after, load_base, vmin, info.jmprel, info.pltrelsz) is None);
                    assert(!links(b, phdrs, c1, base, rlen, reg));
                    return Err(e);
                },
            }
        }
        let ghost c3 = region.contents();
        assert(rela_step(c2, syms, reg_after, load_base, vmin, info.jmprel, info.pltrelsz) == Some(c3));
        let init_routines = match Self::collect_init(&region, &info) {
            Ok(v) => v,
            Err(e) => {
                assert(!links(b, phdrs, c1, base, rlen, reg));
                return Err(e);
            },
        };
        let mut init_array: Vec<usize> = Vec::new();
        let mut k: usize = 0;
        while k < init_routines.len()
            invariant
                0 <= k <= init_routines@.len(),
                init_array@.len() == k,
                forall|j: int| 0 <= j < k ==> init_array@[j] == (#[trigger] init_routines@[j]).address,
            decreases init_routines@.len() - k,
        {
            init_array.push(init_routines[k].address);
            k = k + 1;
        }
        let fini_array = Self::collect_fini(&region, &info, load_base);
        assert(parsed.ehdr.e_entry == le64(b, 24));
        let entry_point = if parsed.ehdr.e_entry != 0 {
            let entry_offset = match Self::va_to_offset(parsed.vaddr_min, parsed.ehdr.e_entry) {
                Ok(v) => v,
                Err(e) => {
                    assert(!links(b, phdrs, c1, base, rlen, reg));
                    return Err(e);
                },
            };
            if mapped_base > usize::MAX - entry_offset {
                assert(!links(b, phdrs, c1, base, rlen, reg));
                return Err(LoaderError::InvalidStartupAddress(entry_offset));
            }
            Some(mapped_base + entry_offset)
        } else {
            None
        };
        let segment_protections = match Self::segment_protections(&region, &parsed.load_segments, parsed.vaddr_min) {
            Ok(v) => v,
            Err(e) => {
                assert(!links(b, phdrs, c1, base, rlen, reg));
                return Err(e);
            },
        };
        assert(links(b, phdrs, c1, base, rlen, reg));
        let jni_on_load = match symtab.lookup("JNI_OnLoad") {
            Some(sym) => Some(sym.address),
            None => None,
        };
        let init = match info.init {
            Some(v) => Some(load_base.wrapping_add(v)),
            None => None,
        };
        Ok(LoadedLibrary {
            name: name.to_string(),
            load_base,
            mem_region: region,
            symtab,
            init_array,
            fini_array,
            entry_point,
            init,
            jni_on_load,
            init_routines,
            segment_protections,
            lifecycle: LibraryLifecycle::Loaded,
        })
    }
}

} // verus!
