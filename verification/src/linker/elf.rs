//! 64-bit ELF (AArch64) parser and data structures.
//!
//! Parses ELF headers, program headers, dynamic sections, symbol tables and relocation
//! entries for 64-bit ARM (`arm64-v8a`) binaries.
use vstd::prelude::*;

use crate::wire::{le16, le32, le64, read_u16, read_u32, read_u64};

verus! {

pub const ELFCLASS64: u8 = 2;
pub const ELFDATA2LSB: u8 = 1;
pub const EV_CURRENT: u8 = 1;
pub const EM_AARCH64: u16 = 183;
pub const ET_EXEC: u16 = 2;
pub const ET_DYN: u16 = 3;

pub const PT_NULL: u32 = 0;
pub const PT_LOAD: u32 = 1;
pub const PT_DYNAMIC: u32 = 2;
pub const PT_INTERP: u32 = 3;
pub const PT_NOTE: u32 = 4;
pub const PT_SHLIB: u32 = 5;
pub const PT_PHDR: u32 = 6;
pub const PT_TLS: u32 = 7;
pub const PT_GNU_EH_FRAME: u32 = 0x6474e550;
pub const PT_GNU_STACK: u32 = 0x6474e551;
pub const PT_GNU_RELRO: u32 = 0x6474e552;

pub const PF_X: u32 = 1;
pub const PF_W: u32 = 2;
pub const PF_R: u32 = 4;

pub const DT_NULL: u64 = 0;
pub const DT_NEEDED: u64 = 1;
pub const DT_PLTRELSZ: u64 = 2;
pub const DT_PLTGOT: u64 = 3;
pub const DT_HASH: u64 = 4;
pub const DT_STRTAB: u64 = 5;
pub const DT_SYMTAB: u64 = 6;
pub const DT_RELA: u64 = 7;
pub const DT_RELASZ: u64 = 8;
pub const DT_RELAENT: u64 = 9;
pub const DT_STRSZ: u64 = 10;
pub const DT_SYMENT: u64 = 11;
pub const DT_INIT: u64 = 12;
pub const DT_FINI: u64 = 13;
pub const DT_SONAME: u64 = 14;
pub const DT_RPATH: u64 = 15;
pub const DT_SYMBOLIC: u64 = 16;
pub const DT_REL: u64 = 17;
pub const DT_PLTREL: u64 = 20;
pub const DT_JMPREL: u64 = 23;
pub const DT_INIT_ARRAY: u64 = 25;
pub const DT_FINI_ARRAY: u64 = 26;
pub const DT_INIT_ARRAYSZ: u64 = 27;
pub const DT_FINI_ARRAYSZ: u64 = 28;
pub const DT_FLAGS: u64 = 30;
pub const DT_GNU_HASH: u64 = 0x6ffffef5;
pub const DT_RELACOUNT: u64 = 0x6ffffff9;
pub const DT_FLAGS_1: u64 = 0x6ffffffb;

pub const STB_LOCAL: u8 = 0;
pub const STB_GLOBAL: u8 = 1;
pub const STB_WEAK: u8 = 2;

pub const STT_NOTYPE: u8 = 0;
pub const STT_OBJECT: u8 = 1;
pub const STT_FUNC: u8 = 2;
pub const STT_SECTION: u8 = 3;
pub const STT_FILE: u8 = 4;
pub const STT_COMMON: u8 = 5;
pub const STT_TLS: u8 = 6;

pub const R_AARCH64_NONE: u32 = 0;
pub const R_AARCH64_ABS64: u32 = 257;
pub const R_AARCH64_COPY: u32 = 1024;
pub const R_AARCH64_GLOB_DAT: u32 = 1025;
pub const R_AARCH64_JUMP_SLOT: u32 = 1026;
pub const R_AARCH64_RELATIVE: u32 = 1027;
pub const R_AARCH64_TLS_TPREL64: u32 = 1030;
pub const R_AARCH64_TLSDESC: u32 = 1031;

/// The four ELF magic bytes.
pub open spec fn spec_elfmag() -> Seq<u8> {
    seq![0x7fu8, 0x45u8, 0x4cu8, 0x46u8]
}

/// The four ELF magic bytes `\x7fELF`.
pub fn elfmag() -> (r: [u8; 4])
    ensures
        r@ == spec_elfmag(),
{
    let r = [0x7fu8, 0x45u8, 0x4cu8, 0x46u8];
    assert(r@ =~= spec_elfmag());
    r
}

/// ELF parsing errors.
#[derive(Debug, Clone, PartialEq, Eq)]
pub enum ElfError {
    BufferTooSmall { expected: usize, found: usize },
    InvalidMagic,
    UnsupportedClass(u8),
    UnsupportedDataEncoding(u8),
    UnsupportedMachine(u16),
    UnsupportedType(u16),
    InvalidHeaderSize,
    InvalidDynamicSection,
    StringTableNotFound,
    SymbolTableNotFound,
    CorruptedData(&'static str),
}

/// 64-bit ELF file header (`Elf64_Ehdr`).
#[derive(Debug, Clone, Copy, PartialEq, Eq)]
pub struct Elf64Ehdr {
    pub e_ident: [u8; 16],
    pub e_type: u16,
    pub e_machine: u16,
    pub e_version: u32,
    pub e_entry: u64,
    pub e_phoff: u64,
    pub e_shoff: u64,
    pub e_flags: u32,
    pub e_ehsize: u16,
    pub e_phentsize: u16,
    pub e_phnum: u16,
    pub e_shentsize: u16,
    pub e_shnum: u16,
    pub e_shstrndx: u16,
}

/// The header fields read from the first 64 bytes of `b`.
pub open spec fn ehdr_fields_match(h: Elf64Ehdr, b: Seq<u8>) -> bool {
    &&& h.e_ident@ == b.subrange(0, 16)
    &&& h.e_type == le16(b, 16)
    &&& h.e_machine == le16(b, 18)
    &&& h.e_version == le32(b, 20)
    &&& h.e_entry == le64(b, 24)
    &&& h.e_phoff == le64(b, 32)
    &&& h.e_shoff == le64(b, 40)
    &&& h.e_flags == le32(b, 48)
    &&& h.e_ehsize == le16(b, 52)
    &&& h.e_phentsize == le16(b, 54)
    &&& h.e_phnum == le16(b, 56)
    &&& h.e_shentsize == le16(b, 58)
    &&& h.e_shnum == le16(b, 60)
    &&& h.e_shstrndx == le16(b, 62)
}

/// At most one header matches the bytes.
pub proof fn lemma_ehdr_unique(h1: Elf64Ehdr, h2: Elf64Ehdr, b: Seq<u8>)
    requires
        ehdr_fields_match(h1, b),
        ehdr_fields_match(h2, b),
    ensures
        h1 == h2,
{
    assert(h1.e_ident@ =~= h2.e_ident@);
    assert(h1.e_ident =~= h2.e_ident);
}

/// The error the header check reports for `b`, if any, in the order the checks are made.
pub open spec fn ehdr_error(b: Seq<u8>) -> Option<ElfError> {
    if b.len() < 64 {
        Some(ElfError::BufferTooSmall { expected: 64, found: b.len() as usize })
    } else if b.subrange(0, 4) != spec_elfmag() {
        Some(ElfError::InvalidMagic)
    } else if b[4] != ELFCLASS64 {
        Some(ElfError::UnsupportedClass(b[4]))
    } else if b[5] != ELFDATA2LSB {
        Some(ElfError::UnsupportedDataEncoding(b[5]))
    } else if le16(b, 18) != EM_AARCH64 {
        Some(ElfError::UnsupportedMachine(le16(b, 18) as u16))
    } else if le16(b, 16) != ET_DYN && le16(b, 16) != ET_EXEC {
        Some(ElfError::UnsupportedType(le16(b, 16) as u16))
    } else {
        None
    }
}

impl Elf64Ehdr {
    /// Parses and validates an AArch64 ELF64 little-endian header.
    pub fn parse(bytes: &[u8]) -> (r: Result<Elf64Ehdr, ElfError>)
        ensures
            ehdr_error(bytes@) matches Some(e) ==> r == Err::<Elf64Ehdr, ElfError>(e),
            ehdr_error(bytes@) is None ==> (r matches Ok(h) && ehdr_fields_match(h, bytes@)),
    {
        if bytes.len() < 64 {
            return Err(ElfError::BufferTooSmall { expected: 64, found: bytes.len() });
        }
        if !(bytes[0] == 0x7f && bytes[1] == 0x45 && bytes[2] == 0x4c && bytes[3] == 0x46) {
            proof {
                if bytes@.subrange(0, 4) == spec_elfmag() {
                    assert(bytes@[0] == bytes@.subrange(0, 4)[0]);
                    assert(bytes@[1] == bytes@.subrange(0, 4)[1]);
                    assert(bytes@[2] == bytes@.subrange(0, 4)[2]);
                    assert(bytes@[3] == bytes@.subrange(0, 4)[3]);
                }
            }
            return Err(ElfError::InvalidMagic);
        }
        assert(bytes@.subrange(0, 4) =~= spec_elfmag());
        if bytes[4] != ELFCLASS64 {
            return Err(ElfError::UnsupportedClass(bytes[4]));
        }
        if bytes[5] != ELFDATA2LSB {
            return Err(ElfError::UnsupportedDataEncoding(bytes[5]));
        }
        let e_type = read_u16(bytes, 16);
        let e_machine = read_u16(bytes, 18);
        if e_machine != EM_AARCH64 {
            return Err(ElfError::UnsupportedMachine(e_machine));
        }
        if e_type != ET_DYN && e_type != ET_EXEC {
            return Err(ElfError::UnsupportedType(e_type));
        }
        let mut e_ident = [0u8; 16];
        let mut i: usize = 0;
        while i < 16
            invariant
                0 <= i <= 16,
                bytes@.len() >= 64,
                forall|j: int| 0 <= j < i ==> e_ident@[j] == bytes@[j],
            decreases 16 - i,
        {
            e_ident[i] = bytes[i];
            i = i + 1;
        }
        assert(e_ident@ =~= bytes@.subrange(0, 16));
        Ok(Elf64Ehdr {
            e_ident,
            e_type,
            e_machine,
            e_version: read_u32(bytes, 20),
            e_entry: read_u64(bytes, 24),
            e_phoff: read_u64(bytes, 32),
            e_shoff: read_u64(bytes, 40),
            e_flags: read_u32(bytes, 48),
            e_ehsize: read_u16(bytes, 52),
            e_phentsize: read_u16(bytes, 54),
            e_phnum: read_u16(bytes, 56),
            e_shentsize: read_u16(bytes, 58),
            e_shnum: read_u16(bytes, 60),
            e_shstrndx: read_u16(bytes, 62),
        })
    }
}

/// 64-bit ELF program header (`Elf64_Phdr`).
#[derive(Debug, Clone, Copy, PartialEq, Eq)]
pub struct Elf64Phdr {
    pub p_type: u32,
    pub p_flags: u32,
    pub p_offset: u64,
    pub p_vaddr: u64,
    pub p_paddr: u64,
    pub p_filesz: u64,
    pub p_memsz: u64,
    pub p_align: u64,
}

/// The program header stored at offset `p` of `b`.
pub open spec fn spec_phdr(b: Seq<u8>, p: int) -> Elf64Phdr {
    Elf64Phdr {
        p_type: le32(b, p) as u32,
        p_flags: le32(b, p + 4) as u32,
        p_offset: le64(b, p + 8) as u64,
        p_vaddr: le64(b, p + 16) as u64,
        p_paddr: le64(b, p + 24) as u64,
        p_filesz: le64(b, p + 32) as u64,
        p_memsz: le64(b, p + 40) as u64,
        p_align: le64(b, p + 48) as u64,
    }
}

impl Elf64Phdr {
    /// Parses a program header from the first 56 bytes of `bytes`.
    pub fn parse(bytes: &[u8]) -> (r: Result<Elf64Phdr, ElfError>)
        ensures
            bytes@.len() < 56 ==> r == Err::<Elf64Phdr, ElfError>(
                ElfError::BufferTooSmall { expected: 56, found: bytes@.len() as usize },
            ),
            bytes@.len() >= 56 ==> r == Ok::<Elf64Phdr, ElfError>(spec_phdr(bytes@, 0)),
    {
        if bytes.len() < 56 {
            return Err(ElfError::BufferTooSmall { expected: 56, found: bytes.len() });
        }
        Ok(Elf64Phdr {
            p_type: read_u32(bytes, 0),
            p_flags: read_u32(bytes, 4),
            p_offset: read_u64(bytes, 8),
            p_vaddr: read_u64(bytes, 16),
            p_paddr: read_u64(bytes, 24),
            p_filesz: read_u64(bytes, 32),
            p_memsz: read_u64(bytes, 40),
            p_align: read_u64(bytes, 48),
        })
    }

    pub fn is_load(&self) -> (r: bool)
        ensures
            r == (self.p_type == PT_LOAD),
    {
        self.p_type == PT_LOAD
    }

    pub fn is_dynamic(&self) -> (r: bool)
        ensures
            r == (self.p_type == PT_DYNAMIC),
    {
        self.p_type == PT_DYNAMIC
    }

    pub fn is_readable(&self) -> (r: bool)
        ensures
            r == ((self.p_flags & PF_R) != 0),
    {
        (self.p_flags & PF_R) != 0
    }

    pub fn is_writable(&self) -> (r: bool)
        ensures
            r == ((self.p_flags & PF_W) != 0),
    {
        (self.p_flags & PF_W) != 0
    }

    pub fn is_executable(&self) -> (r: bool)
        ensures
            r == ((self.p_flags & PF_X) != 0),
    {
        (self.p_flags & PF_X) != 0
    }
}

/// 64-bit ELF dynamic entry (`Elf64_Dyn`).
#[derive(Debug, Clone, Copy, PartialEq, Eq)]
pub struct Elf64Dyn {
    pub d_tag: u64,
    pub d_val: u64,
}

/// The dynamic entry stored at offset `p` of `b`.
pub open spec fn spec_dyn(b: Seq<u8>, p: int) -> Elf64Dyn {
    Elf64Dyn { d_tag: le64(b, p) as u64, d_val: le64(b, p + 8) as u64 }
}

impl Elf64Dyn {
    pub fn parse(bytes: &[u8]) -> (r: Result<Elf64Dyn, ElfError>)
        ensures
            bytes@.len() < 16 ==> r == Err::<Elf64Dyn, ElfError>(
                ElfError::BufferTooSmall { expected: 16, found: bytes@.len() as usize },
            ),
            bytes@.len() >= 16 ==> r == Ok::<Elf64Dyn, ElfError>(spec_dyn(bytes@, 0)),
    {
        if bytes.len() < 16 {
            return Err(ElfError::BufferTooSmall { expected: 16, found: bytes.len() });
        }
        Ok(Elf64Dyn { d_tag: read_u64(bytes, 0), d_val: read_u64(bytes, 8) })
    }
}

/// 64-bit ELF symbol (`Elf64_Sym`).
#[derive(Debug, Clone, Copy, PartialEq, Eq)]
pub struct Elf64Sym {
    pub st_name: u32,
    pub st_info: u8,
    pub st_other: u8,
    pub st_shndx: u16,
    pub st_value: u64,
    pub st_size: u64,
}

/// The symbol stored at offset `p` of `b`.
pub open spec fn spec_sym(b: Seq<u8>, p: int) -> Elf64Sym {
    Elf64Sym {
        st_name: le32(b, p) as u32,
        st_info: b[p + 4],
        st_other: b[p + 5],
        st_shndx: le16(b, p + 6) as u16,
        st_value: le64(b, p + 8) as u64,
        st_size: le64(b, p + 16) as u64,
    }
}

impl Elf64Sym {
    pub fn parse(bytes: &[u8]) -> (r: Result<Elf64Sym, ElfError>)
        ensures
            bytes@.len() < 24 ==> r == Err::<Elf64Sym, ElfError>(
                ElfError::BufferTooSmall { expected: 24, found: bytes@.len() as usize },
            ),
            bytes@.len() >= 24 ==> r == Ok::<Elf64Sym, ElfError>(spec_sym(bytes@, 0)),
    {
        if bytes.len() < 24 {
            return Err(ElfError::BufferTooSmall { expected: 24, found: bytes.len() });
        }
        Ok(Elf64Sym {
            st_name: read_u32(bytes, 0),
            st_info: bytes[4],
            st_other: bytes[5],
            st_shndx: read_u16(bytes, 6),
            st_value: read_u64(bytes, 8),
            st_size: read_u64(bytes, 16),
        })
    }

    /// The binding, the high four bits of `st_info`.
    pub fn binding(&self) -> (r: u8)
        ensures
            r == self.st_info / 16,
    {
        self.st_info / 16
    }

    /// The type, the low four bits of `st_info`.
    pub fn sym_type(&self) -> (r: u8)
        ensures
            r == self.st_info % 16,
    {
        self.st_info % 16
    }

    pub fn is_global(&self) -> (r: bool)
        ensures
            r == (self.st_info / 16 == STB_GLOBAL),
    {
        self.binding() == STB_GLOBAL
    }

    pub fn is_weak(&self) -> (r: bool)
        ensures
            r == (self.st_info / 16 == STB_WEAK),
    {
        self.binding() == STB_WEAK
    }

    pub fn is_defined(&self) -> (r: bool)
        ensures
            r == (self.st_shndx != 0),
    {
        self.st_shndx != 0
    }
}

/// 64-bit ELF relocation with addend (`Elf64_Rela`).
#[derive(Debug, Clone, Copy, PartialEq, Eq)]
pub struct Elf64Rela {
    pub r_offset: u64,
    pub r_info: u64,
    pub r_addend: i64,
}

/// The relocation stored at offset `p` of `b`.
pub open spec fn spec_rela(b: Seq<u8>, p: int) -> Elf64Rela {
    Elf64Rela {
        r_offset: le64(b, p) as u64,
        r_info: le64(b, p + 8) as u64,
        r_addend: le64(b, p + 16) as i64,
    }
}

impl Elf64Rela {
    pub fn parse(bytes: &[u8]) -> (r: Result<Elf64Rela, ElfError>)
        ensures
            bytes@.len() < 24 ==> r == Err::<Elf64Rela, ElfError>(
                ElfError::BufferTooSmall { expected: 24, found: bytes@.len() as usize },
            ),
            bytes@.len() >= 24 ==> r == Ok::<Elf64Rela, ElfError>(spec_rela(bytes@, 0)),
    {
        if bytes.len() < 24 {
            return Err(ElfError::BufferTooSmall { expected: 24, found: bytes.len() });
        }
        Ok(Elf64Rela {
            r_offset: read_u64(bytes, 0),
            r_info: read_u64(bytes, 8),
            r_addend: read_u64(bytes, 16) as i64,
        })
    }

    /// The symbol index, the high 32 bits of `r_info`.
    pub fn r_sym(&self) -> (r: u32)
        ensures
            r == self.r_info / 0x1_0000_0000,
    {
        (self.r_info / 0x1_0000_0000) as u32
    }

    /// The relocation type, the low 32 bits of `r_info`.
    pub fn r_type(&self) -> (r: u32)
        ensures
            r == self.r_info % 0x1_0000_0000,
    {
        (self.r_info % 0x1_0000_0000) as u32
    }
}


/// Fully parsed ELF64 representation.
#[derive(Debug, Clone)]
pub struct ParsedElf {
    pub ehdr: Elf64Ehdr,
    pub phdrs: Vec<Elf64Phdr>,
    pub dynamic_entries: Vec<Elf64Dyn>,
    pub load_segments: Vec<Elf64Phdr>,
    pub vaddr_min: u64,
    pub vaddr_max: u64,
    pub total_memsz: u64,
}

/// `acc` followed by the table in `r`, or the error in `r`.
pub open spec fn prepend<T>(acc: Seq<T>, r: Result<Seq<T>, ElfError>) -> Result<Seq<T>, ElfError> {
    match r {
        Ok(s) => Ok(acc + s),
        Err(e) => Err(e),
    }
}

/// The program header table from entry `i` on, or the error met first.
pub open spec fn phdr_table(b: Seq<u8>, h: Elf64Ehdr, i: int) -> Result<Seq<Elf64Phdr>, ElfError>
    decreases h.e_phnum - i,
{
    if i < 0 || i >= h.e_phnum {
        Ok(Seq::empty())
    } else {
        let start = h.e_phoff + i * h.e_phentsize;
        let end = start + h.e_phentsize;
        if start > u64::MAX {
            Err(ElfError::CorruptedData("Program header offset overflows"))
        } else if end > u64::MAX {
            Err(ElfError::CorruptedData("Program header range overflows"))
        } else if end > b.len() {
            Err(ElfError::BufferTooSmall { expected: end as usize, found: b.len() as usize })
        } else if h.e_phentsize < 56 {
            Err(ElfError::BufferTooSmall { expected: 56, found: h.e_phentsize as usize })
        } else {
            prepend(seq![spec_phdr(b, start)], phdr_table(b, h, i + 1))
        }
    }
}

/// The loadable segments, in order.
pub open spec fn spec_loads(phdrs: Seq<Elf64Phdr>) -> Seq<Elf64Phdr> {
    phdrs.filter(|p: Elf64Phdr| p.p_type == PT_LOAD)
}

/// Some loadable segment's end address overflows.
pub open spec fn load_end_overflows(loads: Seq<Elf64Phdr>) -> bool {
    exists|i: int| 0 <= i < loads.len() && #[trigger] loads[i].p_vaddr + loads[i].p_memsz > u64::MAX
}

/// Smallest start address over `s` (`u64::MAX` when empty).
pub open spec fn min_vaddr(s: Seq<Elf64Phdr>) -> u64
    decreases s.len(),
{
    if s.len() == 0 {
        u64::MAX
    } else if s.last().p_vaddr < min_vaddr(s.drop_last()) {
        s.last().p_vaddr
    } else {
        min_vaddr(s.drop_last())
    }
}

/// Largest end address over `s` (0 when empty).
pub open spec fn max_end(s: Seq<Elf64Phdr>) -> int
    decreases s.len(),
{
    if s.len() == 0 {
        0
    } else if s.last().p_vaddr + s.last().p_memsz > max_end(s.drop_last()) {
        s.last().p_vaddr + s.last().p_memsz
    } else {
        max_end(s.drop_last())
    }
}

/// The first dynamic program header.
pub open spec fn first_dynamic(phdrs: Seq<Elf64Phdr>) -> Option<Elf64Phdr>
    decreases phdrs.len(),
{
    if phdrs.len() == 0 {
        None
    } else if phdrs[0].p_type == PT_DYNAMIC {
        Some(phdrs[0])
    } else {
        first_dynamic(phdrs.drop_first())
    }
}

/// Dynamic entries `i..num` of the table at `off`, read until the table leaves the buffer or
/// a `DT_NULL` entry is met.
pub open spec fn dyn_entries(b: Seq<u8>, off: int, num: int, i: int) -> Seq<Elf64Dyn>
    decreases num - i,
{
    if i < 0 || i >= num || off + i * 16 + 16 > b.len() {
        Seq::empty()
    } else if spec_dyn(b, off + i * 16).d_tag == DT_NULL {
        Seq::empty()
    } else {
        seq![spec_dyn(b, off + i * 16)] + dyn_entries(b, off, num, i + 1)
    }
}

/// The dynamic section's entries, given the program headers.
pub open spec fn spec_dynamic_entries(b: Seq<u8>, phdrs: Seq<Elf64Phdr>) -> Seq<Elf64Dyn> {
    match first_dynamic(phdrs) {
        None => Seq::empty(),
        Some(d) => dyn_entries(b, d.p_offset as int, d.p_filesz as int / 16, 0),
    }
}

/// What parsing `b` yields: the header error, the program header error, the load range
/// error, or the parsed image.
pub open spec fn parsed_matches(b: Seq<u8>, r: Result<ParsedElf, ElfError>) -> bool {
    match ehdr_error(b) {
        Some(e) => r == Err::<ParsedElf, ElfError>(e),
        None => {
            &&& r is Ok ==> ehdr_fields_match(r->Ok_0.ehdr, b)
            &&& forall|h: Elf64Ehdr| ehdr_fields_match(h, b) ==> match phdr_table(b, h, 0) {
                Err(e) => r == Err::<ParsedElf, ElfError>(e),
                Ok(phdrs) => if load_end_overflows(spec_loads(phdrs)) {
                    r == Err::<ParsedElf, ElfError>(
                        ElfError::CorruptedData("PT_LOAD virtual address range overflows"),
                    )
                } else {
                    r matches Ok(p) && {
                        let loads = spec_loads(phdrs);
                        &&& p.phdrs@ == phdrs
                        &&& p.load_segments@ == loads
                        &&& p.vaddr_min == (if loads.len() == 0 { 0 } else { min_vaddr(loads) })
                        &&& p.vaddr_max == (if loads.len() == 0 { 0 } else { max_end(loads) })
                        &&& p.total_memsz == (if p.vaddr_max >= p.vaddr_min { p.vaddr_max - p.vaddr_min } else { 0 })
                        &&& p.dynamic_entries@ == spec_dynamic_entries(b, phdrs)
                    }
                },
            }
        },
    }
}

proof fn lemma_filter_push(s: Seq<Elf64Phdr>, x: Elf64Phdr)
    ensures
        spec_loads(s.push(x)) == if x.p_type == PT_LOAD { spec_loads(s).push(x) } else { spec_loads(s) },
{
    reveal_with_fuel(Seq::filter, 1);
    assert(s.push(x).drop_last() =~= s);
}

proof fn lemma_first_dynamic_prefix(phdrs: Seq<Elf64Phdr>, i: int)
    requires
        0 <= i < phdrs.len(),
        forall|j: int| 0 <= j < i ==> phdrs[j].p_type != PT_DYNAMIC,
    ensures
        first_dynamic(phdrs) == first_dynamic(phdrs.subrange(i, phdrs.len() as int)),
    decreases i,
{
    if i > 0 {
        assert(phdrs.drop_first().subrange(i - 1, phdrs.len() - 1) =~= phdrs.subrange(i, phdrs.len() as int));
        lemma_first_dynamic_prefix(phdrs.drop_first(), i - 1);
    } else {
        assert(phdrs.subrange(0, phdrs.len() as int) =~= phdrs);
    }
}

proof fn lemma_first_dynamic_none(phdrs: Seq<Elf64Phdr>)
    requires
        forall|j: int| 0 <= j < phdrs.len() ==> phdrs[j].p_type != PT_DYNAMIC,
    ensures
        first_dynamic(phdrs) is None,
    decreases phdrs.len(),
{
    if phdrs.len() > 0 {
        lemma_first_dynamic_none(phdrs.drop_first());
    }
}

impl ParsedElf {
    /// Reads program header `i`, checking its range against the buffer.
    fn read_phdr_at(bytes: &[u8], ehdr: &Elf64Ehdr, i: u64) -> (r: Result<Elf64Phdr, ElfError>)
        requires
            i < ehdr.e_phnum,
        ensures
            ({
                let start = ehdr.e_phoff + i * ehdr.e_phentsize;
                let end = start + ehdr.e_phentsize;
                if start > u64::MAX {
                    r == Err::<Elf64Phdr, ElfError>(ElfError::CorruptedData("Program header offset overflows"))
                } else if end > u64::MAX {
                    r == Err::<Elf64Phdr, ElfError>(ElfError::CorruptedData("Program header range overflows"))
                } else if end > bytes@.len() {
                    r == Err::<Elf64Phdr, ElfError>(
                        ElfError::BufferTooSmall { expected: end as usize, found: bytes@.len() as usize },
                    )
                } else if ehdr.e_phentsize < 56 {
                    r == Err::<Elf64Phdr, ElfError>(
                        ElfError::BufferTooSmall { expected: 56, found: ehdr.e_phentsize as usize },
                    )
                } else {
                    r == Ok::<Elf64Phdr, ElfError>(spec_phdr(bytes@, start))
                }
            }),
    {
        let phentsize = ehdr.e_phentsize as u64;
        assert(i * phentsize <= 0xffff * 0xffff) by (nonlinear_arith)
            requires
                i < 0x10000,
                phentsize < 0x10000,
        ;
        let entry_offset = i * phentsize;
        if ehdr.e_phoff > u64::MAX - entry_offset {
            return Err(ElfError::CorruptedData("Program header offset overflows"));
        }
        let start = ehdr.e_phoff + entry_offset;
        if start > u64::MAX - phentsize {
            return Err(ElfError::CorruptedData("Program header range overflows"));
        }
        let end = start + phentsize;
        if end > bytes.len() as u64 {
            return Err(ElfError::BufferTooSmall { expected: #[verifier::truncate] (end as usize), found: bytes.len() });
        }
        let slice = &bytes[start as usize..end as usize];
        let r = Elf64Phdr::parse(slice);
        proof {
            if phentsize >= 56 {
                assert forall|k: int| 0 <= k < 56 implies slice@[k] == bytes@[start + k] by {}
                assert(spec_phdr(slice@, 0) == spec_phdr(bytes@, start as int));
            }
        }
        r
    }

    /// Reads the program header table described by `ehdr`.
    fn read_phdrs(bytes: &[u8], ehdr: &Elf64Ehdr) -> (r: Result<Vec<Elf64Phdr>, ElfError>)
        ensures
            match phdr_table(bytes@, *ehdr, 0) {
                Ok(s) => r matches Ok(v) && v@ == s,
                Err(e) => r == Err::<Vec<Elf64Phdr>, ElfError>(e),
            },
    {
        let mut phdrs: Vec<Elf64Phdr> = Vec::new();
        let phnum = ehdr.e_phnum as u64;
        let mut i: u64 = 0;
        while i < phnum
            invariant
                0 <= i <= phnum,
                phnum == ehdr.e_phnum,
                phdr_table(bytes@, *ehdr, 0) == prepend(phdrs@, phdr_table(bytes@, *ehdr, i as int)),
            decreases phnum - i,
        {
            let ph = match Self::read_phdr_at(bytes, ehdr, i) {
                Ok(ph) => ph,
                Err(e) => return Err(e),
            };
            proof {
                let rest = phdr_table(bytes@, *ehdr, i + 1);
                assert(phdr_table(bytes@, *ehdr, i as int) == prepend(seq![ph], rest));
                match rest {
                    Ok(s) => {
                        assert(phdrs@ + (seq![ph] + s) =~= phdrs@.push(ph) + s);
                    },
                    Err(_) => {},
                }
            }
            phdrs.push(ph);
            i = i + 1;
        }
        proof {
            assert(phdrs@ + Seq::<Elf64Phdr>::empty() =~= phdrs@);
        }
        Ok(phdrs)
    }

    /// Parses an ELF64 AArch64 binary: header, program headers, load range and dynamic section.
    pub fn parse(bytes: &[u8]) -> (r: Result<ParsedElf, ElfError>)
        ensures
            parsed_matches(bytes@, r),
            ehdr_error(bytes@) is None ==> exists|h: Elf64Ehdr| #[trigger] ehdr_fields_match(h, bytes@),
    {
        let ehdr = match Elf64Ehdr::parse(bytes) {
            Ok(h) => h,
            Err(e) => return Err(e),
        };
        assert(ehdr_fields_match(ehdr, bytes@));
        proof {
            assert forall|h: Elf64Ehdr| ehdr_fields_match(h, bytes@) implies h == ehdr by {
                assert(h.e_ident@ =~= ehdr.e_ident@);
                assert(h.e_ident =~= ehdr.e_ident);
            }
        }
        let ghost unique = forall|h: Elf64Ehdr| ehdr_fields_match(h, bytes@) ==> h == ehdr;
        assert(unique);
        let phdrs = match Self::read_phdrs(bytes, &ehdr) {
            Ok(p) => p,
            Err(e) => return Err(e),
        };
        let mut load_segments: Vec<Elf64Phdr> = Vec::new();
        let mut vaddr_min: u64 = u64::MAX;
        let mut vaddr_max: u64 = 0;
        let n = phdrs.len();
        let mut i: usize = 0;
        while i < n
            invariant
                0 <= i <= n,
                n == phdrs@.len(),
                load_segments@ == spec_loads(phdrs@.subrange(0, i as int)),
                !load_end_overflows(load_segments@),
                vaddr_min == min_vaddr(load_segments@),
                vaddr_max == max_end(load_segments@),
                forall|h: Elf64Ehdr| ehdr_fields_match(h, bytes@) ==> h == ehdr,
                ehdr_error(bytes@) is None,
                ehdr_fields_match(ehdr, bytes@),
                phdr_table(bytes@, ehdr, 0) == Ok::<Seq<Elf64Phdr>, ElfError>(phdrs@),
            decreases n - i,
        {
            let ph = phdrs[i];
            proof {
                assert(phdrs@.subrange(0, i + 1) =~= phdrs@.subrange(0, i as int).push(ph));
                lemma_filter_push(phdrs@.subrange(0, i as int), ph);
            }
            if ph.is_load() {
                if ph.p_vaddr > u64::MAX - ph.p_memsz {
                    proof {
                        let loads = spec_loads(phdrs@);
                        assert(phdrs@ =~= phdrs@.subrange(0, i + 1) + phdrs@.subrange(i + 1, n as int));
                        phdrs@.lemma_filter_contains(|p: Elf64Phdr| p.p_type == PT_LOAD, i as int);
                        assert(loads.contains(ph));
                        let k = choose|k: int| 0 <= k < loads.len() && loads[k] == ph;
                        assert(loads[k].p_vaddr + loads[k].p_memsz > u64::MAX);
                    }
                    return Err(ElfError::CorruptedData("PT_LOAD virtual address range overflows"));
                }
                let ghost before = load_segments@;
                load_segments.push(ph);
                proof {
                    assert(load_segments@.drop_last() =~= before);
                    assert forall|k: int| 0 <= k < load_segments@.len() implies
                        #[trigger] load_segments@[k].p_vaddr + load_segments@[k].p_memsz <= u64::MAX by {
                        if k < before.len() {
                            assert(load_segments@[k] == before[k]);
                        }
                    }
                }
                if ph.p_vaddr < vaddr_min {
                    vaddr_min = ph.p_vaddr;
                }
                let end = ph.p_vaddr + ph.p_memsz;
                if end > vaddr_max {
                    vaddr_max = end;
                }
            }
            i = i + 1;
        }
        proof {
            assert(phdrs@.subrange(0, n as int) =~= phdrs@);
        }
        if load_segments.len() == 0 {
            vaddr_min = 0;
            vaddr_max = 0;
        }
        let total_memsz = if vaddr_max >= vaddr_min { vaddr_max - vaddr_min } else { 0 };
        let dynamic_entries = Self::read_dynamic(bytes, &phdrs);
        let r = ParsedElf {
            ehdr,
            phdrs,
            dynamic_entries,
            load_segments,
            vaddr_min,
            vaddr_max,
            total_memsz,
        };
        proof {
            assert forall|h: Elf64Ehdr| ehdr_fields_match(h, bytes@) implies h == ehdr by {
                assert(h.e_ident@ =~= ehdr.e_ident@);
                assert(h.e_ident =~= ehdr.e_ident);
            }
        }
        Ok(r)
    }

    /// Reads the entries of the first dynamic segment.
    fn read_dynamic(bytes: &[u8], phdrs: &Vec<Elf64Phdr>) -> (r: Vec<Elf64Dyn>)
        ensures
            r@ == spec_dynamic_entries(bytes@, phdrs@),
    {
        let n = phdrs.len();
        let mut k: usize = 0;
        while k < n
            invariant
                0 <= k <= n,
                n == phdrs@.len(),
                forall|j: int| 0 <= j < k ==> phdrs@[j].p_type != PT_DYNAMIC,
            decreases n - k,
        {
            if phdrs[k].is_dynamic() {
                proof {
                    lemma_first_dynamic_prefix(phdrs@, k as int);
                    assert(phdrs@.subrange(k as int, n as int)[0] == phdrs@[k as int]);
                }
                let dyn_offset = phdrs[k].p_offset;
                let num = phdrs[k].p_filesz / 16;
                return Self::read_dynamic_table(bytes, dyn_offset, num);
            }
            k = k + 1;
        }
        proof {
            lemma_first_dynamic_none(phdrs@);
        }
        Vec::new()
    }

    fn read_dynamic_table(bytes: &[u8], off: u64, num: u64) -> (r: Vec<Elf64Dyn>)
        ensures
            r@ == dyn_entries(bytes@, off as int, num as int, 0),
    {
        let mut out: Vec<Elf64Dyn> = Vec::new();
        let blen: usize = bytes.len();
        let len = blen as u64;
        let mut i: u64 = 0;
        let mut pos: u64 = off;
        while i < num
            invariant
                0 <= i <= num,
                len == bytes@.len(),
                blen == bytes@.len(),
                pos == off + i * 16,
                dyn_entries(bytes@, off as int, num as int, 0) == out@ + dyn_entries(bytes@, off as int, num as int, i as int),
            decreases num - i,
        {
            if pos > len || len - pos < 16 {
                proof {
                    assert(dyn_entries(bytes@, off as int, num as int, i as int) =~= Seq::<Elf64Dyn>::empty());
                    assert(out@ + Seq::<Elf64Dyn>::empty() =~= out@);
                }
                return out;
            }
            assert(pos + 16 <= bytes@.len());
            let start = pos as usize;
            assert(start == pos);
            let d = match Elf64Dyn::parse(&bytes[start..start + 16]) {
                Ok(d) => d,
                Err(_) => return out,
            };
            proof {
                let sl = bytes@.subrange(start as int, start + 16);
                assert forall|k: int| 0 <= k < 16 implies sl[k] == bytes@[start + k] by {}
                assert(spec_dyn(sl, 0) == spec_dyn(bytes@, start as int));
            }
            if d.d_tag == DT_NULL {
                proof {
                    assert(dyn_entries(bytes@, off as int, num as int, i as int) =~= Seq::<Elf64Dyn>::empty());
                    assert(out@ + Seq::<Elf64Dyn>::empty() =~= out@);
                }
                return out;
            }
            proof {
                let rest = dyn_entries(bytes@, off as int, num as int, i + 1);
                assert(out@ + (seq![d] + rest) =~= out@.push(d) + rest);
            }
            out.push(d);
            i = i + 1;
            pos = pos + 16;
        }
        proof {
            assert(out@ + Seq::<Elf64Dyn>::empty() =~= out@);
        }
        out
    }
}

/// A program header table read from entry `i` has the remaining `e_phnum - i` entries.
proof fn lemma_phdr_table_len(b: Seq<u8>, h: Elf64Ehdr, i: int)
    requires
        0 <= i <= h.e_phnum,
    ensures
        phdr_table(b, h, i) matches Ok(s) ==> s.len() == h.e_phnum - i,
    decreases h.e_phnum - i,
{
    if i < h.e_phnum {
        lemma_phdr_table_len(b, h, i + 1);
    }
}

/// Dynamic entries are read up to, and without, the first `DT_NULL`.
proof fn lemma_dyn_entries_no_null(b: Seq<u8>, off: int, num: int, i: int)
    ensures
        forall|j: int| 0 <= j < dyn_entries(b, off, num, i).len() ==> (#[trigger] dyn_entries(b, off, num, i)[j]).d_tag != DT_NULL,
    decreases num - i,
{
    if !(i < 0 || i >= num || off + i * 16 + 16 > b.len()) && spec_dyn(b, off + i * 16).d_tag != DT_NULL {
        lemma_dyn_entries_no_null(b, off, num, i + 1);
        let rest = dyn_entries(b, off, num, i + 1);
        assert forall|j: int| 0 <= j < dyn_entries(b, off, num, i).len() implies (#[trigger] dyn_entries(b, off, num, i)[j]).d_tag != DT_NULL by {
            if j > 0 {
                assert(dyn_entries(b, off, num, i)[j] == rest[j - 1]);
            }
        }
    }
}

/// The shape of a parsed image: one program header per header entry; the loadable segments
/// are the `PT_LOAD` headers in order; the address range spans them (0 to 0 when there are
/// none) and the total size is its length; no dynamic entry is `DT_NULL`.
pub proof fn lemma_parsed_elf_shape(b: Seq<u8>, p: ParsedElf)
    requires
        parsed_matches(b, Ok(p)),
    ensures
        p.phdrs@.len() == p.ehdr.e_phnum,
        p.load_segments@ == p.phdrs@.filter(|h: Elf64Phdr| h.p_type == PT_LOAD),
        p.load_segments@.len() == 0 ==> p.vaddr_min == 0 && p.vaddr_max == 0,
        p.load_segments@.len() > 0 ==> p.vaddr_min == min_vaddr(p.load_segments@)
            && p.vaddr_max == max_end(p.load_segments@),
        p.vaddr_min <= p.vaddr_max,
        p.total_memsz == p.vaddr_max - p.vaddr_min,
        forall|j: int| 0 <= j < p.dynamic_entries@.len() ==> (#[trigger] p.dynamic_entries@[j]).d_tag != DT_NULL,
{
    assert(ehdr_error(b) is None);
    assert(ehdr_fields_match(p.ehdr, b));
    lemma_phdr_table_len(b, p.ehdr, 0);
    let loads = p.load_segments@;
    if loads.len() > 0 {
        assert(min_vaddr(loads) <= loads.last().p_vaddr);
        assert(loads.last().p_vaddr + loads.last().p_memsz <= max_end(loads));
    }
    match first_dynamic(p.phdrs@) {
        None => {},
        Some(d) => lemma_dyn_entries_no_null(b, d.p_offset as int, d.p_filesz as int / 16, 0),
    }
}

} // verus!
