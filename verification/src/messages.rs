//! The texts that describe the loader's errors.

use vstd::prelude::*;
use crate::linker::elf::ElfError;
use crate::linker::loader::LoaderError;
use crate::memory::mmap::MemoryError;
use crate::text::{push_str, push_decimal, push_hex, push_signed, spec_decimal, spec_hex, spec_signed, string_from_chars};

verus! {

/// The text of a memory error.
pub open spec fn memory_error_text(e: MemoryError) -> Seq<char> {
    match e {
        MemoryError::AllocationFailed { size, errno } => "Failed to allocate "@ + spec_decimal(size as nat)
            + " bytes via mmap (errno "@ + spec_signed(errno as int) + ")"@,
        MemoryError::ProtectionFailed { addr, size, errno } => "Failed to mprotect 0x"@ + spec_hex(addr as nat)
            + " ("@ + spec_decimal(size as nat) + " bytes) (errno "@ + spec_signed(errno as int) + ")"@,
        MemoryError::OutOfBounds { offset, len, total } => "Out of bounds access: offset "@ + spec_decimal(offset as nat)
            + " + len "@ + spec_decimal(len as nat) + " exceeds total "@ + spec_decimal(total as nat),
        MemoryError::InvalidAlignment { addr, expected_align } => "Address 0x"@ + spec_hex(addr as nat)
            + " is not aligned to "@ + spec_decimal(expected_align as nat) + " bytes"@,
        MemoryError::DeallocationFailed { addr, size, errno } => "Failed to munmap 0x"@ + spec_hex(addr as nat)
            + " ("@ + spec_decimal(size as nat) + " bytes) (errno "@ + spec_signed(errno as int) + ")"@,
    }
}

fn push_memory_error(out: &mut Vec<char>, e: &MemoryError)
    ensures
        final(out)@ == old(out)@ + memory_error_text(*e),
{
    match *e {
        MemoryError::AllocationFailed { size, errno } => {
            push_str(out, "Failed to allocate ");
            push_decimal(size as u64, out);
            push_str(out, " bytes via mmap (errno ");
            push_signed(errno as i64, out);
            push_str(out, ")");
        },
        MemoryError::ProtectionFailed { addr, size, errno } => {
            push_str(out, "Failed to mprotect 0x");
            push_hex(addr as u64, out);
            push_str(out, " (");
            push_decimal(size as u64, out);
            push_str(out, " bytes) (errno ");
            push_signed(errno as i64, out);
            push_str(out, ")");
        },
        MemoryError::OutOfBounds { offset, len, total } => {
            push_str(out, "Out of bounds access: offset ");
            push_decimal(offset as u64, out);
            push_str(out, " + len ");
            push_decimal(len as u64, out);
            push_str(out, " exceeds total ");
            push_decimal(total as u64, out);
        },
        MemoryError::InvalidAlignment { addr, expected_align } => {
            push_str(out, "Address 0x");
            push_hex(addr as u64, out);
            push_str(out, " is not aligned to ");
            push_decimal(expected_align as u64, out);
            push_str(out, " bytes");
        },
        MemoryError::DeallocationFailed { addr, size, errno } => {
            push_str(out, "Failed to munmap 0x");
            push_hex(addr as u64, out);
            push_str(out, " (");
            push_decimal(size as u64, out);
            push_str(out, " bytes) (errno ");
            push_signed(errno as i64, out);
            push_str(out, ")");
        },
    }
    assert(final(out)@ =~= old(out)@ + memory_error_text(*e));
}

/// The text of an ELF error.
pub open spec fn elf_error_text(e: ElfError) -> Seq<char> {
    match e {
        ElfError::BufferTooSmall { expected, found } => "ELF buffer too small: expected "@ + spec_decimal(expected as nat)
            + " bytes, found "@ + spec_decimal(found as nat),
        ElfError::InvalidMagic => "Invalid ELF magic bytes"@,
        ElfError::UnsupportedClass(c) => "Unsupported ELF class: "@ + spec_decimal(c as nat) + " (expected 64-bit)"@,
        ElfError::UnsupportedDataEncoding(d) => "Unsupported endianness: "@ + spec_decimal(d as nat) + " (expected 2LSB)"@,
        ElfError::UnsupportedMachine(m) => "Unsupported machine type: "@ + spec_decimal(m as nat) + " (expected AArch64)"@,
        ElfError::UnsupportedType(t) => "Unsupported ELF type: "@ + spec_decimal(t as nat) + " (expected ET_DYN / ET_EXEC)"@,
        ElfError::InvalidHeaderSize => "Invalid ELF header size"@,
        ElfError::InvalidDynamicSection => "Corrupted or missing ELF dynamic section"@,
        ElfError::StringTableNotFound => "ELF dynamic string table not found"@,
        ElfError::SymbolTableNotFound => "ELF dynamic symbol table not found"@,
        ElfError::CorruptedData(m) => "Corrupted ELF data: "@ + m@,
    }
}

fn push_elf_error(out: &mut Vec<char>, e: &ElfError)
    ensures
        final(out)@ == old(out)@ + elf_error_text(*e),
{
    match *e {
        ElfError::BufferTooSmall { expected, found } => {
            push_str(out, "ELF buffer too small: expected ");
            push_decimal(expected as u64, out);
            push_str(out, " bytes, found ");
            push_decimal(found as u64, out);
        },
        ElfError::InvalidMagic => push_str(out, "Invalid ELF magic bytes"),
        ElfError::UnsupportedClass(c) => {
            push_str(out, "Unsupported ELF class: ");
            push_decimal(c as u64, out);
            push_str(out, " (expected 64-bit)");
        },
        ElfError::UnsupportedDataEncoding(d) => {
            push_str(out, "Unsupported endianness: ");
            push_decimal(d as u64, out);
            push_str(out, " (expected 2LSB)");
        },
        ElfError::UnsupportedMachine(m) => {
            push_str(out, "Unsupported machine type: ");
            push_decimal(m as u64, out);
            push_str(out, " (expected AArch64)");
        },
        ElfError::UnsupportedType(t) => {
            push_str(out, "Unsupported ELF type: ");
            push_decimal(t as u64, out);
            push_str(out, " (expected ET_DYN / ET_EXEC)");
        },
        ElfError::InvalidHeaderSize => push_str(out, "Invalid ELF header size"),
        ElfError::InvalidDynamicSection => push_str(out, "Corrupted or missing ELF dynamic section"),
        ElfError::StringTableNotFound => push_str(out, "ELF dynamic string table not found"),
        ElfError::SymbolTableNotFound => push_str(out, "ELF dynamic symbol table not found"),
        ElfError::CorruptedData(m) => {
            push_str(out, "Corrupted ELF data: ");
            push_str(out, m);
        },
    }
    assert(final(out)@ =~= old(out)@ + elf_error_text(*e));
}

/// The text of a loader error.
pub open spec fn loader_error_text(e: LoaderError) -> Seq<char> {
    match e {
        LoaderError::Elf(x) => "ELF error: "@ + elf_error_text(x),
        LoaderError::Memory(x) => "Memory error: "@ + memory_error_text(x),
        LoaderError::UnresolvedSymbol(s) => "Unresolved symbol: '"@ + s@ + "'"@,
        LoaderError::UnsupportedRelocation(r) => "Unsupported relocation type: "@ + spec_decimal(r as nat),
        LoaderError::IoError(s) => "I/O error: "@ + s@,
        LoaderError::RelocationFailed { offset, msg } => "Relocation failed at offset 0x"@ + spec_hex(offset as nat)
            + ": "@ + msg@,
        LoaderError::InvalidStartupAddress(a) => "Invalid startup address: 0x"@ + spec_hex(a as nat),
    }
}

impl MemoryError {
    /// The error's text.
    pub fn message(&self) -> (r: String)
        ensures
            r@ == memory_error_text(*self),
    {
        let mut out: Vec<char> = Vec::new();
        push_memory_error(&mut out, self);
        assert(out@ =~= memory_error_text(*self));
        string_from_chars(out.as_slice())
    }
}

impl ElfError {
    /// The error's text.
    pub fn message(&self) -> (r: String)
        ensures
            r@ == elf_error_text(*self),
    {
        let mut out: Vec<char> = Vec::new();
        push_elf_error(&mut out, self);
        assert(out@ =~= elf_error_text(*self));
        string_from_chars(out.as_slice())
    }
}

impl LoaderError {
    /// The error's text.
    pub fn message(&self) -> (r: String)
        ensures
            r@ == loader_error_text(*self),
    {
        let mut out: Vec<char> = Vec::new();
        match self {
            LoaderError::Elf(x) => {
                push_str(&mut out, "ELF error: ");
                push_elf_error(&mut out, x);
            },
            LoaderError::Memory(x) => {
                push_str(&mut out, "Memory error: ");
                push_memory_error(&mut out, x);
            },
            LoaderError::UnresolvedSymbol(s) => {
                push_str(&mut out, "Unresolved symbol: '");
                push_str(&mut out, s.as_str());
                push_str(&mut out, "'");
            },
            LoaderError::UnsupportedRelocation(r) => {
                push_str(&mut out, "Unsupported relocation type: ");
                push_decimal(*r as u64, &mut out);
            },
            LoaderError::IoError(s) => {
                push_str(&mut out, "I/O error: ");
                push_str(&mut out, s.as_str());
            },
            LoaderError::RelocationFailed { offset, msg } => {
                push_str(&mut out, "Relocation failed at offset 0x");
                push_hex(*offset as u64, &mut out);
                push_str(&mut out, ": ");
                push_str(&mut out, msg.as_str());
            },
            LoaderError::InvalidStartupAddress(a) => {
                push_str(&mut out, "Invalid startup address: 0x");
                push_hex(*a as u64, &mut out);
            },
        }
        assert(out@ =~= loader_error_text(*self));
        string_from_chars(out.as_slice())
    }
}

} // verus!
