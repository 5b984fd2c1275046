use lar::bionic::{bionic_shim_names, register_bionic_shims};
use lar::linker::elf::{elfmag, Elf64Ehdr, ElfError, ELFCLASS64, ELFDATA2LSB, EM_AARCH64, ET_DYN};
use lar::linker::loader::ElfLoader;
use lar::linker::symbols::{DynamicSymbolTable, SymbolRegistry};
use lar::tester::synthetic::generate_synthetic_arm64_so;

fn valid_header() -> Vec<u8> {
    let mut buf = vec![0u8; 64];
    buf[0..4].copy_from_slice(&elfmag());
    buf[4] = ELFCLASS64;
    buf[5] = ELFDATA2LSB;
    buf[6] = 1;
    buf[16..18].copy_from_slice(&ET_DYN.to_le_bytes());
    buf[18..20].copy_from_slice(&EM_AARCH64.to_le_bytes());
    buf[20..24].copy_from_slice(&1u32.to_le_bytes());
    buf[52..54].copy_from_slice(&64u16.to_le_bytes());
    buf
}

#[test]
fn test_elf_header_validation() {
    let buf = valid_header();
    let ehdr = Elf64Ehdr::parse(&buf).unwrap();
    assert_eq!(ehdr.e_machine, EM_AARCH64);
    assert_eq!(ehdr.e_type, ET_DYN);
}

#[test]
fn test_elf_invalid_magic() {
    let buf = [0u8; 64];
    let err = Elf64Ehdr::parse(&buf).unwrap_err();
    assert_eq!(err, ElfError::InvalidMagic);
}

#[test]
fn elf_header_errors_come_in_check_order() {
    let buf = valid_header();
    assert_eq!(
        Elf64Ehdr::parse(&buf[..63]).unwrap_err(),
        ElfError::BufferTooSmall { expected: 64, found: 63 }
    );
    let mut wrong_class = buf.clone();
    wrong_class[4] = 1;
    assert_eq!(Elf64Ehdr::parse(&wrong_class).unwrap_err(), ElfError::UnsupportedClass(1));
    let mut wrong_machine = buf.clone();
    wrong_machine[18] = 62;
    wrong_machine[19] = 0;
    assert_eq!(Elf64Ehdr::parse(&wrong_machine).unwrap_err(), ElfError::UnsupportedMachine(62));
    let mut wrong_type = buf;
    wrong_type[16] = 1;
    assert_eq!(Elf64Ehdr::parse(&wrong_type).unwrap_err(), ElfError::UnsupportedType(1));
}

#[test]
fn test_extract_string() {
    let strtab = b"\0hello\0world\0";
    assert_eq!(DynamicSymbolTable::extract_string(strtab, 1), "hello");
    assert_eq!(DynamicSymbolTable::extract_string(strtab, 7), "world");
    assert_eq!(DynamicSymbolTable::extract_string(strtab, 0), "");
}

#[test]
fn extract_string_past_the_end_is_empty() {
    let strtab = b"\0abc";
    assert_eq!(DynamicSymbolTable::extract_string(strtab, 1), "abc");
    assert_eq!(DynamicSymbolTable::extract_string(strtab, 40), "");
}

#[test]
fn test_symbol_registry() {
    let mut registry = SymbolRegistry::new();
    registry.register("malloc", 0x1000);
    registry.register("free", 0x2000);

    assert_eq!(registry.resolve("malloc"), Some(0x1000));
    assert_eq!(registry.resolve("free"), Some(0x2000));
    assert_eq!(registry.resolve("missing"), None);
}

#[test]
fn registering_again_replaces_the_address() {
    let mut registry = SymbolRegistry::new();
    registry.register("malloc", 0x1000);
    registry.register("malloc", 0x3000);
    assert_eq!(registry.resolve("malloc"), Some(0x3000));
    assert_eq!(registry.count(), 1);
}

#[test]
fn test_register_bionic_shims() {
    let mut registry = SymbolRegistry::new();
    register_bionic_shims(&mut registry, &test_shims());

    assert!(registry.resolve("malloc").is_some());
    assert!(registry.resolve("free").is_some());
    assert!(registry.resolve("sin").is_some());
    assert!(registry.resolve("dlopen").is_some());
    assert!(registry.resolve("__android_log_print").is_some());
    assert!(registry.count() >= 25);
}

#[test]
fn every_bionic_shim_gets_its_own_address() {
    let mut registry = SymbolRegistry::new();
    register_bionic_shims(&mut registry, &test_shims());
    let names = bionic_shim_names();
    assert_eq!(registry.count(), names.len());
    let mut addresses: Vec<usize> = names.iter().map(|n| registry.resolve(n).unwrap()).collect();
    addresses.sort();
    addresses.dedup();
    assert_eq!(addresses.len(), names.len());
}

#[test]
fn synthetic_library_loads_and_exports_its_symbol() {
    let so = generate_synthetic_arm64_so("libdemo.so", "demo_entry");
    let mut registry = SymbolRegistry::new();
    assert!(ElfLoader::load_from_memory("libdemo.so", &so, &mut registry).is_err());
    register_bionic_shims(&mut registry, &test_shims());
    let lib = ElfLoader::load_from_memory("libdemo.so", &so, &mut registry).unwrap();
    assert_eq!(lib.name, "libdemo.so");
    assert!(lib.lookup_symbol("demo_entry").is_some());
    assert_eq!(registry.resolve("demo_entry"), lib.lookup_symbol("demo_entry"));
    assert!(lib.lookup_symbol("absent").is_none());
}

#[test]
fn garbage_is_not_loaded() {
    let mut registry = SymbolRegistry::new();
    assert!(ElfLoader::load_from_memory("x.so", &[0u8; 16], &mut registry).is_err());
}

/// Distinct addresses standing in for the host's Bionic shim functions.
fn test_shims() -> Vec<usize> {
    (0..51usize).map(|i| 0x7f00_0000 + 16 * i).collect()
}

#[test]
fn parsed_synthetic_library_has_its_shape() {
    let so = generate_synthetic_arm64_so("libshape.so", "shape_entry");
    let p = lar::linker::elf::ParsedElf::parse(&so).unwrap();
    assert_eq!(p.phdrs.len(), p.ehdr.e_phnum as usize);
    assert_eq!(p.load_segments.len(), p.phdrs.iter().filter(|h| h.p_type == lar::linker::elf::PT_LOAD).count());
    assert!(p.vaddr_min <= p.vaddr_max);
    assert_eq!(p.total_memsz, p.vaddr_max - p.vaddr_min);
    assert!(p.dynamic_entries.iter().all(|d| d.d_tag != 0));
}
