use lar::memory::mmap::{MemoryError, MemoryRegion, ProtFlags, VirtualMemoryManager, GUEST_MAP_BASE};
use lar::memory::page::{
    align_down, align_down_16k, align_up, align_up_16k, is_16k_aligned, is_aligned, page_count_16k,
    page_offset_16k, PAGE_SIZE_4K,
};

#[test]
fn test_16k_alignment() {
    assert!(is_16k_aligned(0));
    assert!(is_16k_aligned(0x4000));
    assert!(is_16k_aligned(0x8000));
    assert!(is_16k_aligned(0x100000));

    assert!(!is_16k_aligned(1));
    assert!(!is_16k_aligned(0x1000));
    assert!(!is_16k_aligned(0x3FFF));
    assert!(!is_16k_aligned(0x4001));
}

#[test]
fn test_align_up_and_down_16k() {
    assert_eq!(align_up_16k(0), 0);
    assert_eq!(align_up_16k(1), 0x4000);
    assert_eq!(align_up_16k(0x1000), 0x4000);
    assert_eq!(align_up_16k(0x4000), 0x4000);
    assert_eq!(align_up_16k(0x4001), 0x8000);

    assert_eq!(align_down_16k(0), 0);
    assert_eq!(align_down_16k(1), 0);
    assert_eq!(align_down_16k(0x3FFF), 0);
    assert_eq!(align_down_16k(0x4000), 0x4000);
    assert_eq!(align_down_16k(0x7FFF), 0x4000);
    assert_eq!(align_down_16k(0x8000), 0x8000);
}

#[test]
fn test_page_offset_and_count() {
    assert_eq!(page_offset_16k(0), 0);
    assert_eq!(page_offset_16k(0x1234), 0x1234);
    assert_eq!(page_offset_16k(0x4100), 0x100);

    assert_eq!(page_count_16k(0, 0), 0);
    assert_eq!(page_count_16k(0, 1), 1);
    assert_eq!(page_count_16k(0, 0x4000), 1);
    assert_eq!(page_count_16k(0, 0x4001), 2);
    assert_eq!(page_count_16k(0x3000, 0x2000), 2);
}

#[test]
fn test_mmap_16k_allocation() {
    let mut region = MemoryRegion::allocate_16k(0x1000, ProtFlags::read_write()).unwrap();
    assert!(is_16k_aligned(region.as_ptr()));
    assert!(region.len() >= 0x4000);

    let data = [1u8, 2, 3, 4, 5];
    region.write_at(0, &data).unwrap();
    let read_back = region.read_at(0, 5).unwrap();
    assert_eq!(read_back, data);
}

#[test]
fn test_mprotect_transition() {
    let mut region = MemoryRegion::allocate_16k(0x4000, ProtFlags::read_write()).unwrap();
    region.write_at(10, &[0xAA, 0xBB]).unwrap();

    region.protect(ProtFlags::read()).unwrap();
    let read_back = region.read_at(10, 2).unwrap();
    assert_eq!(read_back, &[0xAA, 0xBB]);

    assert!(region.write_at(10, &[0x00]).is_err());
}

#[test]
fn test_virtual_memory_manager() {
    let mut vmm = VirtualMemoryManager::new();
    let ptr1 = vmm.allocate(0x2000, ProtFlags::read_write()).unwrap();
    let ptr2 = vmm.allocate(0x5000, ProtFlags::read_exec()).unwrap();

    assert!(is_16k_aligned(ptr1));
    assert!(is_16k_aligned(ptr2));
    assert_eq!(vmm.region_count(), 2);
    assert!(vmm.total_mapped_bytes() >= 0x4000 + 0x8000);
}

#[test]
fn virtual_memory_manager_places_regions_back_to_back() {
    let mut vmm = VirtualMemoryManager::new();
    let first = vmm.allocate(0x2000, ProtFlags::read_write()).unwrap();
    let second = vmm.allocate(0x5000, ProtFlags::read_exec()).unwrap();
    assert_eq!(first, GUEST_MAP_BASE);
    assert_eq!(second, GUEST_MAP_BASE + 0x4000);
    assert_eq!(vmm.total_mapped_bytes(), 0xC000);
}

#[test]
fn zero_sized_allocation_is_rejected() {
    let err = MemoryRegion::allocate_16k(0, ProtFlags::read_write()).unwrap_err();
    assert!(matches!(err, MemoryError::AllocationFailed { size: 0, .. }));
    let mut vmm = VirtualMemoryManager::new();
    assert!(vmm.allocate(0, ProtFlags::read()).is_err());
    assert_eq!(vmm.region_count(), 0);
}

#[test]
fn fresh_region_is_zero_filled_and_bounds_checked() {
    let region = MemoryRegion::allocate_16k(1, ProtFlags::read_write()).unwrap();
    assert_eq!(region.len(), 0x4000);
    assert_eq!(region.read_at(0x3ffe, 2).unwrap(), vec![0u8, 0]);
    assert!(region.read_at(0x3fff, 2).is_err());
}

#[test]
fn unreadable_region_refuses_reads() {
    let mut region = MemoryRegion::allocate_16k(0x4000, ProtFlags::read_write()).unwrap();
    region.protect(ProtFlags::none()).unwrap();
    assert!(region.as_slice().is_err());
    assert!(region.read_at(0, 1).is_err());
}

#[test]
fn prot_flags_combine_and_query() {
    let rw = ProtFlags::read().union(ProtFlags::write());
    assert_eq!(rw, ProtFlags::read_write());
    assert!(rw.contains(ProtFlags::read()));
    assert!(!rw.contains(ProtFlags::exec()));
    assert!(rw.can_read() && rw.can_write() && !rw.can_exec());
}

#[test]
fn generic_alignment_helpers() {
    assert!(is_aligned(0x2000, PAGE_SIZE_4K));
    assert!(!is_aligned(0x2001, PAGE_SIZE_4K));
    assert_eq!(align_up(0x1001, 0x1000), 0x2000);
    assert_eq!(align_down(0x1fff, 0x1000), 0x1000);
}

#[test]
fn disjoint_writes_keep_what_was_written() {
    let mut region = MemoryRegion::allocate_16k(0x4000, ProtFlags::read_write()).unwrap();
    region.write_at(100, &[1, 2, 3, 4]).unwrap();
    region.write_at(104, &[9, 9]).unwrap();
    region.write_at(90, &[7; 10]).unwrap();
    assert_eq!(region.read_at(100, 4).unwrap(), vec![1, 2, 3, 4]);
    assert!(matches!(
        region.read_at(0x3fff, 2),
        Err(MemoryError::OutOfBounds { offset: 0x3fff, len: 2, total: 0x4000 })
    ));
}
