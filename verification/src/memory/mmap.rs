//! Virtual memory regions with 16 KiB alignment.
//!
//! A region is modelled as a 16 KiB-aligned guest address range together with its byte
//! contents and its protection. Regions are allocated zero-filled, page aligned and page
//! sized; reads and writes are bounds-checked and honour the protection flags.
use vstd::prelude::*;

use crate::memory::page::{PAGE_SIZE_16K, round_up_16k, align_up_16k};

verus! {

/// `PROT_NONE`.
pub const PROT_NONE: i32 = 0;
/// `PROT_READ`.
pub const PROT_READ: i32 = 1;
/// `PROT_WRITE`.
pub const PROT_WRITE: i32 = 2;
/// `PROT_EXEC`.
pub const PROT_EXEC: i32 = 4;
/// `EINVAL`.
pub const EINVAL: i32 = 22;
/// `ENOMEM`.
pub const ENOMEM: i32 = 12;
/// `EACCES`.
pub const EACCES: i32 = 13;

/// First guest address handed out for anonymous regions.
pub const GUEST_MAP_BASE: usize = 0x1000_0000;
/// Largest region, in bytes, that the address space model backs.
pub const MAX_REGION_BYTES: usize = 0x1000_0000;
/// End of the guest address space that regions are placed in.
pub const GUEST_MAP_LIMIT: usize = 0xf000_0000;

/// Protection flags for memory regions.
#[derive(Debug, Clone, Copy, PartialEq, Eq)]
pub struct ProtFlags(pub i32);

impl ProtFlags {
    /// The `NONE` protection.
    pub fn none() -> (r: ProtFlags)
        ensures
            r.0 == 0,
            r.0 & PROT_READ == 0,
            r.0 & PROT_WRITE == 0,
            r.0 & PROT_EXEC == 0,
    {
        proof {
            lemma_prot_constants();
        }
        ProtFlags(0)
    }

    /// The `READ` protection.
    pub fn read() -> (r: ProtFlags)
        ensures
            r.0 == 1,
            r.0 & PROT_READ != 0,
            r.0 & PROT_WRITE == 0,
            r.0 & PROT_EXEC == 0,
    {
        proof {
            lemma_prot_constants();
        }
        ProtFlags(1)
    }

    /// The `WRITE` protection.
    pub fn write() -> (r: ProtFlags)
        ensures
            r.0 == 2,
            r.0 & PROT_READ == 0,
            r.0 & PROT_WRITE != 0,
            r.0 & PROT_EXEC == 0,
    {
        proof {
            lemma_prot_constants();
        }
        ProtFlags(2)
    }

    /// The `EXEC` protection.
    pub fn exec() -> (r: ProtFlags)
        ensures
            r.0 == 4,
            r.0 & PROT_READ == 0,
            r.0 & PROT_WRITE == 0,
            r.0 & PROT_EXEC != 0,
    {
        proof {
            lemma_prot_constants();
        }
        ProtFlags(4)
    }

    /// The `READ_WRITE` protection.
    pub fn read_write() -> (r: ProtFlags)
        ensures
            r.0 == 3,
            r.0 & PROT_READ != 0,
            r.0 & PROT_WRITE != 0,
            r.0 & PROT_EXEC == 0,
    {
        proof {
            lemma_prot_constants();
        }
        ProtFlags(3)
    }

    /// The `READ_EXEC` protection.
    pub fn read_exec() -> (r: ProtFlags)
        ensures
            r.0 == 5,
            r.0 & PROT_READ != 0,
            r.0 & PROT_WRITE == 0,
            r.0 & PROT_EXEC != 0,
    {
        proof {
            lemma_prot_constants();
        }
        ProtFlags(5)
    }

    /// The `READ_WRITE_EXEC` protection.
    pub fn read_write_exec() -> (r: ProtFlags)
        ensures
            r.0 == 7,
            r.0 & PROT_READ != 0,
            r.0 & PROT_WRITE != 0,
            r.0 & PROT_EXEC != 0,
    {
        proof {
            lemma_prot_constants();
        }
        ProtFlags(7)
    }

    /// True when every bit of `other` is set in `self`.
    pub fn contains(&self, other: ProtFlags) -> (r: bool)
        ensures
            r == ((self.0 & other.0) == other.0),
    {
        (self.0 & other.0) == other.0
    }

    /// The flags set in either operand.
    pub fn union(&self, other: ProtFlags) -> (r: ProtFlags)
        ensures
            r.0 == (self.0 | other.0),
    {
        ProtFlags(self.0 | other.0)
    }

    pub fn can_read(&self) -> (r: bool)
        ensures
            r == ((self.0 & PROT_READ) != 0),
    {
        (self.0 & PROT_READ) != 0
    }

    pub fn can_write(&self) -> (r: bool)
        ensures
            r == ((self.0 & PROT_WRITE) != 0),
    {
        (self.0 & PROT_WRITE) != 0
    }

    pub fn can_exec(&self) -> (r: bool)
        ensures
            r == ((self.0 & PROT_EXEC) != 0),
    {
        (self.0 & PROT_EXEC) != 0
    }
}

/// Which access bits each protection value between 0 and 7 holds.
pub proof fn lemma_prot_constants()
    by (bit_vector)
    ensures
        0i32 & 1i32 == 0, 0i32 & 2i32 == 0, 0i32 & 4i32 == 0,
        1i32 & 1i32 != 0, 1i32 & 2i32 == 0, 1i32 & 4i32 == 0,
        2i32 & 1i32 == 0, 2i32 & 2i32 != 0, 2i32 & 4i32 == 0,
        3i32 & 1i32 != 0, 3i32 & 2i32 != 0, 3i32 & 4i32 == 0,
        4i32 & 1i32 == 0, 4i32 & 2i32 == 0, 4i32 & 4i32 != 0,
        5i32 & 1i32 != 0, 5i32 & 2i32 == 0, 5i32 & 4i32 != 0,
        7i32 & 1i32 != 0, 7i32 & 2i32 != 0, 7i32 & 4i32 != 0,
{
}

/// Errors related to virtual memory operations.
#[derive(Debug, Clone, PartialEq, Eq)]
pub enum MemoryError {
    AllocationFailed { size: usize, errno: i32 },
    ProtectionFailed { addr: usize, size: usize, errno: i32 },
    OutOfBounds { offset: usize, len: usize, total: usize },
    InvalidAlignment { addr: usize, expected_align: usize },
    DeallocationFailed { addr: usize, size: usize, errno: i32 },
}

/// A 16 KiB-aligned virtual memory region with its contents.
#[derive(Debug)]
pub struct MemoryRegion {
    base: usize,
    len: usize,
    prot: ProtFlags,
    bytes: Vec<u8>,
}

/// Outcome of allocating `size` bytes, before an address is chosen: the page-rounded length,
/// or the error the allocation reports.
pub open spec fn spec_allocation(size: int) -> Result<int, MemoryError> {
    if size == 0 {
        Err(MemoryError::AllocationFailed { size: 0, errno: EINVAL })
    } else if size + 0x3fff > usize::MAX {
        Err(MemoryError::AllocationFailed { size: size as usize, errno: ENOMEM })
    } else if round_up_16k(size) + 0x4000 > usize::MAX {
        Err(MemoryError::AllocationFailed { size: round_up_16k(size) as usize, errno: ENOMEM })
    } else if round_up_16k(size) > MAX_REGION_BYTES {
        Err(MemoryError::AllocationFailed { size: (round_up_16k(size) + 0x4000) as usize, errno: ENOMEM })
    } else {
        Ok(round_up_16k(size))
    }
}

impl MemoryRegion {
    pub closed spec fn spec_base(&self) -> usize {
        self.base
    }

    pub closed spec fn spec_len(&self) -> usize {
        self.len
    }

    pub closed spec fn spec_prot(&self) -> ProtFlags {
        self.prot
    }

    /// The region's contents.
    pub closed spec fn contents(&self) -> Seq<u8> {
        self.bytes@
    }

    pub closed spec fn inv(&self) -> bool {
        &&& self.bytes@.len() == self.len
        &&& self.len % 0x4000 == 0
        &&& 0x4000 <= self.len <= MAX_REGION_BYTES
        &&& self.base % 0x4000 == 0
        &&& GUEST_MAP_BASE <= self.base
        &&& self.base + self.len <= GUEST_MAP_LIMIT
    }

    /// A well-formed region holds exactly its length in bytes, a whole number of 16 KiB
    /// pages inside the guest mapping range.
    pub proof fn lemma_inv(&self)
        requires
            self.inv(),
        ensures
            self.contents().len() == self.spec_len(),
            self.spec_len() % 0x4000 == 0,
            0x4000 <= self.spec_len() <= MAX_REGION_BYTES,
            self.spec_base() % 0x4000 == 0,
            GUEST_MAP_BASE <= self.spec_base(),
            self.spec_base() + self.spec_len() <= GUEST_MAP_LIMIT,
    {
    }

    /// A zero-filled region of `len` bytes at guest address `base`.
    pub(crate) fn allocate_at(base: usize, len: usize, prot: ProtFlags) -> (r: MemoryRegion)
        requires
            len % 0x4000 == 0,
            0x4000 <= len <= MAX_REGION_BYTES,
            base % 0x4000 == 0,
            GUEST_MAP_BASE <= base,
            base + len <= GUEST_MAP_LIMIT,
        ensures
            r.inv(),
            r.spec_base() == base,
            r.spec_len() == len,
            r.spec_prot() == prot,
            r.contents() == Seq::new(len as nat, |i: int| 0u8),
    {
        let bytes: Vec<u8> = vec![0u8; len];
        assert(bytes@ == Seq::new(len as nat, |i: int| 0u8));
        MemoryRegion { base, len, prot, bytes }
    }

    /// Allocates a zero-filled region of at least `size` bytes, rounded up to whole 16 KiB
    /// pages, at the first guest mapping address.
    pub fn allocate_16k(size: usize, prot: ProtFlags) -> (r: Result<MemoryRegion, MemoryError>)
        ensures
            spec_allocation(size as int) is Err ==> r == Err::<MemoryRegion, MemoryError>(
                spec_allocation(size as int)->Err_0,
            ),
            spec_allocation(size as int) is Ok ==> r is Ok,
            r matches Ok(region) ==> {
                &&& region.inv()
                &&& region.spec_base() == GUEST_MAP_BASE
                &&& region.spec_len() == spec_allocation(size as int)->Ok_0
                &&& region.spec_prot() == prot
                &&& region.contents() == Seq::new(region.spec_len() as nat, |i: int| 0u8)
            },
    {
        let len = match Self::rounded_length(size) {
            Ok(len) => len,
            Err(e) => return Err(e),
        };
        Ok(Self::allocate_at(GUEST_MAP_BASE, len, prot))
    }

    /// The page-rounded length of an allocation of `size` bytes, or its error.
    pub(crate) fn rounded_length(size: usize) -> (r: Result<usize, MemoryError>)
        ensures
            spec_allocation(size as int) is Err ==> r == Err::<usize, MemoryError>(
                spec_allocation(size as int)->Err_0,
            ),
            spec_allocation(size as int) is Ok ==> r == Ok::<usize, MemoryError>(
                spec_allocation(size as int)->Ok_0 as usize,
            ),
    {
        if size == 0 {
            return Err(MemoryError::AllocationFailed { size: 0, errno: EINVAL });
        }
        if size > usize::MAX - 0x3fff {
            return Err(MemoryError::AllocationFailed { size, errno: ENOMEM });
        }
        let aligned = align_up_16k(size);
        if aligned > usize::MAX - PAGE_SIZE_16K {
            return Err(MemoryError::AllocationFailed { size: aligned, errno: ENOMEM });
        }
        if aligned > MAX_REGION_BYTES {
            return Err(MemoryError::AllocationFailed { size: aligned + PAGE_SIZE_16K, errno: ENOMEM });
        }
        Ok(aligned)
    }

    /// Reserves an address range without access rights.
    pub fn reserve_address_space(size: usize) -> (r: Result<MemoryRegion, MemoryError>)
        ensures
            spec_allocation(size as int) is Err ==> r == Err::<MemoryRegion, MemoryError>(
                spec_allocation(size as int)->Err_0,
            ),
            spec_allocation(size as int) is Ok ==> r is Ok,
            r matches Ok(region) ==> {
                &&& region.inv()
                &&& region.spec_base() == GUEST_MAP_BASE
                &&& region.spec_len() == spec_allocation(size as int)->Ok_0
                &&& region.spec_prot() == ProtFlags(0)
            },
    {
        Self::allocate_16k(size, ProtFlags::none())
    }

    /// Changes the protection flags of the whole region.
    pub fn protect(&mut self, new_prot: ProtFlags) -> (r: Result<(), MemoryError>)
        ensures
            r is Ok,
            final(self).spec_prot() == new_prot,
            final(self).spec_base() == old(self).spec_base(),
            final(self).spec_len() == old(self).spec_len(),
            final(self).contents() == old(self).contents(),
            final(self).inv() == old(self).inv(),
    {
        self.prot = new_prot;
        Ok(())
    }

    /// The guest address of the first byte.
    pub fn as_ptr(&self) -> (r: usize)
        ensures
            r == self.spec_base(),
    {
        self.base
    }

    /// The guest address of the first byte, for writing.
    pub fn as_mut_ptr(&mut self) -> (r: usize)
        ensures
            r == old(self).spec_base(),
            *final(self) == *old(self),
    {
        self.base
    }

    /// The length in bytes (a multiple of 16 KiB).
    pub fn len(&self) -> (r: usize)
        ensures
            r == self.spec_len(),
    {
        self.len
    }

    pub fn is_empty(&self) -> (r: bool)
        ensures
            r == (self.spec_len() == 0),
    {
        self.len == 0
    }

    pub fn prot(&self) -> (r: ProtFlags)
        ensures
            r == self.spec_prot(),
    {
        self.prot
    }

    /// The contents, when the region is readable.
    pub fn as_slice(&self) -> (r: Result<&[u8], MemoryError>)
        requires
            self.inv(),
        ensures
            (self.spec_prot().0 & PROT_READ) != 0 ==> (r matches Ok(s) && s@ == self.contents()),
            (self.spec_prot().0 & PROT_READ) == 0 ==> r == Err::<&[u8], MemoryError>(
                MemoryError::ProtectionFailed { addr: self.spec_base(), size: self.spec_len(), errno: EACCES },
            ),
    {
        if !self.prot.can_read() {
            return Err(MemoryError::ProtectionFailed { addr: self.base, size: self.len, errno: EACCES });
        }
        Ok(self.bytes.as_slice())
    }

    /// Copies `data` into the region at `offset`.
    pub fn write_at(&mut self, offset: usize, data: &[u8]) -> (r: Result<(), MemoryError>)
        requires
            old(self).inv(),
        ensures
            final(self).inv(),
            final(self).spec_base() == old(self).spec_base(),
            final(self).spec_len() == old(self).spec_len(),
            final(self).spec_prot() == old(self).spec_prot(),
            offset + data@.len() > old(self).spec_len() ==> r == Err::<(), MemoryError>(
                MemoryError::OutOfBounds { offset, len: data@.len() as usize, total: old(self).spec_len() },
            ),
            offset + data@.len() <= old(self).spec_len() && (old(self).spec_prot().0 & PROT_WRITE) == 0
                ==> r == Err::<(), MemoryError>(MemoryError::ProtectionFailed {
                    addr: old(self).spec_base(), size: old(self).spec_len(), errno: EACCES,
                }),
            r is Ok <==> (offset + data@.len() <= old(self).spec_len() && (old(self).spec_prot().0 & PROT_WRITE) != 0),
            r is Ok ==> final(self).contents() == old(self).contents().subrange(0, offset as int)
                + data@ + old(self).contents().subrange(offset + data@.len(), old(self).spec_len() as int),
            r is Ok ==> final(self).contents() == written(old(self).contents(), offset as int, data@),
            r is Err ==> final(self).contents() == old(self).contents(),
    {
        if offset > self.len || data.len() > self.len - offset {
            return Err(MemoryError::OutOfBounds { offset, len: data.len(), total: self.len });
        }
        if !self.prot.can_write() {
            return Err(MemoryError::ProtectionFailed { addr: self.base, size: self.len, errno: EACCES });
        }
        self.store(offset, data);
        Ok(())
    }

    /// Stores `data` at `offset` regardless of protection (the loader's own view of memory).
    pub(crate) fn store(&mut self, offset: usize, data: &[u8])
        requires
            old(self).inv(),
            offset + data@.len() <= old(self).spec_len(),
        ensures
            final(self).inv(),
            final(self).spec_base() == old(self).spec_base(),
            final(self).spec_len() == old(self).spec_len(),
            final(self).spec_prot() == old(self).spec_prot(),
            final(self).contents() == old(self).contents().subrange(0, offset as int)
                + data@ + old(self).contents().subrange(offset + data@.len(), old(self).spec_len() as int),
    {
        let n = data.len();
        let ghost before = self.bytes@;
        let mut i: usize = 0;
        while i < n
            invariant
                0 <= i <= n,
                n == data@.len(),
                offset + n <= self.len,
                self.bytes@.len() == before.len(),
                self.len == before.len(),
                self.base == old(self).base,
                self.prot == old(self).prot,
                self.len == old(self).len,
                before == old(self).bytes@,
                old(self).inv(),
                forall|j: int| 0 <= j < offset ==> self.bytes@[j] == before[j],
                forall|j: int| offset <= j < offset + i ==> self.bytes@[j] == data@[j - offset],
                forall|j: int| offset + i <= j < before.len() ==> self.bytes@[j] == before[j],
            decreases n - i,
        {
            self.bytes.set(offset + i, data[i]);
            i = i + 1;
        }
        assert(self.bytes@ =~= before.subrange(0, offset as int) + data@ + before.subrange(offset + n, before.len() as int));
    }

    /// Reads `len` bytes at `offset`.
    pub fn read_at(&self, offset: usize, len: usize) -> (r: Result<Vec<u8>, MemoryError>)
        requires
            self.inv(),
        ensures
            offset + len > self.spec_len() ==> r == Err::<Vec<u8>, MemoryError>(
                MemoryError::OutOfBounds { offset, len, total: self.spec_len() },
            ),
            offset + len <= self.spec_len() && (self.spec_prot().0 & PROT_READ) == 0
                ==> r == Err::<Vec<u8>, MemoryError>(MemoryError::ProtectionFailed {
                    addr: self.spec_base(), size: self.spec_len(), errno: EACCES,
                }),
            offset + len <= self.spec_len() && (self.spec_prot().0 & PROT_READ) != 0
                ==> (r matches Ok(v) && v@ == self.contents().subrange(offset as int, offset + len)),
    {
        if offset > self.len || len > self.len - offset {
            return Err(MemoryError::OutOfBounds { offset, len, total: self.len });
        }
        if !self.prot.can_read() {
            return Err(MemoryError::ProtectionFailed { addr: self.base, size: self.len, errno: EACCES });
        }
        Ok(self.load(offset, len))
    }

    /// Loads `len` bytes at `offset` regardless of protection.
    pub(crate) fn load(&self, offset: usize, len: usize) -> (r: Vec<u8>)
        requires
            self.inv(),
            offset + len <= self.spec_len(),
        ensures
            r@ == self.contents().subrange(offset as int, offset + len),
    {
        let mut out: Vec<u8> = Vec::with_capacity(len);
        let mut i: usize = 0;
        while i < len
            invariant
                0 <= i <= len,
                offset + len <= self.len,
                self.bytes@.len() == self.len,
                out@ == self.bytes@.subrange(offset as int, offset + i),
            decreases len - i,
        {
            out.push(self.bytes[offset + i]);
            i = i + 1;
            assert(out@ =~= self.bytes@.subrange(offset as int, offset + i));
        }
        out
    }
}

/// High-level virtual memory manager placing 16 KiB-aligned regions at increasing addresses.
#[derive(Debug)]
pub struct VirtualMemoryManager {
    allocated_regions: Vec<MemoryRegion>,
    next_base: usize,
}

impl VirtualMemoryManager {
    /// Every tracked region is well formed and lies below the next free address, which is
    /// itself page aligned.
    pub closed spec fn inv(&self) -> bool {
        &&& self.next_base % 0x4000 == 0
        &&& GUEST_MAP_BASE <= self.next_base <= GUEST_MAP_LIMIT
        &&& forall|i: int| 0 <= i < self.allocated_regions@.len() ==> {
            &&& (#[trigger] self.allocated_regions@[i]).inv()
            &&& self.allocated_regions@[i].spec_base() + self.allocated_regions@[i].spec_len() <= self.next_base
        }
        &&& forall|i: int, j: int| 0 <= i < j < self.allocated_regions@.len() ==>
            #[trigger] self.allocated_regions@[i].spec_base() + self.allocated_regions@[i].spec_len()
                <= #[trigger] self.allocated_regions@[j].spec_base()
    }

    /// The (base, length) of each tracked region, in allocation order.
    pub closed spec fn ranges(&self) -> Seq<(usize, usize)> {
        self.allocated_regions@.map_values(|r: MemoryRegion| (r.spec_base(), r.spec_len()))
    }

    pub closed spec fn spec_next_base(&self) -> usize {
        self.next_base
    }

    pub fn new() -> (r: VirtualMemoryManager)
        ensures
            r.inv(),
            r.ranges() == Seq::<(usize, usize)>::empty(),
            r.spec_next_base() == GUEST_MAP_BASE,
    {
        let r = VirtualMemoryManager { allocated_regions: Vec::new(), next_base: GUEST_MAP_BASE };
        assert(r.ranges() =~= Seq::<(usize, usize)>::empty());
        r
    }

    /// Allocates and tracks a 16 KiB-aligned region, returning its guest address.
    pub fn allocate(&mut self, size: usize, prot: ProtFlags) -> (r: Result<usize, MemoryError>)
        requires
            old(self).inv(),
        ensures
            final(self).inv(),
            spec_allocation(size as int) is Err ==> r == Err::<usize, MemoryError>(
                spec_allocation(size as int)->Err_0,
            ) && final(self).ranges() == old(self).ranges(),
            spec_allocation(size as int) is Ok && old(self).spec_next_base() + spec_allocation(size as int)->Ok_0
                <= GUEST_MAP_LIMIT ==> r == Ok::<usize, MemoryError>(old(self).spec_next_base())
                && final(self).ranges() == old(self).ranges().push(
                    (old(self).spec_next_base(), spec_allocation(size as int)->Ok_0 as usize),
                ),
            spec_allocation(size as int) is Ok && old(self).spec_next_base() + spec_allocation(size as int)->Ok_0
                > GUEST_MAP_LIMIT ==> r == Err::<usize, MemoryError>(MemoryError::AllocationFailed {
                    size: (spec_allocation(size as int)->Ok_0 + 0x4000) as usize,
                    errno: ENOMEM,
                }) && final(self).ranges() == old(self).ranges(),
            r matches Ok(addr) ==> addr % 0x4000 == 0,
    {
        let len = match MemoryRegion::rounded_length(size) {
            Ok(len) => len,
            Err(e) => return Err(e),
        };
        if len > GUEST_MAP_LIMIT - self.next_base {
            return Err(MemoryError::AllocationFailed { size: len + PAGE_SIZE_16K, errno: ENOMEM });
        }
        let base = self.next_base;
        let region = MemoryRegion::allocate_at(base, len, prot);
        self.next_base = base + len;
        let addr = region.as_ptr();
        let ghost old_regions = self.allocated_regions@;
        self.allocated_regions.push(region);
        proof {
            assert forall|i: int| 0 <= i < self.allocated_regions@.len() implies {
                &&& (#[trigger] self.allocated_regions@[i]).inv()
                &&& self.allocated_regions@[i].spec_base() + self.allocated_regions@[i].spec_len() <= self.next_base
            } by {
                if i < old_regions.len() {
                    assert(self.allocated_regions@[i] == old_regions[i]);
                }
            }
            assert forall|i: int, j: int| 0 <= i < j < self.allocated_regions@.len() implies
                #[trigger] self.allocated_regions@[i].spec_base() + self.allocated_regions@[i].spec_len()
                    <= #[trigger] self.allocated_regions@[j].spec_base() by {
                assert(self.allocated_regions@[i] == old_regions[i]);
                if j < old_regions.len() {
                    assert(self.allocated_regions@[j] == old_regions[j]);
                }
            }
            assert(self.ranges() =~= old_regions.map_values(|r: MemoryRegion| (r.spec_base(), r.spec_len())).push(
                (addr, region.spec_len())));
        }
        Ok(addr)
    }

    /// Allocates a region at the next free address without tracking it.
    pub fn allocate_region(&mut self, size: usize, prot: ProtFlags) -> (r: Result<MemoryRegion, MemoryError>)
        requires
            old(self).inv(),
        ensures
            final(self).inv(),
            final(self).ranges() == old(self).ranges(),
            spec_allocation(size as int) is Err ==> r == Err::<MemoryRegion, MemoryError>(
                spec_allocation(size as int)->Err_0,
            ) && final(self).spec_next_base() == old(self).spec_next_base(),
            spec_allocation(size as int) is Ok && old(self).spec_next_base() + spec_allocation(size as int)->Ok_0
                > GUEST_MAP_LIMIT ==> r == Err::<MemoryRegion, MemoryError>(MemoryError::AllocationFailed {
                    size: (spec_allocation(size as int)->Ok_0 + 0x4000) as usize,
                    errno: ENOMEM,
                }) && final(self).spec_next_base() == old(self).spec_next_base(),
            spec_allocation(size as int) is Ok && old(self).spec_next_base() + spec_allocation(size as int)->Ok_0
                <= GUEST_MAP_LIMIT ==> r is Ok,
            r matches Ok(region) ==> {
                &&& region.inv()
                &&& region.spec_base() == old(self).spec_next_base()
                &&& region.spec_len() == spec_allocation(size as int)->Ok_0
                &&& region.spec_prot() == prot
                &&& region.contents() == Seq::new(region.spec_len() as nat, |i: int| 0u8)
                &&& final(self).spec_next_base() == region.spec_base() + region.spec_len()
            },
    {
        let len = match MemoryRegion::rounded_length(size) {
            Ok(len) => len,
            Err(e) => return Err(e),
        };
        if len > GUEST_MAP_LIMIT - self.next_base {
            return Err(MemoryError::AllocationFailed { size: len + PAGE_SIZE_16K, errno: ENOMEM });
        }
        let base = self.next_base;
        let region = MemoryRegion::allocate_at(base, len, prot);
        self.next_base = base + len;
        Ok(region)
    }

    /// Total mapped bytes over all tracked regions.
    pub fn total_mapped_bytes(&self) -> (r: usize)
        requires
            self.inv(),
        ensures
            r == sum_lengths(self.ranges()),
    {
        let mut total: usize = 0;
        let mut i: usize = 0;
        let n = self.allocated_regions.len();
        while i < n
            invariant
                0 <= i <= n,
                n == self.allocated_regions@.len(),
                self.inv(),
                total == sum_lengths(self.ranges().subrange(0, i as int)),
                total <= self.next_base - GUEST_MAP_BASE,
            decreases n - i,
        {
            proof {
                lemma_sum_lengths_push(self.ranges().subrange(0, i as int), self.ranges()[i as int]);
                assert(self.ranges().subrange(0, i + 1) =~= self.ranges().subrange(0, i as int).push(self.ranges()[i as int]));
                lemma_sum_bounded(self, i as int);
            }
            total = total + self.allocated_regions[i].len();
            i = i + 1;
        }
        assert(self.ranges().subrange(0, n as int) =~= self.ranges());
        total
    }

    /// Number of tracked regions.
    pub fn region_count(&self) -> (r: usize)
        ensures
            r == self.ranges().len(),
    {
        self.allocated_regions.len()
    }
}

/// Sum of the lengths of a sequence of ranges.
pub open spec fn sum_lengths(s: Seq<(usize, usize)>) -> int
    decreases s.len(),
{
    if s.len() == 0 {
        0
    } else {
        sum_lengths(s.drop_last()) + s.last().1
    }
}

proof fn lemma_sum_lengths_push(s: Seq<(usize, usize)>, x: (usize, usize))
    ensures
        sum_lengths(s.push(x)) == sum_lengths(s) + x.1,
{
    assert(s.push(x).drop_last() =~= s);
}

proof fn lemma_sum_bounded(m: &VirtualMemoryManager, i: int)
    requires
        m.inv(),
        0 <= i < m.ranges().len(),
    ensures
        sum_lengths(m.ranges().subrange(0, i + 1)) <= m.ranges()[i].0 + m.ranges()[i].1 - GUEST_MAP_BASE,
    decreases i,
{
    let s = m.ranges().subrange(0, i + 1);
    assert(s.drop_last() =~= m.ranges().subrange(0, i));
    assert(s.last() == m.ranges()[i]);
    assert(m.ranges()[i] == (m.allocated_regions@[i].spec_base(), m.allocated_regions@[i].spec_len()));
    if i > 0 {
        assert(m.ranges()[i - 1] == (m.allocated_regions@[i - 1].spec_base(), m.allocated_regions@[i - 1].spec_len()));
    }
    assert(m.allocated_regions@[i].inv());
    assert(sum_lengths(s) == sum_lengths(m.ranges().subrange(0, i)) + m.ranges()[i].1);
    assert(m.allocated_regions@[i].spec_base() >= GUEST_MAP_BASE);
    if i > 0 {
        lemma_sum_bounded(m, i - 1);
        assert(m.allocated_regions@[i - 1].spec_base() + m.allocated_regions@[i - 1].spec_len()
            <= m.allocated_regions@[i].spec_base());
    } else {
        assert(sum_lengths(m.ranges().subrange(0, 0)) == 0);
    }
}

/// The bytes `c` after `write_at(offset, data)` succeeds on them.
pub open spec fn written(c: Seq<u8>, offset: int, data: Seq<u8>) -> Seq<u8> {
    c.subrange(0, offset) + data + c.subrange(offset + data.len(), c.len() as int)
}

/// Reading back a write: the bytes a successful `write_at` wrote are there to read.
pub proof fn lemma_read_back_write(c: Seq<u8>, offset: int, data: Seq<u8>)
    requires
        0 <= offset,
        offset + data.len() <= c.len(),
    ensures
        written(c, offset, data).len() == c.len(),
        written(c, offset, data).subrange(offset, offset + data.len()) == data,
{
    assert(written(c, offset, data).subrange(offset, offset + data.len()) =~= data);
}

/// A write elsewhere leaves a range's bytes as they were: a write that does not overlap
/// `[offset, offset + len)` keeps what a read there returns.
pub proof fn lemma_disjoint_write_keeps(c: Seq<u8>, offset: int, len: int, at: int, data: Seq<u8>)
    requires
        0 <= offset,
        0 <= len,
        offset + len <= c.len(),
        0 <= at,
        at + data.len() <= c.len(),
        at + data.len() <= offset || offset + len <= at,
    ensures
        written(c, at, data).subrange(offset, offset + len) == c.subrange(offset, offset + len),
{
    assert(written(c, at, data).subrange(offset, offset + len) =~= c.subrange(offset, offset + len));
}

} // verus!
