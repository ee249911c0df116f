//! The ESP32-C3 below [`FlashHardware`](super::FlashHardware): which flash
//! regions are mapped to which virtual addresses, how the chip's routines are
//! called, and what their return codes mean.
//!
//! The routines live in the chip's ROM. Functions here take what a routine
//! returned, or the routine itself as a closure; the caller owns the unsafe
//! call.
//!
//! Reads are decrypted on their way through the cache, whose MMU maps pages of
//! flash to virtual addresses.

use super::FlashError;
use vstd::prelude::*;

verus! {

/// Bytes that are erased together.
pub const SECTOR_SIZE: u32 = 4096;

/// Bytes that are encrypted together.
pub const ENC_BLOCK_SIZE: u32 = 32;

/// Bytes that one MMU entry maps.
pub const MMU_PAGE_SIZE: u32 = 0x10000;

/// Virtual address that the first MMU entry maps to.
pub const DBUS_VBASE: u32 = 0x3C00_0000;

/// First MMU entry that is used unless another one is chosen. The bootloader
/// and the firmware use the entries up to about `0x14`.
pub const DEFAULT_MMU_ENTRY_BASE: u32 = 0x40;

/// Number of regions that can be mapped.
pub const MAX_MAPPINGS: usize = 4;

/// A mapped region.
#[derive(Clone, Copy, Debug)]
pub struct Mapping {
    pub flash_offset: u32,
    pub size: u32,
    /// Virtual address that the region begins at.
    pub vaddr_base: u32,
}

impl Mapping {
    /// Whether an address lies in the region.
    pub open spec fn holds(self, flash_offset: int) -> bool {
        self.flash_offset <= flash_offset < self.flash_offset + self.size
    }
}

/// What the routine that maps pages is asked for: `num_pages` pages of flash
/// from `flash_offset` on, at the virtual addresses from `vaddr` on.
#[derive(Clone, Copy, Debug, PartialEq, Eq, Structural)]
pub struct MmuRequest {
    pub vaddr: u32,
    pub flash_offset: u32,
    pub num_pages: u32,
}

/// Virtual addresses whose cache lines are stale.
#[derive(Clone, Copy, Debug, PartialEq, Eq, Structural)]
pub struct CacheRange {
    pub vaddr: u32,
    pub size: u32,
}

/// The number of pages that `size` bytes need.
pub open spec fn pages_for(size: int) -> int {
    (size + MMU_PAGE_SIZE - 1) / (MMU_PAGE_SIZE as int)
}

/// The virtual address of an MMU entry.
pub open spec fn entry_address(entry: int) -> int {
    DBUS_VBASE + entry * MMU_PAGE_SIZE
}

/// The address of a page around a virtual address.
pub fn page_of(vaddr: u32) -> (r: u32)
    ensures
        r == vaddr - vaddr % MMU_PAGE_SIZE,
{
    assert(vaddr & !((0x10000u32 - 1) as u32) == vaddr - vaddr % 0x10000u32) by (bit_vector);
    vaddr & !(MMU_PAGE_SIZE - 1)
}

/// The whole pages that the `len` virtual addresses from `vaddr` on touch.
pub fn pages_around(vaddr: u32, len: u32) -> (r: CacheRange)
    requires
        vaddr + len + MMU_PAGE_SIZE <= u32::MAX,
    ensures
        r.vaddr == vaddr - vaddr % MMU_PAGE_SIZE,
        r.vaddr + r.size == pages_for(vaddr + len) * MMU_PAGE_SIZE,
{
    let start: u32 = page_of(vaddr);
    let end: u32 = page_of(vaddr + len + MMU_PAGE_SIZE - 1);
    CacheRange { vaddr: start, size: end - start }
}

/// What the state of the chip's mappings is, and how many bytes it has.
pub struct Esp32C3 {
    capacity: usize,
    /// The MMU entry for the next region. A region takes as many entries as it
    /// has pages.
    next_mmu_entry: u32,
    mappings: Vec<Mapping>,
}

impl Esp32C3 {
    /// Number of bytes on the chip.
    pub closed spec fn size(&self) -> usize {
        self.capacity
    }

    /// The MMU entry for the next region.
    pub closed spec fn next_entry(&self) -> u32 {
        self.next_mmu_entry
    }

    /// The mapped regions, in the order in which they were mapped.
    pub closed spec fn regions(&self) -> Seq<Mapping> {
        self.mappings@
    }

    /// The regions lie in the address space, on flash and mapped.
    pub open spec fn well_formed(&self) -> bool {
        forall|i: int|
            0 <= i < self.regions().len() ==> {
                &&& (#[trigger] self.regions()[i]).flash_offset + self.regions()[i].size <= u32::MAX
                &&& self.regions()[i].vaddr_base + self.regions()[i].size <= 0x1_0000_0000
            }
    }

    /// The region is mapped already.
    pub open spec fn has_region(&self, flash_offset: u32, size: u32) -> bool {
        exists|i: int|
            0 <= i < self.regions().len() && (#[trigger] self.regions()[i]).flash_offset
                == flash_offset && self.regions()[i].size == size
    }

    /// Mapping the region takes new pages: it starts at a page, it is not
    /// mapped yet, and there is a place for it.
    pub open spec fn adds_region(&self, flash_offset: u32, size: u32) -> bool {
        &&& flash_offset % MMU_PAGE_SIZE == 0
        &&& !self.has_region(flash_offset, size)
        &&& self.regions().len() < MAX_MAPPINGS
    }

    /// The region lies in the address space of the flash, and its pages in that
    /// of the processor.
    pub open spec fn fits(&self, flash_offset: u32, size: u32) -> bool {
        &&& flash_offset + size <= u32::MAX
        &&& entry_address(self.next_entry() as int) <= u32::MAX
        &&& entry_address(self.next_entry() + pages_for(size as int)) <= 0x1_0000_0000
    }

    /// What the chip is asked for to map another region.
    pub open spec fn request_for(&self, flash_offset: u32, size: u32) -> MmuRequest {
        MmuRequest {
            vaddr: entry_address(self.next_entry() as int) as u32,
            flash_offset,
            num_pages: pages_for(size as int) as u32,
        }
    }

    /// The first of the regions that holds an address.
    pub open spec fn lookup(regions: Seq<Mapping>, flash_offset: int) -> Option<u32>
        decreases regions.len(),
    {
        if regions.len() == 0 {
            None
        } else if regions[0].holds(flash_offset) {
            Some((regions[0].vaddr_base + (flash_offset - regions[0].flash_offset)) as u32)
        } else {
            Self::lookup(regions.skip(1), flash_offset)
        }
    }

    /// A chip of this many bytes without mappings.
    pub fn with_capacity(capacity: usize) -> (r: Self)
        ensures
            r.well_formed(),
            r.size() == capacity,
            r.next_entry() == DEFAULT_MMU_ENTRY_BASE,
            r.regions() == Seq::<Mapping>::empty(),
    {
        Self { capacity, next_mmu_entry: DEFAULT_MMU_ENTRY_BASE, mappings: Vec::new() }
    }

    /// The same chip, with another MMU entry for the next region.
    pub fn with_mmu_entry_base(self, base: u32) -> (r: Self)
        ensures
            r.size() == self.size(),
            r.next_entry() == base,
            r.regions() == self.regions(),
    {
        Self { next_mmu_entry: base, ..self }
    }

    /// Total flash capacity in bytes.
    pub fn capacity(&self) -> (r: usize)
        ensures
            r == self.size(),
    {
        self.capacity
    }

    /// Virtual address that a flash address is mapped to.
    pub fn vaddr_for(&self, flash_offset: u32) -> (r: Option<u32>)
        requires
            self.well_formed(),
        ensures
            r == Self::lookup(self.regions(), flash_offset as int),
    {
        let mut i: usize = 0;
        proof {
            assert(self.regions().skip(0) =~= self.regions());
        }
        while i < self.mappings.len()
            invariant
                self.well_formed(),
                i <= self.mappings@.len(),
                Self::lookup(self.regions(), flash_offset as int) == Self::lookup(
                    self.regions().skip(i as int),
                    flash_offset as int,
                ),
            decreases self.mappings@.len() - i,
        {
            let m: Mapping = self.mappings[i];
            proof {
                assert(m == self.regions()[i as int]);
                assert(self.regions().skip(i as int)[0] == m);
                assert(self.regions().skip(i as int).skip(1) =~= self.regions().skip(i + 1));
            }
            if flash_offset >= m.flash_offset && flash_offset < m.flash_offset + m.size {
                return Some(m.vaddr_base + (flash_offset - m.flash_offset));
            }
            i += 1;
        }
        None
    }

    /// Whether an address lies in a mapped region.
    pub fn is_decrypt_mapped(&self, flash_offset: u32) -> (r: bool)
        requires
            self.well_formed(),
        ensures
            r == exists|i: int|
                0 <= i < self.regions().len() && (#[trigger] self.regions()[i]).holds(
                    flash_offset as int,
                ),
    {
        proof {
            lemma_lookup(self.regions(), flash_offset as int);
        }
        self.vaddr_for(flash_offset).is_some()
    }

    /// Whether the region is mapped already.
    fn is_region(&self, flash_offset: u32, size: u32) -> (r: bool)
        ensures
            r == self.has_region(flash_offset, size),
    {
        let mut i: usize = 0;
        while i < self.mappings.len()
            invariant
                i <= self.mappings@.len(),
                forall|j: int|
                    0 <= j < i ==> !((#[trigger] self.regions()[j]).flash_offset == flash_offset
                        && self.regions()[j].size == size),
            decreases self.mappings@.len() - i,
        {
            let m: Mapping = self.mappings[i];
            proof {
                assert(m == self.regions()[i as int]);
            }
            if m.flash_offset == flash_offset && m.size == size {
                return true;
            }
            i += 1;
        }
        false
    }

    /// Whether the region can be handed to `map_decrypt_region`: if it takes new
    /// pages, they lie in the address spaces.
    pub fn has_room_for(&self, flash_offset: u32, size: u32) -> (r: bool)
        ensures
            r == (self.adds_region(flash_offset, size) ==> self.fits(flash_offset, size)),
    {
        if flash_offset % MMU_PAGE_SIZE != 0 || self.is_region(flash_offset, size)
            || self.mappings.len() >= MAX_MAPPINGS {
            return true;
        }
        let page: u64 = MMU_PAGE_SIZE as u64;
        let pages: u64 = (size as u64 + page - 1) / page;
        let first: u64 = DBUS_VBASE as u64 + self.next_mmu_entry as u64 * page;
        let end: u64 = first + pages * page;
        flash_offset as u64 + size as u64 <= u32::MAX as u64 && first <= u32::MAX as u64 && end
            <= 0x1_0000_0000
    }

    /// Maps a region, unless it is mapped already. `set_mmu` calls the routine
    /// that maps pages and hands back its return code. The pages that were
    /// mapped, whose cache lines are stale, are returned.
    pub fn map_decrypt_region<F: FnOnce(MmuRequest) -> i32>(
        &mut self,
        flash_offset: u32,
        size: u32,
        set_mmu: F,
    ) -> (r: Result<Option<CacheRange>, FlashError>)
        requires
            old(self).well_formed(),
            old(self).adds_region(flash_offset, size) ==> old(self).fits(flash_offset, size),
            old(self).adds_region(flash_offset, size) ==> call_requires(
                set_mmu,
                (old(self).request_for(flash_offset, size),),
            ),
        ensures
            final(self).well_formed(),
            final(self).size() == old(self).size(),
            flash_offset % MMU_PAGE_SIZE != 0 ==> r == Err::<Option<CacheRange>, FlashError>(
                FlashError::NotAligned,
            ) && *final(self) == *old(self),
            flash_offset % MMU_PAGE_SIZE == 0 && old(self).has_region(flash_offset, size) ==> r
                == Ok::<Option<CacheRange>, FlashError>(None) && *final(self) == *old(self),
            flash_offset % MMU_PAGE_SIZE == 0 && !old(self).has_region(flash_offset, size) && old(
                self,
            ).regions().len() >= MAX_MAPPINGS ==> r == Err::<Option<CacheRange>, FlashError>(
                FlashError::OutOfBounds,
            ) && *final(self) == *old(self),
            old(self).adds_region(flash_offset, size) ==> {
                let request = old(self).request_for(flash_offset, size);
                exists|rc: i32| #[trigger]
                    call_ensures(set_mmu, (request,), rc) && if rc != 0 {
                        r == Err::<Option<CacheRange>, FlashError>(FlashError::Hardware(rc))
                            && *final(self) == *old(self)
                    } else {
                        &&& r == Ok::<Option<CacheRange>, FlashError>(
                            Some(
                                CacheRange {
                                    vaddr: request.vaddr,
                                    size: (request.num_pages * MMU_PAGE_SIZE) as u32,
                                },
                            ),
                        )
                        &&& final(self).regions() == old(self).regions().push(
                            Mapping { flash_offset, size, vaddr_base: request.vaddr },
                        )
                        &&& final(self).next_entry() == old(self).next_entry() + request.num_pages
                    }
            },
    {
        if flash_offset % MMU_PAGE_SIZE != 0 {
            return Err(FlashError::NotAligned);
        }
        if self.is_region(flash_offset, size) {
            return Ok(None);
        }
        if self.mappings.len() >= MAX_MAPPINGS {
            return Err(FlashError::OutOfBounds);
        }
        let num_pages: u32 = if size % MMU_PAGE_SIZE == 0 {
            size / MMU_PAGE_SIZE
        } else {
            size / MMU_PAGE_SIZE + 1
        };
        let vaddr_base: u32 = DBUS_VBASE + self.next_mmu_entry * MMU_PAGE_SIZE;
        let request = MmuRequest { vaddr: vaddr_base, flash_offset, num_pages };
        proof {
            assert(request == old(self).request_for(flash_offset, size));
            assert(!old(self).has_region(flash_offset, size));
        }
        let rc: i32 = set_mmu(request);
        assert(call_ensures(set_mmu, (old(self).request_for(flash_offset, size),), rc));
        if rc != 0 {
            return Err(FlashError::Hardware(rc));
        }
        let stale = CacheRange { vaddr: vaddr_base, size: num_pages * MMU_PAGE_SIZE };
        self.mappings.push(Mapping { flash_offset, size, vaddr_base });
        self.next_mmu_entry = self.next_mmu_entry + num_pages;
        proof {
            let before = old(self).regions();
            assert forall|j: int| 0 <= j < self.regions().len() implies {
                &&& (#[trigger] self.regions()[j]).flash_offset + self.regions()[j].size <= u32::MAX
                &&& self.regions()[j].vaddr_base + self.regions()[j].size <= 0x1_0000_0000
            } by {
                if j < before.len() {
                    assert(self.regions()[j] == before[j]);
                }
            }
        }
        Ok(Some(stale))
    }

    /// What a decrypted read of `len` bytes takes: the virtual address to read
    /// from, and the pages whose cache lines are to be dropped first.
    pub fn plan_read_decrypted(&self, flash_offset: u32, len: u32) -> (r: Result<
        (u32, CacheRange),
        FlashError,
    >)
        requires
            self.well_formed(),
            Self::lookup(self.regions(), flash_offset as int) matches Some(vaddr) ==> vaddr + len
                + MMU_PAGE_SIZE <= u32::MAX,
        ensures
            match Self::lookup(self.regions(), flash_offset as int) {
                None => r == Err::<(u32, CacheRange), FlashError>(FlashError::OutOfBounds),
                Some(vaddr) => {
                    &&& r is Ok
                    &&& r->Ok_0.0 == vaddr
                    &&& r->Ok_0.1.vaddr == vaddr - vaddr % MMU_PAGE_SIZE
                    &&& r->Ok_0.1.vaddr + r->Ok_0.1.size == pages_for(vaddr + len) * MMU_PAGE_SIZE
                },
            },
    {
        match self.vaddr_for(flash_offset) {
            None => Err(FlashError::OutOfBounds),
            Some(vaddr) => Ok((vaddr, pages_around(vaddr, len))),
        }
    }

    /// What the return code of an encrypting write means. The page whose cache
    /// lines are stale, if the address is mapped, is returned.
    pub fn finish_write_encrypted(&self, flash_offset: u32, rc: i32) -> (r: Result<
        Option<CacheRange>,
        FlashError,
    >)
        requires
            self.well_formed(),
        ensures
            r == (if rc != 0 {
                Err::<Option<CacheRange>, FlashError>(FlashError::Hardware(rc))
            } else {
                match Self::lookup(self.regions(), flash_offset as int) {
                    None => Ok(None),
                    Some(vaddr) => Ok(
                        Some(
                            CacheRange {
                                vaddr: (vaddr - vaddr % MMU_PAGE_SIZE) as u32,
                                size: MMU_PAGE_SIZE,
                            },
                        ),
                    ),
                }
            }),
    {
        if rc != 0 {
            return Err(FlashError::Hardware(rc));
        }
        match self.vaddr_for(flash_offset) {
            None => Ok(None),
            Some(vaddr) => Ok(Some(CacheRange { vaddr: page_of(vaddr), size: MMU_PAGE_SIZE })),
        }
    }
}

impl Default for Esp32C3 {
    /// A chip of 4 MiB.
    fn default() -> (r: Self)
        ensures
            r.well_formed(),
            r.size() == 0x40_0000,
            r.next_entry() == DEFAULT_MMU_ENTRY_BASE,
            r.regions() == Seq::<Mapping>::empty(),
    {
        Self::with_capacity(4 * 1024 * 1024)
    }
}

/// An address has a virtual address exactly when a region holds it.
pub proof fn lemma_lookup(regions: Seq<Mapping>, flash_offset: int)
    ensures
        Esp32C3::lookup(regions, flash_offset) is Some <==> exists|i: int|
            0 <= i < regions.len() && (#[trigger] regions[i]).holds(flash_offset),
    decreases regions.len(),
{
    if regions.len() > 0 {
        let rest = regions.skip(1);
        lemma_lookup(rest, flash_offset);
        if exists|i: int| 0 <= i < rest.len() && (#[trigger] rest[i]).holds(flash_offset) {
            let i = choose|i: int| 0 <= i < rest.len() && (#[trigger] rest[i]).holds(flash_offset);
            assert(regions[i + 1] == rest[i]);
        }
        if exists|i: int| 0 <= i < regions.len() && (#[trigger] regions[i]).holds(flash_offset) {
            let i = choose|i: int|
                0 <= i < regions.len() && (#[trigger] regions[i]).holds(flash_offset);
            if i > 0 {
                assert(rest[i - 1] == regions[i]);
            }
        }
    }
}

/// What the return code of an erase, or of a write, means.
pub fn check_code(rc: i32) -> (r: Result<(), FlashError>)
    ensures
        r == (if rc == 0 {
            Ok::<(), FlashError>(())
        } else {
            Err(FlashError::Hardware(rc))
        }),
{
    if rc != 0 {
        return Err(FlashError::Hardware(rc));
    }
    Ok(())
}

/// What the return code of the unlocking routine means.
pub fn check_unlock(rc: i32) -> (r: Result<(), FlashError>)
    ensures
        r == (if rc == 0 {
            Ok::<(), FlashError>(())
        } else {
            Err(FlashError::Locked)
        }),
{
    if rc != 0 {
        return Err(FlashError::Locked);
    }
    Ok(())
}

/// Raw writes take whole words.
pub fn check_write_plain(offset: u32, len: usize) -> (r: Result<(), FlashError>)
    ensures
        r == (if offset % 4 == 0 && len % 4 == 0 {
            Ok::<(), FlashError>(())
        } else {
            Err(FlashError::NotAligned)
        }),
{
    if offset % 4 != 0 || len % 4 != 0 {
        return Err(FlashError::NotAligned);
    }
    Ok(())
}

/// Encrypting writes take whole blocks.
pub fn check_write_encrypted(offset: u32, len: usize) -> (r: Result<(), FlashError>)
    ensures
        r == (if offset % ENC_BLOCK_SIZE == 0 && len % 32 == 0 {
            Ok::<(), FlashError>(())
        } else {
            Err(FlashError::NotAligned)
        }),
{
    if offset % ENC_BLOCK_SIZE != 0 || len % (ENC_BLOCK_SIZE as usize) != 0 {
        return Err(FlashError::NotAligned);
    }
    Ok(())
}

/// Bytes that the reading routine is asked for at once.
pub const READ_CHUNK: usize = 32;

/// What the reading routine is asked for, `at` bytes into a read of `len`
/// bytes from `offset` on: an address, and a number of bytes that is whole
/// words.
pub open spec fn read_request(offset: int, len: int, at: int) -> (u32, u32) {
    let rest = if len - at < READ_CHUNK {
        len - at
    } else {
        READ_CHUNK as int
    };
    ((offset + at) as u32, ((rest + 3) / 4 * 4) as u32)
}

/// The routine may be asked for each chunk of a read.
pub open spec fn reads_allowed<F: Fn(u32, u32) -> (i32, [u8; READ_CHUNK])>(
    rom_read: F,
    offset: int,
    len: int,
) -> bool {
    forall|at: int|
        0 <= at < len && at % 32 == 0 ==> call_requires(
            rom_read,
            #[trigger] read_request(offset, len, at),
        )
}

/// The routine, asked for this, can hand back a chunk with `byte` at `index`.
pub open spec fn can_read<F: Fn(u32, u32) -> (i32, [u8; READ_CHUNK])>(
    rom_read: F,
    request: (u32, u32),
    index: int,
    byte: u8,
) -> bool {
    exists|chunk: [u8; READ_CHUNK]| #[trigger]
        call_ensures(rom_read, request, (0i32, chunk)) && byte == chunk@[index]
}

/// The routine has failed with this code for the chunk at `at`: the bytes up to
/// there were read, and the others are as before.
pub open spec fn stops_at<F: Fn(u32, u32) -> (i32, [u8; READ_CHUNK])>(
    rom_read: F,
    offset: int,
    before: Seq<u8>,
    after: Seq<u8>,
    at: int,
    rc: i32,
) -> bool {
    let len = before.len() as int;
    &&& 0 <= at < len
    &&& at % 32 == 0
    &&& rc != 0
    &&& exists|chunk: [u8; READ_CHUNK]| #[trigger]
        call_ensures(rom_read, read_request(offset, len, at), (rc, chunk))
    &&& forall|i: int|
        0 <= i < at ==> can_read(
            rom_read,
            read_request(offset, len, i / 32 * 32),
            i % 32,
            #[trigger] after[i],
        )
    &&& forall|i: int| at <= i < len ==> #[trigger] after[i] == before[i]
}

/// A raw read, chunk by chunk. `rom_read` calls the routine for an address and
/// a number of bytes and hands back its return code and the bytes.
pub fn read_via_rom<F: Fn(u32, u32) -> (i32, [u8; READ_CHUNK])>(
    offset: u32,
    bytes: &mut [u8],
    rom_read: F,
) -> (r: Result<(), FlashError>)
    requires
        offset + old(bytes)@.len() <= u32::MAX,
        reads_allowed(rom_read, offset as int, old(bytes)@.len() as int),
    ensures
        final(bytes)@.len() == old(bytes)@.len(),
        r is Ok ==> forall|i: int|
            0 <= i < old(bytes)@.len() ==> can_read(
                rom_read,
                read_request(offset as int, old(bytes)@.len() as int, i / 32 * 32),
                i % 32,
                #[trigger] final(bytes)@[i],
            ),
        r matches Err(e) ==> exists|at: int, rc: i32| #[trigger]
            stops_at(rom_read, offset as int, old(bytes)@, final(bytes)@, at, rc) && e
                == FlashError::Hardware(rc),
{
    let len: usize = bytes.len();
    let mut done: usize = 0;
    while done < len
        invariant
            len == old(bytes)@.len(),
            bytes@.len() == len,
            done <= len,
            done % 32 == 0 || done == len,
            offset + len <= u32::MAX,
            reads_allowed(rom_read, offset as int, len as int),
            forall|i: int|
                0 <= i < done ==> can_read(
                    rom_read,
                    read_request(offset as int, len as int, i / 32 * 32),
                    i % 32,
                    #[trigger] bytes@[i],
                ),
            forall|i: int| done <= i < len ==> #[trigger] bytes@[i] == old(bytes)@[i],
        decreases len - done,
    {
        let rest: usize = len - done;
        let to_read: usize = if rest < READ_CHUNK {
            rest
        } else {
            READ_CHUNK
        };
        let read_len: u32 = ((to_read + 3) / 4 * 4) as u32;
        let ghost request = read_request(offset as int, len as int, done as int);
        let (rc, chunk): (i32, [u8; READ_CHUNK]) = rom_read(offset + done as u32, read_len);
        assert(call_ensures(rom_read, request, (rc, chunk)));
        if rc != 0 {
            assert(stops_at(rom_read, offset as int, old(bytes)@, bytes@, done as int, rc));
            return Err(FlashError::Hardware(rc));
        }
        let ghost before = bytes@;
        let mut i: usize = 0;
        while i < to_read
            invariant
                i <= to_read <= READ_CHUNK,
                done + to_read <= len,
                bytes@.len() == len,
                before.len() == len,
                forall|j: int|
                    0 <= j < len ==> #[trigger] bytes@[j] == (if done <= j < done + i {
                        chunk@[j - done]
                    } else {
                        before[j]
                    }),
            decreases to_read - i,
        {
            bytes[done + i] = chunk[i];
            i += 1;
        }
        proof {
            assert forall|j: int| 0 <= j < done + to_read implies can_read(
                rom_read,
                read_request(offset as int, len as int, j / 32 * 32),
                j % 32,
                #[trigger] bytes@[j],
            ) by {
                if j < done {
                    assert(bytes@[j] == before[j]);
                } else {
                    assert(j / 32 * 32 == done && j % 32 == j - done);
                    assert(call_ensures(
                        rom_read,
                        read_request(offset as int, len as int, j / 32 * 32),
                        (0i32, chunk),
                    ));
                }
            }
        }
        done += to_read;
    }
    Ok(())
}

/// The page around an address begins at a multiple of 64 KiB, at most one page
/// before; the pages around a range cover it, and no page more.
pub proof fn law_pages(vaddr: u32, len: u32, page: u32, range: CacheRange)
    requires
        vaddr + len + 0x1_0000 <= u32::MAX,
        call_ensures(page_of, (vaddr,), page),
        call_ensures(pages_around, (vaddr, len), range),
    ensures
        page % 0x1_0000 == 0 && page <= vaddr < page + 0x1_0000,
        range.vaddr == page,
        range.size % 0x1_0000 == 0,
        range.vaddr + range.size >= vaddr + len,
        range.vaddr + range.size < vaddr + len + 0x1_0000,
{
}

/// An address is read through the first region that holds it, as far behind its
/// beginning as on flash; it is mapped exactly when some region holds it. Only
/// then can it be read decrypted, and only then is a page stale after a write.
pub proof fn law_mapped_addresses(
    chip: &Esp32C3,
    a: u32,
    r: Option<u32>,
    mapped: bool,
    len: u32,
    plan: Result<(u32, CacheRange), FlashError>,
    rc: i32,
    written: Result<Option<CacheRange>, FlashError>,
)
    requires
        chip.well_formed(),
        call_ensures(Esp32C3::vaddr_for, (chip, a), r),
        call_ensures(Esp32C3::is_decrypt_mapped, (chip, a), mapped),
        call_ensures(Esp32C3::plan_read_decrypted, (chip, a, len), plan),
        call_ensures(Esp32C3::finish_write_encrypted, (chip, a, rc), written),
    ensures
        mapped <==> exists|i: int|
            0 <= i < chip.regions().len() && (#[trigger] chip.regions()[i]).flash_offset <= a
                < chip.regions()[i].flash_offset + chip.regions()[i].size,
        mapped <==> r is Some,
        chip.regions().len() > 0 && chip.regions()[0].flash_offset <= a
            < chip.regions()[0].flash_offset + chip.regions()[0].size ==> r == Some(
            (chip.regions()[0].vaddr_base + (a - chip.regions()[0].flash_offset)) as u32,
        ),
        plan is Ok <==> mapped,
        plan matches Ok((vaddr, _)) ==> r == Some(vaddr),
        plan matches Err(e) ==> e == FlashError::OutOfBounds,
        rc != 0 ==> written == Err::<Option<CacheRange>, FlashError>(FlashError::Hardware(rc)),
        rc == 0 ==> (written matches Ok(stale) && (stale is Some <==> mapped)),
        written matches Ok(Some(stale)) ==> stale.vaddr % 0x1_0000 == 0 && stale.vaddr <= r.unwrap()
            < stale.vaddr + 0x1_0000 && stale.size == 0x1_0000,
{
    lemma_lookup(chip.regions(), a as int);
    let regions = chip.regions();
    if exists|i: int| 0 <= i < regions.len() && (#[trigger] regions[i]).holds(a as int) {
        let i = choose|i: int| 0 <= i < regions.len() && (#[trigger] regions[i]).holds(a as int);
        assert(regions[i].flash_offset <= a);
    }
    if exists|i: int|
        0 <= i < regions.len() && (#[trigger] regions[i]).flash_offset <= a
            < regions[i].flash_offset + regions[i].size {
        let i = choose|i: int|
            0 <= i < regions.len() && (#[trigger] regions[i]).flash_offset <= a
                < regions[i].flash_offset + regions[i].size;
        assert(regions[i].holds(a as int));
    }
}

/// A region that is mapped is mapped from then on, together with all that were
/// mapped before, and its pages are the ones that are stale. There are at most
/// four regions, each at a page, and mapping one again does nothing.
pub proof fn law_region_is_mapped<F: FnOnce(MmuRequest) -> i32>(
    chip: &mut Esp32C3,
    offset: u32,
    size: u32,
    set_mmu: F,
    r: Result<Option<CacheRange>, FlashError>,
)
    requires
        old(chip).well_formed(),
        old(chip).adds_region(offset, size) ==> old(chip).fits(offset, size),
        call_ensures(Esp32C3::map_decrypt_region::<F>, (chip, offset, size, set_mmu), r),
    ensures
        offset % 0x1_0000 != 0 ==> r == Err::<Option<CacheRange>, FlashError>(
            FlashError::NotAligned,
        ),
        r is Err || r == Ok::<Option<CacheRange>, FlashError>(None) ==> *final(chip) == *old(chip),
        final(chip).size() == old(chip).size(),
        r matches Ok(Some(stale)) ==> {
            let n = old(chip).regions().len() as int;
            &&& n < 4 && final(chip).regions().len() == n + 1
            &&& forall|i: int|
                0 <= i < n ==> #[trigger] final(chip).regions()[i] == old(chip).regions()[i]
            &&& final(chip).regions()[n].flash_offset == offset
            &&& final(chip).regions()[n].size == size
            &&& final(chip).regions()[n].vaddr_base == stale.vaddr
            &&& stale.vaddr == 0x3C00_0000 + old(chip).next_entry() * 0x1_0000
            &&& stale.size >= size && stale.size < size + 0x1_0000 && stale.size % 0x1_0000 == 0
            &&& final(chip).next_entry() * 0x1_0000 == old(chip).next_entry() * 0x1_0000
                + stale.size
        },
        r == Ok::<Option<CacheRange>, FlashError>(None) ==> exists|i: int|
            0 <= i < old(chip).regions().len() && (#[trigger] old(chip).regions()[i]).flash_offset
                == offset && old(chip).regions()[i].size == size,
        r matches Err(e) ==> e == FlashError::NotAligned && offset % 0x1_0000 != 0 || e
            == FlashError::OutOfBounds && old(chip).regions().len() >= 4 || e is Hardware,
        ({
            let known = exists|i: int|
                0 <= i < old(chip).regions().len() && (#[trigger] old(
                    chip,
                ).regions()[i]).flash_offset == offset && old(chip).regions()[i].size == size;
            let full = old(chip).regions().len() >= 4;
            let request = MmuRequest {
                vaddr: (0x3C00_0000 + old(chip).next_entry() * 0x1_0000) as u32,
                flash_offset: offset,
                num_pages: ((size + 0xFFFF) / 0x1_0000) as u32,
            };
            &&& offset % 0x1_0000 == 0 && known ==> r == Ok::<Option<CacheRange>, FlashError>(None)
            &&& offset % 0x1_0000 == 0 && !known && full ==> r == Err::<
                Option<CacheRange>,
                FlashError,
            >(FlashError::OutOfBounds)
            &&& offset % 0x1_0000 == 0 && !known && !full ==> match r {
                Ok(_) => call_ensures(set_mmu, (request,), 0i32),
                Err(e) => e matches FlashError::Hardware(rc) && rc != 0 && call_ensures(
                    set_mmu,
                    (request,),
                    rc,
                ),
            }
        }),
{
    if let Ok(Some(stale)) = r {
        let request = old(chip).request_for(offset, size);
        assert((old(chip).next_entry() + request.num_pages) * 0x1_0000 == old(chip).next_entry()
            * 0x1_0000 + request.num_pages * 0x1_0000);
    }
}

/// A chip begins without regions, and its first region is at the entry that it
/// was given.
pub proof fn law_chip_start(
    capacity: usize,
    chip: Esp32C3,
    base: u32,
    other: Esp32C3,
    n: usize,
    usual: Esp32C3,
)
    requires
        call_ensures(<Esp32C3 as Default>::default, (), usual),
        call_ensures(Esp32C3::with_capacity, (capacity,), chip),
        call_ensures(Esp32C3::with_mmu_entry_base, (chip, base), other),
        call_ensures(Esp32C3::capacity, (&other,), n),
    ensures
        n == capacity,
        chip.regions().len() == 0 && other.regions().len() == 0,
        chip.next_entry() == 0x40,
        other.next_entry() == base,
        usual.size() == 4 * 1024 * 1024,
        usual.regions().len() == 0 && usual.next_entry() == 0x40,
{
}

/// What the routines of the chip return is told apart: 0 is success; any other
/// code is an error that names it, or, for unlocking, that flash is locked. Raw
/// writes take whole words and encrypting writes whole blocks of 32 bytes.
pub proof fn law_codes_and_alignment(
    rc: i32,
    code: Result<(), FlashError>,
    unlock: Result<(), FlashError>,
    offset: u32,
    len: usize,
    plain: Result<(), FlashError>,
    encrypted: Result<(), FlashError>,
)
    requires
        call_ensures(check_code, (rc,), code),
        call_ensures(check_unlock, (rc,), unlock),
        call_ensures(check_write_plain, (offset, len), plain),
        call_ensures(check_write_encrypted, (offset, len), encrypted),
    ensures
        code is Ok <==> rc == 0,
        code matches Err(e) ==> e == FlashError::Hardware(rc),
        unlock is Ok <==> rc == 0,
        unlock matches Err(e) ==> e == FlashError::Locked,
        plain is Ok <==> offset % 4 == 0 && len % 4 == 0,
        plain matches Err(e) ==> e == FlashError::NotAligned,
        encrypted is Ok <==> offset % 32 == 0 && len % 32 == 0,
        encrypted matches Err(e) ==> e == FlashError::NotAligned,
{
}

/// There is room for a region that takes no new pages, and for one whose pages
/// end within the address space.
pub proof fn law_room(chip: &Esp32C3, offset: u32, size: u32, r: bool)
    requires
        call_ensures(Esp32C3::has_room_for, (chip, offset, size), r),
    ensures
        offset % 0x1_0000 != 0 ==> r,
        chip.regions().len() >= 4 ==> r,
        chip.has_region(offset, size) ==> r,
        ({
            let first = 0x3C00_0000 + chip.next_entry() * 0x1_0000;
            let end = first + (size + 0xFFFF) / 0x1_0000 * 0x1_0000;
            let inside = offset + size < 0x1_0000_0000 && first < 0x1_0000_0000 && end
                <= 0x1_0000_0000;
            &&& inside ==> r
            &&& offset % 0x1_0000 == 0 && !chip.has_region(offset, size) && chip.regions().len() < 4
                && !inside ==> !r
        }),
{
    let pages = (size + 0xFFFF) / 0x1_0000;
    assert((chip.next_entry() + pages) * 0x1_0000 == chip.next_entry() * 0x1_0000 + pages
        * 0x1_0000);
}

/// A raw read hands out what is on flash, byte for byte, where the routine reads
/// it.
pub proof fn law_raw_read<F: Fn(u32, u32) -> (i32, [u8; READ_CHUNK])>(
    offset: u32,
    bytes: &mut [u8],
    rom_read: F,
    r: Result<(), FlashError>,
    held: Seq<u8>,
)
    requires
        call_ensures(read_via_rom::<F>, (offset, bytes, rom_read), r),
        offset + old(bytes)@.len() <= held.len() <= u32::MAX,
        forall|request: (u32, u32), code: i32, chunk: [u8; READ_CHUNK]| #[trigger]
            call_ensures(rom_read, request, (code, chunk)) ==> code == 0 && forall|j: int|
                0 <= j < request.1 && request.0 + j < held.len() ==> #[trigger] chunk@[j]
                    == held[request.0 + j],
    ensures
        r is Ok,
        final(bytes)@ == held.subrange(offset as int, offset + old(bytes)@.len()),
{
    let len = old(bytes)@.len() as int;
    if let Err(e) = r {
        let (at, rc) = choose|at: int, rc: i32| #[trigger]
            stops_at(rom_read, offset as int, old(bytes)@, final(bytes)@, at, rc) && e
                == FlashError::Hardware(rc);
        let request = read_request(offset as int, len, at);
        let chunk = choose|chunk: [u8; READ_CHUNK]| #[trigger]
            call_ensures(rom_read, request, (rc, chunk));
        assert(call_ensures(rom_read, request, (rc, chunk)));
    } else {
        assert forall|i: int| 0 <= i < len implies #[trigger] final(bytes)@[i] == held[offset
            + i] by {
            let request = read_request(offset as int, len, i / 32 * 32);
            assert(can_read(rom_read, request, i % 32, final(bytes)@[i]));
            let chunk = choose|chunk: [u8; READ_CHUNK]| #[trigger]
                call_ensures(rom_read, request, (0i32, chunk)) && final(bytes)@[i]
                    == chunk@[i % 32];
            assert(request.0 == offset + i / 32 * 32);
            assert(0 <= i % 32 < request.1);
            assert(chunk@[i % 32] == held[request.0 + i % 32]);
        }
        assert(final(bytes)@ =~= held.subrange(offset as int, offset + len));
    }
}

/// A raw read that fails reports the code of the routine, which is not that of
/// success, and keeps what was read before.
pub proof fn law_raw_read_fails<F: Fn(u32, u32) -> (i32, [u8; READ_CHUNK])>(
    offset: u32,
    bytes: &mut [u8],
    rom_read: F,
    r: Result<(), FlashError>,
)
    requires
        call_ensures(read_via_rom::<F>, (offset, bytes, rom_read), r),
    ensures
        r matches Err(e) ==> e matches FlashError::Hardware(rc) && rc != 0,
        r is Err ==> exists|at: int|
            0 <= at < old(bytes)@.len() && at % 32 == 0 && #[trigger] final(bytes)@.skip(at)
                == old(bytes)@.skip(at),
{
    if let Err(e) = r {
        let (at, rc) = choose|at: int, rc: i32| #[trigger]
            stops_at(rom_read, offset as int, old(bytes)@, final(bytes)@, at, rc) && e
                == FlashError::Hardware(rc);
        assert(final(bytes)@.skip(at) =~= old(bytes)@.skip(at));
    }
}

} // verus!
