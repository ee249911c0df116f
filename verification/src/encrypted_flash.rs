//! The flash layout of the display: where boot data and the two firmware slots
//! lie, at which virtual addresses they are read decrypted, and what its
//! storages report.
//!
//! The storages themselves are those of [`secure_flash`](crate::secure_flash).

use crate::secure_flash::esp32c3::{
    pages_around, read_via_rom, CacheRange, MmuRequest, DBUS_VBASE, MMU_PAGE_SIZE, READ_CHUNK,
};
use crate::secure_flash::FlashError;
use vstd::prelude::*;

verus! {

/// Bytes of flash.
pub const FLASH_CAPACITY: usize = 0x40_0000;

/// MMU entry of the page with the boot data.
pub const MMU_ENTRY_OTADATA: u32 = 0x40;

/// First MMU entry of the first firmware slot.
pub const MMU_ENTRY_OTA0_BASE: u32 = 0x41;

/// First MMU entry of the second firmware slot.
pub const MMU_ENTRY_OTA1_BASE: u32 = 0x58;

/// Pages of a firmware slot.
pub const OTA_PARTITION_PAGES: u32 = 23;

/// Where the first firmware slot begins.
pub const OTA_0_BASE: u32 = 0x20000;

/// Where the second firmware slot begins.
pub const OTA_1_BASE: u32 = 0x190000;

/// Bytes of a firmware slot.
pub const OTA_PARTITION_SIZE: u32 = 0x170000;

/// The page that holds the boot data.
pub const OTADATA_PAGE: u32 = 0x10000;

/// Where the boot data begin.
pub const OTADATA_BASE: u32 = 0x18000;

/// Bytes of boot data.
pub const OTADATA_SIZE: u32 = 0x2000;

/// Errors that the storages of the display report.
#[derive(Debug, Clone, Copy, PartialEq, Eq, Structural)]
pub enum FlashStorageError {
    /// The range does not lie on flash.
    OutOfBounds,
    /// Address or length is not aligned.
    NotAligned,
    /// Flash could not be unlocked.
    CantUnlock,
    /// A routine of the chip failed with this return code.
    Other(i32),
}

/// What the display's storages report for an error of the storage below.
pub fn storage_error(error: FlashError) -> (r: FlashStorageError)
    ensures
        r == (match error {
            FlashError::OutOfBounds => FlashStorageError::OutOfBounds,
            FlashError::NotAligned => FlashStorageError::NotAligned,
            FlashError::Locked => FlashStorageError::CantUnlock,
            FlashError::Hardware(rc) => FlashStorageError::Other(rc),
        }),
{
    match error {
        FlashError::OutOfBounds => FlashStorageError::OutOfBounds,
        FlashError::NotAligned => FlashStorageError::NotAligned,
        FlashError::Locked => FlashStorageError::CantUnlock,
        FlashError::Hardware(rc) => FlashStorageError::Other(rc),
    }
}

/// What it takes to map `num_pages` pages of flash from `flash_addr` on,
/// beginning with an MMU entry.
pub fn map_flash_region(entry_id_base: u32, flash_addr: u32, num_pages: u32) -> (r: (
    MmuRequest,
    CacheRange,
))
    requires
        DBUS_VBASE + entry_id_base * MMU_PAGE_SIZE <= u32::MAX,
        num_pages * MMU_PAGE_SIZE <= u32::MAX,
    ensures
        r.0.vaddr == DBUS_VBASE + entry_id_base * MMU_PAGE_SIZE,
        r.0.flash_offset == flash_addr,
        r.0.num_pages == num_pages,
        r.1.vaddr == r.0.vaddr,
        r.1.size == num_pages * MMU_PAGE_SIZE,
{
    let vaddr: u32 = DBUS_VBASE + entry_id_base * MMU_PAGE_SIZE;
    (
        MmuRequest { vaddr, flash_offset: flash_addr, num_pages },
        CacheRange { vaddr, size: num_pages * MMU_PAGE_SIZE },
    )
}

/// The mapping that covers a flash address, if `request` does, puts it at this
/// virtual address.
pub open spec fn maps_to(request: MmuRequest, flash_offset: int, vaddr: int) -> bool {
    &&& request.flash_offset <= flash_offset < request.flash_offset + request.num_pages
        * MMU_PAGE_SIZE
    &&& vaddr == request.vaddr + (flash_offset - request.flash_offset)
}

/// The three mappings that the display needs: the page with the boot data, and
/// both firmware slots.
pub open spec fn display_mappings() -> Seq<MmuRequest> {
    seq![
        MmuRequest {
            vaddr: (DBUS_VBASE + MMU_ENTRY_OTADATA * MMU_PAGE_SIZE) as u32,
            flash_offset: OTADATA_PAGE,
            num_pages: 1,
        },
        MmuRequest {
            vaddr: (DBUS_VBASE + MMU_ENTRY_OTA0_BASE * MMU_PAGE_SIZE) as u32,
            flash_offset: OTA_0_BASE,
            num_pages: OTA_PARTITION_PAGES,
        },
        MmuRequest {
            vaddr: (DBUS_VBASE + MMU_ENTRY_OTA1_BASE * MMU_PAGE_SIZE) as u32,
            flash_offset: OTA_1_BASE,
            num_pages: OTA_PARTITION_PAGES,
        },
    ]
}

/// The mappings to set up, with the cache lines that are stale afterwards.
pub fn ensure_mappings() -> (r: [(MmuRequest, CacheRange); 3])
    ensures
        forall|i: int| 0 <= i < 3 ==> (#[trigger] r@[i]).0 == display_mappings()[i],
        forall|i: int|
            0 <= i < 3 ==> (#[trigger] r@[i]).1.vaddr == r@[i].0.vaddr && r@[i].1.size
                == r@[i].0.num_pages * MMU_PAGE_SIZE,
{
    [
        map_flash_region(MMU_ENTRY_OTADATA, OTADATA_PAGE, 1),
        map_flash_region(MMU_ENTRY_OTA0_BASE, OTA_0_BASE, OTA_PARTITION_PAGES),
        map_flash_region(MMU_ENTRY_OTA1_BASE, OTA_1_BASE, OTA_PARTITION_PAGES),
    ]
}

/// The virtual address of a flash address in the boot data or a firmware slot.
pub open spec fn display_address(flash_offset: int) -> Option<u32> {
    if OTADATA_BASE <= flash_offset < OTADATA_BASE + OTADATA_SIZE {
        Some(
            (DBUS_VBASE + MMU_ENTRY_OTADATA * MMU_PAGE_SIZE + (flash_offset - OTADATA_PAGE)) as u32,
        )
    } else if OTA_0_BASE <= flash_offset < OTA_0_BASE + OTA_PARTITION_SIZE {
        Some(
            (DBUS_VBASE + MMU_ENTRY_OTA0_BASE * MMU_PAGE_SIZE + (flash_offset - OTA_0_BASE)) as u32,
        )
    } else if OTA_1_BASE <= flash_offset < OTA_1_BASE + OTA_PARTITION_SIZE {
        Some(
            (DBUS_VBASE + MMU_ENTRY_OTA1_BASE * MMU_PAGE_SIZE + (flash_offset - OTA_1_BASE)) as u32,
        )
    } else {
        None
    }
}

/// The virtual address of a flash address in the boot data or a firmware slot;
/// other addresses are read raw.
pub fn dbus_vaddr_for_flash(flash_offset: u32) -> (r: Option<u32>)
    ensures
        r == display_address(flash_offset as int),
{
    if OTADATA_BASE <= flash_offset && flash_offset < OTADATA_BASE + OTADATA_SIZE {
        let page_offset: u32 = flash_offset - OTADATA_PAGE;
        Some(DBUS_VBASE + MMU_ENTRY_OTADATA * MMU_PAGE_SIZE + page_offset)
    } else if OTA_0_BASE <= flash_offset && flash_offset < OTA_0_BASE + OTA_PARTITION_SIZE {
        let off: u32 = flash_offset - OTA_0_BASE;
        Some(DBUS_VBASE + MMU_ENTRY_OTA0_BASE * MMU_PAGE_SIZE + off)
    } else if OTA_1_BASE <= flash_offset && flash_offset < OTA_1_BASE + OTA_PARTITION_SIZE {
        let off: u32 = flash_offset - OTA_1_BASE;
        Some(DBUS_VBASE + MMU_ENTRY_OTA1_BASE * MMU_PAGE_SIZE + off)
    } else {
        None
    }
}

/// Whether every address of a region lies in the boot data or a firmware slot.
pub fn is_mapped_region(flash_offset: u32, size: u32) -> (r: bool)
    ensures
        r == forall|a: int|
            flash_offset <= a < flash_offset + size ==> (#[trigger] display_address(a)) is Some,
{
    let begin: u64 = flash_offset as u64;
    let end: u64 = begin + size as u64;
    let in_otadata: bool = begin >= OTADATA_BASE as u64 && end <= (OTADATA_BASE
        + OTADATA_SIZE) as u64;
    let in_slots: bool = begin >= OTA_0_BASE as u64 && end <= (OTA_1_BASE
        + OTA_PARTITION_SIZE) as u64;
    proof {
        if size > 0 && !in_otadata && !in_slots {
            assert(display_address(flash_offset as int) is None || display_address(
                (OTADATA_BASE + OTADATA_SIZE) as int,
            ) is None && flash_offset < OTADATA_BASE + OTADATA_SIZE < end || display_address(
                (OTA_1_BASE + OTA_PARTITION_SIZE) as int,
            ) is None && flash_offset < OTA_1_BASE + OTA_PARTITION_SIZE < end);
        }
    }
    size == 0 || in_otadata || in_slots
}

/// Every address that is read decrypted lies in one of the mappings, at the
/// virtual address that the mapping gives it.
pub proof fn law_addresses_are_mapped(flash_offset: int)
    requires
        display_address(flash_offset) is Some,
    ensures
        exists|i: int|
            0 <= i < 3 && maps_to(
                #[trigger] display_mappings()[i],
                flash_offset,
                display_address(flash_offset).unwrap() as int,
            ),
{
    let vaddr = display_address(flash_offset).unwrap() as int;
    let all = display_mappings();
    if OTADATA_BASE <= flash_offset < OTADATA_BASE + OTADATA_SIZE {
        assert(maps_to(all[0], flash_offset, vaddr));
    } else if flash_offset < OTA_1_BASE {
        assert(maps_to(all[1], flash_offset, vaddr));
    } else {
        assert(maps_to(all[2], flash_offset, vaddr));
    }
}

/// Two different flash addresses are never read through one virtual address.
pub proof fn law_addresses_are_distinct(first: int, second: int)
    requires
        display_address(first) is Some,
        display_address(second) is Some,
        display_address(first) == display_address(second),
    ensures
        first == second,
{
}

/// How a range is read.
#[derive(Debug, Clone, Copy, PartialEq, Eq, Structural)]
pub enum ReadPath {
    /// Through the cache from a virtual address, once these cache lines have
    /// been dropped.
    Mapped(u32, CacheRange),
    /// Raw.
    Plain,
}

/// How `len` bytes from `flash_offset` on are read.
pub fn mapped_read(flash_offset: u32, len: u32) -> (r: ReadPath)
    requires
        len <= FLASH_CAPACITY,
    ensures
        match display_address(flash_offset as int) {
            None => r is Plain,
            Some(vaddr) => {
                &&& r is Mapped
                &&& r->Mapped_0 == vaddr
                &&& r->Mapped_1.vaddr == vaddr - vaddr % MMU_PAGE_SIZE
                &&& r->Mapped_1.vaddr + r->Mapped_1.size
                    == crate::secure_flash::esp32c3::pages_for(vaddr + len) * MMU_PAGE_SIZE
            },
        },
{
    match dbus_vaddr_for_flash(flash_offset) {
        None => ReadPath::Plain,
        Some(vaddr) => ReadPath::Mapped(vaddr, pages_around(vaddr, len)),
    }
}

/// Refuses a range that does not lie on flash.
pub fn check_bounds(offset: u32, length: usize) -> (r: Result<(), FlashStorageError>)
    ensures
        r == (if offset + length <= FLASH_CAPACITY {
            Ok::<(), FlashStorageError>(())
        } else {
            Err(FlashStorageError::OutOfBounds)
        }),
{
    let offset: usize = offset as usize;
    if length > FLASH_CAPACITY || offset > FLASH_CAPACITY - length {
        return Err(FlashStorageError::OutOfBounds);
    }
    Ok(())
}

/// A raw read of a range on flash. `rom_read` calls the reading routine for an
/// address and a number of bytes and hands back its return code and the bytes.
pub fn plain_read<F: Fn(u32, u32) -> (i32, [u8; READ_CHUNK])>(
    offset: u32,
    bytes: &mut [u8],
    rom_read: F,
) -> (r: Result<(), FlashStorageError>)
    requires
        offset + old(bytes)@.len() <= FLASH_CAPACITY ==> crate::secure_flash::esp32c3::reads_allowed(
            rom_read,
            offset as int,
            old(bytes)@.len() as int,
        ),
    ensures
        final(bytes)@.len() == old(bytes)@.len(),
        offset + old(bytes)@.len() > FLASH_CAPACITY ==> r == Err::<(), FlashStorageError>(
            FlashStorageError::OutOfBounds,
        ) && final(bytes)@ == old(bytes)@,
        offset + old(bytes)@.len() <= FLASH_CAPACITY ==> match r {
            Ok(()) => forall|i: int|
                0 <= i < old(bytes)@.len() ==> crate::secure_flash::esp32c3::can_read(
                    rom_read,
                    crate::secure_flash::esp32c3::read_request(
                        offset as int,
                        old(bytes)@.len() as int,
                        i / 32 * 32,
                    ),
                    i % 32,
                    #[trigger] final(bytes)@[i],
                ),
            Err(e) => exists|at: int, rc: i32| #[trigger]
                crate::secure_flash::esp32c3::stops_at(
                    rom_read,
                    offset as int,
                    old(bytes)@,
                    final(bytes)@,
                    at,
                    rc,
                ) && e == FlashStorageError::Other(rc),
        },
{
    check_bounds(offset, bytes.len())?;
    match read_via_rom(offset, bytes, rom_read) {
        Ok(()) => Ok(()),
        Err(e) => Err(storage_error(e)),
    }
}

/// The boot data and the two firmware slots are read decrypted, each at its
/// place in the address space, and nothing else is.
pub proof fn law_where_flash_is_read(flash_offset: u32, r: Option<u32>, path: ReadPath, len: u32)
    requires
        call_ensures(dbus_vaddr_for_flash, (flash_offset,), r),
        call_ensures(mapped_read, (flash_offset, len), path),
        len <= 0x40_0000,
    ensures
        0x1_8000 <= flash_offset < 0x1_A000 ==> r == Some(
            (0x3C40_8000 + (flash_offset - 0x1_8000)) as u32,
        ),
        0x2_0000 <= flash_offset < 0x19_0000 ==> r == Some(
            (0x3C41_0000 + (flash_offset - 0x2_0000)) as u32,
        ),
        0x19_0000 <= flash_offset < 0x30_0000 ==> r == Some(
            (0x3C58_0000 + (flash_offset - 0x19_0000)) as u32,
        ),
        flash_offset < 0x1_8000 || 0x1_A000 <= flash_offset < 0x2_0000 || 0x30_0000 <= flash_offset
            ==> r is None,
        path is Plain <==> r is None,
        path matches ReadPath::Mapped(vaddr, stale) ==> {
            &&& r == Some(vaddr)
            &&& stale.vaddr <= vaddr
            &&& stale.vaddr + stale.size >= vaddr + len
            &&& stale.vaddr % 0x1_0000 == 0
            &&& vaddr - stale.vaddr < 0x1_0000
            &&& stale.vaddr + stale.size < vaddr + len + 0x1_0000
        },
{
}

/// The three mappings lead to the pages that are read, and what is stale after
/// a mapping are the pages that it covers.
pub proof fn law_mappings(
    all: [(MmuRequest, CacheRange); 3],
    entry: u32,
    flash_addr: u32,
    pages: u32,
    one: (MmuRequest, CacheRange),
)
    requires
        call_ensures(ensure_mappings, (), all),
        call_ensures(map_flash_region, (entry, flash_addr, pages), one),
        entry < 0x4000,
        pages < 0x1_0000,
    ensures
        one.0.flash_offset == flash_addr && one.0.num_pages == pages,
        one.0.vaddr == 0x3C00_0000 + entry * 0x1_0000,
        one.1.vaddr == one.0.vaddr && one.1.size == pages * 0x1_0000,
        forall|i: int|
            0 <= i < 3 ==> (#[trigger] all@[i]).1.vaddr == all@[i].0.vaddr && all@[i].1.size
                == all@[i].0.num_pages * 0x1_0000,
        all@[0].0.flash_offset == 0x1_0000 && all@[0].0.num_pages == 1 && all@[0].0.vaddr
            == 0x3C40_0000,
        all@[1].0.flash_offset == 0x2_0000 && all@[1].0.num_pages == 23 && all@[1].0.vaddr
            == 0x3C41_0000,
        all@[2].0.flash_offset == 0x19_0000 && all@[2].0.num_pages == 23 && all@[2].0.vaddr
            == 0x3C58_0000,
{
}

/// A range is on flash exactly when it ends within 4 MiB, and each error of the
/// storage below has its own error here.
pub proof fn law_bounds_and_errors(
    offset: u32,
    length: usize,
    r: Result<(), FlashStorageError>,
    a: FlashError,
    b: FlashError,
    x: FlashStorageError,
    y: FlashStorageError,
)
    requires
        call_ensures(check_bounds, (offset, length), r),
        call_ensures(storage_error, (a,), x),
        call_ensures(storage_error, (b,), y),
    ensures
        r is Ok <==> offset + length <= 0x40_0000,
        r matches Err(e) ==> e == FlashStorageError::OutOfBounds,
        a == b <==> x == y,
        a matches FlashError::Hardware(rc) ==> x == FlashStorageError::Other(rc),
        a == FlashError::Locked ==> x == FlashStorageError::CantUnlock,
        a == FlashError::OutOfBounds ==> x == FlashStorageError::OutOfBounds,
{
}

/// A raw read hands out what is on flash, byte for byte, where the routine reads
/// it; a range that is not on flash is not read.
pub proof fn law_raw_read<F: Fn(u32, u32) -> (i32, [u8; READ_CHUNK])>(
    offset: u32,
    bytes: &mut [u8],
    rom_read: F,
    r: Result<(), FlashStorageError>,
    held: Seq<u8>,
)
    requires
        call_ensures(plain_read::<F>, (offset, bytes, rom_read), r),
        held.len() == 0x40_0000,
        forall|request: (u32, u32), code: i32, chunk: [u8; READ_CHUNK]| #[trigger]
            call_ensures(rom_read, request, (code, chunk)) ==> code == 0 && forall|j: int|
                0 <= j < request.1 && request.0 + j < held.len() ==> #[trigger] chunk@[j]
                    == held[request.0 + j],
    ensures
        offset + old(bytes)@.len() <= 0x40_0000 ==> r is Ok && forall|i: int|
            0 <= i < old(bytes)@.len() ==> #[trigger] final(bytes)@[i] == held[offset + i],
        offset + old(bytes)@.len() > 0x40_0000 ==> r == Err::<(), FlashStorageError>(
            FlashStorageError::OutOfBounds,
        ) && final(bytes)@ == old(bytes)@,
        final(bytes)@.len() == old(bytes)@.len(),
{
    if offset + old(bytes)@.len() <= 0x40_0000 {
        if let Err(e) = r {
            let (at, rc) = choose|at: int, rc: i32| #[trigger]
                crate::secure_flash::esp32c3::stops_at(
                    rom_read,
                    offset as int,
                    old(bytes)@,
                    final(bytes)@,
                    at,
                    rc,
                ) && e == FlashStorageError::Other(rc);
            let len = old(bytes)@.len() as int;
            let request = crate::secure_flash::esp32c3::read_request(offset as int, len, at);
            let chunk = choose|chunk: [u8; READ_CHUNK]| #[trigger]
                call_ensures(rom_read, request, (rc, chunk));
            assert(call_ensures(rom_read, request, (rc, chunk)));
        } else {
            assert forall|i: int| 0 <= i < old(bytes)@.len() implies #[trigger] final(bytes)@[i]
                == held[offset + i] by {
                let len = old(bytes)@.len() as int;
                let at = i / 32 * 32;
                let request = crate::secure_flash::esp32c3::read_request(offset as int, len, at);
                assert(crate::secure_flash::esp32c3::can_read(
                    rom_read,
                    request,
                    i % 32,
                    final(bytes)@[i],
                ));
                let chunk = choose|chunk: [u8; READ_CHUNK]| #[trigger]
                    call_ensures(rom_read, request, (0i32, chunk)) && final(bytes)@[i]
                        == chunk@[i % 32];
                assert(request.0 == offset + at);
                assert(0 <= i % 32 < request.1);
                assert(chunk@[i % 32] == held[request.0 + i % 32]);
            }
        }
    }
}

/// A region is read decrypted as a whole exactly if it lies in the boot data, or
/// in the two firmware slots, which follow each other.
pub proof fn law_mapped_regions(flash_offset: u32, size: u32, r: bool)
    requires
        call_ensures(is_mapped_region, (flash_offset, size), r),
    ensures
        r <==> size == 0 || 0x1_8000 <= flash_offset && flash_offset + size <= 0x1_A000 || 0x2_0000
            <= flash_offset && flash_offset + size <= 0x30_0000,
        r && size > 0 ==> display_address(flash_offset as int) is Some && display_address(
            flash_offset + size - 1,
        ) is Some,
        r ==> forall|part: u32| #[trigger]
            (flash_offset + part) < flash_offset + size ==> display_address(flash_offset + part)
                is Some,
        !r ==> exists|a: int|
            flash_offset <= a < flash_offset + size && #[trigger] display_address(a) is None,
{
    assert(display_address(0x1_A000) is None && display_address(0x30_0000) is None);
    if r && size > 0 {
        assert(display_address(flash_offset as int) is Some);
    }
    assert forall|part: u32| #[trigger]
        (flash_offset + part) < flash_offset + size implies display_address(flash_offset + part)
        is Some || !r by {
        if r {
            assert(display_address(flash_offset + part) is Some);
        }
    }
}

} // verus!
