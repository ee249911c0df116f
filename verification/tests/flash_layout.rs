//! Addresses on flash, and what the chip's routines return.

use wifi_display::encrypted_flash::{
    check_bounds, dbus_vaddr_for_flash, ensure_mappings, is_mapped_region, map_flash_region,
    mapped_read, plain_read, storage_error, FlashStorageError, ReadPath,
};
use wifi_display::secure_flash::esp32c3::{
    check_code, check_unlock, check_write_encrypted, check_write_plain, page_of, pages_around,
    read_via_rom, Esp32C3,
};
use wifi_display::secure_flash::{
    EncryptedOtaStorage, FlashError, FlashHardware, FlashRegion, MockFlash, PlainFlashStorage,
};

/// A routine that reads: the byte at an address is the address.
fn rom(addr: u32, _len: u32) -> (i32, [u8; 32]) {
    let mut bytes = [0u8; 32];
    for i in 0..32 {
        bytes[i] = (addr as usize + i) as u8;
    }
    (0, bytes)
}

#[test]
fn virtual_addresses() {
    assert_eq!(dbus_vaddr_for_flash(0x18000), Some(0x3C40_8000));
    assert_eq!(dbus_vaddr_for_flash(0x19FFF), Some(0x3C40_9FFF));
    assert_eq!(dbus_vaddr_for_flash(0x1A000), None);
    assert_eq!(dbus_vaddr_for_flash(0x20000), Some(0x3C41_0000));
    assert_eq!(dbus_vaddr_for_flash(0x18FFFF), Some(0x3C57_FFFF));
    assert_eq!(dbus_vaddr_for_flash(0x190000), Some(0x3C58_0000));
    assert_eq!(dbus_vaddr_for_flash(0x300000), None);
    assert_eq!(dbus_vaddr_for_flash(0), None);
}

#[test]
fn mappings_cover_the_addresses() {
    let mappings = ensure_mappings();
    for offset in [0x18000u32, 0x20000, 0x18FFFF, 0x190000, 0x2FFFFF] {
        let vaddr = dbus_vaddr_for_flash(offset).unwrap();
        assert!(mappings.iter().any(|(request, _)| {
            request.flash_offset <= offset
                && offset < request.flash_offset + request.num_pages * 0x10000
                && vaddr == request.vaddr + (offset - request.flash_offset)
        }));
    }
    let (request, stale) = map_flash_region(0x41, 0x20000, 23);
    assert_eq!(request.vaddr, 0x3C41_0000);
    assert_eq!((stale.vaddr, stale.size), (0x3C41_0000, 23 * 0x10000));
}

#[test]
fn regions_that_are_mapped() {
    assert!(is_mapped_region(0x18000, 0x2000));
    assert!(is_mapped_region(0x20000, 0x170000));
    assert!(is_mapped_region(0x18F000, 0x2000));
    assert!(is_mapped_region(0, 0));
    assert!(!is_mapped_region(0x10000, 0x2000));
    assert!(!is_mapped_region(0x18000, 0x2001));
    assert!(!is_mapped_region(0x2FF000, 0x2000));
    assert!(!is_mapped_region(0x18000, 0x10000));
    assert!(!is_mapped_region(0xFFFF_FFFF, 0xFFFF_FFFF));
}

#[test]
fn reads_drop_stale_pages() {
    match mapped_read(0x18010, 0x20) {
        ReadPath::Mapped(vaddr, stale) => {
            assert_eq!(vaddr, 0x3C40_8010);
            assert_eq!((stale.vaddr, stale.size), (0x3C40_0000, 0x10000));
        }
        ReadPath::Plain => panic!("this range is mapped"),
    }
    assert_eq!(mapped_read(0x9000, 4), ReadPath::Plain);
    assert_eq!(page_of(0x3C40_8010), 0x3C40_0000);
    let around = pages_around(0x3C40_FFFF, 2);
    assert_eq!((around.vaddr, around.size), (0x3C40_0000, 0x20000));
}

#[test]
fn bounds_of_flash() {
    assert_eq!(check_bounds(0x3FFFF0, 16), Ok(()));
    assert_eq!(check_bounds(0x3FFFF1, 16), Err(FlashStorageError::OutOfBounds));
    assert_eq!(check_bounds(u32::MAX, usize::MAX), Err(FlashStorageError::OutOfBounds));
}

#[test]
fn raw_reads_in_pieces() {
    let mut bytes = [0u8; 70];
    assert_eq!(plain_read(3, &mut bytes, rom), Ok(()));
    for i in 0..70 {
        assert_eq!(bytes[i], (3 + i) as u8);
    }
    assert_eq!(plain_read(0x400000, &mut bytes, rom), Err(FlashStorageError::OutOfBounds));
    let failing = |addr: u32, len: u32| (if addr > 3 { 5 } else { 0 }, rom(addr, len).1);
    assert_eq!(plain_read(3, &mut bytes, failing), Err(FlashStorageError::Other(5)));
    assert_eq!(read_via_rom(3, &mut bytes, failing), Err(FlashError::Hardware(5)));
}

#[test]
fn failed_raw_read_keeps_the_rest() {
    let mut bytes = [0xEEu8; 70];
    let failing = |addr: u32, len: u32| if addr < 0x140 { rom(addr, len) } else { (5, [0; 32]) };
    assert_eq!(read_via_rom(0x100, &mut bytes, failing), Err(FlashError::Hardware(5)));
    assert_eq!(bytes[..3], [0, 1, 2]);
    assert_eq!(bytes[63], 63);
    assert_eq!(bytes[64..], [0xEE; 6]);
}

#[test]
fn errors_of_the_storages() {
    assert_eq!(storage_error(FlashError::OutOfBounds), FlashStorageError::OutOfBounds);
    assert_eq!(storage_error(FlashError::NotAligned), FlashStorageError::NotAligned);
    assert_eq!(storage_error(FlashError::Locked), FlashStorageError::CantUnlock);
    assert_eq!(storage_error(FlashError::Hardware(3)), FlashStorageError::Other(3));
}

#[test]
fn codes_of_the_routines() {
    assert_eq!(check_code(0), Ok(()));
    assert_eq!(check_code(-2), Err(FlashError::Hardware(-2)));
    assert_eq!(check_unlock(0), Ok(()));
    assert_eq!(check_unlock(1), Err(FlashError::Locked));
    assert_eq!(check_write_plain(4, 8), Ok(()));
    assert_eq!(check_write_plain(2, 8), Err(FlashError::NotAligned));
    assert_eq!(check_write_encrypted(32, 64), Ok(()));
    assert_eq!(check_write_encrypted(32, 33), Err(FlashError::NotAligned));
}

#[test]
fn regions_of_the_chip() {
    let mut chip = Esp32C3::with_capacity(0x400000);
    assert_eq!(chip.capacity(), 0x400000);
    let unaligned = chip.map_decrypt_region(0x18000, 0x2000, |_| panic!("it is not aligned"));
    assert_eq!(unaligned.err(), Some(FlashError::NotAligned));
    let stale = chip.map_decrypt_region(0x10000, 0xA000, |request| {
        assert_eq!(
            (request.vaddr, request.flash_offset, request.num_pages),
            (0x3C40_0000, 0x10000, 1)
        );
        0
    });
    let stale = stale.unwrap().unwrap();
    assert_eq!((stale.vaddr, stale.size), (0x3C40_0000, 0x10000));
    assert!(chip.is_decrypt_mapped(0x18000));
    assert!(!chip.is_decrypt_mapped(0x1A000));
    assert_eq!(chip.vaddr_for(0x18004), Some(0x3C40_8004));
    // The same region again changes nothing.
    let again = chip.map_decrypt_region(0x10000, 0xA000, |_| panic!("it is mapped"));
    assert!(again.unwrap().is_none());
    let refused = chip.map_decrypt_region(0x20000, 0x10000, |_| 7);
    assert_eq!(refused.err(), Some(FlashError::Hardware(7)));
    assert_eq!(chip.plan_read_decrypted(0x20000, 4).err(), Some(FlashError::OutOfBounds));
    assert_eq!(chip.plan_read_decrypted(0x18004, 4).unwrap().0, 0x3C40_8004);
    assert_eq!(chip.finish_write_encrypted(0x18000, 9).err(), Some(FlashError::Hardware(9)));
    assert!(chip.finish_write_encrypted(0x18000, 0).unwrap().is_some());
    assert!(chip.finish_write_encrypted(0x20000, 0).unwrap().is_none());
    for i in 0..3u32 {
        let offset = 0x20000 + i * 0x10000;
        assert!(chip.map_decrypt_region(offset, 0x10000, |_| 0).is_ok());
        assert_eq!(chip.vaddr_for(offset), Some(0x3C41_0000 + i * 0x10000));
    }
    // There is room for four.
    let full = chip.map_decrypt_region(0x80000, 0x10000, |_| 0);
    assert_eq!(full.err(), Some(FlashError::OutOfBounds));
}

#[test]
fn regions_without_room() {
    let mut chip = Esp32C3::with_capacity(0x400000);
    assert!(chip.has_room_for(0x10000, 0x10000));
    assert!(!chip.has_room_for(0x10000, u32::MAX));
    assert!(!chip.has_room_for(0, 0xD000_0000));
    // What takes no page needs no room.
    assert!(chip.has_room_for(1, u32::MAX));
    let unaligned = chip.map_decrypt_region(1, u32::MAX, |_| panic!("it is not aligned"));
    assert_eq!(unaligned.err(), Some(FlashError::NotAligned));
    for i in 0..4u32 {
        assert!(chip.map_decrypt_region(i * 0x10000, 0x10000, |_| 0).is_ok());
    }
    assert!(chip.has_room_for(0x80000, u32::MAX));
    let full = chip.map_decrypt_region(0x80000, u32::MAX, |_| panic!("there is no place"));
    assert_eq!(full.err(), Some(FlashError::OutOfBounds));
    let again = chip.map_decrypt_region(0x20000, 0x10000, |_| panic!("it is mapped"));
    assert_eq!(again.unwrap(), None);
}

#[test]
fn last_write_stays() {
    let mut s = PlainFlashStorage::new(MockFlash::new(0x10000));
    s.write(0x100, b"first").unwrap();
    s.write(0x100, b"again").unwrap();
    let mut got = [0u8; 7];
    s.read(0xFF, &mut got).unwrap();
    assert_eq!(&got, b"\xFFagain\xFF");
}

#[test]
fn small_writes_merge_into_one_block() {
    let regions = [FlashRegion::new(0, 0x10000)];
    let mut pieces = EncryptedOtaStorage::new(MockFlash::new(0x10000), &regions).unwrap();
    let mut whole = EncryptedOtaStorage::new(MockFlash::new(0x10000), &regions).unwrap();
    let data: Vec<u8> = (0..100u8).collect();
    for (i, piece) in data.chunks(7).enumerate() {
        pieces.write(0x20 + 7 * i as u32, piece).unwrap();
    }
    whole.write(0x20, &data).unwrap();
    pieces.flush().unwrap();
    pieces.flush().unwrap();
    whole.flush().unwrap();
    let mut a = [0u8; 128];
    let mut b = [0u8; 128];
    pieces.read(0x20, &mut a).unwrap();
    whole.read(0x20, &mut b).unwrap();
    assert_eq!(a, b);
    assert_eq!(&a[..100], &data[..]);
}

#[test]
fn erased_region() {
    let mut s = EncryptedOtaStorage::new(MockFlash::new(0x10000), &[]).unwrap();
    s.hw_mut().unlock().unwrap();
    s.hw_mut().write_plain(0x1000, &[0; 8]).unwrap();
    s.erase_region(0x1004, 4).unwrap();
    let mut got = [0u8; 8];
    s.read(0x1000, &mut got).unwrap();
    assert_eq!(got, [0xFF; 8]);
    assert_eq!(s.capacity(), 0x10000);
}
