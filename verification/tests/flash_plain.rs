//! Raw storage.

use wifi_display::secure_flash::{FlashError, MockFlash, PlainFlashStorage};

fn make_storage() -> PlainFlashStorage<MockFlash> {
    PlainFlashStorage::new(MockFlash::new(0x100000)) // 1 MiB
}

#[test]
fn read_back_what_we_wrote() {
    let mut s = make_storage();
    let payload = b"hello world this is plaintext";
    s.write(0x10000, payload).unwrap();

    let mut got = [0u8; 29];
    s.read(0x10000, &mut got).unwrap();
    assert_eq!(&got, payload);
}

#[test]
fn write_preserves_other_bytes_in_sector() {
    let mut s = make_storage();
    // Write a marker at offset 0, then write something else mid-sector.
    s.write(0x0, b"START").unwrap();
    s.write(0x800, b"MIDDLE").unwrap();

    let mut got = [0u8; 5];
    s.read(0x0, &mut got).unwrap();
    assert_eq!(&got, b"START");

    let mut got = [0u8; 6];
    s.read(0x800, &mut got).unwrap();
    assert_eq!(&got, b"MIDDLE");
}

#[test]
fn write_spanning_sector_boundary() {
    let mut s = make_storage();
    // 4 bytes before sector boundary, 4 after — the write must update
    // both sectors via two read-modify-write cycles.
    let bytes = b"ABCDEFGH";
    s.write(0x1000 - 4, bytes).unwrap();

    let mut got = [0u8; 8];
    s.read(0x1000 - 4, &mut got).unwrap();
    assert_eq!(&got, bytes);
}

#[test]
fn read_past_capacity_errors() {
    let mut s = make_storage();
    let mut buf = [0u8; 16];
    // 0xFFFF8 + 16 = 0x100008, beyond the 1 MiB capacity.
    let res = s.read(0xFFFF8, &mut buf);
    assert_eq!(res, Err(FlashError::OutOfBounds));
}

#[test]
fn read_at_exact_capacity_boundary_succeeds() {
    // 0xFFFF0 + 16 = 0x100000 = exactly capacity — fits.
    let mut s = make_storage();
    let mut buf = [0u8; 16];
    s.read(0xFFFF0, &mut buf).unwrap();
}

#[test]
fn capacity_is_what_hw_reports() {
    let s = make_storage();
    assert_eq!(s.capacity(), 0x100000);
}
