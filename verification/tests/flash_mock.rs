//! The chip in memory.

use wifi_display::secure_flash::{FlashError, FlashHardware, MockFlash};

#[test]
fn fresh_chip_reads_0xff_plain_and_pattern_decrypted() {
    let mut hw = MockFlash::new(0x1000);
    hw.map_decrypt_region(0, 0x1000).unwrap();

    let mut plain = [0u8; 4];
    hw.read_plain(0, &mut plain).unwrap();
    assert_eq!(plain, [0xFF, 0xFF, 0xFF, 0xFF]);

    let mut decr = [0u8; 4];
    hw.read_decrypted(0, &mut decr).unwrap();
    // Not 0xFF — matches what real hardware shows for erased encrypted flash.
    assert_ne!(decr, [0xFF, 0xFF, 0xFF, 0xFF]);
}

#[test]
fn encrypted_write_round_trips_after_erase() {
    let mut hw = MockFlash::new(0x10000);
    hw.unlock().unwrap();
    hw.map_decrypt_region(0, 0x10000).unwrap();
    hw.erase_sector(0).unwrap();

    let plaintext = [0x42u8; 32];
    hw.write_encrypted(0, &plaintext).unwrap();

    let mut decr = [0u8; 32];
    hw.read_decrypted(0, &mut decr).unwrap();
    assert_eq!(decr, plaintext);

    let mut raw = [0u8; 32];
    hw.read_plain(0, &mut raw).unwrap();
    assert_ne!(raw, plaintext, "raw must hold ciphertext, not plaintext");
}

#[test]
fn encrypted_write_without_erase_corrupts() {
    let mut hw = MockFlash::new(0x10000);
    hw.unlock().unwrap();
    hw.map_decrypt_region(0, 0x10000).unwrap();
    hw.erase_sector(0).unwrap();

    // First encrypted write succeeds (sector was just erased).
    let first = [0x11u8; 32];
    hw.write_encrypted(0, &first).unwrap();

    // Second encrypted write to the SAME address without erase — the
    // mock simulates the real-hardware failure: bits stick where they
    // were 0, decrypted view drifts away from `second`.
    let second = [0x22u8; 32];
    hw.write_encrypted(0, &second).unwrap();

    let mut decr = [0u8; 32];
    hw.read_decrypted(0, &mut decr).unwrap();
    assert_ne!(
        decr, second,
        "writing without erase must NOT round-trip — that's why erase tracking exists"
    );
}

#[test]
fn locked_flash_rejects_writes() {
    let mut hw = MockFlash::new(0x1000);
    // Did NOT call unlock.
    let res = hw.write_plain(0, &[0u8; 4]);
    assert_eq!(res, Err(FlashError::Locked));
}

#[test]
fn unaligned_encrypted_write_errors() {
    let mut hw = MockFlash::new(0x1000);
    hw.unlock().unwrap();
    let res = hw.write_encrypted(1, &[0u8; 32]);
    assert_eq!(res, Err(FlashError::NotAligned));
    let res = hw.write_encrypted(0, &[0u8; 30]);
    assert_eq!(res, Err(FlashError::NotAligned));
}

#[test]
fn read_decrypted_fails_outside_mapped_region() {
    let mut hw = MockFlash::new(0x10000);
    hw.map_decrypt_region(0x1000, 0x1000).unwrap();
    let mut buf = [0u8; 4];
    // Address inside the mapping — fine.
    hw.read_decrypted(0x1000, &mut buf).unwrap();
    // Address outside — error.
    let res = hw.read_decrypted(0x500, &mut buf);
    assert_eq!(res, Err(FlashError::OutOfBounds));
}

#[test]
fn map_region_is_idempotent() {
    let mut hw = MockFlash::new(0x10000);
    hw.map_decrypt_region(0, 0x1000).unwrap();
    hw.map_decrypt_region(0, 0x1000).unwrap();
    hw.map_decrypt_region(0, 0x1000).unwrap();
    assert_eq!(hw.mappings().len(), 1);
}
