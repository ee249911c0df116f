//! Storage for encrypted partitions.

use wifi_display::secure_flash::{
    EncryptedOtaStorage, FlashError, FlashHardware, FlashRegion, MockFlash,
};

const OTADATA_OFFSET: u32 = 0x18000;
const OTADATA_SIZE: u32 = 0x2000;
const OTA0_OFFSET: u32 = 0x20000;
const OTA0_SIZE: u32 = 0x10000;

fn make_storage() -> EncryptedOtaStorage<MockFlash> {
    let regions = [
        FlashRegion::new(OTADATA_OFFSET, OTADATA_SIZE),
        FlashRegion::new(OTA0_OFFSET, OTA0_SIZE),
    ];
    EncryptedOtaStorage::new(MockFlash::new(0x100000), &regions).unwrap()
}

#[test]
fn full_block_write_round_trip() {
    let mut s = make_storage();
    let plaintext = [0x42u8; 32];
    s.write(OTA0_OFFSET, &plaintext).unwrap();
    s.flush().unwrap();

    let mut got = [0u8; 32];
    s.read(OTA0_OFFSET, &mut got).unwrap();
    assert_eq!(got, plaintext, "decrypt of just-encrypted block must round-trip");
}

#[test]
fn plain_read_returns_ciphertext_not_plaintext() {
    // The OTA partition is encrypted on-write; a plain SPI read should
    // see something other than the plaintext we wrote.
    let mut s = make_storage();
    let plaintext = [0xAAu8; 32];
    s.write(OTA0_OFFSET, &plaintext).unwrap();
    s.flush().unwrap();

    let mut raw = [0u8; 32];
    // Address outside any mapped region routes to plain read.
    let unmapped_addr = OTA0_OFFSET + OTA0_SIZE; // beyond the mapped ota_0
    let _ = s.read(unmapped_addr, &mut raw); // just to hit plain path

    // Sanity: we can't directly inspect ciphertext for the encrypted
    // region without using hw_mut, but verify the decrypt path returns
    // plaintext (proves encryption was engaged).
    let mut decrypted = [0u8; 32];
    s.read(OTA0_OFFSET, &mut decrypted).unwrap();
    assert_eq!(decrypted, plaintext);

    // Now check: hw's plain read at the same flash offset must NOT match
    // plaintext (because it was written encrypted).
    let mut raw_at_ota0 = [0u8; 32];
    s.hw_mut().read_plain(OTA0_OFFSET, &mut raw_at_ota0).unwrap();
    assert_ne!(raw_at_ota0, plaintext, "raw flash must hold ciphertext");
}

#[test]
fn three_subblock_writes_to_same_block_coalesce() {
    // Simulates esp-hal-ota's `set_target_ota_boot_partition`: three
    // 4-byte writes into the same 32-byte otadata block at offsets
    // 0, 24, 28. The non-touched bytes (4..24) must come back as the
    // existing decrypted plaintext at the time of the first sub-block
    // write — that's what makes mark-valid preserve seq/label/crc.
    //
    // We don't pre-write a full block here; production-mark-valid runs
    // on a fresh storage instance (one per call), so its `current_sector`
    // tracker is empty and the destination sector gets erased on the
    // first sub-block write.
    let mut s = make_storage();

    // Capture what the decrypted view of the label area looks like
    // *before* any writes — this is what our partial-write read-modify
    // path is supposed to preserve verbatim.
    let mut original_label = [0u8; 20];
    s.read(OTADATA_OFFSET + 4, &mut original_label).unwrap();

    let new_seq: u32 = 7;
    let new_state: u32 = 1; // PendingVerify
    let new_crc: u32 = 0xDEADBEEF;
    s.write(OTADATA_OFFSET, &new_seq.to_le_bytes()).unwrap();
    s.write(OTADATA_OFFSET + 24, &new_state.to_le_bytes()).unwrap();
    s.write(OTADATA_OFFSET + 28, &new_crc.to_le_bytes()).unwrap();
    s.flush().unwrap();

    let mut got = [0u8; 32];
    s.read(OTADATA_OFFSET, &mut got).unwrap();

    assert_eq!(&got[0..4], &new_seq.to_le_bytes(), "seq should be updated");
    assert_eq!(&got[4..24], &original_label, "label should be preserved");
    assert_eq!(&got[24..28], &new_state.to_le_bytes(), "state should be updated");
    assert_eq!(&got[28..32], &new_crc.to_le_bytes(), "crc should be updated");
}

#[test]
fn mark_valid_pattern_on_freshly_minted_storage_preserves_other_fields() {
    // Tighter regression for the production mark-valid flow: write a
    // valid-looking otadata entry, drop the storage, recreate from the
    // same backing flash, then write *only* the state field — exactly
    // what `mark_valid` does. The seq, label, and crc bytes must come
    // back unchanged.

    let mut hw = MockFlash::new(0x100000);
    let regions = [
        FlashRegion::new(OTADATA_OFFSET, OTADATA_SIZE),
        FlashRegion::new(OTA0_OFFSET, OTA0_SIZE),
    ];
    for r in &regions {
        hw.map_decrypt_region(r.offset, r.size).unwrap();
    }
    hw.unlock().unwrap();
    // Hand-craft an "OTA library wrote a valid entry" state by writing
    // a full block via storage1.
    let mut block = [0u8; 32];
    block[0..4].copy_from_slice(&7u32.to_le_bytes());
    block[4..24].copy_from_slice(&[0xC1u8; 20]);
    block[24..28].copy_from_slice(&1u32.to_le_bytes()); // PendingVerify
    block[28..32].copy_from_slice(&0xDEADBEEFu32.to_le_bytes());

    let mut s1 = EncryptedOtaStorage::new(hw, &regions).unwrap();
    s1.write(OTADATA_OFFSET, &block).unwrap();
    s1.flush().unwrap();
    let hw = s1.into_hw();

    // Production: mark-valid runs on a freshly-constructed storage, so
    // `current_sector` is None and the destination sector gets erased on
    // the first sub-block write — exactly what we need for the encrypt-
    // write of the read-modified block to land cleanly.
    let mut s2 = EncryptedOtaStorage::new(hw, &regions).unwrap();
    let valid_state: u32 = 2;
    s2.write(OTADATA_OFFSET + 24, &valid_state.to_le_bytes()).unwrap();
    s2.flush().unwrap();

    let mut got = [0u8; 32];
    s2.read(OTADATA_OFFSET, &mut got).unwrap();

    assert_eq!(&got[0..4], &7u32.to_le_bytes(), "seq must be preserved");
    assert_eq!(&got[4..24], &[0xC1u8; 20], "label must be preserved");
    assert_eq!(&got[24..28], &valid_state.to_le_bytes(), "state must be updated");
    assert_eq!(
        &got[28..32],
        &0xDEADBEEFu32.to_le_bytes(),
        "crc must be preserved"
    );
}

#[test]
fn writing_to_other_otadata_slot_preserves_first() {
    // Critical for rollback: writing a new entry to slot 2 must NOT
    // disturb slot 1's contents.
    let mut s = make_storage();
    let slot1_addr = OTADATA_OFFSET;
    let slot2_addr = OTADATA_OFFSET + (OTADATA_SIZE >> 1);

    let slot1_data = [0xA5u8; 32];
    s.write(slot1_addr, &slot1_data).unwrap();
    s.flush().unwrap();

    let slot2_data = [0x5Au8; 32];
    s.write(slot2_addr, &slot2_data).unwrap();
    s.flush().unwrap();

    let mut got1 = [0u8; 32];
    s.read(slot1_addr, &mut got1).unwrap();
    assert_eq!(got1, slot1_data, "slot 1 must be untouched after slot 2 write");

    let mut got2 = [0u8; 32];
    s.read(slot2_addr, &mut got2).unwrap();
    assert_eq!(got2, slot2_data);
}

#[test]
fn sequential_chunks_across_sector_boundary() {
    // OTA chunks come in arbitrarily-sized pieces and can span sector
    // boundaries. Verify that two consecutive 2 KiB writes that together
    // fill a 4 KiB sector and start on a new one all land correctly.
    let mut s = make_storage();
    let chunk1 = [0x11u8; 2048];
    let chunk2 = [0x22u8; 2048];
    let chunk3 = [0x33u8; 2048]; // crosses into next sector

    s.write(OTA0_OFFSET, &chunk1).unwrap();
    s.write(OTA0_OFFSET + 2048, &chunk2).unwrap();
    s.write(OTA0_OFFSET + 4096, &chunk3).unwrap();
    s.flush().unwrap();

    let mut got = [0u8; 6144];
    s.read(OTA0_OFFSET, &mut got).unwrap();
    assert_eq!(&got[..2048], &chunk1);
    assert_eq!(&got[2048..4096], &chunk2);
    assert_eq!(&got[4096..], &chunk3);
}

#[test]
fn out_of_bounds_write_errors() {
    let mut s = make_storage();
    let buf = [0u8; 32];
    let res = s.write(0xFFFF0, &buf);
    assert_eq!(res, Err(FlashError::OutOfBounds));
}

#[test]
fn flush_with_no_pending_is_noop() {
    let mut s = make_storage();
    s.flush().unwrap();
    s.flush().unwrap();
}

#[test]
fn read_outside_mapped_region_uses_plain_path() {
    // Write something via plain path (write_plain on hw) at an unmapped
    // address, then read via the storage — should come back as the same
    // bytes (plain → plain round-trip).
    let mut s = make_storage();
    let scratch_addr = 0x2000; // not in any mapped region
    let scratch_data = b"plain bytes";
    s.hw_mut().unlock().unwrap();
    s.hw_mut().erase_sector(scratch_addr / 4096).unwrap();
    s.hw_mut().write_plain(scratch_addr, scratch_data).unwrap();

    let mut got = [0u8; 11];
    s.read(scratch_addr, &mut got).unwrap();
    assert_eq!(&got, scratch_data);
}
