//! What the storages ask of a chip, and what they do when it fails.

use wifi_display::secure_flash::{
    EncryptedOtaStorage, FlashError, FlashHardware, FlashRegion, MockFlash, PlainFlashStorage,
};

/// A chip that keeps a list of what it is asked for, and fails from the call
/// with the number `fails_at` on.
struct Recorder {
    chip: MockFlash,
    calls: Vec<String>,
    fails_at: usize,
}

impl Recorder {
    fn new(fails_at: usize) -> Self {
        Self { chip: MockFlash::new(0x10000), calls: Vec::new(), fails_at }
    }

    fn note(&mut self, call: String) -> Result<(), FlashError> {
        let number = self.calls.len();
        self.calls.push(call);
        if number >= self.fails_at {
            return Err(FlashError::Hardware(number as i32));
        }
        Ok(())
    }
}

impl FlashHardware for Recorder {
    fn capacity(&self) -> usize {
        self.chip.capacity()
    }

    fn sector_size(&self) -> u32 {
        self.chip.sector_size()
    }

    fn enc_block_size(&self) -> u32 {
        self.chip.enc_block_size()
    }

    fn read_plain(&mut self, offset: u32, buf: &mut [u8]) -> Result<(), FlashError> {
        self.note(format!("read {:#x}+{}", offset, buf.len()))?;
        self.chip.read_plain(offset, buf)
    }

    fn write_plain(&mut self, offset: u32, data: &[u8]) -> Result<(), FlashError> {
        self.note(format!("write {:#x}+{}", offset, data.len()))?;
        self.chip.write_plain(offset, data)
    }

    fn write_encrypted(&mut self, offset: u32, data: &[u8]) -> Result<(), FlashError> {
        self.note(format!("encrypt {:#x}+{}", offset, data.len()))?;
        let mut raw = vec![0u8; data.len()];
        self.chip.read_plain(offset, &mut raw)?;
        assert!(raw.iter().all(|b| *b == 0xFF), "{:#x} is not erased", offset);
        self.chip.write_encrypted(offset, data)
    }

    fn erase_sector(&mut self, sector_index: u32) -> Result<(), FlashError> {
        self.note(format!("erase {}", sector_index))?;
        self.chip.erase_sector(sector_index)
    }

    fn unlock(&mut self) -> Result<(), FlashError> {
        self.note("unlock".to_string())?;
        self.chip.unlock()
    }

    fn map_decrypt_region(&mut self, flash_offset: u32, size: u32) -> Result<(), FlashError> {
        self.note(format!("map {:#x}+{}", flash_offset, size))?;
        self.chip.map_decrypt_region(flash_offset, size)
    }

    fn is_decrypt_mapped(&self, flash_offset: u32) -> bool {
        self.chip.is_decrypt_mapped(flash_offset)
    }

    fn read_decrypted(&mut self, flash_offset: u32, buf: &mut [u8]) -> Result<(), FlashError> {
        self.note(format!("decrypt {:#x}+{}", flash_offset, buf.len()))?;
        self.chip.read_decrypted(flash_offset, buf)
    }
}

fn storage(fails_at: usize) -> Result<EncryptedOtaStorage<Recorder>, FlashError> {
    let regions = [FlashRegion::new(0, 0x4000), FlashRegion::new(0x4000, 0x4000)];
    EncryptedOtaStorage::new(Recorder::new(fails_at), &regions)
}

/// The calls since the last look.
fn calls(s: &mut EncryptedOtaStorage<Recorder>) -> Vec<String> {
    core::mem::take(&mut s.hw_mut().calls)
}

#[test]
fn regions_are_mapped_up_to_the_first_failure() {
    let mut s = storage(usize::MAX).unwrap();
    assert_eq!(calls(&mut s), ["map 0x0+16384", "map 0x4000+16384"]);
    s.flush().unwrap();
    assert!(calls(&mut s).is_empty());
    assert_eq!(storage(0).err(), Some(FlashError::Hardware(0)));
    assert_eq!(storage(1).err(), Some(FlashError::Hardware(1)));
}

#[test]
fn erase_stops_at_the_first_failure() {
    let mut s = storage(usize::MAX).unwrap();
    calls(&mut s);
    s.erase_region(0x1800, 0x1000).unwrap();
    assert_eq!(calls(&mut s), ["unlock", "erase 1", "erase 2"]);
    s.erase_region(0x1000, 0x1000).unwrap();
    assert_eq!(calls(&mut s), ["erase 1"]);
    s.hw_mut().fails_at = 1;
    assert_eq!(s.erase_region(0x1000, 0x3000), Err(FlashError::Hardware(1)));
    assert_eq!(calls(&mut s), ["erase 1", "erase 2"]);
}

#[test]
fn read_hands_on_what_the_chip_returns() {
    let mut s = storage(usize::MAX).unwrap();
    calls(&mut s);
    let mut buf = [7u8; 4];
    s.read(0x7FFE, &mut buf).unwrap();
    s.read(0x8000, &mut buf).unwrap();
    assert_eq!(s.read(0xFFFE, &mut buf), Err(FlashError::OutOfBounds));
    assert_eq!(calls(&mut s), ["decrypt 0x7ffe+4", "read 0x8000+4"]);
    s.hw_mut().fails_at = 0;
    assert_eq!(s.read(0x100, &mut buf), Err(FlashError::Hardware(0)));
    let mut plain = PlainFlashStorage::new(Recorder::new(0));
    assert_eq!(plain.read(0x100, &mut buf), Err(FlashError::Hardware(0)));
}

#[test]
fn flush_writes_the_block_once() {
    let mut s = storage(usize::MAX).unwrap();
    calls(&mut s);
    s.write(0x1004, b"abc").unwrap();
    s.write(0x1001, b"xyz").unwrap();
    assert_eq!(calls(&mut s), ["unlock", "decrypt 0x1000+32"]);
    s.flush().unwrap();
    assert_eq!(calls(&mut s), ["erase 1", "encrypt 0x1000+32"]);
    s.flush().unwrap();
    assert!(calls(&mut s).is_empty());
    // The next block lies in the sector that has just been erased.
    s.write(0x1020, &[9u8; 32]).unwrap();
    assert_eq!(calls(&mut s), ["encrypt 0x1020+32"]);
    let mut got = [0u8; 6];
    s.read(0x1001, &mut got).unwrap();
    assert_eq!(&got, b"xyzabc");
    s.hw_mut().fails_at = 2;
    calls(&mut s);
    assert_eq!(s.write(0x2000, &[1u8; 64]), Err(FlashError::Hardware(2)));
    assert_eq!(calls(&mut s), ["erase 2", "encrypt 0x2000+32", "encrypt 0x2020+32"]);
}

#[test]
fn block_that_is_written_again_lands_on_erased_flash() {
    let mut s = storage(usize::MAX).unwrap();
    s.write(0x3F80, &[1u8; 128]).unwrap();
    s.write(0x3000, &[2u8; 32]).unwrap();
    calls(&mut s);
    // Blocks of the current sector are saved and written back.
    s.write(0x3FA5, b"again").unwrap();
    s.flush().unwrap();
    assert_eq!(
        calls(&mut s),
        [
            "decrypt 0x3fa0+32",
            "decrypt 0x3f80+32",
            "decrypt 0x3fc0+32",
            "decrypt 0x3fe0+32",
            "decrypt 0x3000+32",
            "erase 3",
            "encrypt 0x3f80+32",
            "encrypt 0x3fc0+32",
            "encrypt 0x3fe0+32",
            "encrypt 0x3000+32",
            "encrypt 0x3fa0+32",
        ]
    );
    let mut got = [0u8; 128];
    s.read(0x3F80, &mut got).unwrap();
    let mut wanted = [1u8; 128];
    wanted[0x25..0x2A].copy_from_slice(b"again");
    assert_eq!(got, wanted);
    let mut got = [0u8; 32];
    s.read(0x3000, &mut got).unwrap();
    assert_eq!(got, [2u8; 32]);
    // A block that has not been written yet needs no erase.
    s.write(0x3020, &[3u8; 32]).unwrap();
    s.hw_mut().fails_at = 0;
    s.write(0x3021, b"x").unwrap_err();
    assert_eq!(s.flush(), Ok(()));
}

#[test]
fn unmapped_blocks_keep_their_raw_bytes() {
    let mut s = storage(usize::MAX).unwrap();
    s.write(0x9000, &[1u8; 64]).unwrap();
    let mut before = [0u8; 32];
    s.read(0x9020, &mut before).unwrap();
    s.write(0x9000, &[2u8; 32]).unwrap();
    let mut after = [0u8; 32];
    s.read(0x9020, &mut after).unwrap();
    assert_eq!(after, before);
    assert_ne!(after, [0xFFu8; 32]);
    // An erase forgets what was written there.
    s.erase_region(0x9000, 0x1000).unwrap();
    calls(&mut s);
    s.write(0x9000, &[3u8; 32]).unwrap();
    assert_eq!(calls(&mut s), ["encrypt 0x9000+32"]);
}

#[test]
fn other_sectors_keep_their_raw_bytes() {
    let mut s = storage(usize::MAX).unwrap();
    s.write(0x1000, &[4u8; 64]).unwrap();
    let mut before = [0u8; 64];
    s.hw_mut().read_plain(0x1000, &mut before).unwrap();
    s.write(0x2FF0, &[5u8; 40]).unwrap();
    s.flush().unwrap();
    let mut after = [0u8; 64];
    s.hw_mut().read_plain(0x1000, &mut after).unwrap();
    assert_eq!(after, before);
    let mut got = [0u8; 40];
    s.read(0x2FF0, &mut got).unwrap();
    assert_eq!(got, [5u8; 40]);
}

#[test]
fn image_in_pieces_is_read_back() {
    let image: Vec<u8> = (0..0x1234usize).map(|i| (i * 7 % 251) as u8).collect();
    for step in [1usize, 31, 32, 33, 4096, 5000] {
        let mut s = storage(usize::MAX).unwrap();
        let mut offset = 0x1000;
        for piece in image.chunks(step) {
            s.write(offset, piece).unwrap();
            offset += piece.len() as u32;
        }
        let full = image.len() / 32 * 32;
        let mut got = vec![0u8; image.len()];
        s.read(0x1000, &mut got[..full]).unwrap();
        assert_eq!(got[..full], image[..full]);
        s.flush().unwrap();
        s.read(0x1000, &mut got).unwrap();
        assert_eq!(got, image);
    }
}

#[test]
fn raw_write_touches_its_sectors_alone() {
    let mut s = PlainFlashStorage::new(Recorder::new(usize::MAX));
    s.write(0x1FFF, b"ab").unwrap();
    assert_eq!(
        core::mem::take(&mut s.hw_mut().calls),
        [
            "unlock",
            "read 0x1000+4096",
            "erase 1",
            "write 0x1000+4096",
            "read 0x2000+4096",
            "erase 2",
            "write 0x2000+4096",
        ]
    );
    s.hw_mut().fails_at = 1;
    assert_eq!(s.write(0x5000, b"ab"), Err(FlashError::Hardware(1)));
    assert_eq!(s.hw_mut().calls, ["read 0x5000+4096", "erase 5"]);
    let mut locked = PlainFlashStorage::new(Recorder::new(0));
    assert_eq!(locked.write(0, b"ab"), Err(FlashError::Hardware(0)));
    assert_eq!(locked.write(0x10000, b"ab"), Err(FlashError::OutOfBounds));
    assert_eq!(locked.hw_mut().calls, ["unlock"]);
}
