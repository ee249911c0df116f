//! A flash chip in memory.
//!
//! It behaves like a chip with flash encryption:
//!
//!   - Raw reads return the bytes on flash, ciphertext after an encrypting
//!     write.
//!   - Decrypted reads return what the encrypting write was given.
//!   - Erasing resets the raw bytes to `0xFF` and the decrypted view to a
//!     pattern that is not `0xFF`.
//!   - An encrypting write onto flash that was not erased spoils the bytes.
//!
//! The cipher is an exclusive or with `0xA5` and the low byte of the address.

use super::{FlashError, FlashHardware, FlashState};
use vstd::prelude::*;

verus! {

/// The low byte of an address.
pub open spec fn low_byte(addr: int) -> u8 {
    (addr % 256) as u8
}

/// The ciphertext of a byte at an address; also the byte that the decrypting
/// path shows for a ciphertext.
pub open spec fn cipher(addr: int, byte: u8) -> u8 {
    byte ^ 0xA5 ^ low_byte(addr)
}

/// The byte that the decrypting path shows for erased flash.
pub open spec fn erased_pattern(addr: int) -> u8 {
    !low_byte(addr) ^ 0x55
}

fn fake_cipher(addr: usize, byte: u8) -> (r: u8)
    ensures
        r == cipher(addr as int, byte),
{
    byte ^ 0xA5 ^ ((addr % 256) as u8)
}

fn erased_decrypted(addr: usize) -> (r: u8)
    ensures
        r == erased_pattern(addr as int),
{
    !((addr % 256) as u8) ^ 0x55
}

/// A region that can be read decrypted.
#[derive(Clone, Copy)]
pub struct Mapping {
    pub offset: u32,
    pub size: u32,
}

/// A flash chip in memory.
pub struct MockFlash {
    capacity: usize,
    sector_size: u32,
    enc_block_size: u32,
    /// The bytes on flash.
    raw: Vec<u8>,
    /// What decrypted reads see.
    decrypted: Vec<u8>,
    /// The mapped regions, none of them twice.
    mappings: Vec<Mapping>,
    locked: bool,
}

/// The addresses that lie in one of the regions.
pub open spec fn mapped_addresses(mappings: Seq<Mapping>) -> Set<int> {
    Set::new(
        |a: int|
            exists|i: int|
                0 <= i < mappings.len() && (#[trigger] mappings[i]).offset <= a < mappings[i].offset
                    + mappings[i].size,
    )
}

impl MockFlash {
    /// The bytes of a chip that has just been erased from end to end.
    pub open spec fn is_fresh(&self) -> bool {
        &&& forall|a: int| 0 <= a < self@.size ==> #[trigger] self@.raw[a] == 0xFFu8
        &&& forall|a: int|
            0 <= a < self@.size ==> #[trigger] self@.decrypted[a] == erased_pattern(a)
    }

    /// The mapped regions, in the order in which they were mapped.
    pub closed spec fn regions(&self) -> Seq<Mapping> {
        self.mappings@
    }

    /// The mapped regions, in the order in which they were mapped.
    pub fn mappings(&self) -> (r: &Vec<Mapping>)
        ensures
            r@ == self.regions(),
    {
        &self.mappings
    }

    /// An erased, locked chip without mappings.
    pub fn new(capacity: usize) -> (r: Self)
        ensures
            r.valid(),
            r.is_fresh(),
            r@.size == capacity,
            r@.sector == 4096,
            r@.block == 32,
            r@.raw.len() == capacity,
            r@.decrypted.len() == capacity,
            r@.mapped == Set::<int>::empty(),
            r@.healthy,
            !r@.writable,
            r.regions().len() == 0,
    {
        let mut raw: Vec<u8> = Vec::new();
        let mut decrypted: Vec<u8> = Vec::new();
        let mut addr: usize = 0;
        while addr < capacity
            invariant
                addr <= capacity,
                raw@.len() == addr,
                decrypted@.len() == addr,
                forall|a: int| 0 <= a < addr ==> #[trigger] raw@[a] == 0xFFu8,
                forall|a: int| 0 <= a < addr ==> #[trigger] decrypted@[a] == erased_pattern(a),
            decreases capacity - addr,
        {
            raw.push(0xFF);
            decrypted.push(erased_decrypted(addr));
            addr += 1;
        }
        let mappings: Vec<Mapping> = Vec::new();
        proof {
            assert(mapped_addresses(mappings@) =~= Set::<int>::empty());
        }
        Self {
            capacity,
            sector_size: 4096,
            enc_block_size: 32,
            raw,
            decrypted,
            mappings,
            locked: true,
        }
    }

    /// Sets the sector size, 4096 unless this is called.
    pub fn with_sector_size(self, sector_size: u32) -> (r: Self)
        requires
            self.valid(),
            sector_size > 0,
        ensures
            r.valid(),
            r.regions() == self.regions(),
            r@ == (FlashState { sector: sector_size, ..self@ }),
    {
        Self { sector_size, ..self }
    }

    /// Sets the size of the blocks that are encrypted together, 32 unless this
    /// is called.
    pub fn with_enc_block_size(self, block: u32) -> (r: Self)
        requires
            self.valid(),
            block > 0,
        ensures
            r.valid(),
            r.regions() == self.regions(),
            r@ == (FlashState { block, ..self@ }),
    {
        Self { enc_block_size: block, ..self }
    }

    /// Position of a mapping of exactly this region.
    fn has_mapping(&self, flash_offset: u32, size: u32) -> (r: bool)
        ensures
            r == exists|i: int|
                0 <= i < self.mappings@.len() && (#[trigger] self.mappings@[i]).offset
                    == flash_offset && self.mappings@[i].size == size,
    {
        let mut i: usize = 0;
        while i < self.mappings.len()
            invariant
                i <= self.mappings@.len(),
                forall|j: int|
                    0 <= j < i ==> !((#[trigger] self.mappings@[j]).offset == flash_offset
                        && self.mappings@[j].size == size),
            decreases self.mappings@.len() - i,
        {
            if self.mappings[i].offset == flash_offset && self.mappings[i].size == size {
                return true;
            }
            i += 1;
        }
        false
    }
}

impl Default for MockFlash {
    /// An erased chip of 4 MiB.
    fn default() -> (r: Self)
        ensures
            r.valid(),
            r.is_fresh(),
            r@.size == 0x40_0000,
            r@.sector == 4096,
            r@.block == 32,
            r@.raw.len() == 0x40_0000,
            r@.decrypted.len() == 0x40_0000,
            r@.mapped == Set::<int>::empty(),
            r@.healthy,
            !r@.writable,
    {
        Self::new(4 * 1024 * 1024)
    }
}

impl FlashHardware for MockFlash {
    closed spec fn view(&self) -> FlashState {
        FlashState {
            healthy: true,
            writable: !self.locked,
            size: self.capacity,
            sector: self.sector_size,
            block: self.enc_block_size,
            raw: self.raw@,
            decrypted: self.decrypted@,
            mapped: mapped_addresses(self.mappings@),
        }
    }

    closed spec fn valid(&self) -> bool {
        &&& self.raw@.len() == self.capacity
        &&& self.decrypted@.len() == self.capacity
        &&& self.sector_size > 0
        &&& self.enc_block_size > 0
    }

    open spec fn can_map(&self, regions: Seq<(u32, u32)>) -> bool {
        forall|i: int|
            0 <= i < regions.len() ==> (#[trigger] regions[i]).0 + regions[i].1 <= self@.size
    }

    open spec fn reads_plain(
        before: Self,
        after: Self,
        offset: u32,
        buf: Seq<u8>,
        bytes: Seq<u8>,
        fault: Option<FlashError>,
    ) -> bool {
        &&& fault == (if super::in_bounds(offset as int, buf.len() as int, before@.size as int) {
            None
        } else {
            Some(FlashError::OutOfBounds)
        })
        &&& fault is Some ==> bytes == buf
    }

    open spec fn reads_decrypted(
        before: Self,
        after: Self,
        flash_offset: u32,
        buf: Seq<u8>,
        bytes: Seq<u8>,
        fault: Option<FlashError>,
    ) -> bool {
        &&& fault == (if before@.mapped.contains(flash_offset as int) && super::in_bounds(
            flash_offset as int,
            buf.len() as int,
            before@.size as int,
        ) {
            None
        } else {
            Some(FlashError::OutOfBounds)
        })
        &&& fault is Some ==> bytes == buf
    }

    open spec fn writes_plain(
        before: Self,
        after: Self,
        offset: u32,
        data: Seq<u8>,
        fault: Option<FlashError>,
    ) -> bool {
        &&& fault == (if !before@.writable {
            Some(FlashError::Locked)
        } else if !super::in_bounds(offset as int, data.len() as int, before@.size as int) {
            Some(FlashError::OutOfBounds)
        } else {
            None
        })
        &&& fault is Some ==> after == before
    }

    open spec fn writes_encrypted(
        before: Self,
        after: Self,
        offset: u32,
        data: Seq<u8>,
        fault: Option<FlashError>,
    ) -> bool {
        &&& fault == (if !before@.writable {
            Some(FlashError::Locked)
        } else if offset as int % before@.block as int != 0 || data.len() as int
            % before@.block as int != 0 {
            Some(FlashError::NotAligned)
        } else if !super::in_bounds(offset as int, data.len() as int, before@.size as int) {
            Some(FlashError::OutOfBounds)
        } else {
            None
        })
        &&& fault is Some ==> after == before
    }

    open spec fn erases(
        before: Self,
        after: Self,
        sector_index: u32,
        fault: Option<FlashError>,
    ) -> bool {
        &&& fault == (if !before@.writable {
            Some(FlashError::Locked)
        } else if (sector_index + 1) * before@.sector > before@.size {
            Some(FlashError::OutOfBounds)
        } else {
            None
        })
        &&& fault is Some ==> after == before
    }

    open spec fn unlocks(before: Self, after: Self, fault: Option<FlashError>) -> bool {
        fault is None
    }

    open spec fn maps(
        before: Self,
        after: Self,
        flash_offset: u32,
        size: u32,
        fault: Option<FlashError>,
    ) -> bool {
        &&& fault == (if super::in_bounds(flash_offset as int, size as int, before@.size as int) {
            None
        } else {
            Some(FlashError::OutOfBounds)
        })
        &&& fault is Some ==> after == before
    }

    fn capacity(&self) -> usize {
        self.capacity
    }

    fn sector_size(&self) -> u32 {
        self.sector_size
    }

    fn enc_block_size(&self) -> u32 {
        self.enc_block_size
    }

    fn read_plain(&mut self, offset: u32, buf: &mut [u8]) -> (r: Result<(), FlashError>)
        ensures
            r == (if super::in_bounds(
                offset as int,
                old(buf)@.len() as int,
                old(self)@.size as int,
            ) {
                Ok::<(), FlashError>(())
            } else {
                Err(FlashError::OutOfBounds)
            }),
            r is Err ==> final(buf)@ == old(buf)@,
            final(self).regions() == old(self).regions(),
    {
        super::check_bounds(offset, buf.len(), self.capacity)?;
        let off: usize = offset as usize;
        let mut i: usize = 0;
        while i < buf.len()
            invariant
                self.valid(),
                *self == *old(self),
                buf@.len() == old(buf)@.len(),
                off + buf@.len() <= self.capacity,
                i <= buf@.len(),
                forall|j: int| 0 <= j < i ==> #[trigger] buf@[j] == self.raw@[off + j],
            decreases buf@.len() - i,
        {
            buf[i] = self.raw[off + i];
            i += 1;
        }
        Ok(())
    }

    fn write_plain(&mut self, offset: u32, data: &[u8]) -> (r: Result<(), FlashError>)
        ensures
            r == (if !old(self)@.writable {
                Err::<(), FlashError>(FlashError::Locked)
            } else if !super::in_bounds(offset as int, data@.len() as int, old(self)@.size as int) {
                Err(FlashError::OutOfBounds)
            } else {
                Ok(())
            }),
            final(self).regions() == old(self).regions(),
            r is Err ==> *final(self) == *old(self),
            r is Ok ==> final(self)@.raw == super::splice(old(self)@.raw, offset as int, data@),
            r is Ok ==> forall|a: int|
                offset <= a < offset + data@.len() ==> #[trigger] final(self)@.decrypted[a]
                    == cipher(a, data@[a - offset]),
    {
        if self.locked {
            return Err(FlashError::Locked);
        }
        super::check_bounds(offset, data.len(), self.capacity)?;
        let off: usize = offset as usize;
        let mut i: usize = 0;
        while i < data.len()
            invariant
                self.valid(),
                self@.same_but_bytes(old(self)@),
                self.mappings == old(self).mappings,
                off + data@.len() <= self.capacity,
                self.raw@.len() == old(self).raw@.len(),
                i <= data@.len(),
                forall|a: int|
                    0 <= a < self.raw@.len() ==> #[trigger] self.raw@[a] == (if off <= a < off + i {
                        data@[a - off]
                    } else {
                        old(self).raw@[a]
                    }),
                forall|a: int|
                    0 <= a < self.decrypted@.len() ==> #[trigger] self.decrypted@[a] == (if off <= a
                        < off + i {
                        cipher(a, data@[a - off])
                    } else {
                        old(self).decrypted@[a]
                    }),
            decreases data@.len() - i,
        {
            let addr: usize = off + i;
            self.raw[addr] = data[i];
            // The decrypting path turns bytes that were not encrypted into garbage.
            self.decrypted[addr] = fake_cipher(addr, data[i]);
            i += 1;
        }
        proof {
            assert(self.raw@ =~= super::splice(old(self).raw@, off as int, data@));
        }
        Ok(())
    }

    fn write_encrypted(&mut self, offset: u32, data: &[u8]) -> (r: Result<(), FlashError>)
        ensures
            r == (if !old(self)@.writable {
                Err::<(), FlashError>(FlashError::Locked)
            } else if offset as int % old(self)@.block as int != 0 || data@.len() as int
                % old(self)@.block as int != 0 {
                Err(FlashError::NotAligned)
            } else if !super::in_bounds(offset as int, data@.len() as int, old(self)@.size as int) {
                Err(FlashError::OutOfBounds)
            } else {
                Ok(())
            }),
            final(self).regions() == old(self).regions(),
            r is Err ==> *final(self) == *old(self),
            r is Ok ==> forall|a: int|
                offset <= a < offset + data@.len() ==> (#[trigger] final(self)@.raw[a]) == (if old(
                    self,
                )@.raw[a] == 0xFF {
                    cipher(a, data@[a - offset])
                } else {
                    old(self)@.raw[a] & cipher(a, data@[a - offset])
                }),
            r is Ok ==> forall|a: int|
                offset <= a < offset + data@.len() ==> (#[trigger] final(self)@.decrypted[a]) == (
                if old(self)@.raw[a] == 0xFF {
                    data@[a - offset]
                } else {
                    cipher(a, final(self)@.raw[a])
                }),
    {
        if self.locked {
            return Err(FlashError::Locked);
        }
        if offset % self.enc_block_size != 0 {
            return Err(FlashError::NotAligned);
        }
        if data.len() % (self.enc_block_size as usize) != 0 {
            return Err(FlashError::NotAligned);
        }
        super::check_bounds(offset, data.len(), self.capacity)?;
        let off: usize = offset as usize;
        let mut i: usize = 0;
        while i < data.len()
            invariant
                self.valid(),
                self@.same_but_bytes(old(self)@),
                self.mappings == old(self).mappings,
                off + data@.len() <= self.capacity,
                self.raw@.len() == old(self).raw@.len(),
                i <= data@.len(),
                forall|a: int|
                    0 <= a < self.raw@.len() ==> #[trigger] self.raw@[a] == (if off <= a < off + i {
                        if old(self).raw@[a] == 0xFF {
                            cipher(a, data@[a - off])
                        } else {
                            old(self).raw@[a] & cipher(a, data@[a - off])
                        }
                    } else {
                        old(self).raw@[a]
                    }),
                forall|a: int|
                    0 <= a < self.decrypted@.len() ==> #[trigger] self.decrypted@[a] == (if off <= a
                        < off + i {
                        if old(self).raw@[a] == 0xFF {
                            data@[a - off]
                        } else {
                            cipher(a, self.raw@[a])
                        }
                    } else {
                        old(self).decrypted@[a]
                    }),
            decreases data@.len() - i,
        {
            let addr: usize = off + i;
            let plain: u8 = data[i];
            let coded: u8 = fake_cipher(addr, plain);
            if self.raw[addr] == 0xFF {
                self.raw[addr] = coded;
                self.decrypted[addr] = plain;
            } else {
                // Bits that are 0 stay 0 until the next erase.
                let stuck: u8 = self.raw[addr] & coded;
                self.raw[addr] = stuck;
                self.decrypted[addr] = fake_cipher(addr, stuck);
            }
            i += 1;
        }
        proof {
            if old(self)@.is_erased(off as int, data@.len() as int) {
                assert(self.decrypted@ =~= super::splice(old(self).decrypted@, off as int, data@)) by {
                    assert forall|a: int| 0 <= a < self.decrypted@.len() implies self.decrypted@[a]
                        == super::splice(old(self).decrypted@, off as int, data@)[a] by {
                        assert(off <= a < off + data@.len() ==> old(self)@.raw[a] == 0xFF);
                    }
                }
            }
        }
        Ok(())
    }

    fn erase_sector(&mut self, sector_index: u32) -> (r: Result<(), FlashError>)
        ensures
            r == (if !old(self)@.writable {
                Err::<(), FlashError>(FlashError::Locked)
            } else if (sector_index + 1) * old(self)@.sector > old(self)@.size {
                Err(FlashError::OutOfBounds)
            } else {
                Ok(())
            }),
            final(self).regions() == old(self).regions(),
            r is Err ==> *final(self) == *old(self),
            r is Ok ==> forall|a: int|
                sector_index * old(self)@.sector <= a < (sector_index + 1) * old(self)@.sector
                    ==> #[trigger] final(self)@.decrypted[a] == erased_pattern(a),
    {
        if self.locked {
            return Err(FlashError::Locked);
        }
        let first: u64 = sector_index as u64;
        let step: u64 = self.sector_size as u64;
        proof {
            assert(0 <= first * step <= 0xFFFF_FFFF * 0xFFFF_FFFF) by (nonlinear_arith)
                requires
                    0 <= first <= 0xFFFF_FFFF,
                    0 <= step <= 0xFFFF_FFFF,
            ;
            assert((sector_index + 1) * step == first * step + step) by (nonlinear_arith)
                requires
                    first == sector_index,
            ;
        }
        let begin: u64 = first * step;
        let stop: u64 = begin + step;
        if stop > self.capacity as u64 {
            return Err(FlashError::OutOfBounds);
        }
        let end: usize = stop as usize;
        let mut addr: usize = begin as usize;
        while addr < end
            invariant
                self.valid(),
                self@.same_but_bytes(old(self)@),
                self.mappings == old(self).mappings,
                begin <= addr <= end <= self.capacity,
                self.raw@.len() == old(self).raw@.len(),
                forall|a: int|
                    0 <= a < self.raw@.len() ==> #[trigger] self.raw@[a] == (if begin <= a < addr {
                        0xFFu8
                    } else {
                        old(self).raw@[a]
                    }),
                forall|a: int|
                    0 <= a < self.decrypted@.len() ==> #[trigger] self.decrypted@[a] == (if begin
                        <= a < addr {
                        erased_pattern(a)
                    } else {
                        old(self).decrypted@[a]
                    }),
            decreases end - addr,
        {
            self.raw[addr] = 0xFF;
            self.decrypted[addr] = erased_decrypted(addr);
            addr += 1;
        }
        Ok(())
    }

    fn unlock(&mut self) -> (r: Result<(), FlashError>)
        ensures
            r is Ok,
            final(self).regions() == old(self).regions(),
    {
        self.locked = false;
        Ok(())
    }

    fn map_decrypt_region(&mut self, flash_offset: u32, size: u32) -> (r: Result<(), FlashError>)
        ensures
            r == (if super::in_bounds(flash_offset as int, size as int, old(self)@.size as int) {
                Ok::<(), FlashError>(())
            } else {
                Err(FlashError::OutOfBounds)
            }),
            r is Err ==> *final(self) == *old(self),
            r is Ok ==> final(self).regions() == (if exists|i: int|
                0 <= i < old(self).regions().len() && (#[trigger] old(self).regions()[i]).offset
                    == flash_offset && old(self).regions()[i].size == size {
                old(self).regions()
            } else {
                old(self).regions().push(Mapping { offset: flash_offset, size })
            }),
    {
        proof {
            assert forall|rest: Seq<(u32, u32)>|
                #[trigger] self.can_map(seq![(flash_offset, size)] + rest) implies flash_offset + size
                <= self@.size && self.can_map(rest) by {
                let all = seq![(flash_offset, size)] + rest;
                assert(all[0] == (flash_offset, size));
                assert forall|i: int| 0 <= i < rest.len() implies (#[trigger] rest[i]).0 + rest[i].1
                    <= self@.size by {
                    assert(all[i + 1] == rest[i]);
                }
            }
        }
        if flash_offset as u64 + size as u64 > self.capacity as u64 {
            return Err(FlashError::OutOfBounds);
        }
        if !self.has_mapping(flash_offset, size) {
            self.mappings.push(Mapping { offset: flash_offset, size });
        }
        proof {
            let before = old(self).mappings@;
            let after = self.mappings@;
            let added = super::span(flash_offset as int, size as int);
            assert(mapped_addresses(after) =~= mapped_addresses(before).union(added)) by {
                assert forall|a: int| #[trigger] mapped_addresses(before).contains(a) implies mapped_addresses(
                    after,
                ).contains(a) by {
                    let i = choose|i: int|
                        0 <= i < before.len() && (#[trigger] before[i]).offset <= a < before[i].offset
                            + before[i].size;
                    assert(after[i] == before[i]);
                }
                assert forall|a: int| #[trigger] added.contains(a) implies mapped_addresses(
                    after,
                ).contains(a) by {
                    let i = choose|i: int|
                        0 <= i < after.len() && (#[trigger] after[i]).offset == flash_offset
                            && after[i].size == size;
                    if before.len() == after.len() {
                        assert(after[i].offset <= a < after[i].offset + after[i].size);
                    } else {
                        assert(after[before.len() as int].offset == flash_offset);
                    }
                }
                assert forall|a: int| #[trigger] mapped_addresses(after).contains(a)
                    implies mapped_addresses(before).contains(a) || added.contains(a) by {
                    let i = choose|i: int|
                        0 <= i < after.len() && (#[trigger] after[i]).offset <= a < after[i].offset
                            + after[i].size;
                    if i < before.len() {
                        assert(before[i] == after[i]);
                    }
                }
            }
        }
        Ok(())
    }

    fn is_decrypt_mapped(&self, flash_offset: u32) -> bool {
        let mut i: usize = 0;
        while i < self.mappings.len()
            invariant
                i <= self.mappings@.len(),
                forall|j: int|
                    0 <= j < i ==> !((#[trigger] self.mappings@[j]).offset <= flash_offset
                        < self.mappings@[j].offset + self.mappings@[j].size),
            decreases self.mappings@.len() - i,
        {
            let m: Mapping = self.mappings[i];
            if flash_offset >= m.offset && flash_offset - m.offset < m.size {
                return true;
            }
            i += 1;
        }
        false
    }

    fn read_decrypted(&mut self, flash_offset: u32, buf: &mut [u8]) -> (r: Result<(), FlashError>)
        ensures
            r == (if old(self)@.mapped.contains(flash_offset as int) && super::in_bounds(
                flash_offset as int,
                old(buf)@.len() as int,
                old(self)@.size as int,
            ) {
                Ok::<(), FlashError>(())
            } else {
                Err(FlashError::OutOfBounds)
            }),
            r is Err ==> final(buf)@ == old(buf)@,
            r is Ok ==> final(buf)@ == old(self)@.decrypted.subrange(
                flash_offset as int,
                flash_offset + old(buf)@.len(),
            ),
            final(self).regions() == old(self).regions(),
    {
        if !self.is_decrypt_mapped(flash_offset) {
            return Err(FlashError::OutOfBounds);
        }
        super::check_bounds(flash_offset, buf.len(), self.capacity)?;
        let off: usize = flash_offset as usize;
        let mut i: usize = 0;
        while i < buf.len()
            invariant
                self.valid(),
                *self == *old(self),
                buf@.len() == old(buf)@.len(),
                off + buf@.len() <= self.capacity,
                i <= buf@.len(),
                forall|j: int| 0 <= j < i ==> #[trigger] buf@[j] == self.decrypted@[off + j],
            decreases buf@.len() - i,
        {
            buf[i] = self.decrypted[off + i];
            i += 1;
        }
        Ok(())
    }
}

/// The cipher undoes itself, takes different bytes to different bytes, and takes
/// `0xA5` to the low byte of the address. Erased flash shows the low byte of the
/// address with every other bit turned.
pub proof fn law_cipher(addr: int, byte: u8, other: u8)
    ensures
        cipher(addr, cipher(addr, byte)) == byte,
        cipher(addr, byte) == cipher(addr, other) ==> byte == other,
        cipher(addr, 0xA5) == (addr % 256) as u8,
        erased_pattern(addr) == (addr % 256) as u8 ^ 0xAAu8,
{
    let low = low_byte(addr);
    assert(byte ^ 0xA5 ^ low ^ 0xA5 ^ low == byte) by (bit_vector);
    assert(byte ^ 0xA5 ^ low == other ^ 0xA5 ^ low ==> byte == other) by (bit_vector);
    assert(0xA5u8 ^ 0xA5u8 ^ low == low) by (bit_vector);
    assert(!low ^ 0x55u8 == low ^ 0xAAu8) by (bit_vector);
}

/// A new chip is erased and locked, has no mapping, and has the sizes that it
/// was made with.
pub proof fn law_new_chip(
    capacity: usize,
    chip: MockFlash,
    usual: MockFlash,
    sector: u32,
    with_sector: MockFlash,
    block: u32,
    with_block: MockFlash,
    mappings: &Vec<Mapping>,
)
    requires
        call_ensures(MockFlash::new, (capacity,), chip),
        call_ensures(<MockFlash as Default>::default, (), usual),
        call_ensures(MockFlash::with_sector_size, (chip, sector), with_sector),
        call_ensures(MockFlash::with_enc_block_size, (with_sector, block), with_block),
        call_ensures(MockFlash::mappings, (&with_block,), mappings),
    ensures
        chip@.size == capacity && chip@.sector == 4096 && chip@.block == 32,
        usual@.size == 4 * 1024 * 1024 && usual@.sector == 4096 && usual@.block == 32,
        !chip@.writable && !usual@.writable,
        forall|a: int| !chip@.mapped.contains(a),
        forall|a: int| 0 <= a < capacity ==> #[trigger] chip@.raw[a] == 0xFF,
        with_block@.size == capacity && with_block@.sector == sector && with_block@.block == block,
        with_block@.raw == chip@.raw && with_block@.decrypted == chip@.decrypted,
        !with_block@.writable,
        mappings@.len() == 0,
{
}

/// A chip that is locked takes no write and no erase; once it is unlocked, it
/// takes those that lie on it, encrypting ones in whole blocks. What is refused
/// changes nothing.
pub proof fn law_refusals(
    plain: &mut MockFlash,
    encrypted: &mut MockFlash,
    erased: &mut MockFlash,
    unlocked: &mut MockFlash,
    offset: u32,
    data: &[u8],
    sector: u32,
    p: Result<(), FlashError>,
    e: Result<(), FlashError>,
    s: Result<(), FlashError>,
    u: Result<(), FlashError>,
)
    requires
        call_ensures(<MockFlash as FlashHardware>::write_plain, (plain, offset, data), p),
        call_ensures(<MockFlash as FlashHardware>::write_encrypted, (encrypted, offset, data), e),
        call_ensures(<MockFlash as FlashHardware>::erase_sector, (erased, sector), s),
        call_ensures(<MockFlash as FlashHardware>::unlock, (unlocked,), u),
    ensures
        u is Ok && final(unlocked)@.writable && final(unlocked)@.raw == old(unlocked)@.raw,
        !old(plain)@.writable <==> p == Err::<(), FlashError>(FlashError::Locked),
        !old(encrypted)@.writable <==> e == Err::<(), FlashError>(FlashError::Locked),
        !old(erased)@.writable <==> s == Err::<(), FlashError>(FlashError::Locked),
        p is Ok ==> offset + data@.len() <= old(plain)@.size,
        old(plain)@.writable && offset + data@.len() <= old(plain)@.size ==> p is Ok,
        e is Ok ==> offset + data@.len() <= old(encrypted)@.size && offset as int % old(
            encrypted,
        )@.block as int == 0 && data@.len() as int % old(encrypted)@.block as int == 0,
        old(encrypted)@.writable && offset + data@.len() <= old(encrypted)@.size && offset as int
            % old(encrypted)@.block as int == 0 && data@.len() as int % old(
            encrypted,
        )@.block as int == 0 ==> e is Ok,
        s is Ok <==> old(erased)@.writable && (sector + 1) * old(erased)@.sector <= old(
            erased,
        )@.size,
        p is Err ==> *final(plain) == *old(plain),
        e is Err ==> *final(encrypted) == *old(encrypted),
        s is Err ==> *final(erased) == *old(erased),
        s is Ok ==> forall|a: int|
            sector * old(erased)@.sector <= a < (sector + 1) * old(erased)@.sector
                ==> #[trigger] final(erased)@.raw[a] == 0xFF,
{
    let step = old(erased)@.sector;
    assert((sector + 1) * step == sector * step + step) by (nonlinear_arith);
}

/// A raw read returns the bytes on flash, a decrypted one those that were
/// encrypted; both are refused past the end, and the decrypted one outside the
/// mapped regions.
pub proof fn law_reads(
    raw: &mut MockFlash,
    decrypted: &mut MockFlash,
    mapped: &mut MockFlash,
    offset: u32,
    size: u32,
    x: &mut [u8],
    y: &mut [u8],
    p: Result<(), FlashError>,
    d: Result<(), FlashError>,
    m: Result<(), FlashError>,
)
    requires
        call_ensures(<MockFlash as FlashHardware>::read_plain, (raw, offset, x), p),
        call_ensures(<MockFlash as FlashHardware>::read_decrypted, (decrypted, offset, y), d),
        call_ensures(<MockFlash as FlashHardware>::map_decrypt_region, (mapped, offset, size), m),
    ensures
        p is Ok <==> offset + old(x)@.len() <= old(raw)@.size,
        p is Ok ==> final(x)@ == old(raw)@.raw.subrange(offset as int, offset + old(x)@.len()),
        p is Err ==> final(x)@ == old(x)@,
        d is Ok <==> old(decrypted)@.mapped.contains(offset as int) && offset + old(y)@.len()
            <= old(decrypted)@.size,
        d is Err ==> final(y)@ == old(y)@,
        m is Ok <==> offset + size <= old(mapped)@.size,
        m is Ok ==> forall|a: int| #[trigger]
            final(mapped)@.mapped.contains(a) <==> old(mapped)@.mapped.contains(a) || offset <= a
                < offset + size,
        m is Err ==> *final(mapped) == *old(mapped),
        p matches Err(e) ==> e == FlashError::OutOfBounds,
        d matches Err(e) ==> e == FlashError::OutOfBounds,
        m matches Err(e) ==> e == FlashError::OutOfBounds,
{
}

} // verus!
