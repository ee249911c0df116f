//! Flash storage helpers for chips with flash encryption, independent of the
//! chip.
//!
//! Two storage types live here, both generic over [`FlashHardware`]:
//!
//!  - [`PlainFlashStorage`] reads and writes raw bytes. It suits partitions
//!    that the bootloader never reads (settings, user data): reads and writes
//!    see the same bytes, so the encryption hardware is bypassed.
//!
//!  - [`EncryptedOtaStorage`] reads mapped regions through the chip's
//!    decrypting path and writes through its encrypting path. A one-block
//!    buffer merges small writes. The storage keeps track of what it erased
//!    and wrote, so that the destination is always `0xFF` before each
//!    encrypting write.
//!
//! [`MockFlash`] is a chip in memory.

use crate::text::append_decimal;
use vstd::prelude::*;
use vstd::string::*;

pub mod calls;
pub mod encrypted;
pub mod esp32c3;
pub mod mock;
pub mod model;
pub mod plain;
pub mod plan;

pub use encrypted::EncryptedOtaStorage;
pub use mock::MockFlash;
pub use plain::PlainFlashStorage;

verus! {

/// Errors returned by flash storage operations.
#[derive(Debug, Clone, Copy, PartialEq, Eq, Structural)]
pub enum FlashError {
    /// The requested range exceeds the flash capacity.
    OutOfBounds,
    /// Address or length is not aligned to a boundary the hardware requires.
    NotAligned,
    /// The chip was not unlocked for writes, or unlocking failed.
    Locked,
    /// The hardware reported an error; the number is its raw return code.
    Hardware(i32),
}

/// A return code in decimal.
pub open spec fn code_text(rc: int) -> Seq<char> {
    if rc < 0 {
        "-"@ + crate::text::decimal((-rc) as nat)
    } else {
        crate::text::decimal(rc as nat)
    }
}

impl FlashError {
    /// What went wrong, in words.
    pub fn message(&self) -> (r: String)
        ensures
            r@ == (match *self {
                FlashError::OutOfBounds => "out of bounds"@,
                FlashError::NotAligned => "not aligned"@,
                FlashError::Locked => "flash locked"@,
                FlashError::Hardware(rc) => "hardware error rc="@ + code_text(rc as int),
            }),
    {
        match *self {
            FlashError::OutOfBounds => "out of bounds".to_owned(),
            FlashError::NotAligned => "not aligned".to_owned(),
            FlashError::Locked => "flash locked".to_owned(),
            FlashError::Hardware(rc) => {
                let mut text: String = "hardware error rc=".to_owned();
                let n: i64 = rc as i64;
                if n < 0 {
                    text.append("-");
                    append_decimal(&mut text, (-n) as u64);
                } else {
                    append_decimal(&mut text, n as u64);
                }
                proof {
                    assert(text@ =~= "hardware error rc="@ + code_text(rc as int));
                }
                text
            },
        }
    }
}

/// A contiguous flash region whose bytes are to be read decrypted.
#[derive(Debug, Clone, Copy)]
pub struct FlashRegion {
    pub offset: u32,
    pub size: u32,
}

impl FlashRegion {
    pub fn new(offset: u32, size: u32) -> (r: Self)
        ensures
            r.offset == offset,
            r.size == size,
    {
        Self { offset, size }
    }

    /// The addresses of the region.
    pub open spec fn addresses(&self) -> Set<int> {
        span(self.offset as int, self.size as int)
    }
}

/// The `length` addresses from `offset` on.
pub open spec fn span(offset: int, length: int) -> Set<int> {
    Set::new(|a: int| offset <= a < offset + length)
}

/// `content` with `bytes` laid over it from `offset` on.
pub open spec fn splice<T>(content: Seq<T>, offset: int, bytes: Seq<T>) -> Seq<T> {
    Seq::new(
        content.len(),
        |a: int|
            if offset <= a < offset + bytes.len() {
                bytes[a - offset]
            } else {
                content[a]
            },
    )
}

/// Two contents agree outside the `length` bytes from `offset` on.
pub open spec fn agree_outside(before: Seq<u8>, after: Seq<u8>, offset: int, length: int) -> bool {
    &&& before.len() == after.len()
    &&& forall|a: int|
        0 <= a < before.len() && !(offset <= a < offset + length) ==> #[trigger] after[a]
            == before[a]
}

/// `n` is a power of two.
pub open spec fn is_power_of_two(n: u32) -> bool {
    n != 0 && n & ((n - 1) as u32) == 0
}

/// What is known of a flash chip at one moment.
///
/// A chip has two views of the same bytes: the raw one, and the one that the
/// decrypting read path shows.
pub struct FlashState {
    /// The chip carries out every call that it is specified to carry out.
    pub healthy: bool,
    /// Writing and erasing have been unlocked.
    pub writable: bool,
    /// Number of bytes on the chip.
    pub size: usize,
    /// Number of bytes that are erased together.
    pub sector: u32,
    /// Number of bytes that are encrypted together.
    pub block: u32,
    /// The bytes on flash.
    pub raw: Seq<u8>,
    /// The bytes that the decrypting read path shows.
    pub decrypted: Seq<u8>,
    /// The addresses that can be read decrypted.
    pub mapped: Set<int>,
}

impl FlashState {
    /// Same size, sectors, blocks and health.
    pub open spec fn same_geometry(self, before: FlashState) -> bool {
        &&& self.size == before.size
        &&& self.sector == before.sector
        &&& self.block == before.block
        &&& self.healthy == before.healthy
    }

    /// Nothing but the bytes may differ.
    pub open spec fn same_but_bytes(self, before: FlashState) -> bool {
        &&& self.same_geometry(before)
        &&& self.writable == before.writable
        &&& self.mapped == before.mapped
        &&& self.raw.len() == before.raw.len()
        &&& self.decrypted.len() == before.decrypted.len()
    }

    /// Both views agree outside the `length` bytes from `offset` on.
    pub open spec fn same_outside(self, before: FlashState, offset: int, length: int) -> bool {
        &&& agree_outside(before.raw, self.raw, offset, length)
        &&& agree_outside(before.decrypted, self.decrypted, offset, length)
    }

    /// Every byte of the `length` bytes from `offset` on is erased.
    pub open spec fn is_erased(self, offset: int, length: int) -> bool {
        forall|a: int| offset <= a < offset + length ==> #[trigger] self.raw[a] == 0xFFu8
    }

    /// The range lies on the chip, and all of it is mapped.
    pub open spec fn covers(self, offset: int, length: int) -> bool {
        &&& in_bounds(offset, length, self.size as int)
        &&& span(offset, length).subset_of(self.mapped)
    }

    /// The chip consists of whole sectors, and both of its views cover it.
    pub open spec fn whole_sectors(self) -> bool {
        &&& self.sector > 0
        &&& self.size as int % self.sector as int == 0
        &&& self.raw.len() == self.size
        &&& self.decrypted.len() == self.size
    }
}

/// What went wrong, if anything did.
pub open spec fn fault<T>(r: Result<T, FlashError>) -> Option<FlashError> {
    match r {
        Ok(_) => None,
        Err(e) => Some(e),
    }
}

/// A flash chip with optional encryption support.
///
/// All addresses are offsets into the chip.
///
/// A method promises what its `Ok` means. Whether a call succeeds is up to
/// the chip, except that a healthy one carries out every call that keeps to
/// its geometry. For each call the chip has a relation between its state
/// before, its state after and what went wrong, if anything did.
pub trait FlashHardware: Sized {
    /// The state of the chip. A verified chip overrides this: the state given
    /// here is the same for every chip, which no chip that can be written to
    /// lives up to.
    open spec fn view(&self) -> FlashState {
        arbitrary()
    }

    /// The chip is usable: its methods may be called.
    open spec fn valid(&self) -> bool {
        true
    }

    /// The chip has room to map these regions, each an offset and a size, one
    /// after the other.
    open spec fn can_map(&self, regions: Seq<(u32, u32)>) -> bool {
        false
    }

    /// What `read_plain` can do: `buf` is what the buffer holds before, `bytes`
    /// what it holds after.
    open spec fn reads_plain(
        before: Self,
        after: Self,
        offset: u32,
        buf: Seq<u8>,
        bytes: Seq<u8>,
        fault: Option<FlashError>,
    ) -> bool {
        true
    }

    /// What `read_decrypted` can do: `buf` is what the buffer holds before,
    /// `bytes` what it holds after.
    open spec fn reads_decrypted(
        before: Self,
        after: Self,
        flash_offset: u32,
        buf: Seq<u8>,
        bytes: Seq<u8>,
        fault: Option<FlashError>,
    ) -> bool {
        true
    }

    /// What `write_plain` can do.
    open spec fn writes_plain(
        before: Self,
        after: Self,
        offset: u32,
        data: Seq<u8>,
        fault: Option<FlashError>,
    ) -> bool {
        true
    }

    /// What `write_encrypted` can do.
    open spec fn writes_encrypted(
        before: Self,
        after: Self,
        offset: u32,
        data: Seq<u8>,
        fault: Option<FlashError>,
    ) -> bool {
        true
    }

    /// What `erase_sector` can do.
    open spec fn erases(
        before: Self,
        after: Self,
        sector_index: u32,
        fault: Option<FlashError>,
    ) -> bool {
        true
    }

    /// What `unlock` can do.
    open spec fn unlocks(before: Self, after: Self, fault: Option<FlashError>) -> bool {
        true
    }

    /// What `map_decrypt_region` can do.
    open spec fn maps(
        before: Self,
        after: Self,
        flash_offset: u32,
        size: u32,
        fault: Option<FlashError>,
    ) -> bool {
        true
    }

    /// Total flash capacity in bytes.
    fn capacity(&self) -> (r: usize)
        requires
            self.valid(),
        ensures
            r == self@.size,
    ;

    /// Sector size for erase.
    fn sector_size(&self) -> (r: u32)
        requires
            self.valid(),
        ensures
            r == self@.sector,
    ;

    /// Block size for encrypted writes.
    fn enc_block_size(&self) -> (r: u32)
        requires
            self.valid(),
        ensures
            r == self@.block,
    ;

    /// Raw read: ciphertext where the flash is encrypted.
    fn read_plain(&mut self, offset: u32, buf: &mut [u8]) -> (r: Result<(), FlashError>)
        requires
            old(self).valid(),
        ensures
            final(self).valid(),
            Self::reads_plain(*old(self), *final(self), offset, old(buf)@, final(buf)@, fault(r)),
            final(self)@ == old(self)@,
            final(buf)@.len() == old(buf)@.len(),
            in_bounds(offset as int, old(buf)@.len() as int, old(self)@.size as int) ==> {
                &&& r is Ok ==> final(buf)@ == old(self)@.raw.subrange(
                    offset as int,
                    offset + old(buf)@.len(),
                )
                &&& old(self)@.healthy ==> r is Ok
            },
    ;

    /// Raw write: the bytes go to flash literally. The caller erases the
    /// destination first.
    fn write_plain(&mut self, offset: u32, data: &[u8]) -> (r: Result<(), FlashError>)
        requires
            old(self).valid(),
        ensures
            final(self).valid(),
            Self::writes_plain(*old(self), *final(self), offset, data@, fault(r)),
            final(self)@.same_but_bytes(old(self)@),
            in_bounds(offset as int, data@.len() as int, old(self)@.size as int) ==> {
                &&& r is Ok ==> final(self)@.same_outside(
                    old(self)@,
                    offset as int,
                    data@.len() as int,
                )
                &&& r is Ok && old(self)@.is_erased(offset as int, data@.len() as int)
                    ==> final(self)@.raw == splice(old(self)@.raw, offset as int, data@)
                &&& old(self)@.healthy && old(self)@.writable && offset % 4 == 0 && data@.len() % 4
                    == 0 ==> r is Ok
            },
    ;

    /// Encrypting write: the chip encrypts `data` on the way to flash, so that
    /// a later decrypted read returns `data`, if the destination was erased.
    /// What lands on flash that was not erased is left open.
    ///
    /// `offset` and the length are multiples of the block size.
    fn write_encrypted(&mut self, offset: u32, data: &[u8]) -> (r: Result<(), FlashError>)
        requires
            old(self).valid(),
        ensures
            final(self).valid(),
            Self::writes_encrypted(*old(self), *final(self), offset, data@, fault(r)),
            final(self)@.same_but_bytes(old(self)@),
            in_bounds(offset as int, data@.len() as int, old(self)@.size as int) ==> {
                &&& r is Ok ==> final(self)@.same_outside(
                    old(self)@,
                    offset as int,
                    data@.len() as int,
                )
                &&& r is Ok && old(self)@.is_erased(offset as int, data@.len() as int)
                    ==> final(self)@.decrypted == splice(old(self)@.decrypted, offset as int, data@)
                &&& old(self)@.healthy && old(self)@.writable && offset as int
                    % old(self)@.block as int == 0 && data@.len() as int % old(self)@.block as int
                    == 0 ==> r is Ok
            },
    ;

    /// Erases one sector to `0xFF`.
    fn erase_sector(&mut self, sector_index: u32) -> (r: Result<(), FlashError>)
        requires
            old(self).valid(),
        ensures
            final(self).valid(),
            Self::erases(*old(self), *final(self), sector_index, fault(r)),
            final(self)@.same_but_bytes(old(self)@),
            (sector_index + 1) * old(self)@.sector <= old(self)@.size ==> {
                let start = sector_index * old(self)@.sector;
                &&& r is Ok ==> final(self)@.is_erased(start, old(self)@.sector as int)
                &&& r is Ok ==> final(self)@.same_outside(
                    old(self)@,
                    start,
                    old(self)@.sector as int,
                )
                &&& old(self)@.healthy && old(self)@.writable ==> r is Ok
            },
    ;

    /// Unlocks the chip for writing and erasing.
    fn unlock(&mut self) -> (r: Result<(), FlashError>)
        requires
            old(self).valid(),
        ensures
            final(self).valid(),
            Self::unlocks(*old(self), *final(self), fault(r)),
            final(self)@ == (FlashState { writable: final(self)@.writable, ..old(self)@ }),
            r is Ok ==> final(self)@.writable,
            old(self)@.healthy ==> r is Ok,
    ;

    /// Maps a region so that it can be read decrypted. Mapping the same region
    /// again changes nothing.
    fn map_decrypt_region(&mut self, flash_offset: u32, size: u32) -> (r: Result<(), FlashError>)
        requires
            old(self).valid(),
        ensures
            final(self).valid(),
            Self::maps(*old(self), *final(self), flash_offset, size, fault(r)),
            final(self)@ == (FlashState { mapped: final(self)@.mapped, ..old(self)@ }),
            r is Ok ==> final(self)@.mapped == old(self)@.mapped.union(
                span(flash_offset as int, size as int),
            ),
            forall|rest: Seq<(u32, u32)>|
                old(self)@.healthy && #[trigger] old(self).can_map(
                    seq![(flash_offset, size)] + rest,
                ) ==> r is Ok && final(self).can_map(rest),
    ;

    /// Whether an address lies in a mapped region.
    fn is_decrypt_mapped(&self, flash_offset: u32) -> (r: bool)
        requires
            self.valid(),
        ensures
            r == self@.mapped.contains(flash_offset as int),
    ;

    /// Reads decrypted bytes from a mapped region. Where the region ends
    /// before the range does, what is read past its end is left open.
    fn read_decrypted(&mut self, flash_offset: u32, buf: &mut [u8]) -> (r: Result<(), FlashError>)
        requires
            old(self).valid(),
        ensures
            final(self).valid(),
            Self::reads_decrypted(
                *old(self),
                *final(self),
                flash_offset,
                old(buf)@,
                final(buf)@,
                fault(r),
            ),
            final(self)@ == old(self)@,
            final(buf)@.len() == old(buf)@.len(),
            !old(self)@.mapped.contains(flash_offset as int) ==> r == Err::<(), FlashError>(
                FlashError::OutOfBounds,
            ),
            old(self)@.mapped.contains(flash_offset as int) && old(self)@.covers(
                flash_offset as int,
                old(buf)@.len() as int,
            ) ==> {
                &&& r is Ok ==> final(buf)@ == old(self)@.decrypted.subrange(
                    flash_offset as int,
                    flash_offset + old(buf)@.len(),
                )
                &&& old(self)@.healthy ==> r is Ok
            },
    ;
}

/// The range from `offset` of `length` bytes lies on a chip of `capacity`
/// bytes.
pub open spec fn in_bounds(offset: int, length: int, capacity: int) -> bool {
    offset + length <= capacity
}

/// Refuses a range that does not lie on the chip.
pub fn check_bounds(offset: u32, length: usize, capacity: usize) -> (r: Result<(), FlashError>)
    ensures
        r == (if in_bounds(offset as int, length as int, capacity as int) {
            Ok::<(), FlashError>(())
        } else {
            Err(FlashError::OutOfBounds)
        }),
{
    let off: usize = offset as usize;
    if length > capacity || off > capacity - length {
        return Err(FlashError::OutOfBounds);
    }
    Ok(())
}

/// Rounding down by a mask is rounding down to a multiple, for the small
/// powers of two that sectors and blocks have.
pub proof fn lemma_mask(a: u32, n: u32)
    requires
        is_power_of_two(n),
        n <= 4096,
    ensures
        a & !((n - 1) as u32) == a - a % n,
{
    let m: u32 = (n - 1) as u32;
    assert(n == 1 || n == 2 || n == 4 || n == 8 || n == 16 || n == 32 || n == 64 || n == 128 || n
        == 256 || n == 512 || n == 1024 || n == 2048 || n == 4096) by (bit_vector)
        requires
            n & m == 0,
            m == n - 1,
            1 <= n <= 4096,
    ;
    assert(a & !m == a - a % n) by (bit_vector)
        requires
            n == 1 || n == 2 || n == 4 || n == 8 || n == 16 || n == 32 || n == 64 || n == 128 || n
                == 256 || n == 512 || n == 1024 || n == 2048 || n == 4096,
            m == n - 1,
    ;
}

/// What a mask cuts off is less than the power of two, whatever `n` is.
pub proof fn lemma_mask_cuts_little(a: u32, n: u32)
    requires
        n > 0,
    ensures
        a & !((n - 1) as u32) <= a,
        a - (a & !((n - 1) as u32)) < n,
{
    let m: u32 = (n - 1) as u32;
    assert(a & !m <= a && a - (a & !m) <= m) by (bit_vector);
}

/// A range is refused exactly when it does not end on the chip.
pub proof fn law_bounds(offset: u32, length: usize, capacity: usize, r: Result<(), FlashError>)
    requires
        call_ensures(check_bounds, (offset, length, capacity), r),
    ensures
        r is Ok <==> offset + length <= capacity,
        r matches Err(e) ==> e == FlashError::OutOfBounds,
{
}

/// The words for an error: those of its kind, and, for an error of the hardware,
/// its code in decimal, with a sign where it is negative.
pub proof fn law_error_message(error: &FlashError, r: String)
    requires
        call_ensures(FlashError::message, (error,), r),
    ensures
        match *error {
            FlashError::OutOfBounds => r@ == "out of bounds"@,
            FlashError::NotAligned => r@ == "not aligned"@,
            FlashError::Locked => r@ == "flash locked"@,
            FlashError::Hardware(rc) => exists|sign: Seq<char>, digits: Seq<char>|
                #![trigger sign.len(), digits.len()]
                r@ == "hardware error rc="@ + sign + digits && digits.len() > 0 && (if rc < 0 {
                    sign == "-"@ && crate::ota::url::decimal_value(digits) == -rc
                } else {
                    sign.len() == 0 && crate::ota::url::decimal_value(digits) == rc
                }),
        },
{
    if let FlashError::Hardware(rc) = *error {
        let n: nat = if rc < 0 {
            (-rc) as nat
        } else {
            rc as nat
        };
        let sign: Seq<char> = if rc < 0 {
            "-"@
        } else {
            Seq::empty()
        };
        let digits = crate::text::decimal(n);
        crate::text::law_decimal_read_back(n);
        assert(r@ =~= "hardware error rc="@ + sign + digits);
        assert(sign.len() >= 0 && digits.len() > 0);
    }
}

/// A region has the place and the size that it was made with, and its addresses
/// are the ones from its place on.
pub proof fn law_region(offset: u32, size: u32, r: FlashRegion, a: int)
    requires
        call_ensures(FlashRegion::new, (offset, size), r),
    ensures
        r.addresses().contains(a) <==> offset <= a < offset + size,
{
}

} // verus!
