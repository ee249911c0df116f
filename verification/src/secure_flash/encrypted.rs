//! [`EncryptedOtaStorage`]: storage for firmware slots and boot data on a chip
//! with flash encryption. Reads in mapped regions are decrypted, writes are
//! encrypted. Writes smaller than a block are merged in a one-block buffer.
//!
//! An encrypting write needs erased flash, and flash is erased by the sector.
//! So a sector is erased when the storage goes on to it, and when a block of
//! it is written a second time. In the second case the other blocks that were
//! written there are saved first and written back.

use super::calls::{
    all_keep_to, answers, follows, lemma_follows_idle, lemma_follows_on, lemma_follows_push,
    lemma_follows_weaken, lemma_follows_works, lemma_runs_push, lemma_works_idle, lemma_works_on,
    lemma_works_push, runs, sectors_between, step_of, steps_of, works_in, Call, Step,
};
use super::model::OtaModel;
use super::plan::{
    lemma_head, lemma_prefix_in_sum, lemma_prefix_of_prefix, lemma_prefix_of_sum,
    lemma_restored_prefix, lemma_saved_prefix, lemma_write_prefix, Track,
};
use super::{fault, FlashError, FlashHardware, FlashRegion, FlashState};
use vstd::prelude::*;

verus! {

/// Largest encryption block that is buffered.
pub const MAX_ENC_BLOCK_SIZE: usize = 32;

/// A block staged for an encrypting write.
///
/// The chip encrypts whole blocks, but callers often write a block in several
/// pieces. The pieces are gathered in `data` and written when the block is
/// full, when the caller goes on to another block, or on a flush.
pub struct PendingBlock {
    pub addr: u32,
    pub data: [u8; MAX_ENC_BLOCK_SIZE],
}

/// A block that is saved while its sector is erased.
struct SavedBlock {
    addr: u32,
    /// The block was read decrypted.
    mapped: bool,
    data: [u8; MAX_ENC_BLOCK_SIZE],
}

/// Encryption-aware storage.
pub struct EncryptedOtaStorage<H: FlashHardware> {
    hw: H,
    unlocked: bool,
    pending: Option<PendingBlock>,
    /// The sector whose blocks are being written. A write that targets another
    /// sector erases that one first.
    current_sector: Option<u32>,
    /// The blocks of that sector that have been written since it was erased.
    written: Vec<u32>,
}

/// `addr` is one of the first `n` of the addresses.
pub open spec fn among(list: Seq<u32>, n: int, addr: int) -> bool {
    exists|i: int| 0 <= i < n && #[trigger] list[i] == addr
}

/// Whether `addr` is one of the addresses.
fn holds(list: &Vec<u32>, addr: u32) -> (r: bool)
    ensures
        r == among(list@, list@.len() as int, addr as int),
{
    let mut i: usize = 0;
    while i < list.len()
        invariant
            i <= list@.len(),
            !among(list@, i as int, addr as int),
        decreases list@.len() - i,
    {
        if list[i] == addr {
            assert(list@[i as int] == addr);
            return true;
        }
        i += 1;
    }
    false
}

/// The chip has whole sectors, made of whole blocks of a size that is a power
/// of two and fits the buffer.
pub open spec fn regular(state: FlashState) -> bool {
    &&& state.whole_sectors()
    &&& super::is_power_of_two(state.block)
    &&& state.block <= MAX_ENC_BLOCK_SIZE
    &&& state.sector as int % state.block as int == 0
}

/// Every mapped block is mapped whole.
pub open spec fn maps_whole_blocks(state: FlashState) -> bool {
    forall|a: int|
        a % state.block as int == 0 && #[trigger] state.mapped.contains(a) ==> state.covers(
            a,
            state.block as int,
        )
}

/// Written blocks can be saved and written back: each mapped block is mapped
/// whole, and the raw bytes of a block that is not mapped can be written.
pub open spec fn saves_blocks(state: FlashState) -> bool {
    &&& maps_whole_blocks(state)
    &&& state.block % 4 == 0 || forall|a: int|
        0 <= a < state.size ==> #[trigger] state.mapped.contains(a)
}

/// The calls that map regions.
pub open spec fn map_calls(regions: Seq<FlashRegion>) -> Seq<Call> {
    regions.map_values(|r: FlashRegion| Call::MapRegion { offset: r.offset, size: r.size })
}

/// The calls that erase `count` sectors from `first` on, after an unlock where
/// that is needed.
pub open spec fn erase_calls(unlocked: bool, first: u32, count: int) -> Seq<Call> {
    let erases = Seq::new(count as nat, |i: int| Call::Erase { sector: (first + i) as u32 });
    if unlocked {
        erases
    } else {
        seq![Call::Unlock] + erases
    }
}

/// The offsets and sizes of regions.
pub open spec fn offsets_and_sizes(regions: Seq<FlashRegion>) -> Seq<(u32, u32)> {
    regions.map_values(|r: FlashRegion| (r.offset, r.size))
}

/// The addresses of regions.
pub open spec fn all_addresses(regions: Seq<FlashRegion>) -> Set<int> {
    Set::new(
        |a: int|
            exists|i: int| 0 <= i < regions.len() && (#[trigger] regions[i]).addresses().contains(a),
    )
}

impl<H: FlashHardware> EncryptedOtaStorage<H> {
    /// The chip.
    pub closed spec fn hw(&self) -> H {
        self.hw
    }

    /// The storage has unlocked the chip.
    pub closed spec fn unlocked(&self) -> bool {
        self.unlocked
    }

    /// The block that is staged.
    pub closed spec fn pending(&self) -> Option<PendingBlock> {
        self.pending
    }

    /// The sector whose blocks are being written.
    pub closed spec fn current_sector(&self) -> Option<u32> {
        self.current_sector
    }

    /// The blocks of that sector that have been written since it was erased.
    pub closed spec fn written(&self) -> Seq<u32> {
        self.written@
    }

    /// What the storage keeps in mind, and what it knows of the chip.
    pub open spec fn track(&self) -> Track {
        Track {
            block: self.hw()@.block,
            sector: self.hw()@.sector,
            mapped: self.hw()@.mapped,
            staged: match self.pending() {
                Some(p) => Some(p.addr),
                None => None,
            },
            current: self.current_sector(),
            written: self.written(),
        }
    }

    /// The calls of a write.
    pub open spec fn write_steps(&self, offset: int, length: int) -> Seq<Step> {
        if self.unlocked() {
            self.track().write_steps(offset, length)
        } else {
            seq![Step::Unlock] + self.track().write_steps(offset, length)
        }
    }

    /// The block at `addr` of the current sector has been written.
    pub open spec fn has_block(&self, addr: int) -> bool {
        among(self.written(), self.written().len() as int, addr)
    }

    /// The staged block and the blocks that have been written lie on block
    /// boundaries, and the rest of the current sector is erased. This is so of
    /// a new storage, and writes and flushes keep it so.
    pub open spec fn tidy(&self) -> bool {
        let state = self.hw()@;
        &&& self.pending() matches Some(p) ==> {
            &&& p.addr as int % state.block as int == 0
            &&& p.addr + state.block <= state.size
        }
        &&& self.current_sector() matches Some(s) ==> {
            &&& (s + 1) * state.sector <= state.size
            &&& self.written().no_duplicates()
            &&& forall|i: int|
                0 <= i < self.written().len() ==> {
                    &&& (#[trigger] self.written()[i]) as int % state.block as int == 0
                    &&& s * state.sector <= self.written()[i]
                    &&& self.written()[i] + state.block <= (s + 1) * state.sector
                }
            &&& forall|a: int|
                s * state.sector <= a < (s + 1) * state.sector && !self.has_block(
                    a - a % state.block as int,
                ) ==> #[trigger] state.raw[a] == 0xFFu8
        }
    }

    /// The chip has whole sectors of whole blocks, and the storage is tidy.
    /// Each encrypting write then lands on erased bytes.
    pub open spec fn clean(&self) -> bool {
        regular(self.hw()@) && self.tidy()
    }

    /// Nothing is staged, and if `length` bytes from `offset` on begin in the
    /// sector that is being written, their blocks are mapped.
    pub open spec fn is_ready(&self, offset: int, length: int) -> bool {
        &&& self.clean()
        &&& self.pending() is None
        &&& self.current_sector() matches Some(s) ==> s == offset / self.hw()@.sector as int
            ==> blocks_around(self.hw()@, offset, length).subset_of(self.hw()@.mapped)
    }

    /// The model of a ready storage is ready.
    proof fn lemma_ready_model(&self, offset: int, length: int)
        requires
            self.is_ready(offset, length),
        ensures
            self.model().ready_for(offset, offset + length),
    {
        let k = self.model();
        let around = blocks_around(self.hw()@, offset, length);
        if k.current == Some(offset / k.sector) {
            assert forall|a: int|
                k.block_of(offset) <= a < k.block_of(offset + length - 1)
                    + k.block implies #[trigger] k.mapped.contains(a) by {
                assert(around.contains(a));
            }
        }
    }

    /// The sector of the staged block.
    pub open spec fn pending_sector(&self) -> u32 {
        (self.pending()->Some_0.addr as int / self.hw()@.sector as int) as u32
    }

    /// The staged block has been written since its sector was erased.
    pub open spec fn must_renew(&self) -> bool {
        &&& self.pending() is Some
        &&& self.current_sector() == Some(self.pending_sector())
        &&& self.has_block(self.pending()->Some_0.addr as int)
    }

    /// The sector of the staged block, if there is one; of a storage that is
    /// not clean, no more is said than that it may be any.
    pub open spec fn pending_sectors(&self) -> Set<int> {
        if !self.clean() {
            Set::full()
        } else if self.pending() is Some {
            set![self.pending_sector() as int]
        } else {
            Set::empty()
        }
    }

    /// The sectors that a write of `length` bytes from `offset` on can change;
    /// of a storage that is not clean, no more is said than that it may be
    /// any.
    pub open spec fn touched(&self, offset: int, length: int) -> Set<int> {
        self.pending_sectors().union(
            sectors_between(offset, offset + length, self.hw()@.sector as int),
        )
    }

    /// The encrypting write of the staged block.
    pub open spec fn block_write(&self) -> Call {
        let p = self.pending()->Some_0;
        Call::WriteEncrypted { offset: p.addr, data: p.data@.take(self.hw()@.block as int) }
    }

    /// The calls put the staged block on the chip. If its sector must be renewed,
    /// the encrypting write of the block comes last, after those of the blocks
    /// that are written back. Otherwise it is the only one, after an erase if
    /// the sector is not the current one.
    pub open spec fn commits_by(&self, calls: Seq<Call>, fault: Option<FlashError>) -> bool {
        if self.pending() is None {
            calls.len() == 0
        } else {
            let plan = if self.current_sector() == Some(self.pending_sector()) {
                seq![self.block_write()]
            } else {
                seq![Call::Erase { sector: self.pending_sector() }, self.block_write()]
            };
            &&& all_keep_to(calls, self.hw()@.sector as int, self.pending_sectors())
            &&& self.must_renew() && fault is None ==> calls.len() > 0 && calls.last()
                == self.block_write()
            &&& !self.must_renew() ==> calls.is_prefix_of(plan)
            &&& !self.must_renew() && fault is None ==> calls == plan
            &&& steps_of(calls).is_prefix_of(self.track().flush_steps())
            &&& fault is None ==> steps_of(calls) == self.track().flush_steps()
        }
    }

    /// What the storage keeps in mind after these calls, which put the block
    /// staged in `before` on the chip or failed to: nothing is staged, and the
    /// block counts as written from the moment that its sector is erased.
    pub open spec fn keeps_track(
        &self,
        before: Self,
        calls: Seq<Call>,
        fault: Option<FlashError>,
    ) -> bool {
        let addr = before.pending()->Some_0.addr;
        &&& self.unlocked() == before.unlocked()
        &&& self.pending() is None
        &&& if before.pending() is None || before.current_sector() != Some(before.pending_sector())
            && fault is Some && calls.len() == 1 {
            &&& self.current_sector() == before.current_sector()
            &&& self.written() == before.written()
        } else {
            &&& self.current_sector() == Some(before.pending_sector())
            &&& self.written() == (if before.current_sector() != self.current_sector() {
                seq![addr]
            } else if before.has_block(addr as int) {
                before.written()
            } else {
                before.written().push(addr)
            })
        }
    }

    /// A storage that was clean `before` has failed, since a call to the chip
    /// failed, and is clean if that call left the chip as it was.
    pub open spec fn fails_clean(
        &self,
        before: Self,
        fault: Option<FlashError>,
        sectors: Set<int>,
    ) -> bool {
        exists|middle: H, call: Call|
            works_in(before.hw(), middle, None, true, before.hw()@.sector as int, sectors)
                && #[trigger] answers(middle, call, self.hw(), fault) && (self.hw()@ == middle@
                ==> self.clean())
    }

    /// The current sector is one of the `count` sectors from `first` on.
    pub open spec fn erased_current(&self, first: u32, count: int) -> bool {
        self.current_sector() matches Some(s) && first <= s < first + count
    }

    /// This is the storage `before` after the erase of `n` sectors from `first`
    /// on, of which the last failed if there is a fault. If the current sector
    /// was erased, no block of it counts as written.
    pub open spec fn has_erased(
        &self,
        before: Self,
        first: u32,
        n: int,
        fault: Option<FlashError>,
    ) -> bool {
        let done = if fault is None {
            n
        } else {
            n - 1
        };
        &&& runs(before.hw(), erase_calls(before.unlocked(), first, n), self.hw(), fault, true)
        &&& self.unlocked() == (before.unlocked() || fault is None || n > 0)
        &&& self.pending() == before.pending()
        &&& self.current_sector() == before.current_sector()
        &&& self.written() == (if before.erased_current(first, done) {
            Seq::empty()
        } else {
            before.written()
        })
    }

    /// The chip is healthy and as the storage left it, and the staged block
    /// lies on it.
    pub open spec fn in_order(&self) -> bool {
        &&& self.hw()@.healthy
        &&& self.unlocked() ==> self.hw()@.writable
        &&& self.pending() matches Some(p) ==> {
            &&& self.unlocked()
            &&& p.addr as int % self.hw()@.block as int == 0
            &&& p.addr + self.hw()@.block <= self.hw()@.size
        }
    }

    /// What `k` says of a storage is true of this one.
    #[verifier::opaque]
    pub open spec fn matches(&self, k: OtaModel) -> bool {
        let state = self.hw()@;
        &&& k.sound()
        &&& k.block == state.block
        &&& k.sector == state.sector
        &&& k.mapped == state.mapped
        &&& k.decrypted.len() == state.size
        &&& forall|a: int|
            0 <= a < state.size && (#[trigger] k.decrypted[a]) is Some ==> k.decrypted[a] == Some(
                state.decrypted[a],
            )
        &&& forall|a: int|
            0 <= a < state.size && (#[trigger] k.raw[a]) is Some ==> k.raw[a] == Some(state.raw[a])
        &&& forall|b: int| #[trigger] k.written.contains(b) == self.has_block(b)
        &&& k.current == (match self.current_sector() {
            Some(s) => Some(s as int),
            None => None,
        })
        &&& match (k.pending, self.pending()) {
            (None, None) => true,
            (Some(staged), Some(p)) => {
                &&& staged.addr == p.addr
                &&& forall|i: int|
                    0 <= i < state.block && (#[trigger] staged.data[i]) is Some ==> staged.data[i]
                        == Some(p.data@[i])
            },
            _ => false,
        }
    }

    /// This is the storage `before` with `bytes` written from `offset` on:
    /// whatever is known of the one before gives what is known of this one.
    pub open spec fn has_written(&self, before: Self, offset: int, bytes: Seq<u8>) -> bool {
        forall|k: OtaModel| #[trigger]
            before.matches(k) ==> self.matches(k.write(offset, bytes))
    }

    /// This is the storage `before` with its staged block on the chip.
    pub open spec fn has_flushed(&self, before: Self) -> bool {
        forall|k: OtaModel| #[trigger] before.matches(k) ==> self.matches(k.commit())
    }

    /// All that is to be known of this storage.
    pub open spec fn model(&self) -> OtaModel {
        let state = self.hw()@;
        OtaModel {
            block: state.block as int,
            sector: state.sector as int,
            mapped: state.mapped,
            decrypted: state.decrypted.map_values(|b: u8| Some(b)),
            raw: state.raw.map_values(|b: u8| Some(b)),
            pending: match self.pending() {
                Some(p) => Some(
                    super::model::Staged {
                        addr: p.addr as int,
                        data: p.data@.take(state.block as int).map_values(|b: u8| Some(b)),
                    },
                ),
                None => None,
            },
            current: match self.current_sector() {
                Some(s) => Some(s as int),
                None => None,
            },
            written: Set::new(|b: int| self.has_block(b)),
        }
    }

    /// A storage on which the regions can be read decrypted.
    pub fn new(hw: H, regions: &[FlashRegion]) -> (r: Result<Self, FlashError>)
        requires
            hw.valid(),
        ensures
            r matches Ok(s) ==> {
                &&& s.hw().valid()
                &&& s.hw()@ == (FlashState { mapped: s.hw()@.mapped, ..hw@ })
                &&& s.hw()@.mapped == hw@.mapped.union(all_addresses(regions@))
                &&& !s.unlocked()
                &&& s.pending() is None
                &&& s.current_sector() is None
                &&& s.written().len() == 0
                &&& s.tidy()
            },
            exists|n: int, chip: H|
                0 <= n <= regions@.len() && #[trigger] runs(
                    hw,
                    map_calls(regions@.take(n)),
                    chip,
                    fault(r),
                    true,
                ) && (r matches Ok(s) ==> n == regions@.len() && s.hw() == chip),
            hw@.healthy && hw.can_map(offsets_and_sizes(regions@)) ==> r is Ok,
    {
        let ghost start = hw@;
        let ghost list = offsets_and_sizes(regions@);
        let mut chip = hw;
        let mut i: usize = 0;
        proof {
            assert(list.skip(0) =~= list);
            assert(start.mapped.union(all_addresses(regions@.take(0))) =~= start.mapped);
            assert(map_calls(regions@.take(0)) =~= Seq::empty());
        }
        while i < regions.len()
            invariant
                i <= regions@.len(),
                chip.valid(),
                runs(hw, map_calls(regions@.take(i as int)), chip, None, true),
                chip@ == (FlashState { mapped: chip@.mapped, ..start }),
                chip@.mapped == start.mapped.union(all_addresses(regions@.take(i as int))),
                list == offsets_and_sizes(regions@),
                hw@.healthy && hw.can_map(list) ==> start.healthy && chip.can_map(
                    list.skip(i as int),
                ),
            decreases regions@.len() - i,
        {
            let region: FlashRegion = regions[i];
            proof {
                assert(list.skip(i as int) =~= seq![(region.offset, region.size)] + list.skip(
                    i + 1,
                ));
            }
            let ghost before = chip;
            let mapped: Result<(), FlashError> = chip.map_decrypt_region(
                region.offset,
                region.size,
            );
            proof {
                let call = Call::MapRegion { offset: region.offset, size: region.size };
                let calls = map_calls(regions@.take(i as int));
                lemma_runs_push(hw, calls, before, call, chip, fault(mapped), true);
                assert(calls.push(call) =~= map_calls(regions@.take(i + 1)));
            }
            match mapped {
                Ok(()) => {},
                Err(e) => {
                    return Err(e);
                },
            }
            proof {
                let before = all_addresses(regions@.take(i as int));
                let after = all_addresses(regions@.take(i + 1));
                assert(after =~= before.union(region.addresses())) by {
                    assert forall|a: int| #[trigger] after.contains(a) implies before.contains(a)
                        || region.addresses().contains(a) by {
                        let j = choose|j: int|
                            0 <= j < regions@.take(i + 1).len() && (#[trigger] regions@.take(
                                i + 1,
                            )[j]).addresses().contains(a);
                        if j < i {
                            assert(regions@.take(i as int)[j] == regions@.take(i + 1)[j]);
                        }
                    }
                    assert forall|a: int|
                        before.contains(a) || region.addresses().contains(a) implies #[trigger] after.contains(
                        a,
                    ) by {
                        if before.contains(a) {
                            let j = choose|j: int|
                                0 <= j < regions@.take(i as int).len() && (#[trigger] regions@.take(
                                    i as int,
                                )[j]).addresses().contains(a);
                            assert(regions@.take(i + 1)[j] == regions@.take(i as int)[j]);
                        } else {
                            assert(regions@.take(i + 1)[i as int] == region);
                        }
                    }
                }
                assert(chip@.mapped =~= start.mapped.union(after));
            }
            i += 1;
        }
        proof {
            assert(regions@.take(regions@.len() as int) =~= regions@);
        }
        Ok(
            Self {
                hw: chip,
                unlocked: false,
                pending: None,
                current_sector: None,
                written: Vec::new(),
            },
        )
    }

    /// The chip, to be changed behind the storage's back.
    pub fn hw_mut(&mut self) -> (r: &mut H)
        ensures
            *r == old(self).hw(),
            final(self).hw() == *final(r),
            final(self).unlocked() == old(self).unlocked(),
            final(self).pending() == old(self).pending(),
            final(self).current_sector() == old(self).current_sector(),
            final(self).written() == old(self).written(),
    {
        &mut self.hw
    }

    /// Gives up the storage and returns the chip. What is staged is lost.
    pub fn into_hw(self) -> (r: H)
        ensures
            r == self.hw(),
    {
        self.hw
    }

    /// Unlocks the chip unless that has been done.
    fn unlock_once(&mut self) -> (r: Result<(), FlashError>)
        requires
            old(self).hw().valid(),
        ensures
            final(self).hw().valid(),
            final(self).hw()@ == (FlashState {
                writable: final(self).hw()@.writable,
                ..old(self).hw()@
            }),
            final(self).pending() == old(self).pending(),
            final(self).current_sector() == old(self).current_sector(),
            final(self).written() == old(self).written(),
            old(self).unlocked() ==> r is Ok && *final(self) == *old(self),
            !old(self).unlocked() ==> H::unlocks(old(self).hw(), final(self).hw(), fault(r)),
            r is Ok ==> final(self).unlocked(),
            r is Err ==> !final(self).unlocked(),
            r is Ok && !old(self).unlocked() ==> final(self).hw()@.writable,
            old(self).in_order() ==> r is Ok,
    {
        if !self.unlocked {
            self.hw.unlock()?;
            self.unlocked = true;
        }
        Ok(())
    }

    /// The current sector was erased, and its written blocks, other than the one
    /// at `addr`, were written back: those that are mapped have their decrypted
    /// bytes, the others their raw bytes.
    spec fn renews(&self, before: FlashState, after: FlashState, addr: int) -> bool {
        let block = before.block as int;
        let start = self.current_sector->Some_0 * before.sector;
        let saves = |a: int| self.has_block(a - a % block) && a - a % block != addr;
        &&& after.same_but_bytes(before)
        &&& after.same_outside(before, start, before.sector as int)
        &&& forall|a: int|
            start <= a < start + before.sector && !saves(a) ==> #[trigger] after.raw[a] == 0xFFu8
        &&& forall|a: int|
            start <= a < start + before.sector && saves(a) && !before.mapped.contains(a - a % block)
                ==> #[trigger] after.raw[a] == before.raw[a]
        &&& forall|a: int|
            start <= a < start + before.sector && saves(a) && before.covers(a - a % block, block)
                ==> #[trigger] after.decrypted[a] == before.decrypted[a]
    }

    /// What was saved of a block.
    spec fn is_saved(state: FlashState, saved: SavedBlock, addr: u32) -> bool {
        let block = state.block as int;
        &&& saved.addr == addr
        &&& saved.mapped == state.mapped.contains(addr as int)
        &&& saved.mapped && state.covers(addr as int, block) ==> saved.data@.take(block)
            == state.decrypted.subrange(addr as int, addr + block)
        &&& !saved.mapped ==> saved.data@.take(block) == state.raw.subrange(
            addr as int,
            addr + block,
        )
    }

    /// Reads the blocks that have been written, other than the one at `skip`.
    fn save(&mut self, skip: u32) -> (r: Result<Vec<SavedBlock>, FlashError>)
        requires
            old(self).hw().valid(),
            old(self).hw()@.block <= MAX_ENC_BLOCK_SIZE,
        ensures
            final(self).hw().valid(),
            final(self).hw()@ == old(self).hw()@,
            final(self).unlocked() == old(self).unlocked(),
            final(self).pending() == old(self).pending(),
            final(self).current_sector() == old(self).current_sector(),
            final(self).written() == old(self).written(),
            follows(
                old(self).hw(),
                final(self).hw(),
                fault(r),
                true,
                old(self).hw()@.sector as int,
                Set::empty(),
                old(self).track().opened(skip).saved(skip, old(self).written().len() as int),
            ),
            r matches Ok(saved) ==> saved@.len() == old(self).written().len() && forall|i: int|
                0 <= i < saved@.len() ==> {
                    &&& (#[trigger] saved@[i]).addr == old(self).written()[i]
                    &&& saved@[i].mapped == old(self).hw()@.mapped.contains(saved@[i].addr as int)
                },
            old(self).clean() && old(self).current_sector() is Some ==> (r matches Ok(saved)
                ==> forall|i: int|
                0 <= i < saved@.len() ==> {
                    &&& (#[trigger] saved@[i]).addr == old(self).written()[i]
                    &&& saved@[i].addr != skip ==> Self::is_saved(
                        old(self).hw()@,
                        saved@[i],
                        old(self).written()[i],
                    )
                }),
            old(self).clean() && old(self).current_sector() is Some && old(self).hw()@.healthy
                && maps_whole_blocks(old(self).hw()@) ==> r is Ok,
    {
        let ghost start = self.hw@;
        let ghost chip = self.hw;
        let ghost none: Set<int> = Set::empty();
        let ghost sane = self.clean() && self.current_sector is Some;
        let block_size: u32 = self.hw.enc_block_size();
        let mut saved: Vec<SavedBlock> = Vec::new();
        let mut i: usize = 0;
        let ghost t = self.track().opened(skip);
        proof {
            lemma_follows_idle(chip, true, start.sector as int, none);
        }
        while i < self.written.len()
            invariant
                self.hw.valid(),
                self.hw@ == start,
                start == old(self).hw@,
                chip == old(self).hw,
                none == Set::<int>::empty(),
                self.unlocked == old(self).unlocked,
                self.pending == old(self).pending,
                self.current_sector == old(self).current_sector,
                self.written == old(self).written,
                block_size == start.block,
                block_size <= MAX_ENC_BLOCK_SIZE,
                sane == (old(self).clean() && old(self).current_sector is Some),
                t == old(self).track().opened(skip),
                follows(
                    chip,
                    self.hw,
                    None,
                    true,
                    start.sector as int,
                    none,
                    t.saved(skip, i as int),
                ),
                i <= self.written@.len(),
                saved@.len() == i,
                forall|j: int|
                    0 <= j < i ==> {
                        &&& (#[trigger] saved@[j]).addr == old(self).written()[j]
                        &&& saved@[j].mapped == start.mapped.contains(saved@[j].addr as int)
                    },
                sane ==> forall|j: int|
                    0 <= j < i ==> {
                        &&& (#[trigger] saved@[j]).addr == old(self).written()[j]
                        &&& saved@[j].addr != skip ==> Self::is_saved(
                            start,
                            saved@[j],
                            old(self).written()[j],
                        )
                    },
            decreases self.written@.len() - i,
        {
            let addr: u32 = self.written[i];
            let mapped: bool = self.hw.is_decrypt_mapped(addr);
            let mut data: [u8; MAX_ENC_BLOCK_SIZE] = [0xFFu8; MAX_ENC_BLOCK_SIZE];
            proof {
                if sane {
                    assert(addr == old(self).written()[i as int]);
                    assert(addr + start.block <= start.size);
                }
            }
            if addr != skip {
                let ghost before = self.hw;
                let whole: &mut [u8] = &mut data;
                let (buf, _rest) = whole.split_at_mut(block_size as usize);
                let ghost held = buf@;
                let read: Result<(), FlashError> = if mapped {
                    self.hw.read_decrypted(addr, buf)
                } else {
                    self.hw.read_plain(addr, buf)
                };
                proof {
                    let call = if mapped {
                        Call::ReadDecrypted { offset: addr, buf: held, bytes: buf@ }
                    } else {
                        Call::ReadPlain { offset: addr, buf: held, bytes: buf@ }
                    };
                    let some = t.saved(skip, i as int);
                    let more = t.saved(skip, i + 1);
                    let n = old(self).written().len() as int;
                    lemma_follows_push(
                        chip,
                        before,
                        call,
                        self.hw,
                        fault(read),
                        true,
                        start.sector as int,
                        none,
                        some,
                    );
                    assert(some.push(step_of(call)) == more);
                    if read is Err {
                        lemma_saved_prefix(t, skip, i + 1, n);
                        lemma_follows_weaken(
                            chip,
                            self.hw,
                            fault(read),
                            true,
                            true,
                            start.sector as int,
                            none,
                            none,
                            more,
                            t.saved(skip, n),
                        );
                    }
                    if sane && maps_whole_blocks(start) && mapped {
                        assert(start.covers(addr as int, start.block as int));
                    }
                }
                read?;
            }
            proof {
                if sane && addr != skip {
                    if mapped && start.covers(addr as int, start.block as int) {
                        assert(data@.take(start.block as int) =~= start.decrypted.subrange(
                            addr as int,
                            addr + start.block,
                        ));
                    }
                    if !mapped {
                        assert(data@.take(start.block as int) =~= start.raw.subrange(
                            addr as int,
                            addr + start.block,
                        ));
                    }
                }
            }
            saved.push(SavedBlock { addr, mapped, data });
            i += 1;
        }
        Ok(saved)
    }

    /// Erases the current sector and writes back what was saved, so that the
    /// block at `skip` can be written again.
    fn renew(&mut self, sector: u32, skip: u32) -> (r: Result<(), FlashError>)
        requires
            old(self).hw().valid(),
            old(self).hw()@.sector > 0,
            old(self).hw()@.block <= MAX_ENC_BLOCK_SIZE,
            old(self).current_sector() == Some(sector),
        ensures
            final(self).hw().valid(),
            final(self).hw()@.same_but_bytes(old(self).hw()@),
            final(self).unlocked() == old(self).unlocked(),
            final(self).pending() == old(self).pending(),
            final(self).current_sector() == old(self).current_sector(),
            final(self).written() == old(self).written(),
            follows(
                old(self).hw(),
                final(self).hw(),
                fault(r),
                old(self).clean(),
                old(self).hw()@.sector as int,
                if old(self).clean() {
                    set![sector as int]
                } else {
                    Set::full()
                },
                old(self).track().opened(skip).renewal(skip),
            ),
            r is Ok && old(self).clean() ==> old(self).renews(
                old(self).hw()@,
                final(self).hw()@,
                skip as int,
            ),
            r is Err && old(self).clean() ==> final(self).fails_clean(
                *old(self),
                fault(r),
                set![sector as int],
            ),
            old(self).clean() && old(self).hw()@.healthy && old(self).hw()@.writable
                && saves_blocks(old(self).hw()@) ==> r is Ok,
    {
        let ghost start = self.hw@;
        let ghost chip = self.hw;
        let ghost clean = self.clean();
        let ghost sectors: Set<int> = if clean {
            set![sector as int]
        } else {
            Set::full()
        };
        let ghost base = sector * start.sector;
        let ghost block = start.block as int;
        let block_size: u32 = self.hw.enc_block_size();
        let ghost ss = start.sector as int;
        let ghost t = self.track().opened(skip);
        let ghost n = self.written@.len() as int;
        let ghost reads = t.saved(skip, n);
        let ghost opening = reads.push(Step::Erase(sector));
        let ghost plan = t.renewal(skip);
        let saving: Result<Vec<SavedBlock>, FlashError> = self.save(skip);
        proof {
            assert(plan == opening + t.restored(skip, n));
            assert(reads.is_prefix_of(plan)) by {
                assert(plan.subrange(0, reads.len() as int) =~= reads);
            }
            lemma_prefix_of_sum(opening, t.restored(skip, n));
            lemma_follows_weaken(
                chip,
                self.hw,
                fault(saving),
                true,
                clean,
                ss,
                Set::empty(),
                sectors,
                reads,
                if saving is Err {
                    plan
                } else {
                    reads
                },
            );
        }
        let saved: Vec<SavedBlock> = match saving {
            Ok(saved) => saved,
            Err(e) => {
                proof {
                    if clean {
                        self.lemma_same_is_clean(*old(self));
                        lemma_follows_works(chip, self.hw, Some(e), clean, ss, sectors, plan);
                        super::calls::law_fault_of_a_call(
                            chip,
                            self.hw,
                            Some(e),
                            clean,
                            start.sector as int,
                            sectors,
                        );
                        let (middle, call) = choose|middle: H, call: Call|
                            #![trigger answers(middle, call, self.hw, Some(e))]
                            answers(middle, call, self.hw, Some(e)) && works_in(
                                chip,
                                middle,
                                None,
                                clean,
                                start.sector as int,
                                sectors,
                            );
                        assert(answers(middle, call, self.hw(), Some(e)));
                    }
                }
                return Err(e);
            },
        };
        let ghost read = self.hw;
        let erase: Result<(), FlashError> = self.hw.erase_sector(sector);
        proof {
            assert((sector + 1) * start.sector == base + start.sector) by (nonlinear_arith)
                requires
                    base == sector * start.sector,
            ;
            let call = Call::Erase { sector };
            lemma_follows_works(chip, read, None, clean, ss, sectors, reads);
            lemma_follows_push(chip, read, call, self.hw, fault(erase), clean, ss, sectors, reads);
            if erase is Err {
                lemma_follows_weaken(
                    chip,
                    self.hw,
                    fault(erase),
                    clean,
                    clean,
                    ss,
                    sectors,
                    sectors,
                    opening,
                    plan,
                );
            }
            assert(opening + t.restored(skip, 0) =~= opening);
            assert(answers(read, Call::Erase { sector }, self.hw(), fault(erase)));
            if clean && self.hw@ == read@ {
                self.lemma_same_is_clean(*old(self));
            }
        }
        erase?;
        let mut j: usize = 0;
        while j < saved.len()
            invariant
                self.hw.valid(),
                start == old(self).hw@,
                chip == old(self).hw,
                clean == old(self).clean(),
                sectors == (if clean {
                    set![sector as int]
                } else {
                    Set::full()
                }),
                base == sector * start.sector,
                (sector + 1) * start.sector == base + start.sector,
                block == start.block,
                old(self).current_sector() == Some(sector),
                self.unlocked == old(self).unlocked,
                self.pending == old(self).pending,
                self.current_sector == old(self).current_sector,
                self.written@ == old(self).written@,
                self.hw@.same_but_bytes(start),
                block_size == start.block,
                block_size <= MAX_ENC_BLOCK_SIZE,
                ss == start.sector,
                t == old(self).track().opened(skip),
                n == old(self).written().len(),
                plan == opening + t.restored(skip, n),
                plan == t.renewal(skip),
                follows(
                    chip,
                    self.hw,
                    None,
                    clean,
                    ss,
                    sectors,
                    opening + t.restored(skip, j as int),
                ),
                saved@.len() == old(self).written().len(),
                forall|i: int|
                    0 <= i < saved@.len() ==> {
                        &&& (#[trigger] saved@[i]).addr == old(self).written()[i]
                        &&& saved@[i].mapped == start.mapped.contains(saved@[i].addr as int)
                    },
                clean ==> forall|i: int|
                    0 <= i < saved@.len() ==> {
                        &&& (#[trigger] saved@[i]).addr == old(self).written()[i]
                        &&& saved@[i].addr != skip ==> Self::is_saved(
                            start,
                            saved@[i],
                            old(self).written()[i],
                        )
                    },
                j <= saved@.len(),
                clean ==> old(self).written_back(start, self.hw@, j as int, skip as int),
            decreases saved@.len() - j,
        {
            let addr: u32 = saved[j].addr;
            if addr != skip {
                let ghost before = self.hw;
                let all: &[u8] = &saved[j].data;
                let data: &[u8] = &all[0..block_size as usize];
                proof {
                    if clean {
                        assert(saved@[j as int].addr == old(self).written()[j as int]);
                        old(self).lemma_next_is_erased(start, self.hw@, j as int, skip as int);
                        if start.block > 0 {
                            vstd::arithmetic::div_mod::lemma_mod_self_0(start.block as int);
                        }
                        if start.block % 4 == 0 {
                            super::plain::lemma_multiple_of_multiple(addr as int, block, 4);
                        }
                        lemma_sector_of(addr as int, sector as int, start.sector as int);
                    }
                }
                let write: Result<(), FlashError> = if saved[j].mapped {
                    self.hw.write_encrypted(addr, data)
                } else {
                    self.hw.write_plain(addr, data)
                };
                proof {
                    let call = if saved@[j as int].mapped {
                        Call::WriteEncrypted { offset: addr, data: data@ }
                    } else {
                        Call::WritePlain { offset: addr, data: data@ }
                    };
                    let some = opening + t.restored(skip, j as int);
                    let more = opening + t.restored(skip, j + 1);
                    lemma_follows_works(chip, before, None, clean, ss, sectors, some);
                    lemma_follows_push(
                        chip,
                        before,
                        call,
                        self.hw,
                        fault(write),
                        clean,
                        ss,
                        sectors,
                        some,
                    );
                    assert(addr == t.written[j as int]);
                    assert(some.push(step_of(call)) =~= more);
                    if write is Err {
                        lemma_restored_prefix(t, skip, j + 1, n);
                        lemma_prefix_in_sum(opening, t.restored(skip, j + 1), t.restored(skip, n));
                        lemma_follows_weaken(
                            chip,
                            self.hw,
                            fault(write),
                            clean,
                            clean,
                            ss,
                            sectors,
                            sectors,
                            more,
                            plan,
                        );
                    }
                    assert(answers(before, call, self.hw(), fault(write)));
                    if clean && self.hw@ == before@ {
                        self.lemma_back_is_clean(*old(self), j as int, skip as int);
                    }
                }
                write?;
                proof {
                    if clean {
                        assert(data@ =~= saved@[j as int].data@.take(block));
                        old(self).lemma_written_back(
                            start,
                            before@,
                            self.hw@,
                            j as int,
                            skip as int,
                            saved@[j as int],
                        );
                    }
                }
            } else {
                proof {
                    if clean {
                        old(self).lemma_skipped(start, self.hw@, j as int, skip as int);
                    }
                }
            }
            j += 1;
        }
        Ok(())
    }

    /// The current sector was erased, and the first `n` of its written blocks,
    /// other than the one at `skip`, were written back.
    spec fn written_back(&self, before: FlashState, after: FlashState, n: int, skip: int) -> bool {
        let block = before.block as int;
        let start = self.current_sector->Some_0 * before.sector;
        let back = |a: int| among(self.written@, n, a - a % block) && a - a % block != skip;
        &&& after.same_but_bytes(before)
        &&& after.same_outside(before, start, before.sector as int)
        &&& forall|a: int|
            start <= a < start + before.sector && !back(a) ==> #[trigger] after.raw[a] == 0xFFu8
        &&& forall|a: int|
            start <= a < start + before.sector && back(a) && !before.mapped.contains(a - a % block)
                ==> #[trigger] after.raw[a] == before.raw[a]
        &&& forall|a: int|
            start <= a < start + before.sector && back(a) && before.covers(a - a % block, block)
                ==> #[trigger] after.decrypted[a] == before.decrypted[a]
    }

    /// A storage with the same bytes and the same blocks, and nothing staged, is
    /// as clean.
    proof fn lemma_same_is_clean(&self, before: Self)
        requires
            before.clean(),
            self.hw@ == before.hw@,
            self.pending is None || self.pending == before.pending,
            self.current_sector == before.current_sector,
            self.written@ == before.written@,
        ensures
            self.clean(),
    {
        assert forall|b: int| #[trigger] self.has_block(b) == before.has_block(b) by {}
    }

    /// A storage that has written back some blocks is clean.
    proof fn lemma_back_is_clean(&self, before: Self, n: int, skip: int)
        requires
            before.clean(),
            before.current_sector is Some,
            0 <= n <= before.written@.len(),
            before.written_back(before.hw@, self.hw@, n, skip),
            self.pending == before.pending,
            self.current_sector == before.current_sector,
            self.written@ == before.written@,
        ensures
            self.clean(),
    {
        let state = before.hw@;
        let block = state.block as int;
        let s = self.current_sector->Some_0;
        assert((s + 1) * state.sector == s * state.sector + state.sector) by (nonlinear_arith);
        assert forall|i: int| 0 <= i < self.written().len() implies {
            &&& (#[trigger] self.written()[i]) as int % block == 0
            &&& s * state.sector <= self.written()[i]
            &&& self.written()[i] + block <= (s + 1) * state.sector
        } by {
            assert(self.written()[i] == before.written()[i]);
        }
        assert forall|a: int|
            s * state.sector <= a < (s + 1) * state.sector && !self.has_block(
                a - a % block,
            ) implies #[trigger] self.hw@.raw[a] == 0xFFu8 by {
            let b = a - a % block;
            if among(before.written@, n, b) {
                let i = choose|i: int| 0 <= i < n && #[trigger] before.written@[i] == b;
                assert(self.written()[i] == b);
            }
        }
    }

    /// The block that is written back next is erased.
    proof fn lemma_next_is_erased(&self, before: FlashState, now: FlashState, n: int, skip: int)
        requires
            self.clean(),
            self.hw@ == before,
            self.current_sector is Some,
            0 <= n < self.written@.len(),
            self.written_back(before, now, n, skip),
        ensures
            now.is_erased(self.written@[n] as int, before.block as int),
            self.written@[n] + before.block <= before.size,
            self.written@[n] as int % before.block as int == 0,
            self.current_sector->Some_0 * before.sector <= self.written@[n],
            self.written@[n] + before.block <= self.current_sector->Some_0 * before.sector
                + before.sector,
    {
        let block = before.block as int;
        let addr = self.written()[n] as int;
        let s = self.current_sector->Some_0;
        assert((s + 1) * before.sector == s * before.sector + before.sector) by (nonlinear_arith);
        assert forall|a: int| addr <= a < addr + block implies #[trigger] now.raw[a] == 0xFFu8 by {
            super::model::lemma_block_around(a, addr, block);
            if among(self.written@, n, addr) {
                let i = choose|i: int| 0 <= i < n && #[trigger] self.written@[i] == addr;
                assert(self.written()[i] == self.written()[n]);
            }
        }
    }

    /// The block at `skip` is not written back.
    proof fn lemma_skipped(&self, before: FlashState, now: FlashState, n: int, skip: int)
        requires
            0 <= n < self.written@.len(),
            self.written@[n] == skip,
            self.written_back(before, now, n, skip),
        ensures
            self.written_back(before, now, n + 1, skip),
    {
        assert forall|b: int| b != skip implies among(self.written@, n + 1, b) == among(
            self.written@,
            n,
            b,
        ) by {
            if among(self.written@, n + 1, b) {
                let i = choose|i: int| 0 <= i < n + 1 && #[trigger] self.written@[i] == b;
                assert(self.written@[i] == b);
            }
        }
    }

    /// One block more is written back.
    proof fn lemma_written_back(
        &self,
        before: FlashState,
        now: FlashState,
        after: FlashState,
        n: int,
        skip: int,
        saved: SavedBlock,
    )
        requires
            self.clean(),
            self.hw@ == before,
            self.current_sector is Some,
            0 <= n < self.written@.len(),
            self.written@[n] != skip,
            self.written_back(before, now, n, skip),
            Self::is_saved(before, saved, self.written@[n]),
            after.same_but_bytes(now),
            after.same_outside(now, self.written@[n] as int, before.block as int),
            saved.mapped ==> after.decrypted == super::splice(
                now.decrypted,
                self.written@[n] as int,
                saved.data@.take(before.block as int),
            ),
            !saved.mapped ==> after.raw == super::splice(
                now.raw,
                self.written@[n] as int,
                saved.data@.take(before.block as int),
            ),
        ensures
            self.written_back(before, after, n + 1, skip),
    {
        let block = before.block as int;
        let addr = self.written@[n] as int;
        let s = self.current_sector->Some_0;
        let start = s * before.sector;
        let bytes = saved.data@.take(block);
        self.lemma_next_is_erased(before, now, n, skip);
        assert(0 <= start && (s + 1) * before.sector == start + before.sector) by (nonlinear_arith)
            requires
                start == s * before.sector,
                0 <= s,
        ;
        assert forall|b: int| b != addr implies among(self.written@, n + 1, b) == among(
            self.written@,
            n,
            b,
        ) by {
            if among(self.written@, n + 1, b) {
                let i = choose|i: int| 0 <= i < n + 1 && #[trigger] self.written@[i] == b;
                assert(self.written@[i] == b);
            }
        }
        assert(among(self.written@, n + 1, addr)) by {
            assert(self.written@[n] == addr);
        }
        let back = |a: int| among(self.written@, n + 1, a - a % block) && a - a % block != skip;
        assert forall|a: int| start <= a < start + before.sector && !back(a) implies #[trigger] after.raw[a]
            == 0xFFu8 by {
            super::model::lemma_block_around(a, addr, block);
            assert(now.raw[a] == 0xFFu8);
        }
        assert forall|a: int|
            start <= a < start + before.sector && back(a) && !before.mapped.contains(
                a - a % block,
            ) implies #[trigger] after.raw[a] == before.raw[a] by {
            super::model::lemma_block_around(a, addr, block);
            if a - a % block == addr {
                assert(after.raw[a] == bytes[a - addr]);
                assert(bytes[a - addr] == before.raw.subrange(addr, addr + block)[a - addr]);
            } else {
                assert(now.raw[a] == before.raw[a]);
            }
        }
        assert forall|a: int|
            start <= a < start + before.sector && back(a) && before.covers(
                a - a % block,
                block,
            ) implies #[trigger] after.decrypted[a] == before.decrypted[a] by {
            super::model::lemma_block_around(a, addr, block);
            if a - a % block == addr {
                assert(super::span(addr, block).contains(addr));
                assert(after.decrypted[a] == bytes[a - addr]);
                assert(bytes[a - addr] == before.decrypted.subrange(addr, addr + block)[a - addr]);
            } else {
                assert(now.decrypted[a] == before.decrypted[a]);
            }
        }
        assert forall|a: int|
            0 <= a < before.raw.len() && !(start <= a < start
                + before.sector) implies #[trigger] after.raw[a] == before.raw[a] by {
            assert(now.raw[a] == before.raw[a]);
        }
        assert forall|a: int|
            0 <= a < before.decrypted.len() && !(start <= a < start
                + before.sector) implies #[trigger] after.decrypted[a] == before.decrypted[a] by {
            assert(now.decrypted[a] == before.decrypted[a]);
        }
    }

    /// The chip is ready for the staged block of this storage: the sector was
    /// erased, renewed, or left alone.
    spec fn made_ready(&self, ready: FlashState) -> bool {
        let state = self.hw@;
        let start = self.pending_sector() * state.sector;
        if self.current_sector != Some(self.pending_sector()) {
            &&& ready.same_but_bytes(state)
            &&& ready.is_erased(start, state.sector as int)
            &&& ready.same_outside(state, start, state.sector as int)
        } else if self.has_block(self.pending->Some_0.addr as int) {
            self.renews(state, ready, self.pending->Some_0.addr as int)
        } else {
            ready == state
        }
    }

    /// Where the staged block goes is erased.
    proof fn lemma_ready(&self, ready: FlashState)
        requires
            self.clean(),
            self.pending is Some,
            self.made_ready(ready),
        ensures
            ready.same_but_bytes(self.hw@),
            ready.is_erased(self.pending->Some_0.addr as int, self.hw@.block as int),
    {
        let state = self.hw@;
        let block = state.block as int;
        let addr = self.pending->Some_0.addr as int;
        let s = self.pending_sector();
        super::model::lemma_block_in_sector(
            addr,
            block,
            state.sector as int,
            state.size as int,
        );
        assert(s == addr / state.sector as int);
        assert forall|a: int| addr <= a < addr + block implies #[trigger] ready.raw[a] == 0xFFu8 by {
            super::model::lemma_block_around(a, addr, block);
        }
    }

    /// Writes the staged block to the chip. Where this fails the block is
    /// lost.
    fn flush_pending(&mut self) -> (r: Result<(), FlashError>)
        requires
            old(self).hw().valid(),
            old(self).pending() is Some ==> old(self).hw()@.sector > 0 && old(self).hw()@.block
                <= MAX_ENC_BLOCK_SIZE,
        ensures
            final(self).hw().valid(),
            final(self).hw()@.same_but_bytes(old(self).hw()@),
            final(self).unlocked() == old(self).unlocked(),
            final(self).pending() is None,
            old(self).pending() is None ==> r is Ok && *final(self) == *old(self),
            exists|calls: Seq<Call>| #[trigger]
                runs(old(self).hw(), calls, final(self).hw(), fault(r), old(self).clean()) && old(
                    self,
                ).commits_by(calls, fault(r)) && final(self).keeps_track(
                    *old(self),
                    calls,
                    fault(r),
                ),
            r is Err && old(self).clean() ==> final(self).fails_clean(
                *old(self),
                fault(r),
                old(self).pending_sectors(),
            ),
            r is Ok && old(self).clean() ==> final(self).has_flushed(*old(self))
                && final(self).tidy(),
            old(self).in_order() && regular(old(self).hw()@) && (old(self).must_renew() ==> old(
                self,
            ).tidy() && saves_blocks(old(self).hw()@)) ==> r is Ok,
    {
        let ghost start = self.hw@;
        let ghost clean = self.clean();
        let ghost chip = self.hw;
        let p: PendingBlock = match self.pending.take() {
            Some(p) => p,
            None => {
                proof {
                    let none: Seq<Call> = Seq::empty();
                    assert(runs(chip, none, chip, None, clean));
                    reveal(EncryptedOtaStorage::matches);
                }
                return Ok(());
            },
        };
        let ghost sectors = old(self).pending_sectors();
        let ghost ss = start.sector as int;
        let block_size: u32 = self.hw.enc_block_size();
        let sector_size: u32 = self.hw.sector_size();
        let sector: u32 = p.addr / sector_size;
        proof {
            if regular(start) && p.addr as int % start.block as int == 0 && p.addr + start.block
                <= start.size {
                super::model::lemma_block_in_sector(
                    p.addr as int,
                    start.block as int,
                    start.sector as int,
                    start.size as int,
                );
            }
            assert((sector + 1) * start.sector == sector * start.sector + start.sector)
                by (nonlinear_arith);
            assert(sector == old(self).pending_sector());
        }
        let entered: bool = match self.current_sector {
            Some(s) => s == sector,
            None => false,
        };
        let seen: bool = entered && holds(&self.written, p.addr);
        let ghost mut calls: Seq<Call> = Seq::empty();
        let ghost t = old(self).track();
        let ghost plan = t.flush_steps();
        proof {
            assert(runs(chip, calls, chip, None, clean));
            assert(steps_of(calls) =~= Seq::empty());
            lemma_among(self.written@, p.addr);
            assert(t.staged_sector() == sector);
            assert(seen == (t.current == Some(sector) && t.written.contains(p.addr)));
            assert(plan.subrange(0, t.ready_steps().len() as int) =~= t.ready_steps());
        }
        if !entered {
            let erase: Result<(), FlashError> = self.hw.erase_sector(sector);
            proof {
                let call = Call::Erase { sector };
                lemma_runs_push(chip, calls, chip, call, self.hw, fault(erase), clean);
                calls = calls.push(call);
                assert(calls =~= seq![call]);
                assert(steps_of(calls) =~= t.ready_steps());
                assert(calls.is_prefix_of(seq![call, old(self).block_write()]));
                assert(old(self).commits_by(calls, fault(erase)) || erase is Ok);
                lemma_works_idle(chip, true, ss, sectors);
                assert(answers(chip, call, self.hw(), fault(erase)));
                if clean && self.hw@ == chip@ {
                    self.lemma_same_is_clean(*old(self));
                }
                assert(runs(old(self).hw(), calls, self.hw(), fault(erase), old(self).clean()));
            }
            erase?;
            self.current_sector = Some(sector);
            self.written = Vec::new();
        } else if seen {
            proof {
                assert forall|b: int| #[trigger] self.has_block(b) == old(self).has_block(b) by {}
                assert(clean ==> self.clean());
            }
            let ghost unstaged = *self;
            let renew: Result<(), FlashError> = self.renew(sector, p.addr);
            proof {
                let some: Set<int> = if unstaged.clean() {
                    set![sector as int]
                } else {
                    Set::full()
                };
                let renewal = t.renewal(p.addr);
                assert(unstaged.track().opened(p.addr) == t);
                lemma_follows_weaken(
                    chip,
                    self.hw,
                    fault(renew),
                    unstaged.clean(),
                    clean,
                    ss,
                    some,
                    sectors,
                    renewal,
                    renewal,
                );
                calls = choose|calls: Seq<Call>| #[trigger]
                    runs(chip, calls, self.hw, fault(renew), clean) && all_keep_to(
                        calls,
                        ss,
                        sectors,
                    ) && steps_of(calls).is_prefix_of(renewal) && (fault(renew) is None
                        ==> steps_of(calls) == renewal);
                lemma_prefix_of_prefix(steps_of(calls), renewal, plan);
                assert(clean && renew is Ok ==> old(self).made_ready(self.hw@));
                if clean && renew is Err {
                    assert(self.fails_clean(unstaged, fault(renew), set![sector as int]));
                    assert(self.fails_clean(*old(self), fault(renew), sectors));
                }
            }
            renew?;
        }
        let ghost ready = self.hw;
        let all: &[u8] = &p.data;
        let data: &[u8] = &all[0..block_size as usize];
        if !seen {
            self.written.push(p.addr);
        }
        proof {
            if block_size > 0 {
                vstd::arithmetic::div_mod::lemma_mod_self_0(block_size as int);
            }
            assert(data@ =~= p.data@.take(start.block as int));
            if clean {
                assert(old(self).made_ready(ready@));
                old(self).lemma_ready(ready@);
            }
        }
        let write: Result<(), FlashError> = self.hw.write_encrypted(p.addr, data);
        proof {
            let call = old(self).block_write();
            let before = calls;
            lemma_runs_push(chip, before, ready, call, self.hw, fault(write), clean);
            calls = before.push(call);
            assert(steps_of(before) == t.ready_steps());
            assert(steps_of(calls) =~= plan);
            if !entered {
                assert(calls =~= seq![Call::Erase { sector }, call]);
            } else if !seen {
                assert(calls =~= seq![call]);
            }
            assert(old(self).commits_by(calls, fault(write)));
            assert(answers(ready, call, self.hw(), fault(write)));
            assert(works_in(chip, ready, None, clean, ss, sectors)) by {
                assert(runs(chip, before, ready, None, clean));
            }
            if clean && self.hw@ == ready@ {
                self.lemma_commit_tidy(*old(self), ready@);
            }
            assert(runs(old(self).hw(), calls, self.hw(), fault(write), old(self).clean()));
        }
        write?;
        proof {
            if clean {
                self.lemma_commit_tidy(*old(self), ready@);
                assert forall|k: OtaModel| #[trigger] old(self).matches(k) implies self.matches(
                    k.commit(),
                ) by {
                    self.lemma_commit_matches(*old(self), ready@, k);
                }
            }
        }
        Ok(())
    }

    /// This is the storage `before` after an attempt to put its staged block on
    /// the chip, which was `ready` for that block.
    spec fn landed(&self, before: Self, ready: FlashState) -> bool {
        let state = before.hw@;
        let p = before.pending->Some_0;
        let s = before.pending_sector();
        &&& before.clean()
        &&& before.pending is Some
        &&& before.made_ready(ready)
        &&& self.pending is None
        &&& self.current_sector == Some(s)
        &&& self.written@ == (if before.current_sector != Some(s) {
            seq![p.addr]
        } else if before.has_block(p.addr as int) {
            before.written@
        } else {
            before.written@.push(p.addr)
        })
        &&& self.hw@.same_but_bytes(state)
        &&& self.hw@.same_outside(ready, p.addr as int, state.block as int)
    }

    /// The blocks that have been written, after one more.
    proof fn lemma_landed_blocks(&self, before: Self, ready: FlashState)
        requires
            self.landed(before, ready),
        ensures
            forall|b: int| #[trigger]
                self.has_block(b) == (b == before.pending->Some_0.addr || before.current_sector
                    == Some(before.pending_sector()) && before.has_block(b)),
    {
        let addr = before.pending->Some_0.addr;
        let s = before.pending_sector();
        let same = before.current_sector == Some(s);
        assert forall|b: int| #[trigger]
            self.has_block(b) == (b == addr || same && before.has_block(b)) by {
            if self.has_block(b) {
                let i = choose|i: int|
                    0 <= i < self.written().len() && #[trigger] self.written()[i] == b;
                if same && b != addr {
                    assert(before.written()[i] == b);
                }
            }
            if b == addr && !(same && before.has_block(b)) {
                assert(self.written()[self.written().len() - 1] == b);
            }
            if same && before.has_block(b) {
                let i = choose|i: int|
                    0 <= i < before.written().len() && #[trigger] before.written()[i] == b;
                assert(self.written()[i] == b);
            }
        }
    }

    /// A block that has landed leaves the storage tidy.
    proof fn lemma_commit_tidy(&self, before: Self, ready: FlashState)
        requires
            self.landed(before, ready),
        ensures
            self.tidy(),
    {
        let state = before.hw@;
        let block = state.block as int;
        let addr = before.pending->Some_0.addr;
        let s = before.pending_sector();
        let same = before.current_sector == Some(s);
        before.lemma_ready(ready);
        self.lemma_landed_blocks(before, ready);
        super::model::lemma_block_in_sector(
            addr as int,
            block,
            state.sector as int,
            state.size as int,
        );
        assert(s == addr as int / state.sector as int);
        assert(self.written().no_duplicates()) by {
            if same && !before.has_block(addr as int) {
                assert forall|i: int, j: int|
                    0 <= i < self.written().len() && 0 <= j < self.written().len() && i
                        != j implies self.written()[i] != self.written()[j] by {
                    if i < before.written().len() {
                        assert(before.written()[i] != addr);
                    }
                    if j < before.written().len() {
                        assert(before.written()[j] != addr);
                    }
                }
            }
        }
        assert forall|i: int| 0 <= i < self.written().len() implies {
            &&& (#[trigger] self.written()[i]) as int % block == 0
            &&& s * state.sector <= self.written()[i]
            &&& self.written()[i] + block <= (s + 1) * state.sector
        } by {
            if same && i < before.written().len() {
                assert(self.written()[i] == before.written()[i]);
            }
        }
        assert forall|a: int|
            s * state.sector <= a < (s + 1) * state.sector && !self.has_block(
                a - a % block,
            ) implies #[trigger] self.hw@.raw[a] == 0xFFu8 by {
            super::model::lemma_block_around(a, addr as int, block);
            assert(ready.raw[a] == 0xFFu8);
            assert(0 <= s * state.sector) by (nonlinear_arith)
                requires
                    0 <= s,
                    0 < state.sector,
            ;
        }
    }

    /// What is known of a storage after a block has landed.
    proof fn lemma_commit_matches(&self, before: Self, ready: FlashState, k: OtaModel)
        requires
            self.landed(before, ready),
            before.matches(k),
            self.hw@.decrypted == super::splice(
                ready.decrypted,
                before.pending->Some_0.addr as int,
                before.pending->Some_0.data@.take(before.hw@.block as int),
            ),
        ensures
            self.matches(k.commit()),
    {
        reveal(EncryptedOtaStorage::matches);
        let state = before.hw@;
        let block = state.block as int;
        let p = before.pending->Some_0;
        let addr = p.addr as int;
        let index = addr / state.sector as int;
        before.lemma_ready(ready);
        self.lemma_landed_blocks(before, ready);
        super::model::lemma_commit_sound(k);
        super::model::lemma_block_in_sector(
            addr,
            block,
            state.sector as int,
            state.size as int,
        );
        let unstaged = OtaModel { pending: None, ..k };
        let known = unstaged.prepared(addr);
        let staged = k.pending.unwrap();
        let done = known.program(staged.addr, staged.data);
        assert(k.commit() == done);
        assert forall|a: int| 0 <= a < state.size && (#[trigger] known.raw[a]) is Some implies known.raw[a]
            == Some(ready.raw[a]) by {
            before.lemma_known(ready, k, a);
        }
        assert forall|a: int|
            0 <= a < state.size && (#[trigger] known.decrypted[a]) is Some implies known.decrypted[a]
            == Some(ready.decrypted[a]) by {
            before.lemma_known(ready, k, a);
        }
        assert forall|a: int| 0 <= a < state.size && (#[trigger] done.raw[a]) is Some implies done.raw[a]
            == Some(self.hw@.raw[a]) by {
            assert(known.raw[a] is Some);
        }
        assert forall|a: int|
            0 <= a < state.size && (#[trigger] done.decrypted[a]) is Some implies done.decrypted[a]
            == Some(self.hw@.decrypted[a]) by {
            if addr <= a < addr + block {
                assert(staged.data[a - addr] is Some);
            } else {
                assert(known.decrypted[a] is Some);
            }
        }
        assert forall|b: int| #[trigger] done.written.contains(b) == self.has_block(b) by {
            assert(k.written.contains(b) == before.has_block(b));
        }
    }

    /// What is known of one byte of a chip that was made ready.
    proof fn lemma_known(&self, ready: FlashState, k: OtaModel, a: int)
        requires
            self.clean(),
            self.pending is Some,
            self.made_ready(ready),
            self.matches(k),
            0 <= a < self.hw@.size,
        ensures
            ({
                let known = OtaModel { pending: None, ..k }.prepared(
                    self.pending->Some_0.addr as int,
                );
                &&& known.raw[a] is Some ==> known.raw[a] == Some(ready.raw[a])
                &&& known.decrypted[a] is Some ==> known.decrypted[a] == Some(ready.decrypted[a])
            }),
    {
        reveal(EncryptedOtaStorage::matches);
        let state = self.hw@;
        let block = state.block as int;
        let addr = self.pending->Some_0.addr as int;
        let index = addr / state.sector as int;
        let unstaged = OtaModel { pending: None, ..k };
        let b = unstaged.block_of(a);
        super::model::lemma_block_in_sector(
            addr,
            block,
            state.sector as int,
            state.size as int,
        );
        assert(self.pending_sector() == index);
        assert(k.written.contains(b) == self.has_block(b));
        assert(k.written.contains(addr) == self.has_block(addr));
        assert(k.raw[a] is Some ==> k.raw[a] == Some(state.raw[a]));
        assert(k.decrypted[a] is Some ==> k.decrypted[a] == Some(state.decrypted[a]));
        let inside = index * state.sector <= a < (index + 1) * state.sector;
        if !inside {
            assert(ready.raw[a] == state.raw[a]);
            assert(ready.decrypted[a] == state.decrypted[a]);
        } else if k.current == Some(index) && k.written.contains(addr) {
            assert(unstaged.in_current(a));
            super::model::lemma_block_inside(a, index, block, state.sector as int);
            if unstaged.maps_block(b) {
                assert(super::span(b, block).contains(b));
                assert(state.covers(b, block));
            }
        } else if k.current != Some(index) {
            assert(ready.raw[a] == 0xFFu8);
        }
    }

    /// Writes the staged block, if there is one, to the chip.
    ///
    /// To be called after writes that may have ended inside a block: what is
    /// staged does not reach the chip before.
    pub fn flush(&mut self) -> (r: Result<(), FlashError>)
        requires
            old(self).hw().valid(),
            old(self).pending() is Some ==> old(self).hw()@.sector > 0 && old(self).hw()@.block
                <= MAX_ENC_BLOCK_SIZE,
        ensures
            final(self).hw().valid(),
            final(self).hw()@.same_but_bytes(old(self).hw()@),
            final(self).unlocked() == old(self).unlocked(),
            final(self).pending() is None,
            old(self).pending() is None ==> r is Ok && *final(self) == *old(self),
            exists|calls: Seq<Call>| #[trigger]
                runs(old(self).hw(), calls, final(self).hw(), fault(r), old(self).clean()) && old(
                    self,
                ).commits_by(calls, fault(r)) && final(self).keeps_track(
                    *old(self),
                    calls,
                    fault(r),
                ),
            r is Err && old(self).clean() ==> final(self).fails_clean(
                *old(self),
                fault(r),
                old(self).pending_sectors(),
            ),
            r is Ok && old(self).clean() ==> final(self).has_flushed(*old(self))
                && final(self).tidy(),
            old(self).in_order() && regular(old(self).hw()@) && (old(self).must_renew() ==> old(
                self,
            ).tidy() && saves_blocks(old(self).hw()@)) ==> r is Ok,
    {
        self.flush_pending()
    }

    /// All that is to be known of a storage is true of it.
    pub proof fn lemma_model_matches(&self)
        requires
            self.clean(),
        ensures
            self.matches(self.model()),
    {
        reveal(EncryptedOtaStorage::matches);
        let k = self.model();
        if let Some(s) = k.current {
            assert forall|b: int| #[trigger] k.written.contains(b) implies b % k.block == 0 && s
                * k.sector <= b && b + k.block <= (s + 1) * k.sector by {
                assert(self.has_block(b));
            }
            assert(0 <= s * k.sector) by (nonlinear_arith)
                requires
                    0 <= s,
                    0 < k.sector,
            ;
        }
    }

    /// Erases every sector that the `length` bytes from `offset` on touch.
    pub fn erase_region(&mut self, offset: u32, length: u32) -> (r: Result<(), FlashError>)
        requires
            old(self).hw().valid(),
            old(self).hw()@.sector > 0,
            offset + length <= u32::MAX,
        ensures
            final(self).hw().valid(),
            exists|n: int|
                0 <= n <= sector_count(offset as int, length as int, old(self).hw()@.sector as int)
                    && #[trigger] final(self).has_erased(
                    *old(self),
                    (offset as int / old(self).hw()@.sector as int) as u32,
                    n,
                    fault(r),
                ) && (r is Ok ==> n == sector_count(
                    offset as int,
                    length as int,
                    old(self).hw()@.sector as int,
                )),
            final(self).hw()@.same_but_bytes(
                FlashState { writable: final(self).hw()@.writable, ..old(self).hw()@ },
            ),
            old(self).hw()@.whole_sectors() && super::plain::round_up(
                offset + length,
                old(self).hw()@.sector as int,
            ) <= old(self).hw()@.size ==> {
                let first = super::plain::round_down(offset as int, old(self).hw()@.sector as int);
                let end = super::plain::round_up(offset + length, old(self).hw()@.sector as int);
                &&& r is Ok ==> final(self).hw()@.is_erased(first, end - first)
                &&& r is Ok ==> final(self).hw()@.same_outside(old(self).hw()@, first, end - first)
                &&& old(self).in_order() ==> r is Ok
                &&& r is Ok && old(self).clean() ==> final(self).clean()
                &&& r is Err && old(self).clean() ==> final(self).fails_clean(
                    *old(self),
                    fault(r),
                    sectors_between(first, end, old(self).hw()@.sector as int),
                )
            },
    {
        let ghost start = self.hw@;
        let ghost chip = self.hw;
        let ss: u32 = self.hw.sector_size();
        let first: u32 = offset / ss;
        let last: u32 = offset + length;
        let ghost count = sector_count(offset as int, length as int, ss as int);
        proof {
            lemma_sector_indices(offset as int, last as int, ss as int);
            assert(runs(chip, Seq::empty(), chip, None, true));
        }
        let ghost sectors = sectors_between(
            super::plain::round_down(offset as int, ss as int),
            super::plain::round_up(last as int, ss as int),
            ss as int,
        );
        let unlock: Result<(), FlashError> = self.unlock_once();
        proof {
            let calls = erase_calls(old(self).unlocked, first, 0);
            lemma_works_idle(chip, true, ss as int, sectors);
            if old(self).unlocked {
                assert(calls =~= Seq::empty());
            } else {
                let none: Seq<Call> = Seq::empty();
                let call = Call::Unlock;
                lemma_runs_push(chip, none, chip, call, self.hw, fault(unlock), true);
                assert(calls =~= none.push(call));
                lemma_works_push(
                    chip,
                    chip,
                    call,
                    self.hw,
                    fault(unlock),
                    true,
                    ss as int,
                    sectors,
                );
                assert(answers(chip, call, self.hw(), fault(unlock)));
                if old(self).clean() && self.hw@ == chip@ {
                    self.lemma_same_is_clean(*old(self));
                }
            }
            assert(self.has_erased(*old(self), first, 0, fault(unlock)));
        }
        unlock?;
        let ghost opened = self.hw@;
        let end: u32 = if last % ss == 0 {
            last / ss
        } else {
            last / ss + 1
        };
        let mut sector: u32 = first;
        while sector < end
            invariant
                self.hw.valid(),
                self.unlocked,
                self.pending == old(self).pending,
                self.current_sector == old(self).current_sector,
                self.written@ == (if old(self).erased_current(first, sector - first) {
                    Seq::empty()
                } else {
                    old(self).written@
                }),
                chip == old(self).hw,
                sectors == sectors_between(
                    super::plain::round_down(offset as int, ss as int),
                    super::plain::round_up(last as int, ss as int),
                    ss as int,
                ),
                works_in(chip, self.hw, None, true, ss as int, sectors),
                first == offset as int / ss as int,
                count == end - first,
                count == sector_count(offset as int, length as int, ss as int),
                runs(
                    chip,
                    erase_calls(old(self).unlocked, first, sector - first),
                    self.hw,
                    None,
                    true,
                ),
                self.hw@.same_but_bytes(opened),
                opened == (FlashState { writable: opened.writable, ..start }),
                start == old(self).hw@,
                ss == start.sector,
                ss > 0,
                last == offset + length,
                first <= sector <= end,
                first * ss == super::plain::round_down(offset as int, ss as int),
                end * ss == super::plain::round_up(last as int, ss as int),
                start.whole_sectors() && end * ss <= start.size ==> {
                    &&& self.hw@.is_erased(first * ss, sector * ss - first * ss)
                    &&& self.hw@.same_outside(start, first * ss, sector * ss - first * ss)
                },
                old(self).in_order() ==> opened.healthy && opened.writable,
                old(self).clean() && end * ss <= start.size ==> self.clean(),
            decreases end - sector,
        {
            proof {
                assert((sector + 1) * ss <= end * ss) by (nonlinear_arith)
                    requires
                        sector + 1 <= end,
                ;
                assert((sector + 1) * ss == sector * ss + ss) by (nonlinear_arith);
                assert(first * ss <= sector * ss) by (nonlinear_arith)
                    requires
                        first <= sector,
                ;
            }
            let ghost middle = *self;
            let erase: Result<(), FlashError> = self.hw.erase_sector(sector);
            proof {
                let calls = erase_calls(old(self).unlocked, first, sector - first);
                let more = erase_calls(old(self).unlocked, first, sector - first + 1);
                let call = Call::Erase { sector };
                lemma_runs_push(chip, calls, middle.hw, call, self.hw, fault(erase), true);
                assert(calls.push(call) =~= more);
                assert(erase is Err ==> self.has_erased(
                    *old(self),
                    (offset as int / old(self).hw()@.sector as int) as u32,
                    sector - first + 1,
                    fault(erase),
                ));
                assert(0 <= sector - first + 1 <= sector_count(
                    offset as int,
                    length as int,
                    old(self).hw()@.sector as int,
                ));
                lemma_sector_of(first * ss, first as int, ss as int);
                assert((end - 1) * ss == end * ss - ss) by (nonlinear_arith);
                lemma_sector_of(end * ss - 1, end - 1, ss as int);
                lemma_works_push(
                    chip,
                    middle.hw,
                    call,
                    self.hw,
                    fault(erase),
                    true,
                    ss as int,
                    sectors,
                );
                assert(answers(middle.hw, call, self.hw(), fault(erase)));
                if old(self).clean() && end * ss <= start.size && self.hw@ == middle.hw@ {
                    self.lemma_same_is_clean(middle);
                }
            }
            erase?;
            // A sector that has just been erased holds no written block.
            let emptied: bool = match self.current_sector {
                Some(s) => s == sector,
                None => false,
            };
            if emptied {
                self.written = Vec::new();
            }
            proof {
                if old(self).clean() && end * ss <= start.size {
                    self.lemma_erased_tidy(middle, sector);
                }
            }
            sector += 1;
        }
        proof {
            assert(self.has_erased(*old(self), first, count, None));
        }
        Ok(())
    }

    /// Erasing a sector leaves the storage tidy.
    proof fn lemma_erased_tidy(&self, before: Self, sector: u32)
        requires
            before.clean(),
            self.hw@.same_but_bytes(before.hw@),
            self.pending == before.pending,
            self.current_sector == before.current_sector,
            self.written@ == (if self.current_sector == Some(sector) {
                Seq::empty()
            } else {
                before.written@
            }),
            self.hw@.is_erased(sector * before.hw@.sector, before.hw@.sector as int),
            self.hw@.same_outside(
                before.hw@,
                sector * before.hw@.sector,
                before.hw@.sector as int,
            ),
        ensures
            self.clean(),
    {
        let state = before.hw@;
        let block = state.block as int;
        if let Some(s) = self.current_sector {
            assert((s + 1) * state.sector == s * state.sector + state.sector) by (nonlinear_arith);
            assert(0 <= s * state.sector) by (nonlinear_arith)
                requires
                    0 <= s,
                    0 < state.sector,
            ;
            assert forall|i: int| 0 <= i < self.written().len() implies {
                &&& (#[trigger] self.written()[i]) as int % block == 0
                &&& s * state.sector <= self.written()[i]
                &&& self.written()[i] + block <= (s + 1) * state.sector
            } by {
                assert(self.written()[i] == before.written()[i]);
            }
            assert forall|a: int|
                s * state.sector <= a < (s + 1) * state.sector && !self.has_block(
                    a - a % block,
                ) implies #[trigger] self.hw@.raw[a] == 0xFFu8 by {
                if s != sector {
                    assert(self.written() == before.written());
                    assert(before.has_block(a - a % block) == self.has_block(a - a % block));
                    assert(before.hw@.raw[a] == 0xFFu8);
                    if !(sector * state.sector <= a < sector * state.sector + state.sector) {
                        assert(self.hw@.raw[a] == before.hw@.raw[a]);
                    }
                }
            }
        }
    }

    /// Total capacity in bytes.
    pub fn capacity(&self) -> (r: usize)
        requires
            self.hw().valid(),
        ensures
            r == self.hw()@.size,
    {
        self.hw.capacity()
    }

    /// Reads `bytes.len()` bytes from `offset` on, decrypted where `offset`
    /// lies in a mapped region, raw where it does not.
    pub fn read(&mut self, offset: u32, bytes: &mut [u8]) -> (r: Result<(), FlashError>)
        requires
            old(self).hw().valid(),
        ensures
            final(self).hw().valid(),
            final(self).hw()@ == old(self).hw()@,
            final(self).unlocked() == old(self).unlocked(),
            final(self).pending() == old(self).pending(),
            final(self).current_sector() == old(self).current_sector(),
            final(self).written() == old(self).written(),
            final(bytes)@.len() == old(bytes)@.len(),
            !super::in_bounds(offset as int, old(bytes)@.len() as int, old(self).hw()@.size as int)
                ==> *final(self) == *old(self),
            super::in_bounds(offset as int, old(bytes)@.len() as int, old(self).hw()@.size as int)
                ==> if old(self).hw()@.mapped.contains(offset as int) {
                H::reads_decrypted(
                    old(self).hw(),
                    final(self).hw(),
                    offset,
                    old(bytes)@,
                    final(bytes)@,
                    fault(r),
                )
            } else {
                H::reads_plain(
                    old(self).hw(),
                    final(self).hw(),
                    offset,
                    old(bytes)@,
                    final(bytes)@,
                    fault(r),
                )
            },
            !super::in_bounds(offset as int, old(bytes)@.len() as int, old(self).hw()@.size as int)
                ==> r == Err::<(), FlashError>(FlashError::OutOfBounds) && final(bytes)@ == old(
                bytes,
            )@,
            super::in_bounds(offset as int, old(bytes)@.len() as int, old(self).hw()@.size as int)
                && !old(self).hw()@.mapped.contains(offset as int) ==> {
                &&& r is Ok ==> final(bytes)@ == old(self).hw()@.raw.subrange(
                    offset as int,
                    offset + old(bytes)@.len(),
                )
                &&& old(self).hw()@.healthy ==> r is Ok
            },
            old(self).hw()@.mapped.contains(offset as int) && old(self).hw()@.covers(
                offset as int,
                old(bytes)@.len() as int,
            ) ==> {
                &&& r is Ok ==> final(bytes)@ == old(self).hw()@.decrypted.subrange(
                    offset as int,
                    offset + old(bytes)@.len(),
                )
                &&& old(self).hw()@.healthy ==> r is Ok
            },
    {
        super::check_bounds(offset, bytes.len(), self.hw.capacity())?;
        if self.hw.is_decrypt_mapped(offset) {
            self.hw.read_decrypted(offset, bytes)
        } else {
            self.hw.read_plain(offset, bytes)
        }
    }

    /// A storage that fails from a clean one that calls have led to fails from
    /// the one before these calls.
    proof fn lemma_fails_clean(
        &self,
        before: Self,
        middle: Self,
        fault: Option<FlashError>,
        some: Set<int>,
        sectors: Set<int>,
    )
        requires
            works_in(
                before.hw(),
                middle.hw(),
                None,
                true,
                before.hw()@.sector as int,
                sectors,
            ),
            middle.hw()@.sector == before.hw()@.sector,
            some.subset_of(sectors),
            self.fails_clean(middle, fault, some),
        ensures
            self.fails_clean(before, fault, sectors),
    {
        let ss = before.hw()@.sector as int;
        let (chip, call) = choose|chip: H, call: Call|
            works_in(middle.hw(), chip, None, true, ss, some) && #[trigger] answers(
                chip,
                call,
                self.hw(),
                fault,
            ) && (self.hw()@ == chip@ ==> self.clean());
        lemma_works_on(before.hw(), middle.hw(), chip, None, true, ss, some, sectors);
        assert(answers(chip, call, self.hw(), fault));
    }

    /// What is known of a storage whose staged block has been changed: the block
    /// held `held`, and `part` was laid over it.
    proof fn lemma_patched_matches(
        &self,
        settled: Self,
        k: OtaModel,
        off: int,
        held: Seq<u8>,
        part: Seq<u8>,
    )
        requires
            settled.matches(k),
            regular(settled.hw@),
            self.hw@ == settled.hw@,
            self.current_sector == settled.current_sector,
            self.written@ == settled.written@,
            self.pending is Some,
            0 <= off,
            off + part.len() <= settled.hw@.block,
            held.len() == MAX_ENC_BLOCK_SIZE,
            ({
                let state = settled.hw@;
                let block = state.block as int;
                let p = self.pending->Some_0;
                &&& p.addr as int % block == 0
                &&& p.addr + block <= state.size
                &&& forall|j: int|
                    0 <= j < MAX_ENC_BLOCK_SIZE ==> #[trigger] p.data@[j] == (if off <= j < off
                        + part.len() {
                        part[j - off]
                    } else {
                        held[j]
                    })
                &&& match settled.pending {
                    Some(q) => q.addr == p.addr && held == q.data@,
                    None => part.len() == block || if state.mapped.contains(p.addr as int) {
                        state.covers(p.addr as int, block) ==> forall|j: int|
                            0 <= j < block ==> #[trigger] held[j] == state.decrypted[p.addr + j]
                    } else {
                        forall|j: int| 0 <= j < block ==> #[trigger] held[j] == 0xFFu8
                    },
                }
            }),
        ensures
            self.matches(k.opened(self.pending->Some_0.addr as int).patched(off, part)),
    {
        reveal(EncryptedOtaStorage::matches);
        let p = self.pending->Some_0;
        let block = settled.hw@.block as int;
        let opened = k.opened(p.addr as int);
        let patched = opened.patched(off, part);
        let data = patched.pending.unwrap().data;
        assert(data.len() == block);
        assert forall|b: int| #[trigger] patched.written.contains(b) == self.has_block(b) by {
            assert(k.written.contains(b) == settled.has_block(b));
        }
        assert forall|j: int| 0 <= j < block && (#[trigger] data[j]) is Some implies data[j] == Some(
            p.data@[j],
        ) by {
            if !(off <= j < off + part.len()) {
                assert(data[j] == opened.pending.unwrap().data[j]);
                if k.pending is None && k.mapped.contains(p.addr as int) {
                    assert(k.decrypted[p.addr + j] is Some);
                }
            }
        }
        assert(patched.sound()) by {
            assert forall|a: int| patched.in_current(a) == k.in_current(a) by {}
        }
    }

    /// This is the storage `before` with a part written that lies in one block,
    /// or after a failure to write it.
    #[verifier::opaque]
    spec fn has_put(
        &self,
        before: Self,
        at: int,
        part: Seq<u8>,
        fault: Option<FlashError>,
    ) -> bool {
        let state = before.hw@;
        let sectors = before.pending_sectors().insert(at / state.sector as int);
        &&& follows(
            before.hw,
            self.hw,
            fault,
            true,
            state.sector as int,
            sectors,
            before.track().part_steps(at, part.len() as int),
        )
        &&& before.in_order() && saves_blocks(state) ==> fault is None
        &&& if fault is None {
            &&& self.track() == before.track().part_done(at, part.len() as int)
            &&& self.clean()
            &&& self.pending_sectors().subset_of(set![at / state.sector as int])
            &&& self.has_written(before, at, part)
            &&& before.in_order() ==> self.in_order()
        } else {
            self.fails_clean(before, fault, sectors)
        }
    }

    /// This is the storage `first`, on a chip that is unlocked, with the first
    /// `done` bytes of a write written.
    #[verifier::opaque]
    spec fn has_come_to(&self, first: Self, offset: int, bytes: Seq<u8>, done: int) -> bool {
        let state = first.hw@;
        let sectors = first.touched(offset, bytes.len() as int);
        &&& done == 0 || done == bytes.len() || (offset + done) % state.block as int == 0
        &&& follows(
            first.hw,
            self.hw,
            None,
            true,
            state.sector as int,
            sectors,
            first.opening() + first.track().write_steps(offset, done),
        )
        &&& self.track() == first.track().write_done(offset, done)
        &&& self.clean()
        &&& self.pending_sectors().subset_of(sectors)
        &&& self.has_written(first, offset, bytes.take(done))
        &&& first.in_order() ==> self.in_order()
        &&& self.hw@.same_but_bytes(FlashState { writable: self.hw@.writable, ..state })
    }

    /// The calls that come before those of a write itself.
    spec fn opening(&self) -> Seq<Step> {
        if self.unlocked {
            Seq::empty()
        } else {
            seq![Step::Unlock]
        }
    }

    /// One part more of a write.
    #[verifier::rlimit(40)]
    proof fn lemma_part_put(
        &self,
        first: Self,
        before: Self,
        offset: int,
        bytes: Seq<u8>,
        done: int,
        n: int,
        fault: Option<FlashError>,
    )
        requires
            first.clean(),
            before.has_come_to(first, offset, bytes, done),
            0 <= offset,
            offset + bytes.len() <= first.hw@.size,
            0 <= done,
            0 < n,
            done + n <= bytes.len(),
            (offset + done) % first.hw@.block as int + n <= first.hw@.block,
            (offset + done) % first.hw@.block as int + n == first.hw@.block || done + n
                == bytes.len(),
            self.hw@.same_but_bytes(before.hw@),
            self.has_put(before, offset + done, bytes.subrange(done, done + n), fault),
        ensures
            fault is None ==> self.has_come_to(first, offset, bytes, done + n),
            fault is Some ==> {
                let sectors = first.touched(offset, bytes.len() as int);
                &&& follows(
                    first.hw,
                    self.hw,
                    fault,
                    true,
                    first.hw@.sector as int,
                    sectors,
                    first.write_steps(offset, bytes.len() as int),
                )
                &&& self.fails_clean(first, fault, sectors)
            },
            first.in_order() && saves_blocks(first.hw@) ==> fault is None,
    {
        reveal(EncryptedOtaStorage::has_put);
        reveal(EncryptedOtaStorage::has_come_to);
        let t = first.track();
        let ss = first.hw@.sector as int;
        let at = offset + done;
        let part = bytes.subrange(done, done + n);
        let some = before.pending_sectors().insert(at / ss);
        let sectors = first.touched(offset, bytes.len() as int);
        let total = bytes.len() as int;
        super::plain::lemma_between(offset, at, offset + total - 1, ss);
        assert(some.subset_of(sectors));
        lemma_next_part(
            t,
            first.opening(),
            first.hw,
            before.hw,
            self.hw,
            fault,
            some,
            sectors,
            offset,
            done,
            n,
            total,
        );
        if fault is None {
            assert forall|k: OtaModel| #[trigger] first.matches(k) implies self.matches(
                k.write(offset, bytes.take(done + n)),
            ) by {
                let head = bytes.take(done);
                super::model::law_pieces_add_up(k, offset, head, part);
                assert(head + part =~= bytes.take(done + n));
                assert(before.matches(k.write(offset, head)));
            }
        } else {
            assert(first.write_steps(offset, total) =~= first.opening() + t.write_steps(
                offset,
                total,
            ));
            lemma_follows_works(
                first.hw,
                before.hw,
                None,
                true,
                ss,
                sectors,
                first.opening() + t.write_steps(offset, done),
            );
            self.lemma_fails_clean(first, before, fault, some, sectors);
        }
    }

    /// This is the storage `before` with a part laid over the block at `addr`,
    /// which is staged, or after a failure to stage it.
    #[verifier::opaque]
    spec fn has_staged(
        &self,
        before: Self,
        addr: u32,
        off: int,
        part: Seq<u8>,
        fault: Option<FlashError>,
    ) -> bool {
        let state = before.hw@;
        let sectors = before.pending_sectors().insert(addr as int / state.sector as int);
        let kept = before.track().settled(addr);
        &&& follows(
            before.hw,
            self.hw,
            fault,
            true,
            state.sector as int,
            sectors,
            before.track().settle_steps(addr) + kept.fetch_steps(addr, part.len() as int),
        )
        &&& before.in_order() && saves_blocks(state) ==> fault is None
        &&& if fault is None {
            &&& self.track() == kept.opened(addr)
            &&& self.clean()
            &&& before.in_order() ==> self.in_order()
            &&& forall|k: OtaModel| #[trigger]
                before.matches(k) ==> self.matches(
                    k.settled(addr as int).opened(addr as int).patched(off, part),
                )
        } else {
            self.fails_clean(before, fault, sectors)
        }
    }

    /// Stages the block at `block_addr`, and lays a part over it. Another block
    /// that is staged is written to the chip first.
    fn stage(&mut self, block_addr: u32, off_in_block: usize, part: &[u8]) -> (r: Result<
        (),
        FlashError,
    >)
        requires
            old(self).hw().valid(),
            old(self).unlocked(),
            old(self).hw()@.sector > 0,
            0 < old(self).hw()@.block <= MAX_ENC_BLOCK_SIZE,
            part@.len() > 0,
            off_in_block + part@.len() <= old(self).hw()@.block,
        ensures
            final(self).hw().valid(),
            final(self).unlocked(),
            final(self).hw()@.same_but_bytes(old(self).hw()@),
            works_in(
                old(self).hw(),
                final(self).hw(),
                fault(r),
                old(self).has_place(block_addr),
                old(self).hw()@.sector as int,
                if old(self).has_place(block_addr) {
                    old(self).pending_sectors().insert(
                        block_addr as int / old(self).hw()@.sector as int,
                    )
                } else {
                    Set::full()
                },
            ),
            r is Err ==> final(self).pending() is None,
            r is Ok ==> final(self).pending() is Some && final(self).pending()->Some_0.addr
                == block_addr,
            old(self).has_place(block_addr) ==> final(self).has_staged(
                *old(self),
                block_addr,
                off_in_block as int,
                part@,
                fault(r),
            ),
    {
        proof {
            reveal(EncryptedOtaStorage::has_staged);
        }
        let ghost start = self.hw@;
        let ghost chip = self.hw;
        let ghost ss = start.sector as int;
        let ghost sane = self.has_place(block_addr);
        let ghost sectors: Set<int> = if sane {
            self.pending_sectors().insert(block_addr as int / ss)
        } else {
            Set::full()
        };
        let block_size: u32 = self.hw.enc_block_size();
        let ghost t = self.track();
        let ghost mut made: Seq<Step> = Seq::empty();
        let ghost settling = t.settle_steps(block_addr);
        let ghost kept = t.settled(block_addr);
        let ghost fetching = kept.fetch_steps(block_addr, part@.len() as int);
        let ghost plan = settling + fetching;
        proof {
            lemma_follows_idle(chip, sane, ss, sectors);
            lemma_prefix_of_sum(settling, fetching);
        }
        let other: bool = match &self.pending {
            Some(p) => p.addr != block_addr,
            None => false,
        };
        if other {
            let flush: Result<(), FlashError> = self.flush_pending();
            proof {
                lemma_commit_works(*old(self), self.hw, fault(flush), sane, sectors);
                made = t.flush_steps();
                if sane && flush is Err {
                    lemma_follows_weaken(
                        chip,
                        self.hw,
                        fault(flush),
                        sane,
                        sane,
                        ss,
                        sectors,
                        sectors,
                        made,
                        plan,
                    );
                    let some = old(self).pending_sectors();
                    lemma_works_idle(chip, true, ss, sectors);
                    self.lemma_fails_clean(*old(self), *old(self), fault(flush), some, sectors);
                }
            }
            flush?;
            proof {
                let calls = choose|calls: Seq<Call>| #[trigger]
                    runs(chip, calls, self.hw, None, old(self).clean()) && old(self).commits_by(
                        calls,
                        None,
                    ) && self.keeps_track(*old(self), calls, None);
                lemma_flushed_track(*old(self), *self, calls);
            }
        }
        let ghost settled = *self;
        proof {
            assert(made == settling);
            assert(settled.track() == kept);
            lemma_follows_works(chip, self.hw, None, sane, ss, sectors, made);
            if sane {
                assert forall|k: OtaModel| #[trigger] old(self).matches(k) implies settled.matches(
                    k.settled(block_addr as int),
                ) by {
                    reveal(EncryptedOtaStorage::matches);
                }
            }
        }

        if self.pending.is_none() {
            let mut data: [u8; MAX_ENC_BLOCK_SIZE] = [0xFFu8; MAX_ENC_BLOCK_SIZE];
            let is_partial: bool = off_in_block != 0 || part.len() < block_size as usize;
            if is_partial && self.hw.is_decrypt_mapped(block_addr) {
                let whole: &mut [u8] = &mut data;
                let (buf, _rest) = whole.split_at_mut(block_size as usize);
                let ghost before = self.hw;
                let ghost held = buf@;
                let read: Result<(), FlashError> = self.hw.read_decrypted(block_addr, buf);
                proof {
                    let call = Call::ReadDecrypted { offset: block_addr, buf: held, bytes: buf@ };
                    lemma_follows_push(
                        chip,
                        before,
                        call,
                        self.hw,
                        fault(read),
                        sane,
                        ss,
                        sectors,
                        made,
                    );
                    made = made.push(step_of(call));
                    lemma_follows_works(chip, self.hw, fault(read), sane, ss, sectors, made);
                    assert(made =~= settling + fetching);
                    if sane && read is Err {
                        lemma_follows_weaken(
                            chip,
                            self.hw,
                            fault(read),
                            sane,
                            sane,
                            ss,
                            sectors,
                            sectors,
                            made,
                            plan,
                        );
                    }
                    assert(answers(before, call, self.hw(), fault(read)));
                    if sane {
                        self.lemma_same_is_clean(settled);
                    }
                }
                read?;
            }
            self.pending = Some(PendingBlock { addr: block_addr, data });
        }
        let ghost opened = *self;
        let mut p: PendingBlock = match self.pending.take() {
            Some(p) => p,
            None => {
                return Ok(());
            },
        };
        let ghost before = p.data@;
        let mut i: usize = 0;
        while i < part.len()
            invariant
                i <= part@.len(),
                off_in_block + part@.len() <= block_size <= MAX_ENC_BLOCK_SIZE,
                p.addr == block_addr,
                before.len() == MAX_ENC_BLOCK_SIZE,
                forall|j: int|
                    0 <= j < MAX_ENC_BLOCK_SIZE ==> #[trigger] p.data@[j] == (if off_in_block <= j
                        < off_in_block + i {
                        part@[j - off_in_block]
                    } else {
                        before[j]
                    }),
            decreases part@.len() - i,
        {
            p.data[off_in_block + i] = part[i];
            i += 1;
        }
        self.pending = Some(p);
        let ghost patched = *self;
        proof {
            assert(made =~= settling + fetching);
            assert(patched.track() == kept.opened(block_addr));
            lemma_follows_works(chip, self.hw, None, sane, ss, sectors, made);
            if sane {
                assert forall|b: int| #[trigger] patched.has_block(b) == settled.has_block(b) by {}
                assert(patched.clean());
                assert forall|k: OtaModel| #[trigger] old(self).matches(k) implies patched.matches(
                    k.settled(block_addr as int).opened(block_addr as int).patched(
                        off_in_block as int,
                        part@,
                    ),
                ) by {
                    patched.lemma_patched_matches(
                        settled,
                        k.settled(block_addr as int),
                        off_in_block as int,
                        before,
                        part@,
                    );
                }
            }
        }
        Ok(())
    }

    /// A storage is clean, and a block lies at `addr`.
    spec fn has_place(&self, addr: u32) -> bool {
        &&& self.clean()
        &&& addr as int % self.hw@.block as int == 0
        &&& addr + self.hw@.block <= self.hw@.size
    }

    /// Writes a part that lies in one block.
    fn write_part(&mut self, current: u32, part: &[u8]) -> (r: Result<(), FlashError>)
        requires
            old(self).hw().valid(),
            old(self).unlocked(),
            old(self).hw()@.sector > 0,
            0 < old(self).hw()@.block <= MAX_ENC_BLOCK_SIZE,
            part@.len() > 0,
            current - (current & !((old(self).hw()@.block - 1) as u32)) + part@.len()
                <= old(self).hw()@.block,
        ensures
            final(self).hw().valid(),
            final(self).unlocked(),
            final(self).hw()@.same_but_bytes(old(self).hw()@),
            works_in(
                old(self).hw(),
                final(self).hw(),
                fault(r),
                old(self).clean() && current < old(self).hw()@.size,
                old(self).hw()@.sector as int,
                if old(self).clean() && current < old(self).hw()@.size {
                    old(self).pending_sectors().insert(
                        current as int / old(self).hw()@.sector as int,
                    )
                } else {
                    Set::full()
                },
            ),
            r is Err ==> final(self).pending() is None,
            old(self).clean() && current < old(self).hw()@.size ==> final(self).has_put(
                *old(self),
                current as int,
                part@,
                fault(r),
            ),
    {
        proof {
            reveal(EncryptedOtaStorage::has_put);
        }
        let ghost start = self.hw@;
        let ghost chip = self.hw;
        let ghost ss = start.sector as int;
        let ghost sane = self.clean() && current < start.size;
        let ghost sectors: Set<int> = if sane {
            self.pending_sectors().insert(current as int / ss)
        } else {
            Set::full()
        };
        let block_size: u32 = self.hw.enc_block_size();
        let block_addr: u32 = current & !(block_size - 1);
        proof {
            super::lemma_mask_cuts_little(current, block_size);
            if sane {
                super::lemma_mask(current, block_size);
                super::model::lemma_block_on_chip(
                    current as int,
                    start.block as int,
                    start.sector as int,
                    start.size as int,
                );
                super::model::lemma_first_sector(
                    current as int,
                    start.block as int,
                    start.sector as int,
                    start.size as int,
                );
            }
            if self.clean() {
                super::lemma_mask(current, block_size);
                super::model::lemma_block_around(current as int, 0, start.block as int);
            }
            assert(sane == self.has_place(block_addr));
        }
        let off_in_block: usize = (current - block_addr) as usize;
        let ghost t = self.track();
        let ghost plan = t.part_steps(current as int, part@.len() as int);
        let ghost kept = t.settled(block_addr);
        let ghost mut made = t.settle_steps(block_addr) + kept.fetch_steps(
            block_addr,
            part@.len() as int,
        );
        let stage: Result<(), FlashError> = self.stage(block_addr, off_in_block, part);
        proof {
            reveal(EncryptedOtaStorage::has_staged);
            if sane {
                assert(t.block_of(current as int) == block_addr);
                let rest: Seq<Step> = if off_in_block + part@.len() == block_size {
                    kept.opened(block_addr).flush_steps()
                } else {
                    Seq::empty()
                };
                assert(plan == made + rest);
                lemma_prefix_of_sum(made, rest);
                if stage is Err {
                    lemma_follows_weaken(
                        chip,
                        self.hw,
                        fault(stage),
                        true,
                        true,
                        ss,
                        sectors,
                        sectors,
                        made,
                        plan,
                    );
                }
            }
        }
        stage?;
        let ghost patched = *self;
        if off_in_block + part.len() == block_size as usize {
            let flush: Result<(), FlashError> = self.flush_pending();
            proof {
                let some = patched.pending_sectors();
                let last = patched.track().flush_steps();
                assert(some.subset_of(sectors));
                lemma_commit_works(patched, self.hw, fault(flush), sane, some);
                lemma_works_on(chip, patched.hw, self.hw, fault(flush), sane, ss, some, sectors);
                if sane {
                    lemma_follows_on(
                        chip,
                        patched.hw,
                        self.hw,
                        fault(flush),
                        sane,
                        ss,
                        some,
                        sectors,
                        made,
                        last,
                    );
                    made = made + last;
                    assert(made == plan);
                }
                if sane && flush is Err {
                    self.lemma_fails_clean(*old(self), patched, fault(flush), some, sectors);
                }
            }
            flush?;
            proof {
                let calls = choose|calls: Seq<Call>| #[trigger]
                    runs(patched.hw, calls, self.hw, None, patched.clean()) && patched.commits_by(
                        calls,
                        None,
                    ) && self.keeps_track(patched, calls, None);
                lemma_flushed_track(patched, *self, calls);
            }
        }
        proof {
            if sane {
                assert(made =~= plan);
                assert forall|k: OtaModel| #[trigger] old(self).matches(k) implies self.matches(
                    k.write(current as int, part@),
                ) by {
                    reveal(EncryptedOtaStorage::matches);
                    super::model::lemma_write_in_block(k, current as int, part@);
                }
            }
        }
        Ok(())
    }

    /// Writes `bytes` from `offset` on. What ends inside a block stays staged
    /// until the block is full, another block is written, or a flush.
    pub fn write(&mut self, offset: u32, bytes: &[u8]) -> (r: Result<(), FlashError>)
        requires
            old(self).hw().valid(),
            old(self).hw()@.sector > 0,
            0 < old(self).hw()@.block <= MAX_ENC_BLOCK_SIZE,
            super::in_bounds(offset as int, bytes@.len() as int, old(self).hw()@.size as int)
                ==> offset + bytes@.len() <= u32::MAX,
        ensures
            final(self).hw().valid(),
            !super::in_bounds(offset as int, bytes@.len() as int, old(self).hw()@.size as int)
                ==> r == Err::<(), FlashError>(FlashError::OutOfBounds) && *final(self) == *old(
                self,
            ),
            final(self).hw()@.same_but_bytes(
                FlashState { writable: final(self).hw()@.writable, ..old(self).hw()@ },
            ),
            r is Ok ==> final(self).unlocked(),
            old(self).unlocked() ==> final(self).unlocked(),
            final(self).unlocked() && !old(self).unlocked() ==> exists|chip: H| #[trigger]
                H::unlocks(old(self).hw(), chip, None),
            super::in_bounds(offset as int, bytes@.len() as int, old(self).hw()@.size as int)
                ==> works_in(
                old(self).hw(),
                final(self).hw(),
                fault(r),
                old(self).clean(),
                old(self).hw()@.sector as int,
                old(self).touched(offset as int, bytes@.len() as int),
            ),
            super::in_bounds(offset as int, bytes@.len() as int, old(self).hw()@.size as int)
                && r is Err ==> if final(self).unlocked() {
                final(self).pending() is None
            } else {
                &&& H::unlocks(old(self).hw(), final(self).hw(), fault(r))
                &&& final(self).pending() == old(self).pending()
                &&& final(self).current_sector() == old(self).current_sector()
                &&& final(self).written() == old(self).written()
            },
            super::in_bounds(offset as int, bytes@.len() as int, old(self).hw()@.size as int)
                && old(self).clean() ==> {
                &&& follows(
                    old(self).hw(),
                    final(self).hw(),
                    fault(r),
                    true,
                    old(self).hw()@.sector as int,
                    old(self).touched(offset as int, bytes@.len() as int),
                    old(self).write_steps(offset as int, bytes@.len() as int),
                )
                &&& r is Ok ==> final(self).track() == old(self).track().write_done(
                    offset as int,
                    bytes@.len() as int,
                )
                &&& r is Err ==> final(self).fails_clean(
                    *old(self),
                    fault(r),
                    old(self).touched(offset as int, bytes@.len() as int),
                )
                &&& r is Ok ==> final(self).clean()
                &&& r is Ok ==> final(self).has_written(*old(self), offset as int, bytes@)
                &&& old(self).in_order() && r is Ok ==> final(self).in_order()
                &&& old(self).in_order() && saves_blocks(old(self).hw()@) ==> r is Ok
            },
    {
        super::check_bounds(offset, bytes.len(), self.hw.capacity())?;
        let ghost start = self.hw@;
        let ghost chip = self.hw;
        let ghost ss = start.sector as int;
        let ghost clean = self.clean();
        let ghost sectors = self.touched(offset as int, bytes@.len() as int);
        let ghost t = self.track();
        let ghost plan = self.write_steps(offset as int, bytes@.len() as int);
        let ghost opening = self.opening();
        let unlock: Result<(), FlashError> = self.unlock_once();
        proof {
            let none: Seq<Step> = Seq::empty();
            lemma_works_idle(chip, clean, ss, sectors);
            lemma_follows_idle(chip, clean, ss, sectors);
            if !old(self).unlocked {
                let call = Call::Unlock;
                lemma_works_push(chip, chip, call, self.hw, fault(unlock), clean, ss, sectors);
                lemma_follows_push(
                    chip,
                    chip,
                    call,
                    self.hw,
                    fault(unlock),
                    clean,
                    ss,
                    sectors,
                    none,
                );
                assert(none.push(step_of(call)) =~= opening);
                if unlock is Err {
                    lemma_prefix_of_sum(opening, t.write_steps(offset as int, bytes@.len() as int));
                    lemma_follows_weaken(
                        chip,
                        self.hw,
                        fault(unlock),
                        clean,
                        clean,
                        ss,
                        sectors,
                        sectors,
                        opening,
                        plan,
                    );
                }
                assert(answers(chip, call, self.hw(), fault(unlock)));
                if clean && self.hw@ == chip@ {
                    self.lemma_same_is_clean(*old(self));
                }
            }
        }
        unlock?;
        let ghost opened = *self;
        let block_size: u32 = self.hw.enc_block_size();
        proof {
            assert(plan =~= opening + t.write_steps(offset as int, bytes@.len() as int));
            assert(opening =~= opening + t.write_steps(offset as int, 0));
            assert(self.track() == t);
            assert forall|b: int| #[trigger] self.has_block(b) == old(self).has_block(b) by {}
            assert(clean ==> self.clean());
            assert forall|k: OtaModel| #[trigger] old(self).matches(k) implies self.matches(
                k.write(offset as int, bytes@.take(0)),
            ) by {
                reveal(EncryptedOtaStorage::matches);
            }
            if clean {
                reveal(EncryptedOtaStorage::has_come_to);
                assert(self.has_come_to(*old(self), offset as int, bytes@, 0));
            }
        }
        let mut done: usize = 0;
        while done < bytes.len()
            invariant
                self.hw.valid(),
                self.unlocked,
                done <= bytes@.len(),
                offset + bytes@.len() <= start.size,
                offset + bytes@.len() <= u32::MAX,
                start.sector > 0,
                0 < block_size <= MAX_ENC_BLOCK_SIZE,
                block_size == start.block,
                !old(self).unlocked ==> H::unlocks(chip, opened.hw, None),
                self.hw@.same_but_bytes(opened.hw@),
                opened.hw@ == (FlashState { writable: opened.hw@.writable, ..start }),
                start == old(self).hw@,
                chip == old(self).hw,
                ss == start.sector,
                clean == old(self).clean(),
                sectors == old(self).touched(offset as int, bytes@.len() as int),
                works_in(chip, self.hw, None, clean, ss, sectors),
                clean ==> self.has_come_to(*old(self), offset as int, bytes@, done as int),
            decreases bytes@.len() - done,
        {
            let current: u32 = offset + done as u32;
            proof {
                super::lemma_mask_cuts_little(current, block_size);
            }
            let off_in_block: usize = (current - (current & !(block_size - 1))) as usize;
            let room: usize = block_size as usize - off_in_block;
            let to_write: usize = if room < bytes.len() - done {
                room
            } else {
                bytes.len() - done
            };
            let ghost before = *self;
            proof {
                if clean {
                    reveal(EncryptedOtaStorage::has_come_to);
                    super::lemma_mask(current, block_size);
                }
            }
            let part: &[u8] = &bytes[done..done + to_write];
            let write: Result<(), FlashError> = self.write_part(current, part);
            proof {
                let some: Set<int> = if before.clean() && current < start.size {
                    before.pending_sectors().insert(current as int / ss)
                } else {
                    Set::full()
                };
                super::plain::lemma_between(
                    offset as int,
                    current as int,
                    offset + bytes@.len() - 1,
                    ss,
                );
                let some_more: Set<int> = if clean {
                    some
                } else {
                    Set::full()
                };
                assert(some.subset_of(some_more));
                assert(some_more.subset_of(sectors));
                super::calls::lemma_works_weaken(
                    before.hw,
                    self.hw,
                    fault(write),
                    before.clean() && current < start.size,
                    clean,
                    ss,
                    some,
                    some_more,
                );
                lemma_works_on(
                    chip,
                    before.hw,
                    self.hw,
                    fault(write),
                    clean,
                    ss,
                    some_more,
                    sectors,
                );
                if clean {
                    self.lemma_part_put(
                        *old(self),
                        before,
                        offset as int,
                        bytes@,
                        done as int,
                        to_write as int,
                        fault(write),
                    );
                }
            }
            write?;
            done += to_write;
        }
        proof {
            assert(bytes@.take(bytes@.len() as int) =~= bytes@);
            if clean {
                reveal(EncryptedOtaStorage::has_come_to);
            }
        }
        Ok(())
    }
}

/// Two writes in a row are one: an image that arrives in pieces is written as
/// if it had arrived at once.
pub proof fn law_writes_in_a_row<H: FlashHardware>(
    start: EncryptedOtaStorage<H>,
    middle: EncryptedOtaStorage<H>,
    end: EncryptedOtaStorage<H>,
    offset: int,
    first: Seq<u8>,
    second: Seq<u8>,
)
    requires
        middle.has_written(start, offset, first),
        end.has_written(middle, offset + first.len(), second),
    ensures
        end.has_written(start, offset, first + second),
{
    assert forall|k: OtaModel| #[trigger] start.matches(k) implies end.matches(
        k.write(offset, first + second),
    ) by {
        super::model::law_pieces_add_up(k, offset, first, second);
        assert(middle.matches(k.write(offset, first)));
    }
}

/// What a storage gives back: bytes that are written and flushed are what a
/// decrypted read returns, and the other sectors keep their bytes, raw and
/// decrypted. A write into a part of a mapped block keeps the other bytes of
/// that block, and mapped blocks that were written to the sector before keep
/// theirs.
///
/// If the write begins in the sector that is being written, its blocks are
/// mapped: of blocks that are not, a rewrite of the sector keeps the raw bytes,
/// and no more is said.
pub proof fn law_write_flush_read<H: FlashHardware>(
    start: EncryptedOtaStorage<H>,
    written: EncryptedOtaStorage<H>,
    flushed: EncryptedOtaStorage<H>,
    offset: int,
    bytes: Seq<u8>,
)
    requires
        start.is_ready(offset, bytes.len() as int),
        bytes.len() > 0,
        0 <= offset,
        super::in_bounds(offset, bytes.len() as int, start.hw()@.size as int),
        flushed.hw()@.same_but_bytes(
            FlashState { writable: flushed.hw()@.writable, ..start.hw()@ },
        ),
        written.has_written(start, offset, bytes),
        flushed.has_flushed(written),
    ensures
        flushed.hw()@.decrypted.subrange(offset, offset + bytes.len()) == bytes,
        flushed.hw()@.same_outside(
            start.hw()@,
            super::plain::round_down(offset, start.hw()@.sector as int),
            super::plain::round_up(offset + bytes.len(), start.hw()@.sector as int)
                - super::plain::round_down(offset, start.hw()@.sector as int),
        ),
        ({
            let block = start.hw()@.block as int;
            let first = super::plain::round_down(offset, block);
            let last = offset + bytes.len() - 1;
            start.hw()@.covers(first, block) ==> forall|a: int|
                first <= a < offset || offset + bytes.len() <= a < first + block
                    && super::plain::round_down(last, block) == first
                    ==> #[trigger] flushed.hw()@.decrypted[a] == start.hw()@.decrypted[a]
        }),
        forall|a: int|
            super::model::standing(start.model(), offset, a) && !blocks_around(
                start.hw()@,
                offset,
                bytes.len() as int,
            ).contains(a) ==> #[trigger] flushed.hw()@.decrypted[a] == start.hw()@.decrypted[a],
{
    reveal(EncryptedOtaStorage::matches);
    let k = start.model();
    start.lemma_model_matches();
    let around = blocks_around(start.hw()@, offset, bytes.len() as int);
    let last = offset + bytes.len() - 1;
    start.lemma_ready_model(offset, bytes.len() as int);
    super::model::law_read_back(k, offset, bytes);
    let w = k.write(offset, bytes).commit();
    assert(written.matches(k.write(offset, bytes)));
    assert(flushed.matches(w));
    let sector = start.hw()@.sector as int;
    lemma_sector_indices(offset, last, sector);
    lemma_sector_indices(offset, last + 1, sector);
    vstd::arithmetic::div_mod::lemma_fundamental_div_mod(last, sector);
    assert((last / sector) * sector == sector * (last / sector)) by (nonlinear_arith);
    assert((last / sector + 1) * sector == (last / sector) * sector + sector) by (nonlinear_arith);
    assert(super::plain::round_up(last + 1, sector) == (last / sector + 1) * sector) by {
        assert(last + 1 + sector - 1 == last + sector);
        vstd::arithmetic::div_mod::lemma_mod_add_multiples_vanish(last, sector);
    }
    let read = flushed.hw()@.decrypted.subrange(offset, offset + bytes.len());
    assert forall|i: int| 0 <= i < bytes.len() implies #[trigger] read[i] == bytes[i] by {
        assert(w.decrypted[offset + i] == Some(bytes[i]));
    }
    assert(read =~= bytes);
    let low = super::plain::round_down(offset, sector);
    let high = super::plain::round_up(offset + bytes.len(), sector);
    assert forall|a: int|
        0 <= a < start.hw()@.size && !(low <= a < high) implies #[trigger] flushed.hw()@.decrypted[a]
        == start.hw()@.decrypted[a] by {
        assert(w.decrypted[a] == k.decrypted[a]);
        assert(k.decrypted[a] == Some(start.hw()@.decrypted[a]));
    }
    assert forall|a: int|
        0 <= a < start.hw()@.size && !(low <= a < high) implies #[trigger] flushed.hw()@.raw[a]
        == start.hw()@.raw[a] by {
        assert(w.raw[a] == k.raw[a]);
        assert(k.raw[a] == Some(start.hw()@.raw[a]));
    }
    assert forall|a: int|
        super::model::standing(k, offset, a) && !around.contains(
            a,
        ) implies #[trigger] flushed.hw()@.decrypted[a] == start.hw()@.decrypted[a] by {
        let s = k.current.unwrap();
        assert(0 <= s * k.sector) by (nonlinear_arith)
            requires
                0 <= s,
                0 < k.sector,
        ;
        assert(w.decrypted[a] == k.decrypted[a]);
        assert(k.decrypted[a] == Some(start.hw()@.decrypted[a]));
    }
    let block = start.hw()@.block as int;
    let first = super::plain::round_down(offset, block);
    if start.hw()@.covers(first, block) {
        assert(super::span(first, block).contains(first));
        assert(0 <= offset % block <= offset) by (nonlinear_arith)
            requires
                0 <= offset,
                0 < block,
        ;
        assert forall|a: int|
            first <= a < offset || offset + bytes.len() <= a < first + block
                && super::plain::round_down(last, block)
                == first implies #[trigger] flushed.hw()@.decrypted[a]
            == start.hw()@.decrypted[a] by {
            assert(w.decrypted[a] == k.block_content(first)[a - first]);
            assert(k.decrypted[a] == Some(start.hw()@.decrypted[a]));
        }
    }
}

/// Pieces, one after the other.
pub open spec fn joined(pieces: Seq<Seq<u8>>) -> Seq<u8>
    decreases pieces.len(),
{
    if pieces.len() == 0 {
        Seq::empty()
    } else {
        joined(pieces.drop_last()) + pieces.last()
    }
}

/// The storages follow each other, each with one piece more written than the
/// one before, from `offset` on.
pub open spec fn piecewise<H: FlashHardware>(
    steps: Seq<EncryptedOtaStorage<H>>,
    offset: int,
    pieces: Seq<Seq<u8>>,
) -> bool {
    &&& steps.len() == pieces.len() + 1
    &&& forall|i: int|
        0 <= i < pieces.len() ==> (#[trigger] steps[i + 1]).has_written(
            steps[i],
            offset + joined(pieces.take(i)).len(),
            pieces[i],
        )
}

/// Pieces that are written one after the other are written as if they had
/// arrived at once, however they are cut.
pub proof fn law_pieces_in_a_row<H: FlashHardware>(
    steps: Seq<EncryptedOtaStorage<H>>,
    offset: int,
    pieces: Seq<Seq<u8>>,
)
    requires
        piecewise(steps, offset, pieces),
    ensures
        steps.last().has_written(steps[0], offset, joined(pieces)),
    decreases pieces.len(),
{
    if pieces.len() == 0 {
        assert forall|k: OtaModel| #[trigger] steps[0].matches(k) implies steps.last().matches(
            k.write(offset, joined(pieces)),
        ) by {
            assert(k.write(offset, joined(pieces)) == k);
        }
    } else {
        let n = pieces.len() - 1;
        let fewer = pieces.drop_last();
        assert(pieces.take(n) =~= fewer);
        assert forall|i: int| 0 <= i < fewer.len() implies (#[trigger] steps.drop_last()[i
            + 1]).has_written(
            steps.drop_last()[i],
            offset + joined(fewer.take(i)).len(),
            fewer[i],
        ) by {
            assert(fewer.take(i) =~= pieces.take(i));
            assert(steps[i + 1].has_written(
                steps[i],
                offset + joined(pieces.take(i)).len(),
                pieces[i],
            ));
        }
        law_pieces_in_a_row(steps.drop_last(), offset, fewer);
        assert(steps[n + 1].has_written(
            steps[n],
            offset + joined(pieces.take(n)).len(),
            pieces[n],
        ));
        law_writes_in_a_row(
            steps[0],
            steps[n],
            steps.last(),
            offset,
            joined(fewer),
            pieces.last(),
        );
    }
}

/// An image that is written in pieces is what a decrypted read returns after a
/// flush, and its full blocks are that before the flush too. Sectors that the
/// image does not meet keep their bytes, raw and decrypted.
pub proof fn law_image_in_pieces<H: FlashHardware>(
    steps: Seq<EncryptedOtaStorage<H>>,
    flushed: EncryptedOtaStorage<H>,
    offset: int,
    pieces: Seq<Seq<u8>>,
)
    requires
        piecewise(steps, offset, pieces),
        flushed.has_flushed(steps.last()),
        steps[0].is_ready(offset, joined(pieces).len() as int),
        joined(pieces).len() > 0,
        0 <= offset,
        super::in_bounds(offset, joined(pieces).len() as int, steps[0].hw()@.size as int),
        steps.last().hw()@.same_but_bytes(
            FlashState { writable: steps.last().hw()@.writable, ..steps[0].hw()@ },
        ),
        flushed.hw()@.same_but_bytes(
            FlashState { writable: flushed.hw()@.writable, ..steps[0].hw()@ },
        ),
    ensures
        flushed.hw()@.decrypted.subrange(offset, offset + joined(pieces).len()) == joined(pieces),
        forall|a: int|
            offset <= a < super::plain::round_down(
                offset + joined(pieces).len(),
                steps[0].hw()@.block as int,
            ) ==> #[trigger] steps.last().hw()@.decrypted[a] == joined(pieces)[a - offset],
        flushed.hw()@.same_outside(
            steps[0].hw()@,
            super::plain::round_down(offset, steps[0].hw()@.sector as int),
            super::plain::round_up(
                offset + joined(pieces).len(),
                steps[0].hw()@.sector as int,
            ) - super::plain::round_down(offset, steps[0].hw()@.sector as int),
        ),
{
    let start = steps[0];
    let image = joined(pieces);
    law_pieces_in_a_row(steps, offset, pieces);
    law_write_flush_read(start, steps.last(), flushed, offset, image);
    reveal(EncryptedOtaStorage::matches);
    let k = start.model();
    start.lemma_model_matches();
    start.lemma_ready_model(offset, image.len() as int);
    super::model::law_full_blocks(k, offset, image);
    let w = k.write(offset, image);
    assert(steps.last().matches(w));
    let block = start.hw()@.block as int;
    let end = super::plain::round_down(offset + image.len(), block);
    assert(end <= offset + image.len()) by {
        super::model::lemma_block_around(offset + image.len(), 0, block);
    }
    assert forall|a: int| offset <= a < end implies #[trigger] steps.last().hw()@.decrypted[a]
        == image[a - offset] by {
        assert(w.decrypted[a] == Some(image[a - offset]));
    }
}

/// A write that stays inside one block, and does not reach its end, is staged:
/// the staged block holds the bytes of the write. Its other bytes are those
/// that were staged before or, where no block was, those that a decrypted read
/// of the mapped block returned.
pub proof fn law_small_write_is_staged<H: FlashHardware>(
    start: EncryptedOtaStorage<H>,
    written: EncryptedOtaStorage<H>,
    offset: int,
    part: Seq<u8>,
)
    requires
        start.clean(),
        part.len() > 0,
        0 <= offset < start.hw()@.size,
        offset % start.hw()@.block as int + part.len() < start.hw()@.block,
        written.hw()@.block == start.hw()@.block,
        start.pending() matches Some(p) ==> p.addr == super::plain::round_down(
            offset,
            start.hw()@.block as int,
        ),
        start.pending() is None ==> start.hw()@.covers(
            super::plain::round_down(offset, start.hw()@.block as int),
            start.hw()@.block as int,
        ),
        written.has_written(start, offset, part),
    ensures
        ({
            let block = start.hw()@.block as int;
            let addr = super::plain::round_down(offset, block);
            let held = match start.pending() {
                Some(p) => p.data@.take(block),
                None => start.hw()@.decrypted.subrange(addr, addr + block),
            };
            &&& written.pending() matches Some(p) && p.addr == addr && p.data@.take(block)
                == super::splice(held, offset - addr, part)
        }),
{
    reveal(EncryptedOtaStorage::matches);
    let k = start.model();
    let block = start.hw()@.block as int;
    let addr = super::plain::round_down(offset, block);
    start.lemma_model_matches();
    super::model::lemma_write_in_block(k, offset, part);
    super::model::lemma_block_on_chip(
        offset,
        block,
        start.hw()@.sector as int,
        start.hw()@.size as int,
    );
    let w = k.write(offset, part);
    assert(written.matches(w));
    if start.pending() is None {
        assert(super::span(addr, block).contains(addr));
    }
    let held = match start.pending() {
        Some(p) => p.data@.take(block),
        None => start.hw()@.decrypted.subrange(addr, addr + block),
    };
    let staged = w.pending.unwrap();
    let p = written.pending().unwrap();
    let all = super::splice(held, offset - addr, part);
    assert forall|i: int| 0 <= i < block implies #[trigger] p.data@.take(block)[i] == all[i] by {
        assert(staged.data[i] == Some(all[i]));
    }
    assert(p.data@.take(block) =~= all);
}

/// What a flush does: the staged block is what a decrypted read returns.
/// Other sectors keep their bytes, raw and decrypted.
pub proof fn law_flush_writes_block<H: FlashHardware>(
    start: EncryptedOtaStorage<H>,
    flushed: EncryptedOtaStorage<H>,
)
    requires
        start.clean(),
        start.pending() is Some,
        flushed.hw()@.same_but_bytes(start.hw()@),
        flushed.has_flushed(start),
    ensures
        ({
            let p = start.pending().unwrap();
            let block = start.hw()@.block as int;
            let sector = start.hw()@.sector as int;
            &&& flushed.pending() is None
            &&& flushed.hw()@.decrypted.subrange(p.addr as int, p.addr + block) == p.data@.take(
                block,
            )
            &&& flushed.hw()@.same_outside(
                start.hw()@,
                super::plain::round_down(p.addr as int, sector),
                sector,
            )
        }),
{
    reveal(EncryptedOtaStorage::matches);
    let k = start.model();
    let p = start.pending().unwrap();
    let block = start.hw()@.block as int;
    let sector = start.hw()@.sector as int;
    start.lemma_model_matches();
    super::model::law_flush(k);
    let c = k.commit();
    assert(flushed.matches(c));
    lemma_sector_indices(p.addr as int, p.addr as int, sector);
    let read = flushed.hw()@.decrypted.subrange(p.addr as int, p.addr + block);
    assert forall|i: int| 0 <= i < block implies #[trigger] read[i] == p.data@.take(block)[i] by {
        assert(c.decrypted.subrange(p.addr as int, p.addr + block)[i]
            == k.pending.unwrap().data[i]);
        assert(c.decrypted[p.addr + i] is Some);
    }
    assert(read =~= p.data@.take(block));
    let low = super::plain::round_down(p.addr as int, sector);
    assert forall|a: int|
        0 <= a < start.hw()@.size && !(low <= a < low
            + sector) implies #[trigger] flushed.hw()@.decrypted[a] == start.hw()@.decrypted[a] by {
        assert(c.decrypted[a] == k.decrypted[a]);
        assert(k.decrypted[a] == Some(start.hw()@.decrypted[a]));
    }
    assert forall|a: int|
        0 <= a < start.hw()@.size && !(low <= a < low
            + sector) implies #[trigger] flushed.hw()@.raw[a] == start.hw()@.raw[a] by {
        assert(c.raw[a] == k.raw[a]);
        assert(k.raw[a] == Some(start.hw()@.raw[a]));
    }
}

/// The addresses of the blocks that `length` bytes from `offset` on touch.
pub open spec fn blocks_around(state: FlashState, offset: int, length: int) -> Set<int> {
    let block = state.block as int;
    let first = super::plain::round_down(offset, block);
    super::span(first, super::plain::round_down(offset + length - 1, block) + block - first)
}

/// The number of sectors that `length` bytes from `offset` on touch; of no
/// bytes, the one around `offset` unless a sector begins there.
pub open spec fn sector_count(offset: int, length: int, sector: int) -> int {
    (offset + length) / sector + if (offset + length) % sector == 0 {
        0int
    } else {
        1
    } - offset / sector
}

/// What putting a staged block on the chip consists of, and what it leaves
/// alone.
proof fn lemma_commit_works<H: FlashHardware>(
    before: EncryptedOtaStorage<H>,
    after: H,
    fault: Option<FlashError>,
    clean: bool,
    sectors: Set<int>,
)
    requires
        exists|calls: Seq<Call>| #[trigger]
            runs(before.hw(), calls, after, fault, before.clean()) && before.commits_by(
                calls,
                fault,
            ),
        before.pending() is Some,
        clean ==> before.clean(),
        before.pending_sectors().subset_of(sectors),
    ensures
        follows(
            before.hw(),
            after,
            fault,
            clean,
            before.hw()@.sector as int,
            sectors,
            before.track().flush_steps(),
        ),
        works_in(before.hw(), after, fault, clean, before.hw()@.sector as int, sectors),
{
    let calls = choose|calls: Seq<Call>| #[trigger]
        runs(before.hw(), calls, after, fault, before.clean()) && before.commits_by(calls, fault);
    super::calls::lemma_runs_weaken(before.hw(), calls, after, fault, before.clean(), clean);
    assert(all_keep_to(calls, before.hw()@.sector as int, sectors));
}

/// One part more of a write that follows its plan.
proof fn lemma_next_part<H: FlashHardware>(
    t: Track,
    opening: Seq<Step>,
    chip: H,
    before: H,
    after: H,
    fault: Option<FlashError>,
    some: Set<int>,
    sectors: Set<int>,
    offset: int,
    done: int,
    n: int,
    total: int,
)
    requires
        t.block > 0,
        0 <= offset,
        0 <= done,
        0 < n,
        done + n <= total,
        done == 0 || (offset + done) % t.block as int == 0,
        (offset + done) % t.block as int + n <= t.block,
        (offset + done) % t.block as int + n == t.block || done + n == total,
        some.subset_of(sectors),
        follows(
            chip,
            before,
            None,
            true,
            t.sector as int,
            sectors,
            opening + t.write_steps(offset, done),
        ),
        follows(
            before,
            after,
            fault,
            true,
            t.sector as int,
            some,
            t.write_done(offset, done).part_steps(offset + done, n),
        ),
    ensures
        follows(
            chip,
            after,
            fault,
            true,
            t.sector as int,
            sectors,
            opening + t.write_steps(
                offset,
                if fault is None {
                    done + n
                } else {
                    total
                },
            ),
        ),
        t.write_done(offset, done + n) == t.write_done(offset, done).part_done(offset + done, n),
        done + n == total || (offset + done + n) % t.block as int == 0,
{
    let head = opening + t.write_steps(offset, done);
    let next = t.write_done(offset, done).part_steps(offset + done, n);
    let all = t.write_steps(offset, done + n);
    let ss = t.sector as int;
    lemma_head(t, offset, done, n);
    lemma_follows_on(chip, before, after, fault, true, ss, some, sectors, head, next);
    assert(head + next =~= opening + all);
    lemma_block_end(offset + done, t.block as int);
    if fault is Some {
        let whole = t.write_steps(offset, total);
        lemma_write_prefix(t, offset, done + n, total);
        lemma_prefix_in_sum(opening, all, whole);
        lemma_follows_weaken(
            chip,
            after,
            fault,
            true,
            true,
            ss,
            sectors,
            sectors,
            opening + all,
            opening + whole,
        );
    }
}

/// A part that fills the rest of a block ends at a block boundary.
proof fn lemma_block_end(a: int, block: int)
    requires
        block > 0,
    ensures
        (a + block - a % block) % block == 0,
{
    vstd::arithmetic::div_mod::lemma_fundamental_div_mod(a, block);
    let q = a / block;
    assert(block * q == q * block && (q + 1) * block == q * block + block) by (nonlinear_arith);
    vstd::arithmetic::div_mod::lemma_mod_multiples_basic(q + 1, block);
}

/// What a storage keeps in mind after a flush.
proof fn lemma_flushed_track<H: FlashHardware>(
    before: EncryptedOtaStorage<H>,
    after: EncryptedOtaStorage<H>,
    calls: Seq<Call>,
)
    requires
        after.keeps_track(before, calls, None),
        after.hw()@.same_but_bytes(before.hw()@),
    ensures
        after.track() == before.track().flushed(),
{
    if before.pending() is Some {
        lemma_among(before.written(), before.pending()->Some_0.addr);
    }
}

/// An address that is among the addresses of a list is contained in it.
proof fn lemma_among(list: Seq<u32>, addr: u32)
    ensures
        list.contains(addr) == among(list, list.len() as int, addr as int),
{
    if list.contains(addr) {
        let i = choose|i: int| 0 <= i < list.len() && list[i] == addr;
        assert(list[i] == addr);
    }
}

/// An address of a sector has the index of that sector.
proof fn lemma_sector_of(a: int, index: int, sector: int)
    requires
        sector > 0,
        index * sector <= a < index * sector + sector,
    ensures
        a / sector == index,
{
    vstd::arithmetic::div_mod::lemma_fundamental_div_mod_converse(
        a,
        sector,
        index,
        a - index * sector,
    );
}

/// The sector indices that a range touches, and where they begin and end.
proof fn lemma_sector_indices(offset: int, last: int, step: int)
    requires
        0 <= offset <= last,
        step > 0,
    ensures
        (offset / step) * step == super::plain::round_down(offset, step),
        ({
            let end = if last % step == 0 {
                last / step
            } else {
                last / step + 1
            };
            &&& end * step == super::plain::round_up(last, step)
            &&& offset / step <= end <= last
        }),
{
    vstd::arithmetic::div_mod::lemma_fundamental_div_mod(offset, step);
    vstd::arithmetic::div_mod::lemma_fundamental_div_mod(last, step);
    let q = last / step;
    let r = last % step;
    assert((offset / step) * step == step * (offset / step)) by (nonlinear_arith);
    assert(0 <= offset % step < step && 0 <= r < step) by (nonlinear_arith)
        requires
            r == last % step,
            step > 0,
    ;
    assert(q * step == step * q) by (nonlinear_arith);
    assert((q + 1) * step == q * step + step) by (nonlinear_arith);
    assert(offset / step <= q) by (nonlinear_arith)
        requires
            step * (offset / step) <= offset <= last < step * q + step,
            step > 0,
    ;
    assert(q <= last && (r > 0 ==> q < last)) by (nonlinear_arith)
        requires
            last == step * q + r,
            0 <= r < step,
            step > 0,
            last >= 0,
    ;
    if r == 0 {
        vstd::arithmetic::div_mod::lemma_fundamental_div_mod_converse(
            last + step - 1,
            step,
            q,
            step - 1,
        );
    } else {
        vstd::arithmetic::div_mod::lemma_fundamental_div_mod_converse(
            last + step - 1,
            step,
            q + 1,
            r - 1,
        );
    }
}

/// What is written can be read: whole blocks at once, in the decrypted view. A
/// range that is not on the chip is refused, and nothing changes.
pub proof fn law_write<H: FlashHardware>(
    s: &mut EncryptedOtaStorage<H>,
    offset: u32,
    bytes: &[u8],
    r: Result<(), FlashError>,
)
    requires
        call_ensures(EncryptedOtaStorage::<H>::write, (s, offset, bytes), r),
        old(s).is_ready(offset as int, bytes@.len() as int),
    ensures
        offset + bytes@.len() > old(s).hw()@.size ==> r == Err::<(), FlashError>(
            FlashError::OutOfBounds,
        ) && *final(s) == *old(s),
        r is Ok ==> {
            let end = super::plain::round_down(offset + bytes@.len(), old(s).hw()@.block as int);
            &&& offset + bytes@.len() <= old(s).hw()@.size
            &&& forall|a: int|
                offset <= a < end ==> #[trigger] final(s).hw()@.decrypted[a] == bytes@[a - offset]
            &&& final(s).unlocked()
        },
        old(s).in_order() && saves_blocks(old(s).hw()@) && offset + bytes@.len() <= old(
            s,
        ).hw()@.size ==> r is Ok,
{
    if r is Ok {
        reveal(EncryptedOtaStorage::matches);
        let k = old(s).model();
        old(s).lemma_model_matches();
        old(s).lemma_ready_model(offset as int, bytes@.len() as int);
        super::model::law_full_blocks(k, offset as int, bytes@);
        let w = k.write(offset as int, bytes@);
        assert(final(s).matches(w));
        let block = old(s).hw()@.block as int;
        super::model::lemma_block_around(offset + bytes@.len(), 0, block);
        let end = super::plain::round_down(offset + bytes@.len(), block);
        assert forall|a: int| offset <= a < end implies #[trigger] final(s).hw()@.decrypted[a]
            == bytes@[a - offset] by {
            assert(w.decrypted[a] == Some(bytes@[a - offset]));
        }
    }
}

/// What is staged can be read after a flush, and the other sectors keep their
/// bytes, raw and decrypted. A flush with nothing staged does nothing.
pub proof fn law_flush<H: FlashHardware>(s: &mut EncryptedOtaStorage<H>, r: Result<(), FlashError>)
    requires
        call_ensures(EncryptedOtaStorage::<H>::flush, (s,), r),
        old(s).clean(),
    ensures
        final(s).pending() is None,
        old(s).pending() is None ==> r is Ok && *final(s) == *old(s),
        r is Ok ==> (old(s).pending() matches Some(p) ==> {
            let block = old(s).hw()@.block as int;
            let sector = old(s).hw()@.sector as int;
            &&& final(s).hw()@.decrypted.subrange(p.addr as int, p.addr + block) == p.data@.take(
                block,
            )
            &&& final(s).hw()@.same_outside(
                old(s).hw()@,
                super::plain::round_down(p.addr as int, sector),
                sector,
            )
        }),
{
    if r is Ok && old(s).pending() is Some {
        law_flush_writes_block(*old(s), *final(s));
    }
}

/// An erase leaves every byte of the sectors that the range touches at `0xFF`,
/// and no other sector changes.
pub proof fn law_erase<H: FlashHardware>(
    s: &mut EncryptedOtaStorage<H>,
    offset: u32,
    length: u32,
    r: Result<(), FlashError>,
)
    requires
        call_ensures(EncryptedOtaStorage::<H>::erase_region, (s, offset, length), r),
        old(s).hw()@.whole_sectors(),
        super::plain::round_up(offset + length, old(s).hw()@.sector as int) <= old(s).hw()@.size,
        offset + length <= u32::MAX,
    ensures
        r is Ok ==> forall|a: int|
            offset <= a < offset + length ==> #[trigger] final(s).hw()@.raw[a] == 0xFF,
        r is Ok ==> {
            let sector = old(s).hw()@.sector as int;
            let first = super::plain::round_down(offset as int, sector);
            let end = super::plain::round_up(offset + length, sector);
            &&& first <= offset && offset - first < sector
            &&& offset + length <= end && end - (offset + length) < sector
            &&& first % sector == 0 && end % sector == 0
            &&& final(s).hw()@.same_outside(old(s).hw()@, first, end - first)
            &&& forall|a: int| first <= a < end ==> #[trigger] final(s).hw()@.raw[a] == 0xFF
        },
        old(s).in_order() ==> r is Ok,
        final(s).pending() == old(s).pending(),
        final(s).current_sector() == old(s).current_sector(),
{
    let sector = old(s).hw()@.sector as int;
    super::model::lemma_block_around(offset as int, 0, sector);
    super::model::lemma_block_around(offset + length + sector - 1, 0, sector);
}

/// A read in a mapped region is decrypted, any other is raw, and reading changes
/// nothing on flash and leaves what is staged.
pub proof fn law_read<H: FlashHardware>(
    s: &mut EncryptedOtaStorage<H>,
    offset: u32,
    bytes: &mut [u8],
    r: Result<(), FlashError>,
)
    requires
        call_ensures(EncryptedOtaStorage::<H>::read, (s, offset, bytes), r),
        old(s).hw()@.whole_sectors(),
    ensures
        final(s).hw()@ == old(s).hw()@ && final(s).pending() == old(s).pending(),
        final(bytes)@.len() == old(bytes)@.len(),
        offset + old(bytes)@.len() > old(s).hw()@.size ==> r == Err::<(), FlashError>(
            FlashError::OutOfBounds,
        ) && final(bytes)@ == old(bytes)@,
        r is Ok && !old(s).hw()@.mapped.contains(offset as int) ==> forall|i: int|
            0 <= i < old(bytes)@.len() ==> #[trigger] final(bytes)@[i] == old(s).hw()@.raw[offset
                + i],
        r is Ok && old(s).hw()@.mapped.contains(offset as int) && old(s).hw()@.covers(
            offset as int,
            old(bytes)@.len() as int,
        ) ==> forall|i: int|
            0 <= i < old(bytes)@.len() ==> #[trigger] final(bytes)@[i]
                == old(s).hw()@.decrypted[offset + i],
        old(s).hw()@.healthy && offset + old(bytes)@.len() <= old(s).hw()@.size && (
        !old(s).hw()@.mapped.contains(offset as int) || old(s).hw()@.covers(
            offset as int,
            old(bytes)@.len() as int,
        )) ==> r is Ok,
        final(s).unlocked() == old(s).unlocked(),
        final(s).current_sector() == old(s).current_sector(),
        final(s).written() == old(s).written(),
{
}

/// A storage can read each of its regions decrypted, has nothing staged, and has
/// changed no byte.
pub proof fn law_storage_of_regions<H: FlashHardware>(
    hw: H,
    regions: &[FlashRegion],
    r: Result<EncryptedOtaStorage<H>, FlashError>,
    i: int,
    a: int,
)
    requires
        call_ensures(EncryptedOtaStorage::<H>::new, (hw, regions), r),
        0 <= i < regions@.len(),
        regions@[i].offset <= a < regions@[i].offset + regions@[i].size,
    ensures
        r matches Ok(s) ==> {
            &&& s.hw()@.mapped.contains(a)
            &&& s.pending() is None && s.current_sector() is None && !s.unlocked()
            &&& s.hw()@.raw == hw@.raw && s.hw()@.decrypted == hw@.decrypted
            &&& forall|b: int| #[trigger]
                s.hw()@.mapped.contains(b) ==> hw@.mapped.contains(b) || exists|j: int|
                    0 <= j < regions@.len() && (#[trigger] regions@[j]).offset <= b
                        < regions@[j].offset + regions@[j].size
        },
        hw@.healthy && hw.can_map(offsets_and_sizes(regions@)) ==> r is Ok,
{
    if let Ok(s) = r {
        assert(regions@[i].addresses().contains(a));
        assert(all_addresses(regions@).contains(a));
        assert forall|b: int| #[trigger]
            s.hw()@.mapped.contains(b) && !hw@.mapped.contains(b) implies exists|j: int|
            0 <= j < regions@.len() && (#[trigger] regions@[j]).offset <= b < regions@[j].offset
                + regions@[j].size by {
            assert(all_addresses(regions@).contains(b));
            let j = choose|j: int|
                0 <= j < regions@.len() && (#[trigger] regions@[j]).addresses().contains(b);
            assert(regions@[j].offset <= b < regions@[j].offset + regions@[j].size);
        }
    }
}

/// What is written and flushed is what is read, in a mapped region, byte for
/// byte.
pub proof fn law_written_is_read<H: FlashHardware>(
    written: &mut EncryptedOtaStorage<H>,
    flushed: &mut EncryptedOtaStorage<H>,
    read: &mut EncryptedOtaStorage<H>,
    offset: u32,
    bytes: &[u8],
    out: &mut [u8],
    w: Result<(), FlashError>,
    f: Result<(), FlashError>,
    r: Result<(), FlashError>,
)
    requires
        call_ensures(EncryptedOtaStorage::<H>::write, (written, offset, bytes), w),
        call_ensures(EncryptedOtaStorage::<H>::flush, (flushed,), f),
        call_ensures(EncryptedOtaStorage::<H>::read, (read, offset, out), r),
        old(written).is_ready(offset as int, bytes@.len() as int),
        old(written).hw()@.covers(offset as int, bytes@.len() as int),
        bytes@.len() > 0,
        old(out)@.len() == bytes@.len(),
    ensures
        *old(flushed) == *final(written) && *old(read) == *final(flushed) && w is Ok && f is Ok && r
            is Ok ==> final(out)@ == bytes@,
{
    if *old(flushed) == *final(written) && *old(read) == *final(flushed) && w is Ok && f is Ok && r
        is Ok {
        law_write_flush_read(
            *old(written),
            *final(written),
            *final(flushed),
            offset as int,
            bytes@,
        );
    }
}

/// The chip can be changed behind the storage's back, and the storage then holds
/// what it was changed to; what is staged stays. A storage that is given up hands
/// back its chip.
pub proof fn law_chip_is_lent<H: FlashHardware>(
    s: &mut EncryptedOtaStorage<H>,
    lent: &mut H,
    whole: EncryptedOtaStorage<H>,
    hw: H,
)
    requires
        call_ensures(EncryptedOtaStorage::<H>::hw_mut, (s,), lent),
        call_ensures(EncryptedOtaStorage::<H>::into_hw, (whole,), hw),
    ensures
        *old(lent) == old(s).hw(),
        *final(lent) == final(s).hw(),
        final(s).pending() == old(s).pending(),
        final(s).current_sector() == old(s).current_sector(),
        final(s).written() == old(s).written(),
        final(s).unlocked() == old(s).unlocked(),
        hw == whole.hw(),
{
}

/// The first call of the first write unlocks the chip, and no other call does.
/// Where nothing has to be written back, each sector is erased once, and each
/// block written once.
pub proof fn law_calls_of_write<H: FlashHardware>(
    s: &mut EncryptedOtaStorage<H>,
    offset: u32,
    bytes: &[u8],
    r: Result<(), FlashError>,
)
    requires
        call_ensures(EncryptedOtaStorage::<H>::write, (s, offset, bytes), r),
        old(s).clean(),
        offset + bytes@.len() <= old(s).hw()@.size,
        offset + bytes@.len() <= u32::MAX,
    ensures
        exists|plan: Seq<Step>|
            #[trigger] follows(
                old(s).hw(),
                final(s).hw(),
                fault(r),
                true,
                old(s).hw()@.sector as int,
                old(s).touched(offset as int, bytes@.len() as int),
                plan,
            ) && {
                &&& forall|i: int|
                    0 <= i < plan.len() ==> ((#[trigger] plan[i]) is Unlock <==> i == 0 && !old(
                        s,
                    ).unlocked())
                &&& !old(s).unlocked() ==> plan.len() > 0
                &&& old(s).pending() is None && old(s).current_sector() is None && old(
                    s,
                ).hw()@.sector as int % old(s).hw()@.block as int == 0
                    ==> super::plan::each_once(
                    plan.skip(
                        if old(s).unlocked() {
                            0
                        } else {
                            1
                        },
                    ),
                )
            },
{
    let t = old(s).track();
    let steps = t.write_steps(offset as int, bytes@.len() as int);
    super::plan::law_never_unlocks(t, offset as int, bytes@.len() as int);
    let plan = old(s).write_steps(offset as int, bytes@.len() as int);
    assert forall|i: int| 0 <= i < plan.len() implies ((#[trigger] plan[i]) is Unlock <==> i == 0
        && !old(s).unlocked()) by {
        if old(s).unlocked() {
            assert(plan[i] == steps[i]);
        } else if i > 0 {
            assert(plan[i] == steps[i - 1]);
        }
    }
    if old(s).pending() is None && old(s).current_sector() is None && old(s).hw()@.sector as int
        % old(s).hw()@.block as int == 0 {
        super::plan::law_each_once(t, offset as int, bytes@.len() as int);
        if old(s).unlocked() {
            assert(plan.skip(0) =~= steps);
        } else {
            assert(plan.skip(1) =~= steps);
        }
    }
}

} // verus!
