//! [`PlainFlashStorage`]: raw storage for partitions that the bootloader never
//! reads. Its capacity is what the hardware reports.

use super::calls::{
    follows, lemma_follows_idle, lemma_follows_on, lemma_follows_push, lemma_follows_weaken,
    lemma_follows_works, sectors_between, step_of, works_in, Call, Step,
};
use super::{fault, FlashError, FlashHardware, FlashState};
use vstd::prelude::*;

verus! {

/// Largest sector that is buffered.
pub const MAX_SECTOR_SIZE: usize = 4096;

/// Raw flash storage.
///
/// Reads return the bytes on flash. A write replaces the bytes it covers and
/// keeps all others: each sector that it touches is read, changed, erased and
/// written back.
pub struct PlainFlashStorage<H: FlashHardware> {
    hw: H,
    unlocked: bool,
}

/// `a` rounded down to a multiple of `step`.
pub open spec fn round_down(a: int, step: int) -> int {
    a - a % step
}

/// `a` rounded up to a multiple of `step`.
pub open spec fn round_up(a: int, step: int) -> int {
    round_down(a + step - 1, step)
}

/// The chip has whole sectors, and their size is a power of two.
pub open spec fn regular(state: FlashState) -> bool {
    state.whole_sectors() && super::is_power_of_two(state.sector)
}

/// The sectors that a write of `length` bytes from `offset` on changes; of a
/// chip that is not regular, no more is said than that it may change any.
pub open spec fn touched(state: FlashState, offset: int, length: int) -> Set<int> {
    if regular(state) {
        sectors_between(offset, offset + length, state.sector as int)
    } else {
        Set::full()
    }
}

/// The calls that rewrite the sector at `addr`: it is read, erased and written
/// once.
pub open spec fn sector_steps(addr: u32, sector: u32) -> Seq<Step> {
    seq![
        Step::ReadPlain(addr, sector as nat),
        Step::Erase((addr as int / sector as int) as u32),
        Step::WritePlain(addr, sector as nat),
    ]
}

/// The calls that rewrite `count` sectors, one after the other, from the one
/// with the index `first` on.
pub open spec fn rewrite_steps(first: int, count: int, sector: u32) -> Seq<Step>
    decreases count,
{
    if count <= 0 {
        Seq::empty()
    } else {
        rewrite_steps(first, count - 1, sector) + sector_steps(
            ((first + count - 1) * sector) as u32,
            sector,
        )
    }
}

/// The number of sectors that `length` bytes from `offset` on touch.
pub open spec fn touched_count(offset: int, length: int, sector: int) -> int {
    if length <= 0 {
        0
    } else {
        (offset + length - 1) / sector - offset / sector + 1
    }
}

/// The calls of a write: an unlock, where that is needed, and the rewriting of
/// each sector that is touched.
pub open spec fn write_steps(unlocked: bool, offset: int, length: int, sector: u32) -> Seq<Step> {
    let rewrites = rewrite_steps(
        offset / sector as int,
        touched_count(offset, length, sector as int),
        sector,
    );
    if unlocked {
        rewrites
    } else {
        seq![Step::Unlock] + rewrites
    }
}

/// The rewriting of fewer sectors is the beginning of that of more.
proof fn lemma_rewrite_prefix(first: int, few: int, many: int, sector: u32)
    requires
        0 <= few <= many,
    ensures
        rewrite_steps(first, few, sector).is_prefix_of(rewrite_steps(first, many, sector)),
    decreases many,
{
    if few < many {
        lemma_rewrite_prefix(first, few, many - 1, sector);
        let a = rewrite_steps(first, few, sector);
        let b = rewrite_steps(first, many - 1, sector);
        let c = rewrite_steps(first, many, sector);
        assert(c.subrange(0, a.len() as int) =~= b.subrange(0, a.len() as int));
    }
}

impl<H: FlashHardware> PlainFlashStorage<H> {
    /// The chip.
    pub closed spec fn hw(&self) -> H {
        self.hw
    }

    /// The storage has unlocked the chip.
    pub closed spec fn unlocked(&self) -> bool {
        self.unlocked
    }

    /// The chip is healthy and as the storage left it.
    pub open spec fn in_order(&self) -> bool {
        self.hw()@.healthy && (self.unlocked() ==> self.hw()@.writable)
    }

    /// A storage on a chip that it has not unlocked yet.
    pub fn new(hw: H) -> (r: Self)
        ensures
            r.hw() == hw,
            !r.unlocked(),
    {
        Self { hw, unlocked: false }
    }

    /// The chip, to be changed behind the storage's back.
    pub fn hw_mut(&mut self) -> (r: &mut H)
        ensures
            *r == old(self).hw(),
            final(self).hw() == *final(r),
            final(self).unlocked() == old(self).unlocked(),
    {
        &mut self.hw
    }

    /// Unlocks the chip unless that has been done.
    fn unlock_once(&mut self) -> (r: Result<(), FlashError>)
        requires
            old(self).hw().valid(),
        ensures
            final(self).hw().valid(),
            final(self).hw()@ == (FlashState {
                writable: final(self).hw()@.writable,
                ..old(self).hw()@
            }),
            old(self).unlocked() ==> r is Ok && *final(self) == *old(self),
            r is Ok ==> final(self).unlocked(),
            r is Ok && !old(self).unlocked() ==> final(self).hw()@.writable,
            r is Err ==> !final(self).unlocked(),
            !old(self).unlocked() ==> H::unlocks(old(self).hw(), final(self).hw(), fault(r)),
            old(self).in_order() ==> r is Ok,
    {
        if !self.unlocked {
            self.hw.unlock()?;
            self.unlocked = true;
        }
        Ok(())
    }

    /// Total capacity in bytes.
    pub fn capacity(&self) -> (r: usize)
        requires
            self.hw().valid(),
        ensures
            r == self.hw()@.size,
    {
        self.hw.capacity()
    }

    /// Reads `bytes.len()` bytes from `offset` on.
    pub fn read(&mut self, offset: u32, bytes: &mut [u8]) -> (r: Result<(), FlashError>)
        requires
            old(self).hw().valid(),
        ensures
            final(self).hw().valid(),
            final(self).hw()@ == old(self).hw()@,
            final(self).unlocked() == old(self).unlocked(),
            final(bytes)@.len() == old(bytes)@.len(),
            !super::in_bounds(offset as int, old(bytes)@.len() as int, old(self).hw()@.size as int)
                ==> r == Err::<(), FlashError>(FlashError::OutOfBounds) && final(bytes)@ == old(
                bytes,
            )@,
            super::in_bounds(offset as int, old(bytes)@.len() as int, old(self).hw()@.size as int)
                ==> {
                &&& H::reads_plain(
                    old(self).hw(),
                    final(self).hw(),
                    offset,
                    old(bytes)@,
                    final(bytes)@,
                    fault(r),
                )
                &&& r is Ok ==> final(bytes)@ == old(self).hw()@.raw.subrange(
                    offset as int,
                    offset + old(bytes)@.len(),
                )
                &&& old(self).hw()@.healthy ==> r is Ok
            },
    {
        super::check_bounds(offset, bytes.len(), self.hw.capacity())?;
        self.hw.read_plain(offset, bytes)
    }

    /// Writes `part`, which lies in one sector, at `current`: the sector is
    /// read into `buf`, changed, erased and written back.
    fn rewrite_sector(&mut self, current: u32, part: &[u8], buf: &mut [u8]) -> (r: Result<
        (),
        FlashError,
    >)
        requires
            old(self).hw().valid(),
            old(self).hw()@.sector > 0,
            old(buf)@.len() == old(self).hw()@.sector,
            current - (current & !((old(self).hw()@.sector - 1) as u32)) + part@.len()
                <= old(self).hw()@.sector,
        ensures
            final(buf)@.len() == old(buf)@.len(),
            final(self).hw().valid(),
            final(self).unlocked() == old(self).unlocked(),
            final(self).hw()@.same_but_bytes(old(self).hw()@),
            follows(
                old(self).hw(),
                final(self).hw(),
                fault(r),
                false,
                old(self).hw()@.sector as int,
                if regular(old(self).hw()@) && old(self).hw()@.sector <= MAX_SECTOR_SIZE && current
                    < old(self).hw()@.size {
                    set![current as int / old(self).hw()@.sector as int]
                } else {
                    Set::full()
                },
                sector_steps(
                    current & !((old(self).hw()@.sector - 1) as u32),
                    old(self).hw()@.sector,
                ),
            ),
            regular(old(self).hw()@) && old(self).hw()@.sector <= MAX_SECTOR_SIZE && current
                < old(self).hw()@.size ==> {
                &&& r is Ok ==> final(self).hw()@.raw == super::splice(
                    old(self).hw()@.raw,
                    current as int,
                    part@,
                )
                &&& r is Ok ==> super::agree_outside(
                    old(self).hw()@.decrypted,
                    final(self).hw()@.decrypted,
                    round_down(current as int, old(self).hw()@.sector as int),
                    old(self).hw()@.sector as int,
                )
                &&& old(self).hw()@.healthy && old(self).hw()@.writable && old(
                    self,
                ).hw()@.sector as int % 4 == 0 ==> r is Ok
            },
    {
        let sector_size: u32 = self.hw.sector_size();
        let ghost state = self.hw@;
        let sector_addr: u32 = current & !(sector_size - 1);
        proof {
            super::lemma_mask_cuts_little(current, sector_size);
            if regular(state) && sector_size <= MAX_SECTOR_SIZE && current < state.size {
                super::lemma_mask(current, sector_size);
                lemma_sector_fits(current as int, sector_size as int, state.size as int);
                if sector_size as int % 4 == 0 {
                    lemma_multiple_of_multiple(sector_addr as int, sector_size as int, 4);
                }
            }
        }
        let off_in_sector: usize = (current - sector_addr) as usize;
        let ghost sectors: Set<int> = if regular(state) && sector_size <= MAX_SECTOR_SIZE && current
            < state.size {
            set![current as int / sector_size as int]
        } else {
            Set::full()
        };
        let ghost chip = self.hw;
        let ghost held = buf@;
        let ghost plan = sector_steps(sector_addr, sector_size);
        let ghost mut done: Seq<Step> = Seq::empty();
        let read: Result<(), FlashError> = self.hw.read_plain(sector_addr, buf);
        proof {
            let call = Call::ReadPlain { offset: sector_addr, buf: held, bytes: buf@ };
            let ss = sector_size as int;
            lemma_follows_idle(chip, false, ss, sectors);
            lemma_follows_push(chip, chip, call, self.hw, fault(read), false, ss, sectors, done);
            done = done.push(step_of(call));
            assert(done =~= plan.take(1));
            if read is Err {
                lemma_follows_weaken(
                    chip,
                    self.hw,
                    fault(read),
                    false,
                    false,
                    ss,
                    sectors,
                    sectors,
                    done,
                    plan,
                );
            }
        }
        read?;
        let ghost before = buf@;
        let mut i: usize = 0;
        while i < part.len()
            invariant
                i <= part@.len(),
                buf@.len() == before.len() == sector_size,
                off_in_sector + part@.len() <= buf@.len(),
                forall|j: int|
                    0 <= j < buf@.len() ==> #[trigger] buf@[j] == (if off_in_sector <= j
                        < off_in_sector + i {
                        part@[j - off_in_sector]
                    } else {
                        before[j]
                    }),
            decreases part@.len() - i,
        {
            buf[off_in_sector + i] = part[i];
            i += 1;
        }
        let index: u32 = sector_addr / sector_size;
        let ghost filled = self.hw;
        let erase: Result<(), FlashError> = self.hw.erase_sector(index);
        proof {
            let call = Call::Erase { sector: index };
            let ss = sector_size as int;
            lemma_follows_push(chip, filled, call, self.hw, fault(erase), false, ss, sectors, done);
            done = done.push(step_of(call));
            assert(done =~= plan.take(2));
            if erase is Err {
                lemma_follows_weaken(
                    chip,
                    self.hw,
                    fault(erase),
                    false,
                    false,
                    ss,
                    sectors,
                    sectors,
                    done,
                    plan,
                );
            }
        }
        erase?;
        let ghost emptied = self.hw;
        let ghost erased = self.hw@;
        let write: Result<(), FlashError> = self.hw.write_plain(sector_addr, buf);
        proof {
            let call = Call::WritePlain { offset: sector_addr, data: buf@ };
            let ss = sector_size as int;
            lemma_follows_push(chip, emptied, call, self.hw, fault(write), false, ss, sectors, done);
            assert(done.push(step_of(call)) =~= plan);
        }
        write?;
        proof {
            if regular(state) && sector_size <= MAX_SECTOR_SIZE && current < state.size {
                assert(erased.is_erased(sector_addr as int, sector_size as int));
                assert(self.hw@.raw =~= super::splice(state.raw, current as int, part@));
            }
        }
        Ok(())
    }

    /// Replaces the bytes from `offset` on by `bytes` and keeps all others.
    pub fn write(&mut self, offset: u32, bytes: &[u8]) -> (r: Result<(), FlashError>)
        requires
            old(self).hw().valid(),
            0 < old(self).hw()@.sector <= MAX_SECTOR_SIZE,
            super::in_bounds(offset as int, bytes@.len() as int, old(self).hw()@.size as int)
                ==> offset + bytes@.len() <= u32::MAX,
        ensures
            final(self).hw().valid(),
            !super::in_bounds(offset as int, bytes@.len() as int, old(self).hw()@.size as int)
                ==> r == Err::<(), FlashError>(FlashError::OutOfBounds) && *final(self) == *old(
                self,
            ),
            final(self).hw()@.same_but_bytes(
                FlashState { writable: final(self).hw()@.writable, ..old(self).hw()@ },
            ),
            r is Ok ==> final(self).unlocked(),
            old(self).in_order() && r is Ok ==> final(self).in_order(),
            old(self).unlocked() ==> final(self).unlocked(),
            final(self).unlocked() && !old(self).unlocked() ==> exists|chip: H| #[trigger]
                H::unlocks(old(self).hw(), chip, None),
            super::in_bounds(offset as int, bytes@.len() as int, old(self).hw()@.size as int)
                && !final(self).unlocked() ==> r is Err && H::unlocks(
                old(self).hw(),
                final(self).hw(),
                fault(r),
            ),
            super::in_bounds(offset as int, bytes@.len() as int, old(self).hw()@.size as int)
                ==> works_in(
                old(self).hw(),
                final(self).hw(),
                fault(r),
                false,
                old(self).hw()@.sector as int,
                touched(old(self).hw()@, offset as int, bytes@.len() as int),
            ),
            super::in_bounds(offset as int, bytes@.len() as int, old(self).hw()@.size as int)
                && regular(old(self).hw()@) ==> {
                &&& follows(
                    old(self).hw(),
                    final(self).hw(),
                    fault(r),
                    false,
                    old(self).hw()@.sector as int,
                    touched(old(self).hw()@, offset as int, bytes@.len() as int),
                    write_steps(
                        old(self).unlocked(),
                        offset as int,
                        bytes@.len() as int,
                        old(self).hw()@.sector,
                    ),
                )
                &&& r is Ok ==> final(self).hw()@.raw == super::splice(
                    old(self).hw()@.raw,
                    offset as int,
                    bytes@,
                )
                &&& r is Ok ==> super::agree_outside(
                    old(self).hw()@.decrypted,
                    final(self).hw()@.decrypted,
                    round_down(offset as int, old(self).hw()@.sector as int),
                    round_up(offset + bytes@.len(), old(self).hw()@.sector as int) - round_down(
                        offset as int,
                        old(self).hw()@.sector as int,
                    ),
                )
                &&& old(self).in_order() && old(self).hw()@.sector % 4 == 0 ==> r is Ok
            },
    {
        super::check_bounds(offset, bytes.len(), self.hw.capacity())?;
        let ghost start = self.hw@;
        let ghost chip = self.hw;
        let ghost sectors = touched(start, offset as int, bytes@.len() as int);
        let ghost ss = start.sector as int;
        let ghost first = offset as int / ss;
        let ghost count = touched_count(offset as int, bytes@.len() as int, ss);
        let ghost plan = write_steps(
            old(self).unlocked,
            offset as int,
            bytes@.len() as int,
            start.sector,
        );
        let ghost opening: Seq<Step> = if old(self).unlocked {
            Seq::empty()
        } else {
            seq![Step::Unlock]
        };
        let ghost mut made = opening;
        let unlock: Result<(), FlashError> = self.unlock_once();
        proof {
            let none: Seq<Step> = Seq::empty();
            lemma_follows_idle(chip, false, ss, sectors);
            if !old(self).unlocked {
                let call = Call::Unlock;
                lemma_follows_push(
                    chip,
                    chip,
                    call,
                    self.hw,
                    fault(unlock),
                    false,
                    ss,
                    sectors,
                    none,
                );
                assert(none.push(step_of(call)) =~= made);
                assert(made.is_prefix_of(plan));
                if unlock is Err {
                    lemma_follows_weaken(
                        chip,
                        self.hw,
                        fault(unlock),
                        false,
                        false,
                        ss,
                        sectors,
                        sectors,
                        made,
                        plan,
                    );
                    lemma_follows_works(chip, self.hw, fault(unlock), false, ss, sectors, plan);
                }
            }
            assert(plan =~= opening + rewrite_steps(first, count, start.sector));
            assert(made =~= opening + rewrite_steps(first, 0, start.sector));
        }
        unlock?;
        let ghost unlocked = self.hw;
        let ghost opened = self.hw@;
        let sector_size: u32 = self.hw.sector_size();
        let mut sector_buf: [u8; MAX_SECTOR_SIZE] = [0u8; MAX_SECTOR_SIZE];
        let whole: &mut [u8] = &mut sector_buf;
        let (buf, _rest) = whole.split_at_mut(sector_size as usize);

        let mut done: usize = 0;
        while done < bytes.len()
            invariant
                self.hw.valid(),
                self.unlocked,
                done <= bytes@.len(),
                offset + bytes@.len() <= start.size,
                offset + bytes@.len() <= u32::MAX,
                0 < sector_size <= MAX_SECTOR_SIZE,
                sector_size == start.sector,
                buf@.len() == sector_size,
                chip == old(self).hw,
                !old(self).unlocked ==> H::unlocks(chip, unlocked, None),
                sectors == touched(start, offset as int, bytes@.len() as int),
                ss == sector_size,
                first == offset as int / ss,
                count == touched_count(offset as int, bytes@.len() as int, ss),
                plan == opening + rewrite_steps(first, count, sector_size),
                plan == write_steps(
                    old(self).unlocked,
                    offset as int,
                    bytes@.len() as int,
                    start.sector,
                ),
                follows(chip, self.hw, None, false, ss, sectors, made),
                regular(start) ==> {
                    &&& done == 0 || done == bytes@.len() || (offset + done) % ss == 0
                    &&& made == opening + rewrite_steps(
                        first,
                        touched_count(offset as int, done as int, ss),
                        sector_size,
                    )
                },
                self.hw@.same_but_bytes(opened),
                opened == (FlashState { writable: opened.writable, ..start }),
                regular(start) ==> {
                    &&& self.hw@.raw == super::splice(
                        start.raw,
                        offset as int,
                        bytes@.take(done as int),
                    )
                    &&& super::agree_outside(
                        start.decrypted,
                        self.hw@.decrypted,
                        round_down(offset as int, sector_size as int),
                        round_up(offset + bytes@.len(), sector_size as int) - round_down(
                            offset as int,
                            sector_size as int,
                        ),
                    )
                },
                start == old(self).hw@,
                old(self).in_order() ==> opened.healthy && opened.writable,
            decreases bytes@.len() - done,
        {
            let current: u32 = offset + done as u32;
            proof {
                super::lemma_mask_cuts_little(current, sector_size);
            }
            let off_in_sector: usize = (current - (current & !(sector_size - 1))) as usize;
            let room: usize = sector_size as usize - off_in_sector;
            let to_write: usize = if room < bytes.len() - done {
                room
            } else {
                bytes.len() - done
            };
            let ghost before = self.hw;
            let rewrite: Result<(), FlashError> = self.rewrite_sector(
                current,
                &bytes[done..done + to_write],
                buf,
            );
            proof {
                let some: Set<int> = if regular(start) {
                    set![current as int / sector_size as int]
                } else {
                    Set::full()
                };
                if regular(start) {
                    lemma_between(
                        offset as int,
                        current as int,
                        offset + bytes@.len() - 1,
                        sector_size as int,
                    );
                }
                assert(some.subset_of(sectors));
                let next = sector_steps(current & !((sector_size - 1) as u32), sector_size);
                let before_made = made;
                lemma_follows_on(
                    chip,
                    before,
                    self.hw,
                    fault(rewrite),
                    false,
                    ss,
                    some,
                    sectors,
                    before_made,
                    next,
                );
                made = before_made + next;
                lemma_follows_works(chip, self.hw, fault(rewrite), false, ss, sectors, made);
                if regular(start) {
                    super::lemma_mask(current, sector_size);
                    let now = touched_count(offset as int, done as int, ss);
                    lemma_part(offset as int, done as int, to_write as int, ss);
                    lemma_between(
                        offset as int,
                        current + to_write - 1,
                        offset + bytes@.len() - 1,
                        ss,
                    );
                    assert(made =~= opening + rewrite_steps(first, now + 1, sector_size));
                    lemma_rewrite_prefix(first, now + 1, count, sector_size);
                    let all = rewrite_steps(first, count, sector_size);
                    let some_of = rewrite_steps(first, now + 1, sector_size);
                    assert(plan.subrange(0, made.len() as int) =~= opening + all.subrange(
                        0,
                        some_of.len() as int,
                    ));
                    if rewrite is Err {
                        lemma_follows_weaken(
                            chip,
                            self.hw,
                            fault(rewrite),
                            false,
                            false,
                            ss,
                            sectors,
                            sectors,
                            made,
                            plan,
                        );
                    }
                }
            }
            rewrite?;
            proof {
                if regular(start) {
                    super::lemma_mask(current, sector_size);
                    lemma_sector_fits(current as int, sector_size as int, start.size as int);
                    lemma_sector_between(
                        offset as int,
                        current as int,
                        offset + bytes@.len(),
                        sector_size as int,
                    );
                    let part = bytes@.subrange(done as int, done + to_write);
                    assert(self.hw@.raw =~= super::splice(
                        start.raw,
                        offset as int,
                        bytes@.take(done + to_write),
                    ));
                }
            }
            done += to_write;
        }
        proof {
            assert(bytes@.take(bytes@.len() as int) =~= bytes@);
        }
        Ok(())
    }
}

/// The next part of a write lies in the sector after those that are done.
proof fn lemma_part(offset: int, done: int, part: int, sector: int)
    requires
        0 <= offset,
        0 <= done,
        0 < part,
        sector > 0,
        done == 0 || (offset + done) % sector == 0,
        (offset + done) % sector + part <= sector,
    ensures
        ({
            let now = touched_count(offset, done, sector);
            &&& touched_count(offset, done + part, sector) == now + 1
            &&& (offset / sector + now) * sector == round_down(offset + done, sector)
            &&& (offset + done + part - 1) / sector == offset / sector + now
            &&& part == sector - (offset + done) % sector ==> (offset + done + part) % sector == 0
        }),
{
    let current = offset + done;
    let q = current / sector;
    vstd::arithmetic::div_mod::lemma_fundamental_div_mod(current, sector);
    assert(sector * q == q * sector) by (nonlinear_arith);
    assert(0 <= current % sector < sector) by (nonlinear_arith)
        requires
            sector > 0,
    ;
    vstd::arithmetic::div_mod::lemma_fundamental_div_mod_converse(
        current + part - 1,
        sector,
        q,
        current % sector + part - 1,
    );
    if done > 0 {
        assert((q - 1) * sector == q * sector - sector) by (nonlinear_arith);
        vstd::arithmetic::div_mod::lemma_fundamental_div_mod_converse(
            current - 1,
            sector,
            q - 1,
            sector - 1,
        );
    }
    if part == sector - current % sector {
        assert((q + 1) * sector == q * sector + sector) by (nonlinear_arith);
        vstd::arithmetic::div_mod::lemma_fundamental_div_mod_converse(
            current + part,
            sector,
            q + 1,
            0,
        );
    }
}

/// The sector around an address on a chip of whole sectors lies on the chip.
proof fn lemma_sector_fits(a: int, step: int, size: int)
    requires
        0 <= a < size,
        step > 0,
        size % step == 0,
    ensures
        round_down(a, step) + step <= size,
        round_down(a, step) % step == 0,
        round_down(a, step) / step == a / step,
        (round_down(a, step) / step) * step == round_down(a, step),
        (round_down(a, step) / step + 1) * step == round_down(a, step) + step,
        0 <= round_down(a, step) <= a,
{
    vstd::arithmetic::div_mod::lemma_fundamental_div_mod(a, step);
    vstd::arithmetic::div_mod::lemma_fundamental_div_mod(size, step);
    let q = a / step;
    let n = size / step;
    assert(round_down(a, step) == step * q);
    assert(q + 1 <= n) by (nonlinear_arith)
        requires
            step * q <= a < step * n,
            step > 0,
    ;
    assert(step * (q + 1) <= step * n) by (nonlinear_arith)
        requires
            q + 1 <= n,
            step > 0,
    ;
    assert(step * (q + 1) == step * q + step) by (nonlinear_arith);
    vstd::arithmetic::div_mod::lemma_mod_multiples_basic(q, step);
    vstd::arithmetic::div_mod::lemma_div_multiples_vanish(q, step);
    assert(q * step == step * q) by (nonlinear_arith);
    assert((q + 1) * step == step * (q + 1)) by (nonlinear_arith);
}

/// Sectors are ordered as the addresses in them.
pub proof fn lemma_between(low: int, a: int, high: int, step: int)
    requires
        low <= a <= high,
        step > 0,
    ensures
        low / step <= a / step <= high / step,
{
    vstd::arithmetic::div_mod::lemma_div_is_ordered(low, a, step);
    vstd::arithmetic::div_mod::lemma_div_is_ordered(a, high, step);
}

/// A multiple of a multiple of `n` is a multiple of `n`.
pub proof fn lemma_multiple_of_multiple(a: int, step: int, n: int)
    requires
        step > 0,
        n > 0,
        a % step == 0,
        step % n == 0,
    ensures
        a % n == 0,
{
    vstd::arithmetic::div_mod::lemma_fundamental_div_mod(a, step);
    vstd::arithmetic::div_mod::lemma_fundamental_div_mod(step, n);
    let q = a / step;
    let m = step / n;
    assert(a == (q * m) * n) by (nonlinear_arith)
        requires
            a == step * q,
            step == n * m,
    ;
    vstd::arithmetic::div_mod::lemma_mod_multiples_basic(q * m, n);
}

/// The sector around an address between `low` and `high` lies between the
/// sectors around these.
proof fn lemma_sector_between(low: int, a: int, high: int, step: int)
    requires
        0 <= low <= a < high,
        step > 0,
    ensures
        round_down(low, step) <= round_down(a, step),
        round_down(a, step) + step <= round_up(high, step),
{
    vstd::arithmetic::div_mod::lemma_fundamental_div_mod(low, step);
    vstd::arithmetic::div_mod::lemma_fundamental_div_mod(a, step);
    vstd::arithmetic::div_mod::lemma_fundamental_div_mod(high + step - 1, step);
    let p = low / step;
    let q = a / step;
    let n = (high + step - 1) / step;
    assert(p <= q) by (nonlinear_arith)
        requires
            step * p <= low <= a < step * q + step,
            step > 0,
    ;
    assert(step * p <= step * q) by (nonlinear_arith)
        requires
            p <= q,
            step > 0,
    ;
    assert(q + 1 <= n) by (nonlinear_arith)
        requires
            step * q <= a,
            a + step <= high + step - 1 < step * n + step,
            step > 0,
    ;
    assert(step * q + step <= step * n) by (nonlinear_arith)
        requires
            q + 1 <= n,
            step > 0,
    ;
}

impl<H: FlashHardware + Default> Default for PlainFlashStorage<H> {
    /// A storage on the default chip.
    fn default() -> (r: Self)
        ensures
            call_ensures(H::default, (), r.hw()),
            !r.unlocked(),
    {
        Self::new(H::default())
    }
}

/// What was written is what is read back, and what lies elsewhere is read as
/// before. `raw` are the bytes before the write, which covers `data` from
/// `offset` on; the read covers `length` bytes from `start` on.
pub proof fn law_read_back(raw: Seq<u8>, offset: int, data: Seq<u8>, start: int, length: int)
    requires
        super::in_bounds(offset, data.len() as int, raw.len() as int),
        super::in_bounds(start, length, raw.len() as int),
        0 <= offset,
        0 <= start,
        0 <= length,
    ensures
        offset <= start && start + length <= offset + data.len() ==> super::splice(
            raw,
            offset,
            data,
        ).subrange(start, start + length) == data.subrange(
            start - offset,
            start - offset + length,
        ),
        start + length <= offset || offset + data.len() <= start ==> super::splice(
            raw,
            offset,
            data,
        ).subrange(start, start + length) == raw.subrange(start, start + length),
{
    let after = super::splice(raw, offset, data);
    if offset <= start && start + length <= offset + data.len() {
        assert(after.subrange(start, start + length) =~= data.subrange(
            start - offset,
            start - offset + length,
        ));
    }
    if start + length <= offset || offset + data.len() <= start {
        assert(after.subrange(start, start + length) =~= raw.subrange(start, start + length));
    }
}

/// Of two writes to the same place the later one stays.
pub proof fn law_last_write_stays(raw: Seq<u8>, offset: int, first: Seq<u8>, second: Seq<u8>)
    requires
        0 <= offset,
        first.len() == second.len(),
        super::in_bounds(offset, first.len() as int, raw.len() as int),
    ensures
        super::splice(super::splice(raw, offset, first), offset, second) == super::splice(
            raw,
            offset,
            second,
        ),
{
    assert(super::splice(super::splice(raw, offset, first), offset, second) =~= super::splice(
        raw,
        offset,
        second,
    ));
}

/// What is written is there afterwards, and nothing else changes: the bytes on
/// flash are the ones that were written where they were written, and those from
/// before everywhere else. A range that is not on the chip is refused, and
/// nothing changes.
pub proof fn law_write<H: FlashHardware>(
    s: &mut PlainFlashStorage<H>,
    offset: u32,
    bytes: &[u8],
    r: Result<(), FlashError>,
)
    requires
        call_ensures(PlainFlashStorage::<H>::write, (s, offset, bytes), r),
        regular(old(s).hw()@),
    ensures
        offset + bytes@.len() > old(s).hw()@.size ==> r == Err::<(), FlashError>(
            FlashError::OutOfBounds,
        ) && *final(s) == *old(s),
        r is Ok ==> {
            &&& offset + bytes@.len() <= old(s).hw()@.size
            &&& final(s).unlocked()
            &&& final(s).hw()@.raw.subrange(offset as int, offset + bytes@.len()) == bytes@
            &&& forall|a: int|
                0 <= a < old(s).hw()@.size && !(offset <= a < offset + bytes@.len())
                    ==> #[trigger] final(s).hw()@.raw[a] == old(s).hw()@.raw[a]
        },
        old(s).in_order() && old(s).hw()@.sector % 4 == 0 && offset + bytes@.len() <= old(
            s,
        ).hw()@.size ==> r is Ok,
{
    if r is Ok {
        assert(final(s).hw()@.raw.subrange(offset as int, offset + bytes@.len()) =~= bytes@);
    }
}

/// What is read are the bytes on flash, and reading changes nothing there. A
/// range that is not on the chip is refused.
pub proof fn law_read<H: FlashHardware>(
    s: &mut PlainFlashStorage<H>,
    offset: u32,
    bytes: &mut [u8],
    r: Result<(), FlashError>,
)
    requires
        call_ensures(PlainFlashStorage::<H>::read, (s, offset, bytes), r),
        old(s).hw()@.whole_sectors(),
    ensures
        final(s).hw()@ == old(s).hw()@,
        final(bytes)@.len() == old(bytes)@.len(),
        offset + old(bytes)@.len() > old(s).hw()@.size ==> r == Err::<(), FlashError>(
            FlashError::OutOfBounds,
        ) && final(bytes)@ == old(bytes)@,
        r is Ok ==> forall|i: int|
            0 <= i < old(bytes)@.len() ==> #[trigger] final(bytes)@[i] == old(s).hw()@.raw[offset
                + i],
        old(s).hw()@.healthy && offset + old(bytes)@.len() <= old(s).hw()@.size ==> r is Ok,
{
}

/// A storage is on the chip that it was given, and has its size.
pub proof fn law_storage_of_chip<H: FlashHardware>(hw: H, s: PlainFlashStorage<H>, n: usize)
    requires
        call_ensures(PlainFlashStorage::<H>::new, (hw,), s),
        call_ensures(PlainFlashStorage::<H>::capacity, (&s,), n),
    ensures
        s.hw() == hw,
        !s.unlocked(),
        n == hw@.size,
{
}

/// What is written is what is read, byte for byte; on a chip in order both steps
/// succeed.
pub proof fn law_written_is_read<H: FlashHardware>(
    written: &mut PlainFlashStorage<H>,
    read: &mut PlainFlashStorage<H>,
    offset: u32,
    bytes: &[u8],
    out: &mut [u8],
    w: Result<(), FlashError>,
    r: Result<(), FlashError>,
)
    requires
        call_ensures(PlainFlashStorage::<H>::write, (written, offset, bytes), w),
        call_ensures(PlainFlashStorage::<H>::read, (read, offset, out), r),
        regular(old(written).hw()@),
        old(out)@.len() == bytes@.len(),
    ensures
        *old(read) == *final(written) && w is Ok && r is Ok ==> final(out)@ == bytes@,
        *old(read) == *final(written) && w is Ok && old(written).in_order() ==> r is Ok,
        old(written).in_order() && old(written).hw()@.sector % 4 == 0 && offset + bytes@.len()
            <= old(written).hw()@.size ==> w is Ok,
{
    if *old(read) == *final(written) && w is Ok && r is Ok {
        assert(final(out)@ =~= bytes@);
    }
}

/// The chip can be changed behind the storage's back, and the storage then holds
/// what it was changed to.
pub proof fn law_chip_is_lent<H: FlashHardware>(s: &mut PlainFlashStorage<H>, lent: &mut H)
    requires
        call_ensures(PlainFlashStorage::<H>::hw_mut, (s,), lent),
    ensures
        *old(lent) == old(s).hw(),
        *final(lent) == final(s).hw(),
        final(s).unlocked() == old(s).unlocked(),
{
}

/// The steps from `base` on rewrite `count` sectors, one after the other, from
/// `first` on: each is read, erased and written, once.
pub open spec fn rewrites_each(
    steps: Seq<Step>,
    base: int,
    first: int,
    count: int,
    sector: u32,
) -> bool {
    &&& steps.len() == base + 3 * count
    &&& forall|i: int|
        #![trigger steps[base + 3 * i]]
        0 <= i < count ==> {
            let addr = ((first + i) * sector) as u32;
            &&& steps[base + 3 * i] == Step::ReadPlain(addr, sector as nat)
            &&& steps[base + 3 * i + 1] == Step::Erase((addr as int / sector as int) as u32)
            &&& steps[base + 3 * i + 2] == Step::WritePlain(addr, sector as nat)
        }
}

/// The steps that rewrite sectors.
proof fn lemma_rewrites_each(first: int, count: int, sector: u32)
    requires
        count >= 0,
    ensures
        rewrites_each(rewrite_steps(first, count, sector), 0, first, count, sector),
    decreases count,
{
    if count > 0 {
        lemma_rewrites_each(first, count - 1, sector);
        let before = rewrite_steps(first, count - 1, sector);
        let steps = rewrite_steps(first, count, sector);
        assert forall|i: int| #![trigger steps[0 + 3 * i]] 0 <= i < count implies {
            let addr = ((first + i) * sector) as u32;
            &&& steps[0 + 3 * i] == Step::ReadPlain(addr, sector as nat)
            &&& steps[0 + 3 * i + 1] == Step::Erase((addr as int / sector as int) as u32)
            &&& steps[0 + 3 * i + 2] == Step::WritePlain(addr, sector as nat)
        } by {
            if i < count - 1 {
                assert(steps[0 + 3 * i] == before[0 + 3 * i]);
            }
        }
    }
}

/// A write unlocks the chip if that has not been done, and then rewrites each
/// sector that it touches, once, and no other.
pub proof fn law_calls_of_write<H: FlashHardware>(
    s: &mut PlainFlashStorage<H>,
    offset: u32,
    bytes: &[u8],
    r: Result<(), FlashError>,
)
    requires
        call_ensures(PlainFlashStorage::<H>::write, (s, offset, bytes), r),
        regular(old(s).hw()@),
        offset + bytes@.len() <= old(s).hw()@.size,
    ensures
        exists|plan: Seq<Step>| #[trigger]
            follows(
                old(s).hw(),
                final(s).hw(),
                fault(r),
                false,
                old(s).hw()@.sector as int,
                touched(old(s).hw()@, offset as int, bytes@.len() as int),
                plan,
            ) && {
                let sector = old(s).hw()@.sector as int;
                let base = if old(s).unlocked() {
                    0int
                } else {
                    1
                };
                &&& base == 1 ==> plan.len() > 0 && plan[0] == Step::Unlock
                &&& bytes@.len() == 0 ==> plan.len() == base
                &&& bytes@.len() > 0 ==> rewrites_each(
                    plan,
                    base,
                    offset as int / sector,
                    (offset + bytes@.len() - 1) / sector - offset as int / sector + 1,
                    old(s).hw()@.sector,
                )
            },
{
    let sector = old(s).hw()@.sector;
    let first = offset as int / sector as int;
    let count = touched_count(offset as int, bytes@.len() as int, sector as int);
    let plan = write_steps(old(s).unlocked(), offset as int, bytes@.len() as int, sector);
    if bytes@.len() > 0 {
        vstd::arithmetic::div_mod::lemma_div_is_ordered(
            offset as int,
            offset + bytes@.len() - 1,
            sector as int,
        );
        lemma_rewrites_each(first, count, sector);
        let rewrites = rewrite_steps(first, count, sector);
        if !old(s).unlocked() {
            assert forall|i: int| #![trigger plan[1 + 3 * i]] 0 <= i < count implies {
                let addr = ((first + i) * sector) as u32;
                &&& plan[1 + 3 * i] == Step::ReadPlain(addr, sector as nat)
                &&& plan[1 + 3 * i + 1] == Step::Erase((addr as int / sector as int) as u32)
                &&& plan[1 + 3 * i + 2] == Step::WritePlain(addr, sector as nat)
            } by {
                assert(plan[1 + 3 * i] == rewrites[0 + 3 * i]);
            }
        }
    }
}

/// Rounding ends at a multiple, and is less than a step away.
pub proof fn law_rounding(a: int, step: int)
    requires
        step > 0,
    ensures
        round_down(a, step) <= a < round_down(a, step) + step,
        round_up(a, step) - step < a <= round_up(a, step),
        round_down(a, step) % step == 0,
        round_up(a, step) % step == 0,
{
    vstd::arithmetic::div_mod::lemma_fundamental_div_mod(a, step);
    vstd::arithmetic::div_mod::lemma_fundamental_div_mod(a + step - 1, step);
    vstd::arithmetic::div_mod::lemma_mod_multiples_basic(a / step, step);
    vstd::arithmetic::div_mod::lemma_mod_multiples_basic((a + step - 1) / step, step);
    assert(round_down(a, step) == a / step * step) by (nonlinear_arith)
        requires
            round_down(a, step) == a - a % step,
            a == step * (a / step) + a % step,
    ;
    let b = a + step - 1;
    assert(round_down(b, step) == b / step * step) by (nonlinear_arith)
        requires
            round_down(b, step) == b - b % step,
            b == step * (b / step) + b % step,
    ;
}

} // verus!
