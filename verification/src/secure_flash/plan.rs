//! Which calls an encrypted storage makes: what it keeps in mind, and the
//! calls that follow from that.

use super::calls::Step;
use vstd::prelude::*;

verus! {

/// What a storage keeps in mind, and what it knows of the chip.
pub struct Track {
    /// Number of bytes that are encrypted together.
    pub block: u32,
    /// Number of bytes that are erased together.
    pub sector: u32,
    /// The addresses that are read decrypted.
    pub mapped: Set<int>,
    /// The block that is staged.
    pub staged: Option<u32>,
    /// The sector that was erased last.
    pub current: Option<u32>,
    /// The blocks of that sector that have been written since.
    pub written: Seq<u32>,
}

impl Track {
    /// The calls that read the first `n` of the written blocks, other than the
    /// one at `skip`.
    pub open spec fn saved(self, skip: u32, n: int) -> Seq<Step>
        decreases n,
    {
        if n <= 0 {
            Seq::empty()
        } else if self.written[n - 1] == skip {
            self.saved(skip, n - 1)
        } else {
            let addr = self.written[n - 1];
            self.saved(skip, n - 1).push(
                if self.mapped.contains(addr as int) {
                    Step::ReadDecrypted(addr, self.block as nat)
                } else {
                    Step::ReadPlain(addr, self.block as nat)
                },
            )
        }
    }

    /// The calls that write the first `n` of the written blocks back, other
    /// than the one at `skip`.
    pub open spec fn restored(self, skip: u32, n: int) -> Seq<Step>
        decreases n,
    {
        if n <= 0 {
            Seq::empty()
        } else if self.written[n - 1] == skip {
            self.restored(skip, n - 1)
        } else {
            let addr = self.written[n - 1];
            self.restored(skip, n - 1).push(
                if self.mapped.contains(addr as int) {
                    Step::WriteEncrypted(addr, self.block as nat)
                } else {
                    Step::WritePlain(addr, self.block as nat)
                },
            )
        }
    }

    /// The calls that make the block at `skip` one that can be written again.
    pub open spec fn renewal(self, skip: u32) -> Seq<Step> {
        let n = self.written.len() as int;
        self.saved(skip, n).push(Step::Erase(self.current->Some_0)) + self.restored(skip, n)
    }

    /// The sector of the staged block.
    pub open spec fn staged_sector(self) -> u32 {
        (self.staged->Some_0 as int / self.sector as int) as u32
    }

    /// The calls that make the chip ready for the staged block: its sector is
    /// erased unless it is the current one, and renewed if the block has been
    /// written since then.
    pub open spec fn ready_steps(self) -> Seq<Step> {
        if self.current != Some(self.staged_sector()) {
            seq![Step::Erase(self.staged_sector())]
        } else if self.written.contains(self.staged->Some_0) {
            self.renewal(self.staged->Some_0)
        } else {
            Seq::empty()
        }
    }

    /// The calls of a flush.
    pub open spec fn flush_steps(self) -> Seq<Step> {
        if self.staged is None {
            Seq::empty()
        } else {
            self.ready_steps().push(Step::WriteEncrypted(self.staged->Some_0, self.block as nat))
        }
    }

    /// What is kept in mind after a flush.
    pub open spec fn flushed(self) -> Track {
        if self.staged is None {
            self
        } else {
            Track {
                staged: None,
                current: Some(self.staged_sector()),
                written: if self.current != Some(self.staged_sector()) {
                    seq![self.staged->Some_0]
                } else if self.written.contains(self.staged->Some_0) {
                    self.written
                } else {
                    self.written.push(self.staged->Some_0)
                },
                ..self
            }
        }
    }

    /// The address of the block around `a`.
    pub open spec fn block_of(self, a: int) -> u32 {
        (a - a % self.block as int) as u32
    }

    /// A block other than the one at `addr` is staged.
    pub open spec fn stages_other(self, addr: u32) -> bool {
        self.staged is Some && self.staged != Some(addr)
    }

    /// What is kept in mind once no block but the one at `addr` is staged.
    pub open spec fn settled(self, addr: u32) -> Track {
        if self.stages_other(addr) {
            self.flushed()
        } else {
            self
        }
    }

    /// The calls after which no block but the one at `addr` is staged.
    pub open spec fn settle_steps(self, addr: u32) -> Seq<Step> {
        if self.stages_other(addr) {
            self.flush_steps()
        } else {
            Seq::empty()
        }
    }

    /// The read of a block of which `n` bytes are written, unless that is all
    /// of it, or it is staged, or it is not mapped.
    pub open spec fn fetch_steps(self, addr: u32, n: int) -> Seq<Step> {
        if self.staged is None && n < self.block && self.mapped.contains(addr as int) {
            seq![Step::ReadDecrypted(addr, self.block as nat)]
        } else {
            Seq::empty()
        }
    }

    /// The block at `addr` is staged.
    pub open spec fn opened(self, addr: u32) -> Track {
        Track { staged: Some(addr), ..self }
    }

    /// The calls that write `n` bytes at `at`, which lie in one block.
    pub open spec fn part_steps(self, at: int, n: int) -> Seq<Step> {
        let addr = self.block_of(at);
        self.settle_steps(addr) + self.settled(addr).fetch_steps(addr, n) + if at
            % self.block as int + n == self.block {
            self.settled(addr).opened(addr).flush_steps()
        } else {
            Seq::empty()
        }
    }

    /// What is kept in mind after that.
    pub open spec fn part_done(self, at: int, n: int) -> Track {
        let addr = self.block_of(at);
        if at % self.block as int + n == self.block {
            self.settled(addr).opened(addr).flushed()
        } else {
            self.settled(addr).opened(addr)
        }
    }

    /// How many of the bytes from `offset` on lie before the last block that
    /// they touch.
    pub open spec fn head(self, offset: int, length: int) -> int {
        let last = offset + length - 1;
        let addr = last - last % self.block as int;
        if addr <= offset {
            0
        } else {
            addr - offset
        }
    }

    /// What is kept in mind after a write: the blocks are written one after the
    /// other.
    pub open spec fn write_done(self, offset: int, length: int) -> Track
        decreases length,
    {
        let head = self.head(offset, length);
        if 0 <= head < length {
            self.write_done(offset, head).part_done(offset + head, length - head)
        } else {
            self
        }
    }

    /// The calls of a write on a chip that is unlocked: those of each block
    /// that it touches, one after the other.
    pub open spec fn write_steps(self, offset: int, length: int) -> Seq<Step>
        decreases length,
    {
        let head = self.head(offset, length);
        if 0 <= head < length {
            self.write_steps(offset, head) + self.write_done(offset, head).part_steps(
                offset + head,
                length - head,
            )
        } else {
            Seq::empty()
        }
    }
}

/// A beginning of a beginning is a beginning.
pub proof fn lemma_prefix_of_prefix(a: Seq<Step>, b: Seq<Step>, c: Seq<Step>)
    requires
        a.is_prefix_of(b),
        b.is_prefix_of(c),
    ensures
        a.is_prefix_of(c),
{
    assert(c.subrange(0, a.len() as int) =~= b.subrange(0, a.len() as int));
}

/// What comes first is a beginning.
pub proof fn lemma_prefix_of_sum(a: Seq<Step>, b: Seq<Step>)
    ensures
        a.is_prefix_of(a + b),
{
    assert((a + b).subrange(0, a.len() as int) =~= a);
}

/// A sum whose second part begins another's begins that one.
pub proof fn lemma_prefix_in_sum(a: Seq<Step>, b: Seq<Step>, c: Seq<Step>)
    requires
        b.is_prefix_of(c),
    ensures
        (a + b).is_prefix_of(a + c),
{
    assert((a + c).subrange(0, (a + b).len() as int) =~= a + c.subrange(0, b.len() as int));
}

/// Saving fewer blocks is the beginning of saving more.
pub proof fn lemma_saved_prefix(t: Track, skip: u32, few: int, many: int)
    requires
        0 <= few <= many,
    ensures
        t.saved(skip, few).is_prefix_of(t.saved(skip, many)),
    decreases many,
{
    if few < many {
        lemma_saved_prefix(t, skip, few, many - 1);
        let b = t.saved(skip, many - 1);
        let c = t.saved(skip, many);
        assert(b.is_prefix_of(c));
        lemma_prefix_of_prefix(t.saved(skip, few), b, c);
    }
}

/// Writing back fewer blocks is the beginning of writing back more.
pub proof fn lemma_restored_prefix(t: Track, skip: u32, few: int, many: int)
    requires
        0 <= few <= many,
    ensures
        t.restored(skip, few).is_prefix_of(t.restored(skip, many)),
    decreases many,
{
    if few < many {
        lemma_restored_prefix(t, skip, few, many - 1);
        let b = t.restored(skip, many - 1);
        let c = t.restored(skip, many);
        assert(b.is_prefix_of(c));
        lemma_prefix_of_prefix(t.restored(skip, few), b, c);
    }
}

/// A part that begins where a block or the write begins is the last one of the
/// write up to its end.
pub proof fn lemma_head(t: Track, offset: int, done: int, n: int)
    requires
        t.block > 0,
        0 <= offset,
        0 <= done,
        0 < n,
        done == 0 || (offset + done) % t.block as int == 0,
        (offset + done) % t.block as int + n <= t.block,
    ensures
        t.head(offset, done + n) == done,
{
    let block = t.block as int;
    let at = offset + done;
    super::model::lemma_block_around(at, 0, block);
    super::model::lemma_same_block(at, n - 1, block);
}

/// Writing the first blocks of a range is the beginning of writing it.
pub proof fn lemma_write_prefix(t: Track, offset: int, few: int, many: int)
    requires
        t.block > 0,
        0 <= offset,
        0 <= few <= many,
        few == 0 || few == many || (offset + few) % t.block as int == 0,
    ensures
        t.write_steps(offset, few).is_prefix_of(t.write_steps(offset, many)),
    decreases many,
{
    if few < many {
        let block = t.block as int;
        let last = offset + many - 1;
        let head = t.head(offset, many);
        super::model::lemma_block_around(last, 0, block);
        let addr = last - last % block;
        if few > 0 {
            // The boundary at `few` is not after the last block's.
            lemma_boundary(offset + few, last, block);
        }
        assert(few <= head < many);
        lemma_write_prefix(t, offset, few, head);
        let more = t.write_done(offset, head).part_steps(offset + head, many - head);
        lemma_prefix_of_sum(t.write_steps(offset, head), more);
        lemma_prefix_of_prefix(
            t.write_steps(offset, few),
            t.write_steps(offset, head),
            t.write_steps(offset, many),
        );
    }
}

/// A boundary at or before an address is at or before its block.
proof fn lemma_boundary(boundary: int, a: int, block: int)
    requires
        block > 0,
        boundary % block == 0,
        boundary <= a,
    ensures
        boundary <= a - a % block,
{
    super::model::lemma_block_around(a, boundary, block);
    let b = a - a % block;
    if boundary > b {
        super::model::lemma_block_around(boundary, b, block);
    }
}

/// The step erases or encrypts.
pub open spec fn is_change(step: Step) -> bool {
    step is Erase || step is WriteEncrypted
}

/// No erase and no encrypting write occurs twice, and there is no raw access.
pub open spec fn each_once(steps: Seq<Step>) -> bool {
    &&& forall|i: int|
        0 <= i < steps.len() ==> is_change(#[trigger] steps[i]) || steps[i] is ReadDecrypted
    &&& forall|i: int, j: int|
        0 <= i < j < steps.len() && is_change(steps[i]) ==> #[trigger] steps[i]
            != #[trigger] steps[j]
}

/// The blocks from `first` to before `end` have been written: what has been
/// called, and what is kept in mind.
spec fn came_to(t: Track, now: Track, steps: Seq<Step>, first: int, end: int) -> bool {
    let block = t.block as int;
    let sector = t.sector as int;
    &&& now.block == t.block && now.sector == t.sector && now.mapped == t.mapped
    &&& each_once(steps)
    &&& forall|i: int|
        0 <= i < steps.len() ==> match #[trigger] steps[i] {
            Step::WriteEncrypted(a, _) => a < end,
            Step::Erase(index) => index * sector < end && end > first,
            _ => true,
        }
    &&& if end == first {
        now.current == t.current && now.written == t.written
    } else {
        &&& now.current == Some(((end - block) / sector) as u32)
        &&& forall|x: u32| #[trigger] now.written.contains(x) ==> x < end
    }
}

/// One block more.
proof fn lemma_block_flushed(t: Track, now: Track, steps: Seq<Step>, first: int, b: int)
    requires
        t.block > 0,
        t.sector > 0,
        t.sector as int % t.block as int == 0,
        0 <= first <= b,
        b % t.block as int == 0,
        first % t.block as int == 0,
        b + t.block <= u32::MAX,
        t.current == Some((first / t.sector as int) as u32) ==> forall|x: u32| #[trigger]
            t.written.contains(x) ==> x < first,
        came_to(t, now, steps, first, b),
    ensures
        came_to(
            t,
            now.opened(b as u32).flushed(),
            steps + now.opened(b as u32).flush_steps(),
            first,
            b + t.block,
        ),
{
    let block = t.block as int;
    let sector = t.sector as int;
    let opened = now.opened(b as u32);
    let index = b / sector;
    let more = opened.flush_steps();
    let all = steps + more;
    let last = Step::WriteEncrypted(b as u32, t.block as nat);
    vstd::arithmetic::div_mod::lemma_fundamental_div_mod(b, sector);
    assert(sector * index == index * sector) by (nonlinear_arith);
    assert(0 <= b % sector < sector) by (nonlinear_arith)
        requires
            sector > 0,
    ;
    vstd::arithmetic::div_mod::lemma_div_pos_is_pos(b, sector);
    assert(index <= b) by (nonlinear_arith)
        requires
            index * sector <= b,
            sector >= 1,
            0 <= index,
    ;
    assert(opened.staged_sector() == index);
    if b > first {
        if index * sector < b {
            lemma_previous_block(b, block, sector);
        }
        lemma_boundary(first, b - 1, block);
        lemma_block_back(b, block);
    }
    assert(!(opened.current == Some(index as u32) && opened.written.contains(b as u32)));
    if opened.current != Some(index as u32) {
        assert(more =~= seq![Step::Erase(index as u32), last]);
    } else {
        assert(more =~= seq![last]);
    }
    assert forall|i: int| 0 <= i < all.len() implies is_change(#[trigger] all[i])
        || all[i] is ReadDecrypted by {
        if i < steps.len() {
            assert(all[i] == steps[i]);
        } else {
            assert(all[i] == more[i - steps.len()]);
        }
    }
    assert forall|i: int, j: int| 0 <= i < j < all.len() && is_change(all[i]) implies #[trigger] all[i]
        != #[trigger] all[j] by {
        if i < steps.len() {
            assert(all[i] == steps[i]);
            if j < steps.len() {
                assert(all[j] == steps[j]);
            } else {
                assert(all[j] == more[j - steps.len()]);
                if let Step::Erase(s) = steps[i] {
                    if s == index {
                        // The block before lies in the same sector, which is current.
                        assert(index * sector < b);
                    }
                }
            }
        } else {
            assert(all[i] == more[i - steps.len()]);
            assert(all[j] == more[j - steps.len()]);
        }
    }
    assert forall|i: int| 0 <= i < all.len() implies match #[trigger] all[i] {
        Step::WriteEncrypted(a, _) => a < b + block,
        Step::Erase(s) => s * sector < b + block && b + block > first,
        _ => true,
    } by {
        if i < steps.len() {
            assert(all[i] == steps[i]);
        } else {
            assert(all[i] == more[i - steps.len()]);
        }
    }
    let flushed = opened.flushed();
    assert forall|x: u32| #[trigger] flushed.written.contains(x) implies x < b + block by {
        let i = choose|i: int| 0 <= i < flushed.written.len() && flushed.written[i] == x;
        if opened.current == Some(index as u32) && i < opened.written.len() {
            assert(opened.written[i] == x);
            assert(opened.written.contains(x));
        }
    }
}

/// The block before one that does not begin a sector lies in the same sector.
proof fn lemma_previous_block(b: int, block: int, sector: int)
    requires
        block > 0,
        sector > 0,
        sector % block == 0,
        b % block == 0,
        (b / sector) * sector < b,
    ensures
        (b - block) / sector == b / sector,
{
    let q = b / sector;
    vstd::arithmetic::div_mod::lemma_fundamental_div_mod(b, sector);
    assert(sector * q == q * sector) by (nonlinear_arith);
    assert(0 <= b % sector < sector) by (nonlinear_arith)
        requires
            sector > 0,
    ;
    // The sector begins at a block boundary, at least a block before.
    vstd::arithmetic::div_mod::lemma_fundamental_div_mod(sector, block);
    let m = sector / block;
    assert(q * sector == (q * m) * block) by (nonlinear_arith)
        requires
            sector == block * m,
    ;
    vstd::arithmetic::div_mod::lemma_mod_multiples_basic(q * m, block);
    lemma_boundary(q * sector, b - 1, block);
    lemma_block_back(b, block);
    vstd::arithmetic::div_mod::lemma_fundamental_div_mod_converse(
        b - block,
        sector,
        q,
        b - block - q * sector,
    );
}

/// The block around the address before a boundary.
proof fn lemma_block_back(b: int, block: int)
    requires
        block > 0,
        b % block == 0,
    ensures
        (b - 1) - (b - 1) % block == b - block,
        (b - block) % block == 0,
{
    vstd::arithmetic::div_mod::lemma_mod_sub_multiples_vanish(b, block);
    super::model::lemma_block_around(b - 1, b - block, block);
}

/// Where nothing has to be written back, a write erases each sector that it
/// goes on to once, and writes each block once. That is so if nothing is
/// staged and the blocks that have been written to the sector lie before the
/// write.
pub proof fn law_each_once(t: Track, offset: int, length: int)
    requires
        t.block > 0,
        t.sector > 0,
        t.sector as int % t.block as int == 0,
        0 <= offset,
        0 <= length,
        offset + length <= u32::MAX,
        t.staged is None,
        t.current == Some((t.block_of(offset) as int / t.sector as int) as u32) ==> forall|
            x: u32,
        | #[trigger]
            t.written.contains(x) ==> x < t.block_of(offset),
    ensures
        each_once(t.write_steps(offset, length)),
{
    lemma_each_once(t, offset, length);
}

/// The steps of a write up to a place.
proof fn lemma_each_once(t: Track, offset: int, length: int)
    requires
        t.block > 0,
        t.sector > 0,
        t.sector as int % t.block as int == 0,
        0 <= offset,
        0 <= length,
        offset + length <= u32::MAX,
        t.staged is None,
        t.current == Some((t.block_of(offset) as int / t.sector as int) as u32) ==> forall|
            x: u32,
        | #[trigger]
            t.written.contains(x) ==> x < t.block_of(offset),
    ensures
        ({
            let block = t.block as int;
            let e = offset + length;
            let end = e - e % block;
            &&& came_to(
                t,
                t.write_done(offset, length),
                t.write_steps(offset, length),
                t.block_of(offset) as int,
                end,
            )
            &&& length == 0 || e % block == 0 ==> t.write_done(offset, length).staged is None
        }),
    decreases length,
{
    let block = t.block as int;
    let e = offset + length;
    let end = e - e % block;
    let first = offset - offset % block;
    super::model::lemma_block_around(offset, 0, block);
    super::model::lemma_block_around(e, 0, block);
    lemma_boundary(0, offset, block);
    assert(t.block_of(offset) == first);
    if length > 0 {
        let last = e - 1;
        let head = t.head(offset, length);
        let b = last - last % block;
        super::model::lemma_block_around(last, 0, block);
        lemma_boundary(first, last, block);
        lemma_boundary(0, last, block);
        let at = offset + head;
        let n = length - head;
        assert(0 <= head < length);
        lemma_each_once(t, offset, head);
        let now = t.write_done(offset, head);
        let steps = t.write_steps(offset, head);
        // The last part lies in the block at `b`, and all before it are done.
        if b <= offset {
            lemma_boundary(b, offset, block);
            assert(b == first);
            super::model::lemma_block_around(at, b, block);
        } else {
            super::model::lemma_block_around(at, b, block);
        }
        assert(at - at % block == b);
        assert(now.staged is None);
        let fetch = now.fetch_steps(b as u32, n);
        let fetched = steps + fetch;
        assert(came_to(t, now, fetched, first, b)) by {
            assert forall|i: int| 0 <= i < fetched.len() implies fetched[i] == steps[i]
                || fetched[i] is ReadDecrypted by {
                if i < steps.len() {
                    assert(fetched[i] == steps[i]);
                }
            }
            assert forall|i: int, j: int|
                0 <= i < j < fetched.len() && is_change(fetched[i]) implies #[trigger] fetched[i]
                != #[trigger] fetched[j] by {
                if j < steps.len() {
                    assert(fetched[i] == steps[i] && fetched[j] == steps[j]);
                }
            }
        }
        let part = now.part_steps(at, n);
        assert(t.write_steps(offset, length) == steps + part);
        assert(now.settle_steps(b as u32) =~= Seq::empty());
        if at % block + n == block {
            assert(last % block == block - 1);
            vstd::arithmetic::div_mod::lemma_mod_add_multiples_vanish(b, block);
            assert(end == b + block);
            lemma_block_flushed(t, now, fetched, first, b);
            assert(steps + part =~= fetched + now.opened(b as u32).flush_steps());
        } else {
            super::model::lemma_block_around(e, b, block);
            assert(end == b);
            assert(steps + part =~= fetched);
        }
    }
}

/// No step is an unlock.
pub open spec fn never_unlocks(steps: Seq<Step>) -> bool {
    forall|i: int| 0 <= i < steps.len() ==> !((#[trigger] steps[i]) is Unlock)
}

/// Steps that follow each other do not unlock, if none of both does.
proof fn lemma_never_unlocks_sum(a: Seq<Step>, b: Seq<Step>)
    requires
        never_unlocks(a),
        never_unlocks(b),
    ensures
        never_unlocks(a + b),
{
    assert forall|i: int| 0 <= i < (a + b).len() implies !((#[trigger] (a + b)[i]) is Unlock) by {
        if i < a.len() {
            assert((a + b)[i] == a[i]);
        } else {
            assert((a + b)[i] == b[i - a.len()]);
        }
    }
}

/// A renewal does not unlock.
proof fn lemma_renewal_never_unlocks(t: Track, skip: u32, n: int)
    ensures
        never_unlocks(t.saved(skip, n)),
        never_unlocks(t.restored(skip, n)),
    decreases n,
{
    if n > 0 {
        lemma_renewal_never_unlocks(t, skip, n - 1);
    }
}

/// A flush does not unlock.
proof fn lemma_flush_never_unlocks(t: Track)
    ensures
        never_unlocks(t.flush_steps()),
{
    if t.staged is Some {
        let skip = t.staged->Some_0;
        let n = t.written.len() as int;
        lemma_renewal_never_unlocks(t, skip, n);
        lemma_never_unlocks_sum(
            t.saved(skip, n).push(Step::Erase(t.current->Some_0)),
            t.restored(skip, n),
        );
        assert(never_unlocks(t.ready_steps()));
    }
}

/// Once the chip is unlocked, no write unlocks it again.
pub proof fn law_never_unlocks(t: Track, offset: int, length: int)
    ensures
        never_unlocks(t.write_steps(offset, length)),
    decreases length,
{
    let head = t.head(offset, length);
    if 0 <= head < length {
        law_never_unlocks(t, offset, head);
        let now = t.write_done(offset, head);
        let at = offset + head;
        let n = length - head;
        let addr = now.block_of(at);
        lemma_flush_never_unlocks(now);
        lemma_flush_never_unlocks(now.settled(addr).opened(addr));
        let a = now.settle_steps(addr);
        let b = now.settled(addr).fetch_steps(addr, n);
        lemma_never_unlocks_sum(a, b);
        let c = if at % now.block as int + n == now.block {
            now.settled(addr).opened(addr).flush_steps()
        } else {
            Seq::empty()
        };
        lemma_never_unlocks_sum(a + b, c);
        lemma_never_unlocks_sum(t.write_steps(offset, head), now.part_steps(at, n));
    }
}

} // verus!
