//! What is known of an encrypted storage: the effect of its operations, and
//! the laws that follow.
//!
//! The decrypted view of erased flash, and the raw bytes that an encrypting
//! write puts on flash, are left open by the hardware, so the model keeps for
//! each byte what is known of it, if anything.

use super::splice;
use vstd::prelude::*;

verus! {

/// A block that is staged.
#[verifier::ext_equal]
pub struct Staged {
    /// Its address.
    pub addr: int,
    /// Its bytes, as far as they are known.
    pub data: Seq<Option<u8>>,
}

/// What is known of a storage and the chip below it.
#[verifier::ext_equal]
pub struct OtaModel {
    /// Number of bytes that are encrypted together.
    pub block: int,
    /// Number of bytes that are erased together.
    pub sector: int,
    /// The addresses that are read decrypted.
    pub mapped: Set<int>,
    /// For each address, the byte that a decrypted read returns, if known.
    pub decrypted: Seq<Option<u8>>,
    /// For each address, the byte on flash, if known.
    pub raw: Seq<Option<u8>>,
    /// The block that is staged.
    pub pending: Option<Staged>,
    /// The sector that was erased last, whose blocks are being written.
    pub current: Option<int>,
    /// The blocks of that sector that have been written since.
    pub written: Set<int>,
}

impl OtaModel {
    /// Blocks make up sectors, sectors make up the chip, a staged block lies
    /// on a block boundary of the chip, and what has not been written of the
    /// current sector is erased.
    pub open spec fn sound(self) -> bool {
        &&& self.block > 0
        &&& self.sector > 0
        &&& self.sector % self.block == 0
        &&& self.decrypted.len() as int % self.sector == 0
        &&& self.raw.len() == self.decrypted.len()
        &&& self.pending matches Some(Staged { addr, data }) ==> {
            &&& 0 <= addr
            &&& addr % self.block == 0
            &&& addr + self.block <= self.decrypted.len()
            &&& data.len() == self.block
        }
        &&& self.current matches Some(index) ==> {
            &&& 0 <= index
            &&& (index + 1) * self.sector <= self.decrypted.len()
            &&& forall|b: int| #[trigger]
                self.written.contains(b) ==> b % self.block == 0 && index * self.sector <= b && b
                    + self.block <= (index + 1) * self.sector
            &&& forall|a: int|
                self.in_current(a) && !self.written.contains(self.block_of(a))
                    ==> #[trigger] self.raw[a] == Some(0xFFu8)
        }
    }

    /// Nothing is staged, and if the bytes from `offset` to before `end` begin
    /// in the current sector, their blocks are mapped.
    pub open spec fn ready_for(self, offset: int, end: int) -> bool {
        &&& self.pending is None
        &&& self.current == Some(offset / self.sector) ==> forall|a: int|
            self.block_of(offset) <= a < self.block_of(end - 1) + self.block
                ==> #[trigger] self.mapped.contains(a)
    }

    /// The address of the block around `a`.
    pub open spec fn block_of(self, a: int) -> int {
        a - a % self.block
    }

    /// All of the block at `addr` is mapped.
    pub open spec fn maps_block(self, addr: int) -> bool {
        super::span(addr, self.block).subset_of(self.mapped)
    }

    /// The address lies in the current sector.
    pub open spec fn in_current(self, a: int) -> bool {
        self.current matches Some(index) && index * self.sector <= a < (index + 1) * self.sector
    }

    /// Erases a sector. What a decrypted read returns there is then unknown.
    pub open spec fn erase(self, index: int) -> Self {
        let inside = |a: int| index * self.sector <= a < (index + 1) * self.sector;
        OtaModel {
            decrypted: Seq::new(
                self.decrypted.len(),
                |a: int|
                    if inside(a) {
                        None
                    } else {
                        self.decrypted[a]
                    },
            ),
            raw: Seq::new(
                self.raw.len(),
                |a: int|
                    if inside(a) {
                        Some(0xFFu8)
                    } else {
                        self.raw[a]
                    },
            ),
            ..self
        }
    }

    /// The block around `a` has been written since the current sector was
    /// erased, and it is not the one at `addr`.
    pub open spec fn saves(self, addr: int, a: int) -> bool {
        self.written.contains(self.block_of(a)) && self.block_of(a) != addr
    }

    /// Erases the current sector, but for the blocks that have been written.
    /// Of these, the one at `addr` is erased too. The others are written back:
    /// a mapped block has the same decrypted bytes afterwards, and one that is
    /// not mapped has the same raw bytes.
    pub open spec fn renewed(self, addr: int) -> Self {
        OtaModel {
            decrypted: Seq::new(
                self.decrypted.len(),
                |a: int|
                    if self.in_current(a) && !(self.saves(addr, a) && self.maps_block(
                        self.block_of(a),
                    )) {
                        None
                    } else {
                        self.decrypted[a]
                    },
            ),
            raw: Seq::new(
                self.raw.len(),
                |a: int|
                    if !self.in_current(a) {
                        self.raw[a]
                    } else if !self.saves(addr, a) {
                        Some(0xFFu8)
                    } else if self.mapped.contains(self.block_of(a)) {
                        None
                    } else {
                        self.raw[a]
                    },
            ),
            ..self
        }
    }

    /// Makes the block at `addr` one that can be written: its sector is erased
    /// unless it is the current one, and if the block has been written since
    /// then, the sector is renewed.
    pub open spec fn prepared(self, addr: int) -> Self {
        let index = addr / self.sector;
        if self.current != Some(index) {
            OtaModel { current: Some(index), written: Set::empty(), ..self.erase(index) }
        } else if self.written.contains(addr) {
            self.renewed(addr)
        } else {
            self
        }
    }

    /// The `length` bytes from `addr` on are erased.
    pub open spec fn is_clean(self, addr: int, length: int) -> bool {
        forall|a: int| addr <= a < addr + length ==> #[trigger] self.raw[a] == Some(0xFFu8)
    }

    /// An encrypting write of a block that is erased.
    pub open spec fn program(self, addr: int, data: Seq<Option<u8>>) -> Self {
        OtaModel {
            decrypted: splice(self.decrypted, addr, data),
            raw: splice(self.raw, addr, Seq::new(data.len(), |i: int| None)),
            written: self.written.insert(addr),
            ..self
        }
    }

    /// Writes the staged block, if there is one, to the chip.
    pub open spec fn commit(self) -> Self {
        match self.pending {
            None => self,
            Some(Staged { addr, data }) => OtaModel { pending: None, ..self }.prepared(
                addr,
            ).program(addr, data),
        }
    }

    /// Writes the staged block unless it is the one at `addr`.
    pub open spec fn settled(self, addr: int) -> Self {
        match self.pending {
            Some(staged) => if staged.addr == addr {
                self
            } else {
                self.commit()
            },
            None => self,
        }
    }

    /// What a block holds before it is changed: what a decrypted read returns
    /// where the block is mapped, and `0xFF` where it is not.
    pub open spec fn block_content(self, addr: int) -> Seq<Option<u8>> {
        Seq::new(
            self.block as nat,
            |i: int|
                if !self.mapped.contains(addr) {
                    Some(0xFFu8)
                } else if self.maps_block(addr) {
                    self.decrypted[addr + i]
                } else {
                    None
                },
        )
    }

    /// Stages the block at `addr`, unless a block is staged.
    pub open spec fn opened(self, addr: int) -> Self {
        if self.pending is None {
            OtaModel { pending: Some(Staged { addr, data: self.block_content(addr) }), ..self }
        } else {
            self
        }
    }

    /// Changes bytes of the staged block.
    pub open spec fn patched(self, off: int, part: Seq<u8>) -> Self {
        match self.pending {
            None => self,
            Some(Staged { addr, data }) => OtaModel {
                pending: Some(
                    Staged { addr, data: splice(data, off, part.map_values(|b: u8| Some(b))) },
                ),
                ..self
            },
        }
    }

    /// Writes one byte: the block around it is staged and changed, and written
    /// to the chip once its last byte has been changed.
    pub open spec fn put(self, a: int, byte: u8) -> Self {
        let addr = self.block_of(a);
        let staged = self.settled(addr).opened(addr).patched(a - addr, seq![byte]);
        if a - addr == self.block - 1 {
            staged.commit()
        } else {
            staged
        }
    }

    /// Writes bytes one after the other.
    pub open spec fn write(self, offset: int, bytes: Seq<u8>) -> Self
        decreases bytes.len(),
    {
        if bytes.len() == 0 {
            self
        } else {
            self.write(offset, bytes.drop_last()).put(offset + bytes.len() - 1, bytes.last())
        }
    }
}

/// Writing in pieces is writing at once: where the pieces are cut plays no
/// part.
pub proof fn law_pieces_add_up(k: OtaModel, offset: int, first: Seq<u8>, second: Seq<u8>)
    ensures
        k.write(offset, first + second) == k.write(offset, first).write(
            offset + first.len(),
            second,
        ),
    decreases second.len(),
{
    let all = first + second;
    if second.len() == 0 {
        assert(all =~= first);
    } else {
        law_pieces_add_up(k, offset, first, second.drop_last());
        assert(all.drop_last() =~= first + second.drop_last());
        assert(all.last() == second.last());
    }
}

/// The remainders of addresses in one block.
pub proof fn lemma_same_block(a: int, n: int, block: int)
    requires
        block > 0,
        0 <= n,
        a % block + n < block,
    ensures
        (a + n) % block == a % block + n,
        (a + n) - (a + n) % block == a - a % block,
{
    vstd::arithmetic::div_mod::lemma_fundamental_div_mod(a, block);
    assert(block * (a / block) == (a / block) * block) by (nonlinear_arith);
    assert(a % block >= 0) by (nonlinear_arith)
        requires
            block > 0,
    ;
    vstd::arithmetic::div_mod::lemma_fundamental_div_mod_converse(
        a + n,
        block,
        a / block,
        a % block + n,
    );
}

/// A block on a block boundary of the chip lies inside one sector of the chip.
pub proof fn lemma_block_in_sector(addr: int, block: int, sector: int, size: int)
    requires
        block > 0,
        sector > 0,
        sector % block == 0,
        size % sector == 0,
        0 <= addr,
        addr % block == 0,
        addr + block <= size,
    ensures
        0 <= addr / sector,
        (addr / sector) * sector <= addr,
        addr + block <= (addr / sector + 1) * sector <= size,
        (addr / sector + 1) * sector == (addr / sector) * sector + sector,
{
    let s = addr / sector;
    vstd::arithmetic::div_mod::lemma_fundamental_div_mod(addr, sector);
    vstd::arithmetic::div_mod::lemma_fundamental_div_mod(addr, block);
    vstd::arithmetic::div_mod::lemma_fundamental_div_mod(sector, block);
    vstd::arithmetic::div_mod::lemma_fundamental_div_mod(size, sector);
    vstd::arithmetic::div_mod::lemma_div_pos_is_pos(addr, sector);
    let q = addr / block;
    let m = sector / block;
    let n = size / sector;
    assert(sector * s == s * sector) by (nonlinear_arith);
    assert((s + 1) * sector == s * sector + sector) by (nonlinear_arith);
    // The block boundary is below the sector boundary, which is one too.
    assert((s + 1) * sector == block * ((s + 1) * m)) by (nonlinear_arith)
        requires
            sector == block * m,
    ;
    let e = (s + 1) * m;
    assert(q < e) by (nonlinear_arith)
        requires
            block * q < block * e,
            block > 0,
    ;
    assert(block * q + block <= block * e) by (nonlinear_arith)
        requires
            q + 1 <= e,
            block > 0,
    ;
    assert(s + 1 <= n) by (nonlinear_arith)
        requires
            sector * s <= addr,
            addr < size,
            size == sector * n,
            sector > 0,
    ;
    assert((s + 1) * sector <= sector * n) by (nonlinear_arith)
        requires
            s + 1 <= n,
            sector > 0,
    ;
}

/// The block around an address of the chip lies on the chip.
pub proof fn lemma_block_on_chip(a: int, block: int, sector: int, size: int)
    requires
        block > 0,
        sector > 0,
        sector % block == 0,
        size % sector == 0,
        0 <= a < size,
    ensures
        0 <= a - a % block,
        (a - a % block) % block == 0,
        a - a % block + block <= size,
{
    vstd::arithmetic::div_mod::lemma_fundamental_div_mod(a, block);
    vstd::arithmetic::div_mod::lemma_fundamental_div_mod(sector, block);
    vstd::arithmetic::div_mod::lemma_fundamental_div_mod(size, sector);
    vstd::arithmetic::div_mod::lemma_div_pos_is_pos(a, block);
    let q = a / block;
    let e = (sector / block) * (size / sector);
    assert(size == block * e) by (nonlinear_arith)
        requires
            size == sector * (size / sector),
            sector == block * (sector / block),
            e == (sector / block) * (size / sector),
    ;
    assert(0 <= a % block < block) by (nonlinear_arith)
        requires
            block > 0,
    ;
    assert(q < e) by (nonlinear_arith)
        requires
            block * q <= a < block * e,
            block > 0,
    ;
    assert(block * q + block <= block * e) by (nonlinear_arith)
        requires
            q + 1 <= e,
            block > 0,
    ;
    assert(0 <= block * q) by (nonlinear_arith)
        requires
            0 <= q,
            block > 0,
    ;
    vstd::arithmetic::div_mod::lemma_mod_multiples_basic(q, block);
    assert(q * block == block * q) by (nonlinear_arith);
}

/// What writing a part that lies in one block does: the block is staged and
/// changed in one step.
pub proof fn lemma_write_in_block(k: OtaModel, offset: int, part: Seq<u8>)
    requires
        k.block > 0,
        part.len() > 0,
        offset % k.block + part.len() <= k.block,
        k.pending matches Some(staged) ==> staged.data.len() == k.block,
    ensures
        k.write(offset, part) == ({
            let addr = k.block_of(offset);
            let staged = k.settled(addr).opened(addr).patched(offset - addr, part);
            if offset - addr + part.len() == k.block {
                staged.commit()
            } else {
                staged
            }
        }),
    decreases part.len(),
{
    let addr = k.block_of(offset);
    let ready = k.settled(addr).opened(addr);
    let before = part.drop_last();
    let a = offset + before.len();
    lemma_same_block(offset, before.len() as int, k.block);
    assert(ready.pending is Some);
    assert(ready.pending.unwrap().addr == addr);
    if before.len() == 0 {
        assert(part =~= seq![part.last()]);
        assert(k.write(offset, before) == k);
    } else {
        lemma_write_in_block(k, offset, before);
        let half = ready.patched(offset - addr, before);
        assert(k.write(offset, before) == half);
        assert(half.settled(addr).opened(addr) == half);
        assert(half.patched(a - addr, seq![part.last()]) =~= ready.patched(offset - addr, part)) by {
            let data = ready.pending.unwrap().data;
            let some = |b: u8| Some(b);
            assert(splice(
                splice(data, offset - addr, before.map_values(some)),
                a - addr,
                seq![part.last()].map_values(some),
            ) =~= splice(data, offset - addr, part.map_values(some)));
        }
    }
}

/// Small writes merge: while a block is staged, writing into it changes the
/// staged bytes and nothing else, unless it reaches the end of the block.
pub proof fn law_small_writes_merge(k: OtaModel, offset: int, part: Seq<u8>)
    requires
        k.sound(),
        k.pending is Some,
        k.pending.unwrap().addr == k.block_of(offset),
        part.len() > 0,
        offset % k.block + part.len() < k.block,
    ensures
        k.write(offset, part) == (OtaModel {
            pending: Some(
                Staged {
                    addr: k.block_of(offset),
                    data: splice(
                        k.pending.unwrap().data,
                        offset % k.block,
                        part.map_values(|b: u8| Some(b)),
                    ),
                },
            ),
            ..k
        }),
{
    lemma_write_in_block(k, offset, part);
}

/// A flush with nothing staged changes nothing, so a second flush does not.
pub proof fn law_flush_twice(k: OtaModel)
    ensures
        k.commit().pending is None,
        k.commit().commit() == k.commit(),
{
}

/// Two neighbouring blocks lie in one sector, or the second begins a sector.
proof fn lemma_neighbours(addr: int, block: int, sector: int, size: int)
    requires
        block > 0,
        sector > 0,
        sector % block == 0,
        size % sector == 0,
        block <= addr,
        addr % block == 0,
        addr + block <= size,
    ensures
        (addr - block) % block == 0,
        (addr - block) / sector == addr / sector || addr == (addr / sector) * sector,
{
    let before = addr - block;
    vstd::arithmetic::div_mod::lemma_mod_sub_multiples_vanish(addr, block);
    lemma_block_in_sector(addr, block, sector, size);
    lemma_block_in_sector(before, block, sector, size);
    let s = before / sector;
    if addr < (s + 1) * sector {
        vstd::arithmetic::div_mod::lemma_fundamental_div_mod_converse(
            addr,
            sector,
            s,
            addr - s * sector,
        );
    } else {
        vstd::arithmetic::div_mod::lemma_fundamental_div_mod_converse(addr, sector, s + 1, 0);
    }
}

/// The block after the one around `a` begins right after its last byte.
proof fn lemma_next(a: int, block: int)
    requires
        block > 0,
        0 <= a,
    ensures
        0 <= a % block < block,
        0 <= a - a % block,
        a % block + 1 < block ==> (a + 1) % block == a % block + 1,
        a % block + 1 == block ==> (a + 1) % block == 0,
{
    vstd::arithmetic::div_mod::lemma_fundamental_div_mod(a, block);
    assert(0 <= a % block < block) by (nonlinear_arith)
        requires
            block > 0,
    ;
    let q = a / block;
    assert(0 <= block * q) by (nonlinear_arith)
        requires
            a == block * q + a % block,
            0 <= a,
            0 <= a % block < block,
    ;
    assert(block * q == q * block) by (nonlinear_arith);
    assert((q + 1) * block == q * block + block) by (nonlinear_arith);
    if a % block + 1 < block {
        lemma_same_block(a, 1, block);
    } else {
        vstd::arithmetic::div_mod::lemma_fundamental_div_mod_converse(a + 1, block, q + 1, 0);
    }
}

/// Two blocks on block boundaries are the same or apart.
pub proof fn lemma_block_around(a: int, addr: int, block: int)
    requires
        block > 0,
        addr % block == 0,
    ensures
        (addr <= a < addr + block) == (a - a % block == addr),
        0 <= a % block < block,
        (a - a % block) % block == 0,
{
    vstd::arithmetic::div_mod::lemma_fundamental_div_mod(a, block);
    assert(0 <= a % block < block) by (nonlinear_arith)
        requires
            block > 0,
    ;
    if addr <= a < addr + block {
        assert(addr % block + (a - addr) < block);
        lemma_same_block(addr, a - addr, block);
    }
    vstd::arithmetic::div_mod::lemma_mod_multiples_basic(a / block, block);
    assert((a / block) * block == block * (a / block)) by (nonlinear_arith);
}

/// The block around an address of a sector lies in that sector.
pub proof fn lemma_block_inside(a: int, index: int, block: int, sector: int)
    requires
        block > 0,
        sector > 0,
        sector % block == 0,
        index * sector <= a < (index + 1) * sector,
    ensures
        index * sector <= a - a % block,
        a - a % block + block <= (index + 1) * sector,
{
    let q = a / block;
    let m = sector / block;
    vstd::arithmetic::div_mod::lemma_fundamental_div_mod(a, block);
    vstd::arithmetic::div_mod::lemma_fundamental_div_mod(sector, block);
    assert(0 <= a % block < block) by (nonlinear_arith)
        requires
            block > 0,
    ;
    let low = index * m;
    let high = (index + 1) * m;
    assert(index * sector == block * low) by (nonlinear_arith)
        requires
            sector == block * m,
            low == index * m,
    ;
    assert((index + 1) * sector == block * high) by (nonlinear_arith)
        requires
            sector == block * m,
            high == (index + 1) * m,
    ;
    assert(low <= q) by (nonlinear_arith)
        requires
            block * low < block * q + block,
            block > 0,
    ;
    assert(block * low <= block * q) by (nonlinear_arith)
        requires
            low <= q,
            block > 0,
    ;
    assert(q + 1 <= high) by (nonlinear_arith)
        requires
            block * q < block * high,
            block > 0,
    ;
    assert(block * q + block <= block * high) by (nonlinear_arith)
        requires
            q + 1 <= high,
            block > 0,
    ;
}

/// A block that is made ready is erased, and nothing that was known of other
/// sectors is lost.
pub proof fn lemma_prepared(k: OtaModel, addr: int)
    requires
        k.sound(),
        0 <= addr,
        addr % k.block == 0,
        addr + k.block <= k.decrypted.len(),
    ensures
        k.prepared(addr).sound(),
        k.prepared(addr).current == Some(addr / k.sector),
        k.prepared(addr).is_clean(addr, k.block),
{
    let index = addr / k.sector;
    let ready = k.prepared(addr);
    lemma_block_in_sector(addr, k.block, k.sector, k.decrypted.len() as int);
    assert forall|a: int| addr <= a < addr + k.block implies #[trigger] ready.raw[a] == Some(
        0xFFu8,
    ) by {
        lemma_block_around(a, addr, k.block);
        assert(k.current == Some(index) ==> k.in_current(a));
    }
    if k.current == Some(index) && k.written.contains(addr) {
        assert forall|a: int|
            ready.in_current(a) && !ready.written.contains(
                ready.block_of(a),
            ) implies #[trigger] ready.raw[a] == Some(0xFFu8) by {
            assert(k.in_current(a));
            assert(0 <= index * k.sector) by (nonlinear_arith)
                requires
                    0 <= index,
                    k.sector > 0,
            ;
        }
    }
}

/// Putting the staged block on the chip keeps a storage sound.
pub proof fn lemma_commit_sound(k: OtaModel)
    requires
        k.sound(),
    ensures
        k.commit().sound(),
{
    if let Some(Staged { addr, data }) = k.pending {
        let unstaged = OtaModel { pending: None, ..k };
        lemma_prepared(unstaged, addr);
        let ready = unstaged.prepared(addr);
        let c = ready.program(addr, data);
        let index = addr / k.sector;
        lemma_block_in_sector(addr, k.block, k.sector, k.decrypted.len() as int);
        assert forall|a: int|
            c.in_current(a) && !c.written.contains(c.block_of(a)) implies #[trigger] c.raw[a]
            == Some(0xFFu8) by {
            lemma_block_around(a, addr, k.block);
            assert(ready.in_current(a));
            assert(0 <= index * k.sector) by (nonlinear_arith)
                requires
                    0 <= index,
                    k.sector > 0,
            ;
            assert(ready.raw[a] == Some(0xFFu8));
        }
    }
}

/// What `w` holds at `a` is what was there before.
spec fn untouched(k: OtaModel, w: OtaModel, a: int) -> bool {
    w.decrypted[a] == k.decrypted[a] && w.raw[a] == k.raw[a]
}

/// The byte that is to end up at `a`: the one that was written there, or, in
/// the first block, the one that the block held before.
spec fn wanted(k: OtaModel, offset: int, bytes: Seq<u8>, a: int) -> Option<u8> {
    if offset <= a < offset + bytes.len() {
        Some(bytes[a - offset])
    } else {
        k.block_content(k.block_of(offset))[a - k.block_of(offset)]
    }
}

/// The address lies in a mapped block of the sector of `offset` that has been
/// written since that sector was erased.
pub open spec fn standing(k: OtaModel, offset: int, a: int) -> bool {
    &&& k.current == Some(offset / k.sector)
    &&& k.in_current(a)
    &&& k.written.contains(k.block_of(a))
    &&& k.maps_block(k.block_of(a))
}

/// What is on the chip after `bytes` were written from `offset` on to a
/// ready storage, with all blocks below `b` committed: the bytes below `upto`,
/// the blocks of the first sector that stand, and all other sectors.
spec fn on_chip(k: OtaModel, w: OtaModel, offset: int, bytes: Seq<u8>, b: int, upto: int) -> bool {
    let first = k.block_of(offset);
    let s = if b == first {
        offset / k.sector
    } else {
        (b - k.block) / k.sector
    };
    &&& w.sound()
    &&& w.block == k.block && w.sector == k.sector && w.mapped == k.mapped
    &&& w.decrypted.len() == k.decrypted.len()
    &&& forall|a: int| first <= a < upto ==> #[trigger] w.decrypted[a] == wanted(k, offset, bytes, a)
    &&& forall|a: int|
        standing(k, offset, a) && !(first <= a < b) ==> #[trigger] w.decrypted[a] == k.decrypted[a]
    &&& forall|a: int|
        standing(k, offset, a) && s == offset / k.sector ==> #[trigger] w.written.contains(
            k.block_of(a),
        )
    &&& if b == first {
        &&& w.current == k.current
        &&& w.written == k.written
        &&& forall|a: int| 0 <= a < k.decrypted.len() ==> #[trigger] untouched(k, w, a)
    } else {
        &&& w.current == Some(s)
        &&& forall|a: int|
            first <= a < b && s * k.sector <= a ==> w.written.contains(#[trigger] k.block_of(a))
        &&& forall|x: int| #[trigger]
            w.written.contains(x) ==> x < b || k.current == Some(s) && s == offset / k.sector
        &&& forall|a: int|
            0 <= a < (offset / k.sector) * k.sector || (s + 1) * k.sector <= a < k.decrypted.len()
                ==> #[trigger] untouched(k, w, a)
    }
}

/// What is staged: the block at `b`, with the bytes that belong there.
spec fn in_buffer(k: OtaModel, w: OtaModel, offset: int, bytes: Seq<u8>, b: int) -> bool {
    &&& w.pending is Some
    &&& w.pending.unwrap().addr == b
    &&& forall|i: int|
        0 <= i < k.block && (b + i < offset + bytes.len() || b == k.block_of(offset))
            ==> #[trigger] w.pending.unwrap().data[i] == wanted(k, offset, bytes, b + i)
}

/// The state of a ready storage after `bytes` were written from `offset` on:
/// all full blocks are on the chip, and the rest of the bytes is staged.
spec fn streamed(k: OtaModel, w: OtaModel, offset: int, bytes: Seq<u8>) -> bool {
    let e = offset + bytes.len();
    let b = k.block_of(e);
    &&& on_chip(k, w, offset, bytes, b, b)
    &&& if bytes.len() == 0 || e % k.block == 0 {
        w.pending is None
    } else {
        in_buffer(k, w, offset, bytes, b)
    }
}

/// Putting the staged block on the chip: the blocks before it stay.
proof fn lemma_commit_streamed(
    k: OtaModel,
    w: OtaModel,
    offset: int,
    bytes: Seq<u8>,
    b: int,
    end: int,
)
    requires
        k.sound(),
        k.ready_for(offset, end),
        0 <= offset,
        k.block_of(offset) <= b,
        b % k.block == 0,
        b < offset + bytes.len() <= b + k.block,
        offset + bytes.len() <= end,
        b + k.block <= k.decrypted.len(),
        on_chip(k, w, offset, bytes, b, b),
        in_buffer(k, w, offset, bytes, b),
    ensures
        on_chip(k, w.commit(), offset, bytes, b + k.block, offset + bytes.len()),
        b == k.block_of(offset) ==> forall|a: int|
            b <= a < b + k.block ==> #[trigger] w.commit().decrypted[a] == wanted(
                k,
                offset,
                bytes,
                a,
            ),
        w.commit().pending is None,
{
    let e = offset + bytes.len();
    let first = k.block_of(offset);
    let s = b / k.sector;
    let size = k.decrypted.len() as int;
    let staged = w.pending.unwrap();
    let c = w.commit();
    lemma_block_in_sector(b, k.block, k.sector, size);
    lemma_next(offset, k.block);
    lemma_commit_sound(w);
    let unstaged = OtaModel { pending: None, ..w };
    lemma_prepared(unstaged, b);
    let ready = unstaged.prepared(b);
    lemma_first_sector(offset, k.block, k.sector, size);
    lemma_sectors_ordered(offset, offset, k.sector);
    if b == first {
        assert(s == offset / k.sector);
    } else {
        lemma_block_on_chip(offset, k.block, k.sector, size);
        lemma_order(first, b, k.block);
        lemma_neighbours(b, k.block, k.sector, size);
        lemma_block_in_sector(b - k.block, k.block, k.sector, size);
        lemma_sectors_ordered(offset, b, k.sector);
        lemma_sectors_ordered(first, b - k.block, k.sector);
        if w.current != Some(s) {
            assert(b == s * k.sector);
        }
    }
    assert(c == ready.program(b, staged.data));
    let renews = w.current == Some(s) && w.written.contains(b);
    if renews {
        assert(k.current == Some(s) && s == offset / k.sector);
    }
    // What a renewal keeps.
    assert forall|a: int| first <= a < b implies ready.decrypted[a] == w.decrypted[a] by {
        if renews && unstaged.in_current(a) {
            let x = k.block_of(a);
            lemma_block_around(a, b, k.block);
            lemma_order(first, a, k.block);
            lemma_order(a, b, k.block);
            lemma_order(b, end - 1, k.block);
            assert(w.written.contains(x));
            assert(unstaged.saves(b, a));
            assert(unstaged.maps_block(x)) by {
                assert forall|y: int| super::span(x, k.block).contains(y) implies w.mapped.contains(
                    y,
                ) by {
                    assert(k.mapped.contains(y));
                }
            }
        }
    }
    assert forall|a: int| first <= a < e || b == first && first <= a < b + k.block implies #[trigger] c.decrypted[a]
        == wanted(k, offset, bytes, a) by {
        if a >= b {
            assert(c.decrypted[a] == staged.data[a - b]);
        } else {
            assert(c.decrypted[a] == ready.decrypted[a]);
            assert(w.decrypted[a] == wanted(k, offset, bytes, a));
        }
    }
    assert forall|a: int|
        standing(k, offset, a) && !(first <= a < b + k.block) implies #[trigger] c.decrypted[a]
        == k.decrypted[a] by {
        assert(w.decrypted[a] == k.decrypted[a]);
        lemma_sector_on_chip(k, a);
        assert(c.decrypted[a] == ready.decrypted[a]);
        if w.current == Some(s) {
            if renews {
                assert(w.written.contains(k.block_of(a)));
                lemma_block_around(a, b, k.block);
                assert(unstaged.saves(b, a));
            }
        } else if s != offset / k.sector {
            lemma_sectors_apart(offset / k.sector, s, k.sector);
        }
    }
    assert forall|a: int|
        standing(k, offset, a) && s == offset / k.sector implies #[trigger] c.written.contains(
        k.block_of(a),
    ) by {
        assert(w.written.contains(k.block_of(a)));
    }
    assert forall|a: int| first <= a < b + k.block && s * k.sector <= a implies c.written.contains(
        #[trigger] k.block_of(a),
    ) by {
        lemma_block_around(a, b, k.block);
        if a < b {
            assert(w.current == Some(s));
            assert(w.written.contains(k.block_of(a)));
        }
    }
    assert forall|x: int| #[trigger] c.written.contains(x) implies x < b + k.block || k.current
        == Some(s) && s == offset / k.sector by {
        if x != b {
            assert(w.written.contains(x));
        }
    }
    assert forall|a: int|
        0 <= a < (offset / k.sector) * k.sector || (s + 1) * k.sector <= a
            < k.decrypted.len() implies #[trigger] untouched(k, c, a) by {
        assert(untouched(k, w, a));
    }
    vstd::arithmetic::div_mod::lemma_mod_add_multiples_vanish(b, k.block);
}

/// The current sector lies on the chip.
proof fn lemma_sector_on_chip(k: OtaModel, a: int)
    requires
        k.sound(),
        k.in_current(a),
    ensures
        0 <= a < k.decrypted.len(),
{
    let index = k.current.unwrap();
    assert(0 <= index * k.sector) by (nonlinear_arith)
        requires
            0 <= index,
            k.sector > 0,
    ;
}

/// A sector ends where a later one begins, or before.
proof fn lemma_sectors_apart(low: int, high: int, sector: int)
    requires
        low < high,
        sector > 0,
    ensures
        (low + 1) * sector <= high * sector,
{
    assert((low + 1) * sector <= high * sector) by (nonlinear_arith)
        requires
            low + 1 <= high,
            sector > 0,
    ;
}

/// The first block of a range begins in the sector of its first byte.
pub proof fn lemma_first_sector(a: int, block: int, sector: int, size: int)
    requires
        block > 0,
        sector > 0,
        sector % block == 0,
        size % sector == 0,
        0 <= a < size,
    ensures
        (a - a % block) / sector == a / sector,
{
    let b = a - a % block;
    lemma_block_on_chip(a, block, sector, size);
    lemma_block_in_sector(b, block, sector, size);
    assert(0 <= a % block < block) by (nonlinear_arith)
        requires
            block > 0,
    ;
    let s = b / sector;
    vstd::arithmetic::div_mod::lemma_fundamental_div_mod_converse(a, sector, s, a - s * sector);
}

/// Blocks are ordered as the addresses in them.
proof fn lemma_order(low: int, high: int, block: int)
    requires
        block > 0,
        0 <= low <= high,
    ensures
        low - low % block <= high - high % block,
        low - low % block != high - high % block ==> low - low % block + block <= high - high
            % block,
{
    vstd::arithmetic::div_mod::lemma_fundamental_div_mod(low, block);
    vstd::arithmetic::div_mod::lemma_fundamental_div_mod(high, block);
    let p = low / block;
    let q = high / block;
    assert(0 <= low % block < block && 0 <= high % block < block) by (nonlinear_arith)
        requires
            block > 0,
    ;
    assert(p <= q) by (nonlinear_arith)
        requires
            block * p <= low <= high < block * q + block,
            block > 0,
    ;
    if p < q {
        assert(block * p + block <= block * q) by (nonlinear_arith)
            requires
                p + 1 <= q,
                block > 0,
        ;
    }
}

/// Sectors are ordered as the addresses in them.
proof fn lemma_sectors_ordered(low: int, high: int, sector: int)
    requires
        sector > 0,
        0 <= low,
        low <= high,
    ensures
        low / sector <= high / sector,
        (low / sector) * sector <= (high / sector) * sector,
{
    vstd::arithmetic::div_mod::lemma_div_is_ordered(low, high, sector);
    assert((low / sector) * sector <= (high / sector) * sector) by (nonlinear_arith)
        requires
            low / sector <= high / sector,
            sector > 0,
    ;
}

/// Writing to a ready storage streams the bytes to the chip.
proof fn lemma_streamed(k: OtaModel, offset: int, bytes: Seq<u8>, end: int)
    requires
        k.sound(),
        k.ready_for(offset, end),
        0 <= offset,
        offset + bytes.len() <= end <= k.decrypted.len(),
    ensures
        streamed(k, k.write(offset, bytes), offset, bytes),
    decreases bytes.len(),
{
    if bytes.len() == 0 {
        lemma_next(offset, k.block);
    } else {
        let before = bytes.drop_last();
        lemma_streamed(k, offset, before, end);
        lemma_put_streamed(k, k.write(offset, before), offset, before, bytes.last(), end);
        assert(before.push(bytes.last()) =~= bytes);
    }
}

/// Writing one more byte.
proof fn lemma_put_streamed(
    k: OtaModel,
    w: OtaModel,
    offset: int,
    bytes: Seq<u8>,
    byte: u8,
    end: int,
)
    requires
        k.sound(),
        k.ready_for(offset, end),
        0 <= offset,
        offset + bytes.len() < end <= k.decrypted.len(),
        streamed(k, w, offset, bytes),
    ensures
        streamed(k, w.put(offset + bytes.len(), byte), offset, bytes.push(byte)),
{
    let e = offset + bytes.len();
    let b = k.block_of(e);
    let first = k.block_of(offset);
    let all = bytes.push(byte);
    lemma_next(offset, k.block);
    lemma_next(e, k.block);
    lemma_order(offset, e, k.block);
    lemma_block_on_chip(e, k.block, k.sector, k.decrypted.len() as int);
    assert(w.settled(b) == w);
    let ready = w.opened(b);
    let staged = ready.patched(e - b, seq![byte]);
    let data = staged.pending.unwrap().data;
    assert(in_buffer(k, staged, offset, all, b)) by {
        assert forall|i: int|
            0 <= i < k.block && (b + i < e + 1 || b == first) implies #[trigger] data[i] == wanted(
            k,
            offset,
            all,
            b + i,
        ) by {
            if b + i != e {
                assert(data[i] == ready.pending.unwrap().data[i]);
                if w.pending is None {
                    // Either nothing was written before, or the block begins here.
                    assert(b == first);
                    assert(untouched(k, w, b + i));
                }
                assert(wanted(k, offset, bytes, b + i) == wanted(k, offset, all, b + i));
            }
        }
    }
    assert(on_chip(k, staged, offset, all, b, b)) by {
        assert forall|a: int| first <= a < b implies #[trigger] staged.decrypted[a] == wanted(
            k,
            offset,
            all,
            a,
        ) by {
            assert(w.decrypted[a] == wanted(k, offset, bytes, a));
        }
        assert(staged.sound()) by {
            assert forall|a: int| staged.in_current(a) == w.in_current(a) by {}
        }
        assert forall|a: int| #[trigger] untouched(k, staged, a) == untouched(k, w, a) by {}
    }
    if e % k.block + 1 == k.block {
        lemma_commit_streamed(k, staged, offset, all, b, end);
        lemma_order(offset, e + 1, k.block);
    }
}

/// What a storage gives back: bytes that are written to a ready storage and
/// flushed are what a decrypted read returns.
///
/// The first block keeps its other bytes. So do, in the sector in which the
/// write begins, the mapped blocks that have been written since that sector
/// was erased. Sectors without a written byte keep all of their bytes, raw and
/// decrypted.
pub proof fn law_read_back(k: OtaModel, offset: int, bytes: Seq<u8>)
    requires
        k.sound(),
        k.ready_for(offset, offset + bytes.len()),
        0 <= offset,
        offset + bytes.len() <= k.decrypted.len(),
        bytes.len() > 0,
    ensures
        ({
            let w = k.write(offset, bytes).commit();
            let first = k.block_of(offset);
            let last = offset + bytes.len() - 1;
            &&& w.sound()
            &&& w.decrypted.len() == k.decrypted.len()
            &&& w.pending is None
            &&& forall|a: int|
                offset <= a < offset + bytes.len() ==> #[trigger] w.decrypted[a] == Some(
                    bytes[a - offset],
                )
            &&& forall|a: int|
                first <= a < offset ==> #[trigger] w.decrypted[a] == k.block_content(
                    first,
                )[a - first]
            &&& k.block_of(last) == first ==> forall|a: int|
                offset + bytes.len() <= a < first + k.block ==> #[trigger] w.decrypted[a]
                    == k.block_content(first)[a - first]
            &&& forall|a: int|
                standing(k, offset, a) && !(first <= a < k.block_of(last) + k.block)
                    ==> #[trigger] w.decrypted[a] == k.decrypted[a]
            &&& forall|a: int|
                0 <= a < (offset / k.sector) * k.sector || (last / k.sector + 1) * k.sector <= a
                    < k.decrypted.len() ==> #[trigger] w.decrypted[a] == k.decrypted[a]
            &&& forall|a: int|
                0 <= a < (offset / k.sector) * k.sector || (last / k.sector + 1) * k.sector <= a
                    < k.decrypted.len() ==> #[trigger] w.raw[a] == k.raw[a]
        }),
{
    let e = offset + bytes.len();
    let last = e - 1;
    let w = k.write(offset, bytes);
    let b = k.block_of(e);
    lemma_streamed(k, offset, bytes, e);
    lemma_next(offset, k.block);
    lemma_next(last, k.block);
    lemma_next(e, k.block);
    lemma_order(offset, last, k.block);
    lemma_order(offset, e, k.block);
    lemma_first_sector(last, k.block, k.sector, k.decrypted.len() as int);
    let c = w.commit();
    let first = k.block_of(offset);
    if e % k.block != 0 {
        lemma_block_on_chip(last, k.block, k.sector, k.decrypted.len() as int);
        lemma_commit_streamed(k, w, offset, bytes, b, e);
        assert(on_chip(k, c, offset, bytes, k.block_of(last) + k.block, e));
    } else {
        assert(c == w);
        assert(b - k.block == k.block_of(last));
        assert(on_chip(k, c, offset, bytes, k.block_of(last) + k.block, e));
    }
    assert forall|a: int|
        0 <= a < (offset / k.sector) * k.sector || (last / k.sector + 1) * k.sector <= a
            < k.decrypted.len() implies #[trigger] c.decrypted[a] == k.decrypted[a] by {
        assert(untouched(k, c, a));
    }
    assert forall|a: int|
        0 <= a < (offset / k.sector) * k.sector || (last / k.sector + 1) * k.sector <= a
            < k.decrypted.len() implies #[trigger] c.raw[a] == k.raw[a] by {
        assert(untouched(k, c, a));
    }
    assert forall|a: int| first <= a < e || k.block_of(last) == first && first <= a < first
        + k.block implies #[trigger] c.decrypted[a] == wanted(k, offset, bytes, a) by {}
}

/// Full blocks do not wait for a flush: what was written of them to a ready
/// storage is what a decrypted read returns.
pub proof fn law_full_blocks(k: OtaModel, offset: int, bytes: Seq<u8>)
    requires
        k.sound(),
        k.ready_for(offset, offset + bytes.len()),
        0 <= offset,
        offset + bytes.len() <= k.decrypted.len(),
    ensures
        ({
            let w = k.write(offset, bytes);
            forall|a: int|
                offset <= a < k.block_of(offset + bytes.len()) ==> #[trigger] w.decrypted[a]
                    == Some(bytes[a - offset])
        }),
{
    lemma_streamed(k, offset, bytes, offset + bytes.len());
    lemma_next(offset, k.block);
    lemma_next(offset + bytes.len(), k.block);
}

/// What a flush does: the staged block is on the chip, and nothing is staged.
/// Other sectors keep their bytes. So do the mapped blocks that were written
/// to the sector before.
pub proof fn law_flush(k: OtaModel)
    requires
        k.sound(),
        k.pending is Some,
    ensures
        ({
            let c = k.commit();
            let Staged { addr, data } = k.pending.unwrap();
            let start = (addr / k.sector) * k.sector;
            &&& c.sound()
            &&& c.pending is None
            &&& c.current == Some(addr / k.sector)
            &&& c.decrypted.subrange(addr, addr + k.block) == data
            &&& forall|a: int|
                0 <= a < k.decrypted.len() && !(start <= a < start + k.sector)
                    ==> #[trigger] c.decrypted[a] == k.decrypted[a]
            &&& forall|a: int|
                0 <= a < k.decrypted.len() && !(start <= a < start + k.sector)
                    ==> #[trigger] c.raw[a] == k.raw[a]
            &&& forall|a: int|
                standing(k, addr, a) && !(addr <= a < addr + k.block)
                    ==> #[trigger] c.decrypted[a] == k.decrypted[a]
        }),
{
    let c = k.commit();
    let Staged { addr, data } = k.pending.unwrap();
    let unstaged = OtaModel { pending: None, ..k };
    lemma_prepared(unstaged, addr);
    lemma_commit_sound(k);
    lemma_block_in_sector(addr, k.block, k.sector, k.decrypted.len() as int);
    assert(c.decrypted.subrange(addr, addr + k.block) =~= data);
    assert forall|a: int|
        standing(k, addr, a) && !(addr <= a < addr + k.block) implies #[trigger] c.decrypted[a]
        == k.decrypted[a] by {
        lemma_sector_on_chip(k, a);
        lemma_block_around(a, addr, k.block);
    }
}

} // verus!
