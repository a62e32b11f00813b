//! The isolated memory space: byte memory, per-byte permission flags, a
//! dirty-block tracker backed by a bitmap, and a bump allocator.

use vstd::prelude::*;

verus! {

/// The byte may be read.
pub const PERM_READ: u8 = 1;
/// The byte may be written.
pub const PERM_WRITE: u8 = 2;
/// The byte may be fetched as instruction memory.
pub const PERM_EXEC: u8 = 4;
/// Read-after-write: the byte is uninitialized; it gains `PERM_READ`
/// the first time it is written.
pub const PERM_RAW: u8 = 8;

/// Granularity of dirty tracking: a write marks every block it touches, and
/// `reset` restores exactly the marked blocks.
pub const DIRTY_BLOCK_SIZE: usize = 4096;

/// Base of the bump allocator in a fresh space, reserving a guard region so
/// that no allocation ever lands on the null page.
pub const ALLOC_BASE: usize = 0x10000;

/// Allocations are rounded up to this alignment.
pub const ALLOC_ALIGN: usize = 16;

/// A set of permission flags attached to one byte of memory.
#[derive(Clone, Copy, Debug, PartialEq, Eq, PartialOrd, Ord, Structural)]
pub struct Perm(pub u8);

/// An offset into the emulated space; purely a coordinate, never ownership.
#[derive(Clone, Copy, Debug, PartialEq, Eq, PartialOrd, Ord, Structural)]
pub struct VirtAddr(pub usize);

/// Every recoverable failure of a memory operation.
#[derive(Clone, Copy, Debug, PartialEq, Eq, Structural)]
pub enum MemError {
    /// The address, or address plus length (including arithmetic overflow),
    /// falls outside the space.
    OutOfBounds,
    /// At least one targeted byte lacks a required permission flag.
    PermissionDenied,
    /// The bump allocator would exceed the size of the space.
    OutOfMemory,
}

/// Does `p` carry every flag of `mask`?
pub open spec fn perm_allows(p: Perm, mask: u8) -> bool {
    p.0 & mask == mask
}

/// The mathematical state of a memory space: the contracts of every `Mmu`
/// operation are stated as transitions on this model.
#[verifier::ext_equal]
pub ghost struct SpaceModel {
    /// One byte per address.
    pub mem: Seq<u8>,
    /// One permission-flag set per byte of `mem`.
    pub perms: Seq<Perm>,
    /// Indices of the blocks written since the last reset (or creation).
    pub dirty: Set<int>,
    /// The bump allocator's next candidate address.
    pub cursor: int,
}

/// Does block `b` contain at least one byte of `[addr, addr + len)`?
pub open spec fn touches_block(addr: int, len: int, b: int) -> bool {
    len > 0 && addr / (DIRTY_BLOCK_SIZE as int) <= b <= (addr + len - 1) / (DIRTY_BLOCK_SIZE as int)
}

/// `size` rounded up to the allocation alignment.
pub open spec fn round_up_align(size: int) -> int {
    if size % (ALLOC_ALIGN as int) == 0 {
        size
    } else {
        size + (ALLOC_ALIGN - size % (ALLOC_ALIGN as int))
    }
}

impl SpaceModel {
    /// Number of bytes in the space.
    pub open spec fn size(self) -> int {
        self.mem.len() as int
    }

    /// `[addr, addr + len)` lies inside the space.
    pub open spec fn in_bounds(self, addr: int, len: int) -> bool {
        0 <= addr && 0 <= len && addr + len <= self.size()
    }

    /// Every byte of `[addr, addr + len)` carries all flags of `mask`.
    pub open spec fn allows(self, addr: int, len: int, mask: u8) -> bool {
        forall|i: int| addr <= i < addr + len ==> perm_allows(#[trigger] self.perms[i], mask)
    }

    /// A write of `data` at `addr` may proceed.
    pub open spec fn can_write(self, addr: int, len: int) -> bool {
        self.in_bounds(addr, len) && self.allows(addr, len, PERM_WRITE)
    }

    /// The state after a successful write of `data` at `addr`: bytes
    /// replaced, read-after-write bytes upgraded to readable, every touched
    /// block marked dirty.
    pub open spec fn after_write(self, addr: int, data: Seq<u8>) -> SpaceModel {
        SpaceModel {
            mem: Seq::new(
                self.mem.len(),
                |i: int|
                    if addr <= i < addr + data.len() {
                        data[i - addr]
                    } else {
                        self.mem[i]
                    },
            ),
            perms: Seq::new(
                self.perms.len(),
                |i: int|
                    if addr <= i < addr + data.len() && perm_allows(self.perms[i], PERM_RAW) {
                        Perm(self.perms[i].0 | PERM_READ)
                    } else {
                        self.perms[i]
                    },
            ),
            dirty: self.dirty.union(Set::new(|b: int| touches_block(addr, data.len() as int, b))),
            cursor: self.cursor,
        }
    }

    /// The state after overwriting the permissions of `[addr, addr + len)`
    /// with `p`.
    pub open spec fn after_set_perms(self, addr: int, len: int, p: Perm) -> SpaceModel {
        SpaceModel {
            mem: self.mem,
            perms: Seq::new(
                self.perms.len(),
                |i: int| if addr <= i < addr + len { p } else { self.perms[i] },
            ),
            dirty: self.dirty,
            cursor: self.cursor,
        }
    }

    /// The state after restoring every dirty block from `base` and clearing
    /// the dirty tracker. Blocks outside the dirty set are untouched.
    pub open spec fn after_reset(self, base: SpaceModel) -> SpaceModel {
        SpaceModel {
            mem: Seq::new(
                self.mem.len(),
                |i: int|
                    if self.dirty.contains(i / (DIRTY_BLOCK_SIZE as int)) {
                        base.mem[i]
                    } else {
                        self.mem[i]
                    },
            ),
            perms: Seq::new(
                self.perms.len(),
                |i: int|
                    if self.dirty.contains(i / (DIRTY_BLOCK_SIZE as int)) {
                        base.perms[i]
                    } else {
                        self.perms[i]
                    },
            ),
            dirty: Set::empty(),
            cursor: self.cursor,
        }
    }
}

/// Isolated memory space: byte memory, one permission-flag set per byte, a
/// dirty-block tracker (list plus bitmap, kept in agreement), and the bump
/// allocator's cursor.
pub struct Mmu {
    memory: Vec<u8>,
    permissions: Vec<Perm>,
    /// Indices of blocks written since the last reset, each listed once.
    dirty: Vec<usize>,
    /// One bit per block, set exactly for the blocks listed in `dirty`.
    dirty_bitmap: Vec<u64>,
    cur_alc: VirtAddr,
}

/// Is bit `b` of `word` set?
pub open spec fn bitmap_bit(word: u64, b: int) -> bool {
    word & (1u64 << (b as u64)) != 0
}

/// Is block `b`'s bit set in the dirty bitmap `bm`?
pub open spec fn marked(bm: Seq<u64>, b: int) -> bool {
    bitmap_bit(bm[b / 64], b % 64)
}

impl Mmu {
    /// Blocks `0 .. num_blocks()` are the ones a write can ever touch.
    pub open spec fn spec_num_blocks(size: int) -> int {
        if size == 0 {
            0
        } else {
            (size - 1) / (DIRTY_BLOCK_SIZE as int) + 1
        }
    }

    /// The representation invariant: lengths agree, the dirty list holds
    /// valid block indices without duplicates, and the bitmap marks exactly
    /// the listed blocks.
    pub closed spec fn wf(&self) -> bool {
        &&& self.memory@.len() <= usize::MAX
        &&& self.permissions@.len() == self.memory@.len()
        &&& self.dirty_bitmap@.len() == (self.memory@.len() as int) / (DIRTY_BLOCK_SIZE as int) / 64
            + 1
        &&& forall|k: int|
            0 <= k < self.dirty@.len() ==> (#[trigger] self.dirty@[k]) < Self::spec_num_blocks(
                self.memory@.len() as int,
            )
        &&& forall|k1: int, k2: int|
            0 <= k1 < k2 < self.dirty@.len() ==> self.dirty@[k1] != self.dirty@[k2]
        &&& forall|b: int|
            0 <= b < Self::spec_num_blocks(self.memory@.len() as int) ==> (#[trigger] marked(
                self.dirty_bitmap@,
                b,
            ) <==> self.dirty@.contains(b as usize))
    }

    /// The abstraction this space denotes.
    pub closed spec fn view(&self) -> SpaceModel {
        SpaceModel {
            mem: self.memory@,
            perms: self.permissions@,
            dirty: Set::new(
                |b: int| 0 <= b <= usize::MAX && self.dirty@.contains(b as usize),
            ),
            cursor: self.cur_alc.0 as int,
        }
    }

    /// A fresh space: all bytes zero, no permissions, nothing dirty, the
    /// allocator cursor at its fixed base.
    pub fn new(size: usize) -> (r: Mmu)
        ensures
            r.wf(),
            r@.mem == Seq::new(size as nat, |i: int| 0u8),
            r@.perms == Seq::new(size as nat, |i: int| Perm(0)),
            r@.dirty == Set::<int>::empty(),
            r@.cursor == ALLOC_BASE as int,
    {
        let memory = zero_bytes(size);
        let permissions = empty_perms(size);
        let dirty_bitmap = zero_words(size / DIRTY_BLOCK_SIZE / 64 + 1);
        let r = Mmu { memory, permissions, dirty: Vec::new(), dirty_bitmap, cur_alc: VirtAddr(ALLOC_BASE) };
        proof {
            assert forall|b: int|
                0 <= b < Self::spec_num_blocks(size as int) implies (#[trigger] marked(
                r.dirty_bitmap@,
                b,
            ) <==> r.dirty@.contains(b as usize)) by {
                lemma_block_word_in_range(size as int, b);
                lemma_zero_word_has_no_bits(r.dirty_bitmap@[b / 64], b % 64);
            }
            assert(r@.dirty =~= Set::<int>::empty());
            assert(r@.mem =~= Seq::new(size as nat, |i: int| 0u8));
            assert(r@.perms =~= Seq::new(size as nat, |i: int| Perm(0)));
        }
        r
    }
    /// An independent full copy of this space: same bytes, same permissions,
    /// same allocator cursor, dirty tracker empty. The original is left
    /// untouched and remains usable as a baseline for further forks.
    pub fn fork(&self) -> (r: Mmu)
        requires
            self.wf(),
        ensures
            r.wf(),
            r@.mem == self@.mem,
            r@.perms == self@.perms,
            r@.dirty == Set::<int>::empty(),
            r@.cursor == self@.cursor,
    {
        let size = self.memory.len();
        let r = Mmu {
            memory: clone_copy_vec(&self.memory),
            permissions: clone_copy_vec(&self.permissions),
            dirty: Vec::new(),
            dirty_bitmap: zero_words(size / DIRTY_BLOCK_SIZE / 64 + 1),
            cur_alc: self.cur_alc,
        };
        proof {
            assert forall|b: int|
                0 <= b < Self::spec_num_blocks(size as int) implies (#[trigger] marked(
                r.dirty_bitmap@,
                b,
            ) <==> r.dirty@.contains(b as usize)) by {
                lemma_block_word_in_range(size as int, b);
                lemma_zero_word_has_no_bits(r.dirty_bitmap@[b / 64], b % 64);
            }
            assert(r@.dirty =~= Set::<int>::empty());
        }
        r
    }

    /// Overwrites the permission flags of `[addr, addr + size)` with `perm`.
    /// Fails with `OutOfBounds`, leaving the space unchanged, when the range
    /// (or the address arithmetic) exceeds the space.
    pub fn set_permissions(&mut self, addr: VirtAddr, size: usize, perm: Perm) -> (r: Result<
        (),
        MemError,
    >)
        requires
            old(self).wf(),
        ensures
            final(self).wf(),
            match r {
                Ok(()) => old(self)@.in_bounds(addr.0 as int, size as int)
                    && final(self)@ == old(self)@.after_set_perms(addr.0 as int, size as int, perm),
                Err(e) => e == MemError::OutOfBounds && !old(self)@.in_bounds(
                    addr.0 as int,
                    size as int,
                ) && final(self)@ == old(self)@,
            },
    {
        let end = match addr.0.checked_add(size) {
            Some(e) => e,
            None => {
                return Err(MemError::OutOfBounds);
            },
        };
        if end > self.memory.len() {
            return Err(MemError::OutOfBounds);
        }
        fill_perm_range(&mut self.permissions, addr.0, end, perm);
        proof {
            assert(self@ =~= old(self)@.after_set_perms(addr.0 as int, size as int, perm));
        }
        Ok(())
    }

    /// Copies `buf` into memory at `addr`. Every targeted byte must carry
    /// `PERM_WRITE`; targeted bytes carrying `PERM_RAW` become readable. Every
    /// block touched by the write is marked dirty. On failure — out of bounds
    /// (including address overflow) or a byte without `PERM_WRITE` — the space
    /// is left byte-for-byte unchanged, permissions included.
    pub fn write_from(&mut self, addr: VirtAddr, buf: &[u8]) -> (r: Result<(), MemError>)
        requires
            old(self).wf(),
        ensures
            final(self).wf(),
            match r {
                Ok(()) => old(self)@.can_write(addr.0 as int, buf@.len() as int) && final(self)@
                    == old(self)@.after_write(addr.0 as int, buf@),
                Err(MemError::OutOfBounds) => !old(self)@.in_bounds(addr.0 as int, buf@.len() as int)
                    && final(self)@ == old(self)@,
                Err(MemError::PermissionDenied) => old(self)@.in_bounds(
                    addr.0 as int,
                    buf@.len() as int,
                ) && !old(self)@.allows(addr.0 as int, buf@.len() as int, PERM_WRITE)
                    && final(self)@ == old(self)@,
                Err(MemError::OutOfMemory) => false,
            },
    {
        let len = buf.len();
        let end = match addr.0.checked_add(len) {
            Some(e) => e,
            None => {
                return Err(MemError::OutOfBounds);
            },
        };
        if end > self.memory.len() {
            return Err(MemError::OutOfBounds);
        }
        if len == 0 {
            proof {
                assert(self@ =~= old(self)@.after_write(addr.0 as int, buf@));
            }
            return Ok(());
        }
        // Every targeted byte must be writable before anything is mutated.
        let mut i: usize = 0;
        while i < len
            invariant
                *self == *old(self),
                self.wf(),
                i <= len == buf@.len(),
                addr.0 + len <= self@.size(),
                addr.0 + len <= usize::MAX,
                forall|j: int|
                    addr.0 <= j < addr.0 + i ==> perm_allows(#[trigger] self@.perms[j], PERM_WRITE),
            decreases len - i,
        {
            let p = self.permissions[addr.0 + i];
            if p.0 & PERM_WRITE != PERM_WRITE {
                proof {
                    assert(!perm_allows(self@.perms[addr.0 + i], PERM_WRITE));
                }
                return Err(MemError::PermissionDenied);
            }
            i = i + 1;
        }
        // Copy the bytes.
        let mut j: usize = 0;
        while j < len
            invariant
                j <= len == buf@.len(),
                addr.0 + len <= self.memory@.len(),
                addr.0 + len <= usize::MAX,
                self.memory@.len() == old(self).memory@.len(),
                self.permissions == old(self).permissions,
                self.dirty == old(self).dirty,
                self.dirty_bitmap == old(self).dirty_bitmap,
                self.cur_alc == old(self).cur_alc,
                forall|k: int| 0 <= k < j ==> self.memory@[addr.0 + k] == buf@[k],
                forall|x: int|
                    0 <= x < self.memory@.len() && !(addr.0 <= x < addr.0 + j)
                        ==> self.memory@[x] == old(self).memory@[x],
            decreases len - j,
        {
            let b = buf[j];
            self.memory[addr.0 + j] = b;
            j = j + 1;
        }
        // Mark every touched block dirty, in both the list and the bitmap.
        let start_block = addr.0 / DIRTY_BLOCK_SIZE;
        let last_block = (end - 1) / DIRTY_BLOCK_SIZE;
        proof {
            vstd::arithmetic::div_mod::lemma_div_is_ordered(
                end - 1,
                self.memory@.len() as int - 1,
                DIRTY_BLOCK_SIZE as int,
            );
            assert(last_block < Self::spec_num_blocks(self.memory@.len() as int));
        }
        let ghost mem1 = self.memory@;
        let mut block: usize = start_block;
        while block <= last_block
            invariant
                start_block <= block <= last_block + 1,
                (last_block as int) < Self::spec_num_blocks(self.memory@.len() as int),
                self.memory@ == mem1,
                self.memory@.len() == old(self).memory@.len(),
                self.memory@.len() <= usize::MAX,
                self.permissions == old(self).permissions,
                self.cur_alc == old(self).cur_alc,
                self.dirty_bitmap@.len() == (self.memory@.len() as int) / (DIRTY_BLOCK_SIZE as int)
                    / 64 + 1,
                forall|k: int|
                    0 <= k < self.dirty@.len() ==> (#[trigger] self.dirty@[k])
                        < Self::spec_num_blocks(self.memory@.len() as int),
                forall|k1: int, k2: int|
                    0 <= k1 < k2 < self.dirty@.len() ==> self.dirty@[k1] != self.dirty@[k2],
                forall|b: int|
                    0 <= b < Self::spec_num_blocks(self.memory@.len() as int) ==> (#[trigger] marked(
                        self.dirty_bitmap@,
                        b,
                    ) <==> self.dirty@.contains(b as usize)),
                forall|bu: usize|
                    #[trigger] self.dirty@.contains(bu) <==> old(self).dirty@.contains(bu) || (
                    start_block <= bu < block),
            decreases last_block + 1 - block,
        {
            let idx = block / 64;
            let bit = (block % 64) as u64;
            proof {
                lemma_block_word_in_range(self.memory@.len() as int, block as int);
            }
            let word = self.dirty_bitmap[idx];
            if word & (1u64 << bit) == 0 {
                proof {
                    assert(!marked(self.dirty_bitmap@, block as int));
                    assert(!self.dirty@.contains(block));
                }
                let ghost pre_dirty = self.dirty@;
                let ghost pre_bm = self.dirty_bitmap@;
                self.dirty.push(block);
                self.dirty_bitmap[idx] = word | (1u64 << bit);
                proof {
                    lemma_or_bit_same(word, bit);
                    assert(marked(self.dirty_bitmap@, block as int));
                    assert forall|b: int|
                        0 <= b < Self::spec_num_blocks(self.memory@.len() as int) && b
                            != block implies (#[trigger] marked(self.dirty_bitmap@, b) <==> marked(
                        pre_bm,
                        b,
                    )) by {
                        if b / 64 == idx {
                            vstd::arithmetic::div_mod::lemma_fundamental_div_mod(b, 64);
                            vstd::arithmetic::div_mod::lemma_fundamental_div_mod(block as int, 64);
                            assert(b % 64 != bit);
                            lemma_or_bit_diff(word, bit, (b % 64) as u64);
                        }
                    }
                    assert forall|bu: usize| #[trigger]
                        self.dirty@.contains(bu) <==> (pre_dirty.contains(bu) || bu == block) by {
                        assert(self.dirty@ == pre_dirty.push(block));
                        if pre_dirty.contains(bu) || bu == block {
                            if bu == block {
                                assert(self.dirty@[pre_dirty.len() as int] == block);
                            } else {
                                let w = choose|w: int| 0 <= w < pre_dirty.len() && pre_dirty[w] == bu;
                                assert(self.dirty@[w] == bu);
                            }
                        }
                    }
                }
            } else {
                proof {
                    assert(marked(self.dirty_bitmap@, block as int));
                    assert(self.dirty@.contains(block));
                }
            }
            block = block + 1;
        }
        // Upgrade read-after-write bytes: a byte written for the first time
        // becomes readable.
        let ghost dirty1 = self.dirty@;
        let ghost bm1 = self.dirty_bitmap@;
        let mut k: usize = 0;
        while k < len
            invariant
                k <= len,
                addr.0 + len <= self.memory@.len(),
                addr.0 + len <= usize::MAX,
                self.memory@ == mem1,
                self.memory@.len() == old(self).memory@.len(),
                self.dirty@ == dirty1,
                self.dirty_bitmap@ == bm1,
                self.cur_alc == old(self).cur_alc,
                self.permissions@.len() == old(self).permissions@.len(),
                self.permissions@.len() == self.memory@.len(),
                forall|x: int|
                    addr.0 <= x < addr.0 + k ==> #[trigger] self.permissions@[x] == (if perm_allows(
                        old(self).permissions@[x],
                        PERM_RAW,
                    ) {
                        Perm(old(self).permissions@[x].0 | PERM_READ)
                    } else {
                        old(self).permissions@[x]
                    }),
                forall|x: int|
                    0 <= x < self.permissions@.len() && !(addr.0 <= x < addr.0 + k)
                        ==> #[trigger] self.permissions@[x] == old(self).permissions@[x],
            decreases len - k,
        {
            let p = self.permissions[addr.0 + k];
            if p.0 & PERM_RAW == PERM_RAW {
                self.permissions[addr.0 + k] = Perm(p.0 | PERM_READ);
            }
            k = k + 1;
        }
        proof {
            assert forall|b: int|
                0 <= b < Self::spec_num_blocks(self.memory@.len() as int) implies (#[trigger] marked(
                self.dirty_bitmap@,
                b,
            ) <==> self.dirty@.contains(b as usize)) by {}
            assert(self@.mem =~= old(self)@.after_write(addr.0 as int, buf@).mem);
            assert(self@.perms =~= old(self)@.after_write(addr.0 as int, buf@).perms);
            assert forall|b: int| #[trigger]
                self@.dirty.contains(b) == old(self)@.after_write(
                    addr.0 as int,
                    buf@,
                ).dirty.contains(b) by {
                if 0 <= b <= usize::MAX {
                    assert(self.dirty@.contains(b as usize) <==> old(self).dirty@.contains(
                        b as usize,
                    ) || (start_block <= b as usize && b as usize <= last_block));
                    assert(touches_block(addr.0 as int, buf@.len() as int, b) <==> (start_block
                        <= b <= last_block));
                }
            }
            assert(self@.dirty =~= old(self)@.after_write(addr.0 as int, buf@).dirty);
            assert(self@ =~= old(self)@.after_write(addr.0 as int, buf@));
        }
        Ok(())
    }

    /// Reads `buf.len()` bytes at `addr` into `buf`, demanding every flag of
    /// `exp_perms` on every targeted byte (an empty `exp_perms` therefore
    /// ignores permissions). On failure `buf` is left unchanged.
    pub fn read_into_perms(&self, addr: VirtAddr, buf: &mut Vec<u8>, exp_perms: Perm) -> (r: Result<
        (),
        MemError,
    >)
        requires
            self.wf(),
        ensures
            final(buf)@.len() == old(buf)@.len(),
            match r {
                Ok(()) => self@.in_bounds(addr.0 as int, old(buf)@.len() as int) && self@.allows(
                    addr.0 as int,
                    old(buf)@.len() as int,
                    exp_perms.0,
                ) && final(buf)@ == self@.mem.subrange(
                    addr.0 as int,
                    addr.0 as int + old(buf)@.len(),
                ),
                Err(MemError::OutOfBounds) => !self@.in_bounds(addr.0 as int, old(buf)@.len() as int)
                    && final(buf)@ == old(buf)@,
                Err(MemError::PermissionDenied) => self@.in_bounds(
                    addr.0 as int,
                    old(buf)@.len() as int,
                ) && !self@.allows(addr.0 as int, old(buf)@.len() as int, exp_perms.0)
                    && final(buf)@ == old(buf)@,
                Err(MemError::OutOfMemory) => false,
            },
    {
        let len = buf.len();
        let end = match addr.0.checked_add(len) {
            Some(e) => e,
            None => {
                return Err(MemError::OutOfBounds);
            },
        };
        if end > self.memory.len() {
            return Err(MemError::OutOfBounds);
        }
        let mut i: usize = 0;
        while i < len
            invariant
                self.wf(),
                len == buf@.len(),
                i <= len,
                addr.0 + len <= self@.size(),
                addr.0 + len <= usize::MAX,
                forall|j: int|
                    addr.0 <= j < addr.0 + i ==> perm_allows(#[trigger] self@.perms[j], exp_perms.0),
            decreases len - i,
        {
            let p = self.permissions[addr.0 + i];
            if p.0 & exp_perms.0 != exp_perms.0 {
                proof {
                    assert(!perm_allows(self@.perms[addr.0 + i], exp_perms.0));
                }
                return Err(MemError::PermissionDenied);
            }
            i = i + 1;
        }
        let mut j: usize = 0;
        while j < len
            invariant
                self.wf(),
                len == buf@.len(),
                j <= len,
                addr.0 + len <= self@.size(),
                addr.0 + len <= usize::MAX,
                forall|k: int| 0 <= k < j ==> buf@[k] == self@.mem[addr.0 + k],
            decreases len - j,
        {
            let b = self.memory[addr.0 + j];
            buf[j] = b;
            j = j + 1;
        }
        proof {
            assert(buf@ =~= self@.mem.subrange(addr.0 as int, addr.0 as int + len));
        }
        Ok(())
    }

    /// Reads `buf.len()` bytes at `addr` into `buf`, demanding `PERM_READ`
    /// on every targeted byte. On failure `buf` is left unchanged.
    pub fn read_into(&self, addr: VirtAddr, buf: &mut Vec<u8>) -> (r: Result<(), MemError>)
        requires
            self.wf(),
        ensures
            final(buf)@.len() == old(buf)@.len(),
            match r {
                Ok(()) => self@.in_bounds(addr.0 as int, old(buf)@.len() as int) && self@.allows(
                    addr.0 as int,
                    old(buf)@.len() as int,
                    PERM_READ,
                ) && final(buf)@ == self@.mem.subrange(
                    addr.0 as int,
                    addr.0 as int + old(buf)@.len(),
                ),
                Err(MemError::OutOfBounds) => !self@.in_bounds(addr.0 as int, old(buf)@.len() as int)
                    && final(buf)@ == old(buf)@,
                Err(MemError::PermissionDenied) => self@.in_bounds(
                    addr.0 as int,
                    old(buf)@.len() as int,
                ) && !self@.allows(addr.0 as int, old(buf)@.len() as int, PERM_READ) && final(buf)@
                    == old(buf)@,
                Err(MemError::OutOfMemory) => false,
            },
    {
        self.read_into_perms(addr, buf, Perm(PERM_READ))
    }

    /// Restores every dirty block of this space — memory bytes and
    /// permissions — from the corresponding block of `base`, then clears the
    /// dirty tracker. Blocks that were never written since the last reset are
    /// untouched, so the cost is proportional to what was dirtied, not to the
    /// size of the space. The two spaces must have the same size; a mismatch
    /// is a structural misuse of the API, not a recoverable condition, so it
    /// is excluded by precondition rather than reported.
    pub fn reset(&mut self, base: &Mmu)
        requires
            old(self).wf(),
            base.wf(),
            old(self)@.size() == base@.size(),
        ensures
            final(self).wf(),
            final(self)@ == old(self)@.after_reset(base@),
    {
        let ghost d = old(self).dirty@;
        let n = self.dirty.len();
        let mut k: usize = 0;
        while k < n
            invariant
                k <= n,
                self.dirty@ == d,
                n == d.len(),
                self.memory@.len() == old(self).memory@.len(),
                self.memory@.len() == base.memory@.len(),
                self.memory@.len() <= usize::MAX,
                self.permissions@.len() == self.memory@.len(),
                base.permissions@.len() == base.memory@.len(),
                self.cur_alc == old(self).cur_alc,
                self.dirty_bitmap@.len() == (self.memory@.len() as int) / (DIRTY_BLOCK_SIZE as int)
                    / 64 + 1,
                forall|j: int|
                    0 <= j < d.len() ==> (#[trigger] d[j]) < Self::spec_num_blocks(
                        self.memory@.len() as int,
                    ),
                forall|j1: int, j2: int| 0 <= j1 < j2 < d.len() ==> d[j1] != d[j2],
                forall|b: int|
                    0 <= b < Self::spec_num_blocks(self.memory@.len() as int) && #[trigger] marked(
                        self.dirty_bitmap@,
                        b,
                    ) ==> d.contains(b as usize),
                forall|j: int|
                    0 <= j < k ==> self.dirty_bitmap@[(#[trigger] d[j]) as int / 64] == 0,
                forall|x: int|
                    0 <= x < self.memory@.len() ==> #[trigger] self.memory@[x] == (if listed_before(
                        d,
                        k as int,
                        x / (DIRTY_BLOCK_SIZE as int),
                    ) {
                        base.memory@[x]
                    } else {
                        old(self).memory@[x]
                    }),
                forall|x: int|
                    0 <= x < self.permissions@.len() ==> #[trigger] self.permissions@[x] == (
                    if listed_before(d, k as int, x / (DIRTY_BLOCK_SIZE as int)) {
                        base.permissions@[x]
                    } else {
                        old(self).permissions@[x]
                    }),
            decreases n - k,
        {
            let block = self.dirty[k];
            let idx = block / 64;
            proof {
                lemma_block_word_in_range(self.memory@.len() as int, block as int);
            }
            let ghost bm_pre = self.dirty_bitmap@;
            self.dirty_bitmap[idx] = 0;
            // Copy this block's bytes and permissions from the baseline.
            let bstart = block_start(block, self.memory.len());
            let bend = block_end(block, self.memory.len());
            let ghost mem_pre = self.memory@;
            let ghost perms_pre = self.permissions@;
            let mut x: usize = bstart;
            while x < bend
                invariant
                    bstart <= x <= bend,
                    bend <= self.memory@.len(),
                    self.memory@.len() == base.memory@.len(),
                    self.memory@.len() == mem_pre.len(),
                    self.permissions@.len() == self.memory@.len(),
                    base.permissions@.len() == base.memory@.len(),
                    self.dirty@ == d,
                    self.dirty_bitmap@ == bm_pre.update(idx as int, 0u64),
                    self.cur_alc == old(self).cur_alc,
                    forall|y: int|
                        0 <= y < self.memory@.len() && !(bstart <= y < x)
                            ==> #[trigger] self.memory@[y] == mem_pre[y],
                    forall|y: int| bstart <= y < x ==> #[trigger] self.memory@[y] == base.memory@[y],
                    forall|y: int|
                        0 <= y < self.permissions@.len() && !(bstart <= y < x)
                            ==> #[trigger] self.permissions@[y] == perms_pre[y],
                    forall|y: int|
                        bstart <= y < x ==> #[trigger] self.permissions@[y] == base.permissions@[y],
                decreases bend - x,
            {
                let mb = base.memory[x];
                self.memory[x] = mb;
                let pb = base.permissions[x];
                self.permissions[x] = pb;
                x = x + 1;
            }
            proof {
                let dbs = DIRTY_BLOCK_SIZE as int;
                let len = self.memory@.len() as int;
                assert forall|b: int|
                    0 <= b < Self::spec_num_blocks(len) && #[trigger] marked(
                        self.dirty_bitmap@,
                        b,
                    ) implies d.contains(b as usize) by {
                    assert(self.dirty_bitmap@ == bm_pre.update(idx as int, 0u64));
                    if b / 64 == idx {
                        lemma_zero_word_has_no_bits(self.dirty_bitmap@[b / 64], b % 64);
                    } else {
                        assert(marked(bm_pre, b));
                    }
                }
                assert forall|y: int|
                    0 <= y < len implies #[trigger] self.memory@[y] == (if listed_before(
                    d,
                    k + 1,
                    y / dbs,
                ) {
                    base.memory@[y]
                } else {
                    old(self).memory@[y]
                }) && self.permissions@[y] == (if listed_before(d, k + 1, y / dbs) {
                    base.permissions@[y]
                } else {
                    old(self).permissions@[y]
                }) by {
                    lemma_block_byte_range(block as int, y, len);
                    if bstart <= y < bend {
                        assert(y / dbs == block as int);
                        assert(listed_before(d, k + 1, y / dbs));
                    } else {
                        assert(y / dbs != block as int);
                        if listed_before(d, k + 1, y / dbs) {
                            let j = choose|j: int|
                                0 <= j < k + 1 && (#[trigger] d[j]) as int == y / dbs;
                            assert(j < k);
                            assert(listed_before(d, k as int, y / dbs));
                        }
                        if listed_before(d, k as int, y / dbs) {
                            let j = choose|j: int|
                                0 <= j < k && (#[trigger] d[j]) as int == y / dbs;
                            assert(listed_before(d, k + 1, y / dbs));
                        }
                    }
                }
            }
            k = k + 1;
        }
        self.dirty.clear();
        proof {
            let len = self.memory@.len() as int;
            assert forall|b: int|
                0 <= b < Self::spec_num_blocks(len) implies !(#[trigger] marked(
                self.dirty_bitmap@,
                b,
            )) by {
                if marked(self.dirty_bitmap@, b) {
                    assert(d.contains(b as usize));
                    let j = choose|j: int| 0 <= j < d.len() && #[trigger] d[j] == b as usize;
                    assert(self.dirty_bitmap@[d[j] as int / 64] == 0);
                    lemma_zero_word_has_no_bits(self.dirty_bitmap@[b / 64], b % 64);
                }
            }
            let dbs = DIRTY_BLOCK_SIZE as int;
            assert forall|x: int| 0 <= x < len implies (#[trigger] old(self)@.dirty.contains(
                x / dbs,
            ) == listed_before(d, d.len() as int, x / dbs)) by {
                if old(self)@.dirty.contains(x / dbs) {
                    let j = choose|j: int| 0 <= j < d.len() && #[trigger] d[j] == (x / dbs) as usize;
                    assert(listed_before(d, d.len() as int, x / dbs));
                }
                if listed_before(d, d.len() as int, x / dbs) {
                    let j = choose|j: int| 0 <= j < d.len() && (#[trigger] d[j]) as int == x / dbs;
                    assert(d.contains((x / dbs) as usize));
                }
            }
            assert(self@.mem =~= old(self)@.after_reset(base@).mem);
            assert(self@.perms =~= old(self)@.after_reset(base@).perms);
            assert(self@.dirty =~= old(self)@.after_reset(base@).dirty);
            assert(self@ =~= old(self)@.after_reset(base@));
        }
    }

    /// Bump-allocates `size` bytes (rounded up to the allocation alignment),
    /// marks the region writable-but-uninitialized (`PERM_WRITE | PERM_RAW`),
    /// and advances the cursor. Fails with `OutOfMemory`, without any side
    /// effect, when the region would exceed the space.
    pub fn allocate(&mut self, size: usize) -> (r: Result<VirtAddr, MemError>)
        requires
            old(self).wf(),
        ensures
            final(self).wf(),
            match r {
                Ok(a) => {
                    &&& old(self)@.cursor < old(self)@.size()
                    &&& old(self)@.cursor + round_up_align(size as int) <= old(self)@.size()
                    &&& a.0 as int == old(self)@.cursor
                    &&& final(self)@.mem == old(self)@.mem
                    &&& final(self)@.dirty == old(self)@.dirty
                    &&& final(self)@.perms == old(self)@.after_set_perms(
                        a.0 as int,
                        size as int,
                        Perm(PERM_RAW | PERM_WRITE),
                    ).perms
                    &&& final(self)@.cursor == old(self)@.cursor + round_up_align(size as int)
                },
                Err(e) => {
                    &&& e == MemError::OutOfMemory
                    &&& !(old(self)@.cursor < old(self)@.size() && old(self)@.cursor
                        + round_up_align(size as int) <= old(self)@.size())
                    &&& final(self)@ == old(self)@
                },
            },
    {
        let base = self.cur_alc.0;
        if base >= self.memory.len() {
            return Err(MemError::OutOfMemory);
        }
        let rem = size % ALLOC_ALIGN;
        let rounded = if rem == 0 {
            size
        } else {
            match size.checked_add(ALLOC_ALIGN - rem) {
                Some(v) => v,
                None => {
                    return Err(MemError::OutOfMemory);
                },
            }
        };
        let new_cur = match base.checked_add(rounded) {
            Some(v) => v,
            None => {
                return Err(MemError::OutOfMemory);
            },
        };
        if new_cur > self.memory.len() {
            return Err(MemError::OutOfMemory);
        }
        self.cur_alc = VirtAddr(new_cur);
        match self.set_permissions(VirtAddr(base), size, Perm(PERM_RAW | PERM_WRITE)) {
            Ok(()) => {},
            Err(_) => {
                proof {
                    assert(false);
                }
            },
        }
        Ok(VirtAddr(base))
    }

    /// Reads the little-endian 32-bit word at `addr`, demanding every flag of
    /// `exp_perms` on each of its four bytes.
    pub fn read_perms(&self, addr: VirtAddr, exp_perms: Perm) -> (r: Result<u32, MemError>)
        requires
            self.wf(),
        ensures
            match r {
                Ok(v) => self@.in_bounds(addr.0 as int, 4) && self@.allows(
                    addr.0 as int,
                    4,
                    exp_perms.0,
                ) && v as int == le32(self@.mem, addr.0 as int),
                Err(MemError::OutOfBounds) => !self@.in_bounds(addr.0 as int, 4),
                Err(MemError::PermissionDenied) => self@.in_bounds(addr.0 as int, 4)
                    && !self@.allows(addr.0 as int, 4, exp_perms.0),
                Err(MemError::OutOfMemory) => false,
            },
    {
        let mut tmp: Vec<u8> = Vec::new();
        tmp.push(0);
        tmp.push(0);
        tmp.push(0);
        tmp.push(0);
        match self.read_into_perms(addr, &mut tmp, exp_perms) {
            Err(e) => Err(e),
            Ok(()) => {
                let v = tmp[0] as u32 + tmp[1] as u32 * 0x100 + tmp[2] as u32 * 0x10000 + tmp[3]
                    as u32 * 0x1000000;
                Ok(v)
            },
        }
    }

    /// Raises the allocator cursor to at least `end` rounded up to the
    /// allocation alignment, so later allocations start past `end`; a cursor
    /// already beyond that point is kept. Fails with `OutOfBounds` when the
    /// rounded address cannot be represented.
    pub(crate) fn raise_cursor(&mut self, end: usize) -> (r: Result<(), MemError>)
        requires
            old(self).wf(),
        ensures
            final(self).wf(),
            match r {
                Ok(()) => {
                    &&& round_up_align(end as int) <= usize::MAX
                    &&& final(self)@.mem == old(self)@.mem
                    &&& final(self)@.perms == old(self)@.perms
                    &&& final(self)@.dirty == old(self)@.dirty
                    &&& final(self)@.cursor == vstd::math::max(
                        old(self)@.cursor,
                        round_up_align(end as int),
                    )
                },
                Err(e) => {
                    &&& e == MemError::OutOfBounds
                    &&& round_up_align(end as int) > usize::MAX
                    &&& final(self)@ == old(self)@
                },
            },
    {
        let rem = end % ALLOC_ALIGN;
        let aligned = if rem == 0 {
            end
        } else {
            match end.checked_add(ALLOC_ALIGN - rem) {
                Some(v) => v,
                None => {
                    return Err(MemError::OutOfBounds);
                },
            }
        };
        if aligned > self.cur_alc.0 {
            self.cur_alc = VirtAddr(aligned);
        }
        proof {
            assert(self@.dirty =~= old(self)@.dirty);
        }
        Ok(())
    }

    /// Bounds that well-formedness guarantees of the abstraction: the space
    /// fits the address type and has one permission set per byte.
    pub proof fn wf_bounds(&self)
        requires
            self.wf(),
        ensures
            self@.size() <= usize::MAX,
            self@.perms.len() == self@.mem.len(),
    {
    }

    /// Number of bytes in the space.
    pub fn size(&self) -> (r: usize)
        ensures
            r as int == self@.size(),
    {
        self.memory.len()
    }

    /// The block indices currently marked dirty, for inspection; mutating the
    /// returned vector has no effect on the space.
    pub fn dirty_blocks(&self) -> (r: Vec<usize>)
        requires
            self.wf(),
        ensures
            forall|b: usize| #[trigger] r@.contains(b) <==> self@.dirty.contains(b as int),
    {
        let r = clone_copy_vec(&self.dirty);
        proof {
            assert forall|b: usize| #[trigger]
                r@.contains(b) <==> self@.dirty.contains(b as int) by {
                assert(0 <= b as int <= usize::MAX);
            }
        }
        r
    }
}

/// A write followed by a read of the same range returns exactly the bytes
/// written: after a permitted write of `data` at `addr`, the memory there is
/// `data`, and bytes that were readable or read-after-write before the write
/// are readable after it, so a read of the range succeeds and returns `data`.
pub proof fn lemma_write_then_read(m: SpaceModel, addr: int, data: Seq<u8>)
    requires
        m.perms.len() == m.mem.len(),
        m.can_write(addr, data.len() as int),
    ensures
        m.after_write(addr, data).in_bounds(addr, data.len() as int),
        m.after_write(addr, data).mem.subrange(addr, addr + data.len()) == data,
        (forall|i: int|
            addr <= i < addr + data.len() ==> perm_allows(#[trigger] m.perms[i], PERM_READ)
                || perm_allows(m.perms[i], PERM_RAW)) ==> m.after_write(addr, data).allows(
            addr,
            data.len() as int,
            PERM_READ,
        ),
{
    let w = m.after_write(addr, data);
    assert(w.mem.subrange(addr, addr + data.len()) =~= data);
    if forall|i: int|
        addr <= i < addr + data.len() ==> perm_allows(#[trigger] m.perms[i], PERM_READ)
            || perm_allows(m.perms[i], PERM_RAW) {
        assert forall|i: int| addr <= i < addr + data.len() implies perm_allows(
            #[trigger] w.perms[i],
            PERM_READ,
        ) by {
            if perm_allows(m.perms[i], PERM_RAW) {
                lemma_or_gains_read(m.perms[i].0);
            }
        }
    }
}

/// Resetting is idempotent: a second reset against the same baseline, made
/// when the first has left no block dirty, changes nothing.
pub proof fn lemma_reset_idempotent(m: SpaceModel, base: SpaceModel)
    ensures
        m.after_reset(base).after_reset(base) == m.after_reset(base),
{
    let r = m.after_reset(base);
    assert(r.after_reset(base).mem =~= r.mem);
    assert(r.after_reset(base).perms =~= r.perms);
    assert(r.after_reset(base).dirty =~= r.dirty);
    assert(r.after_reset(base) =~= r);
}

/// Resetting restores dirty blocks only: a byte whose block is not in the
/// dirty set keeps its value and its permissions, whatever the baseline
/// holds there.
pub proof fn lemma_reset_touches_only_dirty(m: SpaceModel, base: SpaceModel, i: int)
    requires
        0 <= i < m.mem.len(),
        !m.dirty.contains(i / (DIRTY_BLOCK_SIZE as int)),
    ensures
        m.after_reset(base).mem[i] == m.mem[i],
        i < m.perms.len() ==> m.after_reset(base).perms[i] == m.perms[i],
{
}

/// Do the byte ranges `[a1, a1 + s1)` and `[a2, a2 + s2)` share no byte?
pub open spec fn ranges_disjoint(a1: int, s1: int, a2: int, s2: int) -> bool {
    a1 + s1 <= a2 || a2 + s2 <= a1
}

/// Bump allocation never hands out overlapping regions: a region allocated
/// at `a1` ends (after alignment rounding) at or before the cursor any later
/// allocation returns, so the two byte ranges are disjoint.
pub proof fn lemma_allocations_disjoint(a1: int, s1: int, a2: int, s2: int)
    requires
        0 <= s1,
        a1 + round_up_align(s1) <= a2,
    ensures
        a1 + s1 <= a2,
        ranges_disjoint(a1, s1, a2, s2),
{
}

/// Adding `PERM_READ` to a flag set makes it readable.
proof fn lemma_or_gains_read(p: u8)
    by (bit_vector)
    ensures
        (p | PERM_READ) & PERM_READ == PERM_READ,
{
}

/// Does one of the first `k` entries of `d` equal `b`?
spec fn listed_before(d: Seq<usize>, k: int, b: int) -> bool {
    exists|j: int| 0 <= j < k && (#[trigger] d[j]) as int == b
}

/// First byte of `block` in a space of `len` bytes.
fn block_start(block: usize, len: usize) -> (r: usize)
    requires
        (block as int) < Mmu::spec_num_blocks(len as int),
    ensures
        r == block * DIRTY_BLOCK_SIZE,
        r < len,
{
    proof {
        let dbs = DIRTY_BLOCK_SIZE as int;
        let q = (len - 1) / dbs;
        vstd::arithmetic::div_mod::lemma_fundamental_div_mod(len - 1, dbs);
        vstd::arithmetic::mul::lemma_mul_inequality(block as int, q, dbs);
        assert(block as int * dbs <= q * dbs);
    }
    block * DIRTY_BLOCK_SIZE
}

/// One past the last byte of `block` in a space of `len` bytes: the block
/// boundary, or `len` itself for a final partial block.
fn block_end(block: usize, len: usize) -> (r: usize)
    requires
        (block as int) < Mmu::spec_num_blocks(len as int),
    ensures
        r as int == vstd::math::min(block as int * DIRTY_BLOCK_SIZE + DIRTY_BLOCK_SIZE, len as int),
        r <= len,
        block * DIRTY_BLOCK_SIZE < r,
{
    let start = block_start(block, len);
    if len - start < DIRTY_BLOCK_SIZE {
        len
    } else {
        start + DIRTY_BLOCK_SIZE
    }
}

/// A byte `y` lies in block `block` exactly when `y / DIRTY_BLOCK_SIZE`
/// equals `block`.
proof fn lemma_block_byte_range(block: int, y: int, len: int)
    requires
        0 <= y < len,
        0 <= block,
    ensures
        (y / (DIRTY_BLOCK_SIZE as int) == block) <==> (block * DIRTY_BLOCK_SIZE <= y < block
            * DIRTY_BLOCK_SIZE + DIRTY_BLOCK_SIZE),
{
    let dbs = DIRTY_BLOCK_SIZE as int;
    if block * dbs <= y < block * dbs + dbs {
        vstd::arithmetic::div_mod::lemma_fundamental_div_mod_converse(y, dbs, block, y - block * dbs);
    }
    if y / dbs == block {
        vstd::arithmetic::div_mod::lemma_fundamental_div_mod(y, dbs);
    }
}

/// The little-endian 32-bit value formed by `mem[a .. a + 4]`.
pub open spec fn le32(mem: Seq<u8>, a: int) -> int {
    mem[a] + mem[a + 1] * 0x100 + mem[a + 2] * 0x10000 + mem[a + 3] * 0x1000000
}

/// Replaces `perms[start .. end]` with `p`.
fn fill_perm_range(perms: &mut Vec<Perm>, start: usize, end: usize, p: Perm)
    requires
        start <= end <= old(perms)@.len(),
    ensures
        final(perms)@ == Seq::new(
            old(perms)@.len(),
            |i: int| if start <= i < end { p } else { old(perms)@[i] },
        ),
{
    let mut i: usize = start;
    while i < end
        invariant
            start <= i <= end <= perms@.len(),
            perms@.len() == old(perms)@.len(),
            forall|j: int| start <= j < i ==> perms@[j] == p,
            forall|j: int| 0 <= j < perms@.len() && !(start <= j < i) ==> perms@[j] == old(perms)@[j],
        decreases end - i,
    {
        perms[i] = p;
        i = i + 1;
    }
    proof {
        assert(perms@ =~= Seq::new(
            old(perms)@.len(),
            |i: int| if start <= i < end { p } else { old(perms)@[i] },
        ));
    }
}

/// An element-for-element copy of `v`.
pub(crate) fn clone_copy_vec<T: Copy>(v: &Vec<T>) -> (r: Vec<T>)
    ensures
        r@ == v@,
{
    let mut r: Vec<T> = Vec::new();
    let mut i: usize = 0;
    while i < v.len()
        invariant
            i <= v@.len(),
            r@ == v@.subrange(0, i as int),
        decreases v@.len() - i,
    {
        r.push(v[i]);
        i = i + 1;
        proof {
            assert(r@ =~= v@.subrange(0, i as int));
        }
    }
    proof {
        assert(v@.subrange(0, v@.len() as int) =~= v@);
    }
    r
}

/// A valid block index has its bitmap word inside a bitmap of
/// `size / DIRTY_BLOCK_SIZE / 64 + 1` words.
proof fn lemma_block_word_in_range(size: int, b: int)
    requires
        0 <= b < Mmu::spec_num_blocks(size),
    ensures
        0 <= b / 64 < size / (DIRTY_BLOCK_SIZE as int) / 64 + 1,
{
    let dbs = DIRTY_BLOCK_SIZE as int;
    assert(b <= (size - 1) / dbs);
    vstd::arithmetic::div_mod::lemma_div_is_ordered(size - 1, size, dbs);
    assert(b <= size / dbs);
    vstd::arithmetic::div_mod::lemma_div_is_ordered(b, size / dbs, 64);
}

/// Setting bit `b` of a word makes bit `b` read as set.
proof fn lemma_or_bit_same(w: u64, b: u64)
    by (bit_vector)
    requires
        b < 64,
    ensures
        (w | (1u64 << b)) & (1u64 << b) != 0,
{
}

/// Setting bit `b` of a word leaves every other bit unchanged.
proof fn lemma_or_bit_diff(w: u64, b: u64, c: u64)
    by (bit_vector)
    requires
        b < 64,
        c < 64,
        b != c,
    ensures
        ((w | (1u64 << b)) & (1u64 << c)) == (w & (1u64 << c)),
{
}

/// Bit `b` of a zero word is clear.
proof fn lemma_zero_word_has_no_bits(w: u64, b: int)
    requires
        w == 0,
        0 <= b < 64,
    ensures
        !bitmap_bit(w, b),
{
    let bu = b as u64;
    assert(0u64 & (1u64 << bu) == 0) by (bit_vector);
}

/// A vector of `n` zero bytes.
pub(crate) fn zero_bytes(n: usize) -> (r: Vec<u8>)
    ensures
        r@ == Seq::new(n as nat, |i: int| 0u8),
{
    let mut r: Vec<u8> = Vec::new();
    let mut i: usize = 0;
    while i < n
        invariant
            i <= n,
            r@ == Seq::new(i as nat, |j: int| 0u8),
        decreases n - i,
    {
        r.push(0);
        i = i + 1;
        proof {
            assert(r@ =~= Seq::new(i as nat, |j: int| 0u8));
        }
    }
    r
}

/// A vector of `n` empty permission sets.
fn empty_perms(n: usize) -> (r: Vec<Perm>)
    ensures
        r@ == Seq::new(n as nat, |i: int| Perm(0)),
{
    let mut r: Vec<Perm> = Vec::new();
    let mut i: usize = 0;
    while i < n
        invariant
            i <= n,
            r@ == Seq::new(i as nat, |j: int| Perm(0)),
        decreases n - i,
    {
        r.push(Perm(0));
        i = i + 1;
        proof {
            assert(r@ =~= Seq::new(i as nat, |j: int| Perm(0)));
        }
    }
    r
}

/// A vector of `n` zero words.
pub(crate) fn zero_words(n: usize) -> (r: Vec<u64>)
    ensures
        r@.len() == n,
        forall|k: int| 0 <= k < n ==> r@[k] == 0u64,
{
    let mut r: Vec<u64> = Vec::new();
    let mut i: usize = 0;
    while i < n
        invariant
            i <= n,
            r@.len() == i,
            forall|k: int| 0 <= k < i ==> r@[k] == 0u64,
        decreases n - i,
    {
        r.push(0);
        i = i + 1;
    }
    r
}

} // verus!
