//! A fixed-region bump allocator: the concrete leaf allocator of this crate.
//!
//! A `Region` owns a span of addresses `[base, base + capacity)` and backs
//! its blocks with an internal byte buffer.  Allocation bumps a cursor and
//! never reuses released space; every live block keeps at least one byte of
//! the region reserved, so block start addresses are unique.
use crate::alloc_ref::{AllocAll, AllocRef, Owns};
use crate::block::{align_pad, is_aligned, lemma_align_pad, lemma_pow2_pos, zeroed_range};
use crate::block::{AllocErr, AllocInit, Layout, MemoryBlock, ReallocPlacement};
use vstd::prelude::*;

verus! {

/// The addresses in `[base, base + capacity)`.
pub open spec fn region_span(base: usize, capacity: usize) -> Set<usize> {
    Set::new(|p: usize| base <= p && p - base < capacity)
}

/// The bytes of the region a block reserves: at least one, so that every
/// block gets a start address of its own.
spec fn bump_of(size: int) -> int {
    if size == 0 {
        1
    } else {
        size
    }
}

/// A leaf allocator over a fixed span of addresses.
pub struct Region {
    base: usize,
    data: Vec<u8>,
    next: usize,
    live: Vec<MemoryBlock>,
    contents: Ghost<Map<usize, Seq<u8>>>,
}

impl Region {
    /// The capacity of the region in bytes.
    spec fn cap(&self) -> int {
        self.data@.len() as int
    }

    /// The offset of the `i`-th live block into the region.
    spec fn off(&self, i: int) -> int {
        self.live@[i].ptr - self.base
    }

    /// The offset one past the `i`-th live block's bytes.
    spec fn end(&self, i: int) -> int {
        self.off(i) + self.live@[i].size
    }

    /// A live block starts at address `p`.
    spec fn has_ptr(&self, p: usize) -> bool {
        exists|i: int| 0 <= i < self.live@.len() && (#[trigger] self.live@[i]).ptr == p
    }

    /// Live blocks sit inside the used part of the region, in strictly
    /// increasing, pairwise disjoint positions.
    spec fn live_wf(&self) -> bool {
        &&& forall|i: int|
            0 <= i < self.live@.len() ==> {
                &&& self.base <= (#[trigger] self.live@[i]).ptr
                &&& self.off(i) < self.next
                &&& self.end(i) <= self.next
            }
        &&& forall|i: int, j: int|
            0 <= i < j < self.live@.len() ==> #[trigger] conj_before(self, i, j)
    }

    /// The ghost contents agree with the live list and the byte buffer.
    spec fn contents_wf(&self) -> bool {
        &&& forall|p: usize| #[trigger] self.contents@.contains_key(p) <==> self.has_ptr(p)
        &&& forall|i: int|
            0 <= i < self.live@.len() ==> self.contents@[(#[trigger] self.live@[i]).ptr]
                == self.data@.subrange(self.off(i), self.end(i))
    }

    /// Find the live entry that starts at `ptr`.
    fn index_of(&self, ptr: usize) -> (i: usize)
        requires
            self.wf(),
            self.has_ptr(ptr),
        ensures
            i < self.live@.len(),
            self.live@[i as int].ptr == ptr,
    {
        let mut i: usize = 0;
        while i < self.live.len()
            invariant
                i <= self.live@.len(),
                self.has_ptr(ptr),
                forall|j: int| 0 <= j < i ==> (#[trigger] self.live@[j]).ptr != ptr,
            decreases self.live@.len() - i,
        {
            if self.live[i].ptr == ptr {
                return i;
            }
            i += 1;
        }
        proof {
            let w = choose|j: int| 0 <= j < self.live@.len() && (#[trigger] self.live@[j]).ptr
                == ptr;
            assert(false);
        }
        0
    }

    /// The index of a live entry is determined by its start address.
    proof fn lemma_unique(&self, i: int, j: int)
        requires
            self.wf(),
            0 <= i < self.live@.len(),
            0 <= j < self.live@.len(),
            self.live@[i].ptr == self.live@[j].ptr,
        ensures
            i == j,
    {
        if i < j {
            assert(conj_before(self, i, j));
        } else if j < i {
            assert(conj_before(self, j, i));
        }
    }

    /// Create a region spanning the addresses `[base, base + capacity)`.
    pub fn new(base: usize, capacity: usize) -> (r: Region)
        requires
            1 <= base,
            base + capacity <= usize::MAX,
        ensures
            r.wf(),
            r.blocks() == Map::<usize, Seq<u8>>::empty(),
            r.footprint() == region_span(base, capacity),
            r.spec_capacity() == capacity,
            r.spec_capacity_left() == capacity,
    {
        let mut data: Vec<u8> = Vec::new();
        let mut k: usize = 0;
        while k < capacity
            invariant
                data@.len() == k,
                k <= capacity,
            decreases capacity - k,
        {
            data.push(0u8);
            k += 1;
        }
        let r = Region {
            base,
            data,
            next: 0,
            live: Vec::new(),
            contents: Ghost(Map::empty()),
        };
        proof {
            assert(r.blocks() =~= Map::<usize, Seq<u8>>::empty());
            assert(r.footprint() =~= region_span(base, capacity));
        }
        r
    }
}

/// The `i`-th live block of `r` lies strictly before the `j`-th.
spec fn conj_before(r: &Region, i: int, j: int) -> bool {
    r.off(i) < r.off(j) && r.end(i) <= r.off(j)
}

impl AllocRef for Region {
    closed spec fn wf(&self) -> bool {
        &&& self.base >= 1
        &&& self.base + self.data@.len() <= usize::MAX
        &&& self.next <= self.data@.len()
        &&& self.live_wf()
        &&& self.contents_wf()
    }

    closed spec fn footprint(&self) -> Set<usize> {
        Set::new(|p: usize| self.base <= p && p - self.base < self.data@.len())
    }

    closed spec fn blocks(&self) -> Map<usize, Seq<u8>> {
        self.contents@
    }

    closed spec fn same_alloc_state(&self, other: Self) -> bool {
        *self == other
    }

    closed spec fn can_alloc(&self, layout: Layout) -> bool {
        self.next + align_pad(self.base + self.next, layout.align as int) + bump_of(
            layout.size as int,
        ) <= self.cap()
    }

    closed spec fn can_grow(
        &self,
        ptr: usize,
        layout: Layout,
        new_size: usize,
        placement: ReallocPlacement,
    ) -> bool {
        &&& self.contents@.contains_key(ptr)
        &&& layout.size >= 1
        &&& ptr - self.base + layout.size == self.next
        &&& ptr - self.base + new_size <= self.cap()
    }

    closed spec fn can_shrink(
        &self,
        ptr: usize,
        layout: Layout,
        new_size: usize,
        placement: ReallocPlacement,
    ) -> bool {
        self.contents@.contains_key(ptr)
    }

    proof fn blocks_in_footprint(&self) {
        assert forall|p: usize| self.blocks().contains_key(p) implies self.footprint().contains(
            p,
        ) by {
            let i = choose|i: int| 0 <= i < self.live@.len() && (#[trigger] self.live@[i]).ptr
                == p;
            assert(self.off(i) < self.next);
        }
    }

    proof fn same_state_refl(&self) {
    }

    proof fn same_state_trans(&self, mid: Self, other: Self) {
    }

    proof fn same_state_effects(&self, other: Self) {
    }

    fn allocate(&mut self, layout: Layout, init: AllocInit) -> (r: Result<MemoryBlock, AllocErr>) {
        self.bump_alloc(layout, init, false)
    }

    fn deallocate(&mut self, ptr: usize, layout: Layout) {
        let i = self.index_of(ptr);
        self.live.remove(i);
        proof {
            let ii = i as int;
            let oldl = old(self).live@;
            assert(oldl[ii].ptr == ptr);
            self.contents@ = self.contents@.remove(ptr);
            assert forall|a: int|
                0 <= a < self.live@.len() implies {
                    &&& self.base <= (#[trigger] self.live@[a]).ptr
                    &&& self.off(a) < self.next
                    &&& self.end(a) <= self.next
                } by {
                let oa = if a < ii {
                    a
                } else {
                    a + 1
                };
                assert(old(self).base <= old(self).live@[oa].ptr);
                assert(old(self).off(oa) < old(self).next);
                assert(old(self).end(oa) <= old(self).next);
            }
            assert forall|p: usize| #[trigger] self.contents@.contains_key(p) implies self.has_ptr(
                p,
            ) by {
                let j = choose|j: int| 0 <= j < oldl.len() && (#[trigger] oldl[j]).ptr == p;
                if j == ii {
                    assert(false);
                } else if j < ii {
                    assert(self.live@[j].ptr == p);
                } else {
                    assert(self.live@[j - 1].ptr == p);
                }
            }
            assert forall|p: usize| self.has_ptr(p) implies #[trigger] self.contents@.contains_key(
                p,
            ) by {
                let j = choose|j: int| 0 <= j < self.live@.len() && (#[trigger] self.live@[j]).ptr
                    == p;
                let oj = if j < ii {
                    j
                } else {
                    j + 1
                };
                assert(oldl[oj].ptr == p);
                if p == ptr {
                    old(self).lemma_unique(oj, ii);
                    assert(false);
                }
            }
            assert forall|a: int, b: int|
                0 <= a < b < self.live@.len() implies #[trigger] conj_before(self, a, b) by {
                let oa = if a < ii {
                    a
                } else {
                    a + 1
                };
                let ob = if b < ii {
                    b
                } else {
                    b + 1
                };
                assert(conj_before(old(self), oa, ob));
            }
            assert forall|j: int| 0 <= j < self.live@.len() implies self.contents@[(
            #[trigger] self.live@[j]).ptr] == self.data@.subrange(self.off(j), self.end(j)) by {
                let oj = if j < ii {
                    j
                } else {
                    j + 1
                };
                assert(oldl[oj].ptr == self.live@[j].ptr);
                if oldl[oj].ptr == ptr {
                    old(self).lemma_unique(oj, ii);
                    assert(false);
                }
            }
            assert(self.blocks() =~= old(self).blocks().remove(ptr));
        }
    }

    fn grow(
        &mut self,
        ptr: usize,
        layout: Layout,
        new_size: usize,
        placement: ReallocPlacement,
        init: AllocInit,
    ) -> (r: Result<MemoryBlock, AllocErr>) {
        let i = self.index_of(ptr);
        proof {
            assert(self.contents@[self.live@[i as int].ptr] == self.data@.subrange(
                self.off(i as int),
                self.end(i as int),
            ));
            assert(self.live@[i as int].size == layout.size);
            assert(self.off(i as int) < self.next && self.end(i as int) <= self.next);
        }
        let off: usize = ptr - self.base;
        if !(layout.size >= 1 && off + layout.size == self.next && new_size <= self.data.len()
            && off <= self.data.len() - new_size) {
            proof {
                self.same_state_refl();
            }
            return Err(AllocErr);
        }
        let ghost ii = i as int;
        proof {
            assert forall|j: int| 0 <= j < self.live@.len() && j != ii implies self.end(j)
                <= off as int by {
                if j < ii {
                    assert(conj_before(self, j, ii));
                } else {
                    assert(conj_before(self, ii, j));
                    assert(self.off(j) < self.next);
                    assert(false);
                }
            }
        }
        if init == AllocInit::Zeroed {
            let mut k: usize = layout.size;
            while k < new_size
                invariant
                    layout.size <= k <= new_size,
                    off + new_size <= self.data@.len(),
                    self.base == old(self).base,
                    self.next == old(self).next,
                    self.live == old(self).live,
                    self.contents == old(self).contents,
                    self.data@.len() == old(self).data@.len(),
                    self.data@.len() <= usize::MAX,
                    forall|m: int|
                        0 <= m < self.data@.len() && !(off + layout.size <= m < off + k)
                            ==> self.data@[m] == old(self).data@[m],
                    forall|m: int| off + layout.size <= m < off + k ==> self.data@[m] == 0u8,
                decreases new_size - k,
            {
                self.data[off + k] = 0u8;
                k += 1;
            }
        }
        let ghost new_bytes = self.data@.subrange(off as int, off as int + new_size as int);
        self.live[i] = MemoryBlock { ptr, size: new_size };
        self.next = off + new_size;
        proof {
            self.contents@ = self.contents@.insert(ptr, new_bytes);
            assert forall|a: int|
                0 <= a < self.live@.len() implies {
                    &&& self.base <= (#[trigger] self.live@[a]).ptr
                    &&& self.off(a) < self.next
                    &&& self.end(a) <= self.next
                } by {
                if a != ii {
                    assert(old(self).base <= old(self).live@[a].ptr);
                    assert(old(self).off(a) < old(self).next);
                    assert(old(self).end(a) <= old(self).next);
                }
            }
            assert forall|p: usize| #[trigger] self.contents@.contains_key(p) implies self.has_ptr(
                p,
            ) by {
                if p != ptr {
                    let j = choose|j: int| 0 <= j < old(self).live@.len() && (#[trigger] old(
                        self,
                    ).live@[j]).ptr == p;
                    assert(self.live@[j].ptr == p);
                }
            }
            assert forall|p: usize| self.has_ptr(p) implies #[trigger] self.contents@.contains_key(
                p,
            ) by {
                let j = choose|j: int| 0 <= j < self.live@.len() && (#[trigger] self.live@[j]).ptr
                    == p;
                if j != ii {
                    assert(old(self).live@[j].ptr == p);
                }
            }
            assert forall|a: int, b: int|
                0 <= a < b < self.live@.len() implies #[trigger] conj_before(self, a, b) by {
                assert(conj_before(old(self), a, b));
            }
            assert forall|j: int| 0 <= j < self.live@.len() implies self.contents@[(
            #[trigger] self.live@[j]).ptr] == self.data@.subrange(self.off(j), self.end(j)) by {
                if j != ii {
                    if old(self).live@[j].ptr == ptr {
                        old(self).lemma_unique(j, ii);
                    }
                    assert(old(self).live@[j].ptr == self.live@[j].ptr);
                    assert(self.data@.subrange(self.off(j), self.end(j)) =~= old(
                        self,
                    ).data@.subrange(old(self).off(j), old(self).end(j)));
                } else {
                    assert(new_bytes == self.data@.subrange(self.off(ii), self.end(ii)));
                }
            }
            assert(self.blocks() =~= old(self).blocks().remove(ptr).insert(ptr, new_bytes));
            assert(new_bytes.subrange(0, layout.size as int) =~= old(self).data@.subrange(
                off as int,
                off as int + layout.size as int,
            ));
            assert(old(self).blocks()[ptr] =~= old(self).data@.subrange(
                off as int,
                off as int + layout.size as int,
            ));
        }
        Ok(MemoryBlock { ptr, size: new_size })
    }

    fn shrink(
        &mut self,
        ptr: usize,
        layout: Layout,
        new_size: usize,
        placement: ReallocPlacement,
    ) -> (r: Result<MemoryBlock, AllocErr>) {
        let i = self.index_of(ptr);
        let ghost ii = i as int;
        proof {
            assert(self.contents@[self.live@[ii].ptr] == self.data@.subrange(
                self.off(ii),
                self.end(ii),
            ));
            assert(self.live@[ii].size == layout.size);
            assert(self.off(ii) < self.next && self.end(ii) <= self.next);
        }
        let off: usize = ptr - self.base;
        let ghost new_bytes = self.data@.subrange(off as int, off as int + new_size as int);
        self.live[i] = MemoryBlock { ptr, size: new_size };
        proof {
            self.contents@ = self.contents@.insert(ptr, new_bytes);
            assert forall|a: int|
                0 <= a < self.live@.len() implies {
                    &&& self.base <= (#[trigger] self.live@[a]).ptr
                    &&& self.off(a) < self.next
                    &&& self.end(a) <= self.next
                } by {
                if a != ii {
                    assert(old(self).base <= old(self).live@[a].ptr);
                    assert(old(self).off(a) < old(self).next);
                    assert(old(self).end(a) <= old(self).next);
                }
            }
            assert forall|p: usize| #[trigger] self.contents@.contains_key(p) implies self.has_ptr(
                p,
            ) by {
                if p != ptr {
                    let j = choose|j: int| 0 <= j < old(self).live@.len() && (#[trigger] old(
                        self,
                    ).live@[j]).ptr == p;
                    assert(self.live@[j].ptr == p);
                }
            }
            assert forall|p: usize| self.has_ptr(p) implies #[trigger] self.contents@.contains_key(
                p,
            ) by {
                let j = choose|j: int| 0 <= j < self.live@.len() && (#[trigger] self.live@[j]).ptr
                    == p;
                if j != ii {
                    assert(old(self).live@[j].ptr == p);
                }
            }
            assert forall|a: int, b: int|
                0 <= a < b < self.live@.len() implies #[trigger] conj_before(self, a, b) by {
                assert(conj_before(old(self), a, b));
            }
            assert forall|j: int| 0 <= j < self.live@.len() implies self.contents@[(
            #[trigger] self.live@[j]).ptr] == self.data@.subrange(self.off(j), self.end(j)) by {
                if j != ii {
                    if old(self).live@[j].ptr == ptr {
                        old(self).lemma_unique(j, ii);
                    }
                    assert(old(self).live@[j].ptr == self.live@[j].ptr);
                }
            }
            assert(self.blocks() =~= old(self).blocks().remove(ptr).insert(ptr, new_bytes));
            assert(new_bytes =~= old(self).blocks()[ptr].subrange(0, new_size as int));
        }
        Ok(MemoryBlock { ptr, size: new_size })
    }

    fn read(&mut self, ptr: usize, layout: Layout) -> (r: Vec<u8>) {
        let i = self.index_of(ptr);
        proof {
            assert(self.contents@[self.live@[i as int].ptr] == self.data@.subrange(
                self.off(i as int),
                self.end(i as int),
            ));
            assert(self.live@[i as int].size == layout.size);
            assert(self.end(i as int) <= self.next);
        }
        let off: usize = ptr - self.base;
        let mut out: Vec<u8> = Vec::new();
        let mut k: usize = 0;
        while k < layout.size
            invariant
                k <= layout.size,
                self.wf(),
                i < self.live@.len(),
                self.live@[i as int].ptr == ptr,
                self.live@[i as int].size == layout.size,
                off == ptr - self.base,
                off + layout.size <= self.data@.len(),
                out@ == self.data@.subrange(off as int, off as int + k as int),
            decreases layout.size - k,
        {
            out.push(self.data[off + k]);
            proof {
                assert(out@ =~= self.data@.subrange(off as int, off as int + k as int + 1));
            }
            k += 1;
        }
        proof {
            assert(out@ == self.blocks()[ptr]);
        }
        out
    }

    fn write(&mut self, ptr: usize, buf: &Vec<u8>) {
        let i = self.index_of(ptr);
        let ghost ii = i as int;
        proof {
            assert(self.contents@[self.live@[ii].ptr] == self.data@.subrange(
                self.off(ii),
                self.end(ii),
            ));
            assert(self.live@[ii].size == old(self).blocks()[ptr].len());
            assert(self.off(ii) < self.next && self.end(ii) <= self.next);
        }
        let off: usize = ptr - self.base;
        let len: usize = buf.len();
        proof {
            assert forall|j: int|
                0 <= j < old(self).live@.len() && j != ii implies old(self).end(j) <= off as int
                    || off as int + old(self).live@[ii].size <= old(self).off(j) by {
                if j < ii {
                    assert(conj_before(old(self), j, ii));
                } else {
                    assert(conj_before(old(self), ii, j));
                }
            }
        }
        let mut k: usize = 0;
        while k < len
            invariant
                k <= len,
                len == buf@.len(),
                self.base == old(self).base,
                self.next == old(self).next,
                self.live == old(self).live,
                self.contents == old(self).contents,
                self.data@.len() == old(self).data@.len(),
                self.data@.len() <= usize::MAX,
                0 <= ii < self.live@.len(),
                self.live@[ii].ptr == ptr,
                len <= self.live@[ii].size,
                off == ptr - self.base,
                off + self.live@[ii].size <= self.data@.len(),
                forall|m: int|
                    0 <= m < self.data@.len() && !(off <= m < off + k)
                        ==> self.data@[m] == old(self).data@[m],
                forall|m: int| off <= m < off + k ==> self.data@[m] == buf@[m - off],
            decreases len - k,
        {
            self.data[off + k] = buf[k];
            k += 1;
        }
        proof {
            let new_bytes = buf@ + old(self).blocks()[ptr].skip(buf@.len() as int);
            self.contents@ = self.contents@.insert(ptr, new_bytes);
            assert forall|a2: int|
                0 <= a2 < self.live@.len() implies {
                    &&& self.base <= (#[trigger] self.live@[a2]).ptr
                    &&& self.off(a2) < self.next
                    &&& self.end(a2) <= self.next
                } by {
                assert(old(self).base <= old(self).live@[a2].ptr);
                assert(old(self).off(a2) < old(self).next);
                assert(old(self).end(a2) <= old(self).next);
            }
            assert forall|a2: int, b2: int|
                0 <= a2 < b2 < self.live@.len() implies #[trigger] conj_before(self, a2, b2) by {
                assert(conj_before(old(self), a2, b2));
            }
            assert forall|p: usize| #[trigger] self.contents@.contains_key(p) implies self.has_ptr(
                p,
            ) by {
                if p != ptr {
                    let j = choose|j: int| 0 <= j < old(self).live@.len() && (#[trigger] old(
                        self,
                    ).live@[j]).ptr == p;
                    assert(self.live@[j].ptr == p);
                }
            }
            assert forall|p: usize| self.has_ptr(p) implies #[trigger] self.contents@.contains_key(
                p,
            ) by {
                let j = choose|j: int| 0 <= j < self.live@.len() && (#[trigger] self.live@[j]).ptr
                    == p;
                if j != ii {
                    assert(old(self).live@[j].ptr == p);
                }
            }
            assert forall|j: int| 0 <= j < self.live@.len() implies self.contents@[(
            #[trigger] self.live@[j]).ptr] == self.data@.subrange(self.off(j), self.end(j)) by {
                if j != ii {
                    if old(self).live@[j].ptr == ptr {
                        old(self).lemma_unique(j, ii);
                    }
                    assert(self.data@.subrange(self.off(j), self.end(j)) =~= old(
                        self,
                    ).data@.subrange(old(self).off(j), old(self).end(j)));
                } else {
                    assert(self.contents@[ptr] == new_bytes);
                    assert(new_bytes =~= self.data@.subrange(self.off(ii), self.end(ii)));
                }
            }
            assert(self.blocks() =~= old(self).blocks().insert(ptr, new_bytes));
        }
    }
}

impl Region {
    /// The witness index behind a `has_ptr` fact.
    spec fn idx_ghost(&self, ptr: usize) -> int {
        choose|j: int| 0 <= j < self.live@.len() && (#[trigger] self.live@[j]).ptr == ptr
    }

    /// The one allocation routine of the region: bump the cursor past the
    /// padding needed for `layout.align`, and hand out either `layout.size`
    /// bytes or, for `take_all`, everything up to the end of the region.
    fn bump_alloc(&mut self, layout: Layout, init: AllocInit, take_all: bool) -> (r: Result<
        MemoryBlock,
        AllocErr,
    >)
        requires
            old(self).wf(),
            layout.wf(),
        ensures
            final(self).wf(),
            final(self).footprint() == old(self).footprint(),
            final(self).data@.len() == old(self).data@.len(),
            match r {
                Ok(b) => {
                    &&& old(self).can_alloc(layout)
                    &&& b.size >= layout.size
                    &&& (!take_all ==> b.size == layout.size)
                    &&& (take_all ==> final(self).next == final(self).data@.len())
                    &&& is_aligned(b.ptr, layout.align)
                    &&& !old(self).blocks().contains_key(b.ptr)
                    &&& final(self).blocks() == old(self).blocks().insert(
                        b.ptr,
                        final(self).blocks()[b.ptr],
                    )
                    &&& final(self).blocks()[b.ptr].len() == b.size
                    &&& (init == AllocInit::Zeroed ==> zeroed_range(
                        final(self).blocks()[b.ptr],
                        0,
                        b.size as int,
                    ))
                },
                Err(_) => {
                    &&& *final(self) == *old(self)
                    &&& !old(self).can_alloc(layout)
                },
            },
            old(self).can_alloc(layout) ==> r is Ok,
    {
        proof {
            lemma_pow2_pos(layout.align as nat);
            lemma_align_pad((self.base + self.next) as int, layout.align as int);
        }
        let a: usize = self.base + self.next;
        let rem: usize = a % layout.align;
        let pad: usize = if rem == 0 {
            0
        } else {
            layout.align - rem
        };
        let room: usize = self.data.len() - self.next;
        if pad > room {
            return Err(AllocErr);
        }
        let bump: usize = if layout.size == 0 {
            1
        } else {
            layout.size
        };
        if bump > room - pad {
            return Err(AllocErr);
        }
        let off: usize = self.next + pad;
        let ptr: usize = self.base + off;
        let size_out: usize = if take_all {
            self.data.len() - off
        } else {
            layout.size
        };
        if init == AllocInit::Zeroed {
            let mut k: usize = 0;
            while k < size_out
                invariant
                    k <= size_out,
                    off + size_out <= self.data@.len(),
                    self.base == old(self).base,
                    self.next == old(self).next,
                    self.live == old(self).live,
                    self.contents == old(self).contents,
                    self.data@.len() == old(self).data@.len(),
                    self.data@.len() <= usize::MAX,
                    forall|m: int|
                        0 <= m < self.data@.len() && !(off <= m < off + k)
                            ==> self.data@[m] == old(self).data@[m],
                    forall|m: int| off <= m < off + k ==> self.data@[m] == 0u8,
                decreases size_out - k,
            {
                self.data[off + k] = 0u8;
                k += 1;
            }
        }
        proof {
            if old(self).contents@.contains_key(ptr) {
                let i = choose|i: int| 0 <= i < old(self).live@.len() && (#[trigger] old(
                    self,
                ).live@[i]).ptr == ptr;
                assert(old(self).off(i) < old(self).next);
                assert(false);
            }
        }
        let ghost new_bytes = self.data@.subrange(off as int, off as int + size_out as int);
        self.live.push(MemoryBlock { ptr, size: size_out });
        self.next = if take_all {
            self.data.len()
        } else {
            off + bump
        };
        proof {
            self.contents@ = self.contents@.insert(ptr, new_bytes);
            let olen = old(self).live@.len() as int;
            assert(self.live@[olen].ptr == ptr);
            assert forall|a2: int|
                0 <= a2 < self.live@.len() implies {
                    &&& self.base <= (#[trigger] self.live@[a2]).ptr
                    &&& self.off(a2) < self.next
                    &&& self.end(a2) <= self.next
                } by {
                if a2 < olen {
                    assert(old(self).base <= old(self).live@[a2].ptr);
                    assert(old(self).off(a2) < old(self).next);
                    assert(old(self).end(a2) <= old(self).next);
                }
            }
            assert forall|a2: int, b2: int|
                0 <= a2 < b2 < self.live@.len() implies #[trigger] conj_before(self, a2, b2) by {
                if b2 < olen {
                    assert(conj_before(old(self), a2, b2));
                } else {
                    assert(old(self).off(a2) < old(self).next);
                    assert(old(self).end(a2) <= old(self).next);
                }
            }
            assert forall|p: usize| #[trigger] self.contents@.contains_key(p) implies self.has_ptr(
                p,
            ) by {
                if p == ptr {
                    assert(self.live@[olen].ptr == p);
                } else {
                    let i = choose|i: int| 0 <= i < old(self).live@.len() && (#[trigger] old(
                        self,
                    ).live@[i]).ptr == p;
                    assert(self.live@[i].ptr == p);
                }
            }
            assert forall|p: usize| self.has_ptr(p) implies #[trigger] self.contents@.contains_key(
                p,
            ) by {
                let i = choose|i: int| 0 <= i < self.live@.len() && (#[trigger] self.live@[i]).ptr
                    == p;
                if i < olen {
                    assert(old(self).live@[i].ptr == p);
                }
            }
            assert forall|i: int| 0 <= i < self.live@.len() implies self.contents@[(
            #[trigger] self.live@[i]).ptr] == self.data@.subrange(self.off(i), self.end(i)) by {
                if i < olen {
                    assert(old(self).live@[i].ptr != ptr) by {
                        assert(old(self).off(i) < old(self).next);
                    }
                    assert(self.data@.subrange(self.off(i), self.end(i)) =~= old(
                        self,
                    ).data@.subrange(old(self).off(i), old(self).end(i)));
                }
            }
            assert(self.blocks() =~= old(self).blocks().insert(ptr, new_bytes));
        }
        Ok(MemoryBlock { ptr, size: size_out })
    }
}

impl AllocAll for Region {
    closed spec fn spec_capacity(&self) -> int {
        self.cap()
    }

    closed spec fn spec_capacity_left(&self) -> int {
        self.cap() - self.next
    }

    closed spec fn can_alloc_all(&self, layout: Layout) -> bool {
        self.can_alloc(layout)
    }

    proof fn same_state_bulk_effects(&self, other: Self) {
    }

    fn allocate_all(&mut self, layout: Layout, init: AllocInit) -> (r: Result<
        MemoryBlock,
        AllocErr,
    >) {
        self.bump_alloc(layout, init, true)
    }

    fn deallocate_all(&mut self) {
        self.live.clear();
        self.next = 0;
        proof {
            self.contents@ = Map::empty();
            assert(self.blocks() =~= Map::<usize, Seq<u8>>::empty());
        }
    }

    fn capacity(&self) -> (r: usize) {
        self.data.len()
    }

    fn capacity_left(&self) -> (r: usize) {
        self.data.len() - self.next
    }

    fn is_empty(&self) -> (r: bool) {
        let r = self.live.len() == 0;
        proof {
            if r {
                assert(self.blocks() =~= Map::<usize, Seq<u8>>::empty());
            } else {
                assert(self.contents@.contains_key(self.live@[0].ptr));
            }
        }
        r
    }

    fn is_full(&self) -> (r: bool) {
        self.next == self.data.len()
    }
}

impl Owns for Region {
    fn owns(&mut self, memory: MemoryBlock) -> (r: bool) {
        let mut i: usize = 0;
        while i < self.live.len()
            invariant
                self.wf(),
                i <= self.live@.len(),
                forall|j: int| 0 <= j < i ==> (#[trigger] self.live@[j]).ptr != memory.ptr,
            decreases self.live@.len() - i,
        {
            if self.live[i].ptr == memory.ptr {
                proof {
                    assert(self.has_ptr(memory.ptr));
                }
                return true;
            }
            i += 1;
        }
        proof {
            if self.blocks().contains_key(memory.ptr) {
                let j = self.idx_ghost(memory.ptr);
                assert(false);
            }
        }
        false
    }
}

} // verus!
