//! The OR combinator: try a primary allocator first, let a fallback
//! allocator absorb everything the primary cannot satisfy.
//!
//! The two inner allocators are assumed to manage disjoint address
//! footprints; that assumption is the combinator's well-formedness
//! (`wf`), and every routing decision is re-derived from the primary's
//! own ownership answer, never from bookkeeping of the combinator.
use crate::alloc_ref::{AllocRef, Owns};
use crate::block::{is_aligned, zeroed_range};
use crate::block::{AllocErr, AllocInit, Layout, MemoryBlock, ReallocPlacement};
use vstd::prelude::*;

verus! {

/// An allocator equivalent of an "or" operator in algebra.
///
/// An allocation request is first attempted with the `Primary` allocator.
/// If that fails, the request is forwarded to the `Fallback` allocator.
/// All other requests are dispatched by ownership to one of the two.
#[derive(Debug, Copy, Clone)]
pub struct FallbackAlloc<Primary, Fallback> {
    /// The primary allocator.
    pub primary: Primary,
    /// The fallback allocator.
    pub fallback: Fallback,
}

proof fn lemma_union_dom(m1: Map<usize, Seq<u8>>, m2: Map<usize, Seq<u8>>, k: usize)
    ensures
        m1.union_prefer_right(m2).contains_key(k) == (m1.contains_key(k) || m2.contains_key(k)),
{
}

proof fn lemma_union_insert_left(
    m1: Map<usize, Seq<u8>>,
    m2: Map<usize, Seq<u8>>,
    k: usize,
    v: Seq<u8>,
)
    requires
        !m2.contains_key(k),
    ensures
        m1.insert(k, v).union_prefer_right(m2) == m1.union_prefer_right(m2).insert(k, v),
{
    assert(m1.insert(k, v).union_prefer_right(m2) =~= m1.union_prefer_right(m2).insert(k, v));
}

proof fn lemma_union_insert_right(
    m1: Map<usize, Seq<u8>>,
    m2: Map<usize, Seq<u8>>,
    k: usize,
    v: Seq<u8>,
)
    ensures
        m1.union_prefer_right(m2.insert(k, v)) == m1.union_prefer_right(m2).insert(k, v),
{
    assert(m1.union_prefer_right(m2.insert(k, v)) =~= m1.union_prefer_right(m2).insert(k, v));
}

proof fn lemma_union_remove_left(m1: Map<usize, Seq<u8>>, m2: Map<usize, Seq<u8>>, k: usize)
    requires
        !m2.contains_key(k),
    ensures
        m1.remove(k).union_prefer_right(m2) == m1.union_prefer_right(m2).remove(k),
{
    assert(m1.remove(k).union_prefer_right(m2) =~= m1.union_prefer_right(m2).remove(k));
}

proof fn lemma_union_remove_right(m1: Map<usize, Seq<u8>>, m2: Map<usize, Seq<u8>>, k: usize)
    requires
        !m1.contains_key(k),
    ensures
        m1.union_prefer_right(m2.remove(k)) == m1.union_prefer_right(m2).remove(k),
{
    assert(m1.union_prefer_right(m2.remove(k)) =~= m1.union_prefer_right(m2).remove(k));
}

/// Two well-formed allocators with disjoint footprints never both back a
/// block at the same address.
proof fn lemma_blocks_disjoint<A: AllocRef, B: AllocRef>(a: &A, b: &B)
    requires
        a.wf(),
        b.wf(),
        a.footprint().disjoint(b.footprint()),
    ensures
        forall|p: usize| #[trigger] a.blocks().contains_key(p) ==> !b.blocks().contains_key(p),
        forall|p: usize| #[trigger] b.blocks().contains_key(p) ==> !a.blocks().contains_key(p),
{
    a.blocks_in_footprint();
    b.blocks_in_footprint();
    assert forall|p: usize| #[trigger] a.blocks().contains_key(p) implies !b.blocks().contains_key(
        p,
    ) by {
        assert(a.footprint().contains(p));
        if b.blocks().contains_key(p) {
            assert(b.footprint().contains(p));
        }
    }
    assert forall|p: usize| #[trigger] b.blocks().contains_key(p) implies !a.blocks().contains_key(
        p,
    ) by {
        if a.blocks().contains_key(p) {
            assert(a.footprint().contains(p));
            assert(b.footprint().contains(p));
        }
    }
}

/// Grow a block owned by `primary` by migrating it into `fallback`:
/// allocate the larger block there, copy the block's bytes over, then
/// release the block from `primary`.  A migration is itself a move, so it
/// is attempted only under `MayMove`; it either completes fully or leaves
/// both allocators unchanged.  This is the one place where bytes cross
/// from one allocator to the other, shared by any OR-style combinator.
pub fn grow<Primary: AllocRef + Owns, Fallback: AllocRef>(
    primary: &mut Primary,
    fallback: &mut Fallback,
    ptr: usize,
    layout: Layout,
    new_size: usize,
    placement: ReallocPlacement,
    init: AllocInit,
) -> (r: Result<MemoryBlock, AllocErr>)
    requires
        old(primary).wf(),
        old(fallback).wf(),
        layout.wf(),
        old(primary).footprint().disjoint(old(fallback).footprint()),
        old(primary).blocks().contains_key(ptr),
        old(primary).blocks()[ptr].len() == layout.size,
        new_size >= layout.size,
    ensures
        final(primary).wf(),
        final(fallback).wf(),
        final(primary).footprint() == old(primary).footprint(),
        final(fallback).footprint() == old(fallback).footprint(),
        match r {
            Ok(b) => {
                &&& placement == ReallocPlacement::MayMove
                &&& old(fallback).can_alloc((Layout { size: new_size, align: layout.align }))
                &&& b.size == new_size
                &&& is_aligned(b.ptr, layout.align)
                &&& !old(fallback).blocks().contains_key(b.ptr)
                &&& final(fallback).blocks().contains_key(b.ptr)
                &&& final(primary).blocks() == old(primary).blocks().remove(ptr)
                &&& final(fallback).blocks() == old(fallback).blocks().insert(
                    b.ptr,
                    final(fallback).blocks()[b.ptr],
                )
                &&& final(fallback).blocks()[b.ptr].len() == new_size
                &&& final(fallback).blocks()[b.ptr].subrange(0, layout.size as int) == old(
                    primary,
                ).blocks()[ptr]
                &&& (init == AllocInit::Zeroed ==> zeroed_range(
                    final(fallback).blocks()[b.ptr],
                    layout.size as int,
                    new_size as int,
                ))
            },
            Err(_) => {
                &&& *final(primary) == *old(primary)
                &&& old(fallback).same_alloc_state(*final(fallback))
                &&& !(placement == ReallocPlacement::MayMove && old(fallback).can_alloc(
                    (Layout { size: new_size, align: layout.align }),
                ))
            },
        },
        (placement == ReallocPlacement::MayMove && old(fallback).can_alloc(
            (Layout { size: new_size, align: layout.align }),
        )) ==> r is Ok,
{
    match placement {
        ReallocPlacement::InPlace => {
            proof {
                fallback.same_state_refl();
            }
            Err(AllocErr)
        },
        ReallocPlacement::MayMove => {
            let new_layout = Layout { size: new_size, align: layout.align };
            let alloc_result = fallback.allocate(new_layout, init);
            match alloc_result {
                Err(e) => Err(e),
                Ok(new_block) => {
                    let bytes = primary.read(ptr, layout);
                    proof {
                        old(primary).same_state_effects(*primary);
                    }
                    fallback.write(new_block.ptr, &bytes);
                    primary.deallocate(ptr, layout);
                    proof {
                        assert(fallback.blocks() =~= old(fallback).blocks().insert(
                            new_block.ptr,
                            fallback.blocks()[new_block.ptr],
                        ));
                        assert(fallback.blocks()[new_block.ptr].subrange(0, layout.size as int)
                            =~= old(primary).blocks()[ptr]);
                    }
                    Ok(new_block)
                },
            }
        },
    }
}

impl<Primary: AllocRef + Owns, Fallback: AllocRef> AllocRef for FallbackAlloc<Primary, Fallback> {
    open spec fn wf(&self) -> bool {
        &&& self.primary.wf()
        &&& self.fallback.wf()
        &&& self.primary.footprint().disjoint(self.fallback.footprint())
    }

    open spec fn footprint(&self) -> Set<usize> {
        self.primary.footprint().union(self.fallback.footprint())
    }

    open spec fn blocks(&self) -> Map<usize, Seq<u8>> {
        self.primary.blocks().union_prefer_right(self.fallback.blocks())
    }

    open spec fn same_alloc_state(&self, other: Self) -> bool {
        &&& self.primary.same_alloc_state(other.primary)
        &&& self.fallback.same_alloc_state(other.fallback)
    }

    open spec fn can_alloc(&self, layout: Layout) -> bool {
        self.primary.can_alloc(layout) || self.fallback.can_alloc(layout)
    }

    open spec fn can_grow(
        &self,
        ptr: usize,
        layout: Layout,
        new_size: usize,
        placement: ReallocPlacement,
    ) -> bool {
        if self.primary.blocks().contains_key(ptr) {
            self.primary.can_grow(ptr, layout, new_size, placement) || (placement
                == ReallocPlacement::MayMove && self.fallback.can_alloc(
                (Layout { size: new_size, align: layout.align }),
            ))
        } else {
            self.fallback.can_grow(ptr, layout, new_size, placement)
        }
    }

    open spec fn can_shrink(
        &self,
        ptr: usize,
        layout: Layout,
        new_size: usize,
        placement: ReallocPlacement,
    ) -> bool {
        if self.primary.blocks().contains_key(ptr) {
            self.primary.can_shrink(ptr, layout, new_size, placement)
        } else {
            self.fallback.can_shrink(ptr, layout, new_size, placement)
        }
    }

    proof fn blocks_in_footprint(&self) {
        self.primary.blocks_in_footprint();
        self.fallback.blocks_in_footprint();
        assert forall|p: usize| self.blocks().contains_key(p) implies self.footprint().contains(
            p,
        ) by {
            lemma_union_dom(self.primary.blocks(), self.fallback.blocks(), p);
        }
    }

    proof fn same_state_refl(&self) {
        self.primary.same_state_refl();
        self.fallback.same_state_refl();
    }

    proof fn same_state_trans(&self, mid: Self, other: Self) {
        self.primary.same_state_trans(mid.primary, other.primary);
        self.fallback.same_state_trans(mid.fallback, other.fallback);
    }

    proof fn same_state_effects(&self, other: Self) {
        self.primary.same_state_effects(other.primary);
        self.fallback.same_state_effects(other.fallback);
        assert(self.blocks() == other.blocks());
        assert(self.footprint() == other.footprint());
        assert forall|layout: Layout| #[trigger]
            self.can_alloc(layout) == other.can_alloc(layout) by {
            assert(self.primary.can_alloc(layout) == other.primary.can_alloc(layout));
            assert(self.fallback.can_alloc(layout) == other.fallback.can_alloc(layout));
        }
        assert forall|p: usize, l: Layout, n: usize, pl: ReallocPlacement| #[trigger]
            self.can_grow(p, l, n, pl) == other.can_grow(p, l, n, pl) by {
            assert(self.primary.can_grow(p, l, n, pl) == other.primary.can_grow(p, l, n, pl));
            assert(self.fallback.can_grow(p, l, n, pl) == other.fallback.can_grow(p, l, n, pl));
            assert(self.fallback.can_alloc((Layout { size: n, align: l.align }))
                == other.fallback.can_alloc((Layout { size: n, align: l.align })));
        }
        assert forall|p: usize, l: Layout, n: usize, pl: ReallocPlacement| #[trigger]
            self.can_shrink(p, l, n, pl) == other.can_shrink(p, l, n, pl) by {
            assert(self.primary.can_shrink(p, l, n, pl) == other.primary.can_shrink(p, l, n, pl));
            assert(self.fallback.can_shrink(p, l, n, pl) == other.fallback.can_shrink(
                p,
                l,
                n,
                pl,
            ));
        }
    }

    /// Try the primary first; on failure return whatever the fallback says.
    fn allocate(&mut self, layout: Layout, init: AllocInit) -> (r: Result<MemoryBlock, AllocErr>)
        ensures
            old(self).primary.can_alloc(layout) ==> (r is Ok && final(self).primary.blocks().contains_key((r->Ok_0).ptr) && old(self).fallback.same_alloc_state(
                final(self).fallback,
            )),
            !old(self).primary.can_alloc(layout) ==> old(self).primary.same_alloc_state(
                final(self).primary,
            ) && (r is Ok ==> final(self).fallback.blocks().contains_key((r->Ok_0).ptr)),
    {
        let primary_result = self.primary.allocate(layout, init);
        match primary_result {
            Ok(b) => {
                proof {
                    self.fallback.same_state_refl();
                    lemma_blocks_disjoint(&self.primary, &self.fallback);
                    lemma_union_insert_left(
                        old(self).primary.blocks(),
                        self.fallback.blocks(),
                        b.ptr,
                        self.primary.blocks()[b.ptr],
                    );
                    assert(self.blocks()[b.ptr] == self.primary.blocks()[b.ptr]);
                    lemma_union_dom(old(self).primary.blocks(), old(self).fallback.blocks(), b.ptr);
                }
                Ok(b)
            },
            Err(_) => {
                proof {
                    old(self).primary.same_state_effects(self.primary);
                }
                let fallback_result = self.fallback.allocate(layout, init);
                proof {
                    match fallback_result {
                        Ok(b) => {
                            lemma_blocks_disjoint(&self.primary, &self.fallback);
                            lemma_union_insert_right(
                                self.primary.blocks(),
                                old(self).fallback.blocks(),
                                b.ptr,
                                self.fallback.blocks()[b.ptr],
                            );
                            assert(self.blocks()[b.ptr] == self.fallback.blocks()[b.ptr]);
                            lemma_union_dom(
                                old(self).primary.blocks(),
                                old(self).fallback.blocks(),
                                b.ptr,
                            );
                        },
                        Err(_) => {
                            old(self).fallback.same_state_effects(self.fallback);
                        },
                    }
                }
                fallback_result
            },
        }
    }

    /// Route by the primary's own ownership answer.
    fn deallocate(&mut self, ptr: usize, layout: Layout)
        ensures
            old(self).primary.blocks().contains_key(ptr) ==> final(self).primary.blocks() == old(
                self,
            ).primary.blocks().remove(ptr) && old(self).fallback.same_alloc_state(
                final(self).fallback,
            ),
            !old(self).primary.blocks().contains_key(ptr) ==> final(self).fallback.blocks() == old(
                self,
            ).fallback.blocks().remove(ptr) && old(self).primary.same_alloc_state(
                final(self).primary,
            ),
    {
        proof {
            lemma_blocks_disjoint(&self.primary, &self.fallback);
            lemma_union_dom(old(self).primary.blocks(), old(self).fallback.blocks(), ptr);
            assert(old(self).blocks()[ptr] == if old(self).fallback.blocks().contains_key(ptr) {
                old(self).fallback.blocks()[ptr]
            } else {
                old(self).primary.blocks()[ptr]
            });
        }
        let owned = self.primary.owns(MemoryBlock { ptr, size: layout.size });
        let ghost primary_mid = self.primary;
        proof {
            old(self).primary.same_state_effects(primary_mid);
        }
        if owned {
            self.primary.deallocate(ptr, layout);
            proof {
                self.fallback.same_state_refl();
                lemma_union_remove_left(old(self).primary.blocks(), self.fallback.blocks(), ptr);
                assert(self.primary.blocks() == old(self).primary.blocks().remove(ptr));
            }
        } else {
            self.fallback.deallocate(ptr, layout);
            proof {
                lemma_union_remove_right(self.primary.blocks(), old(self).fallback.blocks(), ptr);
            }
        }
    }

    /// Grow within the owning allocator when possible; when the primary
    /// cannot and the caller allowed a move, migrate the block into the
    /// fallback.
    fn grow(
        &mut self,
        ptr: usize,
        layout: Layout,
        new_size: usize,
        placement: ReallocPlacement,
        init: AllocInit,
    ) -> (r: Result<MemoryBlock, AllocErr>)
        ensures
            old(self).primary.blocks().contains_key(ptr) && old(self).primary.can_grow(
                ptr,
                layout,
                new_size,
                placement,
            ) ==> (r is Ok && final(self).primary.blocks().contains_key((r->Ok_0).ptr) && old(
                self,
            ).fallback.same_alloc_state(final(self).fallback)),
            (old(self).primary.blocks().contains_key(ptr) && !old(self).primary.can_grow(
                ptr,
                layout,
                new_size,
                placement,
            ) && placement == ReallocPlacement::MayMove && old(self).fallback.can_alloc(
                (Layout { size: new_size, align: layout.align }),
            )) ==> (r is Ok && final(self).fallback.blocks().contains_key((r->Ok_0).ptr) && final(self).primary.blocks() == old(self).primary.blocks().remove(ptr)),
            (old(self).primary.blocks().contains_key(ptr) && !old(self).primary.can_grow(
                ptr,
                layout,
                new_size,
                placement,
            ) && placement == ReallocPlacement::InPlace) ==> (r is Err && old(
                self,
            ).same_alloc_state(*final(self))),
            !old(self).primary.blocks().contains_key(ptr) ==> old(self).primary.same_alloc_state(
                final(self).primary,
            ),
    {
        proof {
            lemma_blocks_disjoint(&self.primary, &self.fallback);
            lemma_union_dom(old(self).primary.blocks(), old(self).fallback.blocks(), ptr);
            assert(old(self).blocks()[ptr] == if old(self).fallback.blocks().contains_key(ptr) {
                old(self).fallback.blocks()[ptr]
            } else {
                old(self).primary.blocks()[ptr]
            });
        }
        let owned = self.primary.owns(MemoryBlock { ptr, size: layout.size });
        let ghost primary_mid = self.primary;
        proof {
            old(self).primary.same_state_effects(primary_mid);
        }
        if owned {
            let primary_result = self.primary.grow(ptr, layout, new_size, placement, init);
            match primary_result {
                Ok(memory) => {
                    proof {
                        self.fallback.same_state_refl();
                        lemma_blocks_disjoint(&self.primary, &self.fallback);
                        lemma_union_remove_left(
                            old(self).primary.blocks(),
                            self.fallback.blocks(),
                            ptr,
                        );
                        lemma_union_insert_left(
                            old(self).primary.blocks().remove(ptr),
                            self.fallback.blocks(),
                            memory.ptr,
                            self.primary.blocks()[memory.ptr],
                        );
                        assert(self.blocks()[memory.ptr] == self.primary.blocks()[memory.ptr]);
                        lemma_union_dom(
                            old(self).primary.blocks(),
                            old(self).fallback.blocks(),
                            memory.ptr,
                        );
                    }
                    Ok(memory)
                },
                Err(_) => {
                    proof {
                        old(self).primary.same_state_trans(primary_mid, self.primary);
                        old(self).primary.same_state_effects(self.primary);
                    }
                    let migrated = grow(
                        &mut self.primary,
                        &mut self.fallback,
                        ptr,
                        layout,
                        new_size,
                        placement,
                        init,
                    );
                    proof {
                        match migrated {
                            Ok(b) => {
                                lemma_blocks_disjoint(&self.primary, &self.fallback);
                                lemma_union_remove_left(
                                    old(self).primary.blocks(),
                                    old(self).fallback.blocks(),
                                    ptr,
                                );
                                lemma_union_insert_right(
                                    self.primary.blocks(),
                                    old(self).fallback.blocks(),
                                    b.ptr,
                                    self.fallback.blocks()[b.ptr],
                                );
                                assert(self.blocks()[b.ptr] == self.fallback.blocks()[b.ptr]);
                                lemma_union_dom(
                                    old(self).primary.blocks(),
                                    old(self).fallback.blocks(),
                                    b.ptr,
                                );
                            },
                            Err(_) => {
                                old(self).fallback.same_state_effects(self.fallback);
                            },
                        }
                    }
                    migrated
                },
            }
        } else {
            let fallback_result = self.fallback.grow(ptr, layout, new_size, placement, init);
            proof {
                match fallback_result {
                    Ok(b) => {
                        lemma_blocks_disjoint(&self.primary, &self.fallback);
                        lemma_union_remove_right(
                            self.primary.blocks(),
                            old(self).fallback.blocks(),
                            ptr,
                        );
                        lemma_union_insert_right(
                            self.primary.blocks(),
                            old(self).fallback.blocks().remove(ptr),
                            b.ptr,
                            self.fallback.blocks()[b.ptr],
                        );
                        assert(self.blocks()[b.ptr] == self.fallback.blocks()[b.ptr]);
                        lemma_union_dom(
                            old(self).primary.blocks(),
                            old(self).fallback.blocks(),
                            b.ptr,
                        );
                    },
                    Err(_) => {
                        old(self).fallback.same_state_effects(self.fallback);
                    },
                }
            }
            fallback_result
        }
    }

    /// Route by the primary's own ownership answer; shrinking never crosses
    /// from one allocator into the other.
    fn shrink(
        &mut self,
        ptr: usize,
        layout: Layout,
        new_size: usize,
        placement: ReallocPlacement,
    ) -> (r: Result<MemoryBlock, AllocErr>)
        ensures
            old(self).primary.blocks().contains_key(ptr) ==> old(self).fallback.same_alloc_state(
                final(self).fallback,
            ) && (r is Ok ==> final(self).primary.blocks().contains_key((r->Ok_0).ptr)),
            !old(self).primary.blocks().contains_key(ptr) ==> old(self).primary.same_alloc_state(
                final(self).primary,
            ) && (r is Ok ==> final(self).fallback.blocks().contains_key((r->Ok_0).ptr)),
    {
        proof {
            lemma_blocks_disjoint(&self.primary, &self.fallback);
            lemma_union_dom(old(self).primary.blocks(), old(self).fallback.blocks(), ptr);
            assert(old(self).blocks()[ptr] == if old(self).fallback.blocks().contains_key(ptr) {
                old(self).fallback.blocks()[ptr]
            } else {
                old(self).primary.blocks()[ptr]
            });
        }
        let owned = self.primary.owns(MemoryBlock { ptr, size: layout.size });
        let ghost primary_mid = self.primary;
        proof {
            old(self).primary.same_state_effects(primary_mid);
        }
        if owned {
            let primary_result = self.primary.shrink(ptr, layout, new_size, placement);
            proof {
                self.fallback.same_state_refl();
                match primary_result {
                    Ok(b) => {
                        lemma_blocks_disjoint(&self.primary, &self.fallback);
                        lemma_union_remove_left(
                            old(self).primary.blocks(),
                            self.fallback.blocks(),
                            ptr,
                        );
                        lemma_union_insert_left(
                            old(self).primary.blocks().remove(ptr),
                            self.fallback.blocks(),
                            b.ptr,
                            self.primary.blocks()[b.ptr],
                        );
                        assert(self.blocks()[b.ptr] == self.primary.blocks()[b.ptr]);
                        lemma_union_dom(
                            old(self).primary.blocks(),
                            old(self).fallback.blocks(),
                            b.ptr,
                        );
                    },
                    Err(_) => {
                        old(self).primary.same_state_trans(primary_mid, self.primary);
                        old(self).primary.same_state_effects(self.primary);
                    },
                }
            }
            primary_result
        } else {
            let fallback_result = self.fallback.shrink(ptr, layout, new_size, placement);
            proof {
                match fallback_result {
                    Ok(b) => {
                        lemma_blocks_disjoint(&self.primary, &self.fallback);
                        lemma_union_remove_right(
                            self.primary.blocks(),
                            old(self).fallback.blocks(),
                            ptr,
                        );
                        lemma_union_insert_right(
                            self.primary.blocks(),
                            old(self).fallback.blocks().remove(ptr),
                            b.ptr,
                            self.fallback.blocks()[b.ptr],
                        );
                        assert(self.blocks()[b.ptr] == self.fallback.blocks()[b.ptr]);
                        lemma_union_dom(
                            old(self).primary.blocks(),
                            old(self).fallback.blocks(),
                            b.ptr,
                        );
                    },
                    Err(_) => {
                        old(self).fallback.same_state_effects(self.fallback);
                    },
                }
            }
            fallback_result
        }
    }

    fn read(&mut self, ptr: usize, layout: Layout) -> (r: Vec<u8>) {
        proof {
            lemma_blocks_disjoint(&self.primary, &self.fallback);
            lemma_union_dom(old(self).primary.blocks(), old(self).fallback.blocks(), ptr);
            assert(old(self).blocks()[ptr] == if old(self).fallback.blocks().contains_key(ptr) {
                old(self).fallback.blocks()[ptr]
            } else {
                old(self).primary.blocks()[ptr]
            });
        }
        let owned = self.primary.owns(MemoryBlock { ptr, size: layout.size });
        let ghost primary_mid = self.primary;
        proof {
            old(self).primary.same_state_effects(primary_mid);
        }
        if owned {
            let out = self.primary.read(ptr, layout);
            proof {
                old(self).primary.same_state_trans(primary_mid, self.primary);
                self.fallback.same_state_refl();
            }
            out
        } else {
            let out = self.fallback.read(ptr, layout);
            out
        }
    }

    fn write(&mut self, ptr: usize, buf: &Vec<u8>) {
        proof {
            lemma_blocks_disjoint(&self.primary, &self.fallback);
            lemma_union_dom(old(self).primary.blocks(), old(self).fallback.blocks(), ptr);
            assert(old(self).blocks()[ptr] == if old(self).fallback.blocks().contains_key(ptr) {
                old(self).fallback.blocks()[ptr]
            } else {
                old(self).primary.blocks()[ptr]
            });
        }
        let owned = self.primary.owns(MemoryBlock { ptr, size: buf.len() });
        let ghost primary_mid = self.primary;
        proof {
            old(self).primary.same_state_effects(primary_mid);
        }
        if owned {
            self.primary.write(ptr, buf);
            proof {
                lemma_union_insert_left(
                    old(self).primary.blocks(),
                    self.fallback.blocks(),
                    ptr,
                    self.primary.blocks()[ptr],
                );
                assert(old(self).primary.blocks().insert(ptr, self.primary.blocks()[ptr])
                    =~= self.primary.blocks());
            }
        } else {
            self.fallback.write(ptr, buf);
            proof {
                lemma_union_insert_right(
                    self.primary.blocks(),
                    old(self).fallback.blocks(),
                    ptr,
                    self.fallback.blocks()[ptr],
                );
                assert(old(self).fallback.blocks().insert(ptr, self.fallback.blocks()[ptr])
                    =~= self.fallback.blocks());
            }
        }
    }
}

impl<Primary: AllocRef + Owns, Fallback: AllocRef + Owns> Owns for FallbackAlloc<
    Primary,
    Fallback,
> {
    /// The combinator owns a block exactly when one of its two inner
    /// allocators does.
    fn owns(&mut self, memory: MemoryBlock) -> (r: bool) {
        proof {
            lemma_union_dom(old(self).primary.blocks(), old(self).fallback.blocks(), memory.ptr);
        }
        let in_primary = self.primary.owns(memory);
        let ghost primary_mid = self.primary;
        proof {
            old(self).primary.same_state_effects(primary_mid);
        }
        if in_primary {
            proof {
                self.fallback.same_state_refl();
            }
            return true;
        }
        let in_fallback = self.fallback.owns(memory);
        proof {
            old(self).fallback.same_state_effects(self.fallback);
        }
        in_fallback
    }
}

} // verus!
