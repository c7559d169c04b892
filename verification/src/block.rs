//! The value types shared by every allocator: requested shapes, returned
//! blocks, and the flags that qualify an allocation or resize request.
use vstd::prelude::*;

verus! {

/// A requested memory shape: a size in bytes and an alignment.
///
/// A layout is well formed when its alignment is a power of two.
#[derive(Clone, Copy, PartialEq, Eq, Structural, Debug)]
pub struct Layout {
    pub size: usize,
    pub align: usize,
}

/// `n` is a power of two.
pub open spec fn is_pow2(n: nat) -> bool
    decreases n,
{
    if n == 0 {
        false
    } else if n == 1 {
        true
    } else {
        n % 2 == 0 && is_pow2(n / 2)
    }
}

impl Layout {
    pub open spec fn wf(self) -> bool {
        is_pow2(self.align as nat)
    }
}

/// A power of two is at least one.
pub proof fn lemma_pow2_pos(n: nat)
    requires
        is_pow2(n),
    ensures
        n >= 1,
{
    assert(!is_pow2(0));
}

/// A block handed out by an allocator: its start address and its usable size.
#[derive(Clone, Copy, PartialEq, Eq, Structural, Debug)]
pub struct MemoryBlock {
    pub ptr: usize,
    pub size: usize,
}

/// Whether newly exposed bytes must be zero-filled.
#[derive(Clone, Copy, PartialEq, Eq, Structural, Debug)]
pub enum AllocInit {
    Uninitialized,
    Zeroed,
}

/// Whether a resize operation may relocate the block (`MayMove`) or must
/// keep its address (`InPlace`).
#[derive(Clone, Copy, PartialEq, Eq, Structural, Debug)]
pub enum ReallocPlacement {
    InPlace,
    MayMove,
}

/// The single failure signal of this layer: the request could not be
/// satisfied.
#[derive(Clone, Copy, PartialEq, Eq, Structural, Debug)]
pub struct AllocErr;

/// The address `addr` respects the alignment `align`.
pub open spec fn is_aligned(addr: usize, align: usize) -> bool {
    align >= 1 && addr as int % align as int == 0
}

/// Every byte of `s` in `[from, to)` is zero.
pub open spec fn zeroed_range(s: Seq<u8>, from: int, to: int) -> bool {
    forall|i: int| from <= i < to ==> s[i] == 0
}

/// How far `a` must be advanced to reach the next multiple of `align`.
pub open spec fn align_pad(a: int, align: int) -> int {
    (align - a % align) % align
}

/// Advancing an address by its padding lands on an aligned address.
pub proof fn lemma_align_pad(a: int, align: int)
    requires
        align >= 1,
        a >= 0,
    ensures
        0 <= align_pad(a, align) < align,
        (a + align_pad(a, align)) % align == 0,
        align_pad(a, align) == if a % align == 0 {
            0int
        } else {
            align - a % align
        },
{
    let r = a % align;
    vstd::arithmetic::div_mod::lemma_fundamental_div_mod(a, align);
    assert(0 <= r < align);
    if r == 0 {
        vstd::arithmetic::div_mod::lemma_mod_self_0(align);
        assert(align_pad(a, align) == 0);
    } else {
        vstd::arithmetic::div_mod::lemma_small_mod((align - r) as nat, align as nat);
        assert(align_pad(a, align) == align - r);
        let q = a / align;
        assert(a + (align - r) == (q + 1) * align) by {
            assert(a == align * q + r);
            assert((q + 1) * align == q * align + align) by (nonlinear_arith);
            assert(align * q == q * align) by (nonlinear_arith);
        }
        vstd::arithmetic::div_mod::lemma_mod_multiples_basic(q + 1, align);
    }
}

} // verus!
