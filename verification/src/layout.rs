//! Size and alignment of a memory request.
use vstd::prelude::*;

use vstd::arithmetic::power2::is_pow2;
use vstd::layout::valid_layout;
use vstd::arithmetic::power2::{pow2, lemma_pow2_pos};
use vstd::arithmetic::div_mod::{lemma_fundamental_div_mod, lemma_mod_multiples_basic, lemma_mod_pos_bound};
use vstd::bits::{lemma_u64_pow2_no_overflow, lemma_u64_shl_is_mul, lemma_u64_shr_is_div};

verus! {

/// A size in bytes and a power-of-two alignment, with the size rounded up to
/// the alignment no larger than `isize::MAX`.
#[derive(Clone, Copy, Debug, PartialEq, Eq, Structural)]
pub struct Layout {
    size: usize,
    align: usize,
}

/// `a` is a power of two below `2^64` exactly when it is `1 << k` for some `k < 64`.
pub proof fn lemma_pow2_is_shift(a: u64)
    requires
        is_pow2(a as int),
    ensures
        exists|k: u64| k < 64 && a == #[trigger] (1u64 << k),
    decreases a,
{
    reveal(is_pow2);
    if a == 1 {
        assert(1u64 == (1u64 << 0u64)) by (bit_vector);
    } else {
        let m: u64 = a / 2;
        lemma_pow2_is_shift(m);
        let k = choose|k: u64| k < 64 && m == #[trigger] (1u64 << k);
        assert(k < 63) by {
            if k == 63 {
                assert((1u64 << 63u64) == 0x8000_0000_0000_0000u64) by (bit_vector);
            }
        }
        assert((1u64 << k) * 2 == (1u64 << ((k + 1) as u64))) by (bit_vector)
            requires
                k < 63,
        ;
        assert(a == (1u64 << ((k + 1) as u64)));
    }
}

/// Clearing the low bits of a power of two leaves a multiple of it.
pub proof fn lemma_mask_is_multiple(x: u64, a: u64)
    requires
        is_pow2(a as int),
    ensures
        (x & !((a - 1) as u64)) % a == 0,
        x - (x & !((a - 1) as u64)) < a,
        (x & !((a - 1) as u64)) <= x,
{
    lemma_pow2_is_shift(a);
    let k = choose|k: u64| k < 64 && a == #[trigger] (1u64 << k);
    assert((x & !(((1u64 << k) - 1) as u64)) == ((x >> k) << k)) by (bit_vector)
        requires
            k < 64,
    ;
    let p = pow2(k as nat);
    lemma_u64_pow2_no_overflow(k as nat);
    lemma_u64_shl_is_mul(1, k);
    lemma_u64_shr_is_div(x, k);
    lemma_pow2_pos(k as nat);
    lemma_fundamental_div_mod(x as int, p as int);
    let q: u64 = x >> k;
    assert(q * p <= x) by {
        lemma_mod_pos_bound(x as int, p as int);
    }
    lemma_u64_shl_is_mul(q, k);
    lemma_mod_multiples_basic(q as int, p as int);
    lemma_mod_pos_bound(x as int, p as int);
}

/// Whether `align` is a power of two.
fn is_power_of_two(align: usize) -> (r: bool)
    ensures
        r == is_pow2(align as int),
{
    if align == 0 {
        proof {
            reveal(is_pow2);
        }
        return false;
    }
    let mut a = align;
    while a > 1 && a % 2 == 0
        invariant
            a > 0,
            is_pow2(align as int) == is_pow2(a as int),
        decreases a,
    {
        proof {
            reveal(is_pow2);
        }
        a = a / 2;
    }
    proof {
        reveal(is_pow2);
    }
    a == 1
}

impl Layout {
    #[verifier::type_invariant]
    spec fn inv(self) -> bool {
        valid_layout(self.size, self.align)
    }

    pub closed spec fn spec_size(&self) -> usize {
        self.size
    }

    pub closed spec fn spec_align(&self) -> usize {
        self.align
    }

    /// The size in bytes.
    #[verifier::when_used_as_spec(spec_size)]
    pub fn size(&self) -> (r: usize)
        ensures
            r == self.spec_size(),
    {
        self.size
    }

    /// The alignment.
    #[verifier::when_used_as_spec(spec_align)]
    pub fn align(&self) -> (r: usize)
        ensures
            r == self.spec_align(),
            is_pow2(r as int),
            r > 0,
            valid_layout(self.spec_size(), r),
    {
        proof {
            use_type_invariant(self);
            reveal(is_pow2);
        }
        self.align
    }

    /// The layout of `size` bytes aligned to `align`, if `align` is a power of
    /// two and `size` rounded up to it does not exceed `isize::MAX`.
    pub fn from_size_align(size: usize, align: usize) -> (r: Option<Layout>)
        ensures
            r is Some <==> valid_layout(size, align),
            r matches Some(l) ==> l.size() == size && l.align() == align,
    {
        if !is_power_of_two(align) {
            return None;
        }
        proof {
            reveal(is_pow2);
        }
        let imax: usize = isize::MAX as usize;
        assert(imax % align <= imax) by (nonlinear_arith)
            requires
                align > 0,
        ;
        let max: usize = imax - (imax % align);
        if size > max {
            return None;
        }
        Some(Layout { size, align })
    }

    /// The layout of a value of type `T`.
    pub fn new<T>() -> (r: Layout)
        ensures
            r.size() == vstd::layout::size_of::<T>(),
            r.align() == vstd::layout::align_of::<T>(),
    {
        vstd::layout::layout_for_type_is_valid::<T>();
        Layout { size: core::mem::size_of::<T>(), align: core::mem::align_of::<T>() }
    }
}

} // verus!
