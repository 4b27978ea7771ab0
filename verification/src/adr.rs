//! Physical and virtual addresses.
use vstd::prelude::*;

use crate::layout::lemma_mask_is_multiple;
use crate::text::{hex_fixed, push_hex_fixed};
use vstd::arithmetic::power2::is_pow2;

verus! {

/// A physical address.
#[derive(Clone, Copy, Debug, PartialEq, Eq, Structural)]
pub struct PhysAdr(pub u64);

/// A virtual address.
#[derive(Clone, Copy, Debug, PartialEq, Eq, Structural)]
pub struct VirtAdr(pub u64);

/// `x` rounded up to a multiple of `align` by the bit arithmetic the
/// addresses use.
pub open spec fn ceil_bits(x: u64, align: usize) -> u64 {
    ((x + (align - 1)) as u64) & !((align - 1) as u64)
}

/// `x` rounded down to a multiple of `align` by the bit arithmetic the
/// addresses use.
pub open spec fn floor_bits(x: u64, align: usize) -> u64 {
    x & !((align - 1) as u64)
}

/// Rounding a value up to a power of two gives the least multiple at or above it.
pub proof fn lemma_ceil_bits(x: u64, align: usize)
    requires
        is_pow2(align as int),
        x + align - 1 <= u64::MAX,
    ensures
        ceil_bits(x, align) % (align as u64) == 0,
        x <= ceil_bits(x, align) < x + align,
{
    vstd::arithmetic::power2::lemma_pow2_pos(0);
    reveal(is_pow2);
    lemma_mask_is_multiple((x + (align - 1)) as u64, align as u64);
}

/// Rounding a value down to a power of two gives the greatest multiple at or below it.
pub proof fn lemma_floor_bits(x: u64, align: usize)
    requires
        is_pow2(align as int),
    ensures
        floor_bits(x, align) % (align as u64) == 0,
        floor_bits(x, align) <= x < floor_bits(x, align) + align,
{
    reveal(is_pow2);
    lemma_mask_is_multiple(x, align as u64);
}

/// A value is a multiple of a power of two exactly when its bits below it are clear.
pub proof fn lemma_aligned_bits(x: u64, align: usize)
    requires
        is_pow2(align as int),
    ensures
        (x & ((align - 1) as u64) == 0) == (x % (align as u64) == 0),
{
    reveal(is_pow2);
    lemma_mask_is_multiple(x, align as u64);
    let m: u64 = (align - 1) as u64;
    assert((x & !m) + (x & m) == x) by (bit_vector);
    let f = x & !m;
    assert(f % (align as u64) == 0);
    if x % (align as u64) == 0 {
        // both `x` and `f` are multiples below `align` apart
        assert(align > 0);
        assert((x as int) % (align as int) == 0);
        assert((f as int) % (align as int) == 0);
        assert((x - f) % (align as int) == 0) by {
            vstd::arithmetic::div_mod::lemma_sub_mod_noop(x as int, f as int, align as int);
            vstd::arithmetic::div_mod::lemma_small_mod(0, align as nat);
        }
        vstd::arithmetic::div_mod::lemma_small_mod((x - f) as nat, align as nat);
    } else {
        if x & m == 0 {
            assert(x == f);
        }
    }
}

impl PhysAdr {
    /// The address as text: `0x` and sixteen lower-case hexadecimal digits.
    pub open spec fn text(self) -> Seq<char> {
        "0x"@ + hex_fixed(self.0 as nat, 16, false)
    }

    /// The address as text: `0x` and sixteen lower-case hexadecimal digits.
    pub fn to_text(self) -> (r: String)
        ensures
            r@ == self.text(),
    {
        let mut out = String::from_str("0x");
        push_hex_fixed(&mut out, self.0, 16, false);
        out
    }

    /// The address `padr`.
    pub fn new(padr: u64) -> (r: Self)
        ensures
            r.0 == padr,
    {
        PhysAdr(padr)
    }

    /// The address as a number.
    pub fn adr(self) -> (r: u64)
        ensures
            r == self.0,
    {
        self.0
    }

    /// The null address.
    pub fn null() -> (r: Self)
        ensures
            r.0 == 0,
    {
        Self::new(0)
    }

    /// Whether this is the null address.
    pub fn is_null(self) -> (r: bool)
        ensures
            r == (self.0 == 0),
    {
        self.0 == 0
    }

    /// The address rounded up to `align`, a power of two.
    pub fn align_ceil(self, align: usize) -> (r: Self)
        requires
            is_pow2(align as int),
            self.0 + align - 1 <= u64::MAX,
        ensures
            r.0 == ceil_bits(self.0, align),
            r.0 % (align as u64) == 0,
            self.0 <= r.0 < self.0 + align,
    {
        proof {
            lemma_ceil_bits(self.0, align);
        }
        let mask = align as u64 - 1;
        PhysAdr((self.0 + mask) & !mask)
    }

    /// The address rounded down to `align`, a power of two.
    pub fn align_floor(self, align: usize) -> (r: Self)
        requires
            is_pow2(align as int),
        ensures
            r.0 == floor_bits(self.0, align),
            r.0 % (align as u64) == 0,
            r.0 <= self.0 < r.0 + align,
    {
        proof {
            lemma_floor_bits(self.0, align);
            reveal(is_pow2);
        }
        let mask = align as u64 - 1;
        PhysAdr(self.0 & !mask)
    }

    /// Whether the address is a multiple of `align`, a power of two.
    pub fn is_aligned(self, align: usize) -> (r: bool)
        requires
            is_pow2(align as int),
        ensures
            r == (self.0 % (align as u64) == 0),
    {
        proof {
            lemma_aligned_bits(self.0, align);
            reveal(is_pow2);
        }
        self.0 & (align as u64 - 1) == 0
    }

    /// The address with only the bits of `mask` kept.
    pub fn mask(self, mask: usize) -> (r: Self)
        ensures
            r.0 == ((self.0 as usize) & mask) as u64,
    {
        PhysAdr(((self.0 as usize) & mask) as u64)
    }

    /// The address `add` bytes higher.
    pub fn add(self, add: usize) -> (r: Self)
        requires
            (self.0 as usize) + add <= usize::MAX,
        ensures
            r.0 == ((self.0 as usize) + add) as u64,
    {
        PhysAdr(((self.0 as usize) + add) as u64)
    }

    /// The address `sub` bytes lower.
    pub fn sub(self, sub: usize) -> (r: Self)
        requires
            sub <= self.0 as usize,
        ensures
            r.0 == ((self.0 as usize) - sub) as u64,
    {
        PhysAdr(((self.0 as usize) - sub) as u64)
    }
}

impl VirtAdr {
    /// The address as text: `0x` and sixteen lower-case hexadecimal digits.
    pub open spec fn text(self) -> Seq<char> {
        "0x"@ + hex_fixed(self.0 as nat, 16, false)
    }

    /// The address as text: `0x` and sixteen lower-case hexadecimal digits.
    pub fn to_text(self) -> (r: String)
        ensures
            r@ == self.text(),
    {
        let mut out = String::from_str("0x");
        push_hex_fixed(&mut out, self.0, 16, false);
        out
    }

    /// The address `vadr`.
    pub fn new(vadr: u64) -> (r: Self)
        ensures
            r.0 == vadr,
    {
        VirtAdr(vadr)
    }

    /// The address as a number.
    pub fn adr(self) -> (r: u64)
        ensures
            r == self.0,
    {
        self.0
    }

    /// The null address.
    pub fn null() -> (r: Self)
        ensures
            r.0 == 0,
    {
        Self::new(0)
    }

    /// Whether this is the null address.
    pub fn is_null(self) -> (r: bool)
        ensures
            r == (self.0 == 0),
    {
        self.0 == 0
    }

    /// The address rounded up to `align`, a power of two.
    pub fn align_ceil(self, align: usize) -> (r: Self)
        requires
            is_pow2(align as int),
            self.0 + align - 1 <= u64::MAX,
        ensures
            r.0 == ceil_bits(self.0, align),
            r.0 % (align as u64) == 0,
            self.0 <= r.0 < self.0 + align,
    {
        proof {
            lemma_ceil_bits(self.0, align);
        }
        let mask = align as u64 - 1;
        VirtAdr((self.0 + mask) & !mask)
    }

    /// The address rounded down to `align`, a power of two.
    pub fn align_floor(self, align: usize) -> (r: Self)
        requires
            is_pow2(align as int),
        ensures
            r.0 == floor_bits(self.0, align),
            r.0 % (align as u64) == 0,
            r.0 <= self.0 < r.0 + align,
    {
        proof {
            lemma_floor_bits(self.0, align);
            reveal(is_pow2);
        }
        let mask = align as u64 - 1;
        VirtAdr(self.0 & !mask)
    }

    /// Whether the address is a multiple of `align`, a power of two.
    pub fn is_aligned(self, align: usize) -> (r: bool)
        requires
            is_pow2(align as int),
        ensures
            r == (self.0 % (align as u64) == 0),
    {
        proof {
            lemma_aligned_bits(self.0, align);
            reveal(is_pow2);
        }
        self.0 & (align as u64 - 1) == 0
    }

    /// The address with only the bits of `mask` kept.
    pub fn mask(self, mask: usize) -> (r: Self)
        ensures
            r.0 == ((self.0 as usize) & mask) as u64,
    {
        VirtAdr(((self.0 as usize) & mask) as u64)
    }

    /// The address `add` bytes higher.
    pub fn add(self, add: usize) -> (r: Self)
        requires
            (self.0 as usize) + add <= usize::MAX,
        ensures
            r.0 == ((self.0 as usize) + add) as u64,
    {
        VirtAdr(((self.0 as usize) + add) as u64)
    }

    /// The address `sub` bytes lower.
    pub fn sub(self, sub: usize) -> (r: Self)
        requires
            sub <= self.0 as usize,
        ensures
            r.0 == ((self.0 as usize) - sub) as u64,
    {
        VirtAdr(((self.0 as usize) - sub) as u64)
    }

    /// The physical address behind this address, given the page-table entry
    /// that maps its page: the frame's address plus the offset in the page,
    /// or `None` when there is no entry or it is not present.
    pub fn to_phys(self, entry: Option<PageEntry>) -> (r: Option<PhysAdr>)
        requires
            entry matches Some(e) ==> e.present ==> e.adr.0 + ((self.0 as usize) & 0xfff) as u64
                <= u64::MAX,
        ensures
            r == match entry {
                Some(e) => if e.present {
                    Some(PhysAdr((e.adr.0 + ((self.0 as usize) & 0xfff) as u64) as u64))
                } else {
                    None
                },
                None => None,
            },
    {
        match entry {
            Some(e) => {
                if e.present {
                    Some(PhysAdr::new(e.adr.adr() + self.mask(0xfff).adr()))
                } else {
                    None
                }
            },
            None => None,
        }
    }
}

/// A page-table entry as the lookup of a virtual address finds it: whether it
/// is present, and the address of the frame it maps.
#[derive(Clone, Copy, Debug, PartialEq, Eq, Structural)]
pub struct PageEntry {
    pub present: bool,
    pub adr: PhysAdr,
}

} // verus!
