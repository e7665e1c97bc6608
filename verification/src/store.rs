//! Storage element capability description.
//!
//! A bit sequence lives inside a buffer of fixed-width unsigned integers. This
//! module enumerates the permitted element widths and supplies, for each, its
//! bit count, its byte count (the minimum alignment a base address must meet),
//! its "all bits false / all bits true" element values, and the width-specific
//! capacity ceilings that every descriptor must respect.
//!
//! Element values are carried as `u64` throughout the crate; a value backs a
//! narrower width when all bits at and above that width are zero.

use vstd::prelude::*;

verus! {

/// Greatest number of live bits any descriptor may govern, for every width.
pub const MAX_BITS: usize = usize::MAX / 8;

/// The closed set of permitted storage element widths.
#[derive(Clone, Copy, PartialEq, Eq, Structural, Debug)]
pub enum BitWidth {
    /// Eight-bit elements.
    W8,
    /// Sixteen-bit elements.
    W16,
    /// Thirty-two-bit elements.
    W32,
    /// Sixty-four-bit elements.
    W64,
}

/// Holds when the element value `e` uses no bit at or above position `w`.
pub open spec fn fits_width(e: u64, w: u64) -> bool {
    w == 64 || e >> w == 0
}

/// The element value whose low `w` bits are all ones and whose other bits are
/// all zeros.
pub open spec fn spec_mask_all(w: u64) -> u64
    recommends
        0 < w <= 64,
{
    if w == 64 {
        u64::MAX
    } else {
        ((1u64 << w) - 1) as u64
    }
}

impl BitWidth {
    /// Number of bits in one element of this width.
    pub open spec fn spec_bits(self) -> u64 {
        match self {
            BitWidth::W8 => 8,
            BitWidth::W16 => 16,
            BitWidth::W32 => 32,
            BitWidth::W64 => 64,
        }
    }

    /// Number of bits in one element of this width.
    #[verifier::when_used_as_spec(spec_bits)]
    pub fn bits(self) -> (r: u64)
        ensures
            r == self.spec_bits(),
            8 <= r <= 64,
    {
        match self {
            BitWidth::W8 => 8,
            BitWidth::W16 => 16,
            BitWidth::W32 => 32,
            BitWidth::W64 => 64,
        }
    }

    /// Number of bytes in one element: the minimum alignment for a base
    /// address under this width.
    pub open spec fn spec_bytes(self) -> u64 {
        self.spec_bits() / 8
    }

    /// Number of bytes in one element: the minimum alignment for a base
    /// address under this width.
    #[verifier::when_used_as_spec(spec_bytes)]
    pub fn bytes(self) -> (r: u64)
        ensures
            r == self.spec_bytes(),
            1 <= r <= 8,
    {
        match self {
            BitWidth::W8 => 1,
            BitWidth::W16 => 2,
            BitWidth::W32 => 4,
            BitWidth::W64 => 8,
        }
    }

    /// Greatest number of elements any descriptor of this width may span.
    pub open spec fn spec_max_elts(self) -> usize {
        (MAX_BITS / (self.spec_bits() as usize) + 1) as usize
    }

    /// Greatest number of elements any descriptor of this width may span.
    #[verifier::when_used_as_spec(spec_max_elts)]
    pub fn max_elts(self) -> (r: usize)
        ensures
            r == self.spec_max_elts(),
    {
        let b = self.bits() as usize;
        proof {
            lemma_max_room();
            vstd::arithmetic::div_mod::lemma_div_is_ordered_by_denominator(
                MAX_BITS as int,
                8,
                b as int,
            );
        }
        MAX_BITS / b + 1
    }

    /// Greatest number of live bits any descriptor of this width may govern.
    pub fn max_bits(self) -> (r: usize)
        ensures
            r == MAX_BITS,
    {
        MAX_BITS
    }

    /// The element value with every bit of this width at the given state:
    /// all ones for `true`, all zeros for `false`.
    pub fn filled(self, value: bool) -> (r: u64)
        ensures
            value ==> r == spec_mask_all(self.spec_bits()),
            !value ==> r == 0,
            fits_width(r, self.spec_bits()),
    {
        proof {
            lemma_mask_all_fits(self.spec_bits());
        }
        if value {
            let w = self.bits();
            if w == 64 {
                u64::MAX
            } else {
                proof {
                    assert(w < 64 ==> 1u64 << w >= 1) by (bit_vector);
                }
                (1u64 << w) - 1
            }
        } else {
            0
        }
    }
}

/// Whether the bit at electrical position `pos` of the element value `e` is
/// set.
pub open spec fn elem_bit(e: u64, pos: u64) -> bool {
    (e >> pos) & 1 == 1
}

/// Testing an element against a one-hot mask reads exactly the masked bit.
pub proof fn lemma_bit_test(e: u64, p: u64)
    by (bit_vector)
    requires
        p < 64,
    ensures
        ((e & (1u64 << p)) != 0) == elem_bit(e, p),
{
}

/// Setting one bit through a one-hot OR raises exactly that bit, leaves every
/// other bit alone, and keeps the value inside its width.
pub proof fn lemma_bit_set(e: u64, p: u64, w: u64)
    by (bit_vector)
    requires
        p < w <= 64,
        fits_width(e, w),
    ensures
        fits_width(e | (1u64 << p), w),
        elem_bit(e | (1u64 << p), p),
        forall|q: u64| q < 64 && q != p ==> elem_bit(e | (1u64 << p), q) == elem_bit(e, q),
{
}

/// Clearing one bit through a one-hot AND-NOT lowers exactly that bit, leaves
/// every other bit alone, and keeps the value inside its width.
pub proof fn lemma_bit_clear(e: u64, p: u64, w: u64)
    by (bit_vector)
    requires
        p < w <= 64,
        fits_width(e, w),
    ensures
        fits_width(e & !(1u64 << p), w),
        !elem_bit(e & !(1u64 << p), p),
        forall|q: u64| q < 64 && q != p ==> elem_bit(e & !(1u64 << p), q) == elem_bit(e, q),
{
}

/// Inverting one bit through a one-hot XOR flips exactly that bit, leaves
/// every other bit alone, and keeps the value inside its width.
pub proof fn lemma_bit_flip(e: u64, p: u64, w: u64)
    by (bit_vector)
    requires
        p < w <= 64,
        fits_width(e, w),
    ensures
        fits_width(e ^ (1u64 << p), w),
        elem_bit(e ^ (1u64 << p), p) == !elem_bit(e, p),
        forall|q: u64| q < 64 && q != p ==> elem_bit(e ^ (1u64 << p), q) == elem_bit(e, q),
{
}

/// Bitwise OR of two in-width values and bitwise AND with anything stay in
/// width.
pub proof fn lemma_mask_ops_fit(e: u64, m: u64, w: u64)
    by (bit_vector)
    requires
        w <= 64,
        fits_width(e, w),
    ensures
        fits_width(m, w) ==> fits_width(e | m, w),
        fits_width(e & m, w),
{
}

/// Headroom that the bit-length ceiling leaves in the machine's address
/// space, used to show that capacity arithmetic cannot overflow.
pub proof fn lemma_max_room()
    ensures
        MAX_BITS <= usize::MAX - 64,
        MAX_BITS / 8 + 1 <= usize::MAX / 8,
        MAX_BITS >= 536870911,
        forall|w: BitWidth| #[trigger] w.spec_max_elts() >= 8388608,
{
    let top = usize::MAX as int;
    let q = top / 8;
    vstd::arithmetic::div_mod::lemma_fundamental_div_mod(top, 8);
    vstd::arithmetic::div_mod::lemma_mod_bound(top, 8);
    assert(top >= 4294967295);
    assert(8 * q >= 4294967288);
    let p = q / 8;
    vstd::arithmetic::div_mod::lemma_fundamental_div_mod(q, 8);
    vstd::arithmetic::div_mod::lemma_mod_bound(q, 8);
    assert forall|w: BitWidth| #[trigger] w.spec_max_elts() >= 8388608 by {
        let wb = w.spec_bits() as int;
        vstd::arithmetic::div_mod::lemma_div_is_ordered(536870911, MAX_BITS as int, 64);
        vstd::arithmetic::div_mod::lemma_div_is_ordered_by_denominator(MAX_BITS as int, wb, 64);
        vstd::arithmetic::div_mod::lemma_fundamental_div_mod_converse(536870911, 64, 8388607, 63);
    }
}

/// A full complement of elements, one more than the greatest element count,
/// still holds no more bits than the machine can count.
pub proof fn lemma_max_elts_room(w: u64)
    requires
        8 <= w <= 64,
    ensures
        (MAX_BITS as int / w as int + 1) * w as int <= usize::MAX,
{
    let q = MAX_BITS as int / w as int;
    lemma_max_room();
    vstd::arithmetic::div_mod::lemma_fundamental_div_mod(MAX_BITS as int, w as int);
    vstd::arithmetic::div_mod::lemma_mod_bound(MAX_BITS as int, w as int);
    vstd::arithmetic::mul::lemma_mul_is_distributive_add_other_way(w as int, q, 1);
    vstd::arithmetic::mul::lemma_mul_is_commutative(q, w as int);
}

/// The all-ones value of a width fits that width, as does zero.
pub proof fn lemma_mask_all_fits(w: u64)
    requires
        0 < w <= 64,
    ensures
        fits_width(spec_mask_all(w), w),
        fits_width(0, w),
{
    assert(w < 64 ==> ((1u64 << w) - 1) as u64 >> w == 0) by (bit_vector);
    assert(0u64 >> w == 0) by (bit_vector);
}

} // verus!
