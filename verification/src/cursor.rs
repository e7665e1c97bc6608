//! Bit-ordering strategies.
//!
//! A [`Cursor`] maps a semantic in-element bit position to the concrete
//! single-bit mask that controls it, and back. The mapping is a bijection
//! over `[0, width)`: every index yields a distinct one-hot mask, and every
//! one-hot mask of the width corresponds to exactly one index.
//!
//! Two strategies exist: [`Cursor::BigEndian`] counts from the most
//! significant bit down, and [`Cursor::LittleEndian`] counts from the least
//! significant bit up. [`LOCAL`] fixes the unconfigurable default; it is
//! documented as the little-endian strategy rather than inferred from the
//! host.

use vstd::prelude::*;

use crate::indices::BitIdx;
use crate::store::BitWidth;

verus! {

/// A stateless strategy that translates semantic bit positions into one-hot
/// element masks.
#[derive(Clone, Copy, PartialEq, Eq, Structural, Debug)]
pub enum Cursor {
    /// Semantic position `0` addresses the most significant bit.
    BigEndian,
    /// Semantic position `0` addresses the least significant bit.
    LittleEndian,
}

/// The fixed default ordering.
pub const LOCAL: Cursor = Cursor::LittleEndian;

impl Cursor {
    /// Electrical position controlled by semantic position `idx` in an
    /// element of `w` bits.
    pub open spec fn spec_at(self, w: u64, idx: u64) -> u64
        recommends
            idx < w,
            w <= 64,
    {
        match self {
            Cursor::BigEndian => (w - 1 - idx) as u64,
            Cursor::LittleEndian => idx,
        }
    }

    /// One-hot mask controlled by semantic position `idx` in an element of
    /// `w` bits.
    pub open spec fn spec_mask(self, w: u64, idx: u64) -> u64
        recommends
            idx < w,
            w <= 64,
    {
        1u64 << self.spec_at(w, idx)
    }

    /// Electrical position controlled by the validated index `place`.
    pub fn at(self, place: BitIdx) -> (r: u64)
        ensures
            r == self.spec_at(place.spec_width().spec_bits(), place.spec_value()),
            r < place.spec_width().spec_bits(),
    {
        let w = place.width().bits();
        match self {
            Cursor::BigEndian => w - 1 - place.value() as u64,
            Cursor::LittleEndian => place.value() as u64,
        }
    }

    /// One-hot mask controlled by the validated index `place`.
    pub fn mask(self, place: BitIdx) -> (r: u64)
        ensures
            r == self.spec_mask(place.spec_width().spec_bits(), place.spec_value()),
    {
        let pos = self.at(place);
        1u64 << pos
    }

    /// Recovers the semantic index controlling `mask`, used for diagnostics:
    /// succeeds exactly when `mask` is the one-hot mask of some in-range
    /// index under this strategy.
    pub fn place_of(self, width: BitWidth, mask: u64) -> (r: Option<BitIdx>)
        ensures
            r is Some <==> exists|i: u64|
                i < width.spec_bits() && self.spec_mask(width.spec_bits(), i) == mask,
            r matches Some(p) ==> p.spec_width() == width && self.spec_mask(
                width.spec_bits(),
                p.spec_value(),
            ) == mask,
    {
        let w = width.bits();
        let mut v: u8 = 0;
        while (v as u64) < w
            invariant
                v as u64 <= w,
                w == width.spec_bits(),
                forall|i: u64| i < v as u64 ==> self.spec_mask(w, i) != mask,
            decreases w - v as u64,
        {
            let place = BitIdx::new(width, v).unwrap();
            if self.mask(place) == mask {
                return Some(place);
            }
            v = v + 1;
        }
        None
    }
}

/// Law: every in-range index yields a mask with exactly one bit set, namely
/// the bit at the strategy's electrical position for that index.
pub proof fn lemma_mask_one_hot(o: Cursor, w: u64, idx: u64)
    requires
        idx < w,
        w <= 64,
    ensures
        o.spec_at(w, idx) < w,
        forall|j: u64|
            j < 64 ==> (((#[trigger] (o.spec_mask(w, idx) >> j)) & 1 == 1) <==> j == o.spec_at(
                w,
                idx,
            )),
{
    let p = o.spec_at(w, idx);
    assert forall|j: u64| j < 64 implies (((1u64 << p) >> j) & 1 == 1) <==> j == p by {
        assert(p < 64 && j < 64 ==> ((((1u64 << p) >> j) & 1 == 1) <==> j == p))
            by (bit_vector);
    }
}

/// Law: the index-to-mask mapping is injective over `[0, width)`.
pub proof fn lemma_mask_injective(o: Cursor, w: u64, idx1: u64, idx2: u64)
    requires
        idx1 < w,
        idx2 < w,
        w <= 64,
        idx1 != idx2,
    ensures
        o.spec_mask(w, idx1) != o.spec_mask(w, idx2),
{
    let p1 = o.spec_at(w, idx1);
    let p2 = o.spec_at(w, idx2);
    assert(p1 < 64 && p2 < 64 && p1 != p2 ==> (1u64 << p1) != (1u64 << p2)) by (bit_vector);
}

} // verus!
