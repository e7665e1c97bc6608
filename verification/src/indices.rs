//! Validated positions within one storage element, and the span arithmetic
//! that extends a cursor by a number of bits.
//!
//! A [`BitIdx`] addresses a live bit inside one element: its value lies in
//! `[0, width)`. A [`BitTail`] is one past the last live bit in the last
//! touched element: a validated tail lies in `(0, width]`. The representation
//! also admits the value `0`, which arises only when a zero-length span
//! reinterprets its starting index as a tail.
//!
//! [`BitIdx::span`] is the single source of truth for every range-extending
//! computation in the crate: given a starting index and a bit count, it
//! returns the number of elements spanned and the tail position in the last
//! of them.

use vstd::arithmetic::div_mod::{
    lemma_div_is_ordered,
    lemma_div_pos_is_pos,
    lemma_fundamental_div_mod,
    lemma_mod_bound,
};
use vstd::prelude::*;

use crate::store::BitWidth;

verus! {

/// Number of elements touched by a run of `len` bits starting at bit `head`
/// of the first element, under elements of `w` bits.
pub open spec fn spec_span_elts(w: u64, head: u64, len: int) -> int
    recommends
        0 < w,
        head < w,
        0 <= len,
{
    if len == 0 {
        0
    } else {
        (head + len - 1) / (w as int) + 1
    }
}

/// Tail position in the last touched element for a run of `len` bits starting
/// at bit `head`, under elements of `w` bits. A zero-length run reinterprets
/// `head` itself as the tail.
pub open spec fn spec_span_tail(w: u64, head: u64, len: int) -> int
    recommends
        0 < w,
        head < w,
        0 <= len,
{
    if len == 0 {
        head as int
    } else {
        (head + len - 1) % (w as int) + 1
    }
}

/// Number of live bits governed by a descriptor of `elts` elements whose
/// first live bit is `head` and whose last touched element ends at `tail`.
pub open spec fn spec_ptr_len(w: u64, elts: int, head: u64, tail: int) -> int
    recommends
        0 < w,
        head < w,
        0 <= tail <= w,
{
    if elts == 0 {
        0
    } else {
        (elts - 1) * (w as int) + tail - head
    }
}

/// A validated semantic position of a live bit within one storage element.
#[derive(Clone, Copy, Debug)]
pub struct BitIdx {
    pub(crate) width: BitWidth,
    pub(crate) value: u8,
}

/// A validated position one past the last live bit within one storage
/// element, or the reinterpretation of a starting index by an empty span.
#[derive(Clone, Copy, Debug)]
pub struct BitTail {
    pub(crate) width: BitWidth,
    pub(crate) value: u8,
}

impl BitIdx {
    /// Every index addresses a bit strictly inside its element.
    #[verifier::type_invariant]
    pub closed spec fn inv(self) -> bool {
        (self.value as u64) < self.width.spec_bits()
    }

    /// The position this index addresses.
    pub closed spec fn spec_value(self) -> u64 {
        self.value as u64
    }

    /// The element width this index was validated against.
    pub closed spec fn spec_width(self) -> BitWidth {
        self.width
    }

    /// What validity means for an index: it lies strictly inside its element.
    pub proof fn bounds(self)
        requires
            self.inv(),
        ensures
            self.spec_value() < self.spec_width().spec_bits(),
    {
    }

    /// Validates `value` as a bit position inside an element of `width`:
    /// succeeds exactly when `value < width`.
    pub fn new(width: BitWidth, value: u8) -> (r: Option<BitIdx>)
        ensures
            r is Some <==> (value as u64) < width.spec_bits(),
            r matches Some(i) ==> i.spec_width() == width && i.spec_value() == value as u64,
    {
        if (value as u64) < width.bits() {
            Some(BitIdx { width, value })
        } else {
            None
        }
    }

    /// The position this index addresses.
    pub fn value(self) -> (r: u8)
        ensures
            r as u64 == self.spec_value(),
            (r as u64) < self.spec_width().spec_bits(),
    {
        proof {
            use_type_invariant(self);
        }
        self.value
    }

    /// The element width this index was validated against.
    pub fn width(self) -> (r: BitWidth)
        ensures
            r == self.spec_width(),
    {
        self.width
    }

    /// Extends this cursor by `len` bits: returns how many elements the run
    /// touches and the tail position in the last of them.
    pub fn span(self, len: usize) -> (r: (usize, BitTail))
        requires
            len <= usize::MAX - 63,
        ensures
            r.0 == spec_span_elts(self.spec_width().spec_bits(), self.spec_value(), len as int),
            r.1.spec_width() == self.spec_width(),
            r.1.spec_value() == spec_span_tail(
                self.spec_width().spec_bits(),
                self.spec_value(),
                len as int,
            ),
    {
        proof {
            use_type_invariant(self);
        }
        if len == 0 {
            (0, BitTail { width: self.width, value: self.value })
        } else {
            let w = self.width.bits() as usize;
            let last = self.value as usize + len - 1;
            let elts = last / w + 1;
            let tail = (last % w) as u8 + 1;
            proof {
                lemma_mod_bound(last as int, w as int);
                lemma_div_pos_is_pos(last as int, w as int);
            }
            (elts, BitTail { width: self.width, value: tail })
        }
    }
}

impl BitTail {
    /// A tail never lies beyond its element width.
    #[verifier::type_invariant]
    pub closed spec fn inv(self) -> bool {
        (self.value as u64) <= self.width.spec_bits()
    }

    /// The position one past the last live bit.
    pub closed spec fn spec_value(self) -> u64 {
        self.value as u64
    }

    /// The element width this tail was validated against.
    pub closed spec fn spec_width(self) -> BitWidth {
        self.width
    }

    /// What validity means for a tail: it lies at most at its element width.
    pub proof fn bounds(self)
        requires
            self.inv(),
        ensures
            self.spec_value() <= self.spec_width().spec_bits(),
    {
    }

    /// Validates `value` as a tail position for an element of `width`:
    /// succeeds exactly when `0 < value <= width`.
    pub fn new(width: BitWidth, value: u8) -> (r: Option<BitTail>)
        ensures
            r is Some <==> 0 < value as u64 <= width.spec_bits(),
            r matches Some(t) ==> t.spec_width() == width && t.spec_value() == value as u64,
    {
        if 0 < value && (value as u64) <= width.bits() {
            Some(BitTail { width, value })
        } else {
            None
        }
    }

    /// The position one past the last live bit.
    pub fn value(self) -> (r: u8)
        ensures
            r as u64 == self.spec_value(),
            (r as u64) <= self.spec_width().spec_bits(),
    {
        proof {
            use_type_invariant(self);
        }
        self.value
    }

    /// The element width this tail was validated against.
    pub fn width(self) -> (r: BitWidth)
        ensures
            r == self.spec_width(),
    {
        self.width
    }
}

/// Law: span is exact. A descriptor assembled from the parts that
/// `span(head, len)` returns governs exactly `len` live bits; a zero-length
/// run touches no element and reinterprets its start as the tail; a non-empty
/// run has a tail in `(0, width]`; and a run confined to one element keeps
/// its head strictly below its tail.
pub proof fn lemma_span_exact(w: u64, head: u64, len: int)
    requires
        0 < w,
        head < w,
        0 <= len,
    ensures
        spec_ptr_len(w, spec_span_elts(w, head, len), head, spec_span_tail(w, head, len)) == len,
        len == 0 ==> spec_span_elts(w, head, len) == 0 && spec_span_tail(w, head, len) == head,
        len > 0 ==> 1 <= spec_span_tail(w, head, len) <= w && spec_span_elts(w, head, len) >= 1,
        len > 0 && spec_span_elts(w, head, len) == 1 ==> head < spec_span_tail(w, head, len),
{
    if len > 0 {
        let last = head + len - 1;
        lemma_fundamental_div_mod(last, w as int);
        lemma_mod_bound(last, w as int);
        lemma_div_pos_is_pos(last, w as int);
        let q = last / (w as int);
        vstd::arithmetic::mul::lemma_mul_is_commutative(w as int, q);
        assert(q * (w as int) + last % (w as int) == last);
        assert(spec_span_elts(w, head, len) - 1 == q);
        if spec_span_elts(w, head, len) == 1 {
            assert(last / (w as int) == 0);
            assert(last == (w as int) * (last / (w as int)) + last % (w as int));
            assert((w as int) * 0 == 0);
            assert(last % (w as int) == last);
            assert(spec_span_tail(w, head, len) == head + len);
        }
    }
}

/// Span element counts grow with the bit count.
pub proof fn lemma_span_elts_monotonic(w: u64, head: u64, len1: int, len2: int)
    requires
        0 < w,
        head < w,
        0 <= len1 <= len2,
    ensures
        spec_span_elts(w, head, len1) <= spec_span_elts(w, head, len2),
{
    if 0 < len1 {
        lemma_div_is_ordered(head + len1 - 1, head + len2 - 1, w as int);
    } else if 0 < len2 {
        lemma_div_pos_is_pos(head + len2 - 1, w as int);
    }
}

} // verus!
