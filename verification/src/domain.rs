//! Classification of a live bit range into bulk-dispatch shapes.
//!
//! A [`BitDomain`] is a transient, pure classification of a descriptor's live
//! range into exactly one of six shapes, computed fresh from the descriptor
//! and the touched elements on each use and discarded afterwards. Consumers
//! apply whole-element bulk operations to the fully live parts and restrict
//! per-bit work to the partial edge elements, bounding bit-level work to the
//! edges.
//!
//! The tie-break for a single touched element that reaches neither edge is
//! load-bearing: it is always `Minor`, never a `Major` with an empty interior
//! nor a simultaneous `PartialHead`/`PartialTail`, so dispatch logic knows
//! that no interior pass is needed at all.

use vstd::prelude::*;
use vstd::slice::{slice_index_get, slice_subrange};

use crate::indices::{BitIdx, BitTail};
use crate::pointer::BitPtr;

verus! {

/// The state of a live bit range within its touched elements.
///
/// Each variant borrows the touched elements, split into the partial edges
/// and the fully live middle that its shape calls for.
pub enum BitDomain<'a> {
    /// No live bits: nothing to do.
    Empty,
    /// One touched element, live at neither edge: the head index, the
    /// element, and the tail index.
    Minor(BitIdx, &'a u64, BitTail),
    /// At least two touched elements, live at neither outer edge: the head
    /// index, the partial first element, the fully live interior (possibly
    /// empty), the partial last element, and the tail index.
    Major(BitIdx, &'a u64, &'a [u64], &'a u64, BitTail),
    /// The first element is partial, everything after it is fully live: the
    /// head index, the partial first element, and the fully live rest
    /// (possibly empty).
    PartialHead(BitIdx, &'a u64, &'a [u64]),
    /// Everything before the last element is fully live, the last element is
    /// partial: the fully live front (possibly empty), the partial last
    /// element, and the tail index.
    PartialTail(&'a [u64], &'a u64, BitTail),
    /// Every touched element is fully live: safe for whole-element bulk
    /// operations.
    Spanning(&'a [u64]),
}

impl<'a> BitDomain<'a> {
    /// The touched elements reassembled from this shape's parts, in order.
    pub open spec fn parts(self) -> Seq<u64> {
        match self {
            BitDomain::Empty => Seq::<u64>::empty(),
            BitDomain::Minor(_, e, _) => seq![*e],
            BitDomain::Major(_, h, b, t, _) => seq![*h] + b@ + seq![*t],
            BitDomain::PartialHead(_, h, r) => seq![*h] + r@,
            BitDomain::PartialTail(r, t, _) => r@ + seq![*t],
            BitDomain::Spanning(s) => s@,
        }
    }

    /// Tests if the shape is `Empty`.
    pub fn is_empty(&self) -> (r: bool)
        ensures
            r == (self is Empty),
    {
        matches!(self, BitDomain::Empty)
    }

    /// Tests if the shape is `Minor`.
    pub fn is_minor(&self) -> (r: bool)
        ensures
            r == (self is Minor),
    {
        matches!(self, BitDomain::Minor(..))
    }

    /// Tests if the shape is `Major`.
    pub fn is_major(&self) -> (r: bool)
        ensures
            r == (self is Major),
    {
        matches!(self, BitDomain::Major(..))
    }

    /// Tests if the shape is `PartialHead`.
    pub fn is_partial_head(&self) -> (r: bool)
        ensures
            r == (self is PartialHead),
    {
        matches!(self, BitDomain::PartialHead(..))
    }

    /// Tests if the shape is `PartialTail`.
    pub fn is_partial_tail(&self) -> (r: bool)
        ensures
            r == (self is PartialTail),
    {
        matches!(self, BitDomain::PartialTail(..))
    }

    /// Tests if the shape is `Spanning`.
    pub fn is_spanning(&self) -> (r: bool)
        ensures
            r == (self is Spanning),
    {
        matches!(self, BitDomain::Spanning(..))
    }
}

impl BitPtr {
    /// No live bits.
    pub open spec fn is_empty_shape(self) -> bool {
        self.spec_elts() == 0
    }

    /// Every touched element fully live, for any positive element count.
    pub open spec fn is_spanning_shape(self) -> bool {
        &&& self.spec_elts() > 0
        &&& self.spec_head_value() == 0
        &&& self.spec_tail_value() == self.spec_width().spec_bits()
    }

    /// First element partial, remaining elements fully live.
    pub open spec fn is_partial_head_shape(self) -> bool {
        &&& self.spec_elts() > 0
        &&& self.spec_head_value() > 0
        &&& self.spec_tail_value() == self.spec_width().spec_bits()
    }

    /// All but the last element fully live, last element partial.
    pub open spec fn is_partial_tail_shape(self) -> bool {
        &&& self.spec_elts() > 0
        &&& self.spec_head_value() == 0
        &&& self.spec_tail_value() < self.spec_width().spec_bits()
    }

    /// Exactly one touched element, live at neither edge.
    pub open spec fn is_minor_shape(self) -> bool {
        &&& self.spec_elts() == 1
        &&& self.spec_head_value() > 0
        &&& self.spec_tail_value() < self.spec_width().spec_bits()
    }

    /// At least two touched elements, both outer edges partial.
    pub open spec fn is_major_shape(self) -> bool {
        &&& self.spec_elts() >= 2
        &&& self.spec_head_value() > 0
        &&& self.spec_tail_value() < self.spec_width().spec_bits()
    }

    /// Classifies this descriptor's live range over its touched elements
    /// into exactly one shape. The parts of the produced shape reassemble
    /// exactly the touched elements.
    pub fn domain<'a>(&self, elems: &'a [u64]) -> (r: BitDomain<'a>)
        requires
            elems@.len() == self.spec_elts(),
        ensures
            r.parts() == elems@,
            (r is Empty <==> self.is_empty_shape()),
            (r is Spanning <==> self.is_spanning_shape()),
            (r is PartialHead <==> self.is_partial_head_shape()),
            (r is PartialTail <==> self.is_partial_tail_shape()),
            (r is Minor <==> self.is_minor_shape()),
            (r is Major <==> self.is_major_shape()),
            r matches BitDomain::Minor(h, e, t) ==> h == self.spec_head() && *e == elems@[0]
                && t.spec_value() == self.spec_tail_value(),
            r matches BitDomain::Major(h, hd, b, tl, t) ==> h == self.spec_head() && *hd
                == elems@[0] && b@ == elems@.subrange(1, elems@.len() - 1) && *tl == elems@[
                elems@.len() - 1
            ] && t.spec_value() == self.spec_tail_value(),
            r matches BitDomain::PartialHead(h, hd, rest) ==> h == self.spec_head() && *hd
                == elems@[0] && rest@ == elems@.subrange(1, elems@.len() as int),
            r matches BitDomain::PartialTail(rest, tl, t) ==> rest@ == elems@.subrange(
                0,
                elems@.len() - 1,
            ) && *tl == elems@[elems@.len() - 1] && t.spec_value() == self.spec_tail_value(),
            r matches BitDomain::Spanning(s) ==> s@ == elems@,
    {
        proof {
            use_type_invariant(self);
            self.bounds();
        }
        let w = self.head().width().bits();
        let h = self.head().value() as u64;
        let t = self.tail().value() as u64;
        let e = self.elements();
        let n = elems.len();
        if e == 0 {
            BitDomain::Empty
        } else if h == 0 && t == w {
            BitDomain::Spanning(elems)
        } else if t == w {
            let first = slice_index_get(elems, 0);
            let rest = slice_subrange(elems, 1, n);
            let r = BitDomain::PartialHead(self.head(), first, rest);
            proof {
                assert(r.parts() =~= elems@);
            }
            r
        } else if h == 0 {
            let last = slice_index_get(elems, n - 1);
            let front = slice_subrange(elems, 0, n - 1);
            let r = BitDomain::PartialTail(front, last, self.tail());
            proof {
                assert(r.parts() =~= elems@);
            }
            r
        } else if e == 1 {
            let only = slice_index_get(elems, 0);
            let r = BitDomain::Minor(self.head(), only, self.tail());
            proof {
                assert(r.parts() =~= elems@);
            }
            r
        } else {
            let first = slice_index_get(elems, 0);
            let last = slice_index_get(elems, n - 1);
            let body = slice_subrange(elems, 1, n - 1);
            let r = BitDomain::Major(self.head(), first, body, last, self.tail());
            proof {
                assert(r.parts() =~= elems@);
            }
            r
        }
    }
}

/// Law: the six shapes are exhaustive and mutually exclusive. Every valid
/// descriptor satisfies exactly one of the shape conditions, so
/// classification never faces a tie and never misses a case.
pub proof fn lemma_domain_partition(p: BitPtr)
    requires
        p.inv(),
    ensures
        p.is_empty_shape() || p.is_spanning_shape() || p.is_partial_head_shape()
            || p.is_partial_tail_shape() || p.is_minor_shape() || p.is_major_shape(),
        !(p.is_empty_shape() && p.is_spanning_shape()),
        !(p.is_empty_shape() && p.is_partial_head_shape()),
        !(p.is_empty_shape() && p.is_partial_tail_shape()),
        !(p.is_empty_shape() && p.is_minor_shape()),
        !(p.is_empty_shape() && p.is_major_shape()),
        !(p.is_spanning_shape() && p.is_partial_head_shape()),
        !(p.is_spanning_shape() && p.is_partial_tail_shape()),
        !(p.is_spanning_shape() && p.is_minor_shape()),
        !(p.is_spanning_shape() && p.is_major_shape()),
        !(p.is_partial_head_shape() && p.is_partial_tail_shape()),
        !(p.is_partial_head_shape() && p.is_minor_shape()),
        !(p.is_partial_head_shape() && p.is_major_shape()),
        !(p.is_partial_tail_shape() && p.is_minor_shape()),
        !(p.is_partial_tail_shape() && p.is_major_shape()),
        !(p.is_minor_shape() && p.is_major_shape()),
{
    p.bounds();
}

} // verus!
