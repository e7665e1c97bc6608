//! The compressed span descriptor.
//!
//! A [`BitPtr`] stands in for a pointer-and-length pair while carrying the
//! sub-element cursor metadata of a live bit range: a base address, the
//! number of touched elements, the head index of the first live bit in the
//! first element, and the tail one past the last live bit in the last
//! element. It never owns the memory it describes; the owning collection
//! allocates and frees.
//!
//! Every constructor and mutator validates its inputs against the width's
//! capacity ceilings and either succeeds exactly as stated or reports the
//! violated rule; nothing is clamped or wrapped silently.

use vstd::arithmetic::div_mod::lemma_fundamental_div_mod_converse;
use vstd::prelude::*;

use crate::indices::{
    spec_ptr_len,
    spec_span_elts,
    spec_span_tail,
    lemma_span_exact,
    lemma_span_elts_monotonic,
    BitIdx,
    BitTail,
};
use crate::store::{BitWidth, MAX_BITS};

verus! {

/// The rule a rejected descriptor construction or mutation violated.
#[derive(Clone, Copy, PartialEq, Eq, Structural, Debug)]
pub enum BitPtrError {
    /// The base address was zero.
    Null,
    /// The base address did not meet the width's element alignment.
    Misaligned,
    /// The span would touch more elements than the width permits.
    TooManyElements,
    /// The span would govern more live bits than any width permits.
    TooLong,
}

/// A non-owning descriptor of a contiguous run of live bits across one or
/// more storage elements.
#[derive(Clone, Copy, Debug)]
pub struct BitPtr {
    pub(crate) base: usize,
    pub(crate) elts: usize,
    pub(crate) head: BitIdx,
    pub(crate) tail: BitTail,
}

impl BitPtr {
    /// Representation invariant: the cursors agree on the element width and
    /// sit inside it, the base address is a non-null multiple of the element
    /// size, the counts respect the width's ceilings, a populated descriptor
    /// has a live tail, and a single-element descriptor keeps its head
    /// strictly below its tail.
    #[verifier::type_invariant]
    pub closed spec fn inv(self) -> bool {
        let w = self.head.spec_width().spec_bits();
        &&& self.tail.spec_width() == self.head.spec_width()
        &&& self.head.spec_value() < w
        &&& self.tail.spec_value() <= w
        &&& self.base != 0
        &&& self.base as int % (self.head.spec_width().spec_bytes() as int) == 0
        &&& self.elts <= self.head.spec_width().spec_max_elts()
        &&& self.spec_len() <= MAX_BITS
        &&& self.elts == 0 ==> self.tail.spec_value() == self.head.spec_value()
        &&& self.elts >= 1 ==> self.tail.spec_value() >= 1
        &&& self.elts == 1 ==> self.head.spec_value() < self.tail.spec_value()
    }

    /// The element width this descriptor was built for.
    pub closed spec fn spec_width(self) -> BitWidth {
        self.head.spec_width()
    }

    /// The base address of the first touched element.
    pub closed spec fn spec_base(self) -> usize {
        self.base
    }

    /// Number of touched elements.
    pub closed spec fn spec_elts(self) -> usize {
        self.elts
    }

    /// The head cursor.
    pub closed spec fn spec_head(self) -> BitIdx {
        self.head
    }

    /// Position of the first live bit in the first touched element.
    pub closed spec fn spec_head_value(self) -> u64 {
        self.head.spec_value()
    }

    /// Position one past the last live bit in the last touched element.
    pub closed spec fn spec_tail_value(self) -> u64 {
        self.tail.spec_value()
    }

    /// Number of live bits this descriptor governs.
    pub closed spec fn spec_len(self) -> int {
        spec_ptr_len(
            self.head.spec_width().spec_bits(),
            self.elts as int,
            self.head.spec_value(),
            self.tail.spec_value() as int,
        )
    }

    /// Builds a descriptor over `bits` live bits that start at index `head`
    /// of the element at address `base`. Fails exactly when `base` is null,
    /// when `base` misses the width's element alignment, when `bits` exceeds
    /// the bit ceiling, or when the implied element count exceeds the element
    /// ceiling; the checks apply in that order.
    pub fn new(base: usize, head: BitIdx, bits: usize) -> (r: Result<BitPtr, BitPtrError>)
        ensures
            ({
                let w = head.spec_width().spec_bits();
                let aligned = base as int % (head.spec_width().spec_bytes() as int) == 0;
                let elts = spec_span_elts(w, head.spec_value(), bits as int);
                &&& (base == 0 ==> r == Err::<BitPtr, BitPtrError>(BitPtrError::Null))
                &&& (base != 0 && !aligned ==> r == Err::<BitPtr, BitPtrError>(
                    BitPtrError::Misaligned,
                ))
                &&& (base != 0 && aligned && bits > MAX_BITS ==> r == Err::<BitPtr, BitPtrError>(
                    BitPtrError::TooLong,
                ))
                &&& (base != 0 && aligned && bits <= MAX_BITS && elts > head.spec_width(
                ).spec_max_elts() ==> r == Err::<BitPtr, BitPtrError>(BitPtrError::TooManyElements))
                &&& (r is Ok <==> base != 0 && aligned && bits <= MAX_BITS && elts
                    <= head.spec_width().spec_max_elts())
                &&& (r matches Ok(p) ==> {
                    &&& p.spec_base() == base
                    &&& p.spec_head() == head
                    &&& p.spec_head_value() == head.spec_value()
                    &&& p.spec_width() == head.spec_width()
                    &&& p.spec_len() == bits
                    &&& p.spec_elts() == elts
                    &&& p.spec_tail_value() == spec_span_tail(w, head.spec_value(), bits as int)
                })
            }),
    {
        let width = head.width();
        if base == 0 {
            return Err(BitPtrError::Null);
        }
        if base % (width.bytes() as usize) != 0 {
            return Err(BitPtrError::Misaligned);
        }
        if bits > MAX_BITS {
            return Err(BitPtrError::TooLong);
        }
        let (elts, tail) = head.span(bits);
        if elts > width.max_elts() {
            return Err(BitPtrError::TooManyElements);
        }
        proof {
            use_type_invariant(head);
            head.bounds();
            use_type_invariant(tail);
            tail.bounds();
            crate::store::lemma_max_room();
            lemma_span_exact(width.spec_bits(), head.spec_value(), bits as int);
        }
        Ok(BitPtr { base, elts, head, tail })
    }

    /// The canonical zero-length descriptor of a width, safe to hold without
    /// any backing allocation: its base is the width's own alignment.
    pub fn empty(width: BitWidth) -> (r: BitPtr)
        ensures
            r.spec_width() == width,
            r.spec_len() == 0,
            r.spec_elts() == 0,
            r.spec_head_value() == 0,
            r.spec_tail_value() == 0,
            r.spec_base() == width.spec_bytes(),
    {
        let head = BitIdx::new(width, 0).unwrap();
        let (elts, tail) = head.span(0);
        let base = width.bytes() as usize;
        proof {
            vstd::arithmetic::div_mod::lemma_mod_self_0(base as int);
        }
        BitPtr { base, elts, head, tail }
    }

    /// The base address of the first touched element.
    pub fn pointer(&self) -> (r: usize)
        ensures
            r == self.spec_base(),
            r != 0,
            r as int % (self.spec_width().spec_bytes() as int) == 0,
    {
        proof {
            use_type_invariant(self);
        }
        self.base
    }

    /// The head cursor: position of the first live bit in the first touched
    /// element.
    pub fn head(&self) -> (r: BitIdx)
        ensures
            r == self.spec_head(),
            r.spec_value() == self.spec_head_value(),
            r.spec_width() == self.spec_width(),
    {
        self.head
    }

    /// The tail cursor: position one past the last live bit in the last
    /// touched element.
    pub fn tail(&self) -> (r: BitTail)
        ensures
            r.spec_value() == self.spec_tail_value(),
            r.spec_width() == self.spec_width(),
    {
        proof {
            use_type_invariant(self);
        }
        self.tail
    }

    /// Number of touched elements.
    pub fn elements(&self) -> (r: usize)
        ensures
            r == self.spec_elts(),
    {
        self.elts
    }

    /// Number of live bits governed: the total implied by the element count,
    /// head, and tail.
    pub fn len(&self) -> (r: usize)
        ensures
            r == self.spec_len(),
            r <= MAX_BITS,
    {
        proof {
            use_type_invariant(self);
            crate::store::lemma_max_room();
            if self.elts >= 2 {
                vstd::arithmetic::mul::lemma_mul_inequality(
                    1,
                    self.elts - 1,
                    self.spec_width().spec_bits() as int,
                );
            }
        }
        if self.elts == 0 {
            0
        } else {
            let w = self.head.width().bits() as usize;
            (self.elts - 1) * w + self.tail.value() as usize - self.head.value() as usize
        }
    }

    /// Whether this descriptor governs no live bits.
    pub fn is_empty(&self) -> (r: bool)
        ensures
            r == (self.spec_len() == 0),
    {
        proof {
            use_type_invariant(self);
            self.lemma_len_zero();
        }
        self.elts == 0
    }

    /// A descriptor governs no live bits exactly when it touches no element.
    pub proof fn lemma_len_zero(self)
        requires
            self.inv(),
        ensures
            self.spec_elts() == 0 <==> self.spec_len() == 0,
            self.spec_len() >= 0,
    {
        let w = self.spec_width().spec_bits() as int;
        let e = self.spec_elts() as int;
        if e >= 2 {
            vstd::arithmetic::mul::lemma_mul_inequality(1, e - 1, w);
        }
    }

    /// Recomputes the element count and tail for a new total bit length,
    /// keeping the base address and head cursor; used by truncation and
    /// explicit length assignment.
    pub fn set_len(&mut self, len: usize)
        requires
            len <= MAX_BITS,
            spec_span_elts(
                old(self).spec_width().spec_bits(),
                old(self).spec_head_value(),
                len as int,
            ) <= old(self).spec_width().spec_max_elts(),
        ensures
            final(self).spec_base() == old(self).spec_base(),
            final(self).spec_head() == old(self).spec_head(),
            final(self).spec_width() == old(self).spec_width(),
            final(self).spec_len() == len,
            final(self).spec_elts() == spec_span_elts(
                old(self).spec_width().spec_bits(),
                old(self).spec_head_value(),
                len as int,
            ),
            final(self).spec_tail_value() == spec_span_tail(
                old(self).spec_width().spec_bits(),
                old(self).spec_head_value(),
                len as int,
            ),
    {
        proof {
            use_type_invariant(&*self);
        }
        let (elts, tail) = self.head.span(len);
        proof {
            lemma_span_exact(
                self.head.spec_width().spec_bits(),
                self.head.spec_value(),
                len as int,
            );
        }
        *self = BitPtr { base: self.base, elts, head: self.head, tail };
    }

    /// Grows the live range by exactly one bit, as a single-bit append needs.
    pub fn incr_tail(&mut self)
        requires
            old(self).spec_len() < MAX_BITS,
            spec_span_elts(
                old(self).spec_width().spec_bits(),
                old(self).spec_head_value(),
                old(self).spec_len() + 1,
            ) <= old(self).spec_width().spec_max_elts(),
        ensures
            final(self).spec_base() == old(self).spec_base(),
            final(self).spec_head() == old(self).spec_head(),
            final(self).spec_width() == old(self).spec_width(),
            final(self).spec_len() == old(self).spec_len() + 1,
            final(self).spec_elts() == spec_span_elts(
                old(self).spec_width().spec_bits(),
                old(self).spec_head_value(),
                old(self).spec_len() + 1,
            ),
            final(self).spec_tail_value() == spec_span_tail(
                old(self).spec_width().spec_bits(),
                old(self).spec_head_value(),
                old(self).spec_len() + 1,
            ),
    {
        let len = self.len();
        self.set_len(len + 1);
    }

    /// Shrinks the live range by exactly one bit, as a single-bit removal
    /// needs.
    pub fn decr_tail(&mut self)
        requires
            old(self).spec_len() > 0,
        ensures
            final(self).spec_base() == old(self).spec_base(),
            final(self).spec_head() == old(self).spec_head(),
            final(self).spec_width() == old(self).spec_width(),
            final(self).spec_len() == old(self).spec_len() - 1,
            final(self).spec_elts() == spec_span_elts(
                old(self).spec_width().spec_bits(),
                old(self).spec_head_value(),
                old(self).spec_len() - 1,
            ),
            final(self).spec_tail_value() == spec_span_tail(
                old(self).spec_width().spec_bits(),
                old(self).spec_head_value(),
                old(self).spec_len() - 1,
            ),
    {
        proof {
            use_type_invariant(&*self);
            self.lemma_span_converse();
            lemma_span_elts_monotonic(
                self.spec_width().spec_bits(),
                self.spec_head_value(),
                self.spec_len() - 1,
                self.spec_len(),
            );
        }
        let len = self.len();
        self.set_len(len - 1);
    }

    /// Rebases the descriptor after the owning collection reallocates,
    /// touching neither head, tail, nor length. Fails exactly when the new
    /// base is null or misses the width's element alignment.
    pub fn set_pointer(&mut self, base: usize) -> (r: Result<(), BitPtrError>)
        ensures
            ({
                let aligned = base as int % (old(self).spec_width().spec_bytes() as int) == 0;
                &&& (base == 0 ==> r == Err::<(), BitPtrError>(BitPtrError::Null))
                &&& (base != 0 && !aligned ==> r == Err::<(), BitPtrError>(BitPtrError::Misaligned))
                &&& (r is Ok <==> base != 0 && aligned)
                &&& (r is Ok ==> final(self).spec_base() == base)
                &&& (r is Err ==> final(self).spec_base() == old(self).spec_base())
                &&& final(self).spec_head() == old(self).spec_head()
                &&& final(self).spec_width() == old(self).spec_width()
                &&& final(self).spec_elts() == old(self).spec_elts()
                &&& final(self).spec_tail_value() == old(self).spec_tail_value()
                &&& final(self).spec_len() == old(self).spec_len()
            }),
    {
        proof {
            use_type_invariant(&*self);
        }
        if base == 0 {
            return Err(BitPtrError::Null);
        }
        if base % (self.head.width().bytes() as usize) != 0 {
            return Err(BitPtrError::Misaligned);
        }
        *self = BitPtr { base, elts: self.elts, head: self.head, tail: self.tail };
        Ok(())
    }

    /// What validity means for a descriptor: the cursors sit inside the
    /// element width, a populated descriptor has a live tail, a
    /// single-element descriptor keeps its head strictly below its tail, and
    /// the length is zero exactly on an empty descriptor.
    pub proof fn bounds(self)
        requires
            self.inv(),
        ensures
            self.spec_head_value() < self.spec_width().spec_bits(),
            self.spec_tail_value() <= self.spec_width().spec_bits(),
            self.spec_elts() == 0 ==> self.spec_tail_value() == self.spec_head_value(),
            self.spec_elts() >= 1 ==> self.spec_tail_value() >= 1,
            self.spec_elts() == 1 ==> self.spec_head_value() < self.spec_tail_value(),
            self.spec_elts() <= self.spec_width().spec_max_elts(),
            0 <= self.spec_len() <= MAX_BITS,
            self.spec_elts() == 0 <==> self.spec_len() == 0,
    {
        self.lemma_len_zero();
    }

    /// A valid descriptor is a fixed point of the span arithmetic: spanning
    /// its own length from its own head reproduces its element count and
    /// tail. This makes the descriptor's parts and its length two views of
    /// one quantity.
    pub proof fn lemma_span_converse(self)
        requires
            self.inv(),
        ensures
            spec_span_elts(self.spec_width().spec_bits(), self.spec_head_value(), self.spec_len())
                == self.spec_elts(),
            spec_span_tail(self.spec_width().spec_bits(), self.spec_head_value(), self.spec_len())
                == self.spec_tail_value(),
    {
        let w = self.spec_width().spec_bits() as int;
        let h = self.spec_head_value() as int;
        let t = self.spec_tail_value() as int;
        let e = self.spec_elts() as int;
        let len = self.spec_len();
        if e > 0 {
            if e >= 2 {
                vstd::arithmetic::mul::lemma_mul_inequality(1, e - 1, w);
            }
            assert(len > 0);
            let last = h + len - 1;
            assert(last == (e - 1) * w + t - 1);
            lemma_fundamental_div_mod_converse(last, w, e - 1, t - 1);
        }
    }
}

} // verus!
