//! A growable vector of bits packed into fixed-width storage elements.
//!
//! A [`VecBit`] owns a buffer of storage elements and a live bit count, and
//! presents the live bits as a sequence addressed from position zero: the
//! head cursor of an owned vector always sits at the start of its first
//! element, and every mutation keeps the element buffer at exactly the number
//! of elements the live bits span. Bit positions map to element bits through
//! a [`Cursor`] chosen at construction.
//!
//! The vector forbids the fragmentation that makes elements shared between
//! views, so it may touch its elements directly; the per-bit access
//! discipline exists for views that alias.

use vstd::arithmetic::div_mod::{
    lemma_div_is_ordered,
    lemma_div_pos_is_pos,
    lemma_fundamental_div_mod,
    lemma_fundamental_div_mod_converse,
    lemma_mod_bound,
};
use vstd::arithmetic::mul::{
    lemma_mul_inequality,
    lemma_mul_is_commutative,
    lemma_mul_is_distributive_add_other_way,
};
use vstd::prelude::*;

use crate::cursor::Cursor;
use crate::domain::BitDomain;
use crate::pointer::BitPtr;
use crate::indices::{lemma_span_elts_monotonic, spec_span_elts, BitIdx};
use crate::store::{
    elem_bit,
    fits_width,
    lemma_bit_clear,
    lemma_bit_set,
    lemma_bit_test,
    lemma_mask_all_fits,
    lemma_max_elts_room,
    lemma_max_room,
    BitWidth,
    MAX_BITS,
};

verus! {

/// The bit a sequence of elements holds at overall semantic position `i`:
/// position `i` lives in element `i / w` at in-element offset `i % w`, which
/// the ordering strategy translates to an electrical position.
pub open spec fn spec_bit_of(order: Cursor, w: u64, elems: Seq<u64>, i: int) -> bool
    recommends
        0 < w <= 64,
        0 <= i,
        i / (w as int) < elems.len(),
{
    elem_bit(elems[i / (w as int)], order.spec_at(w, (i % (w as int)) as u64))
}

/// The first `n` bits a sequence of elements holds, in semantic order.
pub open spec fn spec_bits_of(order: Cursor, w: u64, elems: Seq<u64>, n: int) -> Seq<bool>
    recommends
        0 < w <= 64,
        0 <= n,
{
    Seq::new(n as nat, |i: int| spec_bit_of(order, w, elems, i))
}

/// Bounds of the element count that `n` bits span from the start of a
/// buffer: the elements cover the bits, and lose fewer than one element of
/// slack.
proof fn lemma_ceil_bounds(w: u64, n: int)
    requires
        0 < w,
        0 <= n,
    ensures
        0 <= spec_span_elts(w, 0, n),
        n <= spec_span_elts(w, 0, n) * (w as int),
        spec_span_elts(w, 0, n) * (w as int) < n + w,
{
    let wi = w as int;
    if n > 0 {
        let q = (n - 1) / wi;
        lemma_fundamental_div_mod(n - 1, wi);
        lemma_mod_bound(n - 1, wi);
        lemma_div_pos_is_pos(n - 1, wi);
        lemma_mul_is_distributive_add_other_way(wi, q, 1);
        lemma_mul_is_commutative(q, wi);
    }
}

/// How the spanned element count moves when one bit is appended: it grows by
/// one exactly when the old bit count fills its elements to the brim, which
/// happens exactly when the old count is a multiple of the width.
proof fn lemma_ceil_step(w: u64, n: int)
    requires
        0 < w,
        0 <= n,
    ensures
        (spec_span_elts(w, 0, n) * (w as int) == n) <==> (n % (w as int) == 0),
        n % (w as int) == 0 ==> spec_span_elts(w, 0, n + 1) == spec_span_elts(w, 0, n) + 1,
        n % (w as int) != 0 ==> spec_span_elts(w, 0, n + 1) == spec_span_elts(w, 0, n),
{
    let wi = w as int;
    if n == 0 {
        vstd::arithmetic::div_mod::lemma_div_of0(wi);
        vstd::arithmetic::div_mod::lemma_small_mod(0, w as nat);
    } else {
        let qn = n / wi;
        let rn = n % wi;
        lemma_fundamental_div_mod(n, wi);
        lemma_mod_bound(n, wi);
        lemma_div_pos_is_pos(n, wi);
        lemma_mul_is_commutative(wi, qn);
        if rn == 0 {
            assert(n - 1 == (qn - 1) * wi + (wi - 1)) by {
                lemma_mul_is_distributive_add_other_way(wi, qn - 1, 1);
            }
            lemma_fundamental_div_mod_converse(n - 1, wi, qn - 1, wi - 1);
            assert(spec_span_elts(w, 0, n) == qn);
            lemma_mul_is_commutative(qn, wi);
        } else {
            assert(n - 1 == qn * wi + (rn - 1));
            lemma_fundamental_div_mod_converse(n - 1, wi, qn, rn - 1);
            assert(spec_span_elts(w, 0, n) == qn + 1);
            lemma_mul_is_distributive_add_other_way(wi, qn, 1);
            lemma_mul_is_commutative(qn, wi);
            assert((qn + 1) * wi == n - rn + wi);
        }
    }
}

/// A whole number of elements spans exactly itself.
proof fn lemma_ceil_exact(w: u64, k: int)
    requires
        0 < w,
        0 <= k,
    ensures
        spec_span_elts(w, 0, k * (w as int)) == k,
{
    let wi = w as int;
    if k > 0 {
        lemma_mul_inequality(1, k, wi);
        assert(k * wi - 1 == (k - 1) * wi + (wi - 1)) by {
            lemma_mul_is_distributive_add_other_way(wi, k - 1, 1);
            lemma_mul_is_commutative(k - 1, wi);
            lemma_mul_is_commutative(k, wi);
        }
        lemma_fundamental_div_mod_converse(k * wi - 1, wi, k - 1, wi - 1);
    }
}

/// Any bit count within the ceiling spans no more elements than the width's
/// element ceiling.
proof fn lemma_ceil_le_max(width: BitWidth, n: int)
    requires
        0 <= n <= MAX_BITS,
    ensures
        spec_span_elts(width.spec_bits(), 0, n) <= width.spec_max_elts(),
{
    let wi = width.spec_bits() as int;
    if n > 0 {
        lemma_div_is_ordered(n - 1, MAX_BITS as int, wi);
        lemma_div_is_ordered(MAX_BITS as int - 1, MAX_BITS as int, wi);
        lemma_div_pos_is_pos(n - 1, wi);
    }
}

/// Where overall bit position `i` of an `n`-bit run lives: inside the
/// elements the run spans, at an in-element offset below the width, with
/// division and remainder reassembling the position.
proof fn lemma_bit_index(w: u64, n: int, i: int)
    requires
        0 < w,
        0 <= i < n,
    ensures
        0 <= i / (w as int) < spec_span_elts(w, 0, n),
        0 <= i % (w as int) < w,
        i == (i / (w as int)) * (w as int) + i % (w as int),
{
    let wi = w as int;
    lemma_fundamental_div_mod(i, wi);
    lemma_mod_bound(i, wi);
    lemma_div_pos_is_pos(i, wi);
    lemma_div_is_ordered(i, n - 1, wi);
    lemma_div_pos_is_pos(n - 1, wi);
    lemma_mul_is_commutative(wi, i / wi);
}

/// Replacing one element with a value that differs only at one electrical
/// position changes exactly the one overall bit that maps there.
proof fn lemma_view_update(order: Cursor, w: u64, elems: Seq<u64>, n: int, index: int, e2: u64)
    requires
        0 < w <= 64,
        0 <= index < n,
        spec_span_elts(w, 0, n) <= elems.len(),
        forall|q: u64|
            q < 64 && q != order.spec_at(w, (index % (w as int)) as u64) ==> elem_bit(e2, q)
                == elem_bit(elems[index / (w as int)], q),
    ensures
        forall|j: int|
            0 <= j < n && j != index ==> spec_bit_of(
                order,
                w,
                elems.update(index / (w as int), e2),
                j,
            ) == spec_bit_of(order, w, elems, j),
        spec_bit_of(order, w, elems.update(index / (w as int), e2), index) == elem_bit(
            e2,
            order.spec_at(w, (index % (w as int)) as u64),
        ),
{
    let wi = w as int;
    let ie = index / wi;
    let upd = elems.update(ie, e2);
    lemma_bit_index(w, n, index);
    assert forall|j: int| 0 <= j < n && j != index implies spec_bit_of(order, w, upd, j)
        == spec_bit_of(order, w, elems, j) by {
        lemma_bit_index(w, n, j);
        if j / wi == ie {
            assert(j % wi != index % wi);
            assert(order.spec_at(w, (j % wi) as u64) != order.spec_at(
                w,
                (index % wi) as u64,
            ));
        }
    }
}

/// Bit-serial addition read left to right: position zero is the least
/// significant. Each step sums the two current bits and the carry; a shorter
/// addend is zero-extended, and a final carry appends one more bit.
pub open spec fn spec_add_rev(a: Seq<bool>, b: Seq<bool>, carry: bool) -> Seq<bool>
    decreases a.len() + b.len(),
{
    if a.len() == 0 && b.len() == 0 {
        if carry {
            seq![true]
        } else {
            Seq::<bool>::empty()
        }
    } else {
        let x = if a.len() > 0 { a.first() } else { false };
        let y = if b.len() > 0 { b.first() } else { false };
        let rest_a = if a.len() > 0 { a.drop_first() } else { a };
        let rest_b = if b.len() > 0 { b.drop_first() } else { b };
        seq![(x != y) != carry] + spec_add_rev(
            rest_a,
            rest_b,
            (x && y) || (x && carry) || (y && carry),
        )
    }
}

/// The number a bit sequence denotes when read left to right with position
/// zero least significant.
pub open spec fn spec_seq_val(s: Seq<bool>) -> nat
    decreases s.len(),
{
    if s.len() == 0 {
        0
    } else {
        (if s.first() {
            1nat
        } else {
            0nat
        }) + 2 * spec_seq_val(s.drop_first())
    }
}

/// Law: reverse addition adds. The sequence that `spec_add_rev` produces
/// denotes exactly the sum of the numbers its addends denote, plus the
/// incoming carry.
pub proof fn lemma_add_rev_is_addition(a: Seq<bool>, b: Seq<bool>, carry: bool)
    ensures
        spec_seq_val(spec_add_rev(a, b, carry)) == spec_seq_val(a) + spec_seq_val(b) + (
        if carry {
            1nat
        } else {
            0nat
        }),
    decreases a.len() + b.len(),
{
    if a.len() == 0 && b.len() == 0 {
        if carry {
            assert(seq![true].drop_first() =~= Seq::<bool>::empty());
            assert(seq![true].first());
            assert(spec_seq_val(seq![true]) == 1nat + 2 * spec_seq_val(
                seq![true].drop_first(),
            ));
            assert(spec_seq_val(Seq::<bool>::empty()) == 0);
        }
    } else {
        let x = if a.len() > 0 { a.first() } else { false };
        let y = if b.len() > 0 { b.first() } else { false };
        let rest_a = if a.len() > 0 { a.drop_first() } else { a };
        let rest_b = if b.len() > 0 { b.drop_first() } else { b };
        let sum = (x != y) != carry;
        let c2 = (x && y) || (x && carry) || (y && carry);
        let rest = spec_add_rev(rest_a, rest_b, c2);
        assert(spec_add_rev(a, b, carry) == seq![sum] + rest);
        lemma_add_rev_is_addition(rest_a, rest_b, c2);
        assert((seq![sum] + rest).drop_first() =~= rest);
        assert((seq![sum] + rest).first() == sum);
        assert(spec_seq_val(seq![sum] + rest) == (if sum {
            1nat
        } else {
            0nat
        }) + 2 * spec_seq_val(rest));
        assert((if sum {
            1int
        } else {
            0int
        }) + 2 * (if c2 {
            1int
        } else {
            0int
        }) == (if x {
            1int
        } else {
            0int
        }) + (if y {
            1int
        } else {
            0int
        }) + (if carry {
            1int
        } else {
            0int
        }));
        assert(spec_seq_val(a) == (if x {
            1nat
        } else {
            0nat
        }) + 2 * spec_seq_val(rest_a));
        assert(spec_seq_val(b) == (if y {
            1nat
        } else {
            0nat
        }) + 2 * spec_seq_val(rest_b));
    }
}

/// The subsequence of `s` at the positions `keep` marks, order preserved.
pub open spec fn spec_masked(s: Seq<bool>, keep: Seq<bool>) -> Seq<bool>
    recommends
        s.len() == keep.len(),
    decreases s.len(),
{
    if s.len() == 0 {
        Seq::<bool>::empty()
    } else {
        spec_masked(s.drop_last(), keep.drop_last()) + if keep.len() > 0 && keep.last() {
            seq![s.last()]
        } else {
            Seq::<bool>::empty()
        }
    }
}

/// Relies on `Vec::reserve_exact`: the contents are unchanged; only the
/// allocation may grow.
#[verifier::external_body]
fn vec_reserve_exact(v: &mut Vec<u64>, additional: usize)
    ensures
        final(v)@ == old(v)@,
{
    v.reserve_exact(additional);
}

/// Relies on `Vec::shrink_to_fit`: the contents are unchanged; only the
/// allocation may shrink.
#[verifier::external_body]
fn vec_shrink_to_fit(v: &mut Vec<u64>)
    ensures
        final(v)@ == old(v)@,
{
    v.shrink_to_fit();
}

/// Relies on `Vec::into_boxed_slice`: the contents carry over unchanged.
#[verifier::external_body]
fn vec_into_boxed_slice(v: Vec<u64>) -> (r: Box<[u64]>)
    ensures
        r@ == v@,
{
    v.into_boxed_slice()
}

/// A growable, orderable sequence of bits packed into storage elements.
#[derive(Debug)]
pub struct VecBit {
    order: Cursor,
    width: BitWidth,
    elems: Vec<u64>,
    bits: usize,
    capacity: usize,
}

impl View for VecBit {
    type V = Seq<bool>;

    /// The live bits, in semantic order.
    closed spec fn view(&self) -> Seq<bool> {
        spec_bits_of(self.order, self.width.spec_bits(), self.elems@, self.bits as int)
    }
}

impl VecBit {
    /// The ordering strategy this vector maps bit positions through.
    pub closed spec fn spec_order(self) -> Cursor {
        self.order
    }

    /// The storage element width backing this vector.
    pub closed spec fn spec_width(self) -> BitWidth {
        self.width
    }

    /// The live storage elements, including the partial edge.
    pub closed spec fn spec_elems(self) -> Seq<u64> {
        self.elems@
    }

    /// Number of bits the vector can hold before its element buffer must
    /// grow.
    pub closed spec fn spec_capacity(self) -> int {
        self.capacity * self.spec_width().spec_bits()
    }

    /// Well-formedness: the live bit count respects the ceiling, the element
    /// buffer holds exactly the elements the live bits span, the recorded
    /// element capacity covers the buffer and respects the width's element
    /// ceiling, and every element value fits the width.
    pub closed spec fn wf(self) -> bool {
        let w = self.width.spec_bits();
        &&& self.bits <= MAX_BITS
        &&& self.elems@.len() == spec_span_elts(w, 0, self.bits as int)
        &&& self.elems@.len() <= self.capacity
        &&& self.capacity <= self.width.spec_max_elts()
        &&& forall|i: int| 0 <= i < self.elems@.len() ==> fits_width(#[trigger] self.elems@[i], w)
    }

    /// What well-formedness gives a caller: the view is the bits of the
    /// elements, its length respects the ceiling, and the capacity covers it.
    pub proof fn lemma_wf_facts(self)
        requires
            self.wf(),
        ensures
            self@.len() <= MAX_BITS,
            self@ == spec_bits_of(
                self.spec_order(),
                self.spec_width().spec_bits(),
                self.spec_elems(),
                self@.len() as int,
            ),
            self.spec_elems().len() == spec_span_elts(
                self.spec_width().spec_bits(),
                0,
                self@.len() as int,
            ),
            self@.len() <= self.spec_capacity(),
    {
        let w = self.width.spec_bits();
        lemma_ceil_bounds(w, self.bits as int);
        lemma_mul_inequality(self.elems@.len() as int, self.capacity as int, w as int);
    }

    /// Constructs a new, empty vector over the given ordering and width. It
    /// does not allocate until bits are written into it.
    pub fn new(order: Cursor, width: BitWidth) -> (r: VecBit)
        ensures
            r.wf(),
            r@ == Seq::<bool>::empty(),
            r.spec_order() == order,
            r.spec_width() == width,
            r.spec_elems() == Seq::<u64>::empty(),
            r.spec_capacity() == 0,
    {
        let r = VecBit { order, width, elems: Vec::new(), bits: 0, capacity: 0 };
        proof {
            assert(r@ =~= Seq::<bool>::empty());
            assert(r.spec_elems() =~= Seq::<u64>::empty());
        }
        r
    }

    /// Number of live bits.
    pub fn len(&self) -> (r: usize)
        ensures
            r == self@.len(),
    {
        self.bits
    }

    /// Whether the vector holds no live bits.
    pub fn is_empty(&self) -> (r: bool)
        ensures
            r == (self@.len() == 0),
    {
        self.bits == 0
    }

    /// The live storage elements, including the partial edge: the vector
    /// forbids the fragmentation that would make this view contended.
    pub fn as_slice(&self) -> (r: &[u64])
        ensures
            r@ == self.spec_elems(),
    {
        self.elems.as_slice()
    }

    /// Reads the bit at `index`.
    pub fn get(&self, index: usize) -> (r: bool)
        requires
            self.wf(),
            index < self@.len(),
        ensures
            r == self@[index as int],
    {
        let w = self.width.bits() as usize;
        proof {
            lemma_bit_index(self.width.spec_bits(), self.bits as int, index as int);
        }
        let ei = index / w;
        let off = index % w;
        let place = BitIdx::new(self.width, off as u8).unwrap();
        let mask = self.order.mask(place);
        proof {
            lemma_bit_test(
                self.elems@[ei as int],
                self.order.spec_at(self.width.spec_bits(), off as u64),
            );
        }
        (self.elems[ei] & mask) != 0
    }

    /// Writes `value` into the bit at `index`, leaving every other bit and
    /// the vector's shape alone.
    pub fn set(&mut self, index: usize, value: bool)
        requires
            old(self).wf(),
            index < old(self)@.len(),
        ensures
            final(self).wf(),
            final(self)@ == old(self)@.update(index as int, value),
            final(self).spec_order() == old(self).spec_order(),
            final(self).spec_width() == old(self).spec_width(),
            final(self).spec_elems().len() == old(self).spec_elems().len(),
            final(self).spec_capacity() == old(self).spec_capacity(),
    {
        let ghost olds = *self;
        let w = self.width.bits() as usize;
        proof {
            lemma_bit_index(self.width.spec_bits(), self.bits as int, index as int);
        }
        let ei = index / w;
        let off = index % w;
        let place = BitIdx::new(self.width, off as u8).unwrap();
        let mask = self.order.mask(place);
        let e = self.elems[ei];
        let ghost pos = self.order.spec_at(self.width.spec_bits(), off as u64);
        let e2 = if value {
            proof {
                lemma_bit_set(e, pos, self.width.spec_bits());
            }
            e | mask
        } else {
            proof {
                lemma_bit_clear(e, pos, self.width.spec_bits());
            }
            e & !mask
        };
        self.elems.set(ei, e2);
        proof {
            lemma_view_update(
                olds.order,
                olds.width.spec_bits(),
                olds.elems@,
                olds.bits as int,
                index as int,
                e2,
            );
            assert(self@ =~= olds@.update(index as int, value));
        }
    }

    /// Appends a bit at the back, growing the element buffer by one element
    /// exactly when the live bits fill their elements to the brim.
    pub fn push(&mut self, value: bool)
        requires
            old(self).wf(),
            old(self)@.len() < MAX_BITS,
        ensures
            final(self).wf(),
            final(self)@ == old(self)@.push(value),
            final(self).spec_order() == old(self).spec_order(),
            final(self).spec_width() == old(self).spec_width(),
            final(self).spec_capacity() >= old(self).spec_capacity(),
    {
        let ghost olds = *self;
        let w = self.width.bits() as usize;
        let len = self.bits;
        proof {
            lemma_ceil_step(self.width.spec_bits(), len as int);
            lemma_ceil_le_max(self.width, len as int + 1);
            lemma_mask_all_fits(self.width.spec_bits());
            lemma_max_elts_room(self.width.spec_bits());
            lemma_mul_inequality(
                self.elems@.len() as int,
                self.width.spec_max_elts() as int,
                self.width.spec_bits() as int,
            );
        }
        if len == self.elems.len() * w {
            self.elems.push(0);
            if self.capacity < self.elems.len() {
                proof {
                    lemma_mul_inequality(
                        olds.capacity as int,
                        self.elems@.len() as int,
                        self.width.spec_bits() as int,
                    );
                }
                self.capacity = self.elems.len();
            }
        }
        self.bits = len + 1;
        proof {
            assert(self.wf());
            assert forall|j: int| 0 <= j < len implies self@[j] == olds@[j] by {
                lemma_bit_index(olds.width.spec_bits(), len as int, j);
            }
        }
        self.set(len, value);
        proof {
            assert(self@ =~= olds@.push(value));
        }
    }

    /// Removes and returns the last bit, if the vector holds one; the element
    /// buffer gives an element back exactly when that bit was alone in it.
    /// The capacity is unchanged.
    pub fn pop(&mut self) -> (r: Option<bool>)
        requires
            old(self).wf(),
        ensures
            final(self).wf(),
            old(self)@.len() == 0 ==> r == None::<bool> && *final(self) == *old(self),
            old(self)@.len() > 0 ==> r == Some(old(self)@.last()) && final(self)@ == old(
                self,
            )@.drop_last(),
            final(self).spec_order() == old(self).spec_order(),
            final(self).spec_width() == old(self).spec_width(),
            final(self).spec_capacity() == old(self).spec_capacity(),
    {
        let ghost olds = *self;
        if self.bits == 0 {
            return None;
        }
        let len = self.bits - 1;
        let out = self.get(len);
        proof {
            lemma_ceil_step(self.width.spec_bits(), len as int);
        }
        self.bits = len;
        let w = self.width.bits() as usize;
        if len % w == 0 {
            self.elems.pop();
        }
        proof {
            assert forall|j: int| 0 <= j < len implies self@[j] == olds@[j] by {
                lemma_bit_index(olds.width.spec_bits(), len as int + 1, j);
            }
            assert(self@ =~= olds@.drop_last());
        }
        Some(out)
    }

    /// Consumes a vector of elements and takes every bit of it live, in
    /// order.
    pub fn from_vec(order: Cursor, width: BitWidth, vec: Vec<u64>) -> (r: VecBit)
        requires
            vec@.len() * width.spec_bits() <= MAX_BITS,
            forall|i: int| 0 <= i < vec@.len() ==> fits_width(#[trigger] vec@[i], width.spec_bits()),
        ensures
            r.wf(),
            r.spec_order() == order,
            r.spec_width() == width,
            r.spec_elems() == vec@,
            r@.len() == vec@.len() * width.spec_bits(),
            r@ == spec_bits_of(order, width.spec_bits(), vec@, vec@.len() * width.spec_bits()),
            r.spec_capacity() == vec@.len() * width.spec_bits(),
    {
        let w = width.bits() as usize;
        let n = vec.len();
        let bits = n * w;
        proof {
            lemma_ceil_exact(width.spec_bits(), n as int);
            lemma_ceil_le_max(width, bits as int);
            lemma_mul_is_commutative(n as int, w as int);
        }
        VecBit { order, width, elems: vec, bits, capacity: n }
    }

    /// Copies a slice of elements and takes every bit of it live, in order.
    pub fn from_slice(order: Cursor, width: BitWidth, slice: &[u64]) -> (r: VecBit)
        requires
            slice@.len() * width.spec_bits() <= MAX_BITS,
            forall|i: int|
                0 <= i < slice@.len() ==> fits_width(#[trigger] slice@[i], width.spec_bits()),
        ensures
            r.wf(),
            r.spec_order() == order,
            r.spec_width() == width,
            r.spec_elems() == slice@,
            r@.len() == slice@.len() * width.spec_bits(),
            r@ == spec_bits_of(order, width.spec_bits(), slice@, slice@.len() * width.spec_bits()),
    {
        Self::from_vec(order, width, vstd::slice::slice_to_vec(slice))
    }

    /// Spans a single element: every bit of it becomes live.
    pub fn from_element(order: Cursor, width: BitWidth, elt: u64) -> (r: VecBit)
        requires
            fits_width(elt, width.spec_bits()),
        ensures
            r.wf(),
            r.spec_order() == order,
            r.spec_width() == width,
            r.spec_elems() == seq![elt],
            r@.len() == width.spec_bits(),
            r@ == spec_bits_of(order, width.spec_bits(), seq![elt], width.spec_bits() as int),
    {
        let mut v: Vec<u64> = Vec::new();
        v.push(elt);
        proof {
            lemma_max_room();
            assert(v@ =~= seq![elt]);
        }
        Self::from_vec(order, width, v)
    }

    /// Constructs a new, empty vector whose buffer can already hold at least
    /// `capacity` bits.
    pub fn with_capacity(order: Cursor, width: BitWidth, capacity: usize) -> (r: VecBit)
        requires
            capacity <= MAX_BITS,
        ensures
            r.wf(),
            r@ == Seq::<bool>::empty(),
            r.spec_order() == order,
            r.spec_width() == width,
            r.spec_elems() == Seq::<u64>::empty(),
            r.spec_capacity() >= capacity,
    {
        proof {
            lemma_max_room();
        }
        let head = BitIdx::new(width, 0).unwrap();
        let (elts, _tail) = head.span(capacity);
        proof {
            lemma_ceil_le_max(width, capacity as int);
            lemma_ceil_bounds(width.spec_bits(), capacity as int);
        }
        let elems = Vec::with_capacity(elts);
        let r = VecBit { order, width, elems, bits: 0, capacity: elts };
        proof {
            assert(r@ =~= Seq::<bool>::empty());
        }
        r
    }

    /// Number of bits the vector can hold before its element buffer must
    /// grow.
    pub fn capacity(&self) -> (r: usize)
        requires
            self.wf(),
        ensures
            r == self.spec_capacity(),
    {
        proof {
            lemma_max_elts_room(self.width.spec_bits());
            lemma_mul_inequality(
                self.capacity as int,
                self.width.spec_max_elts() as int,
                self.width.spec_bits() as int,
            );
        }
        self.capacity * (self.width.bits() as usize)
    }

    /// Grants buffer room for at least `additional` more bits beyond the
    /// current length; does nothing if the capacity already suffices.
    pub fn reserve(&mut self, additional: usize)
        requires
            old(self).wf(),
            old(self)@.len() + additional <= MAX_BITS,
        ensures
            final(self).wf(),
            final(self)@ == old(self)@,
            final(self).spec_order() == old(self).spec_order(),
            final(self).spec_width() == old(self).spec_width(),
            final(self).spec_elems() == old(self).spec_elems(),
            final(self).spec_capacity() >= old(self)@.len() + additional,
            final(self).spec_capacity() >= old(self).spec_capacity(),
    {
        let w = self.width.bits();
        let new_bits = self.bits + additional;
        proof {
            lemma_max_room();
        }
        let head = BitIdx::new(self.width, 0).unwrap();
        let (needed, _tail) = head.span(new_bits);
        proof {
            lemma_ceil_le_max(self.width, new_bits as int);
            lemma_ceil_bounds(self.width.spec_bits(), new_bits as int);
            lemma_span_elts_monotonic(
                self.width.spec_bits(),
                0,
                self.bits as int,
                new_bits as int,
            );
        }
        if needed > self.capacity {
            let extra = needed - self.elems.len();
            self.elems.reserve(extra);
            proof {
                lemma_mul_inequality(self.capacity as int, needed as int, w as int);
            }
            self.capacity = needed;
        } else {
            proof {
                lemma_mul_inequality(needed as int, self.capacity as int, w as int);
            }
        }
    }

    /// Grants buffer room for at least `additional` more bits beyond the
    /// current length, asking the allocator for the minimum; does nothing if
    /// the capacity already suffices.
    pub fn reserve_exact(&mut self, additional: usize)
        requires
            old(self).wf(),
            old(self)@.len() + additional <= MAX_BITS,
        ensures
            final(self).wf(),
            final(self)@ == old(self)@,
            final(self).spec_order() == old(self).spec_order(),
            final(self).spec_width() == old(self).spec_width(),
            final(self).spec_elems() == old(self).spec_elems(),
            final(self).spec_capacity() >= old(self)@.len() + additional,
            final(self).spec_capacity() >= old(self).spec_capacity(),
    {
        let w = self.width.bits();
        let new_bits = self.bits + additional;
        proof {
            lemma_max_room();
        }
        let head = BitIdx::new(self.width, 0).unwrap();
        let (needed, _tail) = head.span(new_bits);
        proof {
            lemma_ceil_le_max(self.width, new_bits as int);
            lemma_ceil_bounds(self.width.spec_bits(), new_bits as int);
            lemma_span_elts_monotonic(
                self.width.spec_bits(),
                0,
                self.bits as int,
                new_bits as int,
            );
        }
        if needed > self.capacity {
            let extra = needed - self.elems.len();
            vec_reserve_exact(&mut self.elems, extra);
            proof {
                lemma_mul_inequality(self.capacity as int, needed as int, w as int);
            }
            self.capacity = needed;
        } else {
            proof {
                lemma_mul_inequality(needed as int, self.capacity as int, w as int);
            }
        }
    }

    /// Gives back the buffer room beyond the live elements. The contents of
    /// the live elements are untouched.
    pub fn shrink_to_fit(&mut self)
        requires
            old(self).wf(),
        ensures
            final(self).wf(),
            final(self)@ == old(self)@,
            final(self).spec_order() == old(self).spec_order(),
            final(self).spec_width() == old(self).spec_width(),
            final(self).spec_elems() == old(self).spec_elems(),
            final(self).spec_capacity() == final(self).spec_elems().len()
                * final(self).spec_width().spec_bits(),
            final(self).spec_capacity() <= old(self).spec_capacity(),
    {
        proof {
            lemma_mul_inequality(
                self.elems@.len() as int,
                self.capacity as int,
                self.width.spec_bits() as int,
            );
        }
        vec_shrink_to_fit(&mut self.elems);
        self.capacity = self.elems.len();
    }

    /// Shortens the vector to at most `len` bits, keeping the first bits and
    /// dropping the rest; has no effect when `len` covers the vector. The
    /// capacity is unchanged.
    pub fn truncate(&mut self, len: usize)
        requires
            old(self).wf(),
        ensures
            final(self).wf(),
            len >= old(self)@.len() ==> final(self)@ == old(self)@ && final(self).spec_elems()
                == old(self).spec_elems(),
            len < old(self)@.len() ==> final(self)@ == old(self)@.subrange(0, len as int),
            final(self).spec_order() == old(self).spec_order(),
            final(self).spec_width() == old(self).spec_width(),
            final(self).spec_capacity() == old(self).spec_capacity(),
    {
        let ghost olds = *self;
        if len < self.bits {
            let head = BitIdx::new(self.width, 0).unwrap();
            proof {
                lemma_max_room();
            }
            let (elts, _tail) = head.span(len);
            proof {
                lemma_span_elts_monotonic(self.width.spec_bits(), 0, len as int, self.bits as int);
            }
            self.elems.truncate(elts);
            self.bits = len;
            proof {
                assert forall|j: int| 0 <= j < len implies self@[j] == olds@[j] by {
                    lemma_bit_index(olds.width.spec_bits(), len as int, j);
                }
                assert(self@ =~= olds@.subrange(0, len as int));
            }
        }
    }

    /// Removes every live bit. The element buffer empties; the capacity is
    /// unchanged.
    pub fn clear(&mut self)
        requires
            old(self).wf(),
        ensures
            final(self).wf(),
            final(self)@ == Seq::<bool>::empty(),
            final(self).spec_elems() == Seq::<u64>::empty(),
            final(self).spec_order() == old(self).spec_order(),
            final(self).spec_width() == old(self).spec_width(),
            final(self).spec_capacity() == old(self).spec_capacity(),
    {
        self.elems.clear();
        self.bits = 0;
        proof {
            assert(self@ =~= Seq::<bool>::empty());
            assert(self.spec_elems() =~= Seq::<u64>::empty());
        }
    }

    /// The ordering strategy this vector maps bit positions through.
    pub fn order(&self) -> (r: Cursor)
        ensures
            r == self.spec_order(),
    {
        self.order
    }

    /// The storage element width backing this vector.
    pub fn width(&self) -> (r: BitWidth)
        ensures
            r == self.spec_width(),
    {
        self.width
    }

    /// Collects a slice of bits into a vector, in order.
    pub fn from_bools(order: Cursor, width: BitWidth, bits: &[bool]) -> (r: VecBit)
        requires
            bits@.len() <= MAX_BITS,
        ensures
            r.wf(),
            r@ == bits@,
            r.spec_order() == order,
            r.spec_width() == width,
    {
        let mut r = VecBit::new(order, width);
        let n = bits.len();
        let mut i: usize = 0;
        while i < n
            invariant
                r.wf(),
                i <= n,
                n == bits@.len(),
                n <= MAX_BITS,
                r@ == bits@.subrange(0, i as int),
                r.spec_order() == order,
                r.spec_width() == width,
            decreases n - i,
        {
            let b = *vstd::slice::slice_index_get(bits, i);
            r.push(b);
            i = i + 1;
            proof {
                assert(r@ =~= bits@.subrange(0, i as int));
            }
        }
        proof {
            assert(bits@.subrange(0, n as int) =~= bits@);
        }
        r
    }

    /// Resizes the vector in place: shrinks to `new_len` bits when it is
    /// shorter than the vector, extends with copies of `value` when it is
    /// longer.
    pub fn resize(&mut self, new_len: usize, value: bool)
        requires
            old(self).wf(),
            new_len <= MAX_BITS,
        ensures
            final(self).wf(),
            new_len <= old(self)@.len() ==> final(self)@ == old(self)@.subrange(0, new_len as int),
            new_len > old(self)@.len() ==> final(self)@ == old(self)@ + Seq::new(
                (new_len - old(self)@.len()) as nat,
                |j: int| value,
            ),
            final(self).spec_order() == old(self).spec_order(),
            final(self).spec_width() == old(self).spec_width(),
            final(self).spec_capacity() >= old(self).spec_capacity(),
    {
        let ghost olds = *self;
        let n0 = self.bits;
        if new_len <= n0 {
            self.truncate(new_len);
            proof {
                if new_len == n0 {
                    assert(self@ =~= olds@.subrange(0, new_len as int));
                }
            }
        } else {
            let mut i = n0;
            while i < new_len
                invariant
                    self.wf(),
                    n0 <= i <= new_len,
                    new_len <= MAX_BITS,
                    i == self@.len(),
                    n0 == olds@.len(),
                    self@ == olds@ + Seq::new((i - n0) as nat, |j: int| value),
                    self.spec_order() == olds.spec_order(),
                    self.spec_width() == olds.spec_width(),
                    self.spec_capacity() >= olds.spec_capacity(),
                decreases new_len - i,
            {
                self.push(value);
                i = i + 1;
                proof {
                    assert(self@ =~= olds@ + Seq::new((i - n0) as nat, |j: int| value));
                }
            }
        }
    }

    /// Inserts a bit at `index`, shifting every bit after it one place
    /// towards the back.
    pub fn insert(&mut self, index: usize, value: bool)
        requires
            old(self).wf(),
            index <= old(self)@.len(),
            old(self)@.len() < MAX_BITS,
        ensures
            final(self).wf(),
            final(self)@ == old(self)@.insert(index as int, value),
            final(self).spec_order() == old(self).spec_order(),
            final(self).spec_width() == old(self).spec_width(),
    {
        let ghost olds = *self;
        let n = self.bits;
        self.push(value);
        let mut j = n;
        while j > index
            invariant
                self.wf(),
                index <= j <= n,
                n == olds@.len(),
                self@.len() == n + 1,
                forall|k: int| 0 <= k < j ==> self@[k] == olds@[k],
                forall|k: int| j < k <= n ==> self@[k] == olds@[k - 1],
                self.spec_order() == olds.spec_order(),
                self.spec_width() == olds.spec_width(),
            decreases j,
        {
            let b = self.get(j - 1);
            self.set(j, b);
            j = j - 1;
        }
        self.set(index, value);
        proof {
            assert(self@ =~= olds@.insert(index as int, value));
        }
    }

    /// Removes and returns the bit at `index`, shifting every bit after it
    /// one place towards the front.
    pub fn remove(&mut self, index: usize) -> (r: bool)
        requires
            old(self).wf(),
            index < old(self)@.len(),
        ensures
            final(self).wf(),
            r == old(self)@[index as int],
            final(self)@ == old(self)@.remove(index as int),
            final(self).spec_order() == old(self).spec_order(),
            final(self).spec_width() == old(self).spec_width(),
            final(self).spec_capacity() == old(self).spec_capacity(),
    {
        let ghost olds = *self;
        let r = self.get(index);
        let n = self.bits;
        let mut j = index;
        while j + 1 < n
            invariant
                self.wf(),
                index <= j < n,
                n == olds@.len(),
                self@.len() == n,
                forall|k: int| 0 <= k < index ==> self@[k] == olds@[k],
                forall|k: int| index <= k < j ==> self@[k] == olds@[k + 1],
                forall|k: int| j <= k < n ==> self@[k] == olds@[k],
                self.spec_order() == olds.spec_order(),
                self.spec_width() == olds.spec_width(),
                self.spec_capacity() == olds.spec_capacity(),
            decreases n - j,
        {
            let b = self.get(j + 1);
            self.set(j, b);
            j = j + 1;
        }
        let _last = self.pop();
        proof {
            assert(self@ =~= olds@.remove(index as int));
        }
        r
    }

    /// Removes and returns the bit at `index`, replacing it with the last bit
    /// instead of shifting.
    pub fn swap_remove(&mut self, index: usize) -> (r: bool)
        requires
            old(self).wf(),
            index < old(self)@.len(),
        ensures
            final(self).wf(),
            r == old(self)@[index as int],
            final(self)@ == old(self)@.update(index as int, old(self)@.last()).drop_last(),
            final(self).spec_order() == old(self).spec_order(),
            final(self).spec_width() == old(self).spec_width(),
            final(self).spec_capacity() == old(self).spec_capacity(),
    {
        let r = self.get(index);
        let last = self.get(self.bits - 1);
        self.set(index, last);
        let _last = self.pop();
        r
    }

    /// Moves every bit of `other` onto the back of `self`, leaving `other`
    /// empty. The orderings and widths of the two vectors may differ: bits
    /// move by semantic position.
    pub fn append(&mut self, other: &mut VecBit)
        requires
            old(self).wf(),
            old(other).wf(),
            old(self)@.len() + old(other)@.len() <= MAX_BITS,
        ensures
            final(self).wf(),
            final(other).wf(),
            final(self)@ == old(self)@ + old(other)@,
            final(other)@ == Seq::<bool>::empty(),
            final(self).spec_order() == old(self).spec_order(),
            final(self).spec_width() == old(self).spec_width(),
            final(other).spec_order() == old(other).spec_order(),
            final(other).spec_width() == old(other).spec_width(),
    {
        let n = other.len();
        let mut i: usize = 0;
        while i < n
            invariant
                self.wf(),
                other.wf(),
                i <= n,
                *other == *old(other),
                n == old(other)@.len(),
                old(self)@.len() + n <= MAX_BITS,
                self@ == old(self)@ + old(other)@.subrange(0, i as int),
                self.spec_order() == old(self).spec_order(),
                self.spec_width() == old(self).spec_width(),
            decreases n - i,
        {
            let b = other.get(i);
            self.push(b);
            i = i + 1;
            proof {
                assert(self@ =~= old(self)@ + old(other)@.subrange(0, i as int));
            }
        }
        proof {
            assert(old(other)@.subrange(0, n as int) =~= old(other)@);
        }
        other.clear();
    }

    /// Splits the vector at `at`: `self` keeps the bits before it, and the
    /// returned vector takes the bits from `at` onwards. The capacity of
    /// `self` does not change.
    pub fn split_off(&mut self, at: usize) -> (r: VecBit)
        requires
            old(self).wf(),
            at <= old(self)@.len(),
        ensures
            final(self).wf(),
            r.wf(),
            final(self)@ == old(self)@.subrange(0, at as int),
            r@ == old(self)@.subrange(at as int, old(self)@.len() as int),
            final(self).spec_order() == old(self).spec_order(),
            final(self).spec_width() == old(self).spec_width(),
            final(self).spec_capacity() == old(self).spec_capacity(),
            r.spec_order() == old(self).spec_order(),
            r.spec_width() == old(self).spec_width(),
    {
        let mut out = VecBit::new(self.order, self.width);
        let n = self.bits;
        let mut i = at;
        while i < n
            invariant
                self.wf(),
                out.wf(),
                at <= i <= n,
                *self == *old(self),
                n == old(self)@.len(),
                out@ == old(self)@.subrange(at as int, i as int),
                out.spec_order() == old(self).spec_order(),
                out.spec_width() == old(self).spec_width(),
            decreases n - i,
        {
            let b = self.get(i);
            out.push(b);
            i = i + 1;
            proof {
                assert(out@ =~= old(self)@.subrange(at as int, i as int));
            }
        }
        self.truncate(at);
        out
    }

    /// Clones the live bits of a borrowed vector into a new one over the
    /// same ordering and width.
    pub fn from_bitslice(slice: &VecBit) -> (r: VecBit)
        requires
            slice.wf(),
        ensures
            r.wf(),
            r@ == slice@,
            r.spec_order() == slice.spec_order(),
            r.spec_width() == slice.spec_width(),
    {
        proof {
            slice.lemma_wf_facts();
        }
        let bits = slice.to_bools();
        VecBit::from_bools(slice.order, slice.width, bits.as_slice())
    }

    /// Keeps only the bits the predicate approves. The predicate sees each
    /// bit with its original position, in position order, and the kept bits
    /// keep their relative order.
    pub fn retain<F: Fn(usize, bool) -> bool>(&mut self, pred: F)
        requires
            old(self).wf(),
            forall|i: usize, b: bool| i < old(self)@.len() ==> pred.requires((i, b)),
        ensures
            final(self).wf(),
            exists|keep: Seq<bool>|
                {
                    &&& keep.len() == old(self)@.len()
                    &&& final(self)@ == spec_masked(old(self)@, keep)
                    &&& forall|k: int|
                        0 <= k < keep.len() ==> pred.ensures(
                            (k as usize, old(self)@[k]),
                            keep[k],
                        )
                },
            final(self).spec_order() == old(self).spec_order(),
            final(self).spec_width() == old(self).spec_width(),
    {
        let ghost olds = *self;
        let n = self.bits;
        let mut kept: Vec<bool> = Vec::new();
        let ghost mut keep: Seq<bool> = Seq::empty();
        let mut i: usize = 0;
        while i < n
            invariant
                self.wf(),
                *self == olds,
                i <= n,
                n == olds@.len(),
                keep.len() == i as int,
                kept@.len() <= i,
                kept@ == spec_masked(olds@.take(i as int), keep),
                forall|k: int| 0 <= k < i ==> pred.ensures((k as usize, olds@[k]), keep[k]),
                forall|a: usize, b: bool| a < n ==> pred.requires((a, b)),
            decreases n - i,
        {
            let ghost keep0 = keep;
            let b = self.get(i);
            let c = pred(i, b);
            proof {
                keep = keep.push(c);
            }
            if c {
                kept.push(b);
            }
            i = i + 1;
            proof {
                assert(olds@.take(i as int).drop_last() =~= olds@.take(i - 1));
                assert(keep.drop_last() =~= keep0);
                assert(kept@ =~= spec_masked(olds@.take(i as int), keep));
            }
        }
        proof {
            assert(olds@.take(n as int) =~= olds@);
        }
        let next = VecBit::from_bools(self.order, self.width, kept.as_slice());
        *self = next;
    }

    /// Adds the addend into `self` left to right, least significant position
    /// first: a shorter addend is zero-extended, a longer one grows `self`,
    /// and a final carry appends one more bit.
    #[verifier::rlimit(50)]
    pub fn add_assign_reverse(&mut self, addend: &VecBit)
        requires
            old(self).wf(),
            addend.wf(),
            old(self)@.len() < MAX_BITS,
            addend@.len() < MAX_BITS,
        ensures
            final(self).wf(),
            final(self)@ == spec_add_rev(old(self)@, addend@, false),
            final(self).spec_order() == old(self).spec_order(),
            final(self).spec_width() == old(self).spec_width(),
    {
        let ghost olds = *self;
        let ghost result = spec_add_rev(olds@, addend@, false);
        let n1 = self.bits;
        let n2 = addend.len();
        let mut carry = false;
        let mut i: usize = 0;
        proof {
            assert(olds@.skip(0) =~= olds@);
            assert(addend@.skip(0) =~= addend@);
        }
        while i < n1 || i < n2
            invariant
                self.wf(),
                addend.wf(),
                n1 == olds@.len(),
                n2 == addend@.len(),
                n1 < MAX_BITS,
                n2 < MAX_BITS,
                i <= n1 || i <= n2,
                result == spec_add_rev(olds@, addend@, false),
                self@.len() == (if i <= n1 {
                    n1 as int
                } else {
                    i as int
                }),
                i as int <= result.len(),
                forall|k: int| 0 <= k < i ==> self@[k] == result[k],
                forall|k: int| i <= k < n1 ==> self@[k] == olds@[k],
                result.skip(i as int) == spec_add_rev(
                    olds@.skip(vstd::math::min(i as int, n1 as int)),
                    addend@.skip(vstd::math::min(i as int, n2 as int)),
                    carry,
                ),
                self.spec_order() == olds.spec_order(),
                self.spec_width() == olds.spec_width(),
            decreases (if n1 >= n2 {
                n1
            } else {
                n2
            }) - i,
        {
            let ghost sa = olds@.skip(vstd::math::min(i as int, n1 as int));
            let ghost sb = addend@.skip(vstd::math::min(i as int, n2 as int));
            let x = if i < n1 {
                self.get(i)
            } else {
                false
            };
            let y = if i < n2 {
                addend.get(i)
            } else {
                false
            };
            let sum = (x != y) != carry;
            let c2 = (x && y) || (x && carry) || (y && carry);
            let ghost ra = if sa.len() > 0 { sa.drop_first() } else { sa };
            let ghost rb = if sb.len() > 0 { sb.drop_first() } else { sb };
            proof {
                if i < n1 {
                    assert(sa.first() == olds@[i as int]);
                }
                if i < n2 {
                    assert(sb.first() == addend@[i as int]);
                }
                assert(x == (if sa.len() > 0 { sa.first() } else { false }));
                assert(y == (if sb.len() > 0 { sb.first() } else { false }));
                assert(spec_add_rev(sa, sb, carry) == seq![sum] + spec_add_rev(ra, rb, c2));
                assert(result[i as int] == (seq![sum] + spec_add_rev(ra, rb, c2))[0]);
                assert(result[i as int] == sum);
                if i < n1 {
                    assert(ra =~= olds@.skip(vstd::math::min(i + 1, n1 as int)));
                } else {
                    assert(ra =~= olds@.skip(vstd::math::min(i + 1, n1 as int)));
                }
                if i < n2 {
                    assert(rb =~= addend@.skip(vstd::math::min(i + 1, n2 as int)));
                } else {
                    assert(rb =~= addend@.skip(vstd::math::min(i + 1, n2 as int)));
                }
                assert(result.skip(i + 1) =~= result.skip(i as int).drop_first());
                assert(result.skip(i as int).drop_first() =~= spec_add_rev(ra, rb, c2));
            }
            if i < n1 {
                self.set(i, sum);
            } else {
                self.push(sum);
            }
            carry = c2;
            i = i + 1;
        }
        proof {
            assert(olds@.skip(vstd::math::min(i as int, n1 as int)) =~= Seq::<bool>::empty());
            assert(addend@.skip(vstd::math::min(i as int, n2 as int)) =~= Seq::<bool>::empty());
            assert(result.skip(i as int) == spec_add_rev(
                Seq::<bool>::empty(),
                Seq::<bool>::empty(),
                carry,
            ));
        }
        if carry {
            proof {
                assert(result.skip(self.bits as int) =~= seq![true]);
                assert(result.len() == self.bits + 1);
                assert(result[self.bits as int] == result.skip(self.bits as int)[0]);
            }
            self.push(true);
        } else {
            proof {
                assert(result.skip(self.bits as int) =~= Seq::<bool>::empty());
            }
        }
        proof {
            assert(self@ =~= result);
        }
    }

    /// Adds the addend into the consumed vector left to right and returns the
    /// sum vector.
    pub fn add_reverse(self, addend: &VecBit) -> (r: VecBit)
        requires
            self.wf(),
            addend.wf(),
            self@.len() < MAX_BITS,
            addend@.len() < MAX_BITS,
        ensures
            r.wf(),
            r@ == spec_add_rev(self@, addend@, false),
            r.spec_order() == self.spec_order(),
            r.spec_width() == self.spec_width(),
    {
        let mut sum = self;
        sum.add_assign_reverse(addend);
        sum
    }

    /// Copies the live bits out into a plain vector of booleans, in order.
    pub fn to_bools(&self) -> (r: Vec<bool>)
        requires
            self.wf(),
        ensures
            r@ == self@,
    {
        let n = self.bits;
        let mut out: Vec<bool> = Vec::new();
        let mut i: usize = 0;
        while i < n
            invariant
                self.wf(),
                i <= n,
                n == self@.len(),
                out@ == self@.subrange(0, i as int),
            decreases n - i,
        {
            let b = self.get(i);
            out.push(b);
            i = i + 1;
            proof {
                assert(out@ =~= self@.subrange(0, i as int));
            }
        }
        proof {
            assert(self@.subrange(0, n as int) =~= self@);
        }
        out
    }

    /// Changes the ordering strategy on the vector without changing the
    /// stored elements: the same memory is reinterpreted, so each bit
    /// position may read differently afterwards.
    pub fn change_cursor(self, order: Cursor) -> (r: VecBit)
        requires
            self.wf(),
        ensures
            r.wf(),
            r.spec_order() == order,
            r.spec_width() == self.spec_width(),
            r.spec_elems() == self.spec_elems(),
            r@.len() == self@.len(),
            r@ == spec_bits_of(
                order,
                self.spec_width().spec_bits(),
                self.spec_elems(),
                self@.len() as int,
            ),
            r.spec_capacity() == self.spec_capacity(),
    {
        let VecBit { order: _, width, elems, bits, capacity } = self;
        VecBit { order, width, elems, bits, capacity }
    }

    /// Gives the element buffer back, dropping the bit-level dressing.
    pub fn into_vec(self) -> (r: Vec<u64>)
        ensures
            r@ == self.spec_elems(),
    {
        let VecBit { elems, .. } = self;
        elems
    }

    /// Gives the element buffer back as a frozen boxed slice, dropping the
    /// bit-level dressing.
    pub fn into_boxed_slice(self) -> (r: Box<[u64]>)
        ensures
            r@ == self.spec_elems(),
    {
        vec_into_boxed_slice(self.into_vec())
    }

    /// The span descriptor equivalent to this vector: zero head, the
    /// vector's element count and bit length, over a dangling well-aligned
    /// base.
    pub fn bitptr(&self) -> (r: BitPtr)
        requires
            self.wf(),
        ensures
            r.spec_width() == self.spec_width(),
            r.spec_len() == self@.len(),
            r.spec_elts() == self.spec_elems().len(),
            r.spec_head_value() == 0,
            r.spec_tail_value() == crate::indices::spec_span_tail(
                self.spec_width().spec_bits(),
                0,
                self@.len() as int,
            ),
    {
        let head = BitIdx::new(self.width, 0).unwrap();
        proof {
            lemma_ceil_le_max(self.width, self.bits as int);
            vstd::arithmetic::div_mod::lemma_mod_self_0(self.width.spec_bytes() as int);
        }
        BitPtr::new(self.width.bytes() as usize, head, self.bits).unwrap()
    }

    /// Classifies the vector's live range over its own elements. An owned
    /// vector's head sits at zero, so only the shapes with a full front can
    /// arise.
    pub fn domain<'a>(&'a self) -> (r: BitDomain<'a>)
        requires
            self.wf(),
        ensures
            r.parts() == self.spec_elems(),
            (r is Empty <==> self@.len() == 0),
            (r is Spanning <==> self@.len() > 0 && crate::indices::spec_span_tail(
                self.spec_width().spec_bits(),
                0,
                self@.len() as int,
            ) == self.spec_width().spec_bits()),
            (r is PartialTail <==> self@.len() > 0 && crate::indices::spec_span_tail(
                self.spec_width().spec_bits(),
                0,
                self@.len() as int,
            ) < self.spec_width().spec_bits()),
            !(r is PartialHead),
            !(r is Minor),
            !(r is Major),
    {
        let bp = self.bitptr();
        proof {
            use_type_invariant(bp);
            bp.lemma_len_zero();
            crate::indices::lemma_span_exact(self.spec_width().spec_bits(), 0, self.bits as int);
        }
        bp.domain(self.elems.as_slice())
    }

    /// Removes the bits of `[from, upto)` from the vector, closing the gap,
    /// and hands them back as a draining cursor. The range is removed
    /// eagerly, whether or not the cursor is consumed.
    pub fn drain(&mut self, from: usize, upto: usize) -> (r: Drain)
        requires
            old(self).wf(),
            from <= upto <= old(self)@.len(),
        ensures
            final(self).wf(),
            final(self)@ == old(self)@.subrange(0, from as int) + old(self)@.subrange(
                upto as int,
                old(self)@.len() as int,
            ),
            r.wf(),
            r@ == old(self)@.subrange(from as int, upto as int),
            final(self).spec_order() == old(self).spec_order(),
            final(self).spec_width() == old(self).spec_width(),
            final(self).spec_capacity() == old(self).spec_capacity(),
    {
        let ghost olds = *self;
        let n = self.bits;
        let gap = upto - from;
        let mut taken: Vec<bool> = Vec::new();
        let mut i = from;
        while i < upto
            invariant
                self.wf(),
                *self == olds,
                from <= i <= upto <= n,
                n == olds@.len(),
                taken@ == olds@.subrange(from as int, i as int),
            decreases upto - i,
        {
            let b = self.get(i);
            taken.push(b);
            i = i + 1;
            proof {
                assert(taken@ =~= olds@.subrange(from as int, i as int));
            }
        }
        let mut j = upto;
        while j < n
            invariant
                self.wf(),
                upto <= j <= n,
                from <= upto <= n,
                gap == upto - from,
                n == olds@.len(),
                self@.len() == n,
                forall|k: int| 0 <= k < from ==> self@[k] == olds@[k],
                forall|k: int| from <= k < from + (j - upto) ==> self@[k] == olds@[k + gap],
                forall|k: int| from + (j - upto) <= k < n ==> self@[k] == olds@[k],
                self.spec_order() == olds.spec_order(),
                self.spec_width() == olds.spec_width(),
                self.spec_capacity() == olds.spec_capacity(),
            decreases n - j,
        {
            let b = self.get(j);
            self.set(j - gap, b);
            j = j + 1;
        }
        self.truncate(n - gap);
        proof {
            assert(self@ =~= olds@.subrange(0, from as int) + olds@.subrange(
                upto as int,
                n as int,
            ));
            assert(taken@.subrange(0, taken@.len() as int) =~= taken@);
        }
        let back = taken.len();
        Drain { bits: taken, front: 0, back }
    }

    /// Replaces the bits of `[from, upto)` with the bits of `replacement`,
    /// which need not be as many, and hands the removed bits back as a
    /// draining cursor. The exchange happens eagerly, whether or not the
    /// cursor is consumed.
    pub fn splice(&mut self, from: usize, upto: usize, replacement: &VecBit) -> (r: Splice)
        requires
            old(self).wf(),
            replacement.wf(),
            from <= upto <= old(self)@.len(),
            old(self)@.len() - (upto - from) + replacement@.len() <= MAX_BITS,
        ensures
            final(self).wf(),
            final(self)@ == old(self)@.subrange(0, from as int) + replacement@ + old(
                self,
            )@.subrange(upto as int, old(self)@.len() as int),
            r.wf(),
            r@ == old(self)@.subrange(from as int, upto as int),
            final(self).spec_order() == old(self).spec_order(),
            final(self).spec_width() == old(self).spec_width(),
    {
        let ghost olds = *self;
        let n = self.bits;
        let m = replacement.len();
        let mut taken: Vec<bool> = Vec::new();
        let mut i = from;
        while i < upto
            invariant
                self.wf(),
                *self == olds,
                from <= i <= upto <= n,
                n == olds@.len(),
                taken@ == olds@.subrange(from as int, i as int),
            decreases upto - i,
        {
            let b = self.get(i);
            taken.push(b);
            i = i + 1;
            proof {
                assert(taken@ =~= olds@.subrange(from as int, i as int));
            }
        }
        let mut kept: Vec<bool> = Vec::new();
        let mut i: usize = 0;
        while i < from
            invariant
                self.wf(),
                *self == olds,
                i <= from <= n,
                n == olds@.len(),
                kept@ == olds@.subrange(0, i as int),
            decreases from - i,
        {
            let b = self.get(i);
            kept.push(b);
            i = i + 1;
            proof {
                assert(kept@ =~= olds@.subrange(0, i as int));
            }
        }
        let mut i: usize = 0;
        while i < m
            invariant
                self.wf(),
                *self == olds,
                replacement.wf(),
                i <= m,
                from <= n,
                m == replacement@.len(),
                n == olds@.len(),
                kept@ == olds@.subrange(0, from as int) + replacement@.subrange(0, i as int),
            decreases m - i,
        {
            let b = replacement.get(i);
            kept.push(b);
            i = i + 1;
            proof {
                assert(kept@ =~= olds@.subrange(0, from as int) + replacement@.subrange(
                    0,
                    i as int,
                ));
            }
        }
        let mut i = upto;
        while i < n
            invariant
                self.wf(),
                *self == olds,
                upto <= i <= n,
                from <= upto,
                m == replacement@.len(),
                n == olds@.len(),
                kept@ == olds@.subrange(0, from as int) + replacement@ + olds@.subrange(
                    upto as int,
                    i as int,
                ),
            decreases n - i,
        {
            let b = self.get(i);
            kept.push(b);
            i = i + 1;
            proof {
                assert(kept@ =~= olds@.subrange(0, from as int) + replacement@ + olds@.subrange(
                    upto as int,
                    i as int,
                ));
            }
        }
        proof {
            assert(replacement@.subrange(0, m as int) =~= replacement@);
            assert(kept@.len() == n - (upto - from) + m);
        }
        *self = VecBit::from_bools(self.order, self.width, kept.as_slice());
        proof {
            assert(taken@.subrange(0, taken@.len() as int) =~= taken@);
        }
        let back = taken.len();
        Splice { bits: taken, front: 0, back }
    }

    /// Consumes the vector into a double-ended cursor over its bits.
    pub fn into_iter(self) -> (r: IntoIter)
        requires
            self.wf(),
        ensures
            r.wf(),
            r@ == self@,
    {
        let bits = self.to_bools();
        let back = bits.len();
        proof {
            assert(bits@.subrange(0, back as int) =~= bits@);
        }
        IntoIter { bits, front: 0, back }
    }
}

impl Default for VecBit {
    /// The empty vector over the default ordering and the widest element.
    fn default() -> (r: Self)
        ensures
            r.wf(),
            r@ == Seq::<bool>::empty(),
            r.spec_order() == crate::cursor::LOCAL,
            r.spec_width() == BitWidth::W64,
    {
        VecBit::new(crate::cursor::LOCAL, BitWidth::W64)
    }
}

/// The bits removed by a drain, read out from either end.
pub struct Drain {
    bits: Vec<bool>,
    front: usize,
    back: usize,
}

/// The bits removed by a splice, read out from either end.
pub struct Splice {
    bits: Vec<bool>,
    front: usize,
    back: usize,
}

/// A consumed vector's bits, read out from either end.
pub struct IntoIter {
    bits: Vec<bool>,
    front: usize,
    back: usize,
}

impl View for Drain {
    type V = Seq<bool>;

    /// The bits not yet read out.
    closed spec fn view(&self) -> Seq<bool> {
        self.bits@.subrange(self.front as int, self.back as int)
    }
}

impl View for Splice {
    type V = Seq<bool>;

    /// The bits not yet read out.
    closed spec fn view(&self) -> Seq<bool> {
        self.bits@.subrange(self.front as int, self.back as int)
    }
}

impl View for IntoIter {
    type V = Seq<bool>;

    /// The bits not yet read out.
    closed spec fn view(&self) -> Seq<bool> {
        self.bits@.subrange(self.front as int, self.back as int)
    }
}

impl Drain {
    /// The cursors sit inside the removed bits.
    pub closed spec fn wf(self) -> bool {
        self.front <= self.back <= self.bits@.len()
    }

    /// Number of bits not yet read out.
    pub fn len(&self) -> (r: usize)
        requires
            self.wf(),
        ensures
            r == self@.len(),
    {
        self.back - self.front
    }

    /// Reads the next bit from the front, if one is left.
    pub fn next(&mut self) -> (r: Option<bool>)
        requires
            old(self).wf(),
        ensures
            final(self).wf(),
            old(self)@.len() == 0 ==> r == None::<bool> && final(self)@ == old(self)@,
            old(self)@.len() > 0 ==> r == Some(old(self)@.first()) && final(self)@ == old(
                self,
            )@.drop_first(),
    {
        if self.front < self.back {
            let b = self.bits[self.front];
            self.front = self.front + 1;
            proof {
                assert(self@ =~= old(self)@.drop_first());
            }
            Some(b)
        } else {
            None
        }
    }

    /// Reads the next bit from the back, if one is left.
    pub fn next_back(&mut self) -> (r: Option<bool>)
        requires
            old(self).wf(),
        ensures
            final(self).wf(),
            old(self)@.len() == 0 ==> r == None::<bool> && final(self)@ == old(self)@,
            old(self)@.len() > 0 ==> r == Some(old(self)@.last()) && final(self)@ == old(
                self,
            )@.drop_last(),
    {
        if self.front < self.back {
            let b = self.bits[self.back - 1];
            self.back = self.back - 1;
            proof {
                assert(self@ =~= old(self)@.drop_last());
            }
            Some(b)
        } else {
            None
        }
    }
}

impl Splice {
    /// The cursors sit inside the removed bits.
    pub closed spec fn wf(self) -> bool {
        self.front <= self.back <= self.bits@.len()
    }

    /// Number of bits not yet read out.
    pub fn len(&self) -> (r: usize)
        requires
            self.wf(),
        ensures
            r == self@.len(),
    {
        self.back - self.front
    }

    /// Reads the next bit from the front, if one is left.
    pub fn next(&mut self) -> (r: Option<bool>)
        requires
            old(self).wf(),
        ensures
            final(self).wf(),
            old(self)@.len() == 0 ==> r == None::<bool> && final(self)@ == old(self)@,
            old(self)@.len() > 0 ==> r == Some(old(self)@.first()) && final(self)@ == old(
                self,
            )@.drop_first(),
    {
        if self.front < self.back {
            let b = self.bits[self.front];
            self.front = self.front + 1;
            proof {
                assert(self@ =~= old(self)@.drop_first());
            }
            Some(b)
        } else {
            None
        }
    }

    /// Reads the next bit from the back, if one is left.
    pub fn next_back(&mut self) -> (r: Option<bool>)
        requires
            old(self).wf(),
        ensures
            final(self).wf(),
            old(self)@.len() == 0 ==> r == None::<bool> && final(self)@ == old(self)@,
            old(self)@.len() > 0 ==> r == Some(old(self)@.last()) && final(self)@ == old(
                self,
            )@.drop_last(),
    {
        if self.front < self.back {
            let b = self.bits[self.back - 1];
            self.back = self.back - 1;
            proof {
                assert(self@ =~= old(self)@.drop_last());
            }
            Some(b)
        } else {
            None
        }
    }
}

impl IntoIter {
    /// The cursors sit inside the consumed bits.
    pub closed spec fn wf(self) -> bool {
        self.front <= self.back <= self.bits@.len()
    }

    /// Number of bits not yet read out.
    pub fn len(&self) -> (r: usize)
        requires
            self.wf(),
        ensures
            r == self@.len(),
    {
        self.back - self.front
    }

    /// Reads the next bit from the front, if one is left.
    pub fn next(&mut self) -> (r: Option<bool>)
        requires
            old(self).wf(),
        ensures
            final(self).wf(),
            old(self)@.len() == 0 ==> r == None::<bool> && final(self)@ == old(self)@,
            old(self)@.len() > 0 ==> r == Some(old(self)@.first()) && final(self)@ == old(
                self,
            )@.drop_first(),
    {
        if self.front < self.back {
            let b = self.bits[self.front];
            self.front = self.front + 1;
            proof {
                assert(self@ =~= old(self)@.drop_first());
            }
            Some(b)
        } else {
            None
        }
    }

    /// Reads the next bit from the back, if one is left.
    pub fn next_back(&mut self) -> (r: Option<bool>)
        requires
            old(self).wf(),
        ensures
            final(self).wf(),
            old(self)@.len() == 0 ==> r == None::<bool> && final(self)@ == old(self)@,
            old(self)@.len() > 0 ==> r == Some(old(self)@.last()) && final(self)@ == old(
                self,
            )@.drop_last(),
    {
        if self.front < self.back {
            let b = self.bits[self.back - 1];
            self.back = self.back - 1;
            proof {
                assert(self@ =~= old(self)@.drop_last());
            }
            Some(b)
        } else {
            None
        }
    }
}

} // verus!
