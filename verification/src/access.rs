//! The access discipline for a storage element that other live views may
//! reach.
//!
//! Writing a whole element directly while another view touches a different
//! bit of the same element is a data race under the target memory model, so
//! every single-bit touch of a potentially shared element must route through
//! an indivisible primitive. [`BitAccess`] holds one element behind radium's
//! best-effort atomic wrapper for 64-bit values and offers single-bit
//! read-modify-write operations over it, each performed as one atomic
//! fetch-and / fetch-or / fetch-xor with relaxed ordering: the crate promises
//! nothing beyond each bit's own atomicity, so callers needing cross-view
//! ordering must synchronize on their own.
//!
//! The whole-element [`BitAccess::load`] and [`BitAccess::store`] escape
//! hatches stay sound here because every mutator takes the element
//! exclusively; the atomic primitive is what the same discipline costs when
//! views of one element are genuinely shared.

use vstd::prelude::*;

use crate::cursor::Cursor;
use crate::indices::BitIdx;
use crate::store::{
    elem_bit,
    fits_width,
    lemma_bit_clear,
    lemma_bit_flip,
    lemma_bit_set,
    lemma_bit_test,
    lemma_mask_ops_fit,
    BitWidth,
};

verus! {

/// The value stored inside radium's shared-mutable wrapper of a 64-bit
/// element.
pub uninterp spec fn radium_value(cell: radium::types::RadiumU64) -> u64;

/// Relies on radium's `Radium::new` for `RadiumU64`: wraps `value` as the
/// stored contents.
#[verifier::external_body]
fn radium_new(value: u64) -> (r: radium::types::RadiumU64)
    ensures
        radium_value(r) == value,
{
    radium::Radium::new(value)
}

/// Relies on radium's `Radium::load` for `RadiumU64`: returns the stored
/// value.
#[verifier::external_body]
fn radium_load(cell: &radium::types::RadiumU64) -> (r: u64)
    ensures
        r == radium_value(*cell),
{
    radium::Radium::load(cell, core::sync::atomic::Ordering::Relaxed)
}

/// Relies on radium's `Radium::store` for `RadiumU64`: replaces the stored
/// value.
#[verifier::external_body]
fn radium_store(cell: &mut radium::types::RadiumU64, value: u64)
    ensures
        radium_value(*final(cell)) == value,
{
    radium::Radium::store(&*cell, value, core::sync::atomic::Ordering::Relaxed)
}

/// Relies on radium's `Radium::fetch_and` for `RadiumU64`: atomically stores
/// the bitwise AND of the stored value and `value`, returning the previously
/// stored value.
#[verifier::external_body]
fn radium_fetch_and(cell: &mut radium::types::RadiumU64, value: u64) -> (r: u64)
    ensures
        radium_value(*final(cell)) == radium_value(*old(cell)) & value,
        r == radium_value(*old(cell)),
{
    radium::Radium::fetch_and(&*cell, value, core::sync::atomic::Ordering::Relaxed)
}

/// Relies on radium's `Radium::fetch_or` for `RadiumU64`: atomically stores
/// the bitwise OR of the stored value and `value`, returning the previously
/// stored value.
#[verifier::external_body]
fn radium_fetch_or(cell: &mut radium::types::RadiumU64, value: u64) -> (r: u64)
    ensures
        radium_value(*final(cell)) == radium_value(*old(cell)) | value,
        r == radium_value(*old(cell)),
{
    radium::Radium::fetch_or(&*cell, value, core::sync::atomic::Ordering::Relaxed)
}

/// Relies on radium's `Radium::fetch_xor` for `RadiumU64`: atomically stores
/// the bitwise XOR of the stored value and `value`, returning the previously
/// stored value.
#[verifier::external_body]
fn radium_fetch_xor(cell: &mut radium::types::RadiumU64, value: u64) -> (r: u64)
    ensures
        radium_value(*final(cell)) == radium_value(*old(cell)) ^ value,
        r == radium_value(*old(cell)),
{
    radium::Radium::fetch_xor(&*cell, value, core::sync::atomic::Ordering::Relaxed)
}

/// One storage element behind the shared-mutable access wrapper: the only
/// sanctioned interface for touching a single bit of an element that may be
/// reachable through another live view.
pub struct BitAccess {
    width: BitWidth,
    cell: radium::types::RadiumU64,
}

impl BitAccess {
    /// A wrapped element never uses bits at or above its width.
    pub closed spec fn wf(self) -> bool {
        fits_width(radium_value(self.cell), self.width.spec_bits())
    }

    /// The element width this wrapper was built for.
    pub closed spec fn spec_width(self) -> BitWidth {
        self.width
    }

    /// The element value currently stored.
    pub closed spec fn spec_value(self) -> u64 {
        radium_value(self.cell)
    }

    /// Wraps one element value for shared-mutable access.
    pub fn new(width: BitWidth, value: u64) -> (r: BitAccess)
        requires
            fits_width(value, width.spec_bits()),
        ensures
            r.wf(),
            r.spec_width() == width,
            r.spec_value() == value,
    {
        BitAccess { width, cell: radium_new(value) }
    }

    /// Reads the whole element out of contended memory into a local value.
    pub fn load(&self) -> (r: u64)
        ensures
            r == self.spec_value(),
    {
        radium_load(&self.cell)
    }

    /// Stores a whole element value, replacing every bit at once. Sound only
    /// under exclusive, uncontended access to the element, which the
    /// exclusive borrow provides.
    pub fn store(&mut self, value: u64)
        requires
            fits_width(value, old(self).spec_width().spec_bits()),
        ensures
            final(self).wf(),
            final(self).spec_width() == old(self).spec_width(),
            final(self).spec_value() == value,
    {
        radium_store(&mut self.cell, value)
    }

    /// Reads the single bit that `place` controls under the ordering `order`.
    pub fn get(&self, order: Cursor, place: BitIdx) -> (r: bool)
        requires
            place.spec_width() == self.spec_width(),
        ensures
            r == elem_bit(
                self.spec_value(),
                order.spec_at(self.spec_width().spec_bits(), place.spec_value()),
            ),
    {
        let mask = order.mask(place);
        proof {
            use_type_invariant(place);
            place.bounds();
            lemma_bit_test(
                self.spec_value(),
                order.spec_at(self.spec_width().spec_bits(), place.spec_value()),
            );
        }
        (self.load() & mask) != 0
    }

    /// Unconditionally writes a one into the bit that `place` controls,
    /// preserving every other bit.
    pub fn set_bit(&mut self, order: Cursor, place: BitIdx)
        requires
            old(self).wf(),
            place.spec_width() == old(self).spec_width(),
        ensures
            final(self).wf(),
            final(self).spec_width() == old(self).spec_width(),
            final(self).spec_value() == old(self).spec_value() | order.spec_mask(
                old(self).spec_width().spec_bits(),
                place.spec_value(),
            ),
            ({
                let pos = order.spec_at(old(self).spec_width().spec_bits(), place.spec_value());
                &&& elem_bit(final(self).spec_value(), pos)
                &&& forall|q: u64|
                    q < 64 && q != pos ==> elem_bit(final(self).spec_value(), q) == elem_bit(
                        old(self).spec_value(),
                        q,
                    )
            }),
    {
        let mask = order.mask(place);
        proof {
            use_type_invariant(place);
            place.bounds();
            lemma_bit_set(
                self.spec_value(),
                order.spec_at(self.spec_width().spec_bits(), place.spec_value()),
                self.spec_width().spec_bits(),
            );
        }
        radium_fetch_or(&mut self.cell, mask);
    }

    /// Unconditionally writes a zero into the bit that `place` controls,
    /// preserving every other bit.
    pub fn clear_bit(&mut self, order: Cursor, place: BitIdx)
        requires
            old(self).wf(),
            place.spec_width() == old(self).spec_width(),
        ensures
            final(self).wf(),
            final(self).spec_width() == old(self).spec_width(),
            final(self).spec_value() == old(self).spec_value() & !order.spec_mask(
                old(self).spec_width().spec_bits(),
                place.spec_value(),
            ),
            ({
                let pos = order.spec_at(old(self).spec_width().spec_bits(), place.spec_value());
                &&& !elem_bit(final(self).spec_value(), pos)
                &&& forall|q: u64|
                    q < 64 && q != pos ==> elem_bit(final(self).spec_value(), q) == elem_bit(
                        old(self).spec_value(),
                        q,
                    )
            }),
    {
        let mask = order.mask(place);
        proof {
            use_type_invariant(place);
            place.bounds();
            lemma_bit_clear(
                self.spec_value(),
                order.spec_at(self.spec_width().spec_bits(), place.spec_value()),
                self.spec_width().spec_bits(),
            );
        }
        radium_fetch_and(&mut self.cell, !mask);
    }

    /// Inverts the bit that `place` controls, preserving every other bit.
    pub fn invert_bit(&mut self, order: Cursor, place: BitIdx)
        requires
            old(self).wf(),
            place.spec_width() == old(self).spec_width(),
        ensures
            final(self).wf(),
            final(self).spec_width() == old(self).spec_width(),
            final(self).spec_value() == old(self).spec_value() ^ order.spec_mask(
                old(self).spec_width().spec_bits(),
                place.spec_value(),
            ),
            ({
                let pos = order.spec_at(old(self).spec_width().spec_bits(), place.spec_value());
                &&& elem_bit(final(self).spec_value(), pos) == !elem_bit(
                    old(self).spec_value(),
                    pos,
                )
                &&& forall|q: u64|
                    q < 64 && q != pos ==> elem_bit(final(self).spec_value(), q) == elem_bit(
                        old(self).spec_value(),
                        q,
                    )
            }),
    {
        let mask = order.mask(place);
        proof {
            use_type_invariant(place);
            place.bounds();
            lemma_bit_flip(
                self.spec_value(),
                order.spec_at(self.spec_width().spec_bits(), place.spec_value()),
                self.spec_width().spec_bits(),
            );
        }
        radium_fetch_xor(&mut self.cell, mask);
    }

    /// Writes `value` into the bit that `place` controls, preserving every
    /// other bit.
    pub fn set(&mut self, order: Cursor, place: BitIdx, value: bool)
        requires
            old(self).wf(),
            place.spec_width() == old(self).spec_width(),
        ensures
            final(self).wf(),
            final(self).spec_width() == old(self).spec_width(),
            ({
                let pos = order.spec_at(old(self).spec_width().spec_bits(), place.spec_value());
                &&& elem_bit(final(self).spec_value(), pos) == value
                &&& forall|q: u64|
                    q < 64 && q != pos ==> elem_bit(final(self).spec_value(), q) == elem_bit(
                        old(self).spec_value(),
                        q,
                    )
            }),
    {
        if value {
            self.set_bit(order, place);
        } else {
            self.clear_bit(order, place);
        }
    }

    /// Writes ones into every bit the mask marks, preserving the complement.
    pub fn set_bits(&mut self, mask: u64)
        requires
            old(self).wf(),
            fits_width(mask, old(self).spec_width().spec_bits()),
        ensures
            final(self).wf(),
            final(self).spec_width() == old(self).spec_width(),
            final(self).spec_value() == old(self).spec_value() | mask,
    {
        proof {
            lemma_mask_ops_fit(self.spec_value(), mask, self.spec_width().spec_bits());
        }
        radium_fetch_or(&mut self.cell, mask);
    }

    /// Keeps only the bits the mask marks, clearing the complement.
    pub fn clear_bits(&mut self, mask: u64)
        requires
            old(self).wf(),
        ensures
            final(self).wf(),
            final(self).spec_width() == old(self).spec_width(),
            final(self).spec_value() == old(self).spec_value() & mask,
    {
        proof {
            lemma_mask_ops_fit(self.spec_value(), mask, self.spec_width().spec_bits());
        }
        radium_fetch_and(&mut self.cell, mask);
    }
}

} // verus!
