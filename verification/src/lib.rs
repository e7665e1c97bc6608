//! A bit-addressable sequence representation: descriptors and arithmetic for a
//! contiguous run of live bits inside a buffer of fixed-width unsigned storage
//! elements, a configurable bit-ordering strategy, a classification of a live
//! range into bulk-dispatch shapes, and a shared-mutable single-bit access
//! discipline, together with a growable bit vector built on top of them.

pub mod access;
pub mod cursor;
pub mod domain;
pub mod indices;
pub mod pointer;
pub mod prelude;
pub mod store;
pub mod vec;
