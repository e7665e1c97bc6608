//! The general public API collected in one spot, for inclusion as
//! `use vecbit::prelude::*;` without walking the module tree.

pub use crate::access::BitAccess;
pub use crate::cursor::{Cursor, LOCAL};
pub use crate::domain::BitDomain;
pub use crate::indices::{BitIdx, BitTail};
pub use crate::pointer::{BitPtr, BitPtrError};
pub use crate::store::{BitWidth, MAX_BITS};
pub use crate::vec::{Drain, IntoIter, Splice, VecBit};
