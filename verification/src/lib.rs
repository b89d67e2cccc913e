//! Distinct-count estimation in bounded memory.
//!
//! The crate keeps an array of small registers, updated from 64-bit
//! hashes, together with exactly-maintained aggregates (zero-register
//! count and a scaled harmonic sum) from which a cardinality estimate is
//! derived.  A sparse front-end stores small cardinalities as a sorted,
//! delta-encoded stream of compact hash encodings and promotes itself to
//! the dense form exactly once, preserving the dense state bit for bit.

use vstd::prelude::*;

pub mod atomic;
pub mod buf;
pub mod cells;
pub mod dense;
pub mod hasher;
pub mod model;
pub mod sparse;
pub mod vint;

pub use atomic::AtomicHyperLogLog;
pub use buf::Buf;
pub use dense::HyperLogLog;
pub use hasher::DefaultHasher;
pub use sparse::{decode_hash, encode_hash, CountData, DiffIter, DiffVec, HyperLogLogPlus, SparseLogLog};
pub use vint::VarInt;

verus! {

/// The one recoverable failure: merging estimators whose register arrays
/// differ in length.
#[derive(Clone, Copy, Debug, PartialEq, Eq, Structural)]
pub enum Error {
    IncompatibleLength,
}

/// Whether a precision is supported for the dense register forms.
pub fn precision_supported(precision: u8) -> (r: bool)
    ensures
        r == (4 <= precision <= 18),
{
    4 <= precision && precision <= 18
}

} // verus!
