//! Trusted views of the lock-free atomic cells.
//!
//! The concurrent estimator stores every mutable field in an atomic cell
//! and updates it with relaxed read-modify-write primitives, so that the
//! same compiled operations are safe under shared access.  Verus reasons
//! about the cells through the value functions below; the contracts state
//! what each primitive does to that value under exclusive access.

use vstd::prelude::*;
use core::sync::atomic::{AtomicU64, AtomicU8, AtomicUsize, Ordering};
use crate::model::reg_max;

verus! {

/// The byte a register cell currently holds.
pub uninterp spec fn atomic_u8_value(cell: AtomicU8) -> u8;

/// The word a 64-bit cell currently holds.
pub uninterp spec fn atomic_u64_value(cell: AtomicU64) -> u64;

/// The count a counter cell currently holds.
pub uninterp spec fn atomic_usize_value(cell: AtomicUsize) -> usize;

/// The register values behind a sequence of cells, in order.
pub open spec fn regs_view(cells: Seq<AtomicU8>) -> Seq<u8> {
    Seq::new(cells.len(), |i: int| atomic_u8_value(cells[i]))
}

/// Relies on `core::sync::atomic::AtomicU8::new`.
#[verifier::external_body]
pub(crate) fn atomic_u8_new(v: u8) -> (c: AtomicU8)
    ensures
        atomic_u8_value(c) == v,
{
    AtomicU8::new(v)
}

/// Relies on `core::sync::atomic::AtomicU64::new`.
#[verifier::external_body]
pub(crate) fn atomic_u64_new(v: u64) -> (c: AtomicU64)
    ensures
        atomic_u64_value(c) == v,
{
    AtomicU64::new(v)
}

/// Relies on `core::sync::atomic::AtomicUsize::new`.
#[verifier::external_body]
pub(crate) fn atomic_usize_new(v: usize) -> (c: AtomicUsize)
    ensures
        atomic_usize_value(c) == v,
{
    AtomicUsize::new(v)
}

/// Relies on `core::sync::atomic::AtomicU8::load` (relaxed); with the cell
/// reached through this exclusive ownership tree the read returns the
/// cell's value.
#[verifier::external_body]
pub(crate) fn atomic_regs_load(cells: &Vec<AtomicU8>, i: usize) -> (r: u8)
    requires
        i < cells@.len(),
    ensures
        r == atomic_u8_value(cells@[i as int]),
{
    cells[i].load(Ordering::Relaxed)
}

/// Relies on `core::sync::atomic::AtomicU8::fetch_max` (relaxed): returns
/// the previous byte and leaves the larger of it and `v` in the cell; no
/// other cell is touched.
#[verifier::external_body]
pub(crate) fn atomic_regs_fetch_max(cells: &mut Vec<AtomicU8>, i: usize, v: u8) -> (r: u8)
    requires
        i < old(cells)@.len(),
    ensures
        r == atomic_u8_value(old(cells)@[i as int]),
        final(cells)@.len() == old(cells)@.len(),
        atomic_u8_value(final(cells)@[i as int]) == reg_max(r, v),
        forall|j: int|
            0 <= j < old(cells)@.len() && j != i ==> final(cells)@[j] == old(cells)@[j],
{
    cells[i].fetch_max(v, Ordering::Relaxed)
}

/// Relies on `core::sync::atomic::AtomicUsize::load` (relaxed), as an
/// exclusive read.
#[verifier::external_body]
pub(crate) fn atomic_usize_load(cell: &AtomicUsize) -> (r: usize)
    ensures
        r == atomic_usize_value(*cell),
{
    cell.load(Ordering::Relaxed)
}

/// Relies on `core::sync::atomic::AtomicUsize::fetch_sub` (relaxed):
/// returns the previous count and leaves the difference; the bound on `v`
/// keeps the subtraction from wrapping.
#[verifier::external_body]
pub(crate) fn atomic_usize_fetch_sub(cell: &mut AtomicUsize, v: usize) -> (r: usize)
    requires
        v <= atomic_usize_value(*old(cell)),
    ensures
        r == atomic_usize_value(*old(cell)),
        atomic_usize_value(*final(cell)) == r - v,
{
    cell.fetch_sub(v, Ordering::Relaxed)
}

/// Relies on `core::sync::atomic::AtomicU64::load` (relaxed), as an
/// exclusive read.
#[verifier::external_body]
pub(crate) fn atomic_u64_load(cell: &AtomicU64) -> (r: u64)
    ensures
        r == atomic_u64_value(*cell),
{
    cell.load(Ordering::Relaxed)
}

/// Relies on `core::sync::atomic::AtomicU64::fetch_sub` (relaxed):
/// returns the previous word and leaves the wrapping difference.
#[verifier::external_body]
pub(crate) fn atomic_u64_fetch_sub_wrap(cell: &mut AtomicU64, v: u64) -> (r: u64)
    ensures
        r == atomic_u64_value(*old(cell)),
        atomic_u64_value(*final(cell)) == (if v <= r {
            (r - v) as u64
        } else {
            ((r + 0x1_0000_0000_0000_0000u128 - v) as u64)
        }),
{
    cell.fetch_sub(v, Ordering::Relaxed)
}

} // verus!
