//! The lock-free shared dense estimator state.
//!
//! `AtomicHyperLogLog` keeps the same register model as the exclusive
//! form, but every mutable field lives in an atomic cell updated with
//! relaxed read-modify-write primitives (`fetch_max` on a register,
//! `fetch_sub` on the zero counter and on the two words of the scaled
//! harmonic sum), so the compiled updates stay safe under concurrent
//! sharing.  Verification covers the exclusive use of those primitives:
//! from a well-formed state, every operation moves the cells exactly as
//! the specification of the exclusive form says.

use vstd::prelude::*;
use vstd::std_specs::cmp::PartialEqSpec;
use std::hash::Hash;
use core::sync::atomic::{AtomicU64, AtomicU8, AtomicUsize};
use crate::cells::{
    atomic_regs_fetch_max, atomic_regs_load, atomic_u64_fetch_sub_wrap, atomic_u64_load,
    atomic_u64_new, atomic_u64_value, atomic_u8_new, atomic_u8_value, atomic_usize_fetch_sub,
    atomic_usize_load, atomic_usize_new, atomic_usize_value, regs_view,
};
use crate::hasher::DefaultHasher;
use crate::model::{
    count_zeros, lemma_aggregates_update, lemma_pow2_65_value, lemma_rank_bound,
    lemma_sum_all_zero, lemma_term_bounds, lemma_term_decreases, lemma_term_le_sum,
    lemma_zero_at, max_register, merged_regs, reg_max, regs_wf, spec_hash_rank,
    spec_insert_hash, spec_insert_seq, spec_update, sum_terms, term_value,
};
use crate::Error;

verus! {

/// Approximates the number of distinct elements inserted, in bounded
/// memory, with every mutable field in an independently updatable atomic
/// cell.
#[derive(Debug)]
pub struct AtomicHyperLogLog {
    registers: Vec<AtomicU8>,
    precision: u8,
    hasher: DefaultHasher,
    zeros: AtomicUsize,
    sum_lo: AtomicU64,
    sum_hi: AtomicU64,
}

impl AtomicHyperLogLog {
    /// The register values currently in the cells.
    pub closed spec fn regs(&self) -> Seq<u8> {
        regs_view(self.registers@)
    }

    /// The precision this estimator was built with.
    pub closed spec fn precision(&self) -> u8 {
        self.precision
    }

    /// Well-formed state: `2^precision` registers, every value
    /// admissible, and both aggregate cells exactly equal to a full scan.
    pub closed spec fn wf(&self) -> bool {
        &&& 4 <= self.precision <= 18
        &&& self.registers@.len() == (1usize << (self.precision as usize))
        &&& regs_wf(self.regs())
        &&& atomic_usize_value(self.zeros) == count_zeros(self.regs())
        &&& (atomic_u64_value(self.sum_hi) as nat) * 0x1_0000_0000_0000_0000nat
            + atomic_u64_value(self.sum_lo) == sum_terms(self.regs())
    }

    /// Returns a fresh estimator with `1 << precision` zero registers,
    /// using the provided hasher.
    pub fn with_hasher(precision: u8, hasher: DefaultHasher) -> (r: Self)
        requires
            4 <= precision <= 18,
        ensures
            r.wf(),
            r.precision() == precision,
            r.regs().len() == (1usize << (precision as usize)),
            forall|i: int| 0 <= i < r.regs().len() ==> r.regs()[i] == 0,
    {
        let m: usize = 1usize << (precision as usize);
        proof {
            assert(4 <= precision <= 18 ==> (1usize << (precision as usize)) <= 0x40000usize)
                by (bit_vector);
        }
        let mut registers: Vec<AtomicU8> = Vec::new();
        let mut i: usize = 0;
        while i < m
            invariant
                i <= m,
                registers@.len() == i,
                forall|j: int| 0 <= j < i ==> atomic_u8_value(#[trigger] registers@[j]) == 0,
            decreases m - i,
        {
            registers.push(atomic_u8_new(0));
            i = i + 1;
        }
        proof {
            assert(forall|j: int|
                0 <= j < regs_view(registers@).len() ==> regs_view(registers@)[j] == 0);
            lemma_sum_all_zero(regs_view(registers@));
            lemma_pow2_65_value();
            assert((2 * m) as nat * 0x1_0000_0000_0000_0000nat == m as nat * (
            0x2_0000_0000_0000_0000 as nat)) by (nonlinear_arith);
        }
        let hi: u64 = (m as u64) * 2;
        AtomicHyperLogLog {
            registers,
            precision,
            hasher,
            zeros: atomic_usize_new(m),
            sum_lo: atomic_u64_new(0),
            sum_hi: atomic_u64_new(hi),
        }
    }

    /// Returns a fresh estimator using a randomly seeded hasher.
    pub fn new(precision: u8) -> (r: Self)
        requires
            4 <= precision <= 18,
        ensures
            r.wf(),
            r.precision() == precision,
            forall|i: int| 0 <= i < r.regs().len() ==> r.regs()[i] == 0,
    {
        Self::with_hasher(precision, DefaultHasher::random())
    }

    /// Returns a fresh estimator whose hasher is seeded with `seed`:
    /// reproducible across runs and platforms.
    pub fn seeded(precision: u8, seed: u128) -> (r: Self)
        requires
            4 <= precision <= 18,
        ensures
            r.wf(),
            r.precision() == precision,
            forall|i: int| 0 <= i < r.regs().len() ==> r.regs()[i] == 0,
    {
        Self::with_hasher(precision, DefaultHasher::seeded(&crate::hasher::seed_bytes(seed)))
    }

    /// The number of registers.
    pub fn len(&self) -> (r: usize)
        ensures
            r == self.regs().len(),
    {
        self.registers.len()
    }

    /// A snapshot of every register value, in index order.
    pub fn iter(&self) -> (r: Vec<u8>)
        ensures
            r@ == self.regs(),
    {
        let mut out: Vec<u8> = Vec::new();
        let mut i: usize = 0;
        while i < self.registers.len()
            invariant
                i <= self.registers@.len(),
                out@.len() == i,
                forall|j: int| 0 <= j < i ==> out@[j] == self.regs()[j],
            decreases self.registers@.len() - i,
        {
            out.push(atomic_regs_load(&self.registers, i));
            i = i + 1;
        }
        proof {
            assert(out@ =~= self.regs());
        }
        out
    }

    /// How many registers are still zero; equal to a full scan.
    pub fn zeros(&self) -> (r: usize)
        requires
            self.wf(),
        ensures
            r == count_zeros(self.regs()),
    {
        atomic_usize_load(&self.zeros)
    }

    /// The scaled harmonic sum `sum over i of 2^(65 - regs[i])`; equal to
    /// a full scan.
    pub fn sum_scaled(&self) -> (r: u128)
        requires
            self.wf(),
        ensures
            r == sum_terms(self.regs()),
    {
        let hi = atomic_u64_load(&self.sum_hi);
        let lo = atomic_u64_load(&self.sum_lo);
        (hi as u128) * 0x1_0000_0000_0000_0000u128 + (lo as u128)
    }

    /// The hasher key this estimator digests values with.
    pub closed spec fn hasher_key_view(&self) -> Seq<u8> {
        self.hasher.key_view()
    }

    /// The key of the hasher this estimator digests values with.
    pub fn hasher_key(&self) -> (r: [u8; 16])
        ensures
            r@ == self.hasher_key_view(),
    {
        self.hasher.key()
    }

    /// Rebuilds an estimator from a decoded register array, recomputing
    /// both aggregate cells by a full scan.  Returns nothing when the
    /// precision is unsupported, the array length does not match it, or
    /// a register value is inadmissible — a successfully decoded state
    /// always satisfies the structural invariants.
    pub fn from_registers(precision: u8, registers: Vec<u8>, hasher: DefaultHasher) -> (r:
        Option<AtomicHyperLogLog>)
        ensures
            match r {
                Some(h) => {
                    &&& h.wf()
                    &&& h.precision() == precision
                    &&& h.regs() == registers@
                },
                None => !(4 <= precision <= 18 && registers@.len() == (1usize << (
                precision as usize)) && regs_wf(registers@)),
            },
    {
        let plain = match crate::dense::HyperLogLog::from_registers(
            precision,
            registers,
            hasher,
        ) {
            Some(h) => h,
            None => {
                return None;
            },
        };
        let m = plain.len();
        let zeros = plain.zeros();
        let sum = plain.sum_scaled();
        let snapshot = plain.iter();
        let mut cells: Vec<AtomicU8> = Vec::new();
        let mut i: usize = 0;
        while i < m
            invariant
                i <= m,
                m == snapshot@.len(),
                cells@.len() == i,
                forall|j: int|
                    0 <= j < i ==> atomic_u8_value(#[trigger] cells@[j]) == snapshot@[j],
            decreases m - i,
        {
            cells.push(atomic_u8_new(snapshot[i]));
            i = i + 1;
        }
        proof {
            assert(regs_view(cells@) =~= snapshot@);
            assert(sum >> 64u128 < 0x1_0000_0000_0000_0000u128 && sum == (sum
                >> 64u128) * 0x1_0000_0000_0000_0000u128 + ((sum as u64) as u128))
                by (bit_vector);
        }
        let hi: u64 = #[verifier::truncate] ((sum >> 64u128) as u64);
        let lo: u64 = #[verifier::truncate] (sum as u64);
        proof {
            assert((hi as u128) == sum >> 64u128 && (lo as u128) == ((sum as u64) as u128));
            assert((hi as nat) * 0x1_0000_0000_0000_0000nat + (lo as nat) == sum);
        }
        let result = AtomicHyperLogLog {
            registers: cells,
            precision,
            hasher: DefaultHasher::seeded(&plain.hasher_key()),
            zeros: atomic_usize_new(zeros),
            sum_lo: atomic_u64_new(lo),
            sum_hi: atomic_u64_new(hi),
        };
        proof {
            assert(result.regs() == regs_view(result.registers@));
            assert(result.regs() =~= registers@);
            assert(result.registers@.len() == (1usize << (result.precision as usize)));
            assert(regs_wf(result.regs()));
            assert(atomic_usize_value(result.zeros) == count_zeros(result.regs()));
            assert((atomic_u64_value(result.sum_hi) as nat) * 0x1_0000_0000_0000_0000nat
                + atomic_u64_value(result.sum_lo) == sum_terms(result.regs()));
        }
        Some(result)
    }

    /// Max-updates the register cell at `index` with an incoming rank,
    /// keeping both aggregate cells exact.
    fn update(&mut self, new: u8, index: usize)
        requires
            old(self).wf(),
            index < old(self).regs().len(),
            new <= max_register(),
        ensures
            final(self).wf(),
            final(self).regs() == spec_update(old(self).regs(), index as int, new),
            final(self).precision() == old(self).precision(),
    {
        let ghost regs0 = self.regs();
        let old_v = atomic_regs_fetch_max(&mut self.registers, index, new);
        proof {
            assert(self.regs() =~= regs0.update(index as int, reg_max(old_v, new)));
        }
        if new > old_v {
            proof {
                lemma_aggregates_update(regs0, index as int, new);
                lemma_term_le_sum(regs0, index as int);
                lemma_term_decreases(old_v, new);
                lemma_term_bounds(new);
                lemma_term_bounds(old_v);
                if old_v == 0 {
                    lemma_zero_at(regs0, index as int);
                }
            }
            if old_v == 0 {
                atomic_usize_fetch_sub(&mut self.zeros, 1);
            }
            let t_old = term_value(old_v);
            let t_new = term_value(new);
            let diff: u128 = t_old - t_new;
            proof {
                lemma_pow2_65_value();
                assert(diff < 0x2_0000_0000_0000_0000u128);
                assert((diff >> 64u128) <= 1 && diff == (diff >> 64u128)
                    * 0x1_0000_0000_0000_0000u128 + ((diff as u64) as u128)) by (bit_vector)
                    requires
                        diff < 0x2_0000_0000_0000_0000u128,
                ;
            }
            let d_lo: u64 = #[verifier::truncate] (diff as u64);
            let d_hi: u64 = #[verifier::truncate] ((diff >> 64u128) as u64);
            let ghost sum0 = sum_terms(regs0);
            let ghost lo0 = atomic_u64_value(self.sum_lo);
            let ghost hi0 = atomic_u64_value(self.sum_hi);
            let prev_lo = atomic_u64_fetch_sub_wrap(&mut self.sum_lo, d_lo);
            if prev_lo < d_lo {
                proof {
                    assert(sum0 >= diff);
                    assert(diff == (d_hi as nat) * 0x1_0000_0000_0000_0000nat + d_lo);
                    assert(hi0 >= 1);
                }
                atomic_u64_fetch_sub_wrap(&mut self.sum_hi, 1);
            }
            if d_hi > 0 {
                proof {
                    assert(sum0 >= diff);
                    assert(diff == (d_hi as nat) * 0x1_0000_0000_0000_0000nat + d_lo);
                    if prev_lo < d_lo {
                        assert(atomic_u64_value(self.sum_hi) == hi0 - 1);
                        assert(hi0 - 1 >= d_hi);
                    } else {
                        assert(hi0 >= d_hi);
                    }
                }
                atomic_u64_fetch_sub_wrap(&mut self.sum_hi, d_hi);
            }
            proof {
                let lo1 = atomic_u64_value(self.sum_lo);
                let hi1 = atomic_u64_value(self.sum_hi);
                assert(sum0 == (hi0 as nat) * 0x1_0000_0000_0000_0000nat + lo0);
                assert(diff == (d_hi as nat) * 0x1_0000_0000_0000_0000nat + d_lo);
                assert(sum0 >= diff);
                assert((hi1 as nat) * 0x1_0000_0000_0000_0000nat + lo1 == sum0 - diff);
                assert(sum_terms(self.regs()) == sum0 - diff);
            }
        } else {
            proof {
                assert(spec_update(regs0, index as int, new) =~= regs0);
            }
        }
    }

    /// Inserts a pre-computed 64-bit hash.
    pub fn insert_hash(&mut self, hash: u64)
        requires
            old(self).wf(),
        ensures
            final(self).wf(),
            final(self).regs() == spec_insert_hash(
                old(self).regs(),
                old(self).precision() as u64,
                hash,
            ),
            final(self).precision() == old(self).precision(),
    {
        let p = self.precision;
        let shift: u64 = 64 - p as u64;
        let index_w = hash >> shift;
        proof {
            assert(4 <= p <= 18 ==> (hash >> (64 - p as u64) as u64) < (1u64 << (p as u64)))
                by (bit_vector);
            assert(4 <= p <= 18 ==> (1u64 << (p as u64)) == ((1usize << (p as usize)) as u64))
                by (bit_vector);
            lemma_rank_bound(hash);
            broadcast use vstd::std_specs::bits::axiom_u64_trailing_zeros;

        }
        let index = index_w as usize;
        let rank = (hash.trailing_zeros() + 1) as u8;
        self.update(rank, index);
    }

    /// Inserts one value: digests it through the hasher, then inserts the
    /// hash.
    pub fn insert<T: Hash + ?Sized>(&mut self, value: &T)
        requires
            old(self).wf(),
        ensures
            final(self).wf(),
            final(self).precision() == old(self).precision(),
            exists|h: u64|
                final(self).regs() == #[trigger] spec_insert_hash(
                    old(self).regs(),
                    old(self).precision() as u64,
                    h,
                ),
    {
        let h = self.hasher.hash_one(value);
        self.insert_hash(h);
    }

    /// Inserts every value of `values` in order.
    pub fn insert_all<T: Hash>(&mut self, values: &Vec<T>)
        requires
            old(self).wf(),
        ensures
            final(self).wf(),
            final(self).precision() == old(self).precision(),
            exists|hs: Seq<u64>|
                hs.len() == values@.len() && final(self).regs() == #[trigger] spec_insert_seq(
                    old(self).regs(),
                    old(self).precision() as u64,
                    hs,
                ),
    {
        let ghost p = self.precision as u64;
        let ghost regs0 = self.regs();
        let ghost mut hs: Seq<u64> = Seq::empty();
        let mut i: usize = 0;
        while i < values.len()
            invariant
                i <= values@.len(),
                self.wf(),
                self.precision() == old(self).precision(),
                p == old(self).precision() as u64,
                regs0 == old(self).regs(),
                hs.len() == i,
                self.regs() == spec_insert_seq(regs0, p, hs),
            decreases values@.len() - i,
        {
            let h = self.hasher.hash_one(&values[i]);
            self.insert_hash(h);
            proof {
                let hs2 = hs.push(h);
                assert(hs2.drop_last() =~= hs);
                hs = hs2;
            }
            i = i + 1;
        }
    }

    /// Merges `other` into `self`: afterwards every register holds the
    /// pointwise maximum of the two arrays.  Fails, leaving `self`
    /// unmodified, exactly when the two register arrays differ in length.
    pub fn union(&mut self, other: &Self) -> (r: Result<(), Error>)
        requires
            old(self).wf(),
            other.wf(),
        ensures
            final(self).wf(),
            final(self).precision() == old(self).precision(),
            match r {
                Ok(()) => old(self).regs().len() == other.regs().len() && final(self).regs()
                    == merged_regs(old(self).regs(), other.regs()),
                Err(e) => e == Error::IncompatibleLength && old(self).regs().len()
                    != other.regs().len() && *final(self) == *old(self),
            },
    {
        if self.registers.len() != other.registers.len() {
            return Err(Error::IncompatibleLength);
        }
        let ghost a = self.regs();
        let ghost b = other.regs();
        let mut i: usize = 0;
        while i < other.registers.len()
            invariant
                i <= b.len(),
                a.len() == b.len(),
                other.wf(),
                self.wf(),
                self.precision() == old(self).precision(),
                a == old(self).regs(),
                b == other.regs(),
                self.regs() =~= Seq::new(
                    a.len(),
                    |j: int| if j < i { reg_max(a[j], b[j]) } else { a[j] },
                ),
            decreases b.len() - i,
        {
            let v = atomic_regs_load(&other.registers, i);
            assert(regs_wf(b) && b[i as int] == v);
            self.update(v, i);
            proof {
                assert(self.regs() =~= Seq::new(
                    a.len(),
                    |j: int| if j < i + 1 { reg_max(a[j], b[j]) } else { a[j] },
                ));
            }
            i = i + 1;
        }
        proof {
            assert(self.regs() =~= merged_regs(a, b));
        }
        Ok(())
    }
}

/// Law: structural equality ignores the hasher configuration — `==` on
/// two estimators depends on their register arrays alone, so estimators
/// built with different seeds but equal register contents compare equal.
pub proof fn lemma_atomic_eq_ignores_hasher(x: &AtomicHyperLogLog, y: &AtomicHyperLogLog)
    requires
        x.regs() == y.regs(),
    ensures
        x.eq_spec(y),
{
}

impl Clone for AtomicHyperLogLog {
    /// Snapshot copy: reads every cell once and builds a fresh
    /// structure-of-atomics holding the values read.
    fn clone(&self) -> (r: Self)
        ensures
            r.regs() == self.regs(),
            r.precision() == self.precision(),
            self.wf() ==> r.wf(),
    {
        let m = self.registers.len();
        let mut cells: Vec<AtomicU8> = Vec::new();
        let mut i: usize = 0;
        while i < m
            invariant
                i <= m,
                m == self.registers@.len(),
                cells@.len() == i,
                forall|j: int|
                    0 <= j < i ==> atomic_u8_value(#[trigger] cells@[j]) == self.regs()[j],
            decreases m - i,
        {
            cells.push(atomic_u8_new(atomic_regs_load(&self.registers, i)));
            i = i + 1;
        }
        proof {
            assert(regs_view(cells@) =~= self.regs());
        }
        let r = AtomicHyperLogLog {
            registers: cells,
            precision: self.precision,
            hasher: self.hasher,
            zeros: atomic_usize_new(atomic_usize_load(&self.zeros)),
            sum_lo: atomic_u64_new(atomic_u64_load(&self.sum_lo)),
            sum_hi: atomic_u64_new(atomic_u64_load(&self.sum_hi)),
        };
        r
    }
}

impl PartialEq for AtomicHyperLogLog {
    /// Structural equality: register contents only; the hasher and its
    /// seed are ignored.
    fn eq(&self, other: &Self) -> (r: bool) {
        if self.registers.len() != other.registers.len() {
            proof {
                assert(self.regs().len() != other.regs().len());
            }
            return false;
        }
        let mut i: usize = 0;
        while i < self.registers.len()
            invariant
                i <= self.registers@.len(),
                self.registers@.len() == other.registers@.len(),
                forall|j: int| 0 <= j < i ==> self.regs()[j] == other.regs()[j],
            decreases self.registers@.len() - i,
        {
            let a = atomic_regs_load(&self.registers, i);
            let b = atomic_regs_load(&other.registers, i);
            if a != b {
                proof {
                    assert(self.regs()[i as int] == a && other.regs()[i as int] == b);
                    assert(self.regs() != other.regs());
                }
                return false;
            }
            i = i + 1;
        }
        proof {
            assert(self.regs() =~= other.regs());
        }
        true
    }
}

impl vstd::std_specs::cmp::PartialEqSpecImpl for AtomicHyperLogLog {
    open spec fn obeys_eq_spec() -> bool {
        true
    }

    open spec fn eq_spec(&self, other: &Self) -> bool {
        self.regs() == other.regs()
    }
}

impl Eq for AtomicHyperLogLog {

}

} // verus!
