//! The exclusive (single-owner) dense estimator state.
//!
//! A `HyperLogLog` owns `2^precision` one-byte registers.  Each insert
//! derives a register index from the top `precision` bits of a 64-bit hash
//! and a rank from its trailing zeros, then max-updates that register.
//! The two derived aggregates — the count of still-zero registers and the
//! scaled harmonic sum — are maintained incrementally and proven equal to
//! what a full scan of the array would compute.

use vstd::prelude::*;
use vstd::std_specs::cmp::PartialEqSpec;
use std::hash::Hash;
use crate::hasher::DefaultHasher;
use crate::model::{
    count_zeros, lemma_aggregates_push, lemma_aggregates_update, lemma_pow2_65_value,
    lemma_rank_bound, lemma_sum_all_zero, lemma_sum_bounds, lemma_term_bounds,
    lemma_term_decreases, lemma_term_le_sum, lemma_zero_at, max_register, merged_regs,
    reg_max, regs_wf, spec_hash_rank, spec_insert_hash, spec_insert_seq, spec_update,
    sum_terms, term_value,
};
use crate::Error;

verus! {

/// Approximates the number of distinct elements inserted, in bounded
/// memory, for a single owner.
#[derive(Clone, Debug)]
pub struct HyperLogLog {
    registers: Vec<u8>,
    precision: u8,
    hasher: DefaultHasher,
    zeros: usize,
    sum: u128,
}

impl HyperLogLog {
    /// The register array.
    pub closed spec fn regs(&self) -> Seq<u8> {
        self.registers@
    }

    /// The precision this estimator was built with.
    pub closed spec fn precision(&self) -> u8 {
        self.precision
    }

    /// Well-formed state: `2^precision` registers, every register value
    /// admissible, and both aggregates exactly equal to a full scan.
    pub closed spec fn wf(&self) -> bool {
        &&& 4 <= self.precision <= 18
        &&& self.registers@.len() == (1usize << (self.precision as usize))
        &&& regs_wf(self.registers@)
        &&& self.zeros == count_zeros(self.registers@)
        &&& self.sum == sum_terms(self.registers@)
    }

    /// Returns a fresh estimator with `1 << precision` zero registers,
    /// using the provided hasher.
    pub fn with_hasher(precision: u8, hasher: DefaultHasher) -> (r: Self)
        requires
            4 <= precision <= 18,
        ensures
            r.wf(),
            r.precision() == precision,
            r.regs().len() == (1usize << (precision as usize)),
            forall|i: int| 0 <= i < r.regs().len() ==> r.regs()[i] == 0,
    {
        let m: usize = 1usize << (precision as usize);
        proof {
            assert(4 <= precision <= 18 ==> (1usize << (precision as usize)) <= 0x40000usize)
                by (bit_vector);
        }
        let mut registers: Vec<u8> = Vec::new();
        let mut i: usize = 0;
        while i < m
            invariant
                i <= m,
                registers@.len() == i,
                forall|j: int| 0 <= j < i ==> registers@[j] == 0,
            decreases m - i,
        {
            registers.push(0);
            i = i + 1;
        }
        proof {
            lemma_sum_all_zero(registers@);
            lemma_pow2_65_value();
            assert(m * vstd::arithmetic::power2::pow2(65) <= 0x40000u128
                * 0x2_0000_0000_0000_0000u128) by (nonlinear_arith)
                requires
                    m <= 0x40000,
                    vstd::arithmetic::power2::pow2(65) == 0x2_0000_0000_0000_0000u128,
            ;
        }
        let sum: u128 = (m as u128) * 0x2_0000_0000_0000_0000u128;
        HyperLogLog { registers, precision, hasher, zeros: m, sum }
    }

    /// Returns a fresh estimator using a randomly seeded hasher.
    pub fn new(precision: u8) -> (r: Self)
        requires
            4 <= precision <= 18,
        ensures
            r.wf(),
            r.precision() == precision,
            forall|i: int| 0 <= i < r.regs().len() ==> r.regs()[i] == 0,
    {
        Self::with_hasher(precision, DefaultHasher::random())
    }

    /// Returns a fresh estimator whose hasher is seeded with `seed`:
    /// reproducible across runs and platforms.
    pub fn seeded(precision: u8, seed: u128) -> (r: Self)
        requires
            4 <= precision <= 18,
        ensures
            r.wf(),
            r.precision() == precision,
            forall|i: int| 0 <= i < r.regs().len() ==> r.regs()[i] == 0,
    {
        Self::with_hasher(precision, DefaultHasher::seeded(&crate::hasher::seed_bytes(seed)))
    }

    /// The number of registers.
    pub fn len(&self) -> (r: usize)
        ensures
            r == self.regs().len(),
    {
        self.registers.len()
    }

    /// A snapshot of every register value, in index order.
    pub fn iter(&self) -> (r: Vec<u8>)
        ensures
            r@ == self.regs(),
    {
        let mut out: Vec<u8> = Vec::new();
        let mut i: usize = 0;
        while i < self.registers.len()
            invariant
                i <= self.registers@.len(),
                out@ =~= self.registers@.subrange(0, i as int),
            decreases self.registers@.len() - i,
        {
            out.push(self.registers[i]);
            i = i + 1;
        }
        proof {
            assert(out@ =~= self.registers@);
        }
        out
    }

    /// How many registers are still zero; equal to a full scan.
    pub fn zeros(&self) -> (r: usize)
        requires
            self.wf(),
        ensures
            r == count_zeros(self.regs()),
    {
        self.zeros
    }

    /// The scaled harmonic sum `sum over i of 2^(65 - regs[i])`; equal to
    /// a full scan.
    pub fn sum_scaled(&self) -> (r: u128)
        requires
            self.wf(),
        ensures
            r == sum_terms(self.regs()),
    {
        self.sum
    }

    /// The hasher key this estimator digests values with.
    pub closed spec fn hasher_key_view(&self) -> Seq<u8> {
        self.hasher.key_view()
    }

    /// The key of the hasher this estimator digests values with.
    pub fn hasher_key(&self) -> (r: [u8; 16])
        ensures
            r@ == self.hasher_key_view(),
    {
        self.hasher.key()
    }

    /// Rebuilds an estimator from a decoded register array, recomputing
    /// both aggregates by a full scan.  Returns nothing when the
    /// precision is unsupported, the array length does not match it, or
    /// a register value is inadmissible — a successfully decoded state
    /// always satisfies the structural invariants.
    pub fn from_registers(precision: u8, registers: Vec<u8>, hasher: DefaultHasher) -> (r:
        Option<HyperLogLog>)
        ensures
            match r {
                Some(h) => {
                    &&& h.wf()
                    &&& h.precision() == precision
                    &&& h.regs() == registers@
                    &&& regs_wf(registers@)
                    &&& 4 <= precision <= 18
                    &&& registers@.len() == (1usize << (precision as usize))
                },
                None => !(4 <= precision <= 18 && registers@.len() == (1usize << (
                precision as usize)) && regs_wf(registers@)),
            },
    {
        if precision < 4 || precision > 18 {
            return None;
        }
        let m: usize = 1usize << (precision as usize);
        proof {
            assert(4 <= precision <= 18 ==> (1usize << (precision as usize)) <= 0x40000usize)
                by (bit_vector);
        }
        if registers.len() != m {
            return None;
        }
        let mut zeros: usize = 0;
        let mut sum: u128 = 0;
        let mut i: usize = 0;
        while i < m
            invariant
                i <= m,
                m <= 0x40000,
                registers@.len() == m,
                regs_wf(registers@.subrange(0, i as int)),
                zeros == count_zeros(registers@.subrange(0, i as int)),
                sum == sum_terms(registers@.subrange(0, i as int)),
            decreases m - i,
        {
            let v = registers[i];
            if v > 65 {
                return None;
            }
            proof {
                let prefix = registers@.subrange(0, i as int);
                lemma_aggregates_push(prefix, v);
                crate::model::lemma_zeros_le_len(prefix);
                lemma_term_bounds(v);
                lemma_sum_bounds(prefix);
                lemma_pow2_65_value();
                assert(prefix.len() * vstd::arithmetic::power2::pow2(65) + vstd::
                arithmetic::power2::pow2(65) <= 0x40000u128 * 0x2_0000_0000_0000_0000u128)
                    by (nonlinear_arith)
                    requires
                        prefix.len() < 0x40000,
                        vstd::arithmetic::power2::pow2(65) == 0x2_0000_0000_0000_0000u128,
                ;
                assert(registers@.subrange(0, i as int + 1) =~= prefix.push(v));
            }
            if v == 0 {
                zeros = zeros + 1;
            }
            sum = sum + term_value(v);
            i = i + 1;
        }
        proof {
            assert(registers@.subrange(0, m as int) =~= registers@);
        }
        Some(HyperLogLog { registers, precision, hasher, zeros, sum })
    }

    /// Max-updates the register at `index` with an incoming rank, keeping
    /// both aggregates exact.
    pub(crate) fn update(&mut self, new: u8, index: usize)
        requires
            old(self).wf(),
            index < old(self).regs().len(),
            new <= max_register(),
        ensures
            final(self).wf(),
            final(self).regs() == spec_update(old(self).regs(), index as int, new),
            final(self).precision() == old(self).precision(),
    {
        let old_v = self.registers[index];
        if new > old_v {
            proof {
                lemma_aggregates_update(self.registers@, index as int, new);
                lemma_term_le_sum(self.registers@, index as int);
                lemma_term_decreases(old_v, new);
                lemma_term_bounds(new);
                lemma_term_bounds(old_v);
                if old_v == 0 {
                    lemma_zero_at(self.registers@, index as int);
                }
            }
            let t_old = term_value(old_v);
            let t_new = term_value(new);
            self.registers.set(index, new);
            if old_v == 0 {
                self.zeros = self.zeros - 1;
            }
            self.sum = self.sum - (t_old - t_new);
        } else {
            proof {
                assert(spec_update(self.registers@, index as int, new) =~= self.registers@);
            }
        }
    }

    /// Inserts a pre-computed 64-bit hash.
    pub fn insert_hash(&mut self, hash: u64)
        requires
            old(self).wf(),
        ensures
            final(self).wf(),
            final(self).regs() == spec_insert_hash(
                old(self).regs(),
                old(self).precision() as u64,
                hash,
            ),
            final(self).precision() == old(self).precision(),
    {
        let p = self.precision;
        let shift: u64 = 64 - p as u64;
        let index_w = hash >> shift;
        proof {
            assert(4 <= p <= 18 ==> (hash >> (64 - p as u64) as u64) < (1u64 << (p as u64)))
                by (bit_vector);
            assert(4 <= p <= 18 ==> (1u64 << (p as u64)) == ((1usize << (p as usize)) as u64))
                by (bit_vector);
            lemma_rank_bound(hash);
            broadcast use vstd::std_specs::bits::axiom_u64_trailing_zeros;

        }
        let index = index_w as usize;
        let rank = (hash.trailing_zeros() + 1) as u8;
        self.update(rank, index);
    }

    /// Inserts one value: digests it through the hasher, then inserts the
    /// hash.
    pub fn insert<T: Hash + ?Sized>(&mut self, value: &T)
        requires
            old(self).wf(),
        ensures
            final(self).wf(),
            final(self).precision() == old(self).precision(),
            exists|h: u64|
                final(self).regs() == #[trigger] spec_insert_hash(
                    old(self).regs(),
                    old(self).precision() as u64,
                    h,
                ),
    {
        let h = self.hasher.hash_one(value);
        self.insert_hash(h);
    }

    /// Inserts every value of `values` in order.
    pub fn insert_all<T: Hash>(&mut self, values: &Vec<T>)
        requires
            old(self).wf(),
        ensures
            final(self).wf(),
            final(self).precision() == old(self).precision(),
            exists|hs: Seq<u64>|
                hs.len() == values@.len() && final(self).regs() == #[trigger] spec_insert_seq(
                    old(self).regs(),
                    old(self).precision() as u64,
                    hs,
                ),
    {
        let ghost p = self.precision as u64;
        let ghost regs0 = self.regs();
        let ghost mut hs: Seq<u64> = Seq::empty();
        let mut i: usize = 0;
        while i < values.len()
            invariant
                i <= values@.len(),
                self.wf(),
                self.precision() == old(self).precision(),
                p == old(self).precision() as u64,
                regs0 == old(self).regs(),
                hs.len() == i,
                self.regs() == spec_insert_seq(regs0, p, hs),
            decreases values@.len() - i,
        {
            let h = self.hasher.hash_one(&values[i]);
            self.insert_hash(h);
            proof {
                let hs2 = hs.push(h);
                assert(hs2.drop_last() =~= hs);
                hs = hs2;
            }
            i = i + 1;
        }
    }

    /// Merges `other` into `self`: afterwards every register holds the
    /// pointwise maximum of the two arrays.  Fails, leaving `self`
    /// unmodified, exactly when the two register arrays differ in length.
    pub fn union(&mut self, other: &Self) -> (r: Result<(), Error>)
        requires
            old(self).wf(),
            other.wf(),
        ensures
            final(self).wf(),
            final(self).precision() == old(self).precision(),
            match r {
                Ok(()) => old(self).regs().len() == other.regs().len() && final(self).regs()
                    == merged_regs(old(self).regs(), other.regs()),
                Err(e) => e == Error::IncompatibleLength && old(self).regs().len()
                    != other.regs().len() && *final(self) == *old(self),
            },
    {
        if self.registers.len() != other.registers.len() {
            return Err(Error::IncompatibleLength);
        }
        let ghost a = self.regs();
        let ghost b = other.regs();
        let mut i: usize = 0;
        while i < other.registers.len()
            invariant
                i <= b.len(),
                a.len() == b.len(),
                other.wf(),
                self.wf(),
                self.precision() == old(self).precision(),
                a == old(self).regs(),
                b == other.regs(),
                self.regs() =~= Seq::new(
                    a.len(),
                    |j: int| if j < i { reg_max(a[j], b[j]) } else { a[j] },
                ),
            decreases b.len() - i,
        {
            let v = other.registers[i];
            assert(regs_wf(b) && b[i as int] == v);
            self.update(v, i);
            proof {
                assert(self.regs() =~= Seq::new(
                    a.len(),
                    |j: int| if j < i + 1 { reg_max(a[j], b[j]) } else { a[j] },
                ));
            }
            i = i + 1;
        }
        proof {
            assert(self.regs() =~= merged_regs(a, b));
        }
        Ok(())
    }
}

/// Law: structural equality ignores the hasher configuration — `==` on
/// two estimators depends on their register arrays alone, so estimators
/// built with different seeds but equal register contents compare equal.
pub proof fn lemma_eq_ignores_hasher(x: &HyperLogLog, y: &HyperLogLog)
    requires
        x.regs() == y.regs(),
    ensures
        x.eq_spec(y),
{
}

impl PartialEq for HyperLogLog {
    /// Structural equality: register contents only; the hasher and its
    /// seed are ignored.
    fn eq(&self, other: &Self) -> (r: bool) {
        if self.registers.len() != other.registers.len() {
            proof {
                assert(self.regs() != other.regs());
            }
            return false;
        }
        let mut i: usize = 0;
        while i < self.registers.len()
            invariant
                i <= self.registers@.len(),
                self.registers@.len() == other.registers@.len(),
                forall|j: int| 0 <= j < i ==> self.registers@[j] == other.registers@[j],
            decreases self.registers@.len() - i,
        {
            if self.registers[i] != other.registers[i] {
                proof {
                    assert(self.regs() != other.regs());
                }
                return false;
            }
            i = i + 1;
        }
        proof {
            assert(self.regs() =~= other.regs());
        }
        true
    }
}

impl vstd::std_specs::cmp::PartialEqSpecImpl for HyperLogLog {
    open spec fn obeys_eq_spec() -> bool {
        true
    }

    open spec fn eq_spec(&self, other: &Self) -> bool {
        self.regs() == other.regs()
    }
}

impl Eq for HyperLogLog {

}

} // verus!
