//! Mathematical model of the dense register array.
//!
//! A register holds the largest rank observed for its index; the estimator
//! needs two aggregates of the whole array: how many registers are still
//! zero, and the harmonic sum of all registers.  The harmonic sum
//! `sum over i of 2^-register[i]` is kept here as an exact integer, scaled
//! by `2^65` so that every admissible register value (`0 ..= 65`)
//! contributes a whole number.

use vstd::prelude::*;
use vstd::arithmetic::power2::{
    lemma2_to64, lemma2_to64_rest, lemma_pow2_adds, lemma_pow2_pos,
    lemma_pow2_strictly_increases, pow2,
};

verus! {

/// Largest value a register can hold: one more than the largest possible
/// trailing-zero count of a 64-bit hash.
pub open spec fn max_register() -> u8 {
    65
}

/// The larger of two register values.
pub open spec fn reg_max(a: u8, b: u8) -> u8 {
    if a < b {
        b
    } else {
        a
    }
}

/// Every register value stays in `0 ..= 65`.
pub open spec fn regs_wf(regs: Seq<u8>) -> bool {
    forall|i: int| 0 <= i < regs.len() ==> regs[i] <= max_register()
}

/// Contribution of one register to the scaled harmonic sum: `2^(65 - r)`.
pub open spec fn term(r: u8) -> nat
    recommends
        r <= max_register(),
{
    pow2((max_register() - r) as nat)
}

/// Scaled harmonic sum of a register array: `sum over i of 2^(65 - regs[i])`.
pub open spec fn sum_terms(regs: Seq<u8>) -> nat
    decreases regs.len(),
{
    if regs.len() == 0 {
        0
    } else {
        term(regs[0]) + sum_terms(regs.drop_first())
    }
}

/// Number of registers that are still zero.
pub open spec fn count_zeros(regs: Seq<u8>) -> nat
    decreases regs.len(),
{
    if regs.len() == 0 {
        0
    } else {
        (if regs[0] == 0 {
            1nat
        } else {
            0nat
        }) + count_zeros(regs.drop_first())
    }
}

/// Register index of a 64-bit hash: its top `precision` bits.
pub open spec fn spec_hash_index(hash: u64, precision: u64) -> u64
    recommends
        4 <= precision <= 18,
{
    hash >> (64 - precision) as u64
}

/// Rank of a 64-bit hash: one more than its trailing-zero count.
pub open spec fn spec_hash_rank(hash: u64) -> u8 {
    (1 + vstd::std_specs::bits::u64_trailing_zeros(hash)) as u8
}

/// One max-update of the register at `index` with an incoming rank.
pub open spec fn spec_update(regs: Seq<u8>, index: int, rank: u8) -> Seq<u8>
    recommends
        0 <= index < regs.len(),
{
    regs.update(index, reg_max(regs[index], rank))
}

/// The register array after one hash is inserted.
pub open spec fn spec_insert_hash(regs: Seq<u8>, precision: u64, hash: u64) -> Seq<u8> {
    spec_update(regs, spec_hash_index(hash, precision) as int, spec_hash_rank(hash))
}

/// The register array after a sequence of hashes is inserted in order.
pub open spec fn spec_insert_seq(regs: Seq<u8>, precision: u64, hashes: Seq<u64>) -> Seq<u8>
    decreases hashes.len(),
{
    if hashes.len() == 0 {
        regs
    } else {
        spec_insert_hash(spec_insert_seq(regs, precision, hashes.drop_last()), precision, hashes.last())
    }
}

/// An all-zero register array for a given precision.
pub open spec fn zero_regs(precision: u8) -> Seq<u8> {
    Seq::new((1usize << (precision as usize)) as nat, |i: int| 0u8)
}

/// Pointwise maximum of two register arrays of equal length.
pub open spec fn merged_regs(a: Seq<u8>, b: Seq<u8>) -> Seq<u8>
    recommends
        a.len() == b.len(),
{
    Seq::new(a.len(), |i: int| reg_max(a[i], b[i]))
}

/// Law: merging is commutative — merging `b` into `a` and merging `a`
/// into `b` leave the same register array, hence the same estimate.
pub proof fn lemma_merge_commutative(a: Seq<u8>, b: Seq<u8>)
    requires
        a.len() == b.len(),
    ensures
        merged_regs(a, b) == merged_regs(b, a),
{
    assert(merged_regs(a, b) =~= merged_regs(b, a));
}

/// Law: merging is self-idempotent — merging an estimator with itself
/// changes nothing.
pub proof fn lemma_merge_idempotent(a: Seq<u8>)
    ensures
        merged_regs(a, a) == a,
{
    assert(merged_regs(a, a) =~= a);
}

/// Law: merging is associative.
pub proof fn lemma_merge_associative(a: Seq<u8>, b: Seq<u8>, c: Seq<u8>)
    requires
        a.len() == b.len(),
        b.len() == c.len(),
    ensures
        merged_regs(merged_regs(a, b), c) == merged_regs(a, merged_regs(b, c)),
{
    assert(merged_regs(merged_regs(a, b), c) =~= merged_regs(a, merged_regs(b, c)));
}

/// Law: cross-variant parity.  `HyperLogLog::insert_hash` and
/// `AtomicHyperLogLog::insert_hash` both ensure that the register array
/// becomes `spec_insert_hash` of the old array, so the two variants fed
/// the same hash sequence from equal starting arrays hold equal arrays —
/// and the estimate inputs (register count, zero count, harmonic sum) are
/// functions of the array alone.
pub proof fn lemma_variant_parity(a: Seq<u8>, b: Seq<u8>, p: u64, hs: Seq<u64>)
    requires
        a == b,
    ensures
        spec_insert_seq(a, p, hs) == spec_insert_seq(b, p, hs),
        count_zeros(spec_insert_seq(a, p, hs)) == count_zeros(spec_insert_seq(b, p, hs)),
        sum_terms(spec_insert_seq(a, p, hs)) == sum_terms(spec_insert_seq(b, p, hs)),
{
}

/// A rank never exceeds 65, so every inserted register value is admissible.
pub proof fn lemma_rank_bound(hash: u64)
    ensures
        1 <= spec_hash_rank(hash) <= max_register(),
{
    broadcast use vstd::std_specs::bits::axiom_u64_trailing_zeros;

}

/// Every term is positive and no term exceeds `2^65`.
pub proof fn lemma_term_bounds(r: u8)
    requires
        r <= max_register(),
    ensures
        1 <= term(r) <= pow2(65),
{
    lemma_pow2_pos((max_register() - r) as nat);
    if r > 0 {
        lemma_pow2_strictly_increases((max_register() - r) as nat, 65);
    }
}

/// A larger register contributes a strictly smaller term.
pub proof fn lemma_term_decreases(a: u8, b: u8)
    requires
        a < b <= max_register(),
    ensures
        term(b) < term(a),
{
    lemma_pow2_strictly_increases((max_register() - b) as nat, (max_register() - a) as nat);
}

/// The scaled harmonic sum of a well-formed array lies between the length
/// (every register saturated) and the length times `2^65` (every register
/// empty).
pub proof fn lemma_sum_bounds(regs: Seq<u8>)
    requires
        regs_wf(regs),
    ensures
        regs.len() <= sum_terms(regs) <= regs.len() * pow2(65),
    decreases regs.len(),
{
    if regs.len() > 0 {
        lemma_term_bounds(regs[0]);
        lemma_sum_bounds(regs.drop_first());
        assert(regs.len() * pow2(65) == pow2(65) + (regs.len() - 1) * pow2(65))
            by (nonlinear_arith);
    }
}

/// Each register's term is at most the whole sum.
pub proof fn lemma_term_le_sum(regs: Seq<u8>, i: int)
    requires
        regs_wf(regs),
        0 <= i < regs.len(),
    ensures
        term(regs[i]) <= sum_terms(regs),
    decreases regs.len(),
{
    if i > 0 {
        lemma_term_le_sum(regs.drop_first(), i - 1);
    }
}

/// If some register is zero, the zero count is positive.
pub proof fn lemma_zero_at(regs: Seq<u8>, i: int)
    requires
        0 <= i < regs.len(),
        regs[i] == 0,
    ensures
        count_zeros(regs) >= 1,
    decreases regs.len(),
{
    if i > 0 {
        lemma_zero_at(regs.drop_first(), i - 1);
    }
}

/// The zero count never exceeds the length.
pub proof fn lemma_zeros_le_len(regs: Seq<u8>)
    ensures
        count_zeros(regs) <= regs.len(),
    decreases regs.len(),
{
    if regs.len() > 0 {
        lemma_zeros_le_len(regs.drop_first());
    }
}

/// Appending a register extends both aggregates by its contribution.
pub proof fn lemma_aggregates_push(regs: Seq<u8>, v: u8)
    ensures
        sum_terms(regs.push(v)) == sum_terms(regs) + term(v),
        count_zeros(regs.push(v)) == count_zeros(regs) + (if v == 0 {
            1nat
        } else {
            0nat
        }),
    decreases regs.len(),
{
    if regs.len() == 0 {
        assert(regs =~= Seq::<u8>::empty());
        assert(regs.push(v)[0] == v);
        assert(regs.push(v).drop_first() =~= Seq::<u8>::empty());
        assert(sum_terms(regs.push(v)) == term(regs.push(v)[0]) + sum_terms(
            regs.push(v).drop_first(),
        ));
        assert(sum_terms(Seq::<u8>::empty()) == 0 && count_zeros(Seq::<u8>::empty()) == 0);
    } else {
        assert(regs.push(v)[0] == regs[0]);
        assert(regs.push(v).drop_first() =~= regs.drop_first().push(v));
        lemma_aggregates_push(regs.drop_first(), v);
    }
}

/// How one register write moves the harmonic sum and the zero count.
pub proof fn lemma_aggregates_update(regs: Seq<u8>, i: int, v: u8)
    requires
        0 <= i < regs.len(),
    ensures
        sum_terms(regs.update(i, v)) + term(regs[i]) == sum_terms(regs) + term(v),
        count_zeros(regs.update(i, v)) + (if regs[i] == 0 {
            1nat
        } else {
            0nat
        }) == count_zeros(regs) + (if v == 0 {
            1nat
        } else {
            0nat
        }),
    decreases i,
{
    let upd = regs.update(i, v);
    if i == 0 {
        assert(upd.drop_first() =~= regs.drop_first());
    } else {
        assert(upd.drop_first() =~= regs.drop_first().update(i - 1, v));
        lemma_aggregates_update(regs.drop_first(), i - 1, v);
    }
}

/// The scaled harmonic sum of an all-zero array of length `n` is `n * 2^65`.
pub proof fn lemma_sum_all_zero(regs: Seq<u8>)
    requires
        forall|i: int| 0 <= i < regs.len() ==> regs[i] == 0,
    ensures
        sum_terms(regs) == regs.len() * pow2(65),
        count_zeros(regs) == regs.len(),
    decreases regs.len(),
{
    if regs.len() == 0 {
    } else {
        lemma_sum_all_zero(regs.drop_first());
        assert(regs.len() * pow2(65) == pow2(65) + (regs.len() - 1) * pow2(65))
            by (nonlinear_arith);
    }
}

/// `2^65` as a concrete machine word.
pub proof fn lemma_pow2_65_value()
    ensures
        pow2(65) == 0x2_0000_0000_0000_0000u128,
        pow2(64) == 0x1_0000_0000_0000_0000u128,
{
    lemma2_to64();
    lemma2_to64_rest();
    lemma_pow2_adds(64, 1);
}

/// Computes `2^e` for exponents up to 65.
pub fn pow2_u128(e: u8) -> (x: u128)
    requires
        e <= 65,
    ensures
        x == pow2(e as nat),
{
    let mut x: u128 = 1;
    let mut i: u8 = 0;
    proof {
        lemma2_to64();
    }
    while i < e
        invariant
            i <= e <= 65,
            x == pow2(i as nat),
        decreases e - i,
    {
        proof {
            lemma_pow2_adds(i as nat, 1);
            lemma2_to64();
            let next = (i + 1) as nat;
            if next < 65 {
                lemma_pow2_strictly_increases(next, 65);
            }
            lemma_pow2_65_value();
        }
        x = x * 2;
        i = i + 1;
    }
    x
}

/// Computes the scaled harmonic contribution `2^(65 - r)` of one register.
pub fn term_value(r: u8) -> (x: u128)
    requires
        r <= max_register(),
    ensures
        x == term(r),
{
    pow2_u128(65 - r)
}

} // verus!
