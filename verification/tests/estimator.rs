use hyperloglockless::{
    decode_hash, encode_hash, AtomicHyperLogLog, CountData, DefaultHasher, Error, HyperLogLog,
    HyperLogLogPlus, SparseLogLog,
};

const SCALE: f64 = 36893488147419103232.0;

fn raw_count(registers: usize, zeros: usize, sum_scaled: u128) -> f64 {
    let correction = match registers {
        16 => 0.673,
        32 => 0.697,
        64 => 0.709,
        _ => 0.7213475204444817 / (1.0 + 1.0794415416798357 / registers as f64),
    };
    let sum = sum_scaled as f64 / SCALE;
    correction * ((registers * (registers - zeros)) as f64) / sum
}

fn linear_count(uniques: usize) -> f64 {
    let buckets = (1u64 << 30) as f64;
    buckets * (buckets / (buckets - uniques as f64)).ln()
}

fn plus_count(sll: &mut HyperLogLogPlus) -> usize {
    match sll.count_data() {
        CountData::Sparse { uniques } => linear_count(uniques) as usize,
        CountData::Dense { registers, zeros, sum_scaled } => {
            raw_count(registers, zeros, sum_scaled) as usize
        },
    }
}

#[test]
fn test_hash_codec() {
    let precision = 18;
    let hash = 90594543u64.wrapping_mul(35235225311);

    let index = (hash >> (64 - precision)) as usize;
    let rank = 1 + hash.trailing_zeros();

    let encoded = encode_hash(hash);
    let (decoded_rank, decoded_index) = decode_hash(encoded, precision as u8);
    assert_eq!(decoded_rank, rank);
    assert_eq!(decoded_index, index);
}

#[test]
fn count_parity() {
    for precision in 4..=18u8 {
        let vals: Vec<i32> = (0..=1000).collect();
        let mut non = HyperLogLog::seeded(precision, 42);
        non.insert_all(&vals);
        let mut atomic = AtomicHyperLogLog::seeded(precision, 42);
        atomic.insert_all(&vals);
        assert_eq!(non.iter(), atomic.iter());
        assert_eq!(non.zeros(), atomic.zeros());
        assert_eq!(non.sum_scaled(), atomic.sum_scaled());
        assert_eq!(
            raw_count(non.len(), non.zeros(), non.sum_scaled()),
            raw_count(atomic.len(), atomic.zeros(), atomic.sum_scaled())
        );
    }
}

#[test]
fn insert_repeat() {
    let mut sll = SparseLogLog::new(16);
    let num = 1000;
    for _ in 0..num {
        sll.insert(&1);
    }
    assert_eq!(linear_count(sll.count_entries()).round() as usize, 1);
}

#[test]
fn test_conversion() {
    let hasher = DefaultHasher::random();
    let mut sll = HyperLogLogPlus::with_hasher(12, hasher);
    let mut hll = HyperLogLog::with_hasher(12, hasher);
    let num = 10000;
    for x in 0..num {
        sll.insert(&x);
        hll.insert(&x);
    }
    let before = plus_count(&mut sll);
    for x in 0..num {
        sll.insert(&x);
    }
    let after = plus_count(&mut sll);
    let hcount = raw_count(hll.len(), hll.zeros(), hll.sum_scaled()) as usize;
    assert_eq!(before, after);
    assert_eq!(after, hcount);
    assert!(!sll.is_sparse());
}

#[test]
fn test_union() {
    let mut left = HyperLogLog::seeded(8, 42);
    let mut right = HyperLogLog::seeded(8, 42);

    for x in 1..2000 {
        left.insert(&x);
    }
    for x in 1000..3000 {
        right.insert(&x);
    }

    left.union(&right).unwrap();

    let real = 3000 as f64;
    let count = raw_count(left.len(), left.zeros(), left.sum_scaled()) as usize;
    let my_acc = (real - (count as f64 - real).abs()) / real;
    assert!(my_acc > 0.75, "{}", my_acc);
}

#[test]
fn small_range_regression() {
    let mut hll = HyperLogLog::seeded(4, 42);
    for x in 1..=100 {
        hll.insert(&x);
    }
    for x in 1..=8 {
        hll.insert(&x);
    }
    assert_eq!(hll.zeros(), 0);
    assert_eq!(raw_count(hll.len(), hll.zeros(), hll.sum_scaled()) as usize, 84);

    let mut atomic = AtomicHyperLogLog::seeded(4, 42);
    for x in 1..=100 {
        atomic.insert(&x);
    }
    for x in 1..=8 {
        atomic.insert(&x);
    }
    assert_eq!(
        raw_count(atomic.len(), atomic.zeros(), atomic.sum_scaled()) as usize,
        84
    );
}

#[test]
fn eq_ignores_seed() {
    let mut a = HyperLogLog::seeded(8, 1);
    let mut b = HyperLogLog::seeded(8, 2);
    assert_eq!(a, b);
    for h in [3u64, 1 << 20, 99, u64::MAX, 1 << 63] {
        a.insert_hash(h);
        b.insert_hash(h);
    }
    assert_eq!(a, b);

    let mut c = AtomicHyperLogLog::seeded(8, 1);
    let mut d = AtomicHyperLogLog::seeded(8, 2);
    for h in [3u64, 1 << 20, 99] {
        c.insert_hash(h);
        d.insert_hash(h);
    }
    assert_eq!(c, d);
}

#[test]
fn seeded_reproducible() {
    let mut a = HyperLogLog::seeded(8, 7);
    let mut b = HyperLogLog::seeded(8, 7);
    let mut c = HyperLogLog::seeded(8, 8);
    for x in 0..500 {
        a.insert(&x);
        b.insert(&x);
        c.insert(&x);
    }
    assert_eq!(a, b);
    assert_ne!(a, c);
}

#[test]
fn union_commutative() {
    let mut a = HyperLogLog::seeded(8, 42);
    let mut b = HyperLogLog::seeded(8, 43);
    for x in 0..800 {
        a.insert(&x);
    }
    for x in 400..1200 {
        b.insert(&x);
    }
    let mut ab = a.clone();
    ab.union(&b).unwrap();
    let mut ba = b.clone();
    ba.union(&a).unwrap();
    assert_eq!(ab, ba);
}

#[test]
fn union_idempotent() {
    let mut a = HyperLogLog::seeded(8, 42);
    for x in 0..800 {
        a.insert(&x);
    }
    let mut aa = a.clone();
    aa.union(&a).unwrap();
    assert_eq!(aa, a);
}

#[test]
fn union_length_mismatch() {
    let mut a = HyperLogLog::seeded(4, 42);
    let b = HyperLogLog::seeded(5, 42);
    let before = a.iter();
    assert_eq!(a.union(&b), Err(Error::IncompatibleLength));
    assert_eq!(a.iter(), before);

    let mut c = AtomicHyperLogLog::seeded(4, 42);
    let d = AtomicHyperLogLog::seeded(5, 42);
    assert_eq!(c.union(&d), Err(Error::IncompatibleLength));
}

#[test]
fn atomic_union_matches_dense() {
    let mut a = HyperLogLog::seeded(6, 42);
    let mut b = HyperLogLog::seeded(6, 42);
    let mut x = AtomicHyperLogLog::seeded(6, 42);
    let mut y = AtomicHyperLogLog::seeded(6, 42);
    for v in 0..300 {
        a.insert(&v);
        x.insert(&v);
    }
    for v in 200..600 {
        b.insert(&v);
        y.insert(&v);
    }
    a.union(&b).unwrap();
    x.union(&y).unwrap();
    assert_eq!(a.iter(), x.iter());
    assert_eq!(a.zeros(), x.zeros());
    assert_eq!(a.sum_scaled(), x.sum_scaled());
}

#[test]
fn hashing_changes_input() {
    let mut via_value = HyperLogLog::seeded(8, 42);
    let mut via_raw = HyperLogLog::seeded(8, 42);
    for x in 0..64u64 {
        via_value.insert(&x);
        via_raw.insert_hash(x);
    }
    assert_ne!(via_value, via_raw);
}

#[test]
fn test_clone() {
    let mut hll = HyperLogLog::seeded(4, 42);
    let vals: Vec<i32> = (1..10).collect();
    hll.insert_all(&vals);
    let mut cloned = hll.clone();
    assert_eq!(hll, cloned);
    cloned.insert_hash(1u64 << 40);
    assert!(hll != cloned);

    let mut atomic = AtomicHyperLogLog::seeded(4, 42);
    atomic.insert_all(&vals);
    let mut atomic_cloned = atomic.clone();
    assert_eq!(atomic, atomic_cloned);
    atomic_cloned.insert_hash(1u64 << 40);
    assert!(atomic != atomic_cloned);
}

#[test]
fn rebuild_from_registers() {
    let key = [9u8; 16];
    let mut a = HyperLogLog::seeded(6, 42);
    for x in 0..300 {
        a.insert(&x);
    }
    let rebuilt =
        HyperLogLog::from_registers(6, a.iter(), DefaultHasher::seeded(&key)).unwrap();
    assert_eq!(rebuilt, a);
    assert_eq!(rebuilt.zeros(), a.zeros());
    assert_eq!(rebuilt.sum_scaled(), a.sum_scaled());

    let atomic =
        AtomicHyperLogLog::from_registers(6, a.iter(), DefaultHasher::seeded(&key)).unwrap();
    assert_eq!(atomic.iter(), a.iter());
    assert_eq!(atomic.zeros(), a.zeros());
    assert_eq!(atomic.sum_scaled(), a.sum_scaled());

    let h = DefaultHasher::seeded(&key);
    assert!(HyperLogLog::from_registers(3, vec![0u8; 8], h).is_none());
    assert!(HyperLogLog::from_registers(19, vec![0u8; 16], h).is_none());
    assert!(HyperLogLog::from_registers(4, vec![0u8; 15], h).is_none());
    assert!(HyperLogLog::from_registers(4, vec![66u8; 16], h).is_none());
}

#[test]
fn sparse_counts_distinct_entries() {
    let mut sll = SparseLogLog::new(4);
    for k in 1..=50u64 {
        sll.insert_hash(k << 39);
    }
    assert_eq!(sll.count_entries(), 50);
    for k in 1..=50u64 {
        sll.insert_hash(k << 39);
    }
    assert_eq!(sll.count_entries(), 50);
}

#[test]
fn promotion_matches_direct_inserts() {
    let mut adaptive = HyperLogLogPlus::new(4);
    let mut direct = HyperLogLog::new(4);
    for k in 1..=40u64 {
        let h = k.wrapping_mul(0x9E3779B97F4A7C15);
        adaptive.insert_hash(h);
        direct.insert_hash(h);
    }
    assert!(!adaptive.is_sparse());
    match adaptive.count_data() {
        CountData::Dense { registers, zeros, sum_scaled } => {
            assert_eq!(registers, direct.len());
            assert_eq!(zeros, direct.zeros());
            assert_eq!(sum_scaled, direct.sum_scaled());
        },
        CountData::Sparse { .. } => panic!("expected the dense representation"),
    }
}
