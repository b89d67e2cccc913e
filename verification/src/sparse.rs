//! The sparse front-end: compact hash encodings in a sorted delta stream.
//!
//! While cardinality is small, each 64-bit hash is packed into 32 bits at
//! the maximum supported resolution of 25 index bits: the top 25 bits of
//! the encoding hold the register index, the low seven bits hold either
//! the raw low hash bits (marker bit clear, trailing-zero count at most
//! five — the count is then recoverable as the trailing zeros of the
//! encoding itself) or the verbatim trailing-zero count (marker bit set).
//! Encodings are kept as an unsorted batch plus a persistent ascending
//! stream of varint-encoded deltas, merged batch-wise; decoding the
//! stream provably reproduces the exact ascending value sequence.

use vstd::prelude::*;
use vstd::std_specs::bits::{u32_trailing_zeros, u64_trailing_zeros};
use std::hash::Hash;
use crate::buf::{le64_at, Buf};
use crate::hasher::DefaultHasher;
use crate::dense::HyperLogLog;
use crate::model::{count_zeros, reg_max, spec_hash_index, spec_hash_rank,
    spec_insert_hash, spec_insert_seq, spec_update, sum_terms, zero_regs};
use crate::vint::{
    lemma_le64_masked_frame, lemma_varint_roundtrip, mask_bytes, spec_varint_size,
    spec_varint_word, VarInt,
};

verus! {

/// The 32-bit encoding of a 64-bit hash.
pub open spec fn spec_encode_hash(hash: u64) -> u32 {
    let prefix = (((hash >> 39u64) << 7u64) as u32);
    let tz = u64_trailing_zeros(hash);
    if tz <= 5 {
        prefix | ((((hash & 0b111111) as u32) << 1u32) as u32)
    } else {
        prefix | ((tz << 1u32) as u32) | 1u32
    }
}

/// The rank recovered from an encoding.
pub open spec fn spec_decode_rank(e: u32) -> u32 {
    if e & 1 == 0 {
        u32_trailing_zeros(e)
    } else {
        (1 + ((e & 0b111111) >> 1u32)) as u32
    }
}

/// The register index recovered from an encoding at `precision`.
pub open spec fn spec_decode_index(e: u32, precision: u8) -> u32 {
    e >> ((7 + 25 - precision) as u32)
}

/// Packs a hash into its 32-bit encoding; never zero.
pub fn encode_hash(hash: u64) -> (e: u32)
    ensures
        e == spec_encode_hash(hash),
        e != 0,
{
    let index = hash >> 39;
    let prefix = #[verifier::truncate] ((index << 7) as u32);
    let tz = hash.trailing_zeros();
    proof {
        broadcast use vstd::std_specs::bits::axiom_u64_trailing_zeros;

        if tz <= 5 {
            assert((hash >> (tz as u64)) & 1u64 == 1u64);
            assert(((((hash & 0b111111) as u32) << 1u32) as u32) != 0) by (bit_vector)
                requires
                    (hash >> (tz as u64)) & 1u64 == 1u64,
                    tz <= 5,
            ;
        }
    }
    if tz <= 5 {
        let low = #[verifier::truncate] ((((hash & 0b111111) as u32) << 1u32) as u32);
        proof {
            assert((prefix | low) != 0) by (bit_vector)
                requires
                    low != 0,
            ;
        }
        prefix | low
    } else {
        proof {
            assert((prefix | ((tz << 1) | 1)) == (prefix | ((tz << 1u32) as u32) | 1u32)
                && (prefix | ((tz << 1) | 1)) != 0) by (bit_vector);
        }
        prefix | ((tz << 1) | 1)
    }
}

/// Unpacks an encoding into its rank and its register index at the
/// requested precision.
pub fn decode_hash(hash: u32, precision: u8) -> (r: (u32, usize))
    requires
        4 <= precision <= 25,
    ensures
        r.0 == spec_decode_rank(hash),
        r.1 == spec_decode_index(hash, precision) as usize,
        r.0 <= 32,
        r.1 < (1usize << (precision as usize)),
{
    let index = (hash >> (7 + 25 - precision as u32)) as usize;
    proof {
        broadcast use vstd::std_specs::bits::axiom_u32_trailing_zeros;

        assert(4 <= precision <= 25 ==> ((hash >> ((7 + 25 - precision as u32) as u32)) as usize)
            < (1usize << (precision as usize))) by (bit_vector);
    }
    if hash & 1 == 0 {
        (hash.trailing_zeros(), index)
    } else {
        proof {
            assert((hash & 0b111111u32) >> 1u32 <= 31) by (bit_vector);
        }
        (1 + ((hash & 0b111111) >> 1), index)
    }
}

/// Law: the encoding is exact.  For every hash whose trailing-zero count
/// is below 32, decoding the encoding recovers the exact rank
/// (`1 + trailing zeros`), and the index decoded at any supported
/// precision equals the top `precision` bits of the hash — the index
/// bits are stored most-significant-first, so lowering the precision
/// just drops index bits.
pub proof fn lemma_hash_codec_exact(hash: u64, precision: u8)
    requires
        4 <= precision <= 25,
        u64_trailing_zeros(hash) < 32,
    ensures
        spec_decode_rank(spec_encode_hash(hash)) == 1 + u64_trailing_zeros(hash),
        spec_decode_index(spec_encode_hash(hash), precision) == (hash >> ((64
            - precision) as u64)) as u32,
{
    broadcast use vstd::std_specs::bits::axiom_u64_trailing_zeros;
    broadcast use vstd::std_specs::bits::axiom_u32_trailing_zeros;

    let tz = u64_trailing_zeros(hash);
    let e = spec_encode_hash(hash);
    let p = precision;
    assert(hash != 0);
    assert((hash >> (tz as u64)) & 1u64 == 1u64);
    assert(hash << ((64 - tz) as u64) == 0) by {
        assert(hash << ((64 - tz) as u64) == hash << (64 - (tz as u64)));
    }
    if tz <= 5 {
        assert(e == ((((hash >> 39u64) << 7u64) as u32) | ((((hash & 0b111111) as u32)
            << 1u32) as u32)));
        assert(e & 1 == 0 && (e >> (((tz + 1) as u32) as u32)) & 1u32 == 1u32 && e & (((1u32
            << (((tz + 1) as u32) as u32)) - 1) as u32) == 0) by (bit_vector)
            requires
                e == ((((hash >> 39u64) << 7u64) as u32) | ((((hash & 0b111111) as u32)
                    << 1u32) as u32)),
                (hash >> (tz as u64)) & 1u64 == 1u64,
                hash << ((64 - tz) as u64) == 0,
                tz <= 5,
        ;
        let t2 = u32_trailing_zeros(e);
        assert(e != 0) by (bit_vector)
            requires
                (e >> (((tz + 1) as u32) as u32)) & 1u32 == 1u32,
        ;
        if (t2 as int) < tz + 1 {
            assert((e >> (t2 as u32)) & 1u32 == 1u32);
            assert((e >> (t2 as u32)) & 1u32 == 0u32) by (bit_vector)
                requires
                    e & (((1u32 << (((tz + 1) as u32) as u32)) - 1) as u32) == 0,
                    (t2 as int) < tz + 1,
                    tz <= 5,
            ;
            assert(false);
        }
        if (t2 as int) > tz + 1 {
            assert((e >> (((tz + 1) as u32) as u32)) & 1u32 == 0u32);
            assert(false);
        }
        assert(spec_decode_rank(e) == t2);
        assert(t2 == tz + 1);
        assert(spec_decode_index(e, p) == (hash >> ((64 - p) as u64)) as u32) by (bit_vector)
            requires
                e == ((((hash >> 39u64) << 7u64) as u32) | ((((hash & 0b111111) as u32)
                    << 1u32) as u32)),
                4 <= p <= 25,
        ;
    } else {
        assert(e == ((((hash >> 39u64) << 7u64) as u32) | ((tz << 1u32) as u32) | 1u32));
        assert(e & 1 == 1 && (1 + ((e & 0b111111) >> 1u32)) as u32 == (tz + 1) as u32)
            by (bit_vector)
            requires
                e == ((((hash >> 39u64) << 7u64) as u32) | ((tz << 1u32) as u32) | 1u32),
                6 <= tz < 32,
        ;
        assert(spec_decode_index(e, p) == (hash >> ((64 - p) as u64)) as u32) by (bit_vector)
            requires
                e == ((((hash >> 39u64) << 7u64) as u32) | ((tz << 1u32) as u32) | 1u32),
                6 <= tz < 32,
                4 <= p <= 25,
        ;
    }
}

/// Strictly ascending encodings, all nonzero.
pub open spec fn ascending(vals: Seq<u32>) -> bool {
    &&& (vals.len() > 0 ==> vals[0] >= 1)
    &&& forall|i: int| 0 < i < vals.len() ==> vals[i - 1] < #[trigger] vals[i]
}

/// The delta stored for entry `i`: the value itself for the first entry.
pub open spec fn delta_at(vals: Seq<u32>, i: int) -> u32
    recommends
        0 <= i < vals.len(),
        ascending(vals),
{
    if i == 0 {
        vals[0]
    } else {
        (vals[i] - vals[i - 1]) as u32
    }
}

/// Byte offset of entry `i` in the encoded stream.
pub open spec fn offset_of(vals: Seq<u32>, i: int) -> int
    decreases i,
{
    if i <= 0 {
        0
    } else {
        offset_of(vals, i - 1) + spec_varint_size(delta_at(vals, i - 1))
    }
}

/// Entry `i` of the stream is present and intact in the bytes.
pub open spec fn stream_entry_ok(bytes: Seq<u8>, vals: Seq<u32>, i: int) -> bool {
    let off = offset_of(vals, i);
    let d = delta_at(vals, i);
    &&& off + 8 <= bytes.len()
    &&& le64_at(bytes, off) & mask_bytes(spec_varint_size(d)) == spec_varint_word(d)
        & mask_bytes(spec_varint_size(d))
}

/// Appending a value moves no earlier entry's offset.
pub proof fn lemma_offset_of_push(vals: Seq<u32>, v: u32, i: int)
    requires
        0 <= i <= vals.len(),
    ensures
        offset_of(vals.push(v), i) == offset_of(vals, i),
    decreases i,
{
    if i > 0 {
        lemma_offset_of_push(vals, v, i - 1);
        assert(vals.push(v)[i - 1] == vals[i - 1]);
        if i - 1 > 0 {
            assert(vals.push(v)[i - 2] == vals[i - 2]);
        }
        assert(delta_at(vals.push(v), i - 1) == delta_at(vals, i - 1));
    }
}

/// Offsets grow by one to five bytes per entry.
pub proof fn lemma_offset_bounds(vals: Seq<u32>, i: int, j: int)
    requires
        0 <= i <= j <= vals.len(),
    ensures
        offset_of(vals, i) + (j - i) <= offset_of(vals, j) <= offset_of(vals, i) + 5 * (j - i),
    decreases j - i,
{
    if i < j {
        lemma_offset_bounds(vals, i, j - 1);
    }
}

/// Ascending order is transitive across any pair of positions.
pub proof fn lemma_ascending_monotone(vals: Seq<u32>, i: int, j: int)
    requires
        ascending(vals),
        0 <= i < j < vals.len(),
    ensures
        vals[i] < vals[j],
    decreases j - i,
{
    if i + 1 < j {
        lemma_ascending_monotone(vals, i, j - 1);
    }
}

/// An ascending sequence holds each value once: its length is exactly
/// the size of its value set.
pub proof fn lemma_ascending_card(vals: Seq<u32>)
    requires
        ascending(vals),
    ensures
        entry_set(vals).finite(),
        entry_set(vals).len() == vals.len(),
    decreases vals.len(),
{
    if vals.len() == 0 {
        assert(entry_set(vals) =~= Set::<u32>::empty());
    } else {
        let prefix = vals.drop_last();
        let last = vals.last();
        assert(ascending(prefix));
        lemma_ascending_card(prefix);
        assert forall|x: u32| vals.contains(x) implies prefix.contains(x) || x == last by {
            let k = choose|k: int| 0 <= k < vals.len() && vals[k] == x;
            if k < vals.len() - 1 {
                assert(prefix[k] == x);
            }
        }
        assert forall|x: u32| prefix.contains(x) implies vals.contains(x) by {
            let k = choose|k: int| 0 <= k < prefix.len() && prefix[k] == x;
            assert(vals[k] == x);
        }
        assert(vals[vals.len() - 1] == last);
        assert(entry_set(vals) =~= entry_set(prefix).insert(last));
        assert(!prefix.contains(last)) by {
            if prefix.contains(last) {
                let k = choose|k: int| 0 <= k < prefix.len() && prefix[k] == last;
                lemma_ascending_monotone(vals, k, vals.len() - 1);
            }
        }
        assert(!entry_set(prefix).contains(last));
    }
}

/// In an ascending sequence the value at `i` is at least `i + 1`.
pub proof fn lemma_ascending_index(vals: Seq<u32>, i: int)
    requires
        ascending(vals),
        0 <= i < vals.len(),
    ensures
        vals[i] >= i + 1,
    decreases i,
{
    if i > 0 {
        lemma_ascending_index(vals, i - 1);
    }
}


/// After appending one delta encoding at the stream's end, every entry of
/// the grown value sequence is intact in the new bytes.
#[verifier::rlimit(100)]
proof fn lemma_stream_after_append(
    old_bytes: Seq<u8>,
    new_bytes: Seq<u8>,
    old_vals: Seq<u32>,
    val: u32,
)
    requires
        ascending(old_vals),
        old_vals.len() > 0 ==> val > old_vals.last(),
        old_vals.len() == 0 ==> val >= 1,
        forall|i: int| 0 <= i < old_vals.len() ==> stream_entry_ok(old_bytes, old_vals, i),
        new_bytes.len() >= old_bytes.len(),
        new_bytes.len() >= offset_of(old_vals, old_vals.len() as int) + 8,
        forall|j: int|
            0 <= j < offset_of(old_vals, old_vals.len() as int) ==> new_bytes[j] == old_bytes[j],
        le64_at(new_bytes, offset_of(old_vals, old_vals.len() as int)) == spec_varint_word(
            delta_at(old_vals.push(val), old_vals.len() as int),
        ),
    ensures
        ascending(old_vals.push(val)),
        offset_of(old_vals.push(val), old_vals.len() as int + 1) == offset_of(
            old_vals,
            old_vals.len() as int,
        ) + spec_varint_size(delta_at(old_vals.push(val), old_vals.len() as int)),
        forall|i: int|
            0 <= i < old_vals.push(val).len() ==> stream_entry_ok(
                new_bytes,
                old_vals.push(val),
                i,
            ),
{
    let n0 = old_vals.len() as int;
    let vals = old_vals.push(val);
    assert forall|i: int| 0 <= i <= n0 implies offset_of(vals, i) == offset_of(old_vals, i) by {
        lemma_offset_of_push(old_vals, val, i);
    }
    assert forall|i: int| 0 <= i < vals.len() implies stream_entry_ok(new_bytes, vals, i) by {
        let off = offset_of(vals, i);
        let d = delta_at(vals, i);
        if i < n0 {
            assert(stream_entry_ok(old_bytes, old_vals, i));
            assert(delta_at(vals, i) == delta_at(old_vals, i));
            lemma_offset_bounds(old_vals, 0, i);
            lemma_offset_bounds(old_vals, i + 1, n0);
            assert(off + spec_varint_size(d) <= offset_of(old_vals, n0));
            lemma_le64_masked_frame(new_bytes, old_bytes, off, off, spec_varint_size(d));
        } else {
            assert(off == offset_of(old_vals, n0));
            assert(le64_at(new_bytes, off) == spec_varint_word(d));
        }
    }
}

/// Sorted set of encodings, physically stored as successive varint
/// deltas between consecutive values.
pub struct DiffVec {
    encoded: Buf,
    last: u32,
    len: u32,
    vals: Ghost<Seq<u32>>,
}

impl DiffVec {
    /// The ascending values the stream holds.
    pub closed spec fn values(&self) -> Seq<u32> {
        self.vals@
    }

    /// Byte length of the encoded stream.
    pub closed spec fn byte_size(&self) -> usize {
        self.encoded.wlen()
    }

    /// Hard byte budget of the stream.
    pub closed spec fn cap(&self) -> usize {
        self.encoded.cap_limit()
    }

    /// The last stored value, zero while empty.
    pub closed spec fn last_value(&self) -> u32 {
        self.last
    }

    /// Well-formed: ascending values whose delta encodings sit intact at
    /// their computed offsets.
    pub closed spec fn wf(&self) -> bool {
        &&& ascending(self.vals@)
        &&& self.len as int == self.vals@.len()
        &&& self.last as int == (if self.vals@.len() == 0 {
            0int
        } else {
            self.vals@.last() as int
        })
        &&& self.encoded.wf()
        &&& self.encoded.wlen() as int == offset_of(self.vals@, self.vals@.len() as int)
        &&& forall|i: int|
            0 <= i < self.vals@.len() ==> stream_entry_ok(
                self.encoded.bytes(),
                self.vals@,
                i,
            )
    }

    /// Returns an empty stream with `size` bytes pre-allocated and a
    /// hard byte budget of `max_size`.
    pub fn with_size(size: usize, max_size: usize) -> (r: Self)
        ensures
            r.wf(),
            r.values().len() == 0,
            r.byte_size() == 0,
            r.cap() == max_size,
            r.last_value() == 0,
    {
        DiffVec { encoded: Buf::new(size, max_size), last: 0, len: 0, vals: Ghost(Seq::empty()) }
    }

    /// Byte length of the encoded stream.
    pub fn size(&self) -> (r: usize)
        ensures
            r == self.byte_size(),
    {
        self.encoded.len()
    }

    /// Number of stored values.
    pub fn len(&self) -> (r: usize)
        requires
            self.wf(),
        ensures
            r == self.values().len(),
    {
        self.len as usize
    }

    /// Appends `val`; a value equal to its immediate predecessor is
    /// silently dropped, which with ascending input keeps each value
    /// once.
    pub fn push(&mut self, val: u32)
        requires
            old(self).wf(),
            val >= old(self).last_value(),
            old(self).byte_size() + 8 <= old(self).cap(),
        ensures
            final(self).wf(),
            final(self).cap() == old(self).cap(),
            final(self).last_value() == val,
            final(self).values() == (if val == old(self).last_value() {
                old(self).values()
            } else {
                old(self).values().push(val)
            }),
    {
        if val == self.last {
            return ;
        }
        let ghost old_vals = self.vals@;
        let ghost old_bytes = self.encoded.bytes();
        let ghost n0 = old_vals.len() as int;
        proof {
            if n0 > 0 {
                lemma_ascending_index(old_vals, n0 - 1);
            }
            assert(delta_at(old_vals.push(val), n0) == (val - self.last) as u32);
        }
        let diff = val - self.last;
        VarInt::write(&mut self.encoded, diff);
        self.last = val;
        self.len = self.len + 1;
        proof {
            self.vals@ = old_vals.push(val);
            lemma_stream_after_append(old_bytes, self.encoded.bytes(), old_vals, val);
            assert(self.vals@.last() == val);
        }
    }

    /// Trims scratch storage past the stream's end; every recorded entry
    /// stays readable.
    pub fn shrink_stream(&mut self)
        requires
            old(self).wf(),
            old(self).byte_size() <= usize::MAX - 7,
        ensures
            final(self).wf(),
            final(self).values() == old(self).values(),
            final(self).byte_size() == old(self).byte_size(),
            final(self).cap() == old(self).cap(),
            final(self).last_value() == old(self).last_value(),
    {
        let ghost old_bytes = self.encoded.bytes();
        let ghost vals = self.vals@;
        self.encoded.shrink_to_fit();
        proof {
            let bytes = self.encoded.bytes();
            let n = vals.len() as int;
            assert forall|i: int| 0 <= i < n implies stream_entry_ok(bytes, vals, i) by {
                assert(stream_entry_ok(old_bytes, vals, i));
                lemma_offset_bounds(vals, 0, i);
                lemma_offset_bounds(vals, i, i + 1);
                lemma_offset_bounds(vals, i + 1, n);
                let off = offset_of(vals, i);
                assert(off + 8 <= bytes.len());
                lemma_le64_masked_frame(bytes, old_bytes, off, off, 8);
                assert(le64_at(bytes, off) & 0xFFFF_FFFF_FFFF_FFFFu64 == le64_at(
                    old_bytes,
                    off,
                ) & 0xFFFF_FFFF_FFFF_FFFFu64);
                assert(forall|x: u64| x & 0xFFFF_FFFF_FFFF_FFFFu64 == x) by (bit_vector);
            }
        }
    }

    /// Decodes the whole stream back into its ascending values.
    pub fn values_vec(&self) -> (r: Vec<u32>)
        requires
            self.wf(),
        ensures
            r@ == self.values(),
    {
        let ghost vals = self.vals@;
        let n = self.len as usize;
        let mut out: Vec<u32> = Vec::new();
        let mut idx: usize = 0;
        let mut lastv: u32 = 0;
        while out.len() < n
            invariant
                self.wf(),
                vals == self.vals@,
                n == vals.len(),
                out@.len() <= n,
                out@ == vals.subrange(0, out@.len() as int),
                idx as int == offset_of(vals, out@.len() as int),
                lastv as int == (if out@.len() == 0 {
                    0int
                } else {
                    vals[out@.len() - 1] as int
                }),
            decreases n - out@.len(),
        {
            let ghost k = out@.len() as int;
            proof {
                assert(stream_entry_ok(self.encoded.bytes(), vals, k));
                lemma_varint_roundtrip(
                    delta_at(vals, k),
                    le64_at(self.encoded.bytes(), idx as int),
                );
                lemma_offset_bounds(vals, 0, k);
            }
            let (dif, ni) = VarInt::read(&self.encoded, idx);
            proof {
                assert(dif == delta_at(vals, k));
                if k > 0 {
                    assert(vals[k - 1] < vals[k]);
                }
                assert(lastv + dif == vals[k]);
            }
            idx = ni;
            let v = lastv + dif;
            lastv = v;
            out.push(v);
            proof {
                assert(out@ =~= vals.subrange(0, k + 1));
            }
        }
        proof {
            assert(out@ =~= vals);
        }
        out
    }

    /// Consumes the stream into a decoding cursor over its values.
    pub fn into_iter(self) -> (it: DiffIter)
        requires
            self.wf(),
        ensures
            it.wf(),
            it.remaining() == self.values(),
    {
        let it = DiffIter { index: 0, last: 0, inner: self, pos: Ghost(0) };
        proof {
            assert(it.remaining() =~= it.inner.values());
        }
        it
    }
}

/// Decoding cursor over a `DiffVec` stream, yielding its values in
/// ascending order.
pub struct DiffIter {
    index: usize,
    last: u32,
    inner: DiffVec,
    pos: Ghost<int>,
}

impl DiffIter {
    /// Well-formed: the byte cursor sits exactly at the entry the ghost
    /// position names.
    pub closed spec fn wf(&self) -> bool {
        &&& self.inner.wf()
        &&& 0 <= self.pos@ <= self.inner.values().len()
        &&& self.index as int == offset_of(self.inner.values(), self.pos@)
        &&& self.last as int == (if self.pos@ == 0 {
            0int
        } else {
            self.inner.values()[self.pos@ - 1] as int
        })
    }

    /// The values not yet yielded.
    pub closed spec fn remaining(&self) -> Seq<u32> {
        self.inner.values().subrange(self.pos@, self.inner.values().len() as int)
    }

    /// Yields the next value of the stream, reconstructed from its
    /// stored delta.
    pub fn next(&mut self) -> (r: Option<u32>)
        requires
            old(self).wf(),
        ensures
            final(self).wf(),
            match r {
                None => old(self).remaining().len() == 0 && final(self).remaining() == old(
                    self,
                ).remaining(),
                Some(v) => old(self).remaining().len() > 0 && v == old(self).remaining()[0]
                    && final(self).remaining() == old(self).remaining().drop_first(),
            },
    {
        let ghost vals = self.inner.values();
        let ghost pos = self.pos@;
        let ghost n = vals.len() as int;
        proof {
            lemma_offset_bounds(vals, pos, n);
        }
        if self.index >= self.inner.size() {
            proof {
                assert(pos == n);
                assert(self.remaining() =~= vals.subrange(pos, n));
            }
            return None;
        }
        proof {
            assert(pos < n);
            assert(stream_entry_ok(self.inner.encoded.bytes(), vals, pos));
            lemma_varint_roundtrip(
                delta_at(vals, pos),
                le64_at(self.inner.encoded.bytes(), self.index as int),
            );
            if pos > 0 {
                assert(vals[pos - 1] < vals[pos]);
            }
        }
        let (dif, ni) = VarInt::read(&self.inner.encoded, self.index);
        proof {
            assert(dif == delta_at(vals, pos));
        }
        self.index = ni;
        let v = self.last + dif;
        self.last = v;
        proof {
            assert(v == vals[pos]);
            self.pos@ = pos + 1;
            assert(final(self).remaining() =~= old(self).remaining().drop_first());
        }
        Some(v)
    }
}

/// The set of values a sequence holds.
pub open spec fn entry_set(vals: Seq<u32>) -> Set<u32> {
    Set::new(|x: u32| vals.contains(x))
}

/// Sorts a batch of encodings by repeated minimum extraction.
fn sort_batch(input: Vec<u32>) -> (out: Vec<u32>)
    ensures
        out@.len() == input@.len(),
        out@.to_multiset() == input@.to_multiset(),
        forall|i: int, j: int| 0 <= i <= j < out@.len() ==> out@[i] <= out@[j],
{
    broadcast use vstd::seq_lib::group_to_multiset_ensures;
    broadcast use vstd::seq_lib::lemma_seq_contains_after_push;

    let mut rest = input;
    let mut out: Vec<u32> = Vec::new();
    let ghost whole = rest@.to_multiset();
    while rest.len() > 0
        invariant
            out@.to_multiset().add(rest@.to_multiset()) =~= whole,
            forall|i: int, j: int| 0 <= i <= j < out@.len() ==> out@[i] <= out@[j],
            forall|i: int, j: int|
                0 <= i < out@.len() && 0 <= j < rest@.len() ==> out@[i] <= rest@[j],
            out@.len() + rest@.len() == whole.len(),
        decreases rest@.len(),
    {
        let mut m: usize = 0;
        let mut k: usize = 1;
        while k < rest.len()
            invariant
                m < rest@.len(),
                k <= rest@.len(),
                forall|j: int| 0 <= j < k ==> rest@[m as int] <= rest@[j],
            decreases rest@.len() - k,
        {
            if rest[k] < rest[m] {
                m = k;
            }
            k = k + 1;
        }
        let ghost rest0 = rest@;
        let ghost out0 = out@;
        let x = rest.remove(m);
        out.push(x);
        proof {
            broadcast use vstd::seq_lib::group_to_multiset_ensures;

            assert(rest0[m as int] == x && rest0.contains(x));
            assert(rest@ == rest0.remove(m as int));
            assert(rest0.remove(m as int).to_multiset() =~= rest0.to_multiset().remove(
                rest0[m as int],
            ));
            assert(out0.push(x).to_multiset() =~= out0.to_multiset().insert(x));
            assert(rest@.to_multiset() =~= rest0.to_multiset().remove(x));
            assert(out@.to_multiset() =~= out0.to_multiset().insert(x));
            assert(rest0.to_multiset().count(x) > 0);
            assert forall|y: u32|
                out@.to_multiset().add(rest@.to_multiset()).count(y) == out0.to_multiset().add(
                    rest0.to_multiset(),
                ).count(y) by {
            }
            assert(out@.to_multiset().add(rest@.to_multiset()) =~= whole);
            assert forall|p: int, q: int|
                0 <= p < out@.len() && 0 <= q < rest@.len() implies out@[p] <= rest@[q] by {
                if q < m {
                    assert(rest@[q] == rest0[q]);
                } else {
                    assert(rest@[q] == rest0[q + 1]);
                }
            }
        }
    }
    proof {
        broadcast use vstd::seq_lib::group_to_multiset_ensures;

        assert(out@.to_multiset().len() == whole.len());
        assert(out@.to_multiset() =~= whole);
    }
    out
}

/// Merges a sorted batch with the ascending stream values, dropping
/// duplicates: the result is strictly ascending and holds exactly the
/// union of the two value sets.
#[verifier::rlimit(100)]
fn merge_dedup(a: &Vec<u32>, b: &Vec<u32>) -> (out: Vec<u32>)
    requires
        forall|i: int, j: int| 0 <= i <= j < a@.len() ==> a@[i] <= a@[j],
        forall|i: int| 0 <= i < a@.len() ==> a@[i] >= 1,
        ascending(b@),
    ensures
        ascending(out@),
        entry_set(out@) == entry_set(a@).union(entry_set(b@)),
        out@.len() <= a@.len() + b@.len(),
{
    let mut i: usize = 0;
    let mut j: usize = 0;
    let mut out: Vec<u32> = Vec::new();
    proof {
        assert forall|k: int| 0 <= k < b@.len() implies b@[k] >= 1 by {
            lemma_ascending_index(b@, k);
        }
    }
    while i < a.len() || j < b.len()
        invariant
            i <= a@.len(),
            j <= b@.len(),
            forall|p: int, q: int| 0 <= p <= q < a@.len() ==> a@[p] <= a@[q],
            forall|p: int| 0 <= p < a@.len() ==> a@[p] >= 1,
            forall|p: int| 0 <= p < b@.len() ==> b@[p] >= 1,
            ascending(b@),
            ascending(out@),
            out@.len() <= i + j,
            out@.len() > 0 ==> (i < a@.len() ==> out@.last() <= a@[i as int]),
            out@.len() > 0 ==> (j < b@.len() ==> out@.last() <= b@[j as int]),
            entry_set(out@) =~= entry_set(a@.subrange(0, i as int)).union(
                entry_set(b@.subrange(0, j as int)),
            ),
        decreases a@.len() + b@.len() - i - j,
    {
        let ghost out0 = out@;
        let x: u32;
        if j >= b.len() || (i < a.len() && a[i] <= b[j]) {
            x = a[i];
            proof {
                assert(a@.subrange(0, i as int + 1) =~= a@.subrange(0, i as int).push(
                    a@[i as int],
                ));
            }
            i = i + 1;
        } else {
            x = b[j];
            proof {
                assert(b@.subrange(0, j as int + 1) =~= b@.subrange(0, j as int).push(
                    b@[j as int],
                ));
            }
            j = j + 1;
        }
        if out.len() == 0 {
            out.push(x);
        } else {
            let lastv = out[out.len() - 1];
            if lastv < x {
                out.push(x);
            }
        }
        proof {
            broadcast use vstd::seq_lib::lemma_seq_contains_after_push;

            assert(out@.len() > 0 && (out@ == out0 || out@ == out0.push(x)));
            assert(out@ == out0 ==> out0.len() > 0 && out0.last() == x && out0.contains(x));
            assert(entry_set(out@) =~= entry_set(out0).insert(x));
            assert(entry_set(a@.subrange(0, i as int)).union(
                entry_set(b@.subrange(0, j as int)),
            ) =~= entry_set(out@));
            assert(out@.last() >= x);
        }
    }
    proof {
        assert(a@.subrange(0, a@.len() as int) =~= a@);
        assert(b@.subrange(0, b@.len() as int) =~= b@);
    }
    out
}

/// One decoded entry applied to a register array as a max-update.
pub open spec fn spec_apply_entry(regs: Seq<u8>, precision: u8, e: u32) -> Seq<u8> {
    spec_update(regs, spec_decode_index(e, precision) as int, spec_decode_rank(e) as u8)
}

/// A sequence of entries applied in order.
pub open spec fn spec_apply_entries(regs: Seq<u8>, precision: u8, vals: Seq<u32>) -> Seq<u8>
    decreases vals.len(),
{
    if vals.len() == 0 {
        regs
    } else {
        spec_apply_entry(spec_apply_entries(regs, precision, vals.drop_last()), precision, vals.last())
    }
}

/// Sparse estimator state: an unsorted batch of fresh encodings plus the
/// persistent sorted diff stream.
pub struct SparseLogLog {
    new: Vec<u32>,
    indexes: DiffVec,
    precision: u8,
    hasher: DefaultHasher,
}

impl SparseLogLog {
    /// The set of distinct encodings inserted so far.
    pub closed spec fn entries(&self) -> Set<u32> {
        entry_set(self.indexes.values()).union(entry_set(self.new@))
    }

    /// The requested dense precision.
    pub closed spec fn precision(&self) -> u8 {
        self.precision
    }

    /// Byte length of the persistent stream.
    pub closed spec fn stream_bytes(&self) -> usize {
        self.indexes.byte_size()
    }

    /// Number of values in the persistent stream.
    pub closed spec fn stream_len(&self) -> int {
        self.indexes.values().len() as int
    }

    /// The stream's ascending value sequence.
    pub closed spec fn stream_values(&self) -> Seq<u32> {
        self.indexes.values()
    }

    /// Number of encodings still waiting in the unsorted batch.
    pub closed spec fn pending_len(&self) -> int {
        self.new@.len() as int
    }

    /// Well-formed: a valid stream, nonzero encodings, and a batch kept
    /// below the flush threshold.
    pub closed spec fn wf(&self) -> bool {
        &&& 4 <= self.precision <= 18
        &&& self.indexes.wf()
        &&& forall|i: int| 0 <= i < self.new@.len() ==> self.new@[i] >= 1
        &&& self.new@.len() * 25 <= ((1usize << (self.precision as usize)) << 2)
        &&& self.indexes.values().len() + self.new@.len() <= 0x0400_0001
    }

    /// Room for one more insertion before the entry bound.
    pub open spec fn has_room(&self) -> bool {
        self.stream_len() + self.pending_len() < 0x0400_0001
    }

    /// Returns an empty sparse estimator using the provided hasher.
    pub fn with_hasher(precision: u8, hasher: DefaultHasher) -> (r: Self)
        requires
            4 <= precision <= 18,
        ensures
            r.wf(),
            r.precision() == precision,
            r.entries() == Set::<u32>::empty(),
            r.stream_bytes() == 0,
            r.stream_len() == 0,
            r.pending_len() == 0,
    {
        let r = SparseLogLog {
            new: Vec::new(),
            indexes: DiffVec::with_size(0, 0),
            precision,
            hasher,
        };
        proof {
            assert(r.entries() =~= Set::<u32>::empty());
        }
        r
    }

    /// Returns an empty sparse estimator with a randomly seeded hasher.
    pub fn new(precision: u8) -> (r: Self)
        requires
            4 <= precision <= 18,
        ensures
            r.wf(),
            r.precision() == precision,
            r.entries() == Set::<u32>::empty(),
            r.stream_bytes() == 0,
            r.stream_len() == 0,
            r.pending_len() == 0,
    {
        Self::with_hasher(precision, DefaultHasher::random())
    }

    /// Byte size of the dense register array this precision would use.
    fn hll_size_bytes(&self) -> (r: usize)
        requires
            4 <= self.precision() <= 18,
        ensures
            r == (1usize << (self.precision() as usize)),
    {
        1usize << (self.precision as usize)
    }

    /// Whether the unsorted batch has grown past the flush threshold.
    fn should_flush(&self) -> (r: bool)
        requires
            self.wf(),
        ensures
            r == (self.pending_len() * 25 > ((1usize << (self.precision() as usize)) << 2)),
    {
        let dense_hll_size = self.hll_size_bytes() << 2;
        self.new.len() * 25 > dense_hll_size
    }

    /// Merges the sorted batch into a freshly encoded stream; afterwards
    /// the stream holds exactly the entry set, each value once, in
    /// ascending order.
    #[verifier::rlimit(100)]
    pub fn flush(&mut self)
        requires
            4 <= old(self).precision() <= 18,
            old(self).wf_stream(),
        ensures
            final(self).wf(),
            final(self).precision() == old(self).precision(),
            final(self).entries() == old(self).entries(),
            final(self).pending_len() == 0,
            entry_set(final(self).stream_values()) == old(self).entries(),
            final(self).stream_len() <= old(self).stream_len() + old(self).pending_len(),
    {
        if self.new.is_empty() {
            proof {
                assert(entry_set(self.new@) =~= Set::<u32>::empty());
                assert(self.entries() =~= entry_set(self.stream_values()));
            }
            return ;
        }
        let ghost old_entries = self.entries();
        let mut batch: Vec<u32> = Vec::new();
        core::mem::swap(&mut self.new, &mut batch);
        let sorted = sort_batch(batch);
        let old_vals = self.indexes.values_vec();
        proof {
            broadcast use vstd::seq_lib::group_to_multiset_ensures;

            assert forall|x: u32| sorted@.contains(x) <==> batch@.contains(x) by {
                assert(sorted@.to_multiset().count(x) == batch@.to_multiset().count(x));
            }
            assert(entry_set(sorted@) =~= entry_set(batch@));
            assert forall|i: int| 0 <= i < sorted@.len() implies sorted@[i] >= 1 by {
                assert(sorted@.contains(sorted@[i]));
                let w = choose|w: int| 0 <= w < batch@.len() && batch@[w] == sorted@[i];
                assert(batch@[w] >= 1);
            }
        }
        let merged = merge_dedup(&sorted, &old_vals);
        let total: usize = 5 * merged.len() + 8;
        let mut dv = DiffVec::with_size(total, total);
        let mut i: usize = 0;
        while i < merged.len()
            invariant
                i <= merged@.len(),
                ascending(merged@),
                merged@.len() <= 0x0400_0001,
                dv.wf(),
                dv.cap() == 5 * merged@.len() + 8,
                dv.values() == merged@.subrange(0, i as int),
                dv.last_value() as int == (if i == 0 {
                    0int
                } else {
                    merged@[i as int - 1] as int
                }),
            decreases merged@.len() - i,
        {
            proof {
                lemma_offset_bounds(dv.values(), 0, dv.values().len() as int);
                if i > 0 {
                    assert(merged@[i as int - 1] < merged@[i as int]);
                }
            }
            dv.push(merged[i]);
            proof {
                assert(dv.values() =~= merged@.subrange(0, i as int + 1));
            }
            i = i + 1;
        }
        proof {
            assert(dv.values() =~= merged@);
            lemma_offset_bounds(dv.values(), 0, dv.values().len() as int);
        }
        dv.shrink_stream();
        self.indexes = dv;
        proof {
            assert(entry_set(self.new@) =~= Set::<u32>::empty());
            assert(self.entries() =~= entry_set(merged@));
            assert(entry_set(merged@) =~= old_entries);
        }
    }

    /// The flush precondition: everything of `wf` except the batch
    /// threshold, which one fresh insertion may exceed.
    pub closed spec fn wf_stream(&self) -> bool {
        &&& 4 <= self.precision <= 18
        &&& self.indexes.wf()
        &&& forall|i: int| 0 <= i < self.new@.len() ==> self.new@[i] >= 1
        &&& self.new@.len() * 25 <= ((1usize << (self.precision as usize)) << 2) + 25
        &&& self.indexes.values().len() + self.new@.len() <= 0x0400_0001
    }

    /// Inserts the encoding of a pre-computed 64-bit hash.
    pub fn insert_hash(&mut self, hash: u64)
        requires
            old(self).wf(),
            old(self).has_room(),
        ensures
            final(self).wf(),
            final(self).precision() == old(self).precision(),
            final(self).entries() == old(self).entries().insert(spec_encode_hash(hash)),
            final(self).stream_len() + final(self).pending_len() <= old(self).stream_len()
                + old(self).pending_len() + 1,
    {
        let ghost old_entries = self.entries();
        let e = encode_hash(hash);
        self.new.push(e);
        proof {
            broadcast use vstd::seq_lib::lemma_seq_contains_after_push;

            assert(self.entries() =~= old_entries.insert(e));
        }
        if self.should_flush_loose() {
            self.flush();
        }
    }

    /// The flush trigger, callable in the loosened state one insertion
    /// leaves behind.
    fn should_flush_loose(&self) -> (r: bool)
        requires
            self.wf_stream(),
        ensures
            r == (self.pending_len() * 25 > ((1usize << (self.precision() as usize)) << 2)),
    {
        let dense_hll_size = (1usize << (self.precision as usize)) << 2;
        self.new.len() * 25 > dense_hll_size
    }

    /// Inserts one value through the hasher.
    pub fn insert<T: Hash + ?Sized>(&mut self, value: &T)
        requires
            old(self).wf(),
            old(self).has_room(),
        ensures
            final(self).wf(),
            final(self).precision() == old(self).precision(),
            exists|h: u64|
                final(self).entries() == old(self).entries().insert(
                    #[trigger] spec_encode_hash(h),
                ),
    {
        let h = self.hasher.hash_one(value);
        self.insert_hash(h);
    }

    /// Flushes, then reports how many distinct encodings are stored: the
    /// input to linear counting.
    pub fn count_entries(&mut self) -> (r: usize)
        requires
            old(self).wf(),
        ensures
            final(self).wf(),
            final(self).precision() == old(self).precision(),
            final(self).entries() == old(self).entries(),
            r == final(self).stream_len(),
            entry_set(final(self).stream_values()) == old(self).entries(),
            old(self).entries().finite(),
            r == old(self).entries().len(),
    {
        self.flush();
        proof {
            lemma_ascending_card(self.indexes.values());
        }
        self.indexes.len()
    }

    /// Whether the stream has outgrown the dense register array.
    pub fn full(&self) -> (r: bool)
        requires
            4 <= self.precision() <= 18,
        ensures
            r == (self.stream_bytes() > (1usize << (self.precision() as usize))),
    {
        self.indexes.size() > self.hll_size_bytes()
    }
}

impl SparseLogLog {
    /// The stream's value count never exceeds its byte length.
    pub proof fn lemma_len_le_bytes(&self)
        requires
            self.wf(),
        ensures
            self.stream_len() <= self.stream_bytes(),
    {
        lemma_offset_bounds(self.indexes.values(), 0, self.indexes.values().len() as int);
    }

    /// Converts the sparse state into the dense form, applying every
    /// stored encoding as a register max-update: the result is exactly
    /// the fold of the decoded entries over a fresh register array.
    pub fn into_dense(self) -> (r: HyperLogLog)
        requires
            self.wf(),
        ensures
            r.wf(),
            r.precision() == self.precision(),
            exists|vals: Seq<u32>|
                ascending(vals) && entry_set(vals) == self.entries() && r.regs()
                    == #[trigger] spec_apply_entries(
                    zero_regs(self.precision()),
                    self.precision(),
                    vals,
                ),
    {
        let mut s = self;
        s.flush();
        let pr = s.precision;
        let vals = s.indexes.values_vec();
        let ghost vseq = vals@;
        let mut hll = HyperLogLog::with_hasher(pr, s.hasher);
        proof {
            assert(hll.regs() =~= zero_regs(pr));
            assert(vseq.subrange(0, 0) =~= Seq::<u32>::empty());
        }
        let mut i: usize = 0;
        while i < vals.len()
            invariant
                i <= vseq.len(),
                vseq == vals@,
                4 <= pr <= 18,
                hll.wf(),
                hll.precision() == pr,
                hll.regs().len() == (1usize << (pr as usize)),
                hll.regs() == spec_apply_entries(zero_regs(pr), pr, vseq.subrange(0, i as int)),
            decreases vseq.len() - i,
        {
            let (rank, idx) = decode_hash(vals[i], pr);
            hll.update(rank as u8, idx);
            proof {
                assert(vseq.subrange(0, i as int + 1).drop_last() =~= vseq.subrange(
                    0,
                    i as int,
                ));
                assert(vseq.subrange(0, i as int + 1).last() == vseq[i as int]);
            }
            i = i + 1;
        }
        proof {
            assert(vseq.subrange(0, vseq.len() as int) =~= vseq);
        }
        hll
    }
}

/// The adaptive estimator: sparse until the stream outgrows the dense
/// register array, dense from then on, never reverting.
pub struct HyperLogLogPlus {
    sparse: Option<SparseLogLog>,
    dense: Option<HyperLogLog>,
    hasher: DefaultHasher,
}

/// The inputs a caller needs to turn the current state into a
/// cardinality estimate.
pub enum CountData {
    Sparse { uniques: usize },
    Dense { registers: usize, zeros: usize, sum_scaled: u128 },
}

impl HyperLogLogPlus {
    /// Whether the estimator is still in its sparse representation.
    pub closed spec fn is_sparse_state(&self) -> bool {
        self.sparse is Some
    }

    /// The sparse entry set (meaningful while sparse).
    pub closed spec fn entries(&self) -> Set<u32> {
        self.sparse->Some_0.entries()
    }

    /// The dense register array (meaningful once promoted).
    pub closed spec fn dense_regs(&self) -> Seq<u8> {
        self.dense->Some_0.regs()
    }

    /// The configured precision.
    pub closed spec fn precision(&self) -> u8 {
        if self.sparse is Some {
            self.sparse->Some_0.precision()
        } else {
            self.dense->Some_0.precision()
        }
    }

    /// Number of distinct entries in the flushed sparse stream.
    pub closed spec fn sparse_uniques(&self) -> int {
        self.sparse->Some_0.stream_len()
    }

    /// Whether the sparse stream has outgrown the dense array.
    pub closed spec fn sparse_full(&self) -> bool {
        self.sparse->Some_0.stream_bytes() > (1usize << (self.precision() as usize))
    }

    /// Exactly one representation lives at any time, and it is valid.
    pub closed spec fn wf(&self) -> bool {
        &&& (self.sparse is Some) <==> !(self.dense is Some)
        &&& (self.sparse is Some ==> self.sparse->Some_0.wf())
        &&& (self.dense is Some ==> self.dense->Some_0.wf())
    }

    /// Returns a fresh adaptive estimator using the provided hasher.
    pub fn with_hasher(precision: u8, hasher: DefaultHasher) -> (r: Self)
        requires
            4 <= precision <= 18,
        ensures
            r.wf(),
            r.is_sparse_state(),
            r.precision() == precision,
            r.entries() == Set::<u32>::empty(),
            !r.sparse_full(),
    {
        HyperLogLogPlus {
            sparse: Some(SparseLogLog::with_hasher(precision, hasher)),
            dense: None,
            hasher,
        }
    }

    /// Returns a fresh adaptive estimator with a random hasher.
    pub fn new(precision: u8) -> (r: Self)
        requires
            4 <= precision <= 18,
        ensures
            r.wf(),
            r.is_sparse_state(),
            r.precision() == precision,
            r.entries() == Set::<u32>::empty(),
            !r.sparse_full(),
    {
        Self::with_hasher(precision, DefaultHasher::random())
    }

    /// Whether the estimator is still sparse.
    pub fn is_sparse(&self) -> (r: bool)
        ensures
            r == self.is_sparse_state(),
    {
        self.sparse.is_some()
    }

    /// Promotes the sparse state into the dense form, once.
    fn swap(&mut self)
        requires
            old(self).wf(),
            old(self).is_sparse_state(),
        ensures
            final(self).wf(),
            !final(self).is_sparse_state(),
            final(self).precision() == old(self).precision(),
            exists|vals: Seq<u32>|
                ascending(vals) && entry_set(vals) == old(self).entries()
                    && final(self).dense_regs() == #[trigger] spec_apply_entries(
                    zero_regs(old(self).precision()),
                    old(self).precision(),
                    vals,
                ),
    {
        let mut tmp: Option<SparseLogLog> = None;
        core::mem::swap(&mut self.sparse, &mut tmp);
        let s = match tmp {
            Some(s) => s,
            None => vstd::pervasive::unreached(),
        };
        let ghost sg = s;
        let d = s.into_dense();
        let ghost dg = d;
        self.dense = Some(d);
        proof {
            let vals = choose|vals: Seq<u32>|
                ascending(vals) && entry_set(vals) == sg.entries() && dg.regs()
                    == #[trigger] spec_apply_entries(
                    zero_regs(sg.precision()),
                    sg.precision(),
                    vals,
                );
            assert(ascending(vals) && entry_set(vals) == old(self).entries()
                && final(self).dense_regs() == spec_apply_entries(
                zero_regs(old(self).precision()),
                old(self).precision(),
                vals,
            ));
        }
    }

    /// Inserts a pre-computed 64-bit hash, promoting first when the
    /// sparse stream has outgrown the dense array.
    pub fn insert_hash(&mut self, hash: u64)
        requires
            old(self).wf(),
        ensures
            final(self).wf(),
            final(self).precision() == old(self).precision(),
            plus_step(old(self), hash, final(self)),
    {
        let full_now = match &self.sparse {
            Some(s) => s.full(),
            None => false,
        };
        if full_now {
            self.swap();
        }
        match &mut self.sparse {
            Some(s) => {
                proof {
                    s.lemma_len_le_bytes();
                    let ghost pp = s.precision();
                    assert(4 <= pp <= 18 ==> ((1usize << (pp as usize)) << 2) <= 0x100000usize
                        && (1usize << (pp as usize)) <= 0x40000usize) by (bit_vector);
                    assert(!full_now);
                    assert(s.stream_bytes() <= (1usize << (pp as usize)));
                    assert(s.stream_len() <= 0x40000);
                    assert(s.pending_len() * 25 <= 0x100000);
                    assert(s.stream_len() + s.pending_len() < 0x0400_0001);
                }
                s.insert_hash(hash);
            },
            None => {
                match &mut self.dense {
                    Some(d) => d.insert_hash(hash),
                    None => {
                        proof {
                            assert(false);
                        }
                    },
                }
            },
        }
    }

    /// Inserts one value through the hasher.
    pub fn insert<T: Hash + ?Sized>(&mut self, value: &T)
        requires
            old(self).wf(),
        ensures
            final(self).wf(),
            final(self).precision() == old(self).precision(),
            exists|h: u64| #[trigger] plus_step(old(self), h, final(self)),
    {
        let h = self.hasher.hash_one(value);
        self.insert_hash(h);
    }

    /// Flushes if still sparse, and hands out what an estimate needs:
    /// the distinct-entry count while sparse, the register count, the
    /// zero count and the scaled harmonic sum once dense.
    pub fn count_data(&mut self) -> (r: CountData)
        requires
            old(self).wf(),
        ensures
            final(self).wf(),
            final(self).is_sparse_state() == old(self).is_sparse_state(),
            final(self).precision() == old(self).precision(),
            match r {
                CountData::Sparse { uniques } => {
                    &&& old(self).is_sparse_state()
                    &&& final(self).entries() == old(self).entries()
                    &&& uniques as int == final(self).sparse_uniques()
                    &&& old(self).entries().finite()
                    &&& uniques == old(self).entries().len()
                },
                CountData::Dense { registers, zeros, sum_scaled } => {
                    &&& !old(self).is_sparse_state()
                    &&& final(self).dense_regs() == old(self).dense_regs()
                    &&& registers == old(self).dense_regs().len()
                    &&& zeros == count_zeros(old(self).dense_regs())
                    &&& sum_scaled == sum_terms(old(self).dense_regs())
                },
            },
    {
        match &mut self.sparse {
            Some(s) => CountData::Sparse { uniques: s.count_entries() },
            None => {
                match &self.dense {
                    Some(d) => CountData::Dense {
                        registers: d.len(),
                        zeros: d.zeros(),
                        sum_scaled: d.sum_scaled(),
                    },
                    None => vstd::pervasive::unreached(),
                }
            },
        }
    }
}

/// How one insertion moves the adaptive estimator: while sparse and not
/// full it adds the hash's encoding to the entry set; when the stream
/// has outgrown the dense array it first promotes (folding the decoded
/// entries over fresh registers) and then applies the hash densely; once
/// dense it stays dense and max-updates one register.
pub open spec fn plus_step(pre: &HyperLogLogPlus, h: u64, post: &HyperLogLogPlus) -> bool {
    if pre.is_sparse_state() {
        if pre.sparse_full() {
            &&& !post.is_sparse_state()
            &&& exists|vals: Seq<u32>|
                ascending(vals) && entry_set(vals) == pre.entries() && post.dense_regs()
                    == spec_insert_hash(
                    #[trigger] spec_apply_entries(zero_regs(pre.precision()), pre.precision(), vals),
                    pre.precision() as u64,
                    h,
                )
        } else {
            &&& post.is_sparse_state()
            &&& post.entries() == pre.entries().insert(spec_encode_hash(h))
        }
    } else {
        &&& !post.is_sparse_state()
        &&& post.dense_regs() == spec_insert_hash(pre.dense_regs(), pre.precision() as u64, h)
    }
}

/// The set of encodings of a hash sequence.
pub open spec fn encodings_of(hs: Seq<u64>) -> Set<u32> {
    Set::new(|x: u32| exists|k: int| 0 <= k < hs.len() && spec_encode_hash(hs[k]) == x)
}

/// What one entry contributes to the register at `i`: its rank when it
/// decodes to that index, nothing otherwise.
pub open spec fn entry_rank_at(e: u32, p: u8, i: int) -> u8 {
    if spec_decode_index(e, p) == i {
        spec_decode_rank(e) as u8
    } else {
        0
    }
}

/// What one hash contributes to the register at `i`.
pub open spec fn hash_rank_at(h: u64, p: u8, i: int) -> u8 {
    if spec_hash_index(h, p as u64) == i {
        spec_hash_rank(h)
    } else {
        0
    }
}

/// Largest contribution of any entry of `vals` to the register at `i`.
pub open spec fn max_entry_rank(vals: Seq<u32>, p: u8, i: int) -> u8
    decreases vals.len(),
{
    if vals.len() == 0 {
        0
    } else {
        reg_max(max_entry_rank(vals.drop_last(), p, i), entry_rank_at(vals.last(), p, i))
    }
}

/// Largest contribution of any hash of `hs` to the register at `i`.
pub open spec fn max_hash_rank(hs: Seq<u64>, p: u8, i: int) -> u8
    decreases hs.len(),
{
    if hs.len() == 0 {
        0
    } else {
        reg_max(max_hash_rank(hs.drop_last(), p, i), hash_rank_at(hs.last(), p, i))
    }
}

/// A decoded index always addresses a register of the configured array.
proof fn lemma_decode_index_range(e: u32, p: u8)
    requires
        4 <= p <= 18,
    ensures
        0 <= spec_decode_index(e, p) < (1usize << (p as usize)),
{
    assert(4 <= p <= 18 ==> (e >> ((7 + 25 - p) as u32)) < ((1usize << (p as usize)) as u32))
        by (bit_vector);
}

/// A hash index always addresses a register of the configured array.
proof fn lemma_hash_index_range(h: u64, p: u8)
    requires
        4 <= p <= 18,
    ensures
        0 <= spec_hash_index(h, p as u64) < (1usize << (p as usize)),
{
    assert(4 <= p <= 18 ==> (h >> (64 - p as u64) as u64) < ((1usize << (p as usize)) as u64))
        by (bit_vector);
}

/// Folding entries over a register array is, pointwise, a max with the
/// largest contribution.
proof fn lemma_apply_entries_pointwise(regs: Seq<u8>, p: u8, vals: Seq<u32>, i: int)
    requires
        4 <= p <= 18,
        regs.len() == (1usize << (p as usize)),
        0 <= i < regs.len(),
    ensures
        spec_apply_entries(regs, p, vals).len() == regs.len(),
        spec_apply_entries(regs, p, vals)[i] == reg_max(regs[i], max_entry_rank(vals, p, i)),
    decreases vals.len(),
{
    if vals.len() > 0 {
        lemma_apply_entries_pointwise(regs, p, vals.drop_last(), i);
        lemma_decode_index_range(vals.last(), p);
        if i != spec_decode_index(vals.last(), p) as int {
            lemma_apply_entries_pointwise(regs, p, vals.drop_last(), i);
        }
    }
}

/// Folding hashes over a register array is, pointwise, a max with the
/// largest contribution.
proof fn lemma_insert_seq_pointwise(regs: Seq<u8>, p: u8, hs: Seq<u64>, i: int)
    requires
        4 <= p <= 18,
        regs.len() == (1usize << (p as usize)),
        0 <= i < regs.len(),
    ensures
        spec_insert_seq(regs, p as u64, hs).len() == regs.len(),
        spec_insert_seq(regs, p as u64, hs)[i] == reg_max(regs[i], max_hash_rank(hs, p, i)),
    decreases hs.len(),
{
    if hs.len() > 0 {
        lemma_insert_seq_pointwise(regs, p, hs.drop_last(), i);
        lemma_hash_index_range(hs.last(), p);
    }
}

/// Every entry's contribution is bounded by the maximum.
proof fn lemma_max_entry_rank_ge(vals: Seq<u32>, p: u8, i: int, k: int)
    requires
        0 <= k < vals.len(),
    ensures
        entry_rank_at(vals[k], p, i) <= max_entry_rank(vals, p, i),
    decreases vals.len(),
{
    if k < vals.len() - 1 {
        assert(vals.drop_last()[k] == vals[k]);
        lemma_max_entry_rank_ge(vals.drop_last(), p, i, k);
    }
}

/// A positive maximum is attained by some entry.
proof fn lemma_max_entry_rank_attained(vals: Seq<u32>, p: u8, i: int)
    requires
        max_entry_rank(vals, p, i) > 0,
    ensures
        exists|k: int|
            0 <= k < vals.len() && entry_rank_at(#[trigger] vals[k], p, i) == max_entry_rank(
                vals,
                p,
                i,
            ),
    decreases vals.len(),
{
    if vals.len() > 0 {
        if entry_rank_at(vals.last(), p, i) == max_entry_rank(vals, p, i) {
            assert(vals[vals.len() - 1] == vals.last());
        } else {
            lemma_max_entry_rank_attained(vals.drop_last(), p, i);
            let k = choose|k: int|
                0 <= k < vals.drop_last().len() && entry_rank_at(
                    #[trigger] vals.drop_last()[k],
                    p,
                    i,
                ) == max_entry_rank(vals.drop_last(), p, i);
            assert(vals[k] == vals.drop_last()[k]);
        }
    }
}

/// Every hash's contribution is bounded by the maximum.
proof fn lemma_max_hash_rank_ge(hs: Seq<u64>, p: u8, i: int, k: int)
    requires
        0 <= k < hs.len(),
    ensures
        hash_rank_at(hs[k], p, i) <= max_hash_rank(hs, p, i),
    decreases hs.len(),
{
    if k < hs.len() - 1 {
        assert(hs.drop_last()[k] == hs[k]);
        lemma_max_hash_rank_ge(hs.drop_last(), p, i, k);
    }
}

/// A positive maximum is attained by some hash.
proof fn lemma_max_hash_rank_attained(hs: Seq<u64>, p: u8, i: int)
    requires
        max_hash_rank(hs, p, i) > 0,
    ensures
        exists|k: int|
            0 <= k < hs.len() && hash_rank_at(#[trigger] hs[k], p, i) == max_hash_rank(
                hs,
                p,
                i,
            ),
    decreases hs.len(),
{
    if hs.len() > 0 {
        if hash_rank_at(hs.last(), p, i) == max_hash_rank(hs, p, i) {
            assert(hs[hs.len() - 1] == hs.last());
        } else {
            lemma_max_hash_rank_attained(hs.drop_last(), p, i);
            let k = choose|k: int|
                0 <= k < hs.drop_last().len() && hash_rank_at(
                    #[trigger] hs.drop_last()[k],
                    p,
                    i,
                ) == max_hash_rank(hs.drop_last(), p, i);
            assert(hs[k] == hs.drop_last()[k]);
        }
    }
}

/// Encoding then contributing equals contributing directly, for hashes
/// with fewer than 32 trailing zeros.
proof fn lemma_contribution_exact(h: u64, p: u8, i: int)
    requires
        4 <= p <= 18,
        u64_trailing_zeros(h) < 32,
    ensures
        entry_rank_at(spec_encode_hash(h), p, i) == hash_rank_at(h, p, i),
{
    broadcast use vstd::std_specs::bits::axiom_u64_trailing_zeros;

    lemma_hash_codec_exact(h, p);
    lemma_hash_index_range(h, p);
    assert(((64 - p) as u64) == (64 - p as u64) as u64);
    assert(spec_decode_index(spec_encode_hash(h), p) == #[verifier::truncate] ((h >> ((64
        - p) as u64)) as u32));
    assert(spec_hash_index(h, p as u64) == h >> (64 - p as u64) as u64);
    assert(spec_hash_index(h, p as u64) < (1usize << (p as usize)));
    assert(4 <= p <= 18 ==> ((1usize << (p as usize)) as u64) <= 0x40000u64) by (bit_vector);
    assert((#[verifier::truncate] ((h >> ((64 - p) as u64)) as u32)) as int == (h >> (64
        - p as u64) as u64) as int);
    assert(spec_decode_rank(spec_encode_hash(h)) == 1 + u64_trailing_zeros(h));
    assert(spec_hash_rank(h) == (1 + u64_trailing_zeros(h)) as u8);
}

/// Law: sparse-to-dense promotion preserves the exact effect.  If a
/// strictly ascending entry sequence holds exactly the encodings of a
/// hash sequence — every hash with fewer than 32 trailing zeros — then
/// folding the decoded entries over fresh registers yields precisely the
/// register array of a dense estimator fed those hashes directly, in any
/// order and with any duplication.
pub proof fn lemma_promotion_exact(p: u8, hs: Seq<u64>, vals: Seq<u32>)
    requires
        4 <= p <= 18,
        forall|k: int| 0 <= k < hs.len() ==> u64_trailing_zeros(#[trigger] hs[k]) < 32,
        entry_set(vals) == encodings_of(hs),
    ensures
        spec_apply_entries(zero_regs(p), p, vals) == spec_insert_seq(zero_regs(p), p as u64, hs),
{
    let regs = zero_regs(p);
    assert(regs.len() == (1usize << (p as usize)));
    assert(4 <= p <= 18 ==> (1usize << (p as usize)) >= 16usize) by (bit_vector);
    assert forall|i: int| 0 <= i < regs.len() implies spec_apply_entries(regs, p, vals)[i]
        == spec_insert_seq(regs, p as u64, hs)[i] by {
        lemma_apply_entries_pointwise(regs, p, vals, i);
        lemma_insert_seq_pointwise(regs, p, hs, i);
        let me = max_entry_rank(vals, p, i);
        let mh = max_hash_rank(hs, p, i);
        if me > 0 {
            lemma_max_entry_rank_attained(vals, p, i);
            let k = choose|k: int|
                0 <= k < vals.len() && entry_rank_at(#[trigger] vals[k], p, i) == me;
            let e = vals[k];
            assert(vals.contains(e));
            assert(entry_set(vals).contains(e));
            assert(encodings_of(hs).contains(e));
            let w = choose|w: int| 0 <= w < hs.len() && spec_encode_hash(hs[w]) == e;
            lemma_contribution_exact(hs[w], p, i);
            lemma_max_hash_rank_ge(hs, p, i, w);
            assert(me <= mh);
        }
        if mh > 0 {
            lemma_max_hash_rank_attained(hs, p, i);
            let w = choose|w: int|
                0 <= w < hs.len() && hash_rank_at(#[trigger] hs[w], p, i) == mh;
            lemma_contribution_exact(hs[w], p, i);
            let e = spec_encode_hash(hs[w]);
            assert(encodings_of(hs).contains(e));
            assert(entry_set(vals).contains(e));
            assert(vals.contains(e));
            let k = choose|k: int| 0 <= k < vals.len() && vals[k] == e;
            lemma_max_entry_rank_ge(vals, p, i, k);
            assert(mh <= me);
        }
        assert(me == mh);
    }
    lemma_apply_entries_pointwise(regs, p, vals, 0);
    lemma_insert_seq_pointwise(regs, p, hs, 0);
    assert(spec_apply_entries(regs, p, vals) =~= spec_insert_seq(regs, p as u64, hs));
}

} // verus!
