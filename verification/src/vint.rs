//! Self-describing variable-length encoding of 32-bit values.
//!
//! A value is stored in one to five bytes: the payload is shifted left by
//! the group count and a single terminator bit marks that count in unary,
//! so a decoder finds the length from the trailing zeros of the word it
//! reads.  The encoder always writes a full 64-bit word (the buffer keeps
//! scratch room past the logical end); only the low `size` bytes are
//! meaningful, and decoding provably ignores whatever later writes leave
//! in the scratch bytes.

use vstd::prelude::*;
use vstd::std_specs::bits::u64_trailing_zeros;
use crate::buf::{le64_at, le_byte, Buf};

verus! {

/// Number of bytes the codec uses for `v`: one per started 7-bit group.
pub open spec fn spec_varint_size(v: u32) -> u64 {
    if v < 0x80 {
        1
    } else if v < 0x4000 {
        2
    } else if v < 0x20_0000 {
        3
    } else if v < 0x1000_0000 {
        4
    } else {
        5
    }
}

/// The encoded word: the payload shifted left by the size, with one
/// terminator bit marking the size in unary.
pub open spec fn spec_varint_word(v: u32) -> u64 {
    ((v as u64) << spec_varint_size(v)) | (1u64 << ((spec_varint_size(v) - 1) as u64))
}

/// Mask of the low `n` bytes of a 64-bit word.
pub open spec fn mask_bytes(n: u64) -> u64 {
    if n >= 8 {
        0xFFFF_FFFF_FFFF_FFFFu64
    } else {
        ((1u64 << ((8 * n) as u64)) - 1) as u64
    }
}

/// How many bytes a decoder consumes from word `x`.
pub open spec fn spec_varint_decode_size(x: u64) -> u64 {
    (u64_trailing_zeros(x) + 1) as u64
}

/// The value a decoder recovers from word `x`.
pub open spec fn spec_varint_decode(x: u64) -> u64 {
    (x & mask_bytes(spec_varint_decode_size(x))) >> spec_varint_decode_size(x)
}

/// Law: the codec round-trips every 32-bit value, zero and `u32::MAX`
/// included.  Any word whose low `spec_varint_size(v)` bytes hold the
/// encoding of `v` decodes to exactly `v` and consumes exactly that many
/// bytes, whatever the higher scratch bytes hold.
pub proof fn lemma_varint_roundtrip(v: u32, x: u64)
    requires
        x & mask_bytes(spec_varint_size(v)) == spec_varint_word(v) & mask_bytes(
            spec_varint_size(v),
        ),
    ensures
        spec_varint_decode_size(x) == spec_varint_size(v),
        spec_varint_decode(x) == v as u64,
        x & 0x1F != 0,
{
    broadcast use vstd::std_specs::bits::axiom_u64_trailing_zeros;

    let s = spec_varint_size(v);
    assert((x >> ((s - 1) as u64)) & 1u64 == 1u64 && x & (((1u64 << ((s - 1) as u64)) - 1) as u64) == 0
        && x & 0x1F != 0) by (bit_vector)
        requires
            x & mask_bytes(s) == spec_varint_word(v) & mask_bytes(s),
            s == spec_varint_size(v),
    ;
    let t = u64_trailing_zeros(x);
    assert(x != 0) by (bit_vector)
        requires
            x & 0x1F != 0,
    ;
    if (t as u64) < (s - 1) as u64 {
        assert((x >> (t as u64)) & 1u64 == 0u64) by (bit_vector)
            requires
                x & (((1u64 << ((s - 1) as u64)) - 1) as u64) == 0,
                (t as u64) < (s - 1) as u64,
                s == spec_varint_size(v),
        ;
        assert(false);
    }
    if (t as u64) > (s - 1) as u64 {
        assert((x >> ((s - 1) as u64)) & 1u64 == 0u64);
        assert(false);
    }
    assert(t as u64 == (s - 1) as u64);
    assert((x & mask_bytes(s)) >> s == v as u64) by (bit_vector)
        requires
            x & mask_bytes(s) == spec_varint_word(v) & mask_bytes(s),
            s == spec_varint_size(v),
    ;
}

/// A masked word is determined by its low `n` bytes: two words that agree
/// on those bytes agree after masking, wherever they sit.
pub proof fn lemma_le64_masked_frame(b1: Seq<u8>, b2: Seq<u8>, o1: int, o2: int, n: u64)
    requires
        1 <= n <= 8,
        0 <= o1,
        o1 + 8 <= b1.len(),
        0 <= o2,
        o2 + 8 <= b2.len(),
        forall|j: int| 0 <= j < n ==> #[trigger] b1[o1 + j] == b2[o2 + j],
    ensures
        le64_at(b1, o1) & mask_bytes(n) == le64_at(b2, o2) & mask_bytes(n),
{
    reveal(le64_at);
    let x0 = b1[o1];
    let x1 = b1[o1 + 1];
    let x2 = b1[o1 + 2];
    let x3 = b1[o1 + 3];
    let x4 = b1[o1 + 4];
    let x5 = b1[o1 + 5];
    let x6 = b1[o1 + 6];
    let x7 = b1[o1 + 7];
    let y0 = b2[o2];
    let y1 = b2[o2 + 1];
    let y2 = b2[o2 + 2];
    let y3 = b2[o2 + 3];
    let y4 = b2[o2 + 4];
    let y5 = b2[o2 + 5];
    let y6 = b2[o2 + 6];
    let y7 = b2[o2 + 7];
    if n >= 1 {
        assert(b1[o1 + 0] == b2[o2 + 0]);
    }
    if n >= 2 {
        assert(b1[o1 + 1] == b2[o2 + 1]);
    }
    if n >= 3 {
        assert(b1[o1 + 2] == b2[o2 + 2]);
    }
    if n >= 4 {
        assert(b1[o1 + 3] == b2[o2 + 3]);
    }
    if n >= 5 {
        assert(b1[o1 + 4] == b2[o2 + 4]);
    }
    if n >= 6 {
        assert(b1[o1 + 5] == b2[o2 + 5]);
    }
    if n >= 7 {
        assert(b1[o1 + 6] == b2[o2 + 6]);
    }
    if n >= 8 {
        assert(b1[o1 + 7] == b2[o2 + 7]);
    }
    assert(((x0 as u64) | ((x1 as u64) << 8u64) | ((x2 as u64) << 16u64) | ((x3 as u64)
        << 24u64) | ((x4 as u64) << 32u64) | ((x5 as u64) << 40u64) | ((x6 as u64) << 48u64) | (
    (x7 as u64) << 56u64)) & mask_bytes(n) == ((y0 as u64) | ((y1 as u64) << 8u64) | ((
    y2 as u64) << 16u64) | ((y3 as u64) << 24u64) | ((y4 as u64) << 32u64) | ((y5 as u64)
        << 40u64) | ((y6 as u64) << 48u64) | ((y7 as u64) << 56u64)) & mask_bytes(n))
        by (bit_vector)
        requires
            1 <= n <= 8,
            (n >= 1 ==> x0 == y0),
            (n >= 2 ==> x1 == y1),
            (n >= 3 ==> x2 == y2),
            (n >= 4 ==> x3 == y3),
            (n >= 5 ==> x4 == y4),
            (n >= 6 ==> x5 == y5),
            (n >= 7 ==> x6 == y6),
            (n >= 8 ==> x7 == y7),
    ;
}

/// The variable-length integer codec.
pub struct VarInt;

impl VarInt {
    /// Appends the encoding of `val` to `buf`.
    pub fn write(buf: &mut Buf, val: u32)
        requires
            old(buf).wf(),
            old(buf).wlen() + 8 <= old(buf).cap_limit(),
        ensures
            final(buf).wf(),
            final(buf).cap_limit() == old(buf).cap_limit(),
            final(buf).wlen() == old(buf).wlen() + spec_varint_size(val),
            final(buf).bytes().len() >= old(buf).wlen() + 8,
            final(buf).bytes().len() >= old(buf).bytes().len(),
            forall|j: int|
                0 <= j < old(buf).wlen() ==> final(buf).bytes()[j] == old(buf).bytes()[j],
            le64_at(final(buf).bytes(), old(buf).wlen() as int) == spec_varint_word(val),
    {
        let x = val as u64;
        let size: usize = if val < 0x80 {
            1
        } else if val < 0x4000 {
            2
        } else if val < 0x20_0000 {
            3
        } else if val < 0x1000_0000 {
            4
        } else {
            5
        };
        let res = (x << (size as u64)) | (1u64 << ((size - 1) as u64));
        buf.push(res, size);
        proof {
            reveal(le64_at);
            let l = old(buf).wlen() as int;
            let bs = buf.bytes();
            let b0 = bs[l];
            let b1 = bs[l + 1];
            let b2 = bs[l + 2];
            let b3 = bs[l + 3];
            let b4 = bs[l + 4];
            let b5 = bs[l + 5];
            let b6 = bs[l + 6];
            let b7 = bs[l + 7];
            assert(le64_at(bs, l) == (b0 as u64) | ((b1 as u64) << 8u64) | ((b2 as u64)
                << 16u64) | ((b3 as u64) << 24u64) | ((b4 as u64) << 32u64) | ((b5 as u64)
                << 40u64) | ((b6 as u64) << 48u64) | ((b7 as u64) << 56u64));
            assert(b0 == le_byte(res, 0) && b1 == le_byte(res, 1) && b2 == le_byte(res, 2)
                && b3 == le_byte(res, 3) && b4 == le_byte(res, 4) && b5 == le_byte(res, 5)
                && b6 == le_byte(res, 6) && b7 == le_byte(res, 7));
            assert((b0 as u64) | ((b1 as u64) << 8u64) | ((b2 as u64) << 16u64) | ((
            b3 as u64) << 24u64) | ((b4 as u64) << 32u64) | ((b5 as u64) << 40u64) | ((
            b6 as u64) << 48u64) | ((b7 as u64) << 56u64) == res) by (bit_vector)
                requires
                    b0 == (res >> 0u64) as u8,
                    b1 == (res >> 8u64) as u8,
                    b2 == (res >> 16u64) as u8,
                    b3 == (res >> 24u64) as u8,
                    b4 == (res >> 32u64) as u8,
                    b5 == (res >> 40u64) as u8,
                    b6 == (res >> 48u64) as u8,
                    b7 == (res >> 56u64) as u8,
            ;
        }
    }

    /// Reads one encoded value at byte offset `index`; returns the value
    /// (truncated to 32 bits) and the offset just past it.
    pub fn read(buf: &Buf, index: usize) -> (r: (u32, usize))
        requires
            index + 8 <= buf.bytes().len(),
            le64_at(buf.bytes(), index as int) & 0x1F != 0,
        ensures
            r.0 == #[verifier::truncate] (spec_varint_decode(le64_at(buf.bytes(), index as int)) as u32),
            r.1 == index + spec_varint_decode_size(le64_at(buf.bytes(), index as int)),
    {
        let storage = buf.storage_len();
        let x = buf.read_u64(index);
        let tz = x.trailing_zeros();
        proof {
            broadcast use vstd::std_specs::bits::axiom_u64_trailing_zeros;

            if tz >= 5 {
                assert((x >> 0u64) & 1u64 == 0u64 && (x >> 1u64) & 1u64 == 0u64 && (x
                    >> 2u64) & 1u64 == 0u64 && (x >> 3u64) & 1u64 == 0u64 && (x >> 4u64) & 1u64
                    == 0u64);
                assert(x & 0x1F == 0) by (bit_vector)
                    requires
                        (x >> 0u64) & 1u64 == 0u64,
                        (x >> 1u64) & 1u64 == 0u64,
                        (x >> 2u64) & 1u64 == 0u64,
                        (x >> 3u64) & 1u64 == 0u64,
                        (x >> 4u64) & 1u64 == 0u64,
                ;
                assert(false);
            }
        }
        let size = (tz + 1) as usize;
        let shift: u64 = ((8 - size) as u64) * 8;
        let mask = u64::MAX >> shift;
        proof {
            assert(u64::MAX >> (((8 - (tz + 1)) as u64) * 8) == mask_bytes((tz + 1) as u64))
                by (bit_vector)
                requires
                    tz <= 4,
            ;
        }
        let res = (x & mask) >> (size as u64);
        ((#[verifier::truncate] (res as u32)), index + size)
    }
}

} // verus!
