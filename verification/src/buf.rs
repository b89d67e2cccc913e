//! Append-only byte storage with a bounded maximum capacity.
//!
//! `push` always writes a full little-endian 64-bit word at the logical
//! write position but advances it by only `num` bytes, so encoders can
//! spill scratch bytes past the logical end; at least 8 bytes of storage
//! are kept available past every recorded position so that readers can
//! always fetch a whole word.

use vstd::prelude::*;

verus! {

/// Little-endian byte `k` of a 64-bit word.
pub open spec fn le_byte(x: u64, k: int) -> u8 {
    (x >> ((8 * k) as u64)) as u8
}

/// The 64-bit word formed from eight consecutive bytes, little-endian.
#[verifier::opaque]
pub open spec fn le64_at(bytes: Seq<u8>, off: int) -> u64
    recommends
        0 <= off,
        off + 8 <= bytes.len(),
{
    (bytes[off] as u64) | ((bytes[off + 1] as u64) << 8u64) | ((bytes[off + 2] as u64) << 16u64)
        | ((bytes[off + 3] as u64) << 24u64) | ((bytes[off + 4] as u64) << 32u64) | ((bytes[off
        + 5] as u64) << 40u64) | ((bytes[off + 6] as u64) << 48u64) | ((bytes[off + 7] as u64)
        << 56u64)
}

/// Growable byte buffer with a logical length and a hard capacity bound.
#[derive(Debug)]
pub struct Buf {
    data: Vec<u8>,
    len: usize,
    max_len: usize,
}

impl Buf {
    /// The stored bytes, including scratch past the logical length.
    pub closed spec fn bytes(&self) -> Seq<u8> {
        self.data@
    }

    /// The logical write position.
    pub closed spec fn wlen(&self) -> usize {
        self.len
    }

    /// The hard bound on the logical length.
    pub closed spec fn cap_limit(&self) -> usize {
        self.max_len
    }

    /// Well-formed: the logical length never passes the storage.
    pub closed spec fn wf(&self) -> bool {
        self.len <= self.data@.len()
    }

    /// Returns an empty buffer with `cap` bytes pre-allocated and a hard
    /// length bound of `max_len`.
    pub fn new(cap: usize, max_len: usize) -> (r: Self)
        ensures
            r.wf(),
            r.wlen() == 0,
            r.cap_limit() == max_len,
            r.bytes().len() == cap,
    {
        let mut data: Vec<u8> = Vec::new();
        let mut i: usize = 0;
        while i < cap
            invariant
                i <= cap,
                data@.len() == i,
            decreases cap - i,
        {
            data.push(0);
            i = i + 1;
        }
        Buf { data, len: 0, max_len }
    }

    /// The logical length in bytes.
    pub fn len(&self) -> (r: usize)
        ensures
            r == self.wlen(),
    {
        self.len
    }

    /// Grows the storage to at least `target` bytes.
    fn resize(&mut self, target: usize)
        requires
            old(self).wf(),
        ensures
            final(self).wf(),
            final(self).wlen() == old(self).wlen(),
            final(self).cap_limit() == old(self).cap_limit(),
            final(self).bytes().len() >= target,
            final(self).bytes().len() >= old(self).bytes().len(),
            forall|j: int|
                0 <= j < old(self).bytes().len() ==> final(self).bytes()[j] == old(
                    self,
                ).bytes()[j],
    {
        while self.data.len() < target
            invariant
                self.len == old(self).len,
                self.max_len == old(self).max_len,
                self.data@.len() >= old(self).data@.len(),
                forall|j: int|
                    0 <= j < old(self).data@.len() ==> self.data@[j] == old(self).data@[j],
            decreases target - self.data@.len(),
        {
            self.data.push(0);
        }
    }

    /// Writes the whole word `x` at the logical position, advancing it by
    /// `num` bytes.  The capacity bound must leave room for the full
    /// word.
    pub fn push(&mut self, x: u64, num: usize)
        requires
            old(self).wf(),
            num <= 8,
            old(self).wlen() + 8 <= old(self).cap_limit(),
        ensures
            final(self).wf(),
            final(self).cap_limit() == old(self).cap_limit(),
            final(self).wlen() == old(self).wlen() + num,
            final(self).bytes().len() >= old(self).wlen() + 8,
            final(self).bytes().len() >= old(self).bytes().len(),
            forall|j: int|
                0 <= j < old(self).wlen() ==> final(self).bytes()[j] == old(self).bytes()[j],
            forall|k: int|
                0 <= k < 8 ==> final(self).bytes()[old(self).wlen() + k] == le_byte(x, k),
    {
        let l = self.len;
        if l + 8 > self.data.len() {
            self.resize(l + 8);
        }
        self.data.set(l, #[verifier::truncate] (x as u8));
        self.data.set(l + 1, #[verifier::truncate] ((x >> 8u64) as u8));
        self.data.set(l + 2, #[verifier::truncate] ((x >> 16u64) as u8));
        self.data.set(l + 3, #[verifier::truncate] ((x >> 24u64) as u8));
        self.data.set(l + 4, #[verifier::truncate] ((x >> 32u64) as u8));
        self.data.set(l + 5, #[verifier::truncate] ((x >> 40u64) as u8));
        self.data.set(l + 6, #[verifier::truncate] ((x >> 48u64) as u8));
        self.data.set(l + 7, #[verifier::truncate] ((x >> 56u64) as u8));
        self.len = l + num;
        proof {
            assert(le_byte(x, 0) == (x >> 0u64) as u8);
            assert(x >> 0u64 == x) by (bit_vector);
        }
    }

    /// The allocated storage length in bytes.
    pub(crate) fn storage_len(&self) -> (r: usize)
        ensures
            r == self.bytes().len(),
    {
        self.data.len()
    }

    /// Reads the little-endian 64-bit word at byte offset `i`.
    pub fn read_u64(&self, i: usize) -> (r: u64)
        requires
            i + 8 <= self.bytes().len(),
        ensures
            r == le64_at(self.bytes(), i as int),
    {
        proof {
            reveal(le64_at);
        }
        let n = self.data.len();
        (self.data[i] as u64) | ((self.data[i + 1] as u64) << 8u64) | ((self.data[i + 2] as u64)
            << 16u64) | ((self.data[i + 3] as u64) << 24u64) | ((self.data[i + 4] as u64)
            << 32u64) | ((self.data[i + 5] as u64) << 40u64) | ((self.data[i + 6] as u64)
            << 48u64) | ((self.data[i + 7] as u64) << 56u64)
    }

    /// Drops scratch storage beyond seven bytes past the logical length;
    /// every byte a reader can need stays in place.
    pub fn shrink_to_fit(&mut self)
        requires
            old(self).wf(),
            old(self).wlen() <= usize::MAX - 7,
        ensures
            final(self).wf(),
            final(self).cap_limit() == old(self).cap_limit(),
            final(self).wlen() == old(self).wlen(),
            final(self).bytes().len() == (if old(self).bytes().len() >= old(self).wlen() + 7 {
                (old(self).wlen() + 7) as int
            } else {
                old(self).bytes().len() as int
            }),
            forall|j: int|
                0 <= j < final(self).bytes().len() ==> final(self).bytes()[j] == old(
                    self,
                ).bytes()[j],
    {
        let target = self.len + 7;
        self.data.truncate(target);
    }
}

} // verus!
