//! The 32-byte keyed-hash digest.

use vstd::prelude::*;

use crate::buffer::{Reader, Writer};
use crate::error::Error;
use crate::serial::Serializable;
use crate::util;

verus! {

pub const DIGEST_SIZE: usize = 32;

/// A public 32-byte value.
#[derive(Clone, Debug)]
pub struct Digest {
    pub bytes: Vec<u8>,
}

impl DeepView for Digest {
    type V = Seq<u8>;

    open spec fn deep_view(&self) -> Seq<u8> {
        self.bytes@
    }
}

impl Digest {
    /// Exactly 32 bytes.
    pub open spec fn wf(&self) -> bool {
        self.bytes@.len() == 32
    }

    /// Wraps an exact-length byte vector.
    pub fn from_exact(raw: Vec<u8>) -> (r: Self)
        requires
            raw@.len() == 32,
        ensures
            r.wf(),
            r.deep_view() == raw@,
    {
        Digest { bytes: raw }
    }

    /// The all-zero value.
    pub fn zero() -> (r: Self)
        ensures
            r.wf(),
            r.deep_view() == Seq::new(32, |i: int| 0u8),
    {
        let mut raw: Vec<u8> = Vec::new();
        let mut i: usize = 0;
        while i < 32
            invariant
                i <= 32,
                raw@ == Seq::new(i as nat, |j: int| 0u8),
            decreases 32 - i,
        {
            raw.push(0u8);
            i = i + 1;
            proof {
                assert(raw@ =~= Seq::new(i as nat, |j: int| 0u8));
            }
        }
        Digest { bytes: raw }
    }

    /// An independent copy holding the same bytes.
    pub fn duplicate(&self) -> (r: Self)
        ensures
            r.deep_view() == self.deep_view(),
            r.wf() == self.wf(),
    {
        Digest { bytes: util::copy_bytes(&self.bytes) }
    }

    /// Borrows the raw bytes.
    pub fn as_exact(&self) -> (r: &Vec<u8>)
        ensures
            r@ == self.deep_view(),
    {
        &self.bytes
    }

    /// Unwraps into the raw byte vector.
    pub fn into_exact(self) -> (r: Vec<u8>)
        ensures
            r@ == self.deep_view(),
    {
        self.bytes
    }

    /// Overwrites every byte with zero.
    pub fn zeroize(&mut self)
        ensures
            final(self).deep_view() == Seq::new(old(self).deep_view().len(), |i: int| 0u8),
    {
        let n = self.bytes.len();
        let mut i: usize = 0;
        while i < n
            invariant
                i <= n,
                n == self.bytes@.len(),
                forall|j: int| 0 <= j < i ==> self.bytes@[j] == 0u8,
            decreases n - i,
        {
            self.bytes.set(i, 0u8);
            i = i + 1;
        }
        proof {
            assert(final(self).deep_view() =~= Seq::new(old(self).deep_view().len(), |i: int| 0u8));
        }
    }
}

impl Serializable for Digest {
    open spec fn encodable(m: Seq<u8>) -> bool {
        m.len() == 32
    }

    open spec fn encode(m: Seq<u8>) -> Seq<u8> {
        m
    }

    open spec fn decode(input: Seq<u8>) -> Option<(Seq<u8>, int)> {
        if input.len() >= 32 {
            Some((input.take(32), 32))
        } else {
            None
        }
    }

    open spec fn scan(input: Seq<u8>) -> Option<int> {
        if input.len() >= 32 {
            Some(32)
        } else {
            None
        }
    }

    proof fn lemma_encode_decode(m: Seq<u8>, rest: Seq<u8>) {
        assert((m + rest).take(32) =~= m);
    }

    proof fn lemma_decode_sound(input: Seq<u8>) {
    }

    proof fn lemma_scan_sound(input: Seq<u8>) {
    }

    fn wire_size(&self) -> (n: usize) {
        32
    }

    fn wire_write(&self, out: &mut Writer) {
        util::fixed_write(out, &self.bytes);
    }

    fn wire_read(input: &mut Reader) -> (r: Result<Self, Error>) {
        match util::fixed_read(input, 32) {
            Ok(raw) => Ok(Digest { bytes: raw }),
            Err(e) => Err(e),
        }
    }

    fn wire_skip(input: &mut Reader) -> (r: Result<(), Error>) {
        util::fixed_skip(input, 32)
    }
}

impl PartialEq for Digest {
    /// Constant-time comparison of the underlying bytes.
    fn eq(&self, other: &Self) -> (r: bool) {
        util::eq(&self.bytes, &other.bytes)
    }
}

impl vstd::std_specs::cmp::PartialEqSpecImpl for Digest {
    open spec fn obeys_eq_spec() -> bool {
        true
    }

    open spec fn eq_spec(&self, other: &Digest) -> bool {
        self.bytes@ == other.bytes@
    }
}


/// What keyed BLAKE2s-256 returns: a pure function of key and data.
pub uninterp spec fn blake2s_keyed(key: Seq<u8>, data: Seq<u8>) -> Seq<u8>;

impl Digest {
    /// Relies on `blake2s_simd::Params::hash`: the keyed BLAKE2s-256 digest is
    /// a function of the key and the data alone, and is exactly 32 bytes.
    /// The key must be at most 32 bytes; the 16-byte type UUID always is.
    #[verifier::external_body]
    pub fn compute(key: &crate::uuid::UUID, data: &Vec<u8>) -> (r: Digest)
        requires
            key.wf(),
        ensures
            r.wf(),
            r.deep_view() == blake2s_keyed(key.deep_view(), data@),
    {
        let hash = blake2s_simd::Params::new().key(key.as_exact().as_slice()).hash(data.as_slice());
        Digest { bytes: hash.as_array().to_vec() }
    }
}


impl crate::printable::Printable for Digest {
    open spec fn print_spec(&self) -> Seq<u8> {
        crate::printable::public_bytes_text(self.deep_view())
    }

    fn print(&self, out: &mut Vec<u8>) {
        crate::printable::print_public_bytes(out, &self.bytes);
    }
}

} // verus!
