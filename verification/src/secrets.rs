//! The 32-byte shared secret that key agreement produces and every other
//! secret type can be built from.

use vstd::prelude::*;

use crate::buffer::{Reader, Writer};
use crate::error::Error;
use crate::serial::Serializable;
use crate::util;

verus! {

pub const SHARED_SECRET_SIZE: usize = 32;

/// A secret 32-byte value; zero it when it is no longer needed.
#[derive(Clone, Debug)]
pub struct SharedSecret {
    pub bytes: Vec<u8>,
}

impl DeepView for SharedSecret {
    type V = Seq<u8>;

    open spec fn deep_view(&self) -> Seq<u8> {
        self.bytes@
    }
}

impl SharedSecret {
    /// Exactly 32 bytes.
    pub open spec fn wf(&self) -> bool {
        self.bytes@.len() == 32
    }

    /// Wraps an exact-length byte vector.
    pub fn from_exact(raw: Vec<u8>) -> (r: Self)
        requires
            raw@.len() == 32,
        ensures
            r.wf(),
            r.deep_view() == raw@,
    {
        SharedSecret { bytes: raw }
    }

    /// The all-zero value.
    pub fn zero() -> (r: Self)
        ensures
            r.wf(),
            r.deep_view() == Seq::new(32, |i: int| 0u8),
    {
        let mut raw: Vec<u8> = Vec::new();
        let mut i: usize = 0;
        while i < 32
            invariant
                i <= 32,
                raw@ == Seq::new(i as nat, |j: int| 0u8),
            decreases 32 - i,
        {
            raw.push(0u8);
            i = i + 1;
            proof {
                assert(raw@ =~= Seq::new(i as nat, |j: int| 0u8));
            }
        }
        SharedSecret { bytes: raw }
    }

    /// An independent copy holding the same bytes.
    pub fn duplicate(&self) -> (r: Self)
        ensures
            r.deep_view() == self.deep_view(),
            r.wf() == self.wf(),
    {
        SharedSecret { bytes: util::copy_bytes(&self.bytes) }
    }

    /// Grants read access to the secret bytes.
    pub fn expose(&self) -> (r: &Vec<u8>)
        ensures
            r@ == self.deep_view(),
    {
        &self.bytes
    }

    /// Unwraps into the raw byte vector, leaving zeroed bytes behind for the
    /// destructor.
    pub fn into_exact(self) -> (r: Vec<u8>)
        ensures
            r@ == self.deep_view(),
    {
        let mut this = self;
        let mut taken: Vec<u8> = Vec::new();
        core::mem::swap(&mut taken, &mut this.bytes);
        taken
    }

    /// Overwrites every byte with zero.
    pub fn zeroize(&mut self)
        ensures
            final(self).deep_view() == Seq::new(old(self).deep_view().len(), |i: int| 0u8),
    {
        let n = self.bytes.len();
        let mut i: usize = 0;
        while i < n
            invariant
                i <= n,
                n == self.bytes@.len(),
                forall|j: int| 0 <= j < i ==> self.bytes@[j] == 0u8,
            decreases n - i,
        {
            self.bytes.set(i, 0u8);
            i = i + 1;
        }
        proof {
            assert(final(self).deep_view() =~= Seq::new(old(self).deep_view().len(), |i: int| 0u8));
        }
    }
}

impl Serializable for SharedSecret {
    open spec fn encodable(m: Seq<u8>) -> bool {
        m.len() == 32
    }

    open spec fn encode(m: Seq<u8>) -> Seq<u8> {
        m
    }

    open spec fn decode(input: Seq<u8>) -> Option<(Seq<u8>, int)> {
        if input.len() >= 32 {
            Some((input.take(32), 32))
        } else {
            None
        }
    }

    open spec fn scan(input: Seq<u8>) -> Option<int> {
        if input.len() >= 32 {
            Some(32)
        } else {
            None
        }
    }

    proof fn lemma_encode_decode(m: Seq<u8>, rest: Seq<u8>) {
        assert((m + rest).take(32) =~= m);
    }

    proof fn lemma_decode_sound(input: Seq<u8>) {
    }

    proof fn lemma_scan_sound(input: Seq<u8>) {
    }

    fn wire_size(&self) -> (n: usize) {
        32
    }

    fn wire_write(&self, out: &mut Writer) {
        util::fixed_write(out, &self.bytes);
    }

    fn wire_read(input: &mut Reader) -> (r: Result<Self, Error>) {
        match util::fixed_read(input, 32) {
            Ok(raw) => Ok(SharedSecret { bytes: raw }),
            Err(e) => Err(e),
        }
    }

    fn wire_skip(input: &mut Reader) -> (r: Result<(), Error>) {
        util::fixed_skip(input, 32)
    }
}

impl crate::SecretBytes for SharedSecret {
    open spec fn size_spec() -> nat {
        32
    }

    open spec fn expose_spec(&self) -> Seq<u8> {
        self.bytes@
    }

    fn from_exposed(raw: Vec<u8>) -> (s: Self) {
        SharedSecret { bytes: raw }
    }

    fn expose(&self) -> (r: &Vec<u8>) {
        &self.bytes
    }

    fn len() -> (n: usize) {
        32
    }
}


impl crate::printable::Printable for SharedSecret {
    open spec fn print_spec(&self) -> Seq<u8> {
        crate::printable::secret_bytes_text()
    }

    fn print(&self, out: &mut Vec<u8>) {
        crate::printable::print_secret_bytes(out);
    }
}


impl Drop for SharedSecret {
    /// Relies on `zeroize::Zeroize` for byte vectors: a discarded secret
    /// has its buffer overwritten with zeros before it is freed.
    #[verifier::external_body]
    fn drop(&mut self)
        opens_invariants none
        no_unwind
    {
        zeroize::Zeroize::zeroize(&mut self.bytes);
    }
}

} // verus!
