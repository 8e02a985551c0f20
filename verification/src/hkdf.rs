//! Key derivation: a 32-byte seed extracted from key material, expanded
//! into arbitrary-length outputs.

use vstd::prelude::*;

use crate::buffer::{Reader, Writer};
use crate::error::Error;
use crate::serial::Serializable;
use crate::util;

verus! {

pub const SEED_SIZE: usize = 32;

/// A secret 32-byte value; zero it when it is no longer needed.
#[derive(Clone, Debug)]
pub struct Seed {
    pub bytes: Vec<u8>,
}

impl DeepView for Seed {
    type V = Seq<u8>;

    open spec fn deep_view(&self) -> Seq<u8> {
        self.bytes@
    }
}

impl Seed {
    /// Exactly 32 bytes.
    pub open spec fn wf(&self) -> bool {
        self.bytes@.len() == 32
    }

    /// Wraps an exact-length byte vector.
    pub fn from_exact(raw: Vec<u8>) -> (r: Self)
        requires
            raw@.len() == 32,
        ensures
            r.wf(),
            r.deep_view() == raw@,
    {
        Seed { bytes: raw }
    }

    /// The all-zero value.
    pub fn zero() -> (r: Self)
        ensures
            r.wf(),
            r.deep_view() == Seq::new(32, |i: int| 0u8),
    {
        let mut raw: Vec<u8> = Vec::new();
        let mut i: usize = 0;
        while i < 32
            invariant
                i <= 32,
                raw@ == Seq::new(i as nat, |j: int| 0u8),
            decreases 32 - i,
        {
            raw.push(0u8);
            i = i + 1;
            proof {
                assert(raw@ =~= Seq::new(i as nat, |j: int| 0u8));
            }
        }
        Seed { bytes: raw }
    }

    /// An independent copy holding the same bytes.
    pub fn duplicate(&self) -> (r: Self)
        ensures
            r.deep_view() == self.deep_view(),
            r.wf() == self.wf(),
    {
        Seed { bytes: util::copy_bytes(&self.bytes) }
    }

    /// Grants read access to the secret bytes.
    pub fn expose(&self) -> (r: &Vec<u8>)
        ensures
            r@ == self.deep_view(),
    {
        &self.bytes
    }

    /// Unwraps into the raw byte vector, leaving zeroed bytes behind for the
    /// destructor.
    pub fn into_exact(self) -> (r: Vec<u8>)
        ensures
            r@ == self.deep_view(),
    {
        let mut this = self;
        let mut taken: Vec<u8> = Vec::new();
        core::mem::swap(&mut taken, &mut this.bytes);
        taken
    }

    /// Overwrites every byte with zero.
    pub fn zeroize(&mut self)
        ensures
            final(self).deep_view() == Seq::new(old(self).deep_view().len(), |i: int| 0u8),
    {
        let n = self.bytes.len();
        let mut i: usize = 0;
        while i < n
            invariant
                i <= n,
                n == self.bytes@.len(),
                forall|j: int| 0 <= j < i ==> self.bytes@[j] == 0u8,
            decreases n - i,
        {
            self.bytes.set(i, 0u8);
            i = i + 1;
        }
        proof {
            assert(final(self).deep_view() =~= Seq::new(old(self).deep_view().len(), |i: int| 0u8));
        }
    }
}

impl Serializable for Seed {
    open spec fn encodable(m: Seq<u8>) -> bool {
        m.len() == 32
    }

    open spec fn encode(m: Seq<u8>) -> Seq<u8> {
        m
    }

    open spec fn decode(input: Seq<u8>) -> Option<(Seq<u8>, int)> {
        if input.len() >= 32 {
            Some((input.take(32), 32))
        } else {
            None
        }
    }

    open spec fn scan(input: Seq<u8>) -> Option<int> {
        if input.len() >= 32 {
            Some(32)
        } else {
            None
        }
    }

    proof fn lemma_encode_decode(m: Seq<u8>, rest: Seq<u8>) {
        assert((m + rest).take(32) =~= m);
    }

    proof fn lemma_decode_sound(input: Seq<u8>) {
    }

    proof fn lemma_scan_sound(input: Seq<u8>) {
    }

    fn wire_size(&self) -> (n: usize) {
        32
    }

    fn wire_write(&self, out: &mut Writer) {
        util::fixed_write(out, &self.bytes);
    }

    fn wire_read(input: &mut Reader) -> (r: Result<Self, Error>) {
        match util::fixed_read(input, 32) {
            Ok(raw) => Ok(Seed { bytes: raw }),
            Err(e) => Err(e),
        }
    }

    fn wire_skip(input: &mut Reader) -> (r: Result<(), Error>) {
        util::fixed_skip(input, 32)
    }
}

impl crate::SecretBytes for Seed {
    open spec fn size_spec() -> nat {
        32
    }

    open spec fn expose_spec(&self) -> Seq<u8> {
        self.bytes@
    }

    fn from_exposed(raw: Vec<u8>) -> (s: Self) {
        Seed { bytes: raw }
    }

    fn expose(&self) -> (r: &Vec<u8>) {
        &self.bytes
    }

    fn len() -> (n: usize) {
        32
    }
}


/// What HKDF-Extract with BLAKE2s-256 returns for a salt and input keying
/// material: a 32-byte pseudorandom key.
pub uninterp spec fn hkdf_extract_of(salt: Seq<u8>, input: Seq<u8>) -> Seq<u8>;

/// What HKDF-Expand with BLAKE2s-256 returns for a pseudorandom key, a
/// context string and an output length.
pub uninterp spec fn hkdf_expand_of(prk: Seq<u8>, info: Seq<u8>, len: nat) -> Seq<u8>;

impl Seed {
    /// Reuses an agreed shared secret directly as a seed.
    pub fn from_shared_secret(secret: crate::secrets::SharedSecret) -> (r: Self)
        ensures
            r.deep_view() == secret.deep_view(),
    {
        Seed { bytes: secret.into_exact() }
    }

    /// Hands the seed bytes on as a shared secret.
    pub fn into_shared_secret(self) -> (r: crate::secrets::SharedSecret)
        ensures
            r.deep_view() == self.deep_view(),
    {
        crate::secrets::SharedSecret { bytes: self.into_exact() }
    }

    /// Relies on `cryptoxide::hkdf::hkdf_extract` with a BLAKE2s-256 digest:
    /// the extracted key is a function of salt and input alone, 32 bytes long.
    #[verifier::external_body]
    pub fn from_key_material(salt: &Vec<u8>, input: &Vec<u8>) -> (r: Self)
        ensures
            r.wf(),
            r.deep_view() == hkdf_extract_of(salt@, input@),
    {
        let context = cryptoxide::blake2s::Blake2s::new(32);
        let mut seed = vec![0u8; 32];
        cryptoxide::hkdf::hkdf_extract(context, salt.as_slice(), input.as_slice(), seed.as_mut_slice());
        Seed { bytes: seed }
    }

    /// Relies on `cryptoxide::hkdf::hkdf_expand` with a BLAKE2s-256 digest:
    /// the output is a function of the seed, the context string and the
    /// requested length. The function aborts past 255 hash blocks, so the
    /// length is capped at 255 * 32 bytes.
    #[verifier::external_body]
    pub fn generate_into(&self, info: &Vec<u8>, len: usize) -> (r: Vec<u8>)
        requires
            self.wf(),
            len <= 8160,
        ensures
            r@ == hkdf_expand_of(self.deep_view(), info@, len as nat),
            r@.len() == len,
    {
        let context = cryptoxide::blake2s::Blake2s::new(32);
        let mut output = vec![0u8; len];
        cryptoxide::hkdf::hkdf_expand(context, self.bytes.as_slice(), info.as_slice(), output.as_mut_slice());
        output
    }

    /// Expands one 32-byte shared secret for the given context string.
    pub fn generate(&self, info: &Vec<u8>) -> (r: crate::secrets::SharedSecret)
        requires
            self.wf(),
        ensures
            r.deep_view() == hkdf_expand_of(self.deep_view(), info@, 32),
            r.wf(),
    {
        let raw = self.generate_into(info, 32);
        crate::secrets::SharedSecret { bytes: raw }
    }
}


impl crate::printable::Printable for Seed {
    open spec fn print_spec(&self) -> Seq<u8> {
        crate::printable::secret_bytes_text()
    }

    fn print(&self, out: &mut Vec<u8>) {
        crate::printable::print_secret_bytes(out);
    }
}


impl Drop for Seed {
    /// Relies on `zeroize::Zeroize` for byte vectors: a discarded secret
    /// has its buffer overwritten with zeros before it is freed.
    #[verifier::external_body]
    fn drop(&mut self)
        opens_invariants none
        no_unwind
    {
        zeroize::Zeroize::zeroize(&mut self.bytes);
    }
}

} // verus!
