//! Ed25519 signatures: signing keys, verifying keys and the 64-byte
//! signature itself.

use vstd::prelude::*;

use crate::buffer::{Reader, Writer};
use crate::error::Error;
use crate::serial::Serializable;
use crate::util;

verus! {

pub const PRIVATE_KEY_SIZE: usize = 32;

/// A secret 32-byte value; zero it when it is no longer needed.
#[derive(Clone, Debug)]
pub struct PrivateKey {
    pub bytes: Vec<u8>,
}

impl DeepView for PrivateKey {
    type V = Seq<u8>;

    open spec fn deep_view(&self) -> Seq<u8> {
        self.bytes@
    }
}

impl PrivateKey {
    /// Exactly 32 bytes.
    pub open spec fn wf(&self) -> bool {
        self.bytes@.len() == 32
    }

    /// Wraps an exact-length byte vector.
    pub fn from_exact(raw: Vec<u8>) -> (r: Self)
        requires
            raw@.len() == 32,
        ensures
            r.wf(),
            r.deep_view() == raw@,
    {
        PrivateKey { bytes: raw }
    }

    /// The all-zero value.
    pub fn zero() -> (r: Self)
        ensures
            r.wf(),
            r.deep_view() == Seq::new(32, |i: int| 0u8),
    {
        let mut raw: Vec<u8> = Vec::new();
        let mut i: usize = 0;
        while i < 32
            invariant
                i <= 32,
                raw@ == Seq::new(i as nat, |j: int| 0u8),
            decreases 32 - i,
        {
            raw.push(0u8);
            i = i + 1;
            proof {
                assert(raw@ =~= Seq::new(i as nat, |j: int| 0u8));
            }
        }
        PrivateKey { bytes: raw }
    }

    /// An independent copy holding the same bytes.
    pub fn duplicate(&self) -> (r: Self)
        ensures
            r.deep_view() == self.deep_view(),
            r.wf() == self.wf(),
    {
        PrivateKey { bytes: util::copy_bytes(&self.bytes) }
    }

    /// Grants read access to the secret bytes.
    pub fn expose(&self) -> (r: &Vec<u8>)
        ensures
            r@ == self.deep_view(),
    {
        &self.bytes
    }

    /// Unwraps into the raw byte vector, leaving zeroed bytes behind for the
    /// destructor.
    pub fn into_exact(self) -> (r: Vec<u8>)
        ensures
            r@ == self.deep_view(),
    {
        let mut this = self;
        let mut taken: Vec<u8> = Vec::new();
        core::mem::swap(&mut taken, &mut this.bytes);
        taken
    }

    /// Overwrites every byte with zero.
    pub fn zeroize(&mut self)
        ensures
            final(self).deep_view() == Seq::new(old(self).deep_view().len(), |i: int| 0u8),
    {
        let n = self.bytes.len();
        let mut i: usize = 0;
        while i < n
            invariant
                i <= n,
                n == self.bytes@.len(),
                forall|j: int| 0 <= j < i ==> self.bytes@[j] == 0u8,
            decreases n - i,
        {
            self.bytes.set(i, 0u8);
            i = i + 1;
        }
        proof {
            assert(final(self).deep_view() =~= Seq::new(old(self).deep_view().len(), |i: int| 0u8));
        }
    }
}

impl Serializable for PrivateKey {
    open spec fn encodable(m: Seq<u8>) -> bool {
        m.len() == 32
    }

    open spec fn encode(m: Seq<u8>) -> Seq<u8> {
        m
    }

    open spec fn decode(input: Seq<u8>) -> Option<(Seq<u8>, int)> {
        if input.len() >= 32 {
            Some((input.take(32), 32))
        } else {
            None
        }
    }

    open spec fn scan(input: Seq<u8>) -> Option<int> {
        if input.len() >= 32 {
            Some(32)
        } else {
            None
        }
    }

    proof fn lemma_encode_decode(m: Seq<u8>, rest: Seq<u8>) {
        assert((m + rest).take(32) =~= m);
    }

    proof fn lemma_decode_sound(input: Seq<u8>) {
    }

    proof fn lemma_scan_sound(input: Seq<u8>) {
    }

    fn wire_size(&self) -> (n: usize) {
        32
    }

    fn wire_write(&self, out: &mut Writer) {
        util::fixed_write(out, &self.bytes);
    }

    fn wire_read(input: &mut Reader) -> (r: Result<Self, Error>) {
        match util::fixed_read(input, 32) {
            Ok(raw) => Ok(PrivateKey { bytes: raw }),
            Err(e) => Err(e),
        }
    }

    fn wire_skip(input: &mut Reader) -> (r: Result<(), Error>) {
        util::fixed_skip(input, 32)
    }
}

impl crate::SecretBytes for PrivateKey {
    open spec fn size_spec() -> nat {
        32
    }

    open spec fn expose_spec(&self) -> Seq<u8> {
        self.bytes@
    }

    fn from_exposed(raw: Vec<u8>) -> (s: Self) {
        PrivateKey { bytes: raw }
    }

    fn expose(&self) -> (r: &Vec<u8>) {
        &self.bytes
    }

    fn len() -> (n: usize) {
        32
    }
}

pub const PUBLIC_KEY_SIZE: usize = 32;

/// A public 32-byte value.
#[derive(Clone, Debug)]
pub struct PublicKey {
    pub bytes: Vec<u8>,
}

impl DeepView for PublicKey {
    type V = Seq<u8>;

    open spec fn deep_view(&self) -> Seq<u8> {
        self.bytes@
    }
}

impl PublicKey {
    /// Exactly 32 bytes.
    pub open spec fn wf(&self) -> bool {
        self.bytes@.len() == 32
    }

    /// Wraps an exact-length byte vector.
    pub fn from_exact(raw: Vec<u8>) -> (r: Self)
        requires
            raw@.len() == 32,
        ensures
            r.wf(),
            r.deep_view() == raw@,
    {
        PublicKey { bytes: raw }
    }

    /// The all-zero value.
    pub fn zero() -> (r: Self)
        ensures
            r.wf(),
            r.deep_view() == Seq::new(32, |i: int| 0u8),
    {
        let mut raw: Vec<u8> = Vec::new();
        let mut i: usize = 0;
        while i < 32
            invariant
                i <= 32,
                raw@ == Seq::new(i as nat, |j: int| 0u8),
            decreases 32 - i,
        {
            raw.push(0u8);
            i = i + 1;
            proof {
                assert(raw@ =~= Seq::new(i as nat, |j: int| 0u8));
            }
        }
        PublicKey { bytes: raw }
    }

    /// An independent copy holding the same bytes.
    pub fn duplicate(&self) -> (r: Self)
        ensures
            r.deep_view() == self.deep_view(),
            r.wf() == self.wf(),
    {
        PublicKey { bytes: util::copy_bytes(&self.bytes) }
    }

    /// Borrows the raw bytes.
    pub fn as_exact(&self) -> (r: &Vec<u8>)
        ensures
            r@ == self.deep_view(),
    {
        &self.bytes
    }

    /// Unwraps into the raw byte vector.
    pub fn into_exact(self) -> (r: Vec<u8>)
        ensures
            r@ == self.deep_view(),
    {
        self.bytes
    }

    /// Overwrites every byte with zero.
    pub fn zeroize(&mut self)
        ensures
            final(self).deep_view() == Seq::new(old(self).deep_view().len(), |i: int| 0u8),
    {
        let n = self.bytes.len();
        let mut i: usize = 0;
        while i < n
            invariant
                i <= n,
                n == self.bytes@.len(),
                forall|j: int| 0 <= j < i ==> self.bytes@[j] == 0u8,
            decreases n - i,
        {
            self.bytes.set(i, 0u8);
            i = i + 1;
        }
        proof {
            assert(final(self).deep_view() =~= Seq::new(old(self).deep_view().len(), |i: int| 0u8));
        }
    }
}

impl Serializable for PublicKey {
    open spec fn encodable(m: Seq<u8>) -> bool {
        m.len() == 32
    }

    open spec fn encode(m: Seq<u8>) -> Seq<u8> {
        m
    }

    open spec fn decode(input: Seq<u8>) -> Option<(Seq<u8>, int)> {
        if input.len() >= 32 {
            Some((input.take(32), 32))
        } else {
            None
        }
    }

    open spec fn scan(input: Seq<u8>) -> Option<int> {
        if input.len() >= 32 {
            Some(32)
        } else {
            None
        }
    }

    proof fn lemma_encode_decode(m: Seq<u8>, rest: Seq<u8>) {
        assert((m + rest).take(32) =~= m);
    }

    proof fn lemma_decode_sound(input: Seq<u8>) {
    }

    proof fn lemma_scan_sound(input: Seq<u8>) {
    }

    fn wire_size(&self) -> (n: usize) {
        32
    }

    fn wire_write(&self, out: &mut Writer) {
        util::fixed_write(out, &self.bytes);
    }

    fn wire_read(input: &mut Reader) -> (r: Result<Self, Error>) {
        match util::fixed_read(input, 32) {
            Ok(raw) => Ok(PublicKey { bytes: raw }),
            Err(e) => Err(e),
        }
    }

    fn wire_skip(input: &mut Reader) -> (r: Result<(), Error>) {
        util::fixed_skip(input, 32)
    }
}

impl PartialEq for PublicKey {
    /// Constant-time comparison of the underlying bytes.
    fn eq(&self, other: &Self) -> (r: bool) {
        util::eq(&self.bytes, &other.bytes)
    }
}

impl vstd::std_specs::cmp::PartialEqSpecImpl for PublicKey {
    open spec fn obeys_eq_spec() -> bool {
        true
    }

    open spec fn eq_spec(&self, other: &PublicKey) -> bool {
        self.bytes@ == other.bytes@
    }
}

pub const SIGNATURE_SIZE: usize = 64;

/// A public 64-byte value.
#[derive(Clone, Debug)]
pub struct Signature {
    pub bytes: Vec<u8>,
}

impl DeepView for Signature {
    type V = Seq<u8>;

    open spec fn deep_view(&self) -> Seq<u8> {
        self.bytes@
    }
}

impl Signature {
    /// Exactly 64 bytes.
    pub open spec fn wf(&self) -> bool {
        self.bytes@.len() == 64
    }

    /// Wraps an exact-length byte vector.
    pub fn from_exact(raw: Vec<u8>) -> (r: Self)
        requires
            raw@.len() == 64,
        ensures
            r.wf(),
            r.deep_view() == raw@,
    {
        Signature { bytes: raw }
    }

    /// The all-zero value.
    pub fn zero() -> (r: Self)
        ensures
            r.wf(),
            r.deep_view() == Seq::new(64, |i: int| 0u8),
    {
        let mut raw: Vec<u8> = Vec::new();
        let mut i: usize = 0;
        while i < 64
            invariant
                i <= 64,
                raw@ == Seq::new(i as nat, |j: int| 0u8),
            decreases 64 - i,
        {
            raw.push(0u8);
            i = i + 1;
            proof {
                assert(raw@ =~= Seq::new(i as nat, |j: int| 0u8));
            }
        }
        Signature { bytes: raw }
    }

    /// An independent copy holding the same bytes.
    pub fn duplicate(&self) -> (r: Self)
        ensures
            r.deep_view() == self.deep_view(),
            r.wf() == self.wf(),
    {
        Signature { bytes: util::copy_bytes(&self.bytes) }
    }

    /// Borrows the raw bytes.
    pub fn as_exact(&self) -> (r: &Vec<u8>)
        ensures
            r@ == self.deep_view(),
    {
        &self.bytes
    }

    /// Unwraps into the raw byte vector.
    pub fn into_exact(self) -> (r: Vec<u8>)
        ensures
            r@ == self.deep_view(),
    {
        self.bytes
    }

    /// Overwrites every byte with zero.
    pub fn zeroize(&mut self)
        ensures
            final(self).deep_view() == Seq::new(old(self).deep_view().len(), |i: int| 0u8),
    {
        let n = self.bytes.len();
        let mut i: usize = 0;
        while i < n
            invariant
                i <= n,
                n == self.bytes@.len(),
                forall|j: int| 0 <= j < i ==> self.bytes@[j] == 0u8,
            decreases n - i,
        {
            self.bytes.set(i, 0u8);
            i = i + 1;
        }
        proof {
            assert(final(self).deep_view() =~= Seq::new(old(self).deep_view().len(), |i: int| 0u8));
        }
    }
}

impl Serializable for Signature {
    open spec fn encodable(m: Seq<u8>) -> bool {
        m.len() == 64
    }

    open spec fn encode(m: Seq<u8>) -> Seq<u8> {
        m
    }

    open spec fn decode(input: Seq<u8>) -> Option<(Seq<u8>, int)> {
        if input.len() >= 64 {
            Some((input.take(64), 64))
        } else {
            None
        }
    }

    open spec fn scan(input: Seq<u8>) -> Option<int> {
        if input.len() >= 64 {
            Some(64)
        } else {
            None
        }
    }

    proof fn lemma_encode_decode(m: Seq<u8>, rest: Seq<u8>) {
        assert((m + rest).take(64) =~= m);
    }

    proof fn lemma_decode_sound(input: Seq<u8>) {
    }

    proof fn lemma_scan_sound(input: Seq<u8>) {
    }

    fn wire_size(&self) -> (n: usize) {
        64
    }

    fn wire_write(&self, out: &mut Writer) {
        util::fixed_write(out, &self.bytes);
    }

    fn wire_read(input: &mut Reader) -> (r: Result<Self, Error>) {
        match util::fixed_read(input, 64) {
            Ok(raw) => Ok(Signature { bytes: raw }),
            Err(e) => Err(e),
        }
    }

    fn wire_skip(input: &mut Reader) -> (r: Result<(), Error>) {
        util::fixed_skip(input, 64)
    }
}

impl PartialEq for Signature {
    /// Constant-time comparison of the underlying bytes.
    fn eq(&self, other: &Self) -> (r: bool) {
        util::eq(&self.bytes, &other.bytes)
    }
}

impl vstd::std_specs::cmp::PartialEqSpecImpl for Signature {
    open spec fn obeys_eq_spec() -> bool {
        true
    }

    open spec fn eq_spec(&self, other: &Signature) -> bool {
        self.bytes@ == other.bytes@
    }
}


/// What Ed25519 key derivation returns: the verifying key of a 32-byte seed.
pub uninterp spec fn ed25519_public_of(sk: Seq<u8>) -> Seq<u8>;

/// What Ed25519 signing returns for a seed and a message.
pub uninterp spec fn ed25519_signature_of(sk: Seq<u8>, msg: Seq<u8>) -> Seq<u8>;

/// Whether Ed25519 verification accepts a signature for a key and message.
pub uninterp spec fn ed25519_verifies(pk: Seq<u8>, msg: Seq<u8>, sig: Seq<u8>) -> bool;

impl PrivateKey {
    /// Reuses an agreed shared secret as a signing seed.
    pub fn from_shared_secret(secret: crate::secrets::SharedSecret) -> (r: Self)
        ensures
            r.deep_view() == secret.deep_view(),
    {
        PrivateKey { bytes: secret.into_exact() }
    }

    /// Relies on `cryptoxide::ed25519::keypair`: the verifying key is a
    /// function of the 32 seed bytes alone, and is 32 bytes long.
    #[verifier::external_body]
    pub fn public_key(&self) -> (r: PublicKey)
        requires
            self.wf(),
        ensures
            r.wf(),
            r.deep_view() == ed25519_public_of(self.deep_view()),
    {
        let seed: &[u8; 32] = self.bytes.as_slice().try_into().unwrap();
        let (_, pk) = cryptoxide::ed25519::keypair(seed);
        PublicKey { bytes: pk.to_vec() }
    }

    /// Relies on `cryptoxide::ed25519::{keypair, signature}`: the signature is
    /// a function of the seed and the message alone, is 64 bytes long, and
    /// verifies under the seed's own verifying key.
    #[verifier::external_body]
    pub fn sign(&self, data: &Vec<u8>) -> (r: Signature)
        requires
            self.wf(),
        ensures
            r.wf(),
            r.deep_view() == ed25519_signature_of(self.deep_view(), data@),
            ed25519_verifies(ed25519_public_of(self.deep_view()), data@, r.deep_view()),
    {
        let seed: &[u8; 32] = self.bytes.as_slice().try_into().unwrap();
        let (kp, _) = cryptoxide::ed25519::keypair(seed);
        Signature { bytes: cryptoxide::ed25519::signature(data.as_slice(), &kp).to_vec() }
    }
}

impl PublicKey {
    /// Signature verification: succeeds exactly when Ed25519 accepts the
    /// signature for this key and message.
    pub fn verify(&self, data: &Vec<u8>, sig: &Signature) -> (r: Result<(), Error>)
        requires
            self.wf(),
            sig.wf(),
        ensures
            r is Ok <==> ed25519_verifies(self.deep_view(), data@, sig.deep_view()),
    {
        if ed25519_verify(self, data, sig) {
            Ok(())
        } else {
            Err(Error)
        }
    }
}

/// Relies on `cryptoxide::ed25519::verify`: acceptance is a function of key,
/// message and signature alone.
#[verifier::external_body]
fn ed25519_verify(pk: &PublicKey, data: &Vec<u8>, sig: &Signature) -> (r: bool)
    requires
        pk.wf(),
        sig.wf(),
    ensures
        r == ed25519_verifies(pk.deep_view(), data@, sig.deep_view()),
{
    let pk32: &[u8; 32] = pk.bytes.as_slice().try_into().unwrap();
    let sig64: &[u8; 64] = sig.bytes.as_slice().try_into().unwrap();
    cryptoxide::ed25519::verify(data.as_slice(), pk32, sig64)
}


impl crate::printable::Printable for PublicKey {
    open spec fn print_spec(&self) -> Seq<u8> {
        crate::printable::public_bytes_text(self.deep_view())
    }

    fn print(&self, out: &mut Vec<u8>) {
        crate::printable::print_public_bytes(out, &self.bytes);
    }
}


impl crate::printable::Printable for Signature {
    open spec fn print_spec(&self) -> Seq<u8> {
        crate::printable::public_bytes_text(self.deep_view())
    }

    fn print(&self, out: &mut Vec<u8>) {
        crate::printable::print_public_bytes(out, &self.bytes);
    }
}


impl crate::printable::Printable for PrivateKey {
    open spec fn print_spec(&self) -> Seq<u8> {
        crate::printable::secret_bytes_text()
    }

    fn print(&self, out: &mut Vec<u8>) {
        crate::printable::print_secret_bytes(out);
    }
}


impl Drop for PrivateKey {
    /// Relies on `zeroize::Zeroize` for byte vectors: a discarded secret
    /// has its buffer overwritten with zeros before it is freed.
    #[verifier::external_body]
    fn drop(&mut self)
        opens_invariants none
        no_unwind
    {
        zeroize::Zeroize::zeroize(&mut self.bytes);
    }
}

} // verus!
