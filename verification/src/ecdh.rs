//! Elliptic-curve Diffie-Hellman key agreement over Curve25519.

use vstd::prelude::*;

use crate::buffer::{Reader, Writer};
use crate::error::Error;
use crate::serial::Serializable;
use crate::util;

verus! {

pub const PRIVATE_KEY_SIZE: usize = 32;

/// A secret 32-byte value; zero it when it is no longer needed.
#[derive(Clone, Debug)]
pub struct PrivateKey {
    pub bytes: Vec<u8>,
}

impl DeepView for PrivateKey {
    type V = Seq<u8>;

    open spec fn deep_view(&self) -> Seq<u8> {
        self.bytes@
    }
}

impl PrivateKey {
    /// Exactly 32 bytes.
    pub open spec fn wf(&self) -> bool {
        self.bytes@.len() == 32
    }

    /// Wraps an exact-length byte vector.
    pub fn from_exact(raw: Vec<u8>) -> (r: Self)
        requires
            raw@.len() == 32,
        ensures
            r.wf(),
            r.deep_view() == raw@,
    {
        PrivateKey { bytes: raw }
    }

    /// The all-zero value.
    pub fn zero() -> (r: Self)
        ensures
            r.wf(),
            r.deep_view() == Seq::new(32, |i: int| 0u8),
    {
        let mut raw: Vec<u8> = Vec::new();
        let mut i: usize = 0;
        while i < 32
            invariant
                i <= 32,
                raw@ == Seq::new(i as nat, |j: int| 0u8),
            decreases 32 - i,
        {
            raw.push(0u8);
            i = i + 1;
            proof {
                assert(raw@ =~= Seq::new(i as nat, |j: int| 0u8));
            }
        }
        PrivateKey { bytes: raw }
    }

    /// An independent copy holding the same bytes.
    pub fn duplicate(&self) -> (r: Self)
        ensures
            r.deep_view() == self.deep_view(),
            r.wf() == self.wf(),
    {
        PrivateKey { bytes: util::copy_bytes(&self.bytes) }
    }

    /// Grants read access to the secret bytes.
    pub fn expose(&self) -> (r: &Vec<u8>)
        ensures
            r@ == self.deep_view(),
    {
        &self.bytes
    }

    /// Unwraps into the raw byte vector, leaving zeroed bytes behind for the
    /// destructor.
    pub fn into_exact(self) -> (r: Vec<u8>)
        ensures
            r@ == self.deep_view(),
    {
        let mut this = self;
        let mut taken: Vec<u8> = Vec::new();
        core::mem::swap(&mut taken, &mut this.bytes);
        taken
    }

    /// Overwrites every byte with zero.
    pub fn zeroize(&mut self)
        ensures
            final(self).deep_view() == Seq::new(old(self).deep_view().len(), |i: int| 0u8),
    {
        let n = self.bytes.len();
        let mut i: usize = 0;
        while i < n
            invariant
                i <= n,
                n == self.bytes@.len(),
                forall|j: int| 0 <= j < i ==> self.bytes@[j] == 0u8,
            decreases n - i,
        {
            self.bytes.set(i, 0u8);
            i = i + 1;
        }
        proof {
            assert(final(self).deep_view() =~= Seq::new(old(self).deep_view().len(), |i: int| 0u8));
        }
    }
}

impl Serializable for PrivateKey {
    open spec fn encodable(m: Seq<u8>) -> bool {
        m.len() == 32
    }

    open spec fn encode(m: Seq<u8>) -> Seq<u8> {
        m
    }

    open spec fn decode(input: Seq<u8>) -> Option<(Seq<u8>, int)> {
        if input.len() >= 32 {
            Some((input.take(32), 32))
        } else {
            None
        }
    }

    open spec fn scan(input: Seq<u8>) -> Option<int> {
        if input.len() >= 32 {
            Some(32)
        } else {
            None
        }
    }

    proof fn lemma_encode_decode(m: Seq<u8>, rest: Seq<u8>) {
        assert((m + rest).take(32) =~= m);
    }

    proof fn lemma_decode_sound(input: Seq<u8>) {
    }

    proof fn lemma_scan_sound(input: Seq<u8>) {
    }

    fn wire_size(&self) -> (n: usize) {
        32
    }

    fn wire_write(&self, out: &mut Writer) {
        util::fixed_write(out, &self.bytes);
    }

    fn wire_read(input: &mut Reader) -> (r: Result<Self, Error>) {
        match util::fixed_read(input, 32) {
            Ok(raw) => Ok(PrivateKey { bytes: raw }),
            Err(e) => Err(e),
        }
    }

    fn wire_skip(input: &mut Reader) -> (r: Result<(), Error>) {
        util::fixed_skip(input, 32)
    }
}

impl crate::SecretBytes for PrivateKey {
    open spec fn size_spec() -> nat {
        32
    }

    open spec fn expose_spec(&self) -> Seq<u8> {
        self.bytes@
    }

    fn from_exposed(raw: Vec<u8>) -> (s: Self) {
        PrivateKey { bytes: raw }
    }

    fn expose(&self) -> (r: &Vec<u8>) {
        &self.bytes
    }

    fn len() -> (n: usize) {
        32
    }
}

pub const PUBLIC_KEY_SIZE: usize = 32;

/// A public 32-byte value.
#[derive(Clone, Debug)]
pub struct PublicKey {
    pub bytes: Vec<u8>,
}

impl DeepView for PublicKey {
    type V = Seq<u8>;

    open spec fn deep_view(&self) -> Seq<u8> {
        self.bytes@
    }
}

impl PublicKey {
    /// Exactly 32 bytes.
    pub open spec fn wf(&self) -> bool {
        self.bytes@.len() == 32
    }

    /// Wraps an exact-length byte vector.
    pub fn from_exact(raw: Vec<u8>) -> (r: Self)
        requires
            raw@.len() == 32,
        ensures
            r.wf(),
            r.deep_view() == raw@,
    {
        PublicKey { bytes: raw }
    }

    /// The all-zero value.
    pub fn zero() -> (r: Self)
        ensures
            r.wf(),
            r.deep_view() == Seq::new(32, |i: int| 0u8),
    {
        let mut raw: Vec<u8> = Vec::new();
        let mut i: usize = 0;
        while i < 32
            invariant
                i <= 32,
                raw@ == Seq::new(i as nat, |j: int| 0u8),
            decreases 32 - i,
        {
            raw.push(0u8);
            i = i + 1;
            proof {
                assert(raw@ =~= Seq::new(i as nat, |j: int| 0u8));
            }
        }
        PublicKey { bytes: raw }
    }

    /// An independent copy holding the same bytes.
    pub fn duplicate(&self) -> (r: Self)
        ensures
            r.deep_view() == self.deep_view(),
            r.wf() == self.wf(),
    {
        PublicKey { bytes: util::copy_bytes(&self.bytes) }
    }

    /// Borrows the raw bytes.
    pub fn as_exact(&self) -> (r: &Vec<u8>)
        ensures
            r@ == self.deep_view(),
    {
        &self.bytes
    }

    /// Unwraps into the raw byte vector.
    pub fn into_exact(self) -> (r: Vec<u8>)
        ensures
            r@ == self.deep_view(),
    {
        self.bytes
    }

    /// Overwrites every byte with zero.
    pub fn zeroize(&mut self)
        ensures
            final(self).deep_view() == Seq::new(old(self).deep_view().len(), |i: int| 0u8),
    {
        let n = self.bytes.len();
        let mut i: usize = 0;
        while i < n
            invariant
                i <= n,
                n == self.bytes@.len(),
                forall|j: int| 0 <= j < i ==> self.bytes@[j] == 0u8,
            decreases n - i,
        {
            self.bytes.set(i, 0u8);
            i = i + 1;
        }
        proof {
            assert(final(self).deep_view() =~= Seq::new(old(self).deep_view().len(), |i: int| 0u8));
        }
    }
}

impl Serializable for PublicKey {
    open spec fn encodable(m: Seq<u8>) -> bool {
        m.len() == 32
    }

    open spec fn encode(m: Seq<u8>) -> Seq<u8> {
        m
    }

    open spec fn decode(input: Seq<u8>) -> Option<(Seq<u8>, int)> {
        if input.len() >= 32 {
            Some((input.take(32), 32))
        } else {
            None
        }
    }

    open spec fn scan(input: Seq<u8>) -> Option<int> {
        if input.len() >= 32 {
            Some(32)
        } else {
            None
        }
    }

    proof fn lemma_encode_decode(m: Seq<u8>, rest: Seq<u8>) {
        assert((m + rest).take(32) =~= m);
    }

    proof fn lemma_decode_sound(input: Seq<u8>) {
    }

    proof fn lemma_scan_sound(input: Seq<u8>) {
    }

    fn wire_size(&self) -> (n: usize) {
        32
    }

    fn wire_write(&self, out: &mut Writer) {
        util::fixed_write(out, &self.bytes);
    }

    fn wire_read(input: &mut Reader) -> (r: Result<Self, Error>) {
        match util::fixed_read(input, 32) {
            Ok(raw) => Ok(PublicKey { bytes: raw }),
            Err(e) => Err(e),
        }
    }

    fn wire_skip(input: &mut Reader) -> (r: Result<(), Error>) {
        util::fixed_skip(input, 32)
    }
}

impl PartialEq for PublicKey {
    /// Constant-time comparison of the underlying bytes.
    fn eq(&self, other: &Self) -> (r: bool) {
        util::eq(&self.bytes, &other.bytes)
    }
}

impl vstd::std_specs::cmp::PartialEqSpecImpl for PublicKey {
    open spec fn obeys_eq_spec() -> bool {
        true
    }

    open spec fn eq_spec(&self, other: &PublicKey) -> bool {
        self.bytes@ == other.bytes@
    }
}


/// What X25519 base-point multiplication returns: the public point of a
/// 32-byte secret.
pub uninterp spec fn x25519_public_of(sk: Seq<u8>) -> Seq<u8>;

/// What X25519 Diffie-Hellman returns for a secret and a peer point.
pub uninterp spec fn x25519_shared_of(sk: Seq<u8>, pk: Seq<u8>) -> Seq<u8>;

impl PrivateKey {
    /// Reuses an agreed shared secret as a key-agreement secret.
    pub fn from_shared_secret(secret: crate::secrets::SharedSecret) -> (r: Self)
        ensures
            r.deep_view() == secret.deep_view(),
    {
        PrivateKey { bytes: secret.into_exact() }
    }

    /// Relies on `cryptoxide::x25519::base`: the derived public point is a
    /// function of the 32 secret bytes alone, and is 32 bytes long.
    #[verifier::external_body]
    pub fn public_key(&self) -> (r: PublicKey)
        requires
            self.wf(),
        ensures
            r.wf(),
            r.deep_view() == x25519_public_of(self.deep_view()),
    {
        let sk = cryptoxide::x25519::SecretKey::try_from(self.bytes.as_slice()).unwrap();
        PublicKey { bytes: cryptoxide::x25519::base(&sk).as_ref().to_vec() }
    }

    /// Key agreement with a peer's public point.
    ///
    /// Policy on low-order peer points: this back-end accepts every peer
    /// point, all-zero shared secrets included, and the operation never
    /// fails.
    pub fn diffie_hellman(&self, partner: &PublicKey) -> (r: Result<
        crate::secrets::SharedSecret,
        Error,
    >)
        requires
            self.wf(),
            partner.wf(),
        ensures
            r matches Ok(s) && s.wf() && s.deep_view() == x25519_shared_of(
                self.deep_view(),
                partner.deep_view(),
            ),
    {
        Ok(x25519_dh(self, partner))
    }
}

/// Relies on `cryptoxide::x25519::dh`: the shared secret is a function of the
/// two inputs alone, is 32 bytes long, and the call never fails.
#[verifier::external_body]
fn x25519_dh(sk: &PrivateKey, partner: &PublicKey) -> (r: crate::secrets::SharedSecret)
    requires
        sk.wf(),
        partner.wf(),
    ensures
        r.wf(),
        r.deep_view() == x25519_shared_of(sk.deep_view(), partner.deep_view()),
{
    let n = cryptoxide::x25519::SecretKey::try_from(sk.bytes.as_slice()).unwrap();
    let p = cryptoxide::x25519::PublicKey::try_from(partner.bytes.as_slice()).unwrap();
    crate::secrets::SharedSecret { bytes: cryptoxide::x25519::dh(&n, &p).as_ref().to_vec() }
}


impl crate::printable::Printable for PublicKey {
    open spec fn print_spec(&self) -> Seq<u8> {
        crate::printable::public_bytes_text(self.deep_view())
    }

    fn print(&self, out: &mut Vec<u8>) {
        crate::printable::print_public_bytes(out, &self.bytes);
    }
}


impl crate::printable::Printable for PrivateKey {
    open spec fn print_spec(&self) -> Seq<u8> {
        crate::printable::secret_bytes_text()
    }

    fn print(&self, out: &mut Vec<u8>) {
        crate::printable::print_secret_bytes(out);
    }
}


impl Drop for PrivateKey {
    /// Relies on `zeroize::Zeroize` for byte vectors: a discarded secret
    /// has its buffer overwritten with zeros before it is freed.
    #[verifier::external_body]
    fn drop(&mut self)
        opens_invariants none
        no_unwind
    {
        zeroize::Zeroize::zeroize(&mut self.bytes);
    }
}

} // verus!
