//! Authenticated encryption: the secret 32-byte key, the caller-unique
//! 24-byte nonce and the 16-byte authentication tag.

use vstd::prelude::*;

use crate::buffer::{Reader, Writer};
use crate::error::Error;
use crate::serial::Serializable;
use crate::util;
use cryptoxide::chacha20poly1305;

verus! {

pub const KEY_SIZE: usize = 32;

/// A secret 32-byte value; zero it when it is no longer needed.
#[derive(Clone, Debug)]
pub struct Key {
    pub bytes: Vec<u8>,
}

impl DeepView for Key {
    type V = Seq<u8>;

    open spec fn deep_view(&self) -> Seq<u8> {
        self.bytes@
    }
}

impl Key {
    /// Exactly 32 bytes.
    pub open spec fn wf(&self) -> bool {
        self.bytes@.len() == 32
    }

    /// Wraps an exact-length byte vector.
    pub fn from_exact(raw: Vec<u8>) -> (r: Self)
        requires
            raw@.len() == 32,
        ensures
            r.wf(),
            r.deep_view() == raw@,
    {
        Key { bytes: raw }
    }

    /// The all-zero value.
    pub fn zero() -> (r: Self)
        ensures
            r.wf(),
            r.deep_view() == Seq::new(32, |i: int| 0u8),
    {
        let mut raw: Vec<u8> = Vec::new();
        let mut i: usize = 0;
        while i < 32
            invariant
                i <= 32,
                raw@ == Seq::new(i as nat, |j: int| 0u8),
            decreases 32 - i,
        {
            raw.push(0u8);
            i = i + 1;
            proof {
                assert(raw@ =~= Seq::new(i as nat, |j: int| 0u8));
            }
        }
        Key { bytes: raw }
    }

    /// An independent copy holding the same bytes.
    pub fn duplicate(&self) -> (r: Self)
        ensures
            r.deep_view() == self.deep_view(),
            r.wf() == self.wf(),
    {
        Key { bytes: util::copy_bytes(&self.bytes) }
    }

    /// Grants read access to the secret bytes.
    pub fn expose(&self) -> (r: &Vec<u8>)
        ensures
            r@ == self.deep_view(),
    {
        &self.bytes
    }

    /// Unwraps into the raw byte vector, leaving zeroed bytes behind for the
    /// destructor.
    pub fn into_exact(self) -> (r: Vec<u8>)
        ensures
            r@ == self.deep_view(),
    {
        let mut this = self;
        let mut taken: Vec<u8> = Vec::new();
        core::mem::swap(&mut taken, &mut this.bytes);
        taken
    }

    /// Overwrites every byte with zero.
    pub fn zeroize(&mut self)
        ensures
            final(self).deep_view() == Seq::new(old(self).deep_view().len(), |i: int| 0u8),
    {
        let n = self.bytes.len();
        let mut i: usize = 0;
        while i < n
            invariant
                i <= n,
                n == self.bytes@.len(),
                forall|j: int| 0 <= j < i ==> self.bytes@[j] == 0u8,
            decreases n - i,
        {
            self.bytes.set(i, 0u8);
            i = i + 1;
        }
        proof {
            assert(final(self).deep_view() =~= Seq::new(old(self).deep_view().len(), |i: int| 0u8));
        }
    }
}

impl Serializable for Key {
    open spec fn encodable(m: Seq<u8>) -> bool {
        m.len() == 32
    }

    open spec fn encode(m: Seq<u8>) -> Seq<u8> {
        m
    }

    open spec fn decode(input: Seq<u8>) -> Option<(Seq<u8>, int)> {
        if input.len() >= 32 {
            Some((input.take(32), 32))
        } else {
            None
        }
    }

    open spec fn scan(input: Seq<u8>) -> Option<int> {
        if input.len() >= 32 {
            Some(32)
        } else {
            None
        }
    }

    proof fn lemma_encode_decode(m: Seq<u8>, rest: Seq<u8>) {
        assert((m + rest).take(32) =~= m);
    }

    proof fn lemma_decode_sound(input: Seq<u8>) {
    }

    proof fn lemma_scan_sound(input: Seq<u8>) {
    }

    fn wire_size(&self) -> (n: usize) {
        32
    }

    fn wire_write(&self, out: &mut Writer) {
        util::fixed_write(out, &self.bytes);
    }

    fn wire_read(input: &mut Reader) -> (r: Result<Self, Error>) {
        match util::fixed_read(input, 32) {
            Ok(raw) => Ok(Key { bytes: raw }),
            Err(e) => Err(e),
        }
    }

    fn wire_skip(input: &mut Reader) -> (r: Result<(), Error>) {
        util::fixed_skip(input, 32)
    }
}

impl crate::SecretBytes for Key {
    open spec fn size_spec() -> nat {
        32
    }

    open spec fn expose_spec(&self) -> Seq<u8> {
        self.bytes@
    }

    fn from_exposed(raw: Vec<u8>) -> (s: Self) {
        Key { bytes: raw }
    }

    fn expose(&self) -> (r: &Vec<u8>) {
        &self.bytes
    }

    fn len() -> (n: usize) {
        32
    }
}

pub const NONCE_SIZE: usize = 24;

/// A public 24-byte value.
#[derive(Clone, Debug)]
pub struct Nonce {
    pub bytes: Vec<u8>,
}

impl DeepView for Nonce {
    type V = Seq<u8>;

    open spec fn deep_view(&self) -> Seq<u8> {
        self.bytes@
    }
}

impl Nonce {
    /// Exactly 24 bytes.
    pub open spec fn wf(&self) -> bool {
        self.bytes@.len() == 24
    }

    /// Wraps an exact-length byte vector.
    pub fn from_exact(raw: Vec<u8>) -> (r: Self)
        requires
            raw@.len() == 24,
        ensures
            r.wf(),
            r.deep_view() == raw@,
    {
        Nonce { bytes: raw }
    }

    /// The all-zero value.
    pub fn zero() -> (r: Self)
        ensures
            r.wf(),
            r.deep_view() == Seq::new(24, |i: int| 0u8),
    {
        let mut raw: Vec<u8> = Vec::new();
        let mut i: usize = 0;
        while i < 24
            invariant
                i <= 24,
                raw@ == Seq::new(i as nat, |j: int| 0u8),
            decreases 24 - i,
        {
            raw.push(0u8);
            i = i + 1;
            proof {
                assert(raw@ =~= Seq::new(i as nat, |j: int| 0u8));
            }
        }
        Nonce { bytes: raw }
    }

    /// An independent copy holding the same bytes.
    pub fn duplicate(&self) -> (r: Self)
        ensures
            r.deep_view() == self.deep_view(),
            r.wf() == self.wf(),
    {
        Nonce { bytes: util::copy_bytes(&self.bytes) }
    }

    /// Borrows the raw bytes.
    pub fn as_exact(&self) -> (r: &Vec<u8>)
        ensures
            r@ == self.deep_view(),
    {
        &self.bytes
    }

    /// Unwraps into the raw byte vector.
    pub fn into_exact(self) -> (r: Vec<u8>)
        ensures
            r@ == self.deep_view(),
    {
        self.bytes
    }

    /// Overwrites every byte with zero.
    pub fn zeroize(&mut self)
        ensures
            final(self).deep_view() == Seq::new(old(self).deep_view().len(), |i: int| 0u8),
    {
        let n = self.bytes.len();
        let mut i: usize = 0;
        while i < n
            invariant
                i <= n,
                n == self.bytes@.len(),
                forall|j: int| 0 <= j < i ==> self.bytes@[j] == 0u8,
            decreases n - i,
        {
            self.bytes.set(i, 0u8);
            i = i + 1;
        }
        proof {
            assert(final(self).deep_view() =~= Seq::new(old(self).deep_view().len(), |i: int| 0u8));
        }
    }
}

impl Serializable for Nonce {
    open spec fn encodable(m: Seq<u8>) -> bool {
        m.len() == 24
    }

    open spec fn encode(m: Seq<u8>) -> Seq<u8> {
        m
    }

    open spec fn decode(input: Seq<u8>) -> Option<(Seq<u8>, int)> {
        if input.len() >= 24 {
            Some((input.take(24), 24))
        } else {
            None
        }
    }

    open spec fn scan(input: Seq<u8>) -> Option<int> {
        if input.len() >= 24 {
            Some(24)
        } else {
            None
        }
    }

    proof fn lemma_encode_decode(m: Seq<u8>, rest: Seq<u8>) {
        assert((m + rest).take(24) =~= m);
    }

    proof fn lemma_decode_sound(input: Seq<u8>) {
    }

    proof fn lemma_scan_sound(input: Seq<u8>) {
    }

    fn wire_size(&self) -> (n: usize) {
        24
    }

    fn wire_write(&self, out: &mut Writer) {
        util::fixed_write(out, &self.bytes);
    }

    fn wire_read(input: &mut Reader) -> (r: Result<Self, Error>) {
        match util::fixed_read(input, 24) {
            Ok(raw) => Ok(Nonce { bytes: raw }),
            Err(e) => Err(e),
        }
    }

    fn wire_skip(input: &mut Reader) -> (r: Result<(), Error>) {
        util::fixed_skip(input, 24)
    }
}

impl PartialEq for Nonce {
    /// Constant-time comparison of the underlying bytes.
    fn eq(&self, other: &Self) -> (r: bool) {
        util::eq(&self.bytes, &other.bytes)
    }
}

impl vstd::std_specs::cmp::PartialEqSpecImpl for Nonce {
    open spec fn obeys_eq_spec() -> bool {
        true
    }

    open spec fn eq_spec(&self, other: &Nonce) -> bool {
        self.bytes@ == other.bytes@
    }
}

pub const TAG_SIZE: usize = 16;

/// A public 16-byte value.
#[derive(Clone, Debug)]
pub struct Tag {
    pub bytes: Vec<u8>,
}

impl DeepView for Tag {
    type V = Seq<u8>;

    open spec fn deep_view(&self) -> Seq<u8> {
        self.bytes@
    }
}

impl Tag {
    /// Exactly 16 bytes.
    pub open spec fn wf(&self) -> bool {
        self.bytes@.len() == 16
    }

    /// Wraps an exact-length byte vector.
    pub fn from_exact(raw: Vec<u8>) -> (r: Self)
        requires
            raw@.len() == 16,
        ensures
            r.wf(),
            r.deep_view() == raw@,
    {
        Tag { bytes: raw }
    }

    /// The all-zero value.
    pub fn zero() -> (r: Self)
        ensures
            r.wf(),
            r.deep_view() == Seq::new(16, |i: int| 0u8),
    {
        let mut raw: Vec<u8> = Vec::new();
        let mut i: usize = 0;
        while i < 16
            invariant
                i <= 16,
                raw@ == Seq::new(i as nat, |j: int| 0u8),
            decreases 16 - i,
        {
            raw.push(0u8);
            i = i + 1;
            proof {
                assert(raw@ =~= Seq::new(i as nat, |j: int| 0u8));
            }
        }
        Tag { bytes: raw }
    }

    /// An independent copy holding the same bytes.
    pub fn duplicate(&self) -> (r: Self)
        ensures
            r.deep_view() == self.deep_view(),
            r.wf() == self.wf(),
    {
        Tag { bytes: util::copy_bytes(&self.bytes) }
    }

    /// Borrows the raw bytes.
    pub fn as_exact(&self) -> (r: &Vec<u8>)
        ensures
            r@ == self.deep_view(),
    {
        &self.bytes
    }

    /// Unwraps into the raw byte vector.
    pub fn into_exact(self) -> (r: Vec<u8>)
        ensures
            r@ == self.deep_view(),
    {
        self.bytes
    }

    /// Overwrites every byte with zero.
    pub fn zeroize(&mut self)
        ensures
            final(self).deep_view() == Seq::new(old(self).deep_view().len(), |i: int| 0u8),
    {
        let n = self.bytes.len();
        let mut i: usize = 0;
        while i < n
            invariant
                i <= n,
                n == self.bytes@.len(),
                forall|j: int| 0 <= j < i ==> self.bytes@[j] == 0u8,
            decreases n - i,
        {
            self.bytes.set(i, 0u8);
            i = i + 1;
        }
        proof {
            assert(final(self).deep_view() =~= Seq::new(old(self).deep_view().len(), |i: int| 0u8));
        }
    }
}

impl Serializable for Tag {
    open spec fn encodable(m: Seq<u8>) -> bool {
        m.len() == 16
    }

    open spec fn encode(m: Seq<u8>) -> Seq<u8> {
        m
    }

    open spec fn decode(input: Seq<u8>) -> Option<(Seq<u8>, int)> {
        if input.len() >= 16 {
            Some((input.take(16), 16))
        } else {
            None
        }
    }

    open spec fn scan(input: Seq<u8>) -> Option<int> {
        if input.len() >= 16 {
            Some(16)
        } else {
            None
        }
    }

    proof fn lemma_encode_decode(m: Seq<u8>, rest: Seq<u8>) {
        assert((m + rest).take(16) =~= m);
    }

    proof fn lemma_decode_sound(input: Seq<u8>) {
    }

    proof fn lemma_scan_sound(input: Seq<u8>) {
    }

    fn wire_size(&self) -> (n: usize) {
        16
    }

    fn wire_write(&self, out: &mut Writer) {
        util::fixed_write(out, &self.bytes);
    }

    fn wire_read(input: &mut Reader) -> (r: Result<Self, Error>) {
        match util::fixed_read(input, 16) {
            Ok(raw) => Ok(Tag { bytes: raw }),
            Err(e) => Err(e),
        }
    }

    fn wire_skip(input: &mut Reader) -> (r: Result<(), Error>) {
        util::fixed_skip(input, 16)
    }
}

impl PartialEq for Tag {
    /// Constant-time comparison of the underlying bytes.
    fn eq(&self, other: &Self) -> (r: bool) {
        util::eq(&self.bytes, &other.bytes)
    }
}

impl vstd::std_specs::cmp::PartialEqSpecImpl for Tag {
    open spec fn obeys_eq_spec() -> bool {
        true
    }

    open spec fn eq_spec(&self, other: &Tag) -> bool {
        self.bytes@ == other.bytes@
    }
}


/// What the authenticated cipher produces from key, nonce and plaintext: the
/// equal-length cipher stream output.
pub uninterp spec fn aead_cipher_of(key: Seq<u8>, nonce: Seq<u8>, plaintext: Seq<u8>) -> Seq<u8>;

/// The inverse stream: what decryption yields from key, nonce and ciphertext.
pub uninterp spec fn aead_plain_of(key: Seq<u8>, nonce: Seq<u8>, ciphertext: Seq<u8>) -> Seq<u8>;

/// What the authenticator produces from key, nonce, associated data and
/// plaintext.
pub uninterp spec fn aead_tag_of(
    key: Seq<u8>,
    nonce: Seq<u8>,
    associated: Seq<u8>,
    plaintext: Seq<u8>,
) -> Seq<u8>;

/// Relies on `cryptoxide::chacha20poly1305::Context` with 20 rounds: the
/// cipher stream and the tag are functions of key, nonce, associated data and
/// plaintext alone; the ciphertext has the plaintext's length; decrypting the
/// ciphertext under the same key and nonce gives the plaintext back. The
/// cipher itself consumes the leading 12 bytes of the 24-byte nonce; callers
/// bind the full nonce through the associated data.
#[verifier::external_body]
fn aead_encrypt(key: &Key, nonce: &Nonce, associated: &Vec<u8>, buffer: &mut Vec<u8>) -> (t: Tag)
    requires
        key.wf(),
        nonce.wf(),
    ensures
        final(buffer)@ == aead_cipher_of(key.deep_view(), nonce.deep_view(), old(buffer)@),
        final(buffer)@.len() == old(buffer)@.len(),
        aead_plain_of(key.deep_view(), nonce.deep_view(), final(buffer)@) == old(buffer)@,
        t.wf(),
        t.deep_view() == aead_tag_of(
            key.deep_view(),
            nonce.deep_view(),
            associated@,
            old(buffer)@,
        ),
{
    let mut context = chacha20poly1305::Context::<20>::new(key.bytes.as_slice(), &nonce.bytes[..12]);
    context.add_data(associated.as_slice());
    let mut context = context.to_encryption();
    context.encrypt_mut(buffer.as_mut_slice());
    Tag { bytes: context.finalize().0.to_vec() }
}

/// Relies on `cryptoxide::chacha20poly1305::Context` with 20 rounds: the
/// buffer always becomes the decrypted stream, and the call succeeds exactly
/// when the tag matches the authenticator of the decrypted plaintext under
/// this key, nonce and associated data.
#[verifier::external_body]
fn aead_decrypt(
    key: &Key,
    nonce: &Nonce,
    associated: &Vec<u8>,
    buffer: &mut Vec<u8>,
    tag: &Tag,
) -> (r: Result<(), Error>)
    requires
        key.wf(),
        nonce.wf(),
        tag.wf(),
    ensures
        final(buffer)@ == aead_plain_of(key.deep_view(), nonce.deep_view(), old(buffer)@),
        final(buffer)@.len() == old(buffer)@.len(),
        r is Ok <==> tag.deep_view() == aead_tag_of(
            key.deep_view(),
            nonce.deep_view(),
            associated@,
            final(buffer)@,
        ),
{
    let mut context = chacha20poly1305::Context::<20>::new(key.bytes.as_slice(), &nonce.bytes[..12]);
    context.add_data(associated.as_slice());
    let mut context = context.to_decryption();
    context.decrypt_mut(buffer.as_mut_slice());
    let expected = chacha20poly1305::Tag(tag.bytes.as_slice().try_into().unwrap());
    match context.finalize(&expected) {
        chacha20poly1305::DecryptionResult::Match => Ok(()),
        chacha20poly1305::DecryptionResult::MisMatch => Err(Error),
    }
}

impl Key {
    /// Reuses an agreed shared secret as a cipher key.
    pub fn from_shared_secret(secret: crate::secrets::SharedSecret) -> (r: Self)
        ensures
            r.deep_view() == secret.deep_view(),
    {
        Key { bytes: secret.into_exact() }
    }

    /// Encrypts `buffer` in place and returns the authentication tag.
    /// `associated` is unencrypted context bound into the tag; `None` is
    /// equivalent to empty.
    pub fn encrypt_in_place(
        &self,
        nonce: &Nonce,
        associated: Option<&Vec<u8>>,
        buffer: &mut Vec<u8>,
    ) -> (t: Tag)
        requires
            self.wf(),
            nonce.wf(),
        ensures
            final(buffer)@ == aead_cipher_of(self.deep_view(), nonce.deep_view(), old(buffer)@),
            final(buffer)@.len() == old(buffer)@.len(),
            aead_plain_of(self.deep_view(), nonce.deep_view(), final(buffer)@) == old(buffer)@,
            t.wf(),
            t.deep_view() == aead_tag_of(
                self.deep_view(),
                nonce.deep_view(),
                opt_bytes(associated),
                old(buffer)@,
            ),
    {
        match associated {
            Some(a) => aead_encrypt(self, nonce, a, buffer),
            None => {
                let empty: Vec<u8> = Vec::new();
                aead_encrypt(self, nonce, &empty, buffer)
            },
        }
    }

    /// Verifies the tag and decrypts `buffer` in place: detached-tag
    /// authenticated decryption. Succeeds exactly when the tag authenticates
    /// the buffer under this key, nonce and associated data.
    pub fn decrypt_in_place(
        &self,
        nonce: &Nonce,
        associated: Option<&Vec<u8>>,
        buffer: &mut Vec<u8>,
        tag: &Tag,
    ) -> (r: Result<(), Error>)
        requires
            self.wf(),
            nonce.wf(),
            tag.wf(),
        ensures
            final(buffer)@ == aead_plain_of(self.deep_view(), nonce.deep_view(), old(buffer)@),
            final(buffer)@.len() == old(buffer)@.len(),
            r is Ok <==> tag.deep_view() == aead_tag_of(
                self.deep_view(),
                nonce.deep_view(),
                opt_bytes(associated),
                final(buffer)@,
            ),
    {
        match associated {
            Some(a) => aead_decrypt(self, nonce, a, buffer, tag),
            None => {
                let empty: Vec<u8> = Vec::new();
                aead_decrypt(self, nonce, &empty, buffer, tag)
            },
        }
    }

    /// Encrypts a borrowed plaintext into a fresh ciphertext vector and
    /// returns it with the authentication tag.
    pub fn encrypt(&self, nonce: &Nonce, associated: Option<&Vec<u8>>, plaintext: &Vec<u8>) -> (r: (
        Vec<u8>,
        Tag,
    ))
        requires
            self.wf(),
            nonce.wf(),
        ensures
            r.0@ == aead_cipher_of(self.deep_view(), nonce.deep_view(), plaintext@),
            r.0@.len() == plaintext@.len(),
            aead_plain_of(self.deep_view(), nonce.deep_view(), r.0@) == plaintext@,
            r.1.wf(),
            r.1.deep_view() == aead_tag_of(
                self.deep_view(),
                nonce.deep_view(),
                opt_bytes(associated),
                plaintext@,
            ),
    {
        let mut buffer = crate::util::copy_bytes(plaintext);
        let tag = self.encrypt_in_place(nonce, associated, &mut buffer);
        (buffer, tag)
    }

    /// Decrypts a borrowed ciphertext into a fresh plaintext vector,
    /// verifying the detached tag.
    pub fn decrypt(
        &self,
        nonce: &Nonce,
        associated: Option<&Vec<u8>>,
        ciphertext: &Vec<u8>,
        tag: &Tag,
    ) -> (r: Result<Vec<u8>, Error>)
        requires
            self.wf(),
            nonce.wf(),
            tag.wf(),
        ensures
            match r {
                Ok(p) => {
                    &&& p@ == aead_plain_of(self.deep_view(), nonce.deep_view(), ciphertext@)
                    &&& tag.deep_view() == aead_tag_of(
                        self.deep_view(),
                        nonce.deep_view(),
                        opt_bytes(associated),
                        p@,
                    )
                },
                Err(_) => tag.deep_view() != aead_tag_of(
                    self.deep_view(),
                    nonce.deep_view(),
                    opt_bytes(associated),
                    aead_plain_of(self.deep_view(), nonce.deep_view(), ciphertext@),
                ),
            },
    {
        let mut buffer = crate::util::copy_bytes(ciphertext);
        match self.decrypt_in_place(nonce, associated, &mut buffer, tag) {
            Ok(_) => Ok(buffer),
            Err(e) => Err(e),
        }
    }
}

/// The associated data actually bound: the bytes given, or empty for `None`.
pub open spec fn opt_bytes(associated: Option<&Vec<u8>>) -> Seq<u8> {
    match associated {
        Some(a) => a@,
        None => Seq::empty(),
    }
}


impl crate::printable::Printable for Nonce {
    open spec fn print_spec(&self) -> Seq<u8> {
        crate::printable::public_bytes_text(self.deep_view())
    }

    fn print(&self, out: &mut Vec<u8>) {
        crate::printable::print_public_bytes(out, &self.bytes);
    }
}


impl crate::printable::Printable for Tag {
    open spec fn print_spec(&self) -> Seq<u8> {
        crate::printable::public_bytes_text(self.deep_view())
    }

    fn print(&self, out: &mut Vec<u8>) {
        crate::printable::print_public_bytes(out, &self.bytes);
    }
}


impl crate::printable::Printable for Key {
    open spec fn print_spec(&self) -> Seq<u8> {
        crate::printable::secret_bytes_text()
    }

    fn print(&self, out: &mut Vec<u8>) {
        crate::printable::print_secret_bytes(out);
    }
}


impl Drop for Key {
    /// Relies on `zeroize::Zeroize` for byte vectors: a discarded secret
    /// has its buffer overwritten with zeros before it is freed.
    #[verifier::external_body]
    fn drop(&mut self)
        opens_invariants none
        no_unwind
    {
        zeroize::Zeroize::zeroize(&mut self.bytes);
    }
}

} // verus!
