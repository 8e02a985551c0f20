//! Typed authenticated encryption. A payload's type UUID, the nonce and any
//! caller-supplied extra context are bound into the associated data, so that
//! ciphertext produced for one payload type or context cannot authenticate
//! another.

use vstd::prelude::*;

use crate::buffer::{Reader, Writer};
use crate::cipher::{aead_cipher_of, aead_plain_of, aead_tag_of, Key, Nonce, Tag};
use crate::error::Error;
use crate::serial::{decode_exact, Serializable};
use crate::util;
use crate::uuid::Typed;

verus! {

/// The result of typed encryption: the nonce used, the ciphertext, and the
/// authentication tag.
#[derive(Clone, Debug, PartialEq)]
pub struct Encrypted {
    pub nonce: Nonce,
    pub ciphertext: Vec<u8>,
    pub tag: Tag,
}

/// The abstract value of an `Encrypted`.
#[verifier::ext_equal]
pub struct EncryptedView {
    pub nonce: Seq<u8>,
    pub ciphertext: Seq<u8>,
    pub tag: Seq<u8>,
}

impl DeepView for Encrypted {
    type V = EncryptedView;

    open spec fn deep_view(&self) -> EncryptedView {
        EncryptedView { nonce: self.nonce.deep_view(), ciphertext: self.ciphertext@, tag: self.tag.deep_view() }
    }
}

impl Encrypted {
    /// Exact nonce and tag lengths, and a ciphertext the length prefix can
    /// carry.
    pub open spec fn wf(&self) -> bool {
        Self::encodable(self.deep_view())
    }
}

impl Serializable for Encrypted {
    open spec fn encodable(m: EncryptedView) -> bool {
        &&& m.nonce.len() == 24
        &&& m.ciphertext.len() <= u32::MAX
        &&& m.tag.len() == 16
    }

    open spec fn encode(m: EncryptedView) -> Seq<u8> {
        m.nonce + util::varlen_encode(m.ciphertext) + m.tag
    }

    open spec fn decode(input: Seq<u8>) -> Option<(EncryptedView, int)> {
        if input.len() >= 24 {
            let nonce = input.take(24);
            match util::varlen_decode(input.skip(24)) {
                Some((ciphertext, n)) => {
                    let rest = input.skip(24 + n);
                    if rest.len() >= 16 {
                        Some(
                            (
                                EncryptedView { nonce, ciphertext, tag: rest.take(16) },
                                24 + n + 16,
                            ),
                        )
                    } else {
                        None
                    }
                },
                None => None,
            }
        } else {
            None
        }
    }

    open spec fn scan(input: Seq<u8>) -> Option<int> {
        match Self::decode(input) {
            Some((m, n)) => Some(n),
            None => None,
        }
    }

    proof fn lemma_encode_decode(m: EncryptedView, rest: Seq<u8>) {
        crate::bigend::lemma_be_bytes_len(m.ciphertext.len(), 4);
        let vl = util::varlen_encode(m.ciphertext);
        let whole = Self::encode(m) + rest;
        assert(whole.take(24) =~= m.nonce);
        assert(whole.skip(24) =~= vl + (m.tag + rest));
        util::lemma_varlen_round_trip(m.ciphertext, m.tag + rest);
        assert(whole.skip(24 + vl.len() as int) =~= m.tag + rest);
        assert((m.tag + rest).take(16) =~= m.tag);
        if let Some((got, n)) = Self::decode(whole) {
            assert(got =~= m);
        }
    }

    proof fn lemma_decode_sound(input: Seq<u8>) {
        if input.len() >= 24 {
            util::lemma_varlen_decode_sound(input.skip(24));
            if let Some((ciphertext, n)) = util::varlen_decode(input.skip(24)) {
                crate::bigend::lemma_be_bytes_len(ciphertext.len(), 4);
            }
        }
    }

    proof fn lemma_scan_sound(input: Seq<u8>) {
        Self::lemma_decode_sound(input);
    }

    fn wire_size(&self) -> (n: usize) {
        proof {
            crate::bigend::lemma_be_bytes_len(self.ciphertext@.len(), 4);
        }
        let mid = util::varlen_wire_size(self.ciphertext.len());
        24 + mid + 16
    }

    fn wire_write(&self, out: &mut Writer) {
        proof {
            crate::bigend::lemma_be_bytes_len(self.ciphertext@.len(), 4);
        }
        self.nonce.wire_write(out);
        util::varlen_write(out, &self.ciphertext);
        self.tag.wire_write(out);
        proof {
            assert(final(out)@ =~= old(out)@ + Self::encode(self.deep_view()));
        }
    }

    fn wire_read(input: &mut Reader) -> (r: Result<Self, Error>) {
        let ghost rem0 = old(input).remaining_spec();
        let nonce = match Nonce::wire_read(input) {
            Ok(v) => v,
            Err(e) => {
                return Err(e);
            },
        };
        proof {
            assert(input.remaining_spec() =~= rem0.skip(24));
        }
        let ghost pos1 = input.pos_spec();
        let ciphertext = match util::varlen_read(input) {
            Ok(v) => v,
            Err(e) => {
                return Err(e);
            },
        };
        let ghost n1 = input.pos_spec() - pos1;
        proof {
            assert(input.remaining_spec() =~= rem0.skip(24 + n1));
        }
        let tag = match Tag::wire_read(input) {
            Ok(v) => v,
            Err(e) => {
                return Err(e);
            },
        };
        let result = Encrypted { nonce, ciphertext, tag };
        proof {
            if let Some((got, n)) = Self::decode(rem0) {
                assert(got =~= result.deep_view());
            }
        }
        Ok(result)
    }

    fn wire_skip(input: &mut Reader) -> (r: Result<(), Error>) {
        let ghost rem0 = old(input).remaining_spec();
        match util::fixed_skip(input, 24) {
            Ok(_) => (),
            Err(e) => {
                return Err(e);
            },
        }
        proof {
            assert(input.remaining_spec() =~= rem0.skip(24));
        }
        let ghost pos1 = input.pos_spec();
        match util::varlen_skip(input) {
            Ok(_) => (),
            Err(e) => {
                return Err(e);
            },
        }
        let ghost n1 = input.pos_spec() - pos1;
        proof {
            assert(input.remaining_spec() =~= rem0.skip(24 + n1));
        }
        match util::fixed_skip(input, 16) {
            Ok(_) => (),
            Err(e) => {
                return Err(e);
            },
        }
        proof {
            util::lemma_varlen_decode_sound(rem0.skip(24));
        }
        Ok(())
    }
}

/// A payload that can be encrypted under its own type UUID.
pub trait Encryptable: Typed + Serializable {

}

/// The associated data bound into every typed encryption: the payload's type
/// UUID, then the nonce, then the caller's extra context.
pub open spec fn associated_spec<T: Encryptable, S: Serializable>(
    nonce: Seq<u8>,
    extra: S::V,
) -> Seq<u8> {
    T::type_uuid_spec() + nonce + S::encode(extra)
}

/// Builds the associated data for one typed encryption.
fn prepare_associated<T: Encryptable, S: Serializable>(nonce: &Nonce, extra: &S) -> (r: Vec<u8>)
    requires
        nonce.wf(),
        S::encodable(extra.deep_view()),
    ensures
        r@ == associated_spec::<T, S>(nonce.deep_view(), extra.deep_view()),
{
    let mut out = Writer::new();
    let uuid = T::type_uuid();
    uuid.wire_write(&mut out);
    nonce.wire_write(&mut out);
    extra.wire_write(&mut out);
    proof {
        assert(out@ =~= associated_spec::<T, S>(nonce.deep_view(), extra.deep_view()));
    }
    out.into_vec()
}

/// Typed encryption: serializes the payload, encrypts it in place under the
/// key and nonce, and binds the payload's type UUID, the nonce and the
/// caller's extra context into the authentication tag.
pub fn encrypt<T: Encryptable, S: Serializable>(
    value: &T,
    key: &Key,
    nonce: Nonce,
    extra: &S,
) -> (r: Encrypted)
    requires
        key.wf(),
        nonce.wf(),
        T::encodable(value.deep_view()),
        T::encode(value.deep_view()).len() <= u32::MAX,
        S::encodable(extra.deep_view()),
    ensures
        r.wf(),
        r.nonce.deep_view() == nonce.deep_view(),
        r.ciphertext@ == aead_cipher_of(
            key.deep_view(),
            nonce.deep_view(),
            T::encode(value.deep_view()),
        ),
        aead_plain_of(key.deep_view(), nonce.deep_view(), r.ciphertext@) == T::encode(
            value.deep_view(),
        ),
        r.tag.deep_view() == aead_tag_of(
            key.deep_view(),
            nonce.deep_view(),
            associated_spec::<T, S>(nonce.deep_view(), extra.deep_view()),
            T::encode(value.deep_view()),
        ),
{
    let associated = prepare_associated::<T, S>(&nonce, extra);
    let mut buffer = util::serialize(value);
    let tag = key.encrypt_in_place(&nonce, Some(&associated), &mut buffer);
    Encrypted { nonce, ciphertext: buffer, tag }
}

/// Round trip of typed encryption: whenever the cipher stream inverts (which
/// the encryption primitive guarantees of every ciphertext it produces), the
/// recovered plaintext of an encrypted payload decodes exactly back to the
/// payload, so decrypting with the same key, nonce and context returns it.
pub proof fn lemma_encrypt_decrypt_round_trip<T: Encryptable>(
    key: Seq<u8>,
    nonce: Seq<u8>,
    m: T::V,
)
    requires
        T::encodable(m),
        aead_plain_of(key, nonce, aead_cipher_of(key, nonce, T::encode(m))) == T::encode(m),
    ensures
        decode_exact::<T>(aead_plain_of(key, nonce, aead_cipher_of(key, nonce, T::encode(m))))
            == Some(m),
{
    crate::serial::lemma_round_trip::<T>(m);
}

/// Typed decryption: recomputes the associated data, verifies the tag while
/// decrypting, then deserializes the plaintext requiring zero trailing
/// bytes. Succeeds exactly when the tag authenticates the ciphertext under
/// this key, nonce and context, and the plaintext is one whole payload
/// encoding.
pub fn decrypt<T: Encryptable, S: Serializable>(encrypted: &Encrypted, key: &Key, extra: &S) -> (r:
    Result<T, Error>)
    requires
        key.wf(),
        encrypted.wf(),
        S::encodable(extra.deep_view()),
    ensures
        match r {
            Ok(v) => {
                &&& encrypted.tag.deep_view() == aead_tag_of(
                    key.deep_view(),
                    encrypted.nonce.deep_view(),
                    associated_spec::<T, S>(encrypted.nonce.deep_view(), extra.deep_view()),
                    aead_plain_of(
                        key.deep_view(),
                        encrypted.nonce.deep_view(),
                        encrypted.ciphertext@,
                    ),
                )
                &&& decode_exact::<T>(
                    aead_plain_of(
                        key.deep_view(),
                        encrypted.nonce.deep_view(),
                        encrypted.ciphertext@,
                    ),
                ) == Some(v.deep_view())
            },
            Err(_) => encrypted.tag.deep_view() != aead_tag_of(
                key.deep_view(),
                encrypted.nonce.deep_view(),
                associated_spec::<T, S>(encrypted.nonce.deep_view(), extra.deep_view()),
                aead_plain_of(key.deep_view(), encrypted.nonce.deep_view(), encrypted.ciphertext@),
            ) || decode_exact::<T>(
                aead_plain_of(key.deep_view(), encrypted.nonce.deep_view(), encrypted.ciphertext@),
            ) is None,
        },
{
    let associated = prepare_associated::<T, S>(&encrypted.nonce, extra);
    let mut buffer = util::copy_bytes(&encrypted.ciphertext);
    match key.decrypt_in_place(&encrypted.nonce, Some(&associated), &mut buffer, &encrypted.tag) {
        Ok(_) => (),
        Err(e) => {
            return Err(e);
        },
    }
    util::deserialize::<T>(buffer)
}


impl crate::printable::Printable for Encrypted {
    open spec fn print_spec(&self) -> Seq<u8> {
        crate::printable::lit("<") + crate::printable::dec_bytes(self.ciphertext@.len())
            + crate::printable::lit(" bytes of encrypted data>")
    }

    fn print(&self, out: &mut Vec<u8>) {
        crate::printable::push_lit(out, "<");
        let n = self.ciphertext.len();
        crate::printable::push_dec(out, n as u64);
        crate::printable::push_lit(out, " bytes of encrypted data>");
        proof {
            assert(final(out)@ =~= old(out)@ + self.print_spec());
        }
    }
}

} // verus!
