//! Typed signatures. The signed bytes are the payload's encoding prefixed
//! with its type UUID and the signer's public key, and unsealing re-derives
//! the signer from the decoded payload, so that a valid payload cannot be
//! paired with a different signer.

use vstd::prelude::*;

use crate::buffer::{Reader, Writer};
use crate::error::Error;
use crate::serial::{decode_exact, Serializable};
use crate::sig::{ed25519_public_of, ed25519_signature_of, ed25519_verifies, PrivateKey, PublicKey,
    Signature};
use crate::util;
use crate::uuid::Typed;

verus! {

/// A signed payload: the signer's public key, the payload's encoded bytes,
/// and the signature over the prefixed composite.
#[derive(Clone, Debug, PartialEq)]
pub struct Signed {
    pub signer: PublicKey,
    pub payload: Vec<u8>,
    pub signature: Signature,
}

/// The abstract value of a `Signed`.
#[verifier::ext_equal]
pub struct SignedView {
    pub signer: Seq<u8>,
    pub payload: Seq<u8>,
    pub signature: Seq<u8>,
}

impl DeepView for Signed {
    type V = SignedView;

    open spec fn deep_view(&self) -> SignedView {
        SignedView {
            signer: self.signer.deep_view(),
            payload: self.payload@,
            signature: self.signature.deep_view(),
        }
    }
}

impl Signed {
    /// Exact key and signature lengths, and a payload the length prefix can
    /// carry.
    pub open spec fn wf(&self) -> bool {
        Self::encodable(self.deep_view())
    }
}

impl Serializable for Signed {
    open spec fn encodable(m: SignedView) -> bool {
        &&& m.signer.len() == 32
        &&& m.payload.len() <= u32::MAX
        &&& m.signature.len() == 64
    }

    open spec fn encode(m: SignedView) -> Seq<u8> {
        m.signer + util::varlen_encode(m.payload) + m.signature
    }

    open spec fn decode(input: Seq<u8>) -> Option<(SignedView, int)> {
        if input.len() >= 32 {
            let signer = input.take(32);
            match util::varlen_decode(input.skip(32)) {
                Some((payload, n)) => {
                    let rest = input.skip(32 + n);
                    if rest.len() >= 64 {
                        Some((SignedView { signer, payload, signature: rest.take(64) }, 32 + n + 64))
                    } else {
                        None
                    }
                },
                None => None,
            }
        } else {
            None
        }
    }

    open spec fn scan(input: Seq<u8>) -> Option<int> {
        match Self::decode(input) {
            Some((m, n)) => Some(n),
            None => None,
        }
    }

    proof fn lemma_encode_decode(m: SignedView, rest: Seq<u8>) {
        crate::bigend::lemma_be_bytes_len(m.payload.len(), 4);
        let vl = util::varlen_encode(m.payload);
        let whole = Self::encode(m) + rest;
        assert(whole.take(32) =~= m.signer);
        assert(whole.skip(32) =~= vl + (m.signature + rest));
        util::lemma_varlen_round_trip(m.payload, m.signature + rest);
        assert(whole.skip(32 + vl.len() as int) =~= m.signature + rest);
        assert((m.signature + rest).take(64) =~= m.signature);
        if let Some((got, n)) = Self::decode(whole) {
            assert(got =~= m);
        }
    }

    proof fn lemma_decode_sound(input: Seq<u8>) {
        if input.len() >= 32 {
            util::lemma_varlen_decode_sound(input.skip(32));
            if let Some((payload, n)) = util::varlen_decode(input.skip(32)) {
                crate::bigend::lemma_be_bytes_len(payload.len(), 4);
            }
        }
    }

    proof fn lemma_scan_sound(input: Seq<u8>) {
        Self::lemma_decode_sound(input);
    }

    fn wire_size(&self) -> (n: usize) {
        proof {
            crate::bigend::lemma_be_bytes_len(self.payload@.len(), 4);
        }
        let mid = util::varlen_wire_size(self.payload.len());
        32 + mid + 64
    }

    fn wire_write(&self, out: &mut Writer) {
        proof {
            crate::bigend::lemma_be_bytes_len(self.payload@.len(), 4);
        }
        self.signer.wire_write(out);
        util::varlen_write(out, &self.payload);
        self.signature.wire_write(out);
        proof {
            assert(final(out)@ =~= old(out)@ + Self::encode(self.deep_view()));
        }
    }

    fn wire_read(input: &mut Reader) -> (r: Result<Self, Error>) {
        let ghost rem0 = old(input).remaining_spec();
        let signer = match PublicKey::wire_read(input) {
            Ok(v) => v,
            Err(e) => {
                return Err(e);
            },
        };
        proof {
            assert(input.remaining_spec() =~= rem0.skip(32));
        }
        let ghost pos1 = input.pos_spec();
        let payload = match util::varlen_read(input) {
            Ok(v) => v,
            Err(e) => {
                return Err(e);
            },
        };
        let ghost n1 = input.pos_spec() - pos1;
        proof {
            assert(input.remaining_spec() =~= rem0.skip(32 + n1));
        }
        let signature = match Signature::wire_read(input) {
            Ok(v) => v,
            Err(e) => {
                return Err(e);
            },
        };
        let result = Signed { signer, payload, signature };
        proof {
            if let Some((got, n)) = Self::decode(rem0) {
                assert(got =~= result.deep_view());
            }
        }
        Ok(result)
    }

    fn wire_skip(input: &mut Reader) -> (r: Result<(), Error>) {
        let ghost rem0 = old(input).remaining_spec();
        match util::fixed_skip(input, 32) {
            Ok(_) => (),
            Err(e) => {
                return Err(e);
            },
        }
        proof {
            assert(input.remaining_spec() =~= rem0.skip(32));
        }
        let ghost pos1 = input.pos_spec();
        match util::varlen_skip(input) {
            Ok(_) => (),
            Err(e) => {
                return Err(e);
            },
        }
        let ghost n1 = input.pos_spec() - pos1;
        proof {
            assert(input.remaining_spec() =~= rem0.skip(32 + n1));
        }
        match util::fixed_skip(input, 64) {
            Ok(_) => (),
            Err(e) => {
                return Err(e);
            },
        }
        proof {
            util::lemma_varlen_decode_sound(rem0.skip(32));
        }
        Ok(())
    }
}

/// A payload that can be sealed under its declared signer.
pub trait Signable: Typed + Serializable {
    /// The signer this payload declares, for specifications.
    spec fn signer_spec(m: Self::V) -> Seq<u8>;

    /// The signer this payload declares.
    fn signer(&self) -> (r: PublicKey)
        requires
            Self::encodable(self.deep_view()),
        ensures
            r.wf(),
            r.deep_view() == Self::signer_spec(self.deep_view()),
    ;
}

/// The bytes actually signed: the payload's type UUID, the signer's public
/// key, then the payload's encoding.
pub open spec fn prepared_spec<T: Signable>(signer: Seq<u8>, payload: Seq<u8>) -> Seq<u8> {
    T::type_uuid_spec() + signer + payload
}

/// Builds the signed composite for one payload.
fn prepare_payload<T: Signable>(signer: &PublicKey, payload: &Vec<u8>) -> (r: Vec<u8>)
    ensures
        r@ == prepared_spec::<T>(signer.deep_view(), payload@),
{
    let mut out = Writer::new();
    let uuid = T::type_uuid();
    uuid.wire_write(&mut out);
    util::fixed_write(&mut out, &signer.bytes);
    util::fixed_write(&mut out, payload);
    let done = out.into_vec();
    proof {
        assert(done@ =~= prepared_spec::<T>(signer.deep_view(), payload@));
    }
    done
}

/// The value unsealing accepts from a stored signer, payload and signature:
/// the payload's decoded value, provided the signature verifies over the
/// prepared composite and the decoded value declares exactly the stored
/// signer.
pub open spec fn unsealable_spec<T: Signable>(
    signer: Seq<u8>,
    payload: Seq<u8>,
    signature: Seq<u8>,
) -> Option<T::V> {
    if ed25519_verifies(signer, prepared_spec::<T>(signer, payload), signature) {
        match decode_exact::<T>(payload) {
            Some(m) => if T::signer_spec(m) == signer {
                Some(m)
            } else {
                None
            },
            None => None,
        }
    } else {
        None
    }
}

/// Typed sealing: serializes the payload, prefixes its type UUID and the
/// signer, and signs the composite. Succeeds exactly when the signing key's
/// own public key is the signer the payload declares; the signature then
/// verifies under that signer.
pub fn seal<T: Signable>(value: &T, key: &PrivateKey) -> (r: Result<Signed, Error>)
    requires
        key.wf(),
        T::encodable(value.deep_view()),
        T::encode(value.deep_view()).len() <= u32::MAX,
    ensures
        match r {
            Ok(s) => {
                &&& ed25519_public_of(key.deep_view()) == T::signer_spec(value.deep_view())
                &&& s.wf()
                &&& s.signer.deep_view() == T::signer_spec(value.deep_view())
                &&& s.payload@ == T::encode(value.deep_view())
                &&& s.signature.deep_view() == ed25519_signature_of(
                    key.deep_view(),
                    prepared_spec::<T>(s.signer.deep_view(), s.payload@),
                )
                &&& unsealable_spec::<T>(s.signer.deep_view(), s.payload@, s.signature.deep_view())
                    == Some(value.deep_view())
            },
            Err(_) => ed25519_public_of(key.deep_view()) != T::signer_spec(value.deep_view()),
        },
{
    let signer = key.public_key();
    let declared = value.signer();
    if !(signer == declared) {
        return Err(Error);
    }
    let payload = util::serialize(value);
    let prepared = prepare_payload::<T>(&signer, &payload);
    let signature = key.sign(&prepared);
    let result = Signed { signer, payload, signature };
    proof {
        T::lemma_encode_decode(value.deep_view(), Seq::empty());
        assert(T::encode(value.deep_view()) + Seq::<u8>::empty() =~= T::encode(value.deep_view()));
    }
    Ok(result)
}

/// Round trip of typed sealing: whenever a signature verifies under its own
/// signer (which the signing primitive guarantees of every signature it
/// produces), unsealing what sealing built from a payload accepts exactly
/// that payload.
pub proof fn lemma_seal_unseal_round_trip<T: Signable>(key: Seq<u8>, m: T::V)
    requires
        T::encodable(m),
        ed25519_public_of(key) == T::signer_spec(m),
        ed25519_verifies(
            T::signer_spec(m),
            prepared_spec::<T>(T::signer_spec(m), T::encode(m)),
            ed25519_signature_of(key, prepared_spec::<T>(T::signer_spec(m), T::encode(m))),
        ),
    ensures
        unsealable_spec::<T>(
            T::signer_spec(m),
            T::encode(m),
            ed25519_signature_of(key, prepared_spec::<T>(T::signer_spec(m), T::encode(m))),
        ) == Some(m),
{
    crate::serial::lemma_round_trip::<T>(m);
}

/// Typed unsealing: rebuilds the signed composite from the stored signer,
/// verifies the signature, deserializes the payload requiring zero trailing
/// bytes, and requires the decoded value to declare exactly the stored
/// signer. Succeeds exactly on those conditions.
pub fn unseal<T: Signable>(signed: &Signed) -> (r: Result<T, Error>)
    requires
        signed.wf(),
    ensures
        match r {
            Ok(v) => unsealable_spec::<T>(
                signed.signer.deep_view(),
                signed.payload@,
                signed.signature.deep_view(),
            ) == Some(v.deep_view()),
            Err(_) => unsealable_spec::<T>(
                signed.signer.deep_view(),
                signed.payload@,
                signed.signature.deep_view(),
            ) is None,
        },
{
    let prepared = prepare_payload::<T>(&signed.signer, &signed.payload);
    match signed.signer.verify(&prepared, &signed.signature) {
        Ok(_) => (),
        Err(e) => {
            return Err(e);
        },
    }
    let payload_copy = util::copy_bytes(&signed.payload);
    let value = match util::deserialize::<T>(payload_copy) {
        Ok(v) => v,
        Err(e) => {
            return Err(e);
        },
    };
    proof {
        T::lemma_decode_sound(signed.payload@);
    }
    let declared = value.signer();
    if declared == signed.signer {
        Ok(value)
    } else {
        Err(Error)
    }
}


impl crate::printable::Printable for Signed {
    open spec fn print_spec(&self) -> Seq<u8> {
        crate::printable::lit("<") + crate::printable::dec_bytes(self.payload@.len())
            + crate::printable::lit(" bytes of signed data>")
    }

    fn print(&self, out: &mut Vec<u8>) {
        crate::printable::push_lit(out, "<");
        let n = self.payload.len();
        crate::printable::push_dec(out, n as u64);
        crate::printable::push_lit(out, " bytes of signed data>");
        proof {
            assert(final(out)@ =~= old(out)@ + self.print_spec());
        }
    }
}

} // verus!
