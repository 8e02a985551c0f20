//! Attestations: claims asserted by an entity at a point in time, sealed
//! under the attestor's own key.

use vstd::prelude::*;

use crate::buffer::{Reader, Writer};
use crate::claim::{Claim, Claims};
use crate::entity::{Entity, EntityView};
use crate::error::Error;
use crate::serial::Serializable;
use crate::signable::Signable;
use crate::time::Instant;
use crate::uuid::{Typed, UUID};

verus! {

/// A set of claims made by an attestor at a point in time. The declared
/// signer is the attestor's public key.
#[derive(Clone, Debug, PartialEq)]
pub struct Attestation {
    pub attestor: Entity,
    pub time: Instant,
    pub claims: Claims,
}

/// The abstract value of an `Attestation`.
#[verifier::ext_equal]
pub struct AttestationView {
    pub attestor: EntityView,
    pub time: Instant,
    pub claims: Seq<Claim>,
}

impl DeepView for Attestation {
    type V = AttestationView;

    open spec fn deep_view(&self) -> AttestationView {
        AttestationView {
            attestor: self.attestor.deep_view(),
            time: self.time,
            claims: self.claims.deep_view(),
        }
    }
}

impl Typed for Attestation {
    open spec fn type_uuid_spec() -> Seq<u8> {
        crate::constants::attestation_type_spec()
    }

    proof fn lemma_type_uuid_len() {
    }

    fn type_uuid() -> (u: UUID) {
        crate::constants::attestation_type()
    }
}

impl Signable for Attestation {
    open spec fn signer_spec(m: AttestationView) -> Seq<u8> {
        m.attestor.public_key
    }

    fn signer(&self) -> (r: crate::sig::PublicKey) {
        crate::sig::PublicKey { bytes: crate::util::copy_bytes(&self.attestor.public_key.bytes) }
    }
}

impl Serializable for Attestation {
    open spec fn encodable(m: AttestationView) -> bool {
        &&& Entity::encodable(m.attestor)
        &&& Claims::encodable(m.claims)
    }

    open spec fn encode(m: AttestationView) -> Seq<u8> {
        Entity::encode(m.attestor) + Instant::encode(m.time) + Claims::encode(m.claims)
    }

    open spec fn decode(input: Seq<u8>) -> Option<(AttestationView, int)> {
        match Entity::decode(input) {
            Some((attestor, n1)) => match Instant::decode(input.skip(n1)) {
                Some((time, n2)) => match Claims::decode(input.skip(n1 + n2)) {
                    Some((claims, n3)) => Some(
                        (AttestationView { attestor, time, claims }, n1 + n2 + n3),
                    ),
                    None => None,
                },
                None => None,
            },
            None => None,
        }
    }

    open spec fn scan(input: Seq<u8>) -> Option<int> {
        match Entity::scan(input) {
            Some(n1) => match Instant::scan(input.skip(n1)) {
                Some(n2) => match Claims::scan(input.skip(n1 + n2)) {
                    Some(n3) => Some(n1 + n2 + n3),
                    None => None,
                },
                None => None,
            },
            None => None,
        }
    }

    proof fn lemma_encode_decode(m: AttestationView, rest: Seq<u8>) {
        let a = Entity::encode(m.attestor);
        let b = Instant::encode(m.time);
        let c = Claims::encode(m.claims);
        let whole = Self::encode(m) + rest;
        assert(whole =~= a + (b + (c + rest)));
        Entity::lemma_encode_decode(m.attestor, b + (c + rest));
        assert(whole.skip(a.len() as int) =~= b + (c + rest));
        Instant::lemma_encode_decode(m.time, c + rest);
        assert(whole.skip(a.len() as int).skip(b.len() as int) =~= c + rest);
        assert(whole.skip(a.len() + b.len() as int) =~= c + rest);
        Claims::lemma_encode_decode(m.claims, rest);
        if let Some((got, n)) = Self::decode(whole) {
            assert(got =~= m);
        }
    }

    proof fn lemma_decode_sound(input: Seq<u8>) {
        Entity::lemma_decode_sound(input);
        if let Some((attestor, n1)) = Entity::decode(input) {
            Instant::lemma_decode_sound(input.skip(n1));
            if let Some((time, n2)) = Instant::decode(input.skip(n1)) {
                Claims::lemma_decode_sound(input.skip(n1 + n2));
                if let Some((claims, n3)) = Claims::decode(input.skip(n1 + n2)) {
                    assert(input.skip(n1).len() == input.len() - n1);
                    assert(input.skip(n1 + n2).len() == input.len() - n1 - n2);
                }
            }
        }
    }

    proof fn lemma_scan_sound(input: Seq<u8>) {
        Entity::lemma_scan_sound(input);
        Entity::lemma_decode_sound(input);
        if let Some((attestor, n1)) = Entity::decode(input) {
            Instant::lemma_scan_sound(input.skip(n1));
            Instant::lemma_decode_sound(input.skip(n1));
            if let Some((time, n2)) = Instant::decode(input.skip(n1)) {
                Claims::lemma_scan_sound(input.skip(n1 + n2));
                Claims::lemma_decode_sound(input.skip(n1 + n2));
            }
        }
        if let Some(n1) = Entity::scan(input) {
            Instant::lemma_scan_sound(input.skip(n1));
            if let Some(n2) = Instant::scan(input.skip(n1)) {
                Claims::lemma_scan_sound(input.skip(n1 + n2));
            }
        }
    }

    fn wire_size(&self) -> (n: usize) {
        let a = self.attestor.wire_size();
        let b = self.time.wire_size();
        let c = self.claims.wire_size();
        a + b + c
    }

    fn wire_write(&self, out: &mut Writer) {
        self.attestor.wire_write(out);
        self.time.wire_write(out);
        self.claims.wire_write(out);
        proof {
            assert(final(out)@ =~= old(out)@ + Self::encode(self.deep_view()));
        }
    }

    fn wire_read(input: &mut Reader) -> (r: Result<Self, Error>) {
        let ghost rem0 = old(input).remaining_spec();
        let attestor = match Entity::wire_read(input) {
            Ok(v) => v,
            Err(e) => {
                return Err(e);
            },
        };
        let ghost n1 = input.pos_spec() - old(input).pos_spec();
        proof {
            assert(input.remaining_spec() =~= rem0.skip(n1));
        }
        let ghost pos1 = input.pos_spec();
        let time = match Instant::wire_read(input) {
            Ok(v) => v,
            Err(e) => {
                return Err(e);
            },
        };
        let ghost n2 = input.pos_spec() - pos1;
        proof {
            assert(input.remaining_spec() =~= rem0.skip(n1 + n2));
        }
        let claims = match Claims::wire_read(input) {
            Ok(v) => v,
            Err(e) => {
                return Err(e);
            },
        };
        let result = Attestation { attestor, time, claims };
        proof {
            if let Some((got, n)) = Self::decode(rem0) {
                assert(got =~= result.deep_view());
            }
        }
        Ok(result)
    }

    fn wire_skip(input: &mut Reader) -> (r: Result<(), Error>) {
        let ghost rem0 = old(input).remaining_spec();
        match Entity::wire_skip(input) {
            Ok(_) => (),
            Err(e) => {
                return Err(e);
            },
        }
        let ghost n1 = input.pos_spec() - old(input).pos_spec();
        proof {
            assert(input.remaining_spec() =~= rem0.skip(n1));
        }
        let ghost pos1 = input.pos_spec();
        match Instant::wire_skip(input) {
            Ok(_) => (),
            Err(e) => {
                return Err(e);
            },
        }
        let ghost n2 = input.pos_spec() - pos1;
        proof {
            assert(input.remaining_spec() =~= rem0.skip(n1 + n2));
        }
        match Claims::wire_skip(input) {
            Ok(_) => (),
            Err(e) => {
                return Err(e);
            },
        }
        Ok(())
    }
}

} // verus!
