//! Envelopes: an encrypted payload addressed from one entity to another,
//! sealed under the sender's own key.

use vstd::prelude::*;

use crate::buffer::{Reader, Writer};
use crate::encryptable::{Encrypted, EncryptedView};
use crate::entity::{Entity, EntityView};
use crate::error::Error;
use crate::serial::Serializable;
use crate::signable::Signable;
use crate::uuid::{Typed, UUID};

verus! {

/// An encrypted payload carried from a sender to a recipient. The declared
/// signer is the sender's public key.
#[derive(Clone, Debug, PartialEq)]
pub struct Envelope {
    pub sender: Entity,
    pub recipient: Entity,
    pub payload: Encrypted,
}

/// The abstract value of an `Envelope`.
#[verifier::ext_equal]
pub struct EnvelopeView {
    pub sender: EntityView,
    pub recipient: EntityView,
    pub payload: EncryptedView,
}

impl DeepView for Envelope {
    type V = EnvelopeView;

    open spec fn deep_view(&self) -> EnvelopeView {
        EnvelopeView {
            sender: self.sender.deep_view(),
            recipient: self.recipient.deep_view(),
            payload: self.payload.deep_view(),
        }
    }
}

impl Typed for Envelope {
    open spec fn type_uuid_spec() -> Seq<u8> {
        crate::constants::envelope_type_spec()
    }

    proof fn lemma_type_uuid_len() {
    }

    fn type_uuid() -> (u: UUID) {
        crate::constants::envelope_type()
    }
}

impl Signable for Envelope {
    open spec fn signer_spec(m: EnvelopeView) -> Seq<u8> {
        m.sender.public_key
    }

    fn signer(&self) -> (r: crate::sig::PublicKey) {
        crate::sig::PublicKey { bytes: crate::util::copy_bytes(&self.sender.public_key.bytes) }
    }
}

impl Serializable for Envelope {
    open spec fn encodable(m: EnvelopeView) -> bool {
        &&& Entity::encodable(m.sender)
        &&& Entity::encodable(m.recipient)
        &&& Encrypted::encodable(m.payload)
    }

    open spec fn encode(m: EnvelopeView) -> Seq<u8> {
        Entity::encode(m.sender) + Entity::encode(m.recipient) + Encrypted::encode(m.payload)
    }

    open spec fn decode(input: Seq<u8>) -> Option<(EnvelopeView, int)> {
        match Entity::decode(input) {
            Some((sender, n1)) => match Entity::decode(input.skip(n1)) {
                Some((recipient, n2)) => match Encrypted::decode(input.skip(n1 + n2)) {
                    Some((payload, n3)) => Some(
                        (EnvelopeView { sender, recipient, payload }, n1 + n2 + n3),
                    ),
                    None => None,
                },
                None => None,
            },
            None => None,
        }
    }

    open spec fn scan(input: Seq<u8>) -> Option<int> {
        match Entity::scan(input) {
            Some(n1) => match Entity::scan(input.skip(n1)) {
                Some(n2) => match Encrypted::scan(input.skip(n1 + n2)) {
                    Some(n3) => Some(n1 + n2 + n3),
                    None => None,
                },
                None => None,
            },
            None => None,
        }
    }

    proof fn lemma_encode_decode(m: EnvelopeView, rest: Seq<u8>) {
        let a = Entity::encode(m.sender);
        let b = Entity::encode(m.recipient);
        let c = Encrypted::encode(m.payload);
        let whole = Self::encode(m) + rest;
        assert(whole =~= a + (b + (c + rest)));
        Entity::lemma_encode_decode(m.sender, b + (c + rest));
        assert(whole.skip(a.len() as int) =~= b + (c + rest));
        Entity::lemma_encode_decode(m.recipient, c + rest);
        assert(whole.skip(a.len() as int).skip(b.len() as int) =~= c + rest);
        assert(whole.skip(a.len() + b.len() as int) =~= c + rest);
        Encrypted::lemma_encode_decode(m.payload, rest);
        if let Some((got, n)) = Self::decode(whole) {
            assert(got =~= m);
        }
    }

    proof fn lemma_decode_sound(input: Seq<u8>) {
        Entity::lemma_decode_sound(input);
        if let Some((sender, n1)) = Entity::decode(input) {
            Entity::lemma_decode_sound(input.skip(n1));
            if let Some((recipient, n2)) = Entity::decode(input.skip(n1)) {
                Encrypted::lemma_decode_sound(input.skip(n1 + n2));
                if let Some((payload, n3)) = Encrypted::decode(input.skip(n1 + n2)) {
                    assert(input.skip(n1).len() == input.len() - n1);
                    assert(input.skip(n1 + n2).len() == input.len() - n1 - n2);
                }
            }
        }
    }

    proof fn lemma_scan_sound(input: Seq<u8>) {
        Entity::lemma_scan_sound(input);
        Entity::lemma_decode_sound(input);
        if let Some((sender, n1)) = Entity::decode(input) {
            Entity::lemma_scan_sound(input.skip(n1));
            Entity::lemma_decode_sound(input.skip(n1));
            if let Some((recipient, n2)) = Entity::decode(input.skip(n1)) {
                Encrypted::lemma_scan_sound(input.skip(n1 + n2));
                Encrypted::lemma_decode_sound(input.skip(n1 + n2));
            }
        }
        if let Some(n1) = Entity::scan(input) {
            Entity::lemma_scan_sound(input.skip(n1));
            if let Some(n2) = Entity::scan(input.skip(n1)) {
                Encrypted::lemma_scan_sound(input.skip(n1 + n2));
            }
        }
    }

    fn wire_size(&self) -> (n: usize) {
        let a = self.sender.wire_size();
        let b = self.recipient.wire_size();
        let c = self.payload.wire_size();
        a + b + c
    }

    fn wire_write(&self, out: &mut Writer) {
        self.sender.wire_write(out);
        self.recipient.wire_write(out);
        self.payload.wire_write(out);
        proof {
            assert(final(out)@ =~= old(out)@ + Self::encode(self.deep_view()));
        }
    }

    fn wire_read(input: &mut Reader) -> (r: Result<Self, Error>) {
        let ghost rem0 = old(input).remaining_spec();
        let sender = match Entity::wire_read(input) {
            Ok(v) => v,
            Err(e) => {
                return Err(e);
            },
        };
        let ghost n1 = input.pos_spec() - old(input).pos_spec();
        proof {
            assert(input.remaining_spec() =~= rem0.skip(n1));
        }
        let ghost pos1 = input.pos_spec();
        let recipient = match Entity::wire_read(input) {
            Ok(v) => v,
            Err(e) => {
                return Err(e);
            },
        };
        let ghost n2 = input.pos_spec() - pos1;
        proof {
            assert(input.remaining_spec() =~= rem0.skip(n1 + n2));
        }
        let payload = match Encrypted::wire_read(input) {
            Ok(v) => v,
            Err(e) => {
                return Err(e);
            },
        };
        let result = Envelope { sender, recipient, payload };
        proof {
            if let Some((got, n)) = Self::decode(rem0) {
                assert(got =~= result.deep_view());
            }
        }
        Ok(result)
    }

    fn wire_skip(input: &mut Reader) -> (r: Result<(), Error>) {
        let ghost rem0 = old(input).remaining_spec();
        match Entity::wire_skip(input) {
            Ok(_) => (),
            Err(e) => {
                return Err(e);
            },
        }
        let ghost n1 = input.pos_spec() - old(input).pos_spec();
        proof {
            assert(input.remaining_spec() =~= rem0.skip(n1));
        }
        let ghost pos1 = input.pos_spec();
        match Entity::wire_skip(input) {
            Ok(_) => (),
            Err(e) => {
                return Err(e);
            },
        }
        let ghost n2 = input.pos_spec() - pos1;
        proof {
            assert(input.remaining_spec() =~= rem0.skip(n1 + n2));
        }
        match Encrypted::wire_skip(input) {
            Ok(_) => (),
            Err(e) => {
                return Err(e);
            },
        }
        Ok(())
    }
}

} // verus!
