//! Principals: an entity is a type code paired with a signing public key.

use vstd::prelude::*;

use crate::bigend::{be_bytes, be_val, lemma_be_bytes_len, lemma_be_roundtrip, lemma_be_val_bound,
    lemma_pow256_table, read_be, write_be};
use crate::buffer::{Reader, Writer};
use crate::error::Error;
use crate::serial::Serializable;
use crate::sig::PublicKey;
use crate::util;

verus! {

/// The kind of principal an entity is.
#[derive(Clone, Copy, Debug, PartialEq, Eq, Structural, Hash)]
pub enum EntityType {
    Endpoint,
    Node,
    Zone,
}

/// The wire code of an entity type.
pub open spec fn entity_type_code(m: EntityType) -> nat {
    match m {
        EntityType::Endpoint => 0,
        EntityType::Node => 1,
        EntityType::Zone => 2,
    }
}

/// The entity type a wire code names, if any.
pub open spec fn entity_type_from_code(code: nat) -> Option<EntityType> {
    if code == 0 {
        Some(EntityType::Endpoint)
    } else if code == 1 {
        Some(EntityType::Node)
    } else if code == 2 {
        Some(EntityType::Zone)
    } else {
        None
    }
}

impl DeepView for EntityType {
    type V = EntityType;

    open spec fn deep_view(&self) -> EntityType {
        *self
    }
}

impl EntityType {
    /// The entity type a wire code names; unknown codes are a wire error.
    pub fn from_code(code: u16) -> (r: Result<Self, Error>)
        ensures
            match r {
                Ok(t) => entity_type_from_code(code as nat) == Some(t),
                Err(_) => entity_type_from_code(code as nat) is None,
            },
    {
        if code == 0 {
            Ok(EntityType::Endpoint)
        } else if code == 1 {
            Ok(EntityType::Node)
        } else if code == 2 {
            Ok(EntityType::Zone)
        } else {
            Err(Error)
        }
    }

    /// This entity type's wire code.
    pub fn code(self) -> (r: u16)
        ensures
            r as nat == entity_type_code(self),
    {
        match self {
            EntityType::Endpoint => 0,
            EntityType::Node => 1,
            EntityType::Zone => 2,
        }
    }

    /// This entity type's display name.
    pub fn name(self) -> &'static str {
        match self {
            EntityType::Endpoint => "Endpoint",
            EntityType::Node => "Node",
            EntityType::Zone => "Zone",
        }
    }
}

impl Serializable for EntityType {
    open spec fn encodable(m: EntityType) -> bool {
        true
    }

    open spec fn encode(m: EntityType) -> Seq<u8> {
        be_bytes(entity_type_code(m), 2)
    }

    open spec fn decode(input: Seq<u8>) -> Option<(EntityType, int)> {
        if input.len() >= 2 {
            match entity_type_from_code(be_val(input.take(2))) {
                Some(t) => Some((t, 2)),
                None => None,
            }
        } else {
            None
        }
    }

    open spec fn scan(input: Seq<u8>) -> Option<int> {
        if input.len() >= 2 {
            Some(2)
        } else {
            None
        }
    }

    proof fn lemma_encode_decode(m: EntityType, rest: Seq<u8>) {
        lemma_pow256_table();
        lemma_be_bytes_len(entity_type_code(m), 2);
        lemma_be_roundtrip(entity_type_code(m), 2);
        assert((Self::encode(m) + rest).take(2) =~= Self::encode(m));
    }

    proof fn lemma_decode_sound(input: Seq<u8>) {
        if input.len() >= 2 {
            if let Some(t) = entity_type_from_code(be_val(input.take(2))) {
                lemma_be_bytes_len(entity_type_code(t), 2);
            }
        }
    }

    proof fn lemma_scan_sound(input: Seq<u8>) {
    }

    fn wire_size(&self) -> (n: usize) {
        proof {
            lemma_be_bytes_len(entity_type_code(*self), 2);
        }
        2
    }

    fn wire_write(&self, out: &mut Writer) {
        let code = self.code();
        write_be(out, code as u128, 2);
    }

    fn wire_read(input: &mut Reader) -> (r: Result<Self, Error>) {
        let n = input.remaining_len();
        if n < 2 {
            return Err(Error);
        }
        let ghost rem0 = input.remaining_spec();
        let code = read_be(input, 2);
        proof {
            lemma_be_val_bound(rem0.take(2));
            lemma_pow256_table();
        }
        EntityType::from_code(code as u16)
    }

    fn wire_skip(input: &mut Reader) -> (r: Result<(), Error>) {
        util::fixed_skip(input, 2)
    }
}

/// A principal: its kind and its signing public key.
#[derive(Clone, Debug)]
pub struct Entity {
    pub entity_type: EntityType,
    pub public_key: PublicKey,
}

/// The abstract value of an `Entity`.
#[verifier::ext_equal]
pub struct EntityView {
    pub entity_type: EntityType,
    pub public_key: Seq<u8>,
}

impl DeepView for Entity {
    type V = EntityView;

    open spec fn deep_view(&self) -> EntityView {
        EntityView { entity_type: self.entity_type, public_key: self.public_key.deep_view() }
    }
}

impl Entity {
    /// The key is exactly 32 bytes.
    pub open spec fn wf(&self) -> bool {
        Self::encodable(self.deep_view())
    }
}

impl PartialEq for Entity {
    /// Field equality; the key comparison is constant-time.
    fn eq(&self, other: &Self) -> (r: bool) {
        self.entity_type == other.entity_type && util::eq(
            &self.public_key.bytes,
            &other.public_key.bytes,
        )
    }
}

impl vstd::std_specs::cmp::PartialEqSpecImpl for Entity {
    open spec fn obeys_eq_spec() -> bool {
        true
    }

    open spec fn eq_spec(&self, other: &Entity) -> bool {
        self.entity_type == other.entity_type && self.public_key.bytes@ == other.public_key.bytes@
    }
}

impl Serializable for Entity {
    open spec fn encodable(m: EntityView) -> bool {
        m.public_key.len() == 32
    }

    open spec fn encode(m: EntityView) -> Seq<u8> {
        EntityType::encode(m.entity_type) + m.public_key
    }

    open spec fn decode(input: Seq<u8>) -> Option<(EntityView, int)> {
        match EntityType::decode(input) {
            Some((t, n)) => {
                let rest = input.skip(n);
                if rest.len() >= 32 {
                    Some((EntityView { entity_type: t, public_key: rest.take(32) }, n + 32))
                } else {
                    None
                }
            },
            None => None,
        }
    }

    open spec fn scan(input: Seq<u8>) -> Option<int> {
        if input.len() >= 34 {
            Some(34)
        } else {
            None
        }
    }

    proof fn lemma_encode_decode(m: EntityView, rest: Seq<u8>) {
        let head = EntityType::encode(m.entity_type);
        let whole = Self::encode(m) + rest;
        assert(whole =~= head + (m.public_key + rest));
        EntityType::lemma_encode_decode(m.entity_type, m.public_key + rest);
        EntityType::lemma_decode_sound(whole);
        assert(whole.skip(head.len() as int) =~= m.public_key + rest);
        assert((m.public_key + rest).take(32) =~= m.public_key);
        if let Some((got, n)) = Self::decode(whole) {
            assert(got =~= m);
        }
    }

    proof fn lemma_decode_sound(input: Seq<u8>) {
        EntityType::lemma_decode_sound(input);
    }

    proof fn lemma_scan_sound(input: Seq<u8>) {
        Self::lemma_decode_sound(input);
    }

    fn wire_size(&self) -> (n: usize) {
        proof {
            lemma_be_bytes_len(entity_type_code(self.entity_type), 2);
        }
        34
    }

    fn wire_write(&self, out: &mut Writer) {
        self.entity_type.wire_write(out);
        util::fixed_write(out, &self.public_key.bytes);
        proof {
            assert(final(out)@ =~= old(out)@ + Self::encode(self.deep_view()));
        }
    }

    fn wire_read(input: &mut Reader) -> (r: Result<Self, Error>) {
        let ghost rem0 = old(input).remaining_spec();
        let entity_type = match EntityType::wire_read(input) {
            Ok(t) => t,
            Err(e) => {
                return Err(e);
            },
        };
        let ghost n1 = input.pos_spec() - old(input).pos_spec();
        proof {
            assert(input.remaining_spec() =~= rem0.skip(n1));
        }
        let raw = match util::fixed_read(input, 32) {
            Ok(v) => v,
            Err(e) => {
                return Err(e);
            },
        };
        let result = Entity { entity_type, public_key: PublicKey { bytes: raw } };
        proof {
            if let Some((got, n)) = Self::decode(rem0) {
                assert(got =~= result.deep_view());
            }
        }
        Ok(result)
    }

    fn wire_skip(input: &mut Reader) -> (r: Result<(), Error>) {
        let ghost rem0 = old(input).remaining_spec();
        match EntityType::wire_skip(input) {
            Ok(_) => (),
            Err(e) => {
                return Err(e);
            },
        }
        proof {
            assert(input.remaining_spec() =~= rem0.skip(2));
        }
        match util::fixed_skip(input, 32) {
            Ok(_) => (),
            Err(e) => {
                proof {
                    if let Some((t, n)) = EntityType::decode(rem0) {
                    }
                }
                return Err(e);
            },
        }
        Ok(())
    }
}

} // verus!
