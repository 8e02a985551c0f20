//! The constant type UUIDs that domain-separate this protocol's payloads:
//! one for each typed payload that is signed, encrypted or hashed.

use vstd::prelude::*;

use crate::uuid::UUID;

verus! {

/// The type UUID of the `Messages` container payloads, for specifications.
pub open spec fn messages_type_spec() -> Seq<u8> {
    seq![0x64u8, 0x6eu8, 0x6cu8, 0x6eu8, 0x6du8, 0x73u8, 0x67u8, 0x73u8, 0x00u8, 0x00u8, 0x00u8, 0x00u8, 0x00u8, 0x00u8, 0x00u8, 0x01u8]
}

/// The type UUID of the `Messages` container payloads.
pub fn messages_type() -> (u: UUID)
    ensures
        u.wf(),
        u.deep_view() == messages_type_spec(),
{
    let mut raw: Vec<u8> = Vec::new();
    raw.push(0x64u8);
    raw.push(0x6eu8);
    raw.push(0x6cu8);
    raw.push(0x6eu8);
    raw.push(0x6du8);
    raw.push(0x73u8);
    raw.push(0x67u8);
    raw.push(0x73u8);
    raw.push(0x00u8);
    raw.push(0x00u8);
    raw.push(0x00u8);
    raw.push(0x00u8);
    raw.push(0x00u8);
    raw.push(0x00u8);
    raw.push(0x00u8);
    raw.push(0x01u8);
    proof {
        assert(raw@ =~= messages_type_spec());
    }
    UUID { bytes: raw }
}

/// The type UUID of `Attestation` payloads, for specifications.
pub open spec fn attestation_type_spec() -> Seq<u8> {
    seq![0x64u8, 0x6eu8, 0x6cu8, 0x6eu8, 0x61u8, 0x74u8, 0x74u8, 0x73u8, 0x00u8, 0x00u8, 0x00u8, 0x00u8, 0x00u8, 0x00u8, 0x00u8, 0x02u8]
}

/// The type UUID of `Attestation` payloads.
pub fn attestation_type() -> (u: UUID)
    ensures
        u.wf(),
        u.deep_view() == attestation_type_spec(),
{
    let mut raw: Vec<u8> = Vec::new();
    raw.push(0x64u8);
    raw.push(0x6eu8);
    raw.push(0x6cu8);
    raw.push(0x6eu8);
    raw.push(0x61u8);
    raw.push(0x74u8);
    raw.push(0x74u8);
    raw.push(0x73u8);
    raw.push(0x00u8);
    raw.push(0x00u8);
    raw.push(0x00u8);
    raw.push(0x00u8);
    raw.push(0x00u8);
    raw.push(0x00u8);
    raw.push(0x00u8);
    raw.push(0x02u8);
    proof {
        assert(raw@ =~= attestation_type_spec());
    }
    UUID { bytes: raw }
}

/// The type UUID of `Envelope` payloads, for specifications.
pub open spec fn envelope_type_spec() -> Seq<u8> {
    seq![0x64u8, 0x6eu8, 0x6cu8, 0x6eu8, 0x65u8, 0x6eu8, 0x76u8, 0x6cu8, 0x00u8, 0x00u8, 0x00u8, 0x00u8, 0x00u8, 0x00u8, 0x00u8, 0x03u8]
}

/// The type UUID of `Envelope` payloads.
pub fn envelope_type() -> (u: UUID)
    ensures
        u.wf(),
        u.deep_view() == envelope_type_spec(),
{
    let mut raw: Vec<u8> = Vec::new();
    raw.push(0x64u8);
    raw.push(0x6eu8);
    raw.push(0x6cu8);
    raw.push(0x6eu8);
    raw.push(0x65u8);
    raw.push(0x6eu8);
    raw.push(0x76u8);
    raw.push(0x6cu8);
    raw.push(0x00u8);
    raw.push(0x00u8);
    raw.push(0x00u8);
    raw.push(0x00u8);
    raw.push(0x00u8);
    raw.push(0x00u8);
    raw.push(0x00u8);
    raw.push(0x03u8);
    proof {
        assert(raw@ =~= envelope_type_spec());
    }
    UUID { bytes: raw }
}

/// The type UUID of `Block` payloads, for specifications.
pub open spec fn block_type_spec() -> Seq<u8> {
    seq![0x64u8, 0x6eu8, 0x6cu8, 0x6eu8, 0x62u8, 0x6cu8, 0x6fu8, 0x6bu8, 0x00u8, 0x00u8, 0x00u8, 0x00u8, 0x00u8, 0x00u8, 0x00u8, 0x04u8]
}

/// The type UUID of `Block` payloads.
pub fn block_type() -> (u: UUID)
    ensures
        u.wf(),
        u.deep_view() == block_type_spec(),
{
    let mut raw: Vec<u8> = Vec::new();
    raw.push(0x64u8);
    raw.push(0x6eu8);
    raw.push(0x6cu8);
    raw.push(0x6eu8);
    raw.push(0x62u8);
    raw.push(0x6cu8);
    raw.push(0x6fu8);
    raw.push(0x6bu8);
    raw.push(0x00u8);
    raw.push(0x00u8);
    raw.push(0x00u8);
    raw.push(0x00u8);
    raw.push(0x00u8);
    raw.push(0x00u8);
    raw.push(0x00u8);
    raw.push(0x04u8);
    proof {
        assert(raw@ =~= block_type_spec());
    }
    UUID { bytes: raw }
}

} // verus!
