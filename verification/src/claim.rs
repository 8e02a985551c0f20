//! Claims carried by an attestation. The claim body is not yet specified:
//! a claim occupies no bytes on the wire, and a claim list is carried as its
//! count alone.

use vstd::prelude::*;

use crate::buffer::{Reader, Writer};
use crate::error::Error;
use crate::serial::Serializable;

verus! {

/// A single claim. Its content is not yet specified, so it carries no data
/// and occupies no bytes on the wire.
#[derive(Clone, Copy, Debug, PartialEq, Eq, Structural, Hash)]
pub struct Claim;

impl DeepView for Claim {
    type V = Claim;

    open spec fn deep_view(&self) -> Claim {
        *self
    }
}

impl Serializable for Claim {
    open spec fn encodable(m: Claim) -> bool {
        true
    }

    open spec fn encode(m: Claim) -> Seq<u8> {
        Seq::empty()
    }

    open spec fn decode(input: Seq<u8>) -> Option<(Claim, int)> {
        Some((Claim, 0))
    }

    open spec fn scan(input: Seq<u8>) -> Option<int> {
        Some(0)
    }

    proof fn lemma_encode_decode(m: Claim, rest: Seq<u8>) {
    }

    proof fn lemma_decode_sound(input: Seq<u8>) {
    }

    proof fn lemma_scan_sound(input: Seq<u8>) {
    }

    fn wire_size(&self) -> (n: usize) {
        0
    }

    fn wire_write(&self, out: &mut Writer) {
        proof {
            assert(old(out)@ + Seq::<u8>::empty() =~= old(out)@);
        }
    }

    fn wire_read(input: &mut Reader) -> (r: Result<Self, Error>) {
        Ok(Claim)
    }

    fn wire_skip(input: &mut Reader) -> (r: Result<(), Error>) {
        Ok(())
    }
}

/// A list of claims: on the wire, a count followed by each claim's encoding.
#[derive(Clone, Debug, PartialEq)]
pub struct Claims(pub Vec<Claim>);

impl DeepView for Claims {
    type V = Seq<Claim>;

    open spec fn deep_view(&self) -> Seq<Claim> {
        self.0.deep_view()
    }
}

impl Serializable for Claims {
    open spec fn encodable(m: Seq<Claim>) -> bool {
        <Vec<Claim> as Serializable>::encodable(m)
    }

    open spec fn encode(m: Seq<Claim>) -> Seq<u8> {
        <Vec<Claim> as Serializable>::encode(m)
    }

    open spec fn decode(input: Seq<u8>) -> Option<(Seq<Claim>, int)> {
        <Vec<Claim> as Serializable>::decode(input)
    }

    open spec fn scan(input: Seq<u8>) -> Option<int> {
        <Vec<Claim> as Serializable>::scan(input)
    }

    proof fn lemma_encode_decode(m: Seq<Claim>, rest: Seq<u8>) {
        <Vec<Claim> as Serializable>::lemma_encode_decode(m, rest);
    }

    proof fn lemma_decode_sound(input: Seq<u8>) {
        <Vec<Claim> as Serializable>::lemma_decode_sound(input);
    }

    proof fn lemma_scan_sound(input: Seq<u8>) {
        <Vec<Claim> as Serializable>::lemma_scan_sound(input);
    }

    fn wire_size(&self) -> (n: usize) {
        self.0.wire_size()
    }

    fn wire_write(&self, out: &mut Writer) {
        self.0.wire_write(out);
    }

    fn wire_read(input: &mut Reader) -> (r: Result<Self, Error>) {
        match <Vec<Claim> as Serializable>::wire_read(input) {
            Ok(v) => Ok(Claims(v)),
            Err(e) => Err(e),
        }
    }

    fn wire_skip(input: &mut Reader) -> (r: Result<(), Error>) {
        <Vec<Claim> as Serializable>::wire_skip(input)
    }
}

} // verus!
