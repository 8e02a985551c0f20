//! Content-addressed data blocks: exactly one mebibyte of payload, named
//! by a keyed digest of their bytes.

use vstd::prelude::*;

use crate::buffer::{Reader, Writer};
use crate::error::Error;
use crate::serial::Serializable;
use crate::util;

verus! {

pub const BLOCK_SIZE: usize = 1048576;

/// A public 1048576-byte value.
#[derive(Clone, Debug)]
pub struct Block {
    pub bytes: Vec<u8>,
}

impl DeepView for Block {
    type V = Seq<u8>;

    open spec fn deep_view(&self) -> Seq<u8> {
        self.bytes@
    }
}

impl Block {
    /// Exactly 1048576 bytes.
    pub open spec fn wf(&self) -> bool {
        self.bytes@.len() == 1048576
    }

    /// Wraps an exact-length byte vector.
    pub fn from_exact(raw: Vec<u8>) -> (r: Self)
        requires
            raw@.len() == 1048576,
        ensures
            r.wf(),
            r.deep_view() == raw@,
    {
        Block { bytes: raw }
    }

    /// The all-zero value.
    pub fn zero() -> (r: Self)
        ensures
            r.wf(),
            r.deep_view() == Seq::new(1048576, |i: int| 0u8),
    {
        let mut raw: Vec<u8> = Vec::new();
        let mut i: usize = 0;
        while i < 1048576
            invariant
                i <= 1048576,
                raw@ == Seq::new(i as nat, |j: int| 0u8),
            decreases 1048576 - i,
        {
            raw.push(0u8);
            i = i + 1;
            proof {
                assert(raw@ =~= Seq::new(i as nat, |j: int| 0u8));
            }
        }
        Block { bytes: raw }
    }

    /// An independent copy holding the same bytes.
    pub fn duplicate(&self) -> (r: Self)
        ensures
            r.deep_view() == self.deep_view(),
            r.wf() == self.wf(),
    {
        Block { bytes: util::copy_bytes(&self.bytes) }
    }

    /// Borrows the raw bytes.
    pub fn as_exact(&self) -> (r: &Vec<u8>)
        ensures
            r@ == self.deep_view(),
    {
        &self.bytes
    }

    /// Unwraps into the raw byte vector.
    pub fn into_exact(self) -> (r: Vec<u8>)
        ensures
            r@ == self.deep_view(),
    {
        self.bytes
    }

    /// Overwrites every byte with zero.
    pub fn zeroize(&mut self)
        ensures
            final(self).deep_view() == Seq::new(old(self).deep_view().len(), |i: int| 0u8),
    {
        let n = self.bytes.len();
        let mut i: usize = 0;
        while i < n
            invariant
                i <= n,
                n == self.bytes@.len(),
                forall|j: int| 0 <= j < i ==> self.bytes@[j] == 0u8,
            decreases n - i,
        {
            self.bytes.set(i, 0u8);
            i = i + 1;
        }
        proof {
            assert(final(self).deep_view() =~= Seq::new(old(self).deep_view().len(), |i: int| 0u8));
        }
    }
}

impl Serializable for Block {
    open spec fn encodable(m: Seq<u8>) -> bool {
        m.len() == 1048576
    }

    open spec fn encode(m: Seq<u8>) -> Seq<u8> {
        m
    }

    open spec fn decode(input: Seq<u8>) -> Option<(Seq<u8>, int)> {
        if input.len() >= 1048576 {
            Some((input.take(1048576), 1048576))
        } else {
            None
        }
    }

    open spec fn scan(input: Seq<u8>) -> Option<int> {
        if input.len() >= 1048576 {
            Some(1048576)
        } else {
            None
        }
    }

    proof fn lemma_encode_decode(m: Seq<u8>, rest: Seq<u8>) {
        assert((m + rest).take(1048576) =~= m);
    }

    proof fn lemma_decode_sound(input: Seq<u8>) {
    }

    proof fn lemma_scan_sound(input: Seq<u8>) {
    }

    fn wire_size(&self) -> (n: usize) {
        1048576
    }

    fn wire_write(&self, out: &mut Writer) {
        util::fixed_write(out, &self.bytes);
    }

    fn wire_read(input: &mut Reader) -> (r: Result<Self, Error>) {
        match util::fixed_read(input, 1048576) {
            Ok(raw) => Ok(Block { bytes: raw }),
            Err(e) => Err(e),
        }
    }

    fn wire_skip(input: &mut Reader) -> (r: Result<(), Error>) {
        util::fixed_skip(input, 1048576)
    }
}

impl PartialEq for Block {
    /// Constant-time comparison of the underlying bytes.
    fn eq(&self, other: &Self) -> (r: bool) {
        util::eq(&self.bytes, &other.bytes)
    }
}

impl vstd::std_specs::cmp::PartialEqSpecImpl for Block {
    open spec fn obeys_eq_spec() -> bool {
        true
    }

    open spec fn eq_spec(&self, other: &Block) -> bool {
        self.bytes@ == other.bytes@
    }
}


/// The content address of a block: the keyed digest of its bytes under the
/// block type UUID.
#[derive(Clone, Debug)]
pub struct BlockID(pub crate::digest::Digest);

impl DeepView for BlockID {
    type V = Seq<u8>;

    open spec fn deep_view(&self) -> Seq<u8> {
        self.0.deep_view()
    }
}

impl BlockID {
    /// Exactly 32 bytes.
    pub open spec fn wf(&self) -> bool {
        self.0.wf()
    }

    /// Names a block: the keyed BLAKE2s digest of its bytes, keyed with the
    /// block type UUID for domain separation. Deterministic in the block.
    pub fn compute_from(block: &Block) -> (r: BlockID)
        ensures
            r.wf(),
            r.deep_view() == crate::digest::blake2s_keyed(
                crate::constants::block_type_spec(),
                block.deep_view(),
            ),
    {
        let key = crate::constants::block_type();
        BlockID(crate::digest::Digest::compute(&key, &block.bytes))
    }
}

impl PartialEq for BlockID {
    /// Constant-time comparison of the underlying digests.
    fn eq(&self, other: &Self) -> (r: bool) {
        util::eq(&self.0.bytes, &other.0.bytes)
    }
}

impl vstd::std_specs::cmp::PartialEqSpecImpl for BlockID {
    open spec fn obeys_eq_spec() -> bool {
        true
    }

    open spec fn eq_spec(&self, other: &BlockID) -> bool {
        self.0.bytes@ == other.0.bytes@
    }
}

impl Serializable for BlockID {
    open spec fn encodable(m: Seq<u8>) -> bool {
        m.len() == 32
    }

    open spec fn encode(m: Seq<u8>) -> Seq<u8> {
        m
    }

    open spec fn decode(input: Seq<u8>) -> Option<(Seq<u8>, int)> {
        if input.len() >= 32 {
            Some((input.take(32), 32))
        } else {
            None
        }
    }

    open spec fn scan(input: Seq<u8>) -> Option<int> {
        if input.len() >= 32 {
            Some(32)
        } else {
            None
        }
    }

    proof fn lemma_encode_decode(m: Seq<u8>, rest: Seq<u8>) {
        assert((m + rest).take(32) =~= m);
    }

    proof fn lemma_decode_sound(input: Seq<u8>) {
    }

    proof fn lemma_scan_sound(input: Seq<u8>) {
    }

    fn wire_size(&self) -> (n: usize) {
        32
    }

    fn wire_write(&self, out: &mut Writer) {
        util::fixed_write(out, &self.0.bytes);
    }

    fn wire_read(input: &mut Reader) -> (r: Result<Self, Error>) {
        match util::fixed_read(input, 32) {
            Ok(raw) => Ok(BlockID(crate::digest::Digest { bytes: raw })),
            Err(e) => Err(e),
        }
    }

    fn wire_skip(input: &mut Reader) -> (r: Result<(), Error>) {
        util::fixed_skip(input, 32)
    }
}

impl Block {
    /// This block's content address.
    pub fn compute_id(&self) -> (r: BlockID)
        ensures
            r.wf(),
            r.deep_view() == crate::digest::blake2s_keyed(
                crate::constants::block_type_spec(),
                self.deep_view(),
            ),
    {
        BlockID::compute_from(self)
    }
}


impl crate::printable::Printable for Block {
    open spec fn print_spec(&self) -> Seq<u8> {
        crate::printable::public_bytes_text(self.deep_view())
    }

    fn print(&self, out: &mut Vec<u8>) {
        crate::printable::print_public_bytes(out, &self.bytes);
    }
}


impl crate::printable::Printable for BlockID {
    open spec fn print_spec(&self) -> Seq<u8> {
        crate::printable::public_bytes_text(self.deep_view())
    }

    fn print(&self, out: &mut Vec<u8>) {
        crate::printable::print_public_bytes(out, &self.0.bytes);
    }
}

} // verus!
