//! The 16-byte type UUID: the domain-separation tag that the typed
//! cryptographic containers bind into signatures and associated data.

use vstd::prelude::*;

use crate::buffer::{Reader, Writer};
use crate::error::Error;
use crate::serial::Serializable;
use crate::util;

verus! {

pub const UUID_SIZE: usize = 16;

/// A public 16-byte value.
#[derive(Clone, Debug)]
pub struct UUID {
    pub bytes: Vec<u8>,
}

impl DeepView for UUID {
    type V = Seq<u8>;

    open spec fn deep_view(&self) -> Seq<u8> {
        self.bytes@
    }
}

impl UUID {
    /// Exactly 16 bytes.
    pub open spec fn wf(&self) -> bool {
        self.bytes@.len() == 16
    }

    /// Wraps an exact-length byte vector.
    pub fn from_exact(raw: Vec<u8>) -> (r: Self)
        requires
            raw@.len() == 16,
        ensures
            r.wf(),
            r.deep_view() == raw@,
    {
        UUID { bytes: raw }
    }

    /// The all-zero value.
    pub fn zero() -> (r: Self)
        ensures
            r.wf(),
            r.deep_view() == Seq::new(16, |i: int| 0u8),
    {
        let mut raw: Vec<u8> = Vec::new();
        let mut i: usize = 0;
        while i < 16
            invariant
                i <= 16,
                raw@ == Seq::new(i as nat, |j: int| 0u8),
            decreases 16 - i,
        {
            raw.push(0u8);
            i = i + 1;
            proof {
                assert(raw@ =~= Seq::new(i as nat, |j: int| 0u8));
            }
        }
        UUID { bytes: raw }
    }

    /// An independent copy holding the same bytes.
    pub fn duplicate(&self) -> (r: Self)
        ensures
            r.deep_view() == self.deep_view(),
            r.wf() == self.wf(),
    {
        UUID { bytes: util::copy_bytes(&self.bytes) }
    }

    /// Borrows the raw bytes.
    pub fn as_exact(&self) -> (r: &Vec<u8>)
        ensures
            r@ == self.deep_view(),
    {
        &self.bytes
    }

    /// Unwraps into the raw byte vector.
    pub fn into_exact(self) -> (r: Vec<u8>)
        ensures
            r@ == self.deep_view(),
    {
        self.bytes
    }

    /// Overwrites every byte with zero.
    pub fn zeroize(&mut self)
        ensures
            final(self).deep_view() == Seq::new(old(self).deep_view().len(), |i: int| 0u8),
    {
        let n = self.bytes.len();
        let mut i: usize = 0;
        while i < n
            invariant
                i <= n,
                n == self.bytes@.len(),
                forall|j: int| 0 <= j < i ==> self.bytes@[j] == 0u8,
            decreases n - i,
        {
            self.bytes.set(i, 0u8);
            i = i + 1;
        }
        proof {
            assert(final(self).deep_view() =~= Seq::new(old(self).deep_view().len(), |i: int| 0u8));
        }
    }
}

impl Serializable for UUID {
    open spec fn encodable(m: Seq<u8>) -> bool {
        m.len() == 16
    }

    open spec fn encode(m: Seq<u8>) -> Seq<u8> {
        m
    }

    open spec fn decode(input: Seq<u8>) -> Option<(Seq<u8>, int)> {
        if input.len() >= 16 {
            Some((input.take(16), 16))
        } else {
            None
        }
    }

    open spec fn scan(input: Seq<u8>) -> Option<int> {
        if input.len() >= 16 {
            Some(16)
        } else {
            None
        }
    }

    proof fn lemma_encode_decode(m: Seq<u8>, rest: Seq<u8>) {
        assert((m + rest).take(16) =~= m);
    }

    proof fn lemma_decode_sound(input: Seq<u8>) {
    }

    proof fn lemma_scan_sound(input: Seq<u8>) {
    }

    fn wire_size(&self) -> (n: usize) {
        16
    }

    fn wire_write(&self, out: &mut Writer) {
        util::fixed_write(out, &self.bytes);
    }

    fn wire_read(input: &mut Reader) -> (r: Result<Self, Error>) {
        match util::fixed_read(input, 16) {
            Ok(raw) => Ok(UUID { bytes: raw }),
            Err(e) => Err(e),
        }
    }

    fn wire_skip(input: &mut Reader) -> (r: Result<(), Error>) {
        util::fixed_skip(input, 16)
    }
}

impl PartialEq for UUID {
    /// Constant-time comparison of the underlying bytes.
    fn eq(&self, other: &Self) -> (r: bool) {
        util::eq(&self.bytes, &other.bytes)
    }
}

impl vstd::std_specs::cmp::PartialEqSpecImpl for UUID {
    open spec fn obeys_eq_spec() -> bool {
        true
    }

    open spec fn eq_spec(&self, other: &UUID) -> bool {
        self.bytes@ == other.bytes@
    }
}


impl UUID {
    /// Reads a UUID and requires it to equal `self`: succeeds exactly when
    /// the next sixteen bytes are this UUID's bytes.
    pub fn wire_verify(&self, buffer: &mut Reader) -> (r: Result<(), Error>)
        requires
            old(buffer).wf(),
        ensures
            final(buffer).wf(),
            final(buffer).data_spec() == old(buffer).data_spec(),
            final(buffer).pos_spec() >= old(buffer).pos_spec(),
            match r {
                Ok(_) => {
                    &&& old(buffer).remaining_spec().len() >= 16
                    &&& old(buffer).remaining_spec().take(16) == self.deep_view()
                    &&& final(buffer).pos_spec() == old(buffer).pos_spec() + 16
                },
                Err(_) => old(buffer).remaining_spec().len() < 16 || old(
                    buffer,
                ).remaining_spec().take(16) != self.deep_view(),
            },
    {
        let actual = match <UUID as Serializable>::wire_read(buffer) {
            Ok(u) => u,
            Err(e) => {
                return Err(e);
            },
        };
        if actual == *self {
            Ok(())
        } else {
            Err(Error)
        }
    }
}

/// A typed payload: a type with a constant 16-byte UUID that the
/// cryptographic containers bind into signatures and associated data, so that
/// bytes produced for one payload type cannot authenticate another.
pub trait Typed {
    /// The type's constant UUID, for specifications.
    spec fn type_uuid_spec() -> Seq<u8>;

    /// The UUID is always exactly 16 bytes.
    proof fn lemma_type_uuid_len()
        ensures
            Self::type_uuid_spec().len() == 16,
    ;

    /// The type's constant UUID.
    fn type_uuid() -> (u: UUID)
        ensures
            u.wf(),
            u.deep_view() == Self::type_uuid_spec(),
    ;
}


impl crate::printable::Printable for UUID {
    open spec fn print_spec(&self) -> Seq<u8> {
        crate::printable::public_bytes_text(self.deep_view())
    }

    fn print(&self, out: &mut Vec<u8>) {
        crate::printable::print_public_bytes(out, &self.bytes);
    }
}

} // verus!
