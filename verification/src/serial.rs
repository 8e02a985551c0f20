//! The wire-codec contract. Every serializable type fixes a canonical byte
//! encoding of its abstract value (its deep view), a decoder, and a scanner
//! that skips one encoded value without decoding it; the proof obligations
//! tie the three together, so that round-trip and skip-agreement hold for
//! every implementing type.

use vstd::prelude::*;

use crate::buffer::{Reader, Writer};
use crate::error::Error;

verus! {

/// A type with a deterministic binary wire form.
///
/// `encode` is the canonical encoding of an abstract value; `decode` returns
/// the value found at the head of a byte sequence together with the number of
/// bytes it occupies; `scan` returns how many bytes one encoded value
/// occupies without interpreting it. `encodable` delimits the values the
/// writer accepts (for example, a variable length must fit the `u32` length
/// prefix).
pub trait Serializable: DeepView + Sized {
    /// Which abstract values can be written at all.
    spec fn encodable(m: Self::V) -> bool;

    /// The canonical byte encoding of an abstract value.
    spec fn encode(m: Self::V) -> Seq<u8>;

    /// The value at the head of `input` and the bytes it occupies, or `None`
    /// when `input` does not start with a valid encoding.
    spec fn decode(input: Seq<u8>) -> Option<(Self::V, int)>;

    /// The bytes one encoded value occupies at the head of `input`, without
    /// interpreting it. For self-describing formats this accepts everything
    /// `decode` accepts, and possibly more.
    spec fn scan(input: Seq<u8>) -> Option<int>;

    /// Decoding inverts encoding, whatever follows the encoded bytes.
    proof fn lemma_encode_decode(m: Self::V, rest: Seq<u8>)
        requires
            Self::encodable(m),
        ensures
            Self::decode(Self::encode(m) + rest) == Some((m, Self::encode(m).len() as int)),
    ;

    /// A successful decode consumes a prefix of the input, yields a writable
    /// value, and consumes exactly that value's encoded length.
    proof fn lemma_decode_sound(input: Seq<u8>)
        ensures
            Self::decode(input) matches Some((m, n)) ==> {
                &&& Self::encodable(m)
                &&& 0 <= n <= input.len()
                &&& n == Self::encode(m).len()
            },
    ;

    /// The scanner stays in bounds and agrees with the decoder wherever the
    /// decoder succeeds.
    proof fn lemma_scan_sound(input: Seq<u8>)
        ensures
            Self::scan(input) matches Some(n) ==> 0 <= n <= input.len(),
            Self::decode(input) matches Some((m, n)) ==> Self::scan(input) == Some(n),
    ;

    /// The number of bytes `wire_write` would emit for `self`.
    fn wire_size(&self) -> (n: usize)
        requires
            Self::encodable(self.deep_view()),
            Self::encode(self.deep_view()).len() <= usize::MAX,
        ensures
            n == Self::encode(self.deep_view()).len(),
    ;

    /// Appends the canonical encoding of `self` to `out`.
    fn wire_write(&self, out: &mut Writer)
        requires
            Self::encodable(self.deep_view()),
        ensures
            final(out)@ == old(out)@ + Self::encode(self.deep_view()),
    ;

    /// Consumes one encoded value from the head of `input`. Succeeds exactly
    /// when `decode` succeeds on the unconsumed bytes, and then advances by
    /// exactly the decoded length.
    fn wire_read(input: &mut Reader) -> (r: Result<Self, Error>)
        requires
            old(input).wf(),
        ensures
            final(input).wf(),
            final(input).data_spec() == old(input).data_spec(),
            final(input).pos_spec() >= old(input).pos_spec(),
            match r {
                Ok(v) => Self::decode(old(input).remaining_spec()) == Some(
                    (v.deep_view(), final(input).pos_spec() - old(input).pos_spec()),
                ),
                Err(_) => Self::decode(old(input).remaining_spec()) is None,
            },
    ;

    /// Skips one encoded value. Succeeds exactly when `scan` succeeds on the
    /// unconsumed bytes, and then advances by exactly the scanned length.
    fn wire_skip(input: &mut Reader) -> (r: Result<(), Error>)
        requires
            old(input).wf(),
        ensures
            final(input).wf(),
            final(input).data_spec() == old(input).data_spec(),
            final(input).pos_spec() >= old(input).pos_spec(),
            match r {
                Ok(_) => Self::scan(old(input).remaining_spec()) == Some(
                    final(input).pos_spec() - old(input).pos_spec(),
                ),
                Err(_) => Self::scan(old(input).remaining_spec()) is None,
            },
    ;
}

/// The value an entire buffer decodes to, when it holds exactly one encoded
/// value and nothing after it.
pub open spec fn decode_exact<T: Serializable>(input: Seq<u8>) -> Option<T::V> {
    match T::decode(input) {
        Some((m, n)) => if n == input.len() {
            Some(m)
        } else {
            None
        },
        None => None,
    }
}

/// Round trip: for every writable value of every serializable type, reading
/// back its canonical encoding yields the value itself, the whole encoding
/// is consumed, and the encoding's length is the value's wire size.
pub proof fn lemma_round_trip<T: Serializable>(m: T::V)
    requires
        T::encodable(m),
    ensures
        decode_exact::<T>(T::encode(m)) == Some(m),
        T::decode(T::encode(m)) == Some((m, T::encode(m).len() as int)),
        T::scan(T::encode(m)) == Some(T::encode(m).len() as int),
{
    T::lemma_encode_decode(m, Seq::empty());
    assert(T::encode(m) + Seq::<u8>::empty() =~= T::encode(m));
    T::lemma_scan_sound(T::encode(m));
}

/// Skip agreement: wherever a value can be read, skipping consumes exactly
/// the bytes reading would; in particular, one skip over any canonical
/// encoding consumes exactly the value's wire size.
pub proof fn lemma_skip_agrees_with_read<T: Serializable>(input: Seq<u8>)
    ensures
        T::decode(input) matches Some((m, n)) ==> T::scan(input) == Some(n),
{
    T::lemma_scan_sound(input);
}

} // verus!
