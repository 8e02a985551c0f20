//! Codec building blocks shared by every serializable type: whole-buffer
//! serialization, variable-length byte runs, fixed-size byte runs, generic
//! skipping, nested (length-prefixed) encodings, and constant-time equality.

use vstd::prelude::*;

use crate::bigend::{be_bytes, be_val, lemma_be_bytes_len, lemma_be_roundtrip, lemma_be_val_bound,
    lemma_pow256_table, read_be, write_be};
use crate::buffer::{Reader, Writer};
use crate::error::Error;
use crate::serial::{decode_exact, Serializable};

verus! {

/// The wire form of a raw byte run: a `u32` big-endian length prefix followed
/// by the bytes themselves.
pub open spec fn varlen_encode(s: Seq<u8>) -> Seq<u8> {
    be_bytes(s.len(), 4) + s
}

/// The byte run at the head of `input`, and the bytes consumed: the length
/// prefix plus the run it announces.
pub open spec fn varlen_decode(input: Seq<u8>) -> Option<(Seq<u8>, int)> {
    if input.len() >= 4 {
        let len = be_val(input.take(4)) as int;
        if input.len() >= 4 + len {
            Some((input.subrange(4, 4 + len), 4 + len))
        } else {
            None
        }
    } else {
        None
    }
}

/// A byte run is decoded from its own encoding, whatever follows it.
pub proof fn lemma_varlen_round_trip(s: Seq<u8>, rest: Seq<u8>)
    requires
        s.len() <= u32::MAX,
    ensures
        varlen_decode(varlen_encode(s) + rest) == Some((s, varlen_encode(s).len() as int)),
{
    lemma_pow256_table();
    lemma_be_bytes_len(s.len(), 4);
    lemma_be_roundtrip(s.len(), 4);
    let whole = varlen_encode(s) + rest;
    assert(whole.take(4) =~= be_bytes(s.len(), 4));
    assert(whole.subrange(4, 4 + s.len() as int) =~= s);
}

/// A successful byte-run decode stays within the input.
pub proof fn lemma_varlen_decode_sound(input: Seq<u8>)
    ensures
        varlen_decode(input) matches Some((s, n)) ==> {
            &&& 0 <= n <= input.len()
            &&& s.len() <= u32::MAX
            &&& n == varlen_encode(s).len()
        },
{
    if input.len() >= 4 {
        lemma_be_val_bound(input.take(4));
        lemma_pow256_table();
        lemma_be_bytes_len(be_val(input.take(4)), 4);
    }
}

/// Serialized size of a byte run of `len` bytes: the four prefix bytes plus
/// the run.
pub fn varlen_wire_size(len: usize) -> (n: usize)
    requires
        4 + len <= usize::MAX,
    ensures
        n == 4 + len,
{
    4 + len
}

/// Writes a length-prefixed byte run.
pub fn varlen_write(out: &mut Writer, value: &Vec<u8>)
    requires
        value@.len() <= u32::MAX,
    ensures
        final(out)@ == old(out)@ + varlen_encode(value@),
{
    let len = value.len();
    write_be(out, len as u128, 4);
    out.put_vec(value);
    proof {
        assert(final(out)@ =~= old(out)@ + varlen_encode(value@));
    }
}

/// Writes a length-prefixed run of `count` copies of `byte`.
pub fn varlen_fill(out: &mut Writer, byte: u8, count: usize)
    requires
        count <= u32::MAX,
    ensures
        final(out)@ == old(out)@ + varlen_encode(Seq::new(count as nat, |i: int| byte)),
{
    write_be(out, count as u128, 4);
    out.fill(byte, count);
    proof {
        assert(Seq::new(count as nat, |i: int| byte).len() == count);
        assert(final(out)@ =~= old(out)@ + varlen_encode(Seq::new(count as nat, |i: int| byte)));
    }
}

/// Reads a length-prefixed byte run.
pub fn varlen_read(input: &mut Reader) -> (r: Result<Vec<u8>, Error>)
    requires
        old(input).wf(),
    ensures
        final(input).wf(),
        final(input).data_spec() == old(input).data_spec(),
        final(input).pos_spec() >= old(input).pos_spec(),
        match r {
            Ok(v) => varlen_decode(old(input).remaining_spec()) == Some(
                (v@, final(input).pos_spec() - old(input).pos_spec()),
            ),
            Err(_) => varlen_decode(old(input).remaining_spec()) is None,
        },
{
    let ghost rem0 = old(input).remaining_spec();
    let n = input.remaining_len();
    if n < 4 {
        return Err(Error);
    }
    let len128 = read_be(input, 4);
    proof {
        lemma_be_val_bound(rem0.take(4));
        lemma_pow256_table();
    }
    let len = (len128 as u32) as usize;
    let m = input.remaining_len();
    if m < len {
        return Err(Error);
    }
    let v = input.take_vec(len);
    proof {
        assert(rem0.skip(4).take(len as int) =~= rem0.subrange(4, 4 + len as int));
    }
    Ok(v)
}

/// Skips a length-prefixed byte run, returning the length skipped.
pub fn varlen_skip(input: &mut Reader) -> (r: Result<usize, Error>)
    requires
        old(input).wf(),
    ensures
        final(input).wf(),
        final(input).data_spec() == old(input).data_spec(),
        final(input).pos_spec() >= old(input).pos_spec(),
        match r {
            Ok(len) => varlen_decode(old(input).remaining_spec()) matches Some((s, n)) && s.len()
                == len && n == final(input).pos_spec() - old(input).pos_spec(),
            Err(_) => varlen_decode(old(input).remaining_spec()) is None,
        },
{
    let ghost rem0 = old(input).remaining_spec();
    let n = input.remaining_len();
    if n < 4 {
        return Err(Error);
    }
    let len128 = read_be(input, 4);
    proof {
        lemma_be_val_bound(rem0.take(4));
        lemma_pow256_table();
    }
    let len = (len128 as u32) as usize;
    let m = input.remaining_len();
    if m < len {
        return Err(Error);
    }
    input.advance(len);
    Ok(len)
}

/// Writes a fixed-size byte run raw, with no length prefix.
pub fn fixed_write(out: &mut Writer, value: &Vec<u8>)
    ensures
        final(out)@ == old(out)@ + value@,
{
    out.put_vec(value);
}

/// Reads `count` raw bytes; fails when fewer remain.
pub fn fixed_read(input: &mut Reader, count: usize) -> (r: Result<Vec<u8>, Error>)
    requires
        old(input).wf(),
    ensures
        final(input).wf(),
        final(input).data_spec() == old(input).data_spec(),
        final(input).pos_spec() >= old(input).pos_spec(),
        match r {
            Ok(v) => {
                &&& old(input).remaining_spec().len() >= count
                &&& v@ == old(input).remaining_spec().take(count as int)
                &&& final(input).pos_spec() == old(input).pos_spec() + count
            },
            Err(_) => old(input).remaining_spec().len() < count,
        },
{
    let n = input.remaining_len();
    if n < count {
        return Err(Error);
    }
    Ok(input.take_vec(count))
}

/// Skips `count` raw bytes; fails when fewer remain.
pub fn generic_skip(input: &mut Reader, count: usize) -> (r: Result<(), Error>)
    requires
        old(input).wf(),
    ensures
        final(input).wf(),
        final(input).data_spec() == old(input).data_spec(),
        final(input).pos_spec() >= old(input).pos_spec(),
        match r {
            Ok(_) => {
                &&& old(input).remaining_spec().len() >= count
                &&& final(input).pos_spec() == old(input).pos_spec() + count
            },
            Err(_) => old(input).remaining_spec().len() < count,
        },
{
    let n = input.remaining_len();
    if n < count {
        return Err(Error);
    }
    input.advance(count);
    Ok(())
}

/// Skips `count` raw bytes; fails when fewer remain.
pub fn fixed_skip(input: &mut Reader, count: usize) -> (r: Result<(), Error>)
    requires
        old(input).wf(),
    ensures
        final(input).wf(),
        final(input).data_spec() == old(input).data_spec(),
        final(input).pos_spec() >= old(input).pos_spec(),
        match r {
            Ok(_) => {
                &&& old(input).remaining_spec().len() >= count
                &&& final(input).pos_spec() == old(input).pos_spec() + count
            },
            Err(_) => old(input).remaining_spec().len() < count,
        },
{
    generic_skip(input, count)
}

/// The bytes occupied by `count` consecutive encoded values of `T` at the
/// head of `input`, skipping one value at a time.
pub open spec fn scan_many<T: Serializable>(input: Seq<u8>, count: nat) -> Option<int>
    decreases count,
{
    if count == 0 {
        Some(0)
    } else {
        match T::scan(input) {
            Some(n) => match scan_many::<T>(input.skip(n), (count - 1) as nat) {
                Some(rest) => Some(n + rest),
                None => None,
            },
            None => None,
        }
    }
}

pub proof fn lemma_scan_many_sound<T: Serializable>(input: Seq<u8>, count: nat)
    ensures
        scan_many::<T>(input, count) matches Some(n) ==> 0 <= n <= input.len(),
    decreases count,
{
    if count > 0 {
        T::lemma_scan_sound(input);
        if let Some(n) = T::scan(input) {
            lemma_scan_many_sound::<T>(input.skip(n), (count - 1) as nat);
        }
    }
}

/// Skips `count` consecutive encoded values of `T`.
pub fn generic_skip_many<T: Serializable>(input: &mut Reader, count: usize) -> (r: Result<
    (),
    Error,
>)
    requires
        old(input).wf(),
    ensures
        final(input).wf(),
        final(input).data_spec() == old(input).data_spec(),
        final(input).pos_spec() >= old(input).pos_spec(),
        match r {
            Ok(_) => scan_many::<T>(old(input).remaining_spec(), count as nat) == Some(
                final(input).pos_spec() - old(input).pos_spec(),
            ),
            Err(_) => scan_many::<T>(old(input).remaining_spec(), count as nat) is None,
        },
{
    let mut i: usize = 0;
    while i < count
        invariant
            i <= count,
            input.wf(),
            input.data_spec() == old(input).data_spec(),
            input.pos_spec() >= old(input).pos_spec(),
            match scan_many::<T>(input.remaining_spec(), (count - i) as nat) {
                Some(k) => scan_many::<T>(old(input).remaining_spec(), count as nat) == Some(
                    input.pos_spec() - old(input).pos_spec() + k,
                ),
                None => scan_many::<T>(old(input).remaining_spec(), count as nat) is None,
            },
        decreases count - i,
    {
        let ghost prev = *input;
        let res = T::wire_skip(input);
        match res {
            Ok(_) => {
                proof {
                    let delta = input.pos_spec() - prev.pos_spec();
                    assert(T::scan(prev.remaining_spec()) == Some(delta));
                    assert(input.remaining_spec() =~= prev.remaining_spec().skip(delta));
                    assert(scan_many::<T>(prev.remaining_spec(), (count - i) as nat) == match scan_many::<
                        T,
                    >(input.remaining_spec(), (count - i - 1) as nat) {
                        Some(rest) => Some(delta + rest),
                        None => None,
                    });
                }
                i = i + 1;
            },
            Err(e) => {
                proof {
                    assert(scan_many::<T>(prev.remaining_spec(), (count - i) as nat) is None);
                }
                return Err(e);
            },
        }
    }
    Ok(())
}

/// Serializes one value into a fresh byte vector holding exactly its
/// canonical encoding.
pub fn serialize<T: Serializable>(value: &T) -> (r: Vec<u8>)
    requires
        T::encodable(value.deep_view()),
    ensures
        r@ == T::encode(value.deep_view()),
{
    let mut out = Writer::new();
    value.wire_write(&mut out);
    proof {
        assert(out@ =~= T::encode(value.deep_view()));
    }
    out.into_vec()
}

/// Deserializes a whole buffer: one encoded value with nothing after it.
/// Trailing bytes are a wire error.
pub fn deserialize<T: Serializable>(buffer: Vec<u8>) -> (r: Result<T, Error>)
    ensures
        match r {
            Ok(v) => decode_exact::<T>(buffer@) == Some(v.deep_view()),
            Err(_) => decode_exact::<T>(buffer@) is None,
        },
{
    let mut input = Reader::new(buffer);
    let v = match T::wire_read(&mut input) {
        Ok(v) => v,
        Err(e) => {
            return Err(e);
        },
    };
    if !input.is_empty() {
        return Err(Error);
    }
    Ok(v)
}

/// The wire form of a nested value: its encoding carried as a
/// length-prefixed byte run.
pub open spec fn nested_encode<T: Serializable>(m: T::V) -> Seq<u8> {
    varlen_encode(T::encode(m))
}

/// Decodes a nested value: the byte run at the head of `input` must hold
/// exactly one encoded value of `T`.
pub open spec fn nested_decode<T: Serializable>(input: Seq<u8>) -> Option<(T::V, int)> {
    match varlen_decode(input) {
        Some((payload, n)) => match decode_exact::<T>(payload) {
            Some(m) => Some((m, n)),
            None => None,
        },
        None => None,
    }
}

/// A nested value is decoded from its own nested encoding, whatever follows.
pub proof fn lemma_nested_round_trip<T: Serializable>(m: T::V, rest: Seq<u8>)
    requires
        T::encodable(m),
        T::encode(m).len() <= u32::MAX,
    ensures
        nested_decode::<T>(nested_encode::<T>(m) + rest) == Some(
            (m, nested_encode::<T>(m).len() as int),
        ),
{
    let payload = T::encode(m);
    lemma_varlen_round_trip(payload, rest);
    T::lemma_encode_decode(m, Seq::empty());
    assert(payload + Seq::<u8>::empty() =~= payload);
}

/// A successful nested decode stays within the input and yields a writable
/// value.
pub proof fn lemma_nested_decode_sound<T: Serializable>(input: Seq<u8>)
    ensures
        nested_decode::<T>(input) matches Some((m, n)) ==> {
            &&& T::encodable(m)
            &&& T::encode(m).len() <= u32::MAX
            &&& 0 <= n <= input.len()
            &&& n == nested_encode::<T>(m).len()
        },
{
    lemma_varlen_decode_sound(input);
    if let Some((payload, n)) = varlen_decode(input) {
        T::lemma_decode_sound(payload);
    }
}

/// Serialized size of a nested value: four prefix bytes plus its own
/// encoding.
pub fn nested_wire_size<T: Serializable>(inner: &T) -> (n: usize)
    requires
        T::encodable(inner.deep_view()),
        4 + T::encode(inner.deep_view()).len() <= usize::MAX,
    ensures
        n == nested_encode::<T>(inner.deep_view()).len(),
{
    proof {
        lemma_be_bytes_len(T::encode(inner.deep_view()).len(), 4);
    }
    let size = inner.wire_size();
    4 + size
}

/// Writes a nested value: serializes it into a fresh buffer and emits that
/// buffer as a length-prefixed byte run.
pub fn nested_write<T: Serializable>(out: &mut Writer, inner: &T)
    requires
        T::encodable(inner.deep_view()),
        T::encode(inner.deep_view()).len() <= u32::MAX,
    ensures
        final(out)@ == old(out)@ + nested_encode::<T>(inner.deep_view()),
{
    let payload = serialize(inner);
    varlen_write(out, &payload);
}

/// Reads a nested value: extracts the byte run, then requires the inner
/// decode to consume it exactly.
pub fn nested_read<T: Serializable>(input: &mut Reader) -> (r: Result<T, Error>)
    requires
        old(input).wf(),
    ensures
        final(input).wf(),
        final(input).data_spec() == old(input).data_spec(),
        final(input).pos_spec() >= old(input).pos_spec(),
        match r {
            Ok(v) => nested_decode::<T>(old(input).remaining_spec()) == Some(
                (v.deep_view(), final(input).pos_spec() - old(input).pos_spec()),
            ),
            Err(_) => nested_decode::<T>(old(input).remaining_spec()) is None,
        },
{
    let payload = match varlen_read(input) {
        Ok(p) => p,
        Err(e) => {
            return Err(e);
        },
    };
    deserialize::<T>(payload)
}

/// An independent copy of a byte vector.
pub fn copy_bytes(v: &Vec<u8>) -> (r: Vec<u8>)
    ensures
        r@ == v@,
{
    let n = v.len();
    let mut r: Vec<u8> = Vec::new();
    let mut i: usize = 0;
    while i < n
        invariant
            i <= n,
            n == v@.len(),
            r@ == v@.take(i as int),
        decreases n - i,
    {
        r.push(v[i]);
        i = i + 1;
        proof {
            assert(v@.take(i as int) =~= v@.take(i - 1).push(v@[i - 1]));
        }
    }
    proof {
        assert(v@.take(n as int) =~= v@);
    }
    r
}

/// Relies on `constant_time_eq::constant_time_eq`: returns exactly whether
/// the two byte strings hold the same bytes (false when the lengths differ),
/// without data-dependent timing.
#[verifier::external_body]
pub fn eq(lhs: &Vec<u8>, rhs: &Vec<u8>) -> (r: bool)
    ensures
        r == (lhs@ == rhs@),
{
    constant_time_eq::constant_time_eq(lhs.as_slice(), rhs.as_slice())
}

} // verus!
