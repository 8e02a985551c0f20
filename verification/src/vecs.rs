//! Wire encoding of homogeneous sequences: a `usize` count followed by that
//! many encoded items.

use vstd::prelude::*;

use crate::bigend::{be_bytes, be_val, lemma_be_bytes_len, lemma_be_roundtrip, lemma_be_val_bound,
    lemma_pow256_table, read_be, write_be};
use crate::buffer::{Reader, Writer};
use crate::error::Error;
use crate::serial::Serializable;
use crate::util::{generic_skip_many, lemma_scan_many_sound, scan_many};

verus! {

/// The concatenated encodings of the items of `m`, in order.
pub open spec fn encode_list<T: Serializable>(m: Seq<T::V>) -> Seq<u8>
    decreases m.len(),
{
    if m.len() == 0 {
        Seq::empty()
    } else {
        T::encode(m[0]) + encode_list::<T>(m.drop_first())
    }
}

/// `count` consecutive item encodings at the head of `input`: the items and
/// the bytes they occupy.
pub open spec fn decode_list<T: Serializable>(input: Seq<u8>, count: nat) -> Option<
    (Seq<T::V>, int),
>
    decreases count,
{
    if count == 0 {
        Some((Seq::empty(), 0))
    } else {
        match T::decode(input) {
            Some((v, n)) => match decode_list::<T>(input.skip(n), (count - 1) as nat) {
                Some((vs, rest)) => Some((seq![v] + vs, n + rest)),
                None => None,
            },
            None => None,
        }
    }
}

pub proof fn lemma_encode_list_push<T: Serializable>(m: Seq<T::V>, v: T::V)
    ensures
        encode_list::<T>(m.push(v)) == encode_list::<T>(m) + T::encode(v),
    decreases m.len(),
{
    if m.len() == 0 {
        assert(m.push(v)[0] == v);
        assert(m.push(v).drop_first() =~= Seq::<T::V>::empty());
        assert(encode_list::<T>(m.push(v)) == T::encode(v) + encode_list::<T>(
            Seq::<T::V>::empty(),
        ));
        assert(T::encode(v) + Seq::<u8>::empty() =~= T::encode(v));
        assert(Seq::<u8>::empty() + T::encode(v) =~= T::encode(v));
    } else {
        assert(m.push(v).drop_first() =~= m.drop_first().push(v));
        lemma_encode_list_push::<T>(m.drop_first(), v);
        assert(encode_list::<T>(m.push(v)) == T::encode(m[0]) + (encode_list::<T>(m.drop_first())
            + T::encode(v)));
        assert(T::encode(m[0]) + (encode_list::<T>(m.drop_first()) + T::encode(v)) =~= (T::encode(
            m[0],
        ) + encode_list::<T>(m.drop_first())) + T::encode(v));
    }
}

/// A list is decoded from its own concatenated encoding, whatever follows.
pub proof fn lemma_decode_list_round_trip<T: Serializable>(m: Seq<T::V>, rest: Seq<u8>)
    requires
        forall|i: int| 0 <= i < m.len() ==> T::encodable(#[trigger] m[i]),
    ensures
        decode_list::<T>(encode_list::<T>(m) + rest, m.len()) == Some(
            (m, encode_list::<T>(m).len() as int),
        ),
    decreases m.len(),
{
    if m.len() == 0 {
        assert(decode_list::<T>(encode_list::<T>(m) + rest, 0) == Some(
            (Seq::<T::V>::empty(), 0int),
        ));
        assert(Seq::<T::V>::empty() =~= m);
    } else {
        let head = T::encode(m[0]);
        let tail = encode_list::<T>(m.drop_first());
        assert(encode_list::<T>(m) + rest =~= head + (tail + rest));
        T::lemma_encode_decode(m[0], tail + rest);
        assert((head + (tail + rest)).skip(head.len() as int) =~= tail + rest);
        lemma_decode_list_round_trip::<T>(m.drop_first(), rest);
        assert(seq![m[0]] + m.drop_first() =~= m);
    }
}

/// A successful list decode stays within the input, yields the announced
/// number of writable items, and consumes exactly their encoded length.
pub proof fn lemma_decode_list_sound<T: Serializable>(input: Seq<u8>, count: nat)
    ensures
        decode_list::<T>(input, count) matches Some((vs, n)) ==> {
            &&& vs.len() == count
            &&& forall|i: int| 0 <= i < vs.len() ==> T::encodable(#[trigger] vs[i])
            &&& 0 <= n <= input.len()
            &&& n == encode_list::<T>(vs).len()
        },
    decreases count,
{
    if count > 0 {
        T::lemma_decode_sound(input);
        if let Some((v, n)) = T::decode(input) {
            lemma_decode_list_sound::<T>(input.skip(n), (count - 1) as nat);
            if let Some((vs, rest)) = decode_list::<T>(input.skip(n), (count - 1) as nat) {
                assert((seq![v] + vs).drop_first() =~= vs);
                assert(encode_list::<T>(seq![v] + vs) == T::encode(v) + encode_list::<T>(vs));
            }
        }
    }
}

/// Wherever the list decoder succeeds, the item scanner walks the same bytes.
pub proof fn lemma_decode_list_scan<T: Serializable>(input: Seq<u8>, count: nat)
    ensures
        decode_list::<T>(input, count) matches Some((vs, n)) ==> scan_many::<T>(input, count)
            == Some(n),
    decreases count,
{
    if count > 0 {
        T::lemma_scan_sound(input);
        if let Some((v, n)) = T::decode(input) {
            lemma_decode_list_scan::<T>(input.skip(n), (count - 1) as nat);
        }
    }
}

impl<T: Serializable> Serializable for Vec<T> {
    open spec fn encodable(m: Seq<T::V>) -> bool {
        &&& m.len() <= u32::MAX
        &&& forall|i: int| 0 <= i < m.len() ==> T::encodable(#[trigger] m[i])
    }

    open spec fn encode(m: Seq<T::V>) -> Seq<u8> {
        be_bytes(m.len(), 4) + encode_list::<T>(m)
    }

    open spec fn decode(input: Seq<u8>) -> Option<(Seq<T::V>, int)> {
        if input.len() >= 4 {
            let count = be_val(input.take(4));
            match decode_list::<T>(input.skip(4), count) {
                Some((vs, n)) => Some((vs, 4 + n)),
                None => None,
            }
        } else {
            None
        }
    }

    open spec fn scan(input: Seq<u8>) -> Option<int> {
        if input.len() >= 4 {
            let count = be_val(input.take(4));
            match scan_many::<T>(input.skip(4), count) {
                Some(n) => Some(4 + n),
                None => None,
            }
        } else {
            None
        }
    }

    proof fn lemma_encode_decode(m: Seq<T::V>, rest: Seq<u8>) {
        lemma_pow256_table();
        lemma_be_bytes_len(m.len(), 4);
        lemma_be_roundtrip(m.len(), 4);
        let whole = Self::encode(m) + rest;
        assert(whole.take(4) =~= be_bytes(m.len(), 4));
        assert(whole.skip(4) =~= encode_list::<T>(m) + rest);
        lemma_decode_list_round_trip::<T>(m, rest);
    }

    proof fn lemma_decode_sound(input: Seq<u8>) {
        if input.len() >= 4 {
            lemma_be_val_bound(input.take(4));
            lemma_pow256_table();
            let count = be_val(input.take(4));
            lemma_decode_list_sound::<T>(input.skip(4), count);
            if let Some((vs, n)) = decode_list::<T>(input.skip(4), count) {
                lemma_be_bytes_len(vs.len(), 4);
            }
        }
    }

    proof fn lemma_scan_sound(input: Seq<u8>) {
        if input.len() >= 4 {
            let count = be_val(input.take(4));
            lemma_scan_many_sound::<T>(input.skip(4), count);
            lemma_decode_list_scan::<T>(input.skip(4), count);
        }
    }

    fn wire_size(&self) -> (n: usize) {
        let ghost m = self.deep_view();
        proof {
            lemma_be_bytes_len(m.len(), 4);
        }
        let count = self.len();
        let mut sum: usize = 4;
        let mut i: usize = 0;
        while i < count
            invariant
                i <= count,
                count == self@.len(),
                m == self.deep_view(),
                Self::encodable(m),
                Self::encode(m).len() <= usize::MAX,
                sum == 4 + encode_list::<T>(m.take(i as int)).len(),
            decreases count - i,
        {
            proof {
                assert(m.take(i + 1) =~= m.take(i as int).push(m[i as int]));
                lemma_encode_list_push::<T>(m.take(i as int), m[i as int]);
                lemma_encode_list_prefix_bound::<T>(m, (i + 1) as int);
                lemma_be_bytes_len(m.len(), 4);
                assert(self@[i as int].deep_view() == m[i as int]);
            }
            let item_size = self[i].wire_size();
            sum = sum + item_size;
            i = i + 1;
        }
        proof {
            assert(m.take(count as int) =~= m);
        }
        sum
    }

    fn wire_write(&self, out: &mut Writer) {
        let ghost m = self.deep_view();
        let count = self.len();
        write_be(out, count as u128, 4);
        let mut i: usize = 0;
        while i < count
            invariant
                i <= count,
                count == self@.len(),
                m == self.deep_view(),
                Self::encodable(m),
                out@ == old(out)@ + be_bytes(m.len(), 4) + encode_list::<T>(m.take(i as int)),
            decreases count - i,
        {
            proof {
                assert(m.take(i + 1) =~= m.take(i as int).push(m[i as int]));
                lemma_encode_list_push::<T>(m.take(i as int), m[i as int]);
                assert(self@[i as int].deep_view() == m[i as int]);
            }
            self[i].wire_write(out);
            i = i + 1;
        }
        proof {
            assert(m.take(count as int) =~= m);
            assert(final(out)@ =~= old(out)@ + Self::encode(m));
        }
    }

    fn wire_read(input: &mut Reader) -> (r: Result<Self, Error>) {
        let ghost rem0 = old(input).remaining_spec();
        let n = input.remaining_len();
        if n < 4 {
            return Err(Error);
        }
        let count128 = read_be(input, 4);
        proof {
            lemma_be_val_bound(rem0.take(4));
            lemma_pow256_table();
        }
        let count = (count128 as u32) as usize;
        let ghost rem4 = input.remaining_spec();
        let ghost pos4 = input.pos_spec();
        let mut acc: Vec<T> = Vec::new();
        let mut i: usize = 0;
        proof {
            assert(acc.deep_view() =~= Seq::<T::V>::empty());
        }
        while i < count
            invariant
                i <= count,
                input.wf(),
                input.data_spec() == old(input).data_spec(),
                input.pos_spec() >= pos4,
                rem0 == old(input).remaining_spec(),
                rem0.len() >= 4,
                pos4 == old(input).pos_spec() + 4,
                rem4 == rem0.skip(4),
                count as nat == be_val(rem0.take(4)),
                acc.deep_view().len() == i,
                match decode_list::<T>(input.remaining_spec(), (count - i) as nat) {
                    Some((vs, k)) => decode_list::<T>(rem4, count as nat) == Some(
                        (acc.deep_view() + vs, input.pos_spec() - pos4 + k),
                    ),
                    None => decode_list::<T>(rem4, count as nat) is None,
                },
            decreases count - i,
        {
            let ghost prev = *input;
            let ghost acc0 = acc.deep_view();
            match T::wire_read(input) {
                Ok(v) => {
                    proof {
                        let delta = input.pos_spec() - prev.pos_spec();
                        assert(T::decode(prev.remaining_spec()) == Some((v.deep_view(), delta)));
                        assert(input.remaining_spec() =~= prev.remaining_spec().skip(delta)) by {
                            T::lemma_decode_sound(prev.remaining_spec());
                        }
                    }
                    acc.push(v);
                    proof {
                        assert(acc.deep_view() =~= acc0.push(v.deep_view()));
                        assert(decode_list::<T>(prev.remaining_spec(), (count - i) as nat)
                            == match decode_list::<T>(
                            input.remaining_spec(),
                            (count - i - 1) as nat,
                        ) {
                            Some((vs, rest)) => Some(
                                (seq![v.deep_view()] + vs, input.pos_spec() - prev.pos_spec()
                                    + rest),
                            ),
                            None => None,
                        });
                        if let Some((vs, rest)) = decode_list::<T>(
                            input.remaining_spec(),
                            (count - i - 1) as nat,
                        ) {
                            assert(acc0 + (seq![v.deep_view()] + vs) =~= acc.deep_view() + vs);
                        }
                    }
                    i = i + 1;
                },
                Err(e) => {
                    proof {
                        assert(decode_list::<T>(prev.remaining_spec(), (count - i) as nat) is None);
                    }
                    return Err(e);
                },
            }
        }
        proof {
            assert(decode_list::<T>(input.remaining_spec(), 0) == Some((Seq::<T::V>::empty(), 0int)));
            assert(acc.deep_view() + Seq::<T::V>::empty() =~= acc.deep_view());
        }
        Ok(acc)
    }

    fn wire_skip(input: &mut Reader) -> (r: Result<(), Error>) {
        let ghost rem0 = old(input).remaining_spec();
        let n = input.remaining_len();
        if n < 4 {
            return Err(Error);
        }
        let count128 = read_be(input, 4);
        proof {
            lemma_be_val_bound(rem0.take(4));
            lemma_pow256_table();
        }
        let count = (count128 as u32) as usize;
        generic_skip_many::<T>(input, count)
    }
}

/// A prefix of a list never encodes to more bytes than the whole list.
pub proof fn lemma_encode_list_prefix_bound<T: Serializable>(m: Seq<T::V>, i: int)
    requires
        0 <= i <= m.len(),
    ensures
        encode_list::<T>(m.take(i)).len() <= encode_list::<T>(m).len(),
    decreases m.len() - i,
{
    if i < m.len() {
        assert(m.take(i + 1) =~= m.take(i).push(m[i]));
        lemma_encode_list_push::<T>(m.take(i), m[i]);
        lemma_encode_list_prefix_bound::<T>(m, i + 1);
    } else {
        assert(m.take(i) =~= m);
    }
}

} // verus!
