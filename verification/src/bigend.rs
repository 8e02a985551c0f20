//! Big-endian, fixed-width encoding of unsigned values: the base layer under
//! every multi-byte integer on the wire.

use vstd::prelude::*;

use crate::buffer::{Reader, Writer};

verus! {

/// 256 to the power `n`: the number of distinct `n`-byte strings.
pub open spec fn pow256(n: nat) -> nat
    decreases n,
{
    if n == 0 {
        1
    } else {
        256 * pow256((n - 1) as nat)
    }
}

/// The `n` big-endian base-256 digits of `v` (of `v` modulo `pow256(n)` when
/// `v` does not fit).
pub open spec fn be_bytes(v: nat, n: nat) -> Seq<u8>
    decreases n,
{
    if n == 0 {
        Seq::empty()
    } else {
        be_bytes(v / 256, (n - 1) as nat).push((v % 256) as u8)
    }
}

/// The value of a big-endian base-256 digit string.
pub open spec fn be_val(s: Seq<u8>) -> nat
    decreases s.len(),
{
    if s.len() == 0 {
        0
    } else {
        (be_val(s.drop_last()) * 256 + s.last()) as nat
    }
}

/// The byte counts of the fixed-width integers and the ranges they hold.
pub proof fn lemma_pow256_table()
    ensures
        pow256(1) == 0x100,
        pow256(2) == 0x10000,
        pow256(4) == 0x100000000,
        pow256(8) == 0x10000000000000000,
        pow256(16) == 0x100000000000000000000000000000000,
{
    assert(pow256(0) == 1);
    assert(pow256(1) == 256);
    assert(pow256(2) == 0x10000);
    assert(pow256(3) == 0x1000000);
    assert(pow256(4) == 0x100000000);
    assert(pow256(5) == 0x10000000000);
    assert(pow256(6) == 0x1000000000000);
    assert(pow256(7) == 0x100000000000000);
    assert(pow256(8) == 0x10000000000000000);
    assert(pow256(9) == 0x1000000000000000000);
    assert(pow256(10) == 0x100000000000000000000);
    assert(pow256(11) == 0x10000000000000000000000);
    assert(pow256(12) == 0x1000000000000000000000000);
    assert(pow256(13) == 0x100000000000000000000000000);
    assert(pow256(14) == 0x10000000000000000000000000000);
    assert(pow256(15) == 0x1000000000000000000000000000000);
    assert(pow256(16) == 0x100000000000000000000000000000000);
}

pub proof fn lemma_pow256_pos(n: nat)
    ensures
        pow256(n) >= 1,
    decreases n,
{
    if n > 0 {
        lemma_pow256_pos((n - 1) as nat);
    }
}

pub proof fn lemma_pow256_mono(a: nat, b: nat)
    requires
        a <= b,
    ensures
        pow256(a) <= pow256(b),
    decreases b,
{
    if a < b {
        lemma_pow256_mono(a, (b - 1) as nat);
        lemma_pow256_pos((b - 1) as nat);
    }
}

pub proof fn lemma_be_bytes_len(v: nat, n: nat)
    ensures
        be_bytes(v, n).len() == n,
    decreases n,
{
    if n > 0 {
        lemma_be_bytes_len(v / 256, (n - 1) as nat);
    }
}

pub proof fn lemma_be_val_bound(s: Seq<u8>)
    ensures
        be_val(s) < pow256(s.len()),
    decreases s.len(),
{
    if s.len() > 0 {
        lemma_be_val_bound(s.drop_last());
    }
}

/// Decoding inverts encoding: the value read back from the `n` digits of `v`
/// is `v` itself, whenever `v` fits in `n` bytes.
pub proof fn lemma_be_roundtrip(v: nat, n: nat)
    requires
        v < pow256(n),
    ensures
        be_val(be_bytes(v, n)) == v,
    decreases n,
{
    if n > 0 {
        lemma_be_bytes_len(v / 256, (n - 1) as nat);
        lemma_be_roundtrip(v / 256, (n - 1) as nat);
        let s = be_bytes(v, n);
        assert(s.drop_last() =~= be_bytes(v / 256, (n - 1) as nat));
        assert(be_val(s) == (v / 256) * 256 + (v % 256));
    }
}

/// Appends the `n`-byte big-endian form of `v`.
pub fn write_be(w: &mut Writer, v: u128, n: usize)
    ensures
        final(w)@ == old(w)@ + be_bytes(v as nat, n as nat),
    decreases n,
{
    if n == 0 {
        proof {
            assert(old(w)@ + be_bytes(v as nat, 0) =~= old(w)@);
        }
    } else {
        write_be(w, v / 256, n - 1);
        let byte: u8 = (v % 256) as u8;
        w.push(byte);
        proof {
            assert(old(w)@ + be_bytes(v as nat, n as nat) =~= (old(w)@ + be_bytes(
                v as nat / 256,
                (n - 1) as nat,
            )).push(((v as nat) % 256) as u8));
        }
    }
}

/// Consumes `n` bytes and returns their big-endian value.
pub fn read_be(r: &mut Reader, n: usize) -> (v: u128)
    requires
        old(r).wf(),
        n <= 16,
        n <= old(r).remaining_spec().len(),
    ensures
        final(r).wf(),
        final(r).data_spec() == old(r).data_spec(),
        final(r).pos_spec() == old(r).pos_spec() + n,
        final(r).remaining_spec() == old(r).remaining_spec().skip(n as int),
        v as nat == be_val(old(r).remaining_spec().take(n as int)),
{
    let ghost rem0 = old(r).remaining_spec();
    let mut acc: u128 = 0;
    let mut i: usize = 0;
    proof {
        assert(rem0.take(0) =~= Seq::<u8>::empty());
    }
    while i < n
        invariant
            i <= n,
            n <= 16,
            r.wf(),
            r.data_spec() == old(r).data_spec(),
            r.pos_spec() == old(r).pos_spec() + i,
            r.remaining_spec() == rem0.skip(i as int),
            n <= rem0.len(),
            rem0 == old(r).remaining_spec(),
            acc as nat == be_val(rem0.take(i as int)),
            (acc as nat) < pow256(i as nat),
        decreases n - i,
    {
        proof {
            lemma_pow256_mono((i + 1) as nat, 16);
            lemma_pow256_table();
            assert((acc as nat) * 256 + 255 < pow256((i + 1) as nat));
        }
        let b = r.take_byte();
        proof {
            assert(rem0.skip(i as int)[0] == rem0[i as int]);
        }
        acc = acc * 256 + (b as u128);
        i = i + 1;
        proof {
            assert(rem0.take(i as int).drop_last() =~= rem0.take(i - 1));
            assert(rem0.take(i as int).last() == rem0[i - 1]);
            assert(rem0.skip(i - 1).skip(1) =~= rem0.skip(i as int));
        }
    }
    acc
}

} // verus!
