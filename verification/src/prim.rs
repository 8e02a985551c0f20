//! Wire encodings of the primitive types: fixed-width big-endian integers,
//! `bool` as one byte accepting only 0 and 1, and `usize` carried as `u32`.

use vstd::prelude::*;

use crate::bigend::{be_bytes, be_val, lemma_be_bytes_len, lemma_be_roundtrip, lemma_be_val_bound,
    lemma_pow256_table, pow256, read_be, write_be};
use crate::buffer::{Reader, Writer};
use crate::error::Error;
use crate::serial::Serializable;

verus! {

impl Serializable for u8 {
    open spec fn encodable(m: u8) -> bool {
        true
    }

    open spec fn encode(m: u8) -> Seq<u8> {
        be_bytes(m as nat, 1)
    }

    open spec fn decode(input: Seq<u8>) -> Option<(u8, int)> {
        if input.len() >= 1 {
            Some((be_val(input.take(1)) as u8, 1))
        } else {
            None
        }
    }

    open spec fn scan(input: Seq<u8>) -> Option<int> {
        if input.len() >= 1 {
            Some(1)
        } else {
            None
        }
    }

    proof fn lemma_encode_decode(m: u8, rest: Seq<u8>) {
        lemma_pow256_table();
        lemma_be_bytes_len(m as nat, 1);
        lemma_be_roundtrip(m as nat, 1);
        assert((Self::encode(m) + rest).take(1) =~= Self::encode(m));
    }

    proof fn lemma_decode_sound(input: Seq<u8>) {
        if input.len() >= 1 {
            lemma_be_val_bound(input.take(1));
            lemma_pow256_table();
            let m = be_val(input.take(1)) as u8;
            lemma_be_bytes_len(m as nat, 1);
        }
    }

    proof fn lemma_scan_sound(input: Seq<u8>) {
    }

    fn wire_size(&self) -> (n: usize) {
        proof {
            lemma_be_bytes_len(*self as nat, 1);
        }
        1
    }

    fn wire_write(&self, out: &mut Writer) {
        write_be(out, *self as u128, 1);
    }

    fn wire_read(input: &mut Reader) -> (r: Result<Self, Error>) {
        let n = input.remaining_len();
        if n < 1 {
            return Err(Error);
        }
        let ghost rem0 = input.remaining_spec();
        let v = read_be(input, 1);
        proof {
            lemma_be_val_bound(rem0.take(1));
            lemma_pow256_table();
        }
        Ok(v as u8)
    }

    fn wire_skip(input: &mut Reader) -> (r: Result<(), Error>) {
        let n = input.remaining_len();
        if n < 1 {
            return Err(Error);
        }
        input.advance(1);
        Ok(())
    }
}

impl Serializable for u16 {
    open spec fn encodable(m: u16) -> bool {
        true
    }

    open spec fn encode(m: u16) -> Seq<u8> {
        be_bytes(m as nat, 2)
    }

    open spec fn decode(input: Seq<u8>) -> Option<(u16, int)> {
        if input.len() >= 2 {
            Some((be_val(input.take(2)) as u16, 2))
        } else {
            None
        }
    }

    open spec fn scan(input: Seq<u8>) -> Option<int> {
        if input.len() >= 2 {
            Some(2)
        } else {
            None
        }
    }

    proof fn lemma_encode_decode(m: u16, rest: Seq<u8>) {
        lemma_pow256_table();
        lemma_be_bytes_len(m as nat, 2);
        lemma_be_roundtrip(m as nat, 2);
        assert((Self::encode(m) + rest).take(2) =~= Self::encode(m));
    }

    proof fn lemma_decode_sound(input: Seq<u8>) {
        if input.len() >= 2 {
            lemma_be_val_bound(input.take(2));
            lemma_pow256_table();
            let m = be_val(input.take(2)) as u16;
            lemma_be_bytes_len(m as nat, 2);
        }
    }

    proof fn lemma_scan_sound(input: Seq<u8>) {
    }

    fn wire_size(&self) -> (n: usize) {
        proof {
            lemma_be_bytes_len(*self as nat, 2);
        }
        2
    }

    fn wire_write(&self, out: &mut Writer) {
        write_be(out, *self as u128, 2);
    }

    fn wire_read(input: &mut Reader) -> (r: Result<Self, Error>) {
        let n = input.remaining_len();
        if n < 2 {
            return Err(Error);
        }
        let ghost rem0 = input.remaining_spec();
        let v = read_be(input, 2);
        proof {
            lemma_be_val_bound(rem0.take(2));
            lemma_pow256_table();
        }
        Ok(v as u16)
    }

    fn wire_skip(input: &mut Reader) -> (r: Result<(), Error>) {
        let n = input.remaining_len();
        if n < 2 {
            return Err(Error);
        }
        input.advance(2);
        Ok(())
    }
}

impl Serializable for u32 {
    open spec fn encodable(m: u32) -> bool {
        true
    }

    open spec fn encode(m: u32) -> Seq<u8> {
        be_bytes(m as nat, 4)
    }

    open spec fn decode(input: Seq<u8>) -> Option<(u32, int)> {
        if input.len() >= 4 {
            Some((be_val(input.take(4)) as u32, 4))
        } else {
            None
        }
    }

    open spec fn scan(input: Seq<u8>) -> Option<int> {
        if input.len() >= 4 {
            Some(4)
        } else {
            None
        }
    }

    proof fn lemma_encode_decode(m: u32, rest: Seq<u8>) {
        lemma_pow256_table();
        lemma_be_bytes_len(m as nat, 4);
        lemma_be_roundtrip(m as nat, 4);
        assert((Self::encode(m) + rest).take(4) =~= Self::encode(m));
    }

    proof fn lemma_decode_sound(input: Seq<u8>) {
        if input.len() >= 4 {
            lemma_be_val_bound(input.take(4));
            lemma_pow256_table();
            let m = be_val(input.take(4)) as u32;
            lemma_be_bytes_len(m as nat, 4);
        }
    }

    proof fn lemma_scan_sound(input: Seq<u8>) {
    }

    fn wire_size(&self) -> (n: usize) {
        proof {
            lemma_be_bytes_len(*self as nat, 4);
        }
        4
    }

    fn wire_write(&self, out: &mut Writer) {
        write_be(out, *self as u128, 4);
    }

    fn wire_read(input: &mut Reader) -> (r: Result<Self, Error>) {
        let n = input.remaining_len();
        if n < 4 {
            return Err(Error);
        }
        let ghost rem0 = input.remaining_spec();
        let v = read_be(input, 4);
        proof {
            lemma_be_val_bound(rem0.take(4));
            lemma_pow256_table();
        }
        Ok(v as u32)
    }

    fn wire_skip(input: &mut Reader) -> (r: Result<(), Error>) {
        let n = input.remaining_len();
        if n < 4 {
            return Err(Error);
        }
        input.advance(4);
        Ok(())
    }
}

impl Serializable for u64 {
    open spec fn encodable(m: u64) -> bool {
        true
    }

    open spec fn encode(m: u64) -> Seq<u8> {
        be_bytes(m as nat, 8)
    }

    open spec fn decode(input: Seq<u8>) -> Option<(u64, int)> {
        if input.len() >= 8 {
            Some((be_val(input.take(8)) as u64, 8))
        } else {
            None
        }
    }

    open spec fn scan(input: Seq<u8>) -> Option<int> {
        if input.len() >= 8 {
            Some(8)
        } else {
            None
        }
    }

    proof fn lemma_encode_decode(m: u64, rest: Seq<u8>) {
        lemma_pow256_table();
        lemma_be_bytes_len(m as nat, 8);
        lemma_be_roundtrip(m as nat, 8);
        assert((Self::encode(m) + rest).take(8) =~= Self::encode(m));
    }

    proof fn lemma_decode_sound(input: Seq<u8>) {
        if input.len() >= 8 {
            lemma_be_val_bound(input.take(8));
            lemma_pow256_table();
            let m = be_val(input.take(8)) as u64;
            lemma_be_bytes_len(m as nat, 8);
        }
    }

    proof fn lemma_scan_sound(input: Seq<u8>) {
    }

    fn wire_size(&self) -> (n: usize) {
        proof {
            lemma_be_bytes_len(*self as nat, 8);
        }
        8
    }

    fn wire_write(&self, out: &mut Writer) {
        write_be(out, *self as u128, 8);
    }

    fn wire_read(input: &mut Reader) -> (r: Result<Self, Error>) {
        let n = input.remaining_len();
        if n < 8 {
            return Err(Error);
        }
        let ghost rem0 = input.remaining_spec();
        let v = read_be(input, 8);
        proof {
            lemma_be_val_bound(rem0.take(8));
            lemma_pow256_table();
        }
        Ok(v as u64)
    }

    fn wire_skip(input: &mut Reader) -> (r: Result<(), Error>) {
        let n = input.remaining_len();
        if n < 8 {
            return Err(Error);
        }
        input.advance(8);
        Ok(())
    }
}

impl Serializable for u128 {
    open spec fn encodable(m: u128) -> bool {
        true
    }

    open spec fn encode(m: u128) -> Seq<u8> {
        be_bytes(m as nat, 16)
    }

    open spec fn decode(input: Seq<u8>) -> Option<(u128, int)> {
        if input.len() >= 16 {
            Some((be_val(input.take(16)) as u128, 16))
        } else {
            None
        }
    }

    open spec fn scan(input: Seq<u8>) -> Option<int> {
        if input.len() >= 16 {
            Some(16)
        } else {
            None
        }
    }

    proof fn lemma_encode_decode(m: u128, rest: Seq<u8>) {
        lemma_pow256_table();
        lemma_be_bytes_len(m as nat, 16);
        lemma_be_roundtrip(m as nat, 16);
        assert((Self::encode(m) + rest).take(16) =~= Self::encode(m));
    }

    proof fn lemma_decode_sound(input: Seq<u8>) {
        if input.len() >= 16 {
            lemma_be_val_bound(input.take(16));
            lemma_pow256_table();
            let m = be_val(input.take(16)) as u128;
            lemma_be_bytes_len(m as nat, 16);
        }
    }

    proof fn lemma_scan_sound(input: Seq<u8>) {
    }

    fn wire_size(&self) -> (n: usize) {
        proof {
            lemma_be_bytes_len(*self as nat, 16);
        }
        16
    }

    fn wire_write(&self, out: &mut Writer) {
        write_be(out, *self as u128, 16);
    }

    fn wire_read(input: &mut Reader) -> (r: Result<Self, Error>) {
        let n = input.remaining_len();
        if n < 16 {
            return Err(Error);
        }
        let ghost rem0 = input.remaining_spec();
        let v = read_be(input, 16);
        proof {
            lemma_be_val_bound(rem0.take(16));
            lemma_pow256_table();
        }
        Ok(v as u128)
    }

    fn wire_skip(input: &mut Reader) -> (r: Result<(), Error>) {
        let n = input.remaining_len();
        if n < 16 {
            return Err(Error);
        }
        input.advance(16);
        Ok(())
    }
}

impl Serializable for i8 {
    open spec fn encodable(m: i8) -> bool {
        true
    }

    open spec fn encode(m: i8) -> Seq<u8> {
        be_bytes((m as u8) as nat, 1)
    }

    open spec fn decode(input: Seq<u8>) -> Option<(i8, int)> {
        if input.len() >= 1 {
            Some(((be_val(input.take(1)) as u8) as i8, 1))
        } else {
            None
        }
    }

    open spec fn scan(input: Seq<u8>) -> Option<int> {
        if input.len() >= 1 {
            Some(1)
        } else {
            None
        }
    }

    proof fn lemma_encode_decode(m: i8, rest: Seq<u8>) {
        lemma_pow256_table();
        lemma_be_bytes_len((m as u8) as nat, 1);
        lemma_be_roundtrip((m as u8) as nat, 1);
        assert((Self::encode(m) + rest).take(1) =~= Self::encode(m));
        assert((m as u8) as i8 == m) by (bit_vector);
    }

    proof fn lemma_decode_sound(input: Seq<u8>) {
        if input.len() >= 1 {
            lemma_be_bytes_len(((be_val(input.take(1)) as u8) as i8) as u8 as nat, 1);
            let u = be_val(input.take(1)) as u8;
            assert((u as i8) as u8 == u) by (bit_vector);
        }
    }

    proof fn lemma_scan_sound(input: Seq<u8>) {
    }

    fn wire_size(&self) -> (n: usize) {
        proof {
            lemma_be_bytes_len((*self as u8) as nat, 1);
        }
        1
    }

    fn wire_write(&self, out: &mut Writer) {
        write_be(out, (*self as u8) as u128, 1);
    }

    fn wire_read(input: &mut Reader) -> (r: Result<Self, Error>) {
        let n = input.remaining_len();
        if n < 1 {
            return Err(Error);
        }
        let ghost rem0 = input.remaining_spec();
        let v = read_be(input, 1);
        proof {
            lemma_be_val_bound(rem0.take(1));
            lemma_pow256_table();
        }
        Ok((v as u8) as i8)
    }

    fn wire_skip(input: &mut Reader) -> (r: Result<(), Error>) {
        let n = input.remaining_len();
        if n < 1 {
            return Err(Error);
        }
        input.advance(1);
        Ok(())
    }
}

impl Serializable for i16 {
    open spec fn encodable(m: i16) -> bool {
        true
    }

    open spec fn encode(m: i16) -> Seq<u8> {
        be_bytes((m as u16) as nat, 2)
    }

    open spec fn decode(input: Seq<u8>) -> Option<(i16, int)> {
        if input.len() >= 2 {
            Some(((be_val(input.take(2)) as u16) as i16, 2))
        } else {
            None
        }
    }

    open spec fn scan(input: Seq<u8>) -> Option<int> {
        if input.len() >= 2 {
            Some(2)
        } else {
            None
        }
    }

    proof fn lemma_encode_decode(m: i16, rest: Seq<u8>) {
        lemma_pow256_table();
        lemma_be_bytes_len((m as u16) as nat, 2);
        lemma_be_roundtrip((m as u16) as nat, 2);
        assert((Self::encode(m) + rest).take(2) =~= Self::encode(m));
        assert((m as u16) as i16 == m) by (bit_vector);
    }

    proof fn lemma_decode_sound(input: Seq<u8>) {
        if input.len() >= 2 {
            lemma_be_bytes_len(((be_val(input.take(2)) as u16) as i16) as u16 as nat, 2);
            let u = be_val(input.take(2)) as u16;
            assert((u as i16) as u16 == u) by (bit_vector);
        }
    }

    proof fn lemma_scan_sound(input: Seq<u8>) {
    }

    fn wire_size(&self) -> (n: usize) {
        proof {
            lemma_be_bytes_len((*self as u16) as nat, 2);
        }
        2
    }

    fn wire_write(&self, out: &mut Writer) {
        write_be(out, (*self as u16) as u128, 2);
    }

    fn wire_read(input: &mut Reader) -> (r: Result<Self, Error>) {
        let n = input.remaining_len();
        if n < 2 {
            return Err(Error);
        }
        let ghost rem0 = input.remaining_spec();
        let v = read_be(input, 2);
        proof {
            lemma_be_val_bound(rem0.take(2));
            lemma_pow256_table();
        }
        Ok((v as u16) as i16)
    }

    fn wire_skip(input: &mut Reader) -> (r: Result<(), Error>) {
        let n = input.remaining_len();
        if n < 2 {
            return Err(Error);
        }
        input.advance(2);
        Ok(())
    }
}

impl Serializable for i32 {
    open spec fn encodable(m: i32) -> bool {
        true
    }

    open spec fn encode(m: i32) -> Seq<u8> {
        be_bytes((m as u32) as nat, 4)
    }

    open spec fn decode(input: Seq<u8>) -> Option<(i32, int)> {
        if input.len() >= 4 {
            Some(((be_val(input.take(4)) as u32) as i32, 4))
        } else {
            None
        }
    }

    open spec fn scan(input: Seq<u8>) -> Option<int> {
        if input.len() >= 4 {
            Some(4)
        } else {
            None
        }
    }

    proof fn lemma_encode_decode(m: i32, rest: Seq<u8>) {
        lemma_pow256_table();
        lemma_be_bytes_len((m as u32) as nat, 4);
        lemma_be_roundtrip((m as u32) as nat, 4);
        assert((Self::encode(m) + rest).take(4) =~= Self::encode(m));
        assert((m as u32) as i32 == m) by (bit_vector);
    }

    proof fn lemma_decode_sound(input: Seq<u8>) {
        if input.len() >= 4 {
            lemma_be_bytes_len(((be_val(input.take(4)) as u32) as i32) as u32 as nat, 4);
            let u = be_val(input.take(4)) as u32;
            assert((u as i32) as u32 == u) by (bit_vector);
        }
    }

    proof fn lemma_scan_sound(input: Seq<u8>) {
    }

    fn wire_size(&self) -> (n: usize) {
        proof {
            lemma_be_bytes_len((*self as u32) as nat, 4);
        }
        4
    }

    fn wire_write(&self, out: &mut Writer) {
        write_be(out, (*self as u32) as u128, 4);
    }

    fn wire_read(input: &mut Reader) -> (r: Result<Self, Error>) {
        let n = input.remaining_len();
        if n < 4 {
            return Err(Error);
        }
        let ghost rem0 = input.remaining_spec();
        let v = read_be(input, 4);
        proof {
            lemma_be_val_bound(rem0.take(4));
            lemma_pow256_table();
        }
        Ok((v as u32) as i32)
    }

    fn wire_skip(input: &mut Reader) -> (r: Result<(), Error>) {
        let n = input.remaining_len();
        if n < 4 {
            return Err(Error);
        }
        input.advance(4);
        Ok(())
    }
}

impl Serializable for i64 {
    open spec fn encodable(m: i64) -> bool {
        true
    }

    open spec fn encode(m: i64) -> Seq<u8> {
        be_bytes((m as u64) as nat, 8)
    }

    open spec fn decode(input: Seq<u8>) -> Option<(i64, int)> {
        if input.len() >= 8 {
            Some(((be_val(input.take(8)) as u64) as i64, 8))
        } else {
            None
        }
    }

    open spec fn scan(input: Seq<u8>) -> Option<int> {
        if input.len() >= 8 {
            Some(8)
        } else {
            None
        }
    }

    proof fn lemma_encode_decode(m: i64, rest: Seq<u8>) {
        lemma_pow256_table();
        lemma_be_bytes_len((m as u64) as nat, 8);
        lemma_be_roundtrip((m as u64) as nat, 8);
        assert((Self::encode(m) + rest).take(8) =~= Self::encode(m));
        assert((m as u64) as i64 == m) by (bit_vector);
    }

    proof fn lemma_decode_sound(input: Seq<u8>) {
        if input.len() >= 8 {
            lemma_be_bytes_len(((be_val(input.take(8)) as u64) as i64) as u64 as nat, 8);
            let u = be_val(input.take(8)) as u64;
            assert((u as i64) as u64 == u) by (bit_vector);
        }
    }

    proof fn lemma_scan_sound(input: Seq<u8>) {
    }

    fn wire_size(&self) -> (n: usize) {
        proof {
            lemma_be_bytes_len((*self as u64) as nat, 8);
        }
        8
    }

    fn wire_write(&self, out: &mut Writer) {
        write_be(out, (*self as u64) as u128, 8);
    }

    fn wire_read(input: &mut Reader) -> (r: Result<Self, Error>) {
        let n = input.remaining_len();
        if n < 8 {
            return Err(Error);
        }
        let ghost rem0 = input.remaining_spec();
        let v = read_be(input, 8);
        proof {
            lemma_be_val_bound(rem0.take(8));
            lemma_pow256_table();
        }
        Ok((v as u64) as i64)
    }

    fn wire_skip(input: &mut Reader) -> (r: Result<(), Error>) {
        let n = input.remaining_len();
        if n < 8 {
            return Err(Error);
        }
        input.advance(8);
        Ok(())
    }
}

impl Serializable for i128 {
    open spec fn encodable(m: i128) -> bool {
        true
    }

    open spec fn encode(m: i128) -> Seq<u8> {
        be_bytes((m as u128) as nat, 16)
    }

    open spec fn decode(input: Seq<u8>) -> Option<(i128, int)> {
        if input.len() >= 16 {
            Some(((be_val(input.take(16)) as u128) as i128, 16))
        } else {
            None
        }
    }

    open spec fn scan(input: Seq<u8>) -> Option<int> {
        if input.len() >= 16 {
            Some(16)
        } else {
            None
        }
    }

    proof fn lemma_encode_decode(m: i128, rest: Seq<u8>) {
        lemma_pow256_table();
        lemma_be_bytes_len((m as u128) as nat, 16);
        lemma_be_roundtrip((m as u128) as nat, 16);
        assert((Self::encode(m) + rest).take(16) =~= Self::encode(m));
        assert((m as u128) as i128 == m) by (bit_vector);
    }

    proof fn lemma_decode_sound(input: Seq<u8>) {
        if input.len() >= 16 {
            lemma_be_bytes_len(((be_val(input.take(16)) as u128) as i128) as u128 as nat, 16);
            let u = be_val(input.take(16)) as u128;
            assert((u as i128) as u128 == u) by (bit_vector);
        }
    }

    proof fn lemma_scan_sound(input: Seq<u8>) {
    }

    fn wire_size(&self) -> (n: usize) {
        proof {
            lemma_be_bytes_len((*self as u128) as nat, 16);
        }
        16
    }

    fn wire_write(&self, out: &mut Writer) {
        write_be(out, (*self as u128) as u128, 16);
    }

    fn wire_read(input: &mut Reader) -> (r: Result<Self, Error>) {
        let n = input.remaining_len();
        if n < 16 {
            return Err(Error);
        }
        let ghost rem0 = input.remaining_spec();
        let v = read_be(input, 16);
        proof {
            lemma_be_val_bound(rem0.take(16));
            lemma_pow256_table();
        }
        Ok((v as u128) as i128)
    }

    fn wire_skip(input: &mut Reader) -> (r: Result<(), Error>) {
        let n = input.remaining_len();
        if n < 16 {
            return Err(Error);
        }
        input.advance(16);
        Ok(())
    }
}

impl Serializable for bool {
    open spec fn encodable(m: bool) -> bool {
        true
    }

    open spec fn encode(m: bool) -> Seq<u8> {
        seq![if m { 1u8 } else { 0u8 }]
    }

    open spec fn decode(input: Seq<u8>) -> Option<(bool, int)> {
        if input.len() >= 1 {
            if input[0] == 0u8 {
                Some((false, 1))
            } else if input[0] == 1u8 {
                Some((true, 1))
            } else {
                None
            }
        } else {
            None
        }
    }

    open spec fn scan(input: Seq<u8>) -> Option<int> {
        if input.len() >= 1 {
            Some(1)
        } else {
            None
        }
    }

    proof fn lemma_encode_decode(m: bool, rest: Seq<u8>) {
        assert((Self::encode(m) + rest)[0] == Self::encode(m)[0]);
    }

    proof fn lemma_decode_sound(input: Seq<u8>) {
    }

    proof fn lemma_scan_sound(input: Seq<u8>) {
    }

    fn wire_size(&self) -> (n: usize) {
        1
    }

    fn wire_write(&self, out: &mut Writer) {
        if *self {
            out.push(1u8);
        } else {
            out.push(0u8);
        }
        proof {
            assert(final(out)@ =~= old(out)@ + Self::encode(*self));
        }
    }

    fn wire_read(input: &mut Reader) -> (r: Result<Self, Error>) {
        let n = input.remaining_len();
        if n < 1 {
            return Err(Error);
        }
        let b = input.take_byte();
        if b == 0 {
            Ok(false)
        } else if b == 1 {
            Ok(true)
        } else {
            Err(Error)
        }
    }

    fn wire_skip(input: &mut Reader) -> (r: Result<(), Error>) {
        let n = input.remaining_len();
        if n < 1 {
            return Err(Error);
        }
        input.advance(1);
        Ok(())
    }
}

impl Serializable for usize {
    open spec fn encodable(m: usize) -> bool {
        m <= u32::MAX
    }

    open spec fn encode(m: usize) -> Seq<u8> {
        be_bytes(m as nat, 4)
    }

    open spec fn decode(input: Seq<u8>) -> Option<(usize, int)> {
        if input.len() >= 4 {
            Some((be_val(input.take(4)) as usize, 4))
        } else {
            None
        }
    }

    open spec fn scan(input: Seq<u8>) -> Option<int> {
        if input.len() >= 4 {
            Some(4)
        } else {
            None
        }
    }

    proof fn lemma_encode_decode(m: usize, rest: Seq<u8>) {
        lemma_pow256_table();
        lemma_be_bytes_len(m as nat, 4);
        lemma_be_roundtrip(m as nat, 4);
        assert((Self::encode(m) + rest).take(4) =~= Self::encode(m));
    }

    proof fn lemma_decode_sound(input: Seq<u8>) {
        if input.len() >= 4 {
            lemma_be_val_bound(input.take(4));
            lemma_pow256_table();
            lemma_be_bytes_len(be_val(input.take(4)), 4);
        }
    }

    proof fn lemma_scan_sound(input: Seq<u8>) {
    }

    fn wire_size(&self) -> (n: usize) {
        proof {
            lemma_be_bytes_len(*self as nat, 4);
        }
        4
    }

    fn wire_write(&self, out: &mut Writer) {
        write_be(out, *self as u128, 4);
    }

    fn wire_read(input: &mut Reader) -> (r: Result<Self, Error>) {
        let n = input.remaining_len();
        if n < 4 {
            return Err(Error);
        }
        let ghost rem0 = input.remaining_spec();
        let v = read_be(input, 4);
        proof {
            lemma_be_val_bound(rem0.take(4));
            lemma_pow256_table();
        }
        Ok((v as u32) as usize)
    }

    fn wire_skip(input: &mut Reader) -> (r: Result<(), Error>) {
        let n = input.remaining_len();
        if n < 4 {
            return Err(Error);
        }
        input.advance(4);
        Ok(())
    }
}

} // verus!
