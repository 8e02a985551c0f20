//! Wire-codec behaviour: round trips, size accounting, skip agreement, and
//! the fixed encodings the format promises.

use dandelion::block::BlockID;
use dandelion::digest::Digest;
use dandelion::message::{DesireBlockID, Message, Messages};
use dandelion::priority::Priority;
use dandelion::util;
use dandelion::{Reader, Serializable, Writer};

fn round_trip<T: Serializable + PartialEq + std::fmt::Debug>(value: &T) {
    let encoded = util::serialize(value);
    assert_eq!(encoded.len(), value.wire_size());
    let decoded: T = util::deserialize(encoded.clone()).expect("decode");
    assert_eq!(&decoded, value);

    // Skip consumes exactly as many bytes as a read does.
    let mut reader = Reader::new(encoded.clone());
    T::wire_read(&mut reader).expect("read");
    let after_read = reader.pos;
    let mut skipper = Reader::new(encoded);
    T::wire_skip(&mut skipper).expect("skip");
    assert_eq!(after_read, skipper.pos);
}

#[test]
fn integer_round_trips() {
    round_trip(&0u8);
    round_trip(&0x7fu8);
    round_trip(&0xabcdu16);
    round_trip(&0xdeadbeefu32);
    round_trip(&0x0123456789abcdefu64);
    round_trip(&0x0123456789abcdef0123456789abcdefu128);
    round_trip(&-1i8);
    round_trip(&-2i16);
    round_trip(&i32::MIN);
    round_trip(&i64::MAX);
    round_trip(&i128::MIN);
    round_trip(&true);
    round_trip(&false);
    round_trip(&12345usize);
}

#[test]
fn u16_is_big_endian() {
    let mut w = Writer::new();
    0x0102u16.wire_write(&mut w);
    assert_eq!(w.into_vec(), vec![0x01, 0x02]);
}

#[test]
fn u64_is_big_endian() {
    let mut w = Writer::new();
    0x0102030405060708u64.wire_write(&mut w);
    assert_eq!(w.into_vec(), vec![1, 2, 3, 4, 5, 6, 7, 8]);
}

#[test]
fn bool_rejects_two() {
    let decoded: Result<bool, _> = util::deserialize(vec![0x02]);
    assert!(decoded.is_err());
    let ok: bool = util::deserialize(vec![0x01]).expect("one is true");
    assert!(ok);
    let no: bool = util::deserialize(vec![0x00]).expect("zero is false");
    assert!(!no);
}

#[test]
fn usize_is_u32_on_the_wire() {
    let encoded = util::serialize(&7usize);
    assert_eq!(encoded, vec![0, 0, 0, 7]);
}

#[test]
fn short_buffers_are_rejected() {
    let decoded: Result<u32, _> = util::deserialize(vec![1, 2, 3]);
    assert!(decoded.is_err());
}

#[test]
fn trailing_bytes_are_rejected() {
    let decoded: Result<u16, _> = util::deserialize(vec![1, 2, 3]);
    assert!(decoded.is_err());
}

#[test]
fn vec_round_trip() {
    round_trip(&vec![1u16, 2, 3, 0xffff]);
    round_trip(&Vec::<u16>::new());
}

#[test]
fn varlen_prefixes_length() {
    let mut w = Writer::new();
    util::varlen_write(&mut w, &vec![9u8, 8, 7]);
    assert_eq!(w.into_vec(), vec![0, 0, 0, 3, 9, 8, 7]);
}

#[test]
fn varlen_bounds_checks_length() {
    // Announces four bytes but carries only two.
    let mut r = Reader::new(vec![0, 0, 0, 4, 1, 2]);
    assert!(util::varlen_read(&mut r).is_err());
}

fn digest_of(byte: u8) -> Digest {
    Digest::from_exact(vec![byte; 32])
}

#[test]
fn want_block_message_round_trip() {
    // A WantBlock for an all-0xAA digest at high priority: discriminant
    // 0x0101, then a length-prefixed 33-byte body.
    let message = Message::WantBlock(DesireBlockID {
        block_id: BlockID(digest_of(0xAA)),
        priority: Priority::High,
    });
    let encoded = util::serialize(&message);
    assert_eq!(&encoded[0..2], &[0x01, 0x01]);
    assert_eq!(&encoded[2..6], &[0, 0, 0, 33]);
    assert_eq!(encoded.len(), 2 + 4 + 33);
    let decoded: Message = util::deserialize(encoded).expect("decode");
    assert_eq!(decoded, message);
}

#[test]
fn padding_round_trip() {
    let message = Message::Padding(4);
    let encoded = util::serialize(&message);
    assert_eq!(encoded, vec![0, 0, 0, 0, 0, 4, 0, 0, 0, 0]);
    let decoded: Message = util::deserialize(encoded).expect("decode");
    assert_eq!(decoded, message);
}

#[test]
fn unknown_discriminant_read_rejected_skip_accepted() {
    // 0xFFFF discriminant with a zero-length body: the reader rejects it,
    // the skipper walks over it.
    let buffer = vec![0xff, 0xff, 0, 0, 0, 0];
    let mut reader = Reader::new(buffer.clone());
    assert!(Message::wire_read(&mut reader).is_err());
    let mut skipper = Reader::new(buffer);
    assert!(Message::wire_skip(&mut skipper).is_ok());
    assert_eq!(skipper.pos, 6);
}

#[test]
fn messages_round_trip() {
    let messages = Messages(vec![
        Message::Padding(2),
        Message::DontWantBlock(BlockID(digest_of(0x55))),
    ]);
    let encoded = util::serialize(&messages);
    let decoded: Messages = util::deserialize(encoded).expect("decode");
    assert_eq!(decoded, messages);
}

#[test]
fn skip_many_fixed_size_items() {
    let mut w = Writer::new();
    vec![1u32, 2, 3].wire_write(&mut w);
    let encoded = w.into_vec();
    let mut r = Reader::new(encoded);
    <Vec<u32> as Serializable>::wire_skip(&mut r).expect("skip");
    assert_eq!(r.pos, 4 + 12);
}

#[test]
fn uuid_wire_verify_matches() {
    let uuid = dandelion::constants::messages_type();
    let encoded = util::serialize(&uuid);
    let mut r = Reader::new(encoded.clone());
    assert!(uuid.wire_verify(&mut r).is_ok());
    let other = dandelion::constants::envelope_type();
    let mut r2 = Reader::new(encoded);
    assert!(other.wire_verify(&mut r2).is_err());
}
