//! Cryptographic behaviour: typed encryption and sealing round-trip, and
//! every tampered bit is rejected.

use dandelion::block::{Block, BlockID};
use dandelion::cipher::{Key, Nonce};
use dandelion::encryptable::{decrypt, encrypt};
use dandelion::entity::{Entity, EntityType};
use dandelion::envelope::Envelope;
use dandelion::message::{Message, Messages};
use dandelion::signable::{seal, unseal};
use dandelion::uuid::UUID;
use dandelion::SecretBytes;

fn test_key() -> Key {
    Key::from_exposed((1u8..=32).collect())
}

fn test_nonce(seed: u8) -> Nonce {
    Nonce::from_exact(vec![seed; 24])
}

fn uuid_of(byte: u8) -> UUID {
    UUID::from_exact(vec![byte; 16])
}

#[test]
fn encrypt_decrypt_round_trip() {
    let payload = Messages(vec![Message::Padding(4)]);
    let key = test_key();
    let extra = uuid_of(0x11);
    let sealed = encrypt(&payload, &key, test_nonce(7), &extra);
    let opened: Messages = decrypt(&sealed, &key, &extra).expect("authentic");
    assert_eq!(opened, payload);
}

#[test]
fn associated_data_binds_extra() {
    // Encrypt under extra UUID X; decrypting under Y fails, under X succeeds.
    let payload = Messages(vec![Message::Padding(4)]);
    let key = test_key();
    let x = uuid_of(0x0a);
    let y = uuid_of(0x0b);
    let sealed = encrypt(&payload, &key, test_nonce(9), &x);
    let wrong: Result<Messages, _> = decrypt(&sealed, &key, &y);
    assert!(wrong.is_err());
    let right: Messages = decrypt(&sealed, &key, &x).expect("authentic");
    assert_eq!(right, payload);
}

#[test]
fn any_bit_flip_fails_decryption() {
    let payload = Messages(vec![Message::Padding(4)]);
    let key = test_key();
    let extra = uuid_of(0x22);
    let sealed = encrypt(&payload, &key, test_nonce(3), &extra);

    // Every bit of the ciphertext.
    for i in 0..sealed.ciphertext.len() {
        for bit in 0..8 {
            let mut tampered = sealed.clone();
            tampered.ciphertext[i] ^= 1 << bit;
            let r: Result<Messages, _> = decrypt(&tampered, &key, &extra);
            assert!(r.is_err(), "ciphertext byte {i} bit {bit}");
        }
    }
    // Every bit of the tag.
    for i in 0..16 {
        for bit in 0..8 {
            let mut tampered = sealed.clone();
            tampered.tag.bytes[i] ^= 1 << bit;
            let r: Result<Messages, _> = decrypt(&tampered, &key, &extra);
            assert!(r.is_err(), "tag byte {i} bit {bit}");
        }
    }
    // Every bit of the nonce.
    for i in 0..24 {
        for bit in 0..8 {
            let mut tampered = sealed.clone();
            tampered.nonce.bytes[i] ^= 1 << bit;
            let r: Result<Messages, _> = decrypt(&tampered, &key, &extra);
            assert!(r.is_err(), "nonce byte {i} bit {bit}");
        }
    }
    // Every bit of the extra context.
    for i in 0..16 {
        for bit in 0..8 {
            let mut wrong = uuid_of(0x22);
            wrong.bytes[i] ^= 1 << bit;
            let r: Result<Messages, _> = decrypt(&sealed, &key, &wrong);
            assert!(r.is_err(), "extra byte {i} bit {bit}");
        }
    }
}

#[test]
fn type_uuid_binding() {
    // The associated data is type UUID, then nonce, then extra. Rebuilding it
    // by hand authenticates; flipping one bit of the type UUID does not.
    let payload = Messages(vec![Message::Padding(4)]);
    let key = test_key();
    let extra = uuid_of(0x33);
    let sealed = encrypt(&payload, &key, test_nonce(4), &extra);

    let mut associated = dandelion::constants::messages_type().into_exact();
    associated.extend_from_slice(&sealed.nonce.bytes);
    associated.extend_from_slice(&dandelion::util::serialize(&extra));

    let mut buffer = sealed.ciphertext.clone();
    let ok = key.decrypt_in_place(&sealed.nonce, Some(&associated), &mut buffer, &sealed.tag);
    assert!(ok.is_ok());

    for bit in 0..8 {
        let mut wrong = associated.clone();
        wrong[0] ^= 1 << bit;
        let mut buffer = sealed.ciphertext.clone();
        let r = key.decrypt_in_place(&sealed.nonce, Some(&wrong), &mut buffer, &sealed.tag);
        assert!(r.is_err(), "type uuid bit {bit}");
    }
}

fn keypair(seed: u8) -> (dandelion::sig::PrivateKey, dandelion::sig::PublicKey) {
    let sk = dandelion::sig::PrivateKey::from_exposed(vec![seed; 32]);
    let pk = sk.public_key();
    (sk, pk)
}

fn sample_envelope(sender_key: &dandelion::sig::PublicKey) -> Envelope {
    let (_, recipient_pk) = keypair(0x44);
    Envelope {
        sender: Entity { entity_type: EntityType::Node, public_key: sender_key.duplicate() },
        recipient: Entity { entity_type: EntityType::Endpoint, public_key: recipient_pk },
        payload: encrypt(
            &Messages(vec![Message::Padding(1)]),
            &test_key(),
            test_nonce(5),
            &uuid_of(0x01),
        ),
    }
}

#[test]
fn seal_unseal_round_trip() {
    let (sk, pk) = keypair(0x55);
    let envelope = sample_envelope(&pk);
    let signed = seal(&envelope, &sk).expect("key matches sender");
    let opened: Envelope = unseal(&signed).expect("signature verifies");
    assert_eq!(opened, envelope);
}

#[test]
fn seal_rejects_foreign_key() {
    let (_, pk) = keypair(0x55);
    let (other_sk, _) = keypair(0x66);
    let envelope = sample_envelope(&pk);
    assert!(seal(&envelope, &other_sk).is_err());
}

#[test]
fn unseal_rejects_rewritten_signer() {
    // Swapping in a different public key fails even though the payload is
    // untouched: the signature no longer verifies under the stored signer.
    let (sk, pk) = keypair(0x55);
    let (_, other_pk) = keypair(0x77);
    let envelope = sample_envelope(&pk);
    let mut signed = seal(&envelope, &sk).expect("seal");
    signed.signer = other_pk;
    let opened: Result<Envelope, _> = unseal(&signed);
    assert!(opened.is_err());
}

#[test]
fn unseal_rejects_payload_bit_flips() {
    let (sk, pk) = keypair(0x58);
    let envelope = sample_envelope(&pk);
    let signed = seal(&envelope, &sk).expect("seal");
    for i in 0..signed.payload.len() {
        let mut tampered = signed.clone();
        tampered.payload[i] ^= 0x01;
        let opened: Result<Envelope, _> = unseal(&tampered);
        assert!(opened.is_err(), "payload byte {i}");
    }
}

#[test]
fn block_id_is_deterministic_and_content_sensitive() {
    let block_a = Block::from_exact(vec![0u8; 1 << 20]);
    let id_one = BlockID::compute_from(&block_a);
    let id_two = BlockID::compute_from(&block_a);
    assert!(id_one == id_two);
    assert!(id_one == block_a.compute_id());

    // Flipping any single bit of the block changes the digest; spot-check the
    // first, middle and last bytes over every bit position.
    for &pos in &[0usize, (1 << 19), (1 << 20) - 1] {
        for bit in 0..8 {
            let mut bytes = vec![0u8; 1 << 20];
            bytes[pos] ^= 1 << bit;
            let flipped = BlockID::compute_from(&Block::from_exact(bytes));
            assert!(!(flipped == id_one), "byte {pos} bit {bit}");
        }
    }
}

#[test]
fn diffie_hellman_agrees() {
    let a = dandelion::ecdh::PrivateKey::from_exposed(vec![0x11; 32]);
    let b = dandelion::ecdh::PrivateKey::from_exposed(vec![0x29; 32]);
    let a_pub = a.public_key();
    let b_pub = b.public_key();
    let ab = a.diffie_hellman(&b_pub).expect("accepts every point");
    let ba = b.diffie_hellman(&a_pub).expect("accepts every point");
    assert_eq!(ab.expose(), ba.expose());
}

#[test]
fn hkdf_expand_is_deterministic_per_info() {
    let seed = dandelion::hkdf::Seed::from_key_material(&vec![1, 2, 3], &vec![4, 5, 6]);
    let one = seed.generate(&vec![7]);
    let two = seed.generate(&vec![7]);
    let other = seed.generate(&vec![8]);
    assert_eq!(one.expose(), two.expose());
    assert_ne!(one.expose(), other.expose());
    let wide = seed.generate_into(&vec![7], 64);
    assert_eq!(wide.len(), 64);
    assert_eq!(&wide[0..32], one.expose().as_slice());

    // Extraction really mixes the salt in: a different salt gives a
    // different seed, and so different expanded output.
    let other_seed = dandelion::hkdf::Seed::from_key_material(&vec![9, 9, 9], &vec![4, 5, 6]);
    assert_ne!(seed.expose(), other_seed.expose());
    assert_ne!(one.expose(), other_seed.generate(&vec![7]).expose());
}

#[test]
fn end_to_end_envelope_chain() {
    // Encrypt a message list, address it in an envelope, seal the envelope,
    // carry the sealed bytes over the wire, and reverse every step.
    let (sk, pk) = keypair(0x61);
    let key = test_key();
    let extra = uuid_of(0x42);
    let payload = Messages(vec![Message::Padding(3), Message::Padding(0)]);
    let envelope = Envelope {
        sender: Entity { entity_type: EntityType::Node, public_key: pk.duplicate() },
        recipient: Entity { entity_type: EntityType::Zone, public_key: keypair(0x62).1 },
        payload: encrypt(&payload, &key, test_nonce(8), &extra),
    };
    let signed = seal(&envelope, &sk).expect("seal");
    let wire = dandelion::util::serialize(&signed);
    let carried: dandelion::signable::Signed =
        dandelion::util::deserialize(wire).expect("decode");
    let opened: Envelope = unseal(&carried).expect("verify");
    assert_eq!(opened, envelope);
    let recovered: Messages = decrypt(&opened.payload, &key, &extra).expect("authentic");
    assert_eq!(recovered, payload);
}
