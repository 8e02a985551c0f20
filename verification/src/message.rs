//! The message multiplex: a tagged union whose every variant carries a
//! length-prefixed body, so that readers can skip messages they do not
//! understand without decoding them.

use vstd::prelude::*;

use crate::attestation::{Attestation, AttestationView};
use crate::bigend::{be_bytes, be_val, lemma_be_bytes_len, lemma_be_roundtrip, lemma_be_val_bound,
    lemma_pow256_table, read_be, write_be};
use crate::block::{Block, BlockID};
use crate::buffer::{Reader, Writer};
use crate::encryptable::Encryptable;
use crate::envelope::{Envelope, EnvelopeView};
use crate::error::Error;
use crate::priority::Priority;
use crate::serial::Serializable;
use crate::util;
use crate::uuid::{Typed, UUID};

verus! {

/// A request naming a block and how urgently it is wanted.
#[derive(Clone, Debug, PartialEq)]
pub struct DesireBlockID {
    pub block_id: BlockID,
    pub priority: Priority,
}

/// The abstract value of a `DesireBlockID`.
#[verifier::ext_equal]
pub struct DesireBlockIDView {
    pub block_id: Seq<u8>,
    pub priority: Priority,
}

impl DeepView for DesireBlockID {
    type V = DesireBlockIDView;

    open spec fn deep_view(&self) -> DesireBlockIDView {
        DesireBlockIDView { block_id: self.block_id.deep_view(), priority: self.priority }
    }
}

impl Serializable for DesireBlockID {
    open spec fn encodable(m: DesireBlockIDView) -> bool {
        m.block_id.len() == 32
    }

    open spec fn encode(m: DesireBlockIDView) -> Seq<u8> {
        m.block_id + Priority::encode(m.priority)
    }

    open spec fn decode(input: Seq<u8>) -> Option<(DesireBlockIDView, int)> {
        if input.len() >= 32 {
            match Priority::decode(input.skip(32)) {
                Some((priority, n)) => Some(
                    (DesireBlockIDView { block_id: input.take(32), priority }, 32 + n),
                ),
                None => None,
            }
        } else {
            None
        }
    }

    open spec fn scan(input: Seq<u8>) -> Option<int> {
        if input.len() >= 33 {
            Some(33)
        } else {
            None
        }
    }

    proof fn lemma_encode_decode(m: DesireBlockIDView, rest: Seq<u8>) {
        let whole = Self::encode(m) + rest;
        assert(whole.take(32) =~= m.block_id);
        assert(whole.skip(32) =~= Priority::encode(m.priority) + rest);
        Priority::lemma_encode_decode(m.priority, rest);
        if let Some((got, n)) = Self::decode(whole) {
            assert(got =~= m);
        }
    }

    proof fn lemma_decode_sound(input: Seq<u8>) {
        if input.len() >= 32 {
            Priority::lemma_decode_sound(input.skip(32));
            if let Some((priority, n)) = Priority::decode(input.skip(32)) {
                lemma_pow256_table();
                lemma_be_bytes_len(crate::priority::priority_code(priority), 1);
            }
        }
    }

    proof fn lemma_scan_sound(input: Seq<u8>) {
        if input.len() >= 32 {
            Priority::lemma_decode_sound(input.skip(32));
        }
    }

    fn wire_size(&self) -> (n: usize) {
        proof {
            lemma_be_bytes_len(crate::priority::priority_code(self.priority), 1);
        }
        33
    }

    fn wire_write(&self, out: &mut Writer) {
        util::fixed_write(out, &self.block_id.0.bytes);
        self.priority.wire_write(out);
        proof {
            assert(final(out)@ =~= old(out)@ + Self::encode(self.deep_view()));
        }
    }

    fn wire_read(input: &mut Reader) -> (r: Result<Self, Error>) {
        let ghost rem0 = old(input).remaining_spec();
        let raw = match util::fixed_read(input, 32) {
            Ok(v) => v,
            Err(e) => {
                return Err(e);
            },
        };
        proof {
            assert(input.remaining_spec() =~= rem0.skip(32));
        }
        let priority = match Priority::wire_read(input) {
            Ok(v) => v,
            Err(e) => {
                return Err(e);
            },
        };
        let result = DesireBlockID {
            block_id: BlockID(crate::digest::Digest { bytes: raw }),
            priority,
        };
        proof {
            if let Some((got, n)) = Self::decode(rem0) {
                assert(got =~= result.deep_view());
            }
        }
        Ok(result)
    }

    fn wire_skip(input: &mut Reader) -> (r: Result<(), Error>) {
        util::fixed_skip(input, 33)
    }
}

/// One protocol message. Unknown discriminants are rejected on read but can
/// still be skipped, because every body is length-prefixed.
#[derive(Clone, Debug, PartialEq)]
pub enum Message {
    Padding(usize),
    Attestation(Attestation),
    Envelope(Envelope),
    HaveBlock(Block),
    WantBlock(DesireBlockID),
    DontWantBlock(BlockID),
}

/// The abstract value of a `Message`.
#[verifier::ext_equal]
pub enum MessageView {
    Padding(usize),
    Attestation(AttestationView),
    Envelope(EnvelopeView),
    HaveBlock(Seq<u8>),
    WantBlock(DesireBlockIDView),
    DontWantBlock(Seq<u8>),
}

impl DeepView for Message {
    type V = MessageView;

    open spec fn deep_view(&self) -> MessageView {
        match self {
            Message::Padding(len) => MessageView::Padding(*len),
            Message::Attestation(a) => MessageView::Attestation(a.deep_view()),
            Message::Envelope(e) => MessageView::Envelope(e.deep_view()),
            Message::HaveBlock(b) => MessageView::HaveBlock(b.deep_view()),
            Message::WantBlock(d) => MessageView::WantBlock(d.deep_view()),
            Message::DontWantBlock(i) => MessageView::DontWantBlock(i.deep_view()),
        }
    }
}

/// The wire discriminant of a message variant.
pub open spec fn message_code(m: MessageView) -> nat {
    match m {
        MessageView::Padding(_) => 0x0000,
        MessageView::Attestation(_) => 0x0001,
        MessageView::Envelope(_) => 0x0002,
        MessageView::HaveBlock(_) => 0x0100,
        MessageView::WantBlock(_) => 0x0101,
        MessageView::DontWantBlock(_) => 0x0102,
    }
}

/// The length-prefixed body of a message.
pub open spec fn message_body(m: MessageView) -> Seq<u8> {
    match m {
        MessageView::Padding(len) => util::varlen_encode(Seq::new(len as nat, |i: int| 0u8)),
        MessageView::Attestation(a) => util::nested_encode::<Attestation>(a),
        MessageView::Envelope(e) => util::nested_encode::<Envelope>(e),
        MessageView::HaveBlock(b) => util::nested_encode::<Block>(b),
        MessageView::WantBlock(d) => util::nested_encode::<DesireBlockID>(d),
        MessageView::DontWantBlock(i) => util::nested_encode::<BlockID>(i),
    }
}

impl Message {
    /// This message's wire discriminant.
    pub fn code(&self) -> (r: u16)
        ensures
            r as nat == message_code(self.deep_view()),
    {
        match self {
            Message::Padding(_) => 0x0000,
            Message::Attestation(_) => 0x0001,
            Message::Envelope(_) => 0x0002,
            Message::HaveBlock(_) => 0x0100,
            Message::WantBlock(_) => 0x0101,
            Message::DontWantBlock(_) => 0x0102,
        }
    }

    /// This message's variant name.
    pub fn name(&self) -> &'static str {
        match self {
            Message::Padding(_) => "Padding",
            Message::Attestation(_) => "Attestation",
            Message::Envelope(_) => "Envelope",
            Message::HaveBlock(_) => "HaveBlock",
            Message::WantBlock(_) => "WantBlock",
            Message::DontWantBlock(_) => "DontWantBlock",
        }
    }
}

impl Serializable for Message {
    open spec fn encodable(m: MessageView) -> bool {
        match m {
            MessageView::Padding(len) => len <= u32::MAX,
            MessageView::Attestation(a) => Attestation::encodable(a) && Attestation::encode(
                a,
            ).len() <= u32::MAX,
            MessageView::Envelope(e) => Envelope::encodable(e) && Envelope::encode(e).len()
                <= u32::MAX,
            MessageView::HaveBlock(b) => Block::encodable(b) && Block::encode(b).len()
                <= u32::MAX,
            MessageView::WantBlock(d) => DesireBlockID::encodable(d) && DesireBlockID::encode(
                d,
            ).len() <= u32::MAX,
            MessageView::DontWantBlock(i) => BlockID::encodable(i) && BlockID::encode(i).len()
                <= u32::MAX,
        }
    }

    open spec fn encode(m: MessageView) -> Seq<u8> {
        be_bytes(message_code(m), 2) + message_body(m)
    }

    open spec fn decode(input: Seq<u8>) -> Option<(MessageView, int)> {
        if input.len() >= 2 {
            let code = be_val(input.take(2));
            let body = input.skip(2);
            if code == 0x0000 {
                match util::varlen_decode(body) {
                    Some((run, n)) => Some((MessageView::Padding(run.len() as usize), 2 + n)),
                    None => None,
                }
            } else if code == 0x0001 {
                match util::nested_decode::<Attestation>(body) {
                    Some((a, n)) => Some((MessageView::Attestation(a), 2 + n)),
                    None => None,
                }
            } else if code == 0x0002 {
                match util::nested_decode::<Envelope>(body) {
                    Some((e, n)) => Some((MessageView::Envelope(e), 2 + n)),
                    None => None,
                }
            } else if code == 0x0100 {
                match util::nested_decode::<Block>(body) {
                    Some((b, n)) => Some((MessageView::HaveBlock(b), 2 + n)),
                    None => None,
                }
            } else if code == 0x0101 {
                match util::nested_decode::<DesireBlockID>(body) {
                    Some((d, n)) => Some((MessageView::WantBlock(d), 2 + n)),
                    None => None,
                }
            } else if code == 0x0102 {
                match util::nested_decode::<BlockID>(body) {
                    Some((i, n)) => Some((MessageView::DontWantBlock(i), 2 + n)),
                    None => None,
                }
            } else {
                None
            }
        } else {
            None
        }
    }

    open spec fn scan(input: Seq<u8>) -> Option<int> {
        if input.len() >= 2 {
            match util::varlen_decode(input.skip(2)) {
                Some((run, n)) => Some(2 + n),
                None => None,
            }
        } else {
            None
        }
    }

    proof fn lemma_encode_decode(m: MessageView, rest: Seq<u8>) {
        lemma_pow256_table();
        lemma_be_bytes_len(message_code(m), 2);
        lemma_be_roundtrip(message_code(m), 2);
        let whole = Self::encode(m) + rest;
        assert(whole.take(2) =~= be_bytes(message_code(m), 2));
        assert(whole.skip(2) =~= message_body(m) + rest);
        match m {
            MessageView::Padding(len) => {
                let zeros = Seq::new(len as nat, |i: int| 0u8);
                util::lemma_varlen_round_trip(zeros, rest);
            },
            MessageView::Attestation(a) => {
                util::lemma_nested_round_trip::<Attestation>(a, rest);
            },
            MessageView::Envelope(e) => {
                util::lemma_nested_round_trip::<Envelope>(e, rest);
            },
            MessageView::HaveBlock(b) => {
                util::lemma_nested_round_trip::<Block>(b, rest);
            },
            MessageView::WantBlock(d) => {
                util::lemma_nested_round_trip::<DesireBlockID>(d, rest);
            },
            MessageView::DontWantBlock(i) => {
                util::lemma_nested_round_trip::<BlockID>(i, rest);
            },
        }
    }

    proof fn lemma_decode_sound(input: Seq<u8>) {
        if input.len() >= 2 {
            let body = input.skip(2);
            util::lemma_varlen_decode_sound(body);
            util::lemma_nested_decode_sound::<Attestation>(body);
            util::lemma_nested_decode_sound::<Envelope>(body);
            util::lemma_nested_decode_sound::<Block>(body);
            util::lemma_nested_decode_sound::<DesireBlockID>(body);
            util::lemma_nested_decode_sound::<BlockID>(body);
            if let Some((m, n)) = Self::decode(input) {
                lemma_be_bytes_len(message_code(m), 2);
            }
        }
    }

    proof fn lemma_scan_sound(input: Seq<u8>) {
        if input.len() >= 2 {
            let body = input.skip(2);
            util::lemma_varlen_decode_sound(body);
        }
    }

    fn wire_size(&self) -> (n: usize) {
        proof {
            lemma_be_bytes_len(message_code(self.deep_view()), 2);
            match self.deep_view() {
                MessageView::Padding(len) => {
                    lemma_be_bytes_len(len as nat, 4);
                },
                MessageView::Attestation(a) => {
                    lemma_be_bytes_len(Attestation::encode(a).len(), 4);
                },
                MessageView::Envelope(e) => {
                    lemma_be_bytes_len(Envelope::encode(e).len(), 4);
                },
                MessageView::HaveBlock(b) => {
                    lemma_be_bytes_len(Block::encode(b).len(), 4);
                },
                MessageView::WantBlock(d) => {
                    lemma_be_bytes_len(DesireBlockID::encode(d).len(), 4);
                },
                MessageView::DontWantBlock(i) => {
                    lemma_be_bytes_len(BlockID::encode(i).len(), 4);
                },
            }
        }
        let body = match self {
            Message::Padding(len) => util::varlen_wire_size(*len),
            Message::Attestation(a) => util::nested_wire_size(a),
            Message::Envelope(e) => util::nested_wire_size(e),
            Message::HaveBlock(b) => util::nested_wire_size(b),
            Message::WantBlock(d) => util::nested_wire_size(d),
            Message::DontWantBlock(i) => util::nested_wire_size(i),
        };
        2 + body
    }

    fn wire_write(&self, out: &mut Writer) {
        let code = self.code();
        write_be(out, code as u128, 2);
        match self {
            Message::Padding(len) => util::varlen_fill(out, 0, *len),
            Message::Attestation(a) => util::nested_write(out, a),
            Message::Envelope(e) => util::nested_write(out, e),
            Message::HaveBlock(b) => util::nested_write(out, b),
            Message::WantBlock(d) => util::nested_write(out, d),
            Message::DontWantBlock(i) => util::nested_write(out, i),
        }
        proof {
            assert(final(out)@ =~= old(out)@ + Self::encode(self.deep_view()));
        }
    }

    fn wire_read(input: &mut Reader) -> (r: Result<Self, Error>) {
        let ghost rem0 = old(input).remaining_spec();
        let n = input.remaining_len();
        if n < 2 {
            return Err(Error);
        }
        let code128 = read_be(input, 2);
        proof {
            lemma_be_val_bound(rem0.take(2));
            lemma_pow256_table();
            assert(input.remaining_spec() =~= rem0.skip(2));
        }
        let code = code128 as u16;
        if code == 0x0000 {
            match util::varlen_skip(input) {
                Ok(len) => Ok(Message::Padding(len)),
                Err(e) => Err(e),
            }
        } else if code == 0x0001 {
            match util::nested_read::<Attestation>(input) {
                Ok(a) => Ok(Message::Attestation(a)),
                Err(e) => Err(e),
            }
        } else if code == 0x0002 {
            match util::nested_read::<Envelope>(input) {
                Ok(e) => Ok(Message::Envelope(e)),
                Err(e) => Err(e),
            }
        } else if code == 0x0100 {
            match util::nested_read::<Block>(input) {
                Ok(b) => Ok(Message::HaveBlock(b)),
                Err(e) => Err(e),
            }
        } else if code == 0x0101 {
            match util::nested_read::<DesireBlockID>(input) {
                Ok(d) => Ok(Message::WantBlock(d)),
                Err(e) => Err(e),
            }
        } else if code == 0x0102 {
            match util::nested_read::<BlockID>(input) {
                Ok(i) => Ok(Message::DontWantBlock(i)),
                Err(e) => Err(e),
            }
        } else {
            Err(Error)
        }
    }

    fn wire_skip(input: &mut Reader) -> (r: Result<(), Error>) {
        let ghost rem0 = old(input).remaining_spec();
        match util::fixed_skip(input, 2) {
            Ok(_) => (),
            Err(e) => {
                return Err(e);
            },
        }
        proof {
            assert(input.remaining_spec() =~= rem0.skip(2));
        }
        match util::varlen_skip(input) {
            Ok(_) => Ok(()),
            Err(e) => Err(e),
        }
    }
}

/// A sequence of messages: the typed payload an envelope carries in
/// encrypted form.
#[derive(Clone, Debug, PartialEq)]
pub struct Messages(pub Vec<Message>);

impl DeepView for Messages {
    type V = Seq<MessageView>;

    open spec fn deep_view(&self) -> Seq<MessageView> {
        self.0.deep_view()
    }
}

impl Typed for Messages {
    open spec fn type_uuid_spec() -> Seq<u8> {
        crate::constants::messages_type_spec()
    }

    proof fn lemma_type_uuid_len() {
    }

    fn type_uuid() -> (u: UUID) {
        crate::constants::messages_type()
    }
}

impl Encryptable for Messages {

}

impl Serializable for Messages {
    open spec fn encodable(m: Seq<MessageView>) -> bool {
        <Vec<Message> as Serializable>::encodable(m)
    }

    open spec fn encode(m: Seq<MessageView>) -> Seq<u8> {
        <Vec<Message> as Serializable>::encode(m)
    }

    open spec fn decode(input: Seq<u8>) -> Option<(Seq<MessageView>, int)> {
        <Vec<Message> as Serializable>::decode(input)
    }

    open spec fn scan(input: Seq<u8>) -> Option<int> {
        <Vec<Message> as Serializable>::scan(input)
    }

    proof fn lemma_encode_decode(m: Seq<MessageView>, rest: Seq<u8>) {
        <Vec<Message> as Serializable>::lemma_encode_decode(m, rest);
    }

    proof fn lemma_decode_sound(input: Seq<u8>) {
        <Vec<Message> as Serializable>::lemma_decode_sound(input);
    }

    proof fn lemma_scan_sound(input: Seq<u8>) {
        <Vec<Message> as Serializable>::lemma_scan_sound(input);
    }

    fn wire_size(&self) -> (n: usize) {
        self.0.wire_size()
    }

    fn wire_write(&self, out: &mut Writer) {
        self.0.wire_write(out);
    }

    fn wire_read(input: &mut Reader) -> (r: Result<Self, Error>) {
        match <Vec<Message> as Serializable>::wire_read(input) {
            Ok(v) => Ok(Messages(v)),
            Err(e) => Err(e),
        }
    }

    fn wire_skip(input: &mut Reader) -> (r: Result<(), Error>) {
        <Vec<Message> as Serializable>::wire_skip(input)
    }
}

} // verus!
