//! The wire codec: datagrams that describe themselves.
//!
//! A datagram is an envelope, and an envelope is two strings: a message tag
//! that says what kind of news this is, and a packet that holds the payload
//! as text.  On the wire the envelope is the length of the tag in bytes as a
//! `u64`, the tag, and the packet to the end, both in UTF-8.  The packet is
//! the payload's layout in hexadecimal.
//!
//! Reading goes in two stages on purpose.  First the envelope is taken
//! apart, which needs no knowledge of any payload; then the tag is looked
//! up, and only a known tag lets the packet be read, as the shape of payload
//! that the tag calls for.  A datagram that fails at any stage is reported
//! with the stage it failed at and is otherwise without effect.

use crate::error::DecodeError;
use crate::hex::{from_hex, hex_text, lemma_hex_text_injective, to_hex};
use crate::payload::{lemma_payload_injective, payload_bytes, Payload, PayloadView, Shape};
use crate::text::{lemma_utf8_injective, lemma_utf8_len_bound, text_from_bytes};
use crate::wire::{
    bytes_equal, get_u64, lemma_u64_bytes_of_value, lemma_u64_value_of_bytes, put_bytes, put_u64,
    u64_bytes, u64_value,
};
use vstd::prelude::*;
use vstd::slice::slice_subrange;
use vstd::utf8::*;

verus! {

/// The outer wrapper of every datagram.
#[derive(Debug, PartialEq, Eq)]
pub struct Envelope {
    /// The message tag.
    pub message: String,
    /// The payload, as text.
    pub packet: String,
}

/// An envelope as specifications see it.
pub struct EnvelopeView {
    pub message: Seq<char>,
    pub packet: Seq<char>,
}

/// The inner wrapper: a payload that came out of, or is to go into, a
/// packet.
#[derive(Debug, PartialEq, Eq)]
pub struct Packet<T> {
    pub payload: T,
}

/// The kinds of message, one per tag.
#[derive(Clone, Copy, Debug, PartialEq, Eq)]
pub enum MessageKind {
    /// A player's transform has changed.  Carries the player.
    PlayerUpdate,
    /// A player has claimed a slot.  Carries the player.
    PlayerJoin,
    /// The registry was full and a participant is turned away.  Carries the
    /// player that asked.
    PlayerReject,
    /// The host has spawned an enemy.  Carries the enemy.
    EnemySpawn,
    /// The host's whole list of enemies.  Carries the list.
    EnemyState,
    /// An enemy has died.  Carries the enemy.
    EnemyDeath,
}

impl View for Envelope {
    type V = EnvelopeView;

    open spec fn view(&self) -> EnvelopeView {
        EnvelopeView { message: self.message@, packet: self.packet@ }
    }
}

impl MessageKind {
    /// The tag of this kind.
    pub open spec fn tag(self) -> Seq<char> {
        match self {
            MessageKind::PlayerUpdate => "player_update"@,
            MessageKind::PlayerJoin => "player_join"@,
            MessageKind::PlayerReject => "player_reject"@,
            MessageKind::EnemySpawn => "enemy_spawn"@,
            MessageKind::EnemyState => "enemy_state"@,
            MessageKind::EnemyDeath => "enemy_death"@,
        }
    }

    /// The shape of payload that this kind carries.
    pub open spec fn spec_shape(self) -> Shape {
        match self {
            MessageKind::PlayerUpdate => Shape::Player,
            MessageKind::PlayerJoin => Shape::Player,
            MessageKind::PlayerReject => Shape::Player,
            MessageKind::EnemySpawn => Shape::Enemy,
            MessageKind::EnemyState => Shape::Enemies,
            MessageKind::EnemyDeath => Shape::Enemy,
        }
    }

    /// The shape of payload that this kind carries.
    #[verifier::when_used_as_spec(spec_shape)]
    pub fn shape(self) -> (shape: Shape)
        ensures
            shape == self.spec_shape(),
    {
        match self {
            MessageKind::PlayerUpdate => Shape::Player,
            MessageKind::PlayerJoin => Shape::Player,
            MessageKind::PlayerReject => Shape::Player,
            MessageKind::EnemySpawn => Shape::Enemy,
            MessageKind::EnemyState => Shape::Enemies,
            MessageKind::EnemyDeath => Shape::Enemy,
        }
    }

    /// The tag of this kind.
    pub fn as_str(self) -> (tag: &'static str)
        ensures
            tag@ == self.tag(),
    {
        match self {
            MessageKind::PlayerUpdate => "player_update",
            MessageKind::PlayerJoin => "player_join",
            MessageKind::PlayerReject => "player_reject",
            MessageKind::EnemySpawn => "enemy_spawn",
            MessageKind::EnemyState => "enemy_state",
            MessageKind::EnemyDeath => "enemy_death",
        }
    }

    /// Whether `raw` is this kind's tag in UTF-8.
    fn is_spelled(self, raw: &[u8]) -> (same: bool)
        ensures
            same == (encode_utf8(self.tag()) == raw@),
    {
        bytes_equal(self.as_str().as_bytes(), raw)
    }

    /// The kind that has the given tag, or `None` when no kind has it.
    pub fn from_tag(tag: &str) -> (r: Option<MessageKind>)
        ensures
            r matches Some(kind) ==> kind.tag() == tag@,
            r is None ==> forall|kind: MessageKind| #[trigger] kind.tag() != tag@,
    {
        let raw = tag.as_bytes();
        let found = if MessageKind::PlayerUpdate.is_spelled(raw) {
            Some(MessageKind::PlayerUpdate)
        } else if MessageKind::PlayerJoin.is_spelled(raw) {
            Some(MessageKind::PlayerJoin)
        } else if MessageKind::PlayerReject.is_spelled(raw) {
            Some(MessageKind::PlayerReject)
        } else if MessageKind::EnemySpawn.is_spelled(raw) {
            Some(MessageKind::EnemySpawn)
        } else if MessageKind::EnemyState.is_spelled(raw) {
            Some(MessageKind::EnemyState)
        } else if MessageKind::EnemyDeath.is_spelled(raw) {
            Some(MessageKind::EnemyDeath)
        } else {
            None
        };
        proof {
            if let Some(kind) = found {
                lemma_utf8_injective(kind.tag(), tag@);
            }
        }
        found
    }

    /// No tag is longer than thirteen characters, so none takes more than
    /// fifty-two bytes.
    pub proof fn lemma_tag_len(self)
        ensures
            self.tag().len() <= 13,
            encode_utf8(self.tag()).len() <= 52,
    {
        reveal_strlit("player_update");
        reveal_strlit("player_join");
        reveal_strlit("player_reject");
        reveal_strlit("enemy_spawn");
        reveal_strlit("enemy_state");
        reveal_strlit("enemy_death");
        lemma_utf8_len_bound(self.tag());
    }

    /// Kinds with the same tag are the same.
    pub proof fn lemma_tag_injective(self, other: MessageKind)
        requires
            self.tag() == other.tag(),
        ensures
            self == other,
    {
        reveal_strlit("player_update");
        reveal_strlit("player_join");
        reveal_strlit("player_reject");
        reveal_strlit("enemy_spawn");
        reveal_strlit("enemy_state");
        reveal_strlit("enemy_death");
        assert("player_update"@[7] == 'u');
        assert("player_reject"@[7] == 'r');
        assert("player_join"@[0] == 'p');
        assert("enemy_spawn"@[0] == 'e' && "enemy_spawn"@[9] == 'w');
        assert("enemy_state"@[0] == 'e' && "enemy_state"@[9] == 't');
        assert("enemy_death"@[0] == 'e' && "enemy_death"@[9] == 't' && "enemy_death"@[6] == 'd');
        assert("enemy_state"@[6] == 's');
    }
}

/// The wire form of the envelope with the given tag and packet.
pub open spec fn envelope_bytes(message: Seq<char>, packet: Seq<char>) -> Seq<u8> {
    u64_bytes(encode_utf8(message).len() as u64) + encode_utf8(message) + encode_utf8(packet)
}

/// Whether `bytes` is the wire form of the envelope with the given tag and
/// packet.  A tag whose length does not fit the length field frames
/// nothing.
pub open spec fn frames(message: Seq<char>, packet: Seq<char>, bytes: Seq<u8>) -> bool {
    &&& encode_utf8(message).len() <= u64::MAX
    &&& envelope_bytes(message, packet) == bytes
}

/// Whether `bytes` is the wire form of some envelope.
pub open spec fn is_envelope(bytes: Seq<u8>) -> bool {
    exists|message: Seq<char>, packet: Seq<char>| #[trigger] frames(message, packet, bytes)
}

/// The packet that holds `payload`.
pub open spec fn packet_text(payload: PayloadView) -> Seq<char> {
    hex_text(payload_bytes(payload))
}

/// Whether a message of this kind carries a payload of that shape.
pub open spec fn carries(kind: MessageKind, payload: PayloadView) -> bool {
    payload.shape() == kind.spec_shape()
}

/// Whether `packet` holds a payload that a message of this kind carries.
pub open spec fn is_packet_of(kind: MessageKind, packet: Seq<char>) -> bool {
    exists|payload: PayloadView| carries(kind, payload) && #[trigger] packet_text(payload) == packet
}

/// The datagram that tells `payload` under `kind`.
pub open spec fn datagram(kind: MessageKind, payload: PayloadView) -> Seq<u8> {
    envelope_bytes(kind.tag(), packet_text(payload))
}

/// Whether `bytes` is a datagram that this library could have written.
pub open spec fn is_datagram(bytes: Seq<u8>) -> bool {
    exists|kind: MessageKind, payload: PayloadView|
        carries(kind, payload) && #[trigger] datagram(kind, payload) == bytes
}

/// Whether `bytes` is an envelope whose tag no kind has.
pub open spec fn has_unknown_kind(bytes: Seq<u8>) -> bool {
    exists|message: Seq<char>, packet: Seq<char>| #[trigger]
        frames(message, packet, bytes) && forall|kind: MessageKind| #[trigger]
            kind.tag() != message
}

/// Whether `bytes` is an envelope with a known tag whose packet holds no
/// payload of the shape that the tag calls for.
pub open spec fn has_malformed_packet(bytes: Seq<u8>) -> bool {
    exists|kind: MessageKind, packet: Seq<char>| #[trigger]
        frames(kind.tag(), packet, bytes) && !is_packet_of(kind, packet)
}

/// What reading `bytes` gives: the kind and payload that `bytes` is the
/// datagram of, or the stage at which `bytes` fails to be one.
pub open spec fn decoded(bytes: Seq<u8>) -> Result<(MessageKind, PayloadView), DecodeError> {
    if is_datagram(bytes) {
        Ok(
            choose|told: (MessageKind, PayloadView)|
                carries(told.0, told.1) && datagram(told.0, told.1) == bytes,
        )
    } else if !is_envelope(bytes) {
        Err(DecodeError::MalformedEnvelope)
    } else if has_unknown_kind(bytes) {
        Err(DecodeError::UnknownKind)
    } else {
        Err(DecodeError::MalformedPacket)
    }
}

/// Where the parts of an envelope stand in its wire form.
pub proof fn lemma_envelope_fields(message: Seq<char>, packet: Seq<char>)
    requires
        encode_utf8(message).len() <= u64::MAX,
    ensures
        ({
            let bytes = envelope_bytes(message, packet);
            let tag_len = encode_utf8(message).len() as int;
            &&& bytes.len() == 8 + tag_len + encode_utf8(packet).len()
            &&& u64_value(bytes.subrange(0, 8)) == tag_len
            &&& bytes.subrange(8, 8 + tag_len) == encode_utf8(message)
            &&& bytes.subrange(8 + tag_len, bytes.len() as int) == encode_utf8(packet)
        }),
{
    let bytes = envelope_bytes(message, packet);
    let tag_len = encode_utf8(message).len() as int;
    lemma_u64_value_of_bytes(tag_len as u64);
    assert(bytes.subrange(0, 8) =~= u64_bytes(tag_len as u64));
    assert(bytes.subrange(8, 8 + tag_len) =~= encode_utf8(message));
    assert(bytes.subrange(8 + tag_len, bytes.len() as int) =~= encode_utf8(packet));
}

/// A byte string is the wire form of at most one envelope.
pub proof fn lemma_frames_unique(
    message: Seq<char>,
    packet: Seq<char>,
    other_message: Seq<char>,
    other_packet: Seq<char>,
    bytes: Seq<u8>,
)
    requires
        frames(message, packet, bytes),
        frames(other_message, other_packet, bytes),
    ensures
        message == other_message,
        packet == other_packet,
{
    lemma_envelope_fields(message, packet);
    lemma_envelope_fields(other_message, other_packet);
    lemma_utf8_injective(message, other_message);
    lemma_utf8_injective(packet, other_packet);
}

/// A datagram is the wire form of the envelope with its kind's tag and its
/// payload's packet.
pub proof fn lemma_datagram_frames(kind: MessageKind, payload: PayloadView)
    ensures
        frames(kind.tag(), packet_text(payload), datagram(kind, payload)),
{
    kind.lemma_tag_len();
}

/// Datagrams that are the same tell the same payload under the same kind.
pub proof fn lemma_datagram_injective(
    kind: MessageKind,
    payload: PayloadView,
    other_kind: MessageKind,
    other_payload: PayloadView,
)
    requires
        carries(kind, payload),
        carries(other_kind, other_payload),
        datagram(kind, payload) == datagram(other_kind, other_payload),
    ensures
        kind == other_kind,
        payload == other_payload,
{
    lemma_datagram_frames(kind, payload);
    lemma_datagram_frames(other_kind, other_payload);
    lemma_frames_unique(
        kind.tag(),
        packet_text(payload),
        other_kind.tag(),
        packet_text(other_payload),
        datagram(kind, payload),
    );
    kind.lemma_tag_injective(other_kind);
    lemma_hex_text_injective(payload_bytes(payload), payload_bytes(other_payload));
    lemma_payload_injective(payload, other_payload);
}

/// Round trip: what was written is what is read.  Reading the datagram that
/// tells `payload` under `kind` gives `kind` and `payload` back.
pub proof fn lemma_decoded_datagram(kind: MessageKind, payload: PayloadView)
    requires
        carries(kind, payload),
    ensures
        decoded(datagram(kind, payload)) == Ok::<(MessageKind, PayloadView), DecodeError>(
            (kind, payload),
        ),
{
    let bytes = datagram(kind, payload);
    assert(is_datagram(bytes));
    let told = choose|told: (MessageKind, PayloadView)|
        carries(told.0, told.1) && datagram(told.0, told.1) == bytes;
    assert(carries((kind, payload).0, (kind, payload).1) && datagram(
        (kind, payload).0,
        (kind, payload).1,
    ) == bytes);
    lemma_datagram_injective(kind, payload, told.0, told.1);
}

/// What is read was written: a byte string reads as a kind and a payload
/// only if it is the datagram that tells that payload under that kind.  And
/// each failure names the first stage that fails.
pub proof fn lemma_decoded(bytes: Seq<u8>)
    ensures
        decoded(bytes) matches Ok((kind, payload)) ==> carries(kind, payload) && datagram(
            kind,
            payload,
        ) == bytes,
        decoded(bytes) is Ok <==> is_datagram(bytes),
        decoded(bytes) == Err::<(MessageKind, PayloadView), DecodeError>(
            DecodeError::MalformedEnvelope,
        ) <==> !is_envelope(bytes),
        decoded(bytes) == Err::<(MessageKind, PayloadView), DecodeError>(
            DecodeError::UnknownKind,
        ) <==> has_unknown_kind(bytes),
        decoded(bytes) == Err::<(MessageKind, PayloadView), DecodeError>(
            DecodeError::MalformedPacket,
        ) <==> has_malformed_packet(bytes),
{
    if is_datagram(bytes) {
        let (kind, payload) = choose|kind: MessageKind, payload: PayloadView|
            carries(kind, payload) && #[trigger] datagram(kind, payload) == bytes;
        assert(carries((kind, payload).0, (kind, payload).1) && datagram(
            (kind, payload).0,
            (kind, payload).1,
        ) == bytes);
        lemma_datagram_frames(kind, payload);
        assert(is_envelope(bytes));
        if has_unknown_kind(bytes) {
            let (m, p) = choose|m: Seq<char>, p: Seq<char>| #[trigger]
                frames(m, p, bytes) && forall|k: MessageKind| #[trigger] k.tag() != m;
            lemma_frames_unique(m, p, kind.tag(), packet_text(payload), bytes);
        }
        if has_malformed_packet(bytes) {
            let (k, p) = choose|k: MessageKind, p: Seq<char>| #[trigger]
                frames(k.tag(), p, bytes) && !is_packet_of(k, p);
            lemma_frames_unique(k.tag(), p, kind.tag(), packet_text(payload), bytes);
            k.lemma_tag_injective(kind);
            assert(packet_text(payload) == p);
        }
    } else if is_envelope(bytes) {
        let (m, p) = choose|m: Seq<char>, p: Seq<char>| #[trigger] frames(m, p, bytes);
        if has_unknown_kind(bytes) {
            let (um, up) = choose|um: Seq<char>, up: Seq<char>| #[trigger]
                frames(um, up, bytes) && forall|k: MessageKind| #[trigger] k.tag() != um;
            if has_malformed_packet(bytes) {
                let (k, kp) = choose|k: MessageKind, kp: Seq<char>| #[trigger]
                    frames(k.tag(), kp, bytes) && !is_packet_of(k, kp);
                lemma_frames_unique(um, up, k.tag(), kp, bytes);
            }
        } else {
            assert(!(forall|k: MessageKind| #[trigger] k.tag() != m));
            let k = choose|k: MessageKind| #[trigger] k.tag() == m;
            assert(frames(k.tag(), p, bytes));
            if is_packet_of(k, p) {
                let payload = choose|payload: PayloadView|
                    carries(k, payload) && #[trigger] packet_text(payload) == p;
                assert(datagram(k, payload) == bytes);
            }
        }
    } else {
        if has_unknown_kind(bytes) {
            let (um, up) = choose|um: Seq<char>, up: Seq<char>| #[trigger]
                frames(um, up, bytes) && forall|k: MessageKind| #[trigger] k.tag() != um;
        }
        if has_malformed_packet(bytes) {
            let (k, kp) = choose|k: MessageKind, kp: Seq<char>| #[trigger]
                frames(k.tag(), kp, bytes) && !is_packet_of(k, kp);
        }
    }
}

impl Envelope {
    /// The wire form of this envelope.
    pub fn to_bytes(&self) -> (bytes: Vec<u8>)
        ensures
            bytes@ == envelope_bytes(self.message@, self.packet@),
            frames(self.message@, self.packet@, bytes@),
    {
        let message = self.message.as_str().as_bytes();
        let packet = self.packet.as_str().as_bytes();
        let mut out: Vec<u8> = Vec::new();
        put_u64(&mut out, message.len() as u64);
        put_bytes(&mut out, message);
        put_bytes(&mut out, packet);
        assert(out@ =~= envelope_bytes(self.message@, self.packet@));
        out
    }

    /// First stage of reading: takes a datagram apart into tag and packet
    /// without looking into either.  Fails on exactly the byte strings that
    /// are the wire form of no envelope: fewer than eight bytes, a tag
    /// length that points past the end, or a tag or packet that is not
    /// UTF-8.
    pub fn from_bytes(bytes: &[u8]) -> (r: Result<Envelope, DecodeError>)
        ensures
            r matches Ok(envelope) ==> frames(envelope.message@, envelope.packet@, bytes@),
            r matches Err(e) ==> e == DecodeError::MalformedEnvelope && !is_envelope(bytes@),
    {
        let n: usize = bytes.len();
        if n < 8 {
            proof {
                assert forall|m: Seq<char>, p: Seq<char>| !#[trigger] frames(m, p, bytes@) by {
                    if encode_utf8(m).len() <= u64::MAX {
                        lemma_envelope_fields(m, p);
                    }
                }
            }
            return Err(DecodeError::MalformedEnvelope);
        }
        let tag_len: u64 = get_u64(bytes, 0);
        if tag_len > (n - 8) as u64 {
            proof {
                assert forall|m: Seq<char>, p: Seq<char>| !#[trigger] frames(m, p, bytes@) by {
                    if encode_utf8(m).len() <= u64::MAX {
                        lemma_envelope_fields(m, p);
                    }
                }
            }
            return Err(DecodeError::MalformedEnvelope);
        }
        let split: usize = 8 + tag_len as usize;
        let message = text_from_bytes(slice_subrange(bytes, 8, split));
        let packet = text_from_bytes(slice_subrange(bytes, split, n));
        if message.is_none() || packet.is_none() {
            proof {
                assert forall|m: Seq<char>, p: Seq<char>| !#[trigger] frames(m, p, bytes@) by {
                    if encode_utf8(m).len() <= u64::MAX {
                        lemma_envelope_fields(m, p);
                    }
                }
            }
            return Err(DecodeError::MalformedEnvelope);
        }
        let envelope = Envelope { message: message.unwrap(), packet: packet.unwrap() };
        proof {
            lemma_u64_bytes_of_value(bytes@.subrange(0, 8));
            assert(envelope_bytes(envelope.message@, envelope.packet@) =~= bytes@);
        }
        Ok(envelope)
    }

    /// The envelope that tells `payload` under `kind`.
    pub fn seal(kind: MessageKind, payload: &Payload) -> (envelope: Envelope)
        ensures
            envelope.message@ == kind.tag(),
            envelope.packet@ == packet_text(payload@),
    {
        let raw = payload.to_bytes();
        Envelope { message: kind.as_str().to_owned(), packet: to_hex(raw.as_slice()) }
    }

    /// Second stage of reading: looks the tag up and, if it is known, reads
    /// the packet as the shape of payload that the tag calls for.
    pub fn open(&self) -> (r: Result<(MessageKind, Packet<Payload>), DecodeError>)
        ensures
            match r {
                Ok((kind, packet)) => {
                    &&& kind.tag() == self.message@
                    &&& carries(kind, packet.payload@)
                    &&& packet_text(packet.payload@) == self.packet@
                },
                Err(DecodeError::UnknownKind) => forall|kind: MessageKind| #[trigger]
                    kind.tag() != self.message@,
                Err(DecodeError::MalformedPacket) => exists|kind: MessageKind| #[trigger]
                    kind.tag() == self.message@ && !is_packet_of(kind, self.packet@),
                Err(DecodeError::MalformedEnvelope) => false,
            },
    {
        let kind = match MessageKind::from_tag(self.message.as_str()) {
            Some(kind) => kind,
            None => {
                return Err(DecodeError::UnknownKind);
            },
        };
        let raw = match from_hex(self.packet.as_str()) {
            Some(raw) => raw,
            None => {
                assert(!is_packet_of(kind, self.packet@));
                return Err(DecodeError::MalformedPacket);
            },
        };
        match Payload::from_bytes(kind.shape(), raw.as_slice()) {
            Some(payload) => Ok((kind, Packet { payload })),
            None => {
                proof {
                    assert forall|payload: PayloadView| carries(kind, payload) implies #[trigger]
                        packet_text(payload) != self.packet@ by {
                        if packet_text(payload) == self.packet@ {
                            lemma_hex_text_injective(payload_bytes(payload), raw@);
                        }
                    }
                }
                Err(DecodeError::MalformedPacket)
            },
        }
    }
}

/// Writes the datagram that tells `payload` under `kind`.  Reading it back
/// gives `kind` and `payload`, provided `kind` carries payloads of that
/// shape.
pub fn encode(kind: MessageKind, payload: &Payload) -> (bytes: Vec<u8>)
    ensures
        bytes@ == datagram(kind, payload@),
        carries(kind, payload@) ==> decoded(bytes@) == Ok::<
            (MessageKind, PayloadView),
            DecodeError,
        >((kind, payload@)),
{
    let bytes = Envelope::seal(kind, payload).to_bytes();
    proof {
        if carries(kind, payload@) {
            lemma_decoded_datagram(kind, payload@);
        }
    }
    bytes
}

/// Reads a datagram: the kind and the payload it tells, or the stage at
/// which it fails.
pub fn decode(bytes: &[u8]) -> (r: Result<(MessageKind, Packet<Payload>), DecodeError>)
    ensures
        match r {
            Ok((kind, packet)) => {
                &&& carries(kind, packet.payload@)
                &&& datagram(kind, packet.payload@) == bytes@
                &&& decoded(bytes@) == Ok::<(MessageKind, PayloadView), DecodeError>(
                    (kind, packet.payload@),
                )
            },
            Err(e) => decoded(bytes@) == Err::<(MessageKind, PayloadView), DecodeError>(e),
        },
        r is Ok <==> is_datagram(bytes@),
        r == Err::<(MessageKind, Packet<Payload>), DecodeError>(DecodeError::MalformedEnvelope)
            <==> !is_envelope(bytes@),
        r == Err::<(MessageKind, Packet<Payload>), DecodeError>(DecodeError::UnknownKind)
            <==> has_unknown_kind(bytes@),
        r == Err::<(MessageKind, Packet<Payload>), DecodeError>(DecodeError::MalformedPacket)
            <==> has_malformed_packet(bytes@),
{
    proof {
        lemma_decoded(bytes@);
    }
    let envelope = match Envelope::from_bytes(bytes) {
        Ok(envelope) => envelope,
        Err(e) => {
            return Err(e);
        },
    };
    let r = envelope.open();
    proof {
        match r {
            Ok((kind, ref packet)) => {
                assert(datagram(kind, packet.payload@) == bytes@);
                lemma_decoded_datagram(kind, packet.payload@);
            },
            Err(DecodeError::UnknownKind) => {
                assert(frames(envelope.message@, envelope.packet@, bytes@));
                assert(has_unknown_kind(bytes@));
            },
            Err(DecodeError::MalformedPacket) => {
                let kind = choose|kind: MessageKind| #[trigger]
                    kind.tag() == envelope.message@ && !is_packet_of(kind, envelope.packet@);
                assert(frames(kind.tag(), envelope.packet@, bytes@));
                assert(has_malformed_packet(bytes@));
            },
            Err(DecodeError::MalformedEnvelope) => {},
        }
    }
    r
}

} // verus!
