//! A process's copy of the world, and how news changes it.
//!
//! Host and clients alike keep a player table and an enemy list and feed
//! them from datagrams.  Each piece of news belongs to a stream: one per
//! player slot, and one for all that concerns enemies.  The streams are
//! independent: a stamp is compared only with the last stamp of its own
//! stream.  News that fails, for whatever reason, leaves the whole replica
//! exactly as it was.

use crate::codec::{carries, datagram, decode, decoded, lemma_decoded_datagram, MessageKind};
use crate::enemy::{merged, merged_one, with_dead, Enemies, Enemy};
use crate::error::{DecodeError, NetError};
use crate::payload::{Payload, PayloadView};
use crate::player::{moved, slot_in_range, slot_ok, spec_release, Player, PlayerView, Players};
use crate::stream::{lemma_stamped_fields, stamped, unstamp, Stream};
use crate::wire::i32_value;
use vstd::prelude::*;

verus! {

/// The replicated state of one process.
#[derive(Debug)]
pub struct Replica {
    pub players: Players,
    pub enemies: Enemies,
    /// One stream per player slot.
    pub player_streams: [Stream; 4],
    /// The stream of everything that concerns enemies.
    pub enemy_stream: Stream,
}

/// A replica as specifications see it.
pub struct ReplicaView {
    pub players: Seq<PlayerView>,
    pub enemies: Seq<Enemy>,
    pub player_streams: Seq<Stream>,
    pub enemy_stream: Stream,
}

/// The streams of news.
pub enum StreamId {
    /// What concerns the player in one slot.
    Slot(i32),
    /// What concerns enemies.
    Enemies,
}

impl View for Replica {
    type V = ReplicaView;

    open spec fn view(&self) -> ReplicaView {
        ReplicaView {
            players: self.players@,
            enemies: self.enemies@,
            player_streams: self.player_streams@,
            enemy_stream: self.enemy_stream,
        }
    }
}

impl ReplicaView {
    /// Whether the tables have their four places.
    pub open spec fn shaped(self) -> bool {
        self.players.len() == 4 && self.player_streams.len() == 4
    }

    /// The stamp of the last news applied to a stream.
    pub open spec fn last_applied(self, stream: StreamId) -> i32 {
        match stream {
            StreamId::Slot(i) => self.player_streams[i as int].last_applied,
            StreamId::Enemies => self.enemy_stream.last_applied,
        }
    }

    /// This state with `seq` remembered as the last stamp of a stream.
    pub open spec fn with_last_applied(self, stream: StreamId, seq: i32) -> ReplicaView {
        match stream {
            StreamId::Slot(i) => ReplicaView {
                player_streams: self.player_streams.update(i as int, Stream { last_applied: seq }),
                ..self
            },
            StreamId::Enemies => ReplicaView { enemy_stream: Stream { last_applied: seq }, ..self },
        }
    }

    /// This state once the news is applied, stamps aside.
    pub open spec fn told(self, kind: MessageKind, payload: PayloadView) -> ReplicaView {
        match (kind, payload) {
            (MessageKind::PlayerJoin, PayloadView::Player(p)) => ReplicaView {
                players: self.players.update(p.id as int, PlayerView { used: true, ..p }),
                ..self
            },
            (MessageKind::PlayerUpdate, PayloadView::Player(p)) => ReplicaView {
                players: self.players.update(
                    p.id as int,
                    moved(self.players[p.id as int], p.pos, p.rot, p.boat),
                ),
                ..self
            },
            (MessageKind::EnemySpawn, PayloadView::Enemy(e)) => ReplicaView {
                enemies: merged_one(self.enemies, e),
                ..self
            },
            (MessageKind::EnemyState, PayloadView::Enemies(list)) => ReplicaView {
                enemies: merged(list),
                ..self
            },
            (MessageKind::EnemyDeath, PayloadView::Enemy(e)) => ReplicaView {
                enemies: with_dead(self.enemies, e.id),
                ..self
            },
            _ => self,
        }
    }

    /// What applying news with stamp `seq` does to this state, and what it
    /// returns.
    ///
    /// In order: a payload of the wrong shape for its kind is a malformed
    /// packet; a rejection concerns no table and changes nothing; a player
    /// whose `id` is no slot is refused; news that is stale for its stream
    /// is refused; everything else is applied and its stamp remembered.
    pub open spec fn step(self, seq: i32, kind: MessageKind, payload: PayloadView) -> (
        ReplicaView,
        Result<(), NetError>,
    ) {
        if !carries(kind, payload) {
            (self, Err(NetError::Decode(DecodeError::MalformedPacket)))
        } else if kind == MessageKind::PlayerReject {
            (self, Ok(()))
        } else {
            match stream_of(kind, payload) {
                None => (self, Err(NetError::InvalidSlot)),
                Some(stream) => if seq <= self.last_applied(stream) {
                    (self, Err(NetError::StaleUpdate))
                } else {
                    (self.told(kind, payload).with_last_applied(stream, seq), Ok(()))
                },
            }
        }
    }

    /// What receiving a stamped datagram does to this state, and what it
    /// returns: the kind of the news when it was applied.
    pub open spec fn received(self, bytes: Seq<u8>) -> (ReplicaView, Result<MessageKind, NetError>) {
        if bytes.len() < 4 {
            (self, Err(NetError::Decode(DecodeError::MalformedEnvelope)))
        } else {
            let seq = i32_value(bytes.subrange(0, 4));
            match decoded(bytes.subrange(4, bytes.len() as int)) {
                Err(e) => (self, Err(NetError::Decode(e))),
                Ok((kind, payload)) => match self.step(seq, kind, payload) {
                    (next, Ok(_)) => (next, Ok(kind)),
                    (next, Err(e)) => (next, Err(e)),
                },
            }
        }
    }
}

/// The stream that news belongs to, if it belongs to one: the slot that a
/// player's `id` names, or the enemy stream.
pub open spec fn stream_of(kind: MessageKind, payload: PayloadView) -> Option<StreamId> {
    match (kind, payload) {
        (MessageKind::PlayerJoin, PayloadView::Player(p)) => if slot_in_range(p.id as int) {
            Some(StreamId::Slot(p.id))
        } else {
            None
        },
        (MessageKind::PlayerUpdate, PayloadView::Player(p)) => if slot_in_range(p.id as int) {
            Some(StreamId::Slot(p.id))
        } else {
            None
        },
        (MessageKind::EnemySpawn, PayloadView::Enemy(_)) => Some(StreamId::Enemies),
        (MessageKind::EnemyState, PayloadView::Enemies(_)) => Some(StreamId::Enemies),
        (MessageKind::EnemyDeath, PayloadView::Enemy(_)) => Some(StreamId::Enemies),
        _ => None,
    }
}

/// Stale rejection.  News with a stamp that is not newer than the last one
/// applied to its stream is turned away and changes nothing; news with a
/// newer stamp is applied, its stamp becomes the last one of its stream,
/// and no other stream's stamp moves.
pub proof fn lemma_stale_rejection(
    state: ReplicaView,
    seq: i32,
    kind: MessageKind,
    payload: PayloadView,
    stream: StreamId,
)
    requires
        state.shaped(),
        stream_of(kind, payload) == Some(stream),
    ensures
        seq <= state.last_applied(stream) ==> state.step(seq, kind, payload) == (
            state,
            Err::<(), NetError>(NetError::StaleUpdate),
        ),
        seq > state.last_applied(stream) ==> ({
            let (next, r) = state.step(seq, kind, payload);
            &&& r is Ok
            &&& next == state.told(kind, payload).with_last_applied(stream, seq)
            &&& next.last_applied(stream) == seq
            &&& next.last_applied(StreamId::Enemies) == if stream == StreamId::Enemies {
                seq
            } else {
                state.last_applied(StreamId::Enemies)
            }
            &&& forall|i: i32|
                slot_in_range(i as int) && stream != StreamId::Slot(i) ==> #[trigger]
                    next.last_applied(StreamId::Slot(i)) == state.last_applied(StreamId::Slot(i))
        }),
{
}

/// Idempotent snapshots.  Applying a snapshot of the enemies and then the
/// very same news again leaves the state that the first application left:
/// the second is stale.
pub proof fn lemma_snapshot_twice(state: ReplicaView, seq: i32, list: Seq<Enemy>)
    requires
        state.shaped(),
    ensures
        ({
            let news = PayloadView::Enemies(list);
            let once = state.step(seq, MessageKind::EnemyState, news).0;
            let twice = once.step(seq, MessageKind::EnemyState, news).0;
            &&& twice == once
            &&& seq > state.enemy_stream.last_applied ==> once.enemies == merged(list)
        }),
{
}

/// A replica that receives what a sender published applies it as that
/// sender meant it: the stamp and the news survive the wire.
pub proof fn lemma_received_stamped(
    state: ReplicaView,
    seq: i32,
    kind: MessageKind,
    payload: PayloadView,
)
    requires
        carries(kind, payload),
    ensures
        ({
            let (next, r) = state.received(stamped(seq, datagram(kind, payload)));
            let (meant, meant_r) = state.step(seq, kind, payload);
            &&& next == meant
            &&& r is Ok <==> meant_r is Ok
            &&& r matches Ok(k) ==> k == kind
            &&& r matches Err(e) ==> meant_r == Err::<(), NetError>(e)
        }),
{
    lemma_stamped_fields(seq, datagram(kind, payload));
    lemma_decoded_datagram(kind, payload);
}

impl Replica {
    /// The invariant of a replica: that of its player table and that of its
    /// enemy list.
    pub open spec fn wf(&self) -> bool {
        self.players.wf() && self.enemies.wf()
    }

    /// A replica that knows of nobody and nothing.
    pub fn init() -> (replica: Replica)
        ensures
            replica.players@ == Seq::new(4, |i: int| Player::default_view()),
            replica.enemies@ == Seq::<Enemy>::empty(),
            replica.player_streams@ == Seq::new(4, |i: int| Stream { last_applied: 0 }),
            replica.enemy_stream == (Stream { last_applied: 0 }),
            replica@.shaped(),
            replica.wf(),
    {
        let replica = Replica {
            players: Players::init(),
            enemies: Enemies::init(),
            player_streams: [Stream::init(), Stream::init(), Stream::init(), Stream::init()],
            enemy_stream: Stream::init(),
        };
        assert(replica.player_streams@ =~= Seq::new(4, |i: int| Stream { last_applied: 0 }));
        replica
    }

    /// Applies one piece of news that came with stamp `seq`.
    pub fn apply(&mut self, seq: i32, kind: MessageKind, payload: Payload) -> (r: Result<(), NetError>)
        ensures
            (final(self)@, r) == old(self)@.step(seq, kind, payload@),
            r is Err ==> *final(self) == *old(self),
            old(self).wf() ==> final(self).wf(),
    {
        match payload {
            Payload::Player(p) => {
                match kind {
                    MessageKind::PlayerReject => Ok(()),
                    MessageKind::PlayerJoin | MessageKind::PlayerUpdate => {
                        if p.id < 0 || p.id >= 4 {
                            return Err(NetError::InvalidSlot);
                        }
                        let i: usize = p.id as usize;
                        let mut stream = self.player_streams[i];
                        match stream.accept(seq) {
                            Ok(()) => {},
                            Err(e) => {
                                return Err(e);
                            },
                        }
                        self.player_streams[i] = stream;
                        let ghost news = p@;
                        match kind {
                            MessageKind::PlayerJoin => {
                                self.players.player_array[i] = Player {
                                    id: p.id,
                                    addr: p.addr,
                                    pos: p.pos,
                                    rot: p.rot,
                                    boat: p.boat,
                                    used: true,
                                };
                            },
                            _ => {
                                self.players.player_array[i].pos = p.pos;
                                self.players.player_array[i].rot = p.rot;
                                self.players.player_array[i].boat = p.boat;
                            },
                        }
                        proof {
                            let before = old(self)@;
                            let after = before.told(kind, payload@).with_last_applied(
                                StreamId::Slot(news.id),
                                seq,
                            );
                            assert(self@.players =~= after.players);
                            assert(self@.player_streams =~= after.player_streams);
                            if old(self).wf() {
                                assert forall|k: int| 0 <= k < 4 implies slot_ok(
                                    self.players@,
                                    k,
                                ) by {
                                    assert(slot_ok(old(self).players@, k));
                                }
                            }
                        }
                        Ok(())
                    },
                    _ => Err(NetError::Decode(DecodeError::MalformedPacket)),
                }
            },
            Payload::Enemy(e) => {
                match kind {
                    MessageKind::EnemySpawn => {
                        match self.enemy_stream.accept(seq) {
                            Ok(()) => {},
                            Err(e) => {
                                return Err(e);
                            },
                        }
                        self.enemies.merge(e);
                        Ok(())
                    },
                    MessageKind::EnemyDeath => {
                        match self.enemy_stream.accept(seq) {
                            Ok(()) => {},
                            Err(e) => {
                                return Err(e);
                            },
                        }
                        self.enemies.mark_dead(e.id);
                        Ok(())
                    },
                    _ => Err(NetError::Decode(DecodeError::MalformedPacket)),
                }
            },
            Payload::Enemies(list) => {
                match kind {
                    MessageKind::EnemyState => {
                        match self.enemy_stream.accept(seq) {
                            Ok(()) => {},
                            Err(e) => {
                                return Err(e);
                            },
                        }
                        self.enemies.apply_remote_state(list);
                        Ok(())
                    },
                    _ => Err(NetError::Decode(DecodeError::MalformedPacket)),
                }
            },
        }
    }

    /// Takes in one stamped datagram: takes the stamp off, reads the
    /// datagram and applies the news.  Returns the kind of the news that was
    /// applied.  A datagram that cannot be read, names no slot or is stale
    /// is dropped without effect.
    pub fn receive(&mut self, bytes: &[u8]) -> (r: Result<MessageKind, NetError>)
        ensures
            (final(self)@, r) == old(self)@.received(bytes@),
            r is Err ==> *final(self) == *old(self),
            old(self).wf() ==> final(self).wf(),
    {
        let (seq, rest) = match unstamp(bytes) {
            Some(parts) => parts,
            None => {
                return Err(NetError::Decode(DecodeError::MalformedEnvelope));
            },
        };
        proof {
            lemma_stamped_fields(seq, rest@);
        }
        let (kind, packet) = match decode(rest) {
            Ok(told) => told,
            Err(e) => {
                return Err(NetError::Decode(e));
            },
        };
        match self.apply(seq, kind, packet.payload) {
            Ok(()) => Ok(kind),
            Err(e) => Err(e),
        }
    }

    /// Frees a player slot, as after a participant has been silent for too
    /// long: the slot holds the sentinel again and its stream starts over,
    /// so that whoever claims the slot next is heard from the first stamp
    /// on.  A slot index outside `0..4` changes nothing.
    pub fn release(&mut self, slot_index: i32) -> (r: Result<(), NetError>)
        ensures
            slot_in_range(slot_index as int) ==> r is Ok && final(self)@ == (ReplicaView {
                players: spec_release(old(self)@.players, slot_index as int),
                player_streams: old(self)@.player_streams.update(
                    slot_index as int,
                    Stream { last_applied: 0 },
                ),
                ..old(self)@
            }),
            !slot_in_range(slot_index as int) ==> r == Err::<(), NetError>(NetError::InvalidSlot)
                && *final(self) == *old(self),
            old(self).wf() ==> final(self).wf(),
    {
        match self.players.release(slot_index) {
            Ok(()) => {},
            Err(e) => {
                return Err(e);
            },
        }
        self.player_streams[slot_index as usize] = Stream::init();
        proof {
            assert(self@.player_streams =~= old(self)@.player_streams.update(
                slot_index as int,
                Stream { last_applied: 0 },
            ));
        }
        Ok(())
    }
}

} // verus!
