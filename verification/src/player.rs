//! The player registry: four slots, one per possible participant.
//!
//! The table never grows or shrinks.  A slot that nobody holds carries a
//! sentinel (`id` of -1, address `"null"`, `used` cleared); claiming a slot
//! writes the claimant's address and the slot's own index into it, and
//! releasing it puts the sentinel back.  Slot 0 is by convention the host.

use crate::error::NetError;
use crate::geometry::{QuatBits, Vec3Bits};
use vstd::prelude::*;

verus! {

/// Number of slots in the registry.
pub const SLOTS: usize = 4;

/// One participant's replicated state.
#[derive(Debug, PartialEq, Eq)]
pub struct Player {
    /// Index of the slot this player holds, or -1 while unassigned.
    pub id: i32,
    /// Where the player's datagrams come from, or `"null"` while unassigned.
    pub addr: String,
    pub pos: Vec3Bits,
    pub rot: QuatBits,
    /// Whether the player is aboard the boat rather than on foot.
    pub boat: bool,
    /// Set once a participant has claimed the slot.
    pub used: bool,
}

/// A player as specifications see it: the address is its characters.
pub struct PlayerView {
    pub id: i32,
    pub addr: Seq<char>,
    pub pos: Vec3Bits,
    pub rot: QuatBits,
    pub boat: bool,
    pub used: bool,
}

/// The host's own player, kept apart from the table for local input.
#[derive(Debug)]
pub struct HostPlayer {
    pub player: Player,
}

/// The table of players.
#[derive(Debug)]
pub struct Players {
    pub player_array: [Player; 4],
}

impl View for Player {
    type V = PlayerView;

    open spec fn view(&self) -> PlayerView {
        PlayerView {
            id: self.id,
            addr: self.addr@,
            pos: self.pos,
            rot: self.rot,
            boat: self.boat,
            used: self.used,
        }
    }
}

impl Clone for Player {
    fn clone(&self) -> (copy: Player)
        ensures
            copy == *self,
    {
        Player {
            id: self.id,
            addr: self.addr.clone(),
            pos: self.pos,
            rot: self.rot,
            boat: self.boat,
            used: self.used,
        }
    }
}

impl Player {
    /// The sentinel that an unassigned slot holds: at the origin, turned a
    /// quarter about the x axis, aboard.
    pub open spec fn default_view() -> PlayerView {
        PlayerView {
            id: -1i32,
            addr: "null"@,
            pos: Vec3Bits::spec_zero(),
            rot: QuatBits::spec_quarter_turn_x(),
            boat: true,
            used: false,
        }
    }

    /// The sentinel that an unassigned slot holds.
    pub fn default() -> (p: Player)
        ensures
            p@ == Player::default_view(),
    {
        Player {
            id: -1,
            addr: "null".to_owned(),
            pos: Vec3Bits::zero(),
            rot: QuatBits::quarter_turn_x(),
            boat: true,
            used: false,
        }
    }
}

/// Whether `slot_index` names one of the four slots.
pub open spec fn slot_in_range(slot_index: int) -> bool {
    0 <= slot_index < 4
}

/// Whether the entry at place `i` is what the registry allows there: a
/// claimed slot knows its own index, an unclaimed one is marked as the
/// sentinel.
pub open spec fn slot_ok(v: Seq<PlayerView>, i: int) -> bool {
    if v[i].used {
        v[i].id == i
    } else {
        v[i].id == -1 && v[i].addr == "null"@
    }
}

/// Whether `i` is the lowest unclaimed slot.
pub open spec fn is_first_free(v: Seq<PlayerView>, i: int) -> bool {
    &&& 0 <= i < v.len()
    &&& !v[i].used
    &&& forall|j: int| 0 <= j < i ==> (#[trigger] v[j]).used
}

/// Whether every slot is claimed.
pub open spec fn is_full(v: Seq<PlayerView>) -> bool {
    forall|i: int| 0 <= i < v.len() ==> (#[trigger] v[i]).used
}

/// The entry `slot` once the participant at `addr` has claimed place `i`.
pub open spec fn claimed(slot: PlayerView, i: int, addr: Seq<char>) -> PlayerView {
    PlayerView { id: i as i32, addr, used: true, ..slot }
}

/// The entry `slot` with a new transform.
pub open spec fn moved(slot: PlayerView, pos: Vec3Bits, rot: QuatBits, boat: bool) -> PlayerView {
    PlayerView { pos, rot, boat, ..slot }
}

/// What `assign_slot` does to a table, and what it returns.
pub open spec fn spec_assign(v: Seq<PlayerView>, addr: Seq<char>) -> (
    Seq<PlayerView>,
    Result<i32, NetError>,
) {
    if is_full(v) {
        (v, Err(NetError::RegistryFull))
    } else {
        let i = choose|i: int| is_first_free(v, i);
        (v.update(i, claimed(v[i], i, addr)), Ok(i as i32))
    }
}

/// What `release` does to a table when the slot is in range.
pub open spec fn spec_release(v: Seq<PlayerView>, slot_index: int) -> Seq<PlayerView> {
    v.update(slot_index, Player::default_view())
}

/// A table that is not full has exactly one lowest unclaimed slot.
pub proof fn lemma_first_free(v: Seq<PlayerView>)
    requires
        !is_full(v),
    ensures
        is_first_free(v, choose|i: int| is_first_free(v, i)),
        forall|i: int, j: int| is_first_free(v, i) && is_first_free(v, j) ==> i == j,
    decreases v.len(),
{
    let k = choose|i: int| 0 <= i < v.len() && !(#[trigger] v[i]).used;
    if exists|j: int| 0 <= j < k && !(#[trigger] v[j]).used {
        let front = v.take(k);
        let j = choose|j: int| 0 <= j < k && !(#[trigger] v[j]).used;
        assert(!front[j].used);
        lemma_first_free(front);
        let f = choose|i: int| is_first_free(front, i);
        assert(is_first_free(v, f)) by {
            assert forall|m: int| 0 <= m < f implies (#[trigger] v[m]).used by {
                assert(front[m].used);
            }
        }
    } else {
        assert(is_first_free(v, k));
    }
}

/// A successful `assign_slot` claims one slot that was free and touches no
/// other.
pub proof fn lemma_assign_claims_one(v: Seq<PlayerView>, addr: Seq<char>)
    requires
        v.len() == 4,
        spec_assign(v, addr).1 is Ok,
    ensures
        ({
            let (w, r) = spec_assign(v, addr);
            let i = r->Ok_0 as int;
            &&& is_first_free(v, i)
            &&& w.len() == v.len()
            &&& w[i] == claimed(v[i], i, addr)
            &&& forall|j: int| 0 <= j < v.len() && j != i ==> #[trigger] w[j] == v[j]
        }),
{
    lemma_first_free(v);
}

/// Capacity: four claims in a row, none released in between, fill the
/// table, so that a fifth is turned away.
pub proof fn lemma_fifth_assign_fails(
    v0: Seq<PlayerView>,
    a1: Seq<char>,
    a2: Seq<char>,
    a3: Seq<char>,
    a4: Seq<char>,
    a5: Seq<char>,
)
    requires
        v0.len() == 4,
        spec_assign(v0, a1).1 is Ok,
        spec_assign(spec_assign(v0, a1).0, a2).1 is Ok,
        spec_assign(spec_assign(spec_assign(v0, a1).0, a2).0, a3).1 is Ok,
        spec_assign(spec_assign(spec_assign(spec_assign(v0, a1).0, a2).0, a3).0, a4).1 is Ok,
    ensures
        ({
            let v4 = spec_assign(spec_assign(spec_assign(spec_assign(v0, a1).0, a2).0, a3).0, a4).0;
            &&& is_full(v4)
            &&& spec_assign(v4, a5) == (v4, Err::<i32, NetError>(NetError::RegistryFull))
        }),
{
    let v1 = spec_assign(v0, a1).0;
    let v2 = spec_assign(v1, a2).0;
    let v3 = spec_assign(v2, a3).0;
    let v4 = spec_assign(v3, a4).0;
    lemma_assign_claims_one(v0, a1);
    lemma_assign_claims_one(v1, a2);
    lemma_assign_claims_one(v2, a3);
    lemma_assign_claims_one(v3, a4);
    let i1 = spec_assign(v0, a1).1->Ok_0 as int;
    let i2 = spec_assign(v1, a2).1->Ok_0 as int;
    let i3 = spec_assign(v2, a3).1->Ok_0 as int;
    let i4 = spec_assign(v3, a4).1->Ok_0 as int;
    assert(v1[i1].used);
    assert(v2[i1].used && v2[i2].used);
    assert(v3[i1].used && v3[i2].used && v3[i3].used);
    assert(v4[i1].used && v4[i2].used && v4[i3].used && v4[i4].used);
    assert(i1 != i2 && i1 != i3 && i1 != i4 && i2 != i3 && i2 != i4 && i3 != i4);
    assert(v4[0].used && v4[1].used && v4[2].used && v4[3].used);
}

/// A released slot can be claimed again: the next claim succeeds, at the
/// released slot or below it, and at the released slot itself when every
/// lower slot is taken.
pub proof fn lemma_release_then_assign(v: Seq<PlayerView>, slot_index: int, addr: Seq<char>)
    requires
        v.len() == 4,
        slot_in_range(slot_index),
    ensures
        ({
            let freed = spec_release(v, slot_index);
            let (w, r) = spec_assign(freed, addr);
            &&& !freed[slot_index].used
            &&& r is Ok
            &&& r->Ok_0 <= slot_index
            &&& (forall|j: int| 0 <= j < slot_index ==> (#[trigger] v[j]).used) ==> r == Ok::<
                i32,
                NetError,
            >(slot_index as i32) && w == freed.update(
                slot_index,
                claimed(Player::default_view(), slot_index, addr),
            )
        }),
{
    let freed = spec_release(v, slot_index);
    assert(!freed[slot_index].used);
    lemma_first_free(freed);
    let i = choose|i: int| is_first_free(freed, i);
    if i > slot_index {
        assert(freed[slot_index].used);
    }
    if forall|j: int| 0 <= j < slot_index ==> (#[trigger] v[j]).used {
        if i < slot_index {
            assert(v[i].used);
            assert(freed[i] == v[i]);
        }
    }
}

impl View for Players {
    type V = Seq<PlayerView>;

    open spec fn view(&self) -> Seq<PlayerView> {
        Seq::new(4, |i: int| self.player_array[i]@)
    }
}

impl Players {
    /// The registry's invariant: every slot is either claimed and knows its
    /// index, or marked as the sentinel.
    pub open spec fn wf(&self) -> bool {
        forall|i: int| 0 <= i < 4 ==> slot_ok(self@, i)
    }

    /// A table of four unassigned slots.
    pub fn init() -> (players: Players)
        ensures
            players@ == Seq::new(4, |i: int| Player::default_view()),
            players.wf(),
    {
        let players = Players {
            player_array: [
                Player::default(),
                Player::default(),
                Player::default(),
                Player::default(),
            ],
        };
        assert(players@ =~= Seq::new(4, |i: int| Player::default_view()));
        players
    }

    /// Claims the lowest unclaimed slot for the participant at `addr` and
    /// returns its index, which also becomes the entry's `id`.  The slot's
    /// transform is left as it was.  With all four slots claimed the table is
    /// left alone and the caller has to turn the participant away.
    pub fn assign_slot(&mut self, addr: &str) -> (r: Result<i32, NetError>)
        ensures
            (final(self)@, r) == spec_assign(old(self)@, addr@),
            match r {
                Ok(i) => {
                    &&& is_first_free(old(self)@, i as int)
                    &&& final(self)@ == old(self)@.update(
                        i as int,
                        claimed(old(self)@[i as int], i as int, addr@),
                    )
                },
                Err(e) => {
                    &&& e == NetError::RegistryFull
                    &&& is_full(old(self)@)
                    &&& *final(self) == *old(self)
                },
            },
            old(self).wf() ==> final(self).wf(),
    {
        let mut i: usize = 0;
        while i < 4
            invariant
                i <= 4,
                *self == *old(self),
                forall|j: int| 0 <= j < i ==> (#[trigger] self@[j]).used,
            decreases 4 - i,
        {
            if !self.player_array[i].used {
                let pos = self.player_array[i].pos;
                let rot = self.player_array[i].rot;
                let boat = self.player_array[i].boat;
                self.player_array[i] = Player {
                    id: i as i32,
                    addr: addr.to_owned(),
                    pos,
                    rot,
                    boat,
                    used: true,
                };
                proof {
                    let before = old(self)@;
                    assert(!before[i as int].used);
                    assert(is_first_free(before, i as int));
                    lemma_first_free(before);
                    assert(self@ =~= before.update(
                        i as int,
                        claimed(before[i as int], i as int, addr@),
                    ));
                    if old(self).wf() {
                        assert forall|k: int| 0 <= k < 4 implies slot_ok(self@, k) by {
                            assert(slot_ok(before, k));
                        }
                    }
                }
                return Ok(i as i32);
            }
            i += 1;
        }
        Err(NetError::RegistryFull)
    }

    /// Overwrites the transform of a slot; identity and claim are left
    /// alone.  The last write wins.  A slot index outside `0..4` changes
    /// nothing.
    pub fn update(
        &mut self,
        slot_index: i32,
        pos: Vec3Bits,
        rot: QuatBits,
        boat: bool,
    ) -> (r: Result<(), NetError>)
        ensures
            slot_in_range(slot_index as int) ==> r is Ok && final(self)@ == old(self)@.update(
                slot_index as int,
                moved(old(self)@[slot_index as int], pos, rot, boat),
            ),
            !slot_in_range(slot_index as int) ==> r == Err::<(), NetError>(NetError::InvalidSlot)
                && *final(self) == *old(self),
            old(self).wf() ==> final(self).wf(),
    {
        if slot_index < 0 || slot_index >= 4 {
            return Err(NetError::InvalidSlot);
        }
        let i: usize = slot_index as usize;
        self.player_array[i].pos = pos;
        self.player_array[i].rot = rot;
        self.player_array[i].boat = boat;
        proof {
            let before = old(self)@;
            assert(self@ =~= before.update(i as int, moved(before[i as int], pos, rot, boat)));
            if old(self).wf() {
                assert forall|k: int| 0 <= k < 4 implies slot_ok(self@, k) by {
                    assert(slot_ok(before, k));
                }
            }
        }
        Ok(())
    }

    /// Puts the sentinel back into a slot, which frees it for the next
    /// claim.  A slot index outside `0..4` changes nothing.
    pub fn release(&mut self, slot_index: i32) -> (r: Result<(), NetError>)
        ensures
            slot_in_range(slot_index as int) ==> r is Ok && final(self)@ == spec_release(
                old(self)@,
                slot_index as int,
            ),
            !slot_in_range(slot_index as int) ==> r == Err::<(), NetError>(NetError::InvalidSlot)
                && *final(self) == *old(self),
            old(self).wf() ==> final(self).wf(),
    {
        if slot_index < 0 || slot_index >= 4 {
            return Err(NetError::InvalidSlot);
        }
        let i: usize = slot_index as usize;
        self.player_array[i] = Player::default();
        proof {
            let before = old(self)@;
            assert(self@ =~= spec_release(before, i as int));
            if old(self).wf() {
                assert forall|k: int| 0 <= k < 4 implies slot_ok(self@, k) by {
                    assert(slot_ok(before, k));
                }
            }
        }
        Ok(())
    }

    /// The participant that holds a slot, or `None` when the index is out of
    /// range or nobody holds the slot: a sentinel is never handed out as a
    /// participant.
    pub fn get(&self, slot_index: i32) -> (r: Option<&Player>)
        ensures
            r is Some <==> slot_in_range(slot_index as int) && self@[slot_index as int].used,
            r matches Some(p) ==> *p == self.player_array[slot_index as int],
    {
        if slot_index < 0 || slot_index >= 4 {
            return None;
        }
        let i: usize = slot_index as usize;
        if self.player_array[i].used {
            Some(&self.player_array[i])
        } else {
            None
        }
    }

    /// A copy of the whole table, sentinels included, to be sent to
    /// participants.
    pub fn snapshot(&self) -> (copy: [Player; 4])
        ensures
            copy == self.player_array,
    {
        let copy = [
            self.player_array[0].clone(),
            self.player_array[1].clone(),
            self.player_array[2].clone(),
            self.player_array[3].clone(),
        ];
        assert(copy =~= self.player_array);
        copy
    }
}

} // verus!
