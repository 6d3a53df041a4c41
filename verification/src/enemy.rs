//! The enemy registry: the hostile entities that the host has spawned.
//!
//! The host creates enemies and numbers them from the sequence counter;
//! clients mirror the host's list.  An enemy that dies stays in the list with
//! `alive` cleared, so that whoever draws it can play its death; it goes away
//! with the next snapshot that no longer names it.

use crate::counter::Counter;
use crate::geometry::Vec3Bits;
use vstd::prelude::*;

verus! {

/// The kinds of enemy.
#[derive(Clone, Copy, Debug, PartialEq, Eq)]
pub enum EType {
    Bat,
    Kraken,
    GhostShip,
    Rock,
    RSkeleton,
    MSkeleton,
}

/// One hostile entity.
#[derive(Clone, Copy, Debug, PartialEq, Eq)]
pub struct Enemy {
    /// Assigned by the host; no two enemies of one registry share it.
    pub id: i32,
    pub etype: EType,
    pub translation: Vec3Bits,
    /// Frame of the running animation.  Carried, never interpreted.
    pub animation_index: usize,
    /// Cleared when the enemy dies.
    pub alive: bool,
}

/// The list of enemies that a process knows of.
#[derive(Debug)]
pub struct Enemies {
    pub list: Vec<Enemy>,
}

impl Enemy {
    /// This enemy, dead.
    pub open spec fn killed(self) -> Enemy {
        Enemy { alive: false, ..self }
    }
}

/// Whether some entry of `s` has identifier `id`.
pub open spec fn holds_id(s: Seq<Enemy>, id: i32) -> bool {
    exists|i: int| 0 <= i < s.len() && (#[trigger] s[i]).id == id
}

/// Whether `i` is the place of the first entry of `s` with identifier `id`.
pub open spec fn is_first_with(s: Seq<Enemy>, id: i32, i: int) -> bool {
    &&& 0 <= i < s.len()
    &&& s[i].id == id
    &&& forall|j: int| 0 <= j < i ==> (#[trigger] s[j]).id != id
}

/// Whether no two entries of `s` share an identifier.
pub open spec fn ids_unique(s: Seq<Enemy>) -> bool {
    forall|i: int, j: int|
        0 <= i < j < s.len() ==> (#[trigger] s[i]).id != (#[trigger] s[j]).id
}

/// Whether every identifier in `s` is at most `bound`.
pub open spec fn ids_at_most(s: Seq<Enemy>, bound: int) -> bool {
    forall|i: int| 0 <= i < s.len() ==> (#[trigger] s[i]).id <= bound
}

/// `s` with `e` merged in by identifier: `e` takes the place of the first
/// entry that has its identifier, or goes to the end when there is none.
pub open spec fn merged_one(s: Seq<Enemy>, e: Enemy) -> Seq<Enemy> {
    if holds_id(s, e.id) {
        s.update(choose|i: int| is_first_with(s, e.id, i), e)
    } else {
        s.push(e)
    }
}

/// The entries of `snapshot` merged by identifier into an empty list, in
/// order.  Of several entries with one identifier the last one counts, at
/// the place of the first.
pub open spec fn merged(snapshot: Seq<Enemy>) -> Seq<Enemy>
    decreases snapshot.len(),
{
    if snapshot.len() == 0 {
        Seq::empty()
    } else {
        merged_one(merged(snapshot.drop_last()), snapshot.last())
    }
}

/// What taking over `snapshot` leaves of a list: the snapshot, merged.
/// Nothing of `before` stays.
pub open spec fn applied(before: Seq<Enemy>, snapshot: Seq<Enemy>) -> Seq<Enemy> {
    merged(snapshot)
}

/// `s` with every entry that has identifier `id` marked dead.
pub open spec fn with_dead(s: Seq<Enemy>, id: i32) -> Seq<Enemy> {
    Seq::new(
        s.len(),
        |i: int|
            if s[i].id == id {
                s[i].killed()
            } else {
                s[i]
            },
    )
}

/// If any entry has the identifier, exactly one place is the first such.
pub proof fn lemma_first_with(s: Seq<Enemy>, id: i32)
    requires
        holds_id(s, id),
    ensures
        is_first_with(s, id, choose|i: int| is_first_with(s, id, i)),
    decreases s.len(),
{
    let k = choose|i: int| 0 <= i < s.len() && (#[trigger] s[i]).id == id;
    if exists|j: int| 0 <= j < k && (#[trigger] s[j]).id == id {
        let front = s.take(k);
        let j = choose|j: int| 0 <= j < k && (#[trigger] s[j]).id == id;
        assert(front[j].id == id);
        lemma_first_with(front, id);
        let f = choose|i: int| is_first_with(front, id, i);
        assert(is_first_with(s, id, f)) by {
            assert forall|m: int| 0 <= m < f implies (#[trigger] s[m]).id != id by {
                assert(front[m].id != id);
            }
        }
    } else {
        assert(is_first_with(s, id, k));
    }
}

/// The first place with an identifier is determined by the list.
pub proof fn lemma_first_with_unique(s: Seq<Enemy>, id: i32, i: int, j: int)
    requires
        is_first_with(s, id, i),
        is_first_with(s, id, j),
    ensures
        i == j,
{
}

/// Merging one entry keeps identifiers unique, names exactly the
/// identifiers named before and that of the entry, and stores the entry.
pub proof fn lemma_merged_one(s: Seq<Enemy>, e: Enemy)
    requires
        ids_unique(s),
    ensures
        ids_unique(merged_one(s, e)),
        holds_id(merged_one(s, e), e.id),
        forall|id: i32| id != e.id ==> (holds_id(merged_one(s, e), id) <==> holds_id(s, id)),
        !holds_id(s, e.id) ==> merged_one(s, e) == s.push(e),
{
    let t = merged_one(s, e);
    if holds_id(s, e.id) {
        lemma_first_with(s, e.id);
        let k = choose|i: int| is_first_with(s, e.id, i);
        assert(t[k].id == e.id);
        assert forall|id: i32| id != e.id implies (holds_id(t, id) <==> holds_id(s, id)) by {
            if holds_id(s, id) {
                let m = choose|i: int| 0 <= i < s.len() && (#[trigger] s[i]).id == id;
                assert(t[m].id == id);
            }
            if holds_id(t, id) {
                let m = choose|i: int| 0 <= i < t.len() && (#[trigger] t[i]).id == id;
                assert(s[m].id == id);
            }
        }
        assert forall|i: int, j: int| 0 <= i < j < t.len() implies (#[trigger] t[i]).id != (
        #[trigger] t[j]).id by {
            assert(s[i].id != s[j].id);
            assert(s[i].id == t[i].id);
            assert(s[j].id == t[j].id);
        }
    } else {
        assert(t[s.len() as int].id == e.id);
        assert forall|id: i32| id != e.id implies (holds_id(t, id) <==> holds_id(s, id)) by {
            if holds_id(s, id) {
                let m = choose|i: int| 0 <= i < s.len() && (#[trigger] s[i]).id == id;
                assert(t[m].id == id);
            }
            if holds_id(t, id) {
                let m = choose|i: int| 0 <= i < t.len() && (#[trigger] t[i]).id == id;
                assert(s[m].id == id);
            }
        }
        assert forall|i: int, j: int| 0 <= i < j < t.len() implies (#[trigger] t[i]).id != (
        #[trigger] t[j]).id by {
            if j < s.len() {
                assert(s[i].id != s[j].id);
            } else {
                assert(s[i].id != e.id);
            }
        }
    }
}

/// A merged snapshot has unique identifiers and names exactly the
/// identifiers that the snapshot names.
pub proof fn lemma_merged(snapshot: Seq<Enemy>)
    ensures
        ids_unique(merged(snapshot)),
        forall|id: i32| holds_id(merged(snapshot), id) <==> holds_id(snapshot, id),
    decreases snapshot.len(),
{
    if snapshot.len() > 0 {
        let front = snapshot.drop_last();
        let e = snapshot.last();
        lemma_merged(front);
        lemma_merged_one(merged(front), e);
        assert forall|id: i32| holds_id(merged(snapshot), id) <==> holds_id(snapshot, id) by {
            if holds_id(snapshot, id) && id != e.id {
                let m = choose|i: int|
                    0 <= i < snapshot.len() && (#[trigger] snapshot[i]).id == id;
                assert(front[m].id == id);
            }
            if holds_id(front, id) {
                let m = choose|i: int| 0 <= i < front.len() && (#[trigger] front[i]).id == id;
                assert(snapshot[m].id == id);
            }
            if id == e.id {
                assert(snapshot[snapshot.len() - 1].id == id);
            }
        }
    }
}

/// A snapshot whose identifiers are unique is its own merge.
pub proof fn lemma_merged_of_unique(snapshot: Seq<Enemy>)
    requires
        ids_unique(snapshot),
    ensures
        merged(snapshot) == snapshot,
    decreases snapshot.len(),
{
    if snapshot.len() > 0 {
        let front = snapshot.drop_last();
        let e = snapshot.last();
        assert(ids_unique(front)) by {
            assert forall|i: int, j: int| 0 <= i < j < front.len() implies (#[trigger] front[i]).id
                != (#[trigger] front[j]).id by {
                assert(snapshot[i].id != snapshot[j].id);
            }
        }
        lemma_merged_of_unique(front);
        assert(!holds_id(front, e.id)) by {
            if holds_id(front, e.id) {
                let m = choose|i: int| 0 <= i < front.len() && (#[trigger] front[i]).id == e.id;
                assert(snapshot[m].id != snapshot[snapshot.len() - 1].id);
            }
        }
        assert(front.push(e) =~= snapshot);
    } else {
        assert(merged(snapshot) =~= snapshot);
    }
}

/// Idempotent snapshots.  Taking the same snapshot over twice in a row
/// leaves what taking it over once leaves; and a list that was taken over
/// is its own snapshot.
pub proof fn lemma_snapshot_idempotent(before: Seq<Enemy>, snapshot: Seq<Enemy>)
    ensures
        applied(applied(before, snapshot), snapshot) == applied(before, snapshot),
        applied(before, applied(before, snapshot)) == applied(before, snapshot),
{
    lemma_merged(snapshot);
    lemma_merged_of_unique(merged(snapshot));
}

/// Marking an identifier dead changes no identifier, so unique identifiers
/// stay unique and the same identifiers are named.
pub proof fn lemma_with_dead(s: Seq<Enemy>, id: i32)
    ensures
        with_dead(s, id).len() == s.len(),
        forall|i: int| 0 <= i < s.len() ==> (#[trigger] with_dead(s, id)[i]).id == s[i].id,
        ids_unique(s) ==> ids_unique(with_dead(s, id)),
        forall|other: i32| holds_id(with_dead(s, id), other) <==> holds_id(s, other),
{
    let t = with_dead(s, id);
    assert forall|other: i32| holds_id(t, other) <==> holds_id(s, other) by {
        if holds_id(s, other) {
            let m = choose|i: int| 0 <= i < s.len() && (#[trigger] s[i]).id == other;
            assert(t[m].id == other);
        }
        if holds_id(t, other) {
            let m = choose|i: int| 0 <= i < t.len() && (#[trigger] t[i]).id == other;
            assert(s[m].id == other);
        }
    }
    if ids_unique(s) {
        assert forall|i: int, j: int| 0 <= i < j < t.len() implies (#[trigger] t[i]).id != (
        #[trigger] t[j]).id by {
            assert(s[i].id != s[j].id);
        }
    }
}

impl View for Enemies {
    type V = Seq<Enemy>;

    open spec fn view(&self) -> Seq<Enemy> {
        self.list@
    }
}

impl Enemies {
    /// The registry's invariant: no two entries share an identifier.
    pub open spec fn wf(&self) -> bool {
        ids_unique(self@)
    }

    /// An empty registry.
    pub fn init() -> (enemies: Enemies)
        ensures
            enemies@ == Seq::<Enemy>::empty(),
            enemies.wf(),
    {
        Enemies { list: Vec::new() }
    }

    /// The place of the first entry with identifier `id`.
    fn position(&self, id: i32) -> (r: Option<usize>)
        ensures
            r matches Some(i) ==> is_first_with(self@, id, i as int),
            r is None ==> !holds_id(self@, id),
    {
        let mut i: usize = 0;
        while i < self.list.len()
            invariant
                i <= self@.len(),
                forall|j: int| 0 <= j < i ==> (#[trigger] self@[j]).id != id,
            decreases self@.len() - i,
        {
            if self.list[i].id == id {
                return Some(i);
            }
            i += 1;
        }
        None
    }

    /// Looks an enemy up by identifier: the first entry that has it.
    pub fn get(&self, id: i32) -> (r: Option<&Enemy>)
        ensures
            r is Some <==> holds_id(self@, id),
            r matches Some(e) ==> exists|i: int| is_first_with(self@, id, i) && self@[i] == *e,
    {
        match self.position(id) {
            Some(i) => Some(&self.list[i]),
            None => None,
        }
    }

    /// Host only.  Creates an enemy of the given kind at the given place,
    /// alive and at animation frame zero, under a fresh identifier from
    /// `counter`; appends it and returns it for replication.
    pub fn spawn(
        &mut self,
        counter: &mut Counter,
        etype: EType,
        translation: Vec3Bits,
    ) -> (e: Enemy)
        requires
            old(counter).has_next(),
        ensures
            (*final(counter), e.id) == old(counter).spec_next(),
            e == (Enemy {
                id: (old(counter).count + 1) as i32,
                etype,
                translation,
                animation_index: 0,
                alive: true,
            }),
            final(self)@ == old(self)@.push(e),
            ids_at_most(old(self)@, old(counter).count as int) ==> ids_at_most(
                final(self)@,
                final(counter).count as int,
            ),
            old(self).wf() && ids_at_most(old(self)@, old(counter).count as int)
                ==> final(self).wf(),
    {
        let id: i32 = counter.next();
        let e = Enemy { id, etype, translation, animation_index: 0, alive: true };
        self.list.push(e);
        proof {
            let s = old(self)@;
            let t = self@;
            if ids_at_most(s, old(counter).count as int) {
                assert forall|i: int| 0 <= i < t.len() implies (#[trigger] t[i]).id
                    <= counter.count by {
                    if i < s.len() {
                        assert(s[i].id <= old(counter).count);
                    }
                }
                if ids_unique(s) {
                    assert forall|i: int, j: int| 0 <= i < j < t.len() implies (#[trigger] t[i]).id
                        != (#[trigger] t[j]).id by {
                        if j < s.len() {
                            assert(s[i].id != s[j].id);
                        } else {
                            assert(s[i].id <= old(counter).count);
                        }
                    }
                }
            }
        }
        e
    }

    /// Merges one enemy in by identifier: it takes the place of the first
    /// entry that has its identifier, or goes to the end when there is none.
    pub fn merge(&mut self, e: Enemy)
        ensures
            final(self)@ == merged_one(old(self)@, e),
            old(self).wf() ==> final(self).wf(),
    {
        proof {
            if self.wf() {
                lemma_merged_one(self@, e);
            }
        }
        match self.position(e.id) {
            Some(i) => {
                proof {
                    lemma_first_with(self@, e.id);
                    lemma_first_with_unique(
                        self@,
                        e.id,
                        i as int,
                        choose|k: int| is_first_with(self@, e.id, k),
                    );
                }
                self.list[i] = e;
            },
            None => {
                self.list.push(e);
            },
        }
    }

    /// Client only.  Takes over a snapshot from the host: afterwards the
    /// registry names exactly the identifiers that the snapshot names, so
    /// whatever the snapshot no longer names is gone.  The entries are merged
    /// by identifier; a snapshot without repeated identifiers, as the host
    /// sends it, is taken over as it is.
    pub fn apply_remote_state(&mut self, list: Vec<Enemy>)
        ensures
            final(self)@ == applied(old(self)@, list@),
            final(self)@ == merged(list@),
            final(self).wf(),
            ids_unique(list@) ==> final(self)@ == list@,
            forall|id: i32| holds_id(final(self)@, id) <==> holds_id(list@, id),
    {
        let mut fresh = Enemies { list: Vec::new() };
        let mut i: usize = 0;
        assert(list@.take(0) =~= Seq::<Enemy>::empty());
        while i < list.len()
            invariant
                i <= list@.len(),
                fresh@ == merged(list@.take(i as int)),
            decreases list@.len() - i,
        {
            proof {
                let next = list@.take(i + 1);
                assert(next.drop_last() =~= list@.take(i as int));
                assert(next.last() == list@[i as int]);
            }
            fresh.merge(list[i]);
            i += 1;
        }
        proof {
            assert(list@.take(i as int) =~= list@);
            lemma_merged(list@);
            if ids_unique(list@) {
                lemma_merged_of_unique(list@);
            }
        }
        self.list = fresh.list;
    }

    /// Marks the enemy with identifier `id` dead.  The entry stays in the
    /// registry.  Returns whether there was such an enemy.
    pub fn mark_dead(&mut self, id: i32) -> (found: bool)
        ensures
            found == holds_id(old(self)@, id),
            final(self)@ == with_dead(old(self)@, id),
            old(self).wf() ==> final(self).wf(),
    {
        let mut found = false;
        let mut i: usize = 0;
        while i < self.list.len()
            invariant
                i <= self@.len(),
                self@.len() == old(self)@.len(),
                forall|j: int| 0 <= j < i ==> #[trigger] self@[j] == with_dead(old(self)@, id)[j],
                forall|j: int| i <= j < self@.len() ==> #[trigger] self@[j] == old(self)@[j],
                found <==> holds_id(old(self)@.take(i as int), id),
            decreases self@.len() - i,
        {
            let e = self.list[i];
            proof {
                let before = old(self)@.take(i as int);
                let after = old(self)@.take(i + 1);
                if holds_id(before, id) {
                    let m = choose|k: int| 0 <= k < before.len() && (#[trigger] before[k]).id == id;
                    assert(after[m].id == id);
                }
                if e.id == id {
                    assert(after[i as int].id == id);
                }
                if holds_id(after, id) && e.id != id {
                    let m = choose|k: int| 0 <= k < after.len() && (#[trigger] after[k]).id == id;
                    assert(before[m].id == id);
                }
            }
            if e.id == id {
                self.list[i] = Enemy { alive: false, ..e };
                found = true;
            }
            i += 1;
        }
        proof {
            assert(old(self)@.take(i as int) =~= old(self)@);
            assert(self@ =~= with_dead(old(self)@, id));
            lemma_with_dead(old(self)@, id);
        }
        found
    }
}

} // verus!
