//! What a packet carries, and the bytes it is laid out in.
//!
//! There are three shapes of payload: one player, one enemy, a list of
//! enemies.  Each has one layout, given here as a function from the value to
//! its bytes.  Reading is the inverse of that function and nothing else: it
//! succeeds on exactly the byte strings that are the layout of some value,
//! and returns that value.
//!
//! | shape   | layout                                                        |
//! |---------|---------------------------------------------------------------|
//! | enemy   | id 4, kind 1, translation 12, animation index 8, alive 1      |
//! | enemies | the enemies' layouts, one after the other                     |
//! | player  | id 4, position 12, rotation 16, boat 1, used 1, address UTF-8 |

use crate::enemy::{EType, Enemy};
use crate::geometry::{QuatBits, Vec3Bits};
use crate::player::{Player, PlayerView};
use crate::text::{lemma_utf8_injective, text_from_bytes};
use crate::wire::{
    bool_byte, get_bool, get_i32, get_u32, get_u64, i32_bits, i32_bytes, lemma_i32_bits,
    lemma_u32_bytes_of_value, lemma_u32_value_of_bytes, lemma_u64_bytes_of_value,
    lemma_u64_value_of_bytes, put_bool, put_bytes, put_i32, put_u32, put_u64, u32_bytes, u32_value,
    u64_bytes, u64_value,
};
use vstd::prelude::*;
use vstd::slice::slice_subrange;
use vstd::utf8::*;

verus! {

/// Length of an enemy's layout.
pub const ENEMY_LEN: usize = 26;

/// Length of a player's layout before the address.
pub const PLAYER_HEAD_LEN: usize = 34;

/// The shapes a payload can have.
#[derive(Clone, Copy, Debug, PartialEq, Eq)]
pub enum Shape {
    Player,
    Enemy,
    Enemies,
}

/// What a packet carries.
#[derive(Debug, PartialEq, Eq)]
pub enum Payload {
    Player(Player),
    Enemy(Enemy),
    Enemies(Vec<Enemy>),
}

/// A payload as specifications see it.
pub enum PayloadView {
    Player(PlayerView),
    Enemy(Enemy),
    Enemies(Seq<Enemy>),
}

impl View for Payload {
    type V = PayloadView;

    open spec fn view(&self) -> PayloadView {
        match self {
            Payload::Player(p) => PayloadView::Player(p@),
            Payload::Enemy(e) => PayloadView::Enemy(*e),
            Payload::Enemies(list) => PayloadView::Enemies(list@),
        }
    }
}

impl PayloadView {
    /// The shape of this payload.
    pub open spec fn shape(self) -> Shape {
        match self {
            PayloadView::Player(_) => Shape::Player,
            PayloadView::Enemy(_) => Shape::Enemy,
            PayloadView::Enemies(_) => Shape::Enemies,
        }
    }
}

/// The byte that stands for a kind of enemy.
pub open spec fn etype_byte(etype: EType) -> u8 {
    match etype {
        EType::Bat => 0,
        EType::Kraken => 1,
        EType::GhostShip => 2,
        EType::Rock => 3,
        EType::RSkeleton => 4,
        EType::MSkeleton => 5,
    }
}

/// The layout of a vector: its three components in order.
pub open spec fn vec3_bytes(v: Vec3Bits) -> Seq<u8> {
    u32_bytes(v.x) + u32_bytes(v.y) + u32_bytes(v.z)
}

/// The layout of a quaternion: its four components in order.
pub open spec fn quat_bytes(q: QuatBits) -> Seq<u8> {
    u32_bytes(q.x) + u32_bytes(q.y) + u32_bytes(q.z) + u32_bytes(q.w)
}

/// The layout of an enemy.
pub open spec fn enemy_bytes(e: Enemy) -> Seq<u8> {
    i32_bytes(e.id) + seq![etype_byte(e.etype)] + vec3_bytes(e.translation) + u64_bytes(
        e.animation_index as u64,
    ) + seq![bool_byte(e.alive)]
}

/// The layout of a list of enemies: the enemies' layouts, one after the
/// other.
pub open spec fn enemies_bytes(list: Seq<Enemy>) -> Seq<u8>
    decreases list.len(),
{
    if list.len() == 0 {
        Seq::empty()
    } else {
        enemies_bytes(list.drop_last()) + enemy_bytes(list.last())
    }
}

/// The layout of a player: the fixed fields, then the address to the end.
pub open spec fn player_bytes(p: PlayerView) -> Seq<u8> {
    i32_bytes(p.id) + vec3_bytes(p.pos) + quat_bytes(p.rot) + seq![bool_byte(p.boat)]
        + seq![bool_byte(p.used)] + encode_utf8(p.addr)
}

/// The layout of a payload.
pub open spec fn payload_bytes(payload: PayloadView) -> Seq<u8> {
    match payload {
        PayloadView::Player(p) => player_bytes(p),
        PayloadView::Enemy(e) => enemy_bytes(e),
        PayloadView::Enemies(list) => enemies_bytes(list),
    }
}

/// Where the components of a vector stand in its layout.
pub proof fn lemma_vec3_fields(v: Vec3Bits)
    ensures
        vec3_bytes(v).len() == 12,
        vec3_bytes(v).subrange(0, 4) == u32_bytes(v.x),
        vec3_bytes(v).subrange(4, 8) == u32_bytes(v.y),
        vec3_bytes(v).subrange(8, 12) == u32_bytes(v.z),
{
    lemma_u32_value_of_bytes(v.x);
    lemma_u32_value_of_bytes(v.y);
    lemma_u32_value_of_bytes(v.z);
    assert(vec3_bytes(v).subrange(0, 4) =~= u32_bytes(v.x));
    assert(vec3_bytes(v).subrange(4, 8) =~= u32_bytes(v.y));
    assert(vec3_bytes(v).subrange(8, 12) =~= u32_bytes(v.z));
}

/// Where the components of a quaternion stand in its layout.
pub proof fn lemma_quat_fields(q: QuatBits)
    ensures
        quat_bytes(q).len() == 16,
        quat_bytes(q).subrange(0, 4) == u32_bytes(q.x),
        quat_bytes(q).subrange(4, 8) == u32_bytes(q.y),
        quat_bytes(q).subrange(8, 12) == u32_bytes(q.z),
        quat_bytes(q).subrange(12, 16) == u32_bytes(q.w),
{
    lemma_u32_value_of_bytes(q.x);
    lemma_u32_value_of_bytes(q.y);
    lemma_u32_value_of_bytes(q.z);
    lemma_u32_value_of_bytes(q.w);
    assert(quat_bytes(q).subrange(0, 4) =~= u32_bytes(q.x));
    assert(quat_bytes(q).subrange(4, 8) =~= u32_bytes(q.y));
    assert(quat_bytes(q).subrange(8, 12) =~= u32_bytes(q.z));
    assert(quat_bytes(q).subrange(12, 16) =~= u32_bytes(q.w));
}

/// Vectors with the same layout are the same.
pub proof fn lemma_vec3_injective(a: Vec3Bits, b: Vec3Bits)
    requires
        vec3_bytes(a) == vec3_bytes(b),
    ensures
        a == b,
{
    lemma_vec3_fields(a);
    lemma_vec3_fields(b);
    lemma_u32_value_of_bytes(a.x);
    lemma_u32_value_of_bytes(a.y);
    lemma_u32_value_of_bytes(a.z);
    lemma_u32_value_of_bytes(b.x);
    lemma_u32_value_of_bytes(b.y);
    lemma_u32_value_of_bytes(b.z);
}

/// Quaternions with the same layout are the same.
pub proof fn lemma_quat_injective(a: QuatBits, b: QuatBits)
    requires
        quat_bytes(a) == quat_bytes(b),
    ensures
        a == b,
{
    lemma_quat_fields(a);
    lemma_quat_fields(b);
    lemma_u32_value_of_bytes(a.x);
    lemma_u32_value_of_bytes(a.y);
    lemma_u32_value_of_bytes(a.z);
    lemma_u32_value_of_bytes(a.w);
    lemma_u32_value_of_bytes(b.x);
    lemma_u32_value_of_bytes(b.y);
    lemma_u32_value_of_bytes(b.z);
    lemma_u32_value_of_bytes(b.w);
}

/// Where the fields of an enemy stand in its layout.
pub proof fn lemma_enemy_fields(e: Enemy)
    ensures
        enemy_bytes(e).len() == 26,
        enemy_bytes(e).subrange(0, 4) == i32_bytes(e.id),
        enemy_bytes(e)[4] == etype_byte(e.etype),
        enemy_bytes(e).subrange(5, 17) == vec3_bytes(e.translation),
        enemy_bytes(e).subrange(17, 25) == u64_bytes(e.animation_index as u64),
        enemy_bytes(e)[25] == bool_byte(e.alive),
{
    lemma_u32_value_of_bytes(i32_bits(e.id));
    lemma_vec3_fields(e.translation);
    lemma_u64_value_of_bytes(e.animation_index as u64);
    let b = enemy_bytes(e);
    assert(b.len() == 26);
    assert(b.subrange(0, 4) =~= i32_bytes(e.id));
    assert(b.subrange(5, 17) =~= vec3_bytes(e.translation));
    assert(b.subrange(17, 25) =~= u64_bytes(e.animation_index as u64));
}

/// Enemies with the same layout are the same.
pub proof fn lemma_enemy_injective(a: Enemy, b: Enemy)
    requires
        enemy_bytes(a) == enemy_bytes(b),
    ensures
        a == b,
{
    lemma_enemy_fields(a);
    lemma_enemy_fields(b);
    lemma_u32_value_of_bytes(i32_bits(a.id));
    lemma_u32_value_of_bytes(i32_bits(b.id));
    lemma_i32_bits(a.id, 0);
    lemma_i32_bits(b.id, 0);
    lemma_vec3_injective(a.translation, b.translation);
    lemma_u64_value_of_bytes(a.animation_index as u64);
    lemma_u64_value_of_bytes(b.animation_index as u64);
}

/// A list's layout has twenty-six bytes to the enemy, and enemy `i` is laid
/// out at `26 * i`.
pub proof fn lemma_enemies_record(list: Seq<Enemy>, i: int)
    requires
        0 <= i < list.len(),
    ensures
        enemies_bytes(list).len() == 26 * list.len(),
        enemies_bytes(list).subrange(26 * i, 26 * i + 26) == enemy_bytes(list[i]),
    decreases list.len(),
{
    let front = list.drop_last();
    lemma_enemies_len(front);
    lemma_enemy_fields(list.last());
    if i < front.len() {
        lemma_enemies_record(front, i);
        assert(enemies_bytes(list).subrange(26 * i, 26 * i + 26) =~= enemies_bytes(
            front,
        ).subrange(26 * i, 26 * i + 26));
    } else {
        assert(enemies_bytes(list).subrange(26 * i, 26 * i + 26) =~= enemy_bytes(list.last()));
    }
}

/// A list's layout has twenty-six bytes to the enemy.
pub proof fn lemma_enemies_len(list: Seq<Enemy>)
    ensures
        enemies_bytes(list).len() == 26 * list.len(),
    decreases list.len(),
{
    if list.len() > 0 {
        lemma_enemies_len(list.drop_last());
        lemma_enemy_fields(list.last());
    }
}

/// Lists with the same layout are the same.
pub proof fn lemma_enemies_injective(a: Seq<Enemy>, b: Seq<Enemy>)
    requires
        enemies_bytes(a) == enemies_bytes(b),
    ensures
        a == b,
{
    lemma_enemies_len(a);
    lemma_enemies_len(b);
    assert(a.len() == b.len());
    assert forall|i: int| 0 <= i < a.len() implies a[i] == b[i] by {
        lemma_enemies_record(a, i);
        lemma_enemies_record(b, i);
        lemma_enemy_injective(a[i], b[i]);
    }
    assert(a =~= b);
}

/// Where the fields of a player stand in its layout.
pub proof fn lemma_player_fields(p: PlayerView)
    ensures
        player_bytes(p).len() == 34 + encode_utf8(p.addr).len(),
        player_bytes(p).subrange(0, 4) == i32_bytes(p.id),
        player_bytes(p).subrange(4, 16) == vec3_bytes(p.pos),
        player_bytes(p).subrange(16, 32) == quat_bytes(p.rot),
        player_bytes(p)[32] == bool_byte(p.boat),
        player_bytes(p)[33] == bool_byte(p.used),
        player_bytes(p).subrange(34, player_bytes(p).len() as int) == encode_utf8(p.addr),
{
    lemma_u32_value_of_bytes(i32_bits(p.id));
    lemma_vec3_fields(p.pos);
    lemma_quat_fields(p.rot);
    let b = player_bytes(p);
    assert(b.len() == 34 + encode_utf8(p.addr).len());
    assert(b.subrange(0, 4) =~= i32_bytes(p.id));
    assert(b.subrange(4, 16) =~= vec3_bytes(p.pos));
    assert(b.subrange(16, 32) =~= quat_bytes(p.rot));
    assert(b.subrange(34, b.len() as int) =~= encode_utf8(p.addr));
}

/// Players with the same layout are the same.
pub proof fn lemma_player_injective(a: PlayerView, b: PlayerView)
    requires
        player_bytes(a) == player_bytes(b),
    ensures
        a == b,
{
    lemma_player_fields(a);
    lemma_player_fields(b);
    lemma_u32_value_of_bytes(i32_bits(a.id));
    lemma_u32_value_of_bytes(i32_bits(b.id));
    lemma_i32_bits(a.id, 0);
    lemma_i32_bits(b.id, 0);
    lemma_vec3_injective(a.pos, b.pos);
    lemma_quat_injective(a.rot, b.rot);
    lemma_utf8_injective(a.addr, b.addr);
}

/// Payloads of one shape with the same layout are the same.
pub proof fn lemma_payload_injective(a: PayloadView, b: PayloadView)
    requires
        a.shape() == b.shape(),
        payload_bytes(a) == payload_bytes(b),
    ensures
        a == b,
{
    match (a, b) {
        (PayloadView::Player(p), PayloadView::Player(q)) => lemma_player_injective(p, q),
        (PayloadView::Enemy(e), PayloadView::Enemy(f)) => lemma_enemy_injective(e, f),
        (PayloadView::Enemies(s), PayloadView::Enemies(t)) => lemma_enemies_injective(s, t),
        _ => {},
    }
}

/// The byte that stands for a kind of enemy.
fn etype_to_byte(etype: EType) -> (b: u8)
    ensures
        b == etype_byte(etype),
{
    match etype {
        EType::Bat => 0,
        EType::Kraken => 1,
        EType::GhostShip => 2,
        EType::Rock => 3,
        EType::RSkeleton => 4,
        EType::MSkeleton => 5,
    }
}

/// The kind of enemy that a byte stands for.
fn etype_from_byte(b: u8) -> (r: Option<EType>)
    ensures
        r matches Some(etype) ==> etype_byte(etype) == b,
        r is None ==> forall|etype: EType| #[trigger] etype_byte(etype) != b,
{
    match b {
        0 => Some(EType::Bat),
        1 => Some(EType::Kraken),
        2 => Some(EType::GhostShip),
        3 => Some(EType::Rock),
        4 => Some(EType::RSkeleton),
        5 => Some(EType::MSkeleton),
        _ => None,
    }
}

/// Appends the layout of `v`.
fn put_vec3(out: &mut Vec<u8>, v: Vec3Bits)
    ensures
        final(out)@ == old(out)@ + vec3_bytes(v),
{
    put_u32(out, v.x);
    put_u32(out, v.y);
    put_u32(out, v.z);
    assert(out@ =~= old(out)@ + vec3_bytes(v));
}

/// Reads the vector laid out at `at`.
fn get_vec3(bytes: &[u8], at: usize) -> (v: Vec3Bits)
    requires
        at + 12 <= bytes@.len(),
    ensures
        vec3_bytes(v) == bytes@.subrange(at as int, at + 12),
{
    assert(bytes@.len() == bytes.len());
    let v = Vec3Bits {
        x: get_u32(bytes, at),
        y: get_u32(bytes, at + 4),
        z: get_u32(bytes, at + 8),
    };
    proof {
        lemma_u32_bytes_of_value(bytes@.subrange(at as int, at + 4));
        lemma_u32_bytes_of_value(bytes@.subrange(at + 4, at + 8));
        lemma_u32_bytes_of_value(bytes@.subrange(at + 8, at + 12));
        assert(vec3_bytes(v) =~= bytes@.subrange(at as int, at + 12));
    }
    v
}

/// Appends the layout of `q`.
fn put_quat(out: &mut Vec<u8>, q: QuatBits)
    ensures
        final(out)@ == old(out)@ + quat_bytes(q),
{
    put_u32(out, q.x);
    put_u32(out, q.y);
    put_u32(out, q.z);
    put_u32(out, q.w);
    assert(out@ =~= old(out)@ + quat_bytes(q));
}

/// Reads the quaternion laid out at `at`.
fn get_quat(bytes: &[u8], at: usize) -> (q: QuatBits)
    requires
        at + 16 <= bytes@.len(),
    ensures
        quat_bytes(q) == bytes@.subrange(at as int, at + 16),
{
    assert(bytes@.len() == bytes.len());
    let q = QuatBits {
        x: get_u32(bytes, at),
        y: get_u32(bytes, at + 4),
        z: get_u32(bytes, at + 8),
        w: get_u32(bytes, at + 12),
    };
    proof {
        lemma_u32_bytes_of_value(bytes@.subrange(at as int, at + 4));
        lemma_u32_bytes_of_value(bytes@.subrange(at + 4, at + 8));
        lemma_u32_bytes_of_value(bytes@.subrange(at + 8, at + 12));
        lemma_u32_bytes_of_value(bytes@.subrange(at + 12, at + 16));
        assert(quat_bytes(q) =~= bytes@.subrange(at as int, at + 16));
    }
    q
}

/// Appends the layout of `e`.
pub fn put_enemy(out: &mut Vec<u8>, e: &Enemy)
    ensures
        final(out)@ == old(out)@ + enemy_bytes(*e),
{
    put_i32(out, e.id);
    out.push(etype_to_byte(e.etype));
    put_vec3(out, e.translation);
    put_u64(out, e.animation_index as u64);
    put_bool(out, e.alive);
    assert(out@ =~= old(out)@ + enemy_bytes(*e));
}

/// Twenty-six bytes whose fields are those of `e` are the layout of `e`.
proof fn lemma_enemy_from_fields(record: Seq<u8>, e: Enemy)
    requires
        record.len() == 26,
        record.subrange(0, 4) == i32_bytes(e.id),
        record[4] == etype_byte(e.etype),
        record.subrange(5, 17) == vec3_bytes(e.translation),
        record.subrange(17, 25) == u64_bytes(e.animation_index as u64),
        record[25] == bool_byte(e.alive),
    ensures
        enemy_bytes(e) == record,
{
    lemma_enemy_fields(e);
    let laid = enemy_bytes(e);
    assert forall|i: int| 0 <= i < 26 implies laid[i] == record[i] by {
        if i < 4 {
            assert(laid.subrange(0, 4)[i] == record.subrange(0, 4)[i]);
        } else if 5 <= i < 17 {
            assert(laid.subrange(5, 17)[i - 5] == record.subrange(5, 17)[i - 5]);
        } else if 17 <= i < 25 {
            assert(laid.subrange(17, 25)[i - 17] == record.subrange(17, 25)[i - 17]);
        }
    }
    assert(laid =~= record);
}

/// Bytes whose kind byte, flag byte or animation index no enemy can have
/// are the layout of no enemy.
proof fn lemma_no_enemy(record: Seq<u8>)
    requires
        record.len() == 26,
        ({
            ||| forall|etype: EType| #[trigger] etype_byte(etype) != record[4]
            ||| forall|flag: bool| #[trigger] bool_byte(flag) != record[25]
            ||| u64_value(record.subrange(17, 25)) > usize::MAX
        }),
    ensures
        forall|e: Enemy| #[trigger] enemy_bytes(e) != record,
{
    assert forall|e: Enemy| #[trigger] enemy_bytes(e) != record by {
        lemma_enemy_fields(e);
        lemma_u64_value_of_bytes(e.animation_index as u64);
        if enemy_bytes(e) == record {
            assert(etype_byte(e.etype) == record[4]);
            assert(bool_byte(e.alive) == record[25]);
            assert(u64_value(record.subrange(17, 25)) == e.animation_index);
        }
    }
}

/// Reads the enemy laid out in the twenty-six bytes at `at`, or `None` when
/// those bytes are the layout of no enemy.
pub fn get_enemy(bytes: &[u8], at: usize) -> (r: Option<Enemy>)
    requires
        at + 26 <= bytes@.len(),
    ensures
        r matches Some(e) ==> enemy_bytes(e) == bytes@.subrange(at as int, at + 26),
        r is None ==> forall|e: Enemy| #[trigger]
            enemy_bytes(e) != bytes@.subrange(at as int, at + 26),
{
    assert(bytes@.len() == bytes.len());
    let ghost record = bytes@.subrange(at as int, at + 26);
    let id: i32 = get_i32(bytes, at);
    let kind = etype_from_byte(bytes[at + 4]);
    let translation = get_vec3(bytes, at + 5);
    let frame: u64 = get_u64(bytes, at + 17);
    let alive = get_bool(bytes[at + 25]);
    proof {
        assert(record.subrange(0, 4) =~= bytes@.subrange(at as int, at + 4));
        assert(record.subrange(5, 17) =~= bytes@.subrange(at + 5, at + 17));
        assert(record.subrange(17, 25) =~= bytes@.subrange(at + 17, at + 25));
        assert(record[4] == bytes@[at + 4]);
        assert(record[25] == bytes@[at + 25]);
    }
    if kind.is_none() || alive.is_none() || frame > usize::MAX as u64 {
        proof {
            lemma_no_enemy(record);
        }
        return None;
    }
    let e = Enemy {
        id,
        etype: kind.unwrap(),
        translation,
        animation_index: frame as usize,
        alive: alive.unwrap(),
    };
    proof {
        lemma_u32_bytes_of_value(record.subrange(0, 4));
        lemma_i32_bits(0, u32_value(record.subrange(0, 4)));
        lemma_u64_bytes_of_value(record.subrange(17, 25));
        lemma_enemy_from_fields(record, e);
    }
    Some(e)
}

/// Appends the layout of `list`.
pub fn put_enemies(out: &mut Vec<u8>, list: &Vec<Enemy>)
    ensures
        final(out)@ == old(out)@ + enemies_bytes(list@),
{
    let mut i: usize = 0;
    assert(list@.take(0) =~= Seq::<Enemy>::empty());
    assert(out@ =~= old(out)@ + enemies_bytes(list@.take(0)));
    while i < list.len()
        invariant
            i <= list@.len(),
            out@ == old(out)@ + enemies_bytes(list@.take(i as int)),
        decreases list@.len() - i,
    {
        proof {
            let next = list@.take(i + 1);
            assert(next.drop_last() =~= list@.take(i as int));
            assert(next.last() == list@[i as int]);
            assert(old(out)@ + enemies_bytes(list@.take(i as int)) + enemy_bytes(list@[i as int])
                =~= old(out)@ + enemies_bytes(next));
        }
        put_enemy(out, &list[i]);
        i += 1;
    }
    assert(list@.take(i as int) =~= list@);
}

/// Reads a list of enemies, or `None` when `bytes` is the layout of no
/// list: a length that is no multiple of twenty-six, or a record that is no
/// enemy.
pub fn get_enemies(bytes: &[u8]) -> (r: Option<Vec<Enemy>>)
    ensures
        r matches Some(list) ==> enemies_bytes(list@) == bytes@,
        r is None ==> forall|list: Seq<Enemy>| #[trigger] enemies_bytes(list) != bytes@,
{
    let n: usize = bytes.len();
    if n % 26 != 0 {
        proof {
            assert forall|list: Seq<Enemy>| #[trigger] enemies_bytes(list) != bytes@ by {
                lemma_enemies_len(list);
            }
        }
        return None;
    }
    let count: usize = n / 26;
    let mut out: Vec<Enemy> = Vec::new();
    let mut i: usize = 0;
    assert(bytes@.take(0) =~= enemies_bytes(out@));
    while i < count
        invariant
            n == bytes@.len(),
            n == 26 * count,
            i <= count,
            out@.len() == i,
            enemies_bytes(out@) == bytes@.take(26 * i),
        decreases count - i,
    {
        match get_enemy(bytes, 26 * i) {
            Some(e) => {
                proof {
                    let grown = out@.push(e);
                    assert(grown.drop_last() =~= out@);
                    assert(grown.last() == e);
                    assert(bytes@.take(26 * i) + bytes@.subrange(26 * i, 26 * i + 26)
                        =~= bytes@.take(26 * (i + 1)));
                }
                out.push(e);
            },
            None => {
                proof {
                    assert forall|list: Seq<Enemy>| #[trigger] enemies_bytes(list) != bytes@ by {
                        lemma_enemies_len(list);
                        if enemies_bytes(list) == bytes@ {
                            lemma_enemies_record(list, i as int);
                        }
                    }
                }
                return None;
            },
        }
        i += 1;
    }
    assert(bytes@.take(26 * i) =~= bytes@);
    Some(out)
}

/// Appends the layout of `p`.
pub fn put_player(out: &mut Vec<u8>, p: &Player)
    ensures
        final(out)@ == old(out)@ + player_bytes(p@),
{
    put_i32(out, p.id);
    put_vec3(out, p.pos);
    put_quat(out, p.rot);
    put_bool(out, p.boat);
    put_bool(out, p.used);
    put_bytes(out, p.addr.as_str().as_bytes());
    assert(out@ =~= old(out)@ + player_bytes(p@));
}

/// Bytes whose fields are those of `p` are the layout of `p`.
proof fn lemma_player_from_fields(bytes: Seq<u8>, p: PlayerView)
    requires
        bytes.len() >= 34,
        bytes.subrange(0, 4) == i32_bytes(p.id),
        bytes.subrange(4, 16) == vec3_bytes(p.pos),
        bytes.subrange(16, 32) == quat_bytes(p.rot),
        bytes[32] == bool_byte(p.boat),
        bytes[33] == bool_byte(p.used),
        bytes.subrange(34, bytes.len() as int) == encode_utf8(p.addr),
    ensures
        player_bytes(p) == bytes,
{
    lemma_player_fields(p);
    let laid = player_bytes(p);
    let n = bytes.len() as int;
    assert(laid.len() == n) by {
        assert(bytes.subrange(34, n).len() == n - 34);
    }
    assert forall|i: int| 0 <= i < n implies laid[i] == bytes[i] by {
        if i < 4 {
            assert(laid.subrange(0, 4)[i] == bytes.subrange(0, 4)[i]);
        } else if i < 16 {
            assert(laid.subrange(4, 16)[i - 4] == bytes.subrange(4, 16)[i - 4]);
        } else if i < 32 {
            assert(laid.subrange(16, 32)[i - 16] == bytes.subrange(16, 32)[i - 16]);
        } else if i >= 34 {
            assert(laid.subrange(34, n)[i - 34] == bytes.subrange(34, n)[i - 34]);
        }
    }
    assert(laid =~= bytes);
}

/// Bytes that are too short, or whose flag bytes or address no player can
/// have, are the layout of no player.
proof fn lemma_no_player(bytes: Seq<u8>)
    requires
        ({
            ||| bytes.len() < 34
            ||| forall|flag: bool| #[trigger] bool_byte(flag) != bytes[32]
            ||| forall|flag: bool| #[trigger] bool_byte(flag) != bytes[33]
            ||| forall|t: Seq<char>| #[trigger] encode_utf8(t) != bytes.subrange(
                34,
                bytes.len() as int,
            )
        }),
    ensures
        forall|p: PlayerView| #[trigger] player_bytes(p) != bytes,
{
    assert forall|p: PlayerView| #[trigger] player_bytes(p) != bytes by {
        lemma_player_fields(p);
        if player_bytes(p) == bytes {
            assert(bool_byte(p.boat) == bytes[32]);
            assert(bool_byte(p.used) == bytes[33]);
            assert(encode_utf8(p.addr) == bytes.subrange(34, bytes.len() as int));
        }
    }
}

/// Reads a player, or `None` when `bytes` is the layout of no player: too
/// short for the fixed fields, a flag byte that is neither zero nor one, or
/// an address that is not UTF-8.
pub fn get_player(bytes: &[u8]) -> (r: Option<Player>)
    ensures
        r matches Some(p) ==> player_bytes(p@) == bytes@,
        r is None ==> forall|p: PlayerView| #[trigger] player_bytes(p) != bytes@,
{
    let n: usize = bytes.len();
    if n < 34 {
        proof {
            lemma_no_player(bytes@);
        }
        return None;
    }
    let id: i32 = get_i32(bytes, 0);
    let pos = get_vec3(bytes, 4);
    let rot = get_quat(bytes, 16);
    let boat = get_bool(bytes[32]);
    let used = get_bool(bytes[33]);
    let addr = text_from_bytes(slice_subrange(bytes, 34, n));
    if boat.is_none() || used.is_none() || addr.is_none() {
        proof {
            lemma_no_player(bytes@);
        }
        return None;
    }
    let p = Player {
        id,
        addr: addr.unwrap(),
        pos,
        rot,
        boat: boat.unwrap(),
        used: used.unwrap(),
    };
    proof {
        lemma_u32_bytes_of_value(bytes@.subrange(0, 4));
        lemma_i32_bits(0, u32_value(bytes@.subrange(0, 4)));
        lemma_player_from_fields(bytes@, p@);
    }
    Some(p)
}

impl Payload {
    /// The shape of this payload.
    pub fn shape(&self) -> (shape: Shape)
        ensures
            shape == self@.shape(),
    {
        match self {
            Payload::Player(_) => Shape::Player,
            Payload::Enemy(_) => Shape::Enemy,
            Payload::Enemies(_) => Shape::Enemies,
        }
    }

    /// The layout of this payload.
    pub fn to_bytes(&self) -> (bytes: Vec<u8>)
        ensures
            bytes@ == payload_bytes(self@),
    {
        let mut out: Vec<u8> = Vec::new();
        match self {
            Payload::Player(p) => put_player(&mut out, p),
            Payload::Enemy(e) => put_enemy(&mut out, e),
            Payload::Enemies(list) => put_enemies(&mut out, list),
        }
        assert(out@ =~= payload_bytes(self@));
        out
    }

    /// Reads a payload of the given shape: the one payload of that shape
    /// whose layout is `bytes`, or `None` when there is none.
    pub fn from_bytes(shape: Shape, bytes: &[u8]) -> (r: Option<Payload>)
        ensures
            r matches Some(payload) ==> payload@.shape() == shape && payload_bytes(payload@)
                == bytes@,
            r is None ==> forall|payload: PayloadView|
                payload.shape() == shape ==> #[trigger] payload_bytes(payload) != bytes@,
    {
        match shape {
            Shape::Player => match get_player(bytes) {
                Some(p) => Some(Payload::Player(p)),
                None => None,
            },
            Shape::Enemy => {
                if bytes.len() != 26 {
                    proof {
                        assert forall|e: Enemy| #[trigger] enemy_bytes(e) != bytes@ by {
                            lemma_enemy_fields(e);
                        }
                    }
                    None
                } else {
                    assert(bytes@.subrange(0, 26) =~= bytes@);
                    match get_enemy(bytes, 0) {
                        Some(e) => Some(Payload::Enemy(e)),
                        None => None,
                    }
                }
            },
            Shape::Enemies => match get_enemies(bytes) {
                Some(list) => Some(Payload::Enemies(list)),
                None => None,
            },
        }
    }
}

} // verus!
