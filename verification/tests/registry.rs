use replication::counter::Counter;
use replication::enemy::{EType, Enemies, Enemy};
use replication::error::NetError;
use replication::geometry::{QuatBits, Vec3Bits, HALF_SQRT_2_BITS, ZERO_BITS};
use replication::player::{HostPlayer, Player, Players, SLOTS};

fn at(x: f32, y: f32, z: f32) -> Vec3Bits {
    Vec3Bits { x: x.to_bits(), y: y.to_bits(), z: z.to_bits() }
}

fn enemy(id: i32, etype: EType, alive: bool) -> Enemy {
    Enemy { id, etype, translation: at(1.0, 2.0, 3.0), animation_index: 0, alive }
}

#[test]
fn counter_starts_at_zero() {
    assert_eq!(Counter::init().count, 0);
}

#[test]
fn counter_next_advances_by_one() {
    let mut counter = Counter::init();
    assert_eq!(counter.next(), 1);
    assert_eq!(counter.count, 1);
    assert_eq!(counter.next(), 2);
    assert_eq!(counter.next(), 3);
    assert_eq!(counter.count, 3);
}

#[test]
fn counter_values_strictly_increase() {
    let mut counter = Counter { count: -5 };
    let mut last = counter.count;
    for _ in 0..100 {
        let n = counter.next();
        assert!(n > last);
        last = n;
    }
    assert_eq!(last, 95);
}

#[test]
fn counter_reaches_the_largest_value() {
    let mut counter = Counter { count: i32::MAX - 1 };
    assert_eq!(counter.next(), i32::MAX);
}

#[test]
fn default_player_is_the_sentinel() {
    let p = Player::default();
    assert_eq!(p.id, -1);
    assert_eq!(p.addr, "null");
    assert_eq!(p.pos, Vec3Bits { x: 0, y: 0, z: 0 });
    assert_eq!(p.rot, QuatBits { x: 0x3f35_04f3, y: 0, z: 0, w: 0x3f35_04f3 });
    assert!(p.boat);
    assert!(!p.used);
}

#[test]
fn default_transform_is_a_quarter_turn_at_the_origin() {
    let p = Player::default();
    let turn = glam::Quat::from_rotation_x((90.0_f32).to_radians());
    assert_eq!(p.rot.x, turn.x.to_bits());
    assert_eq!(p.rot.y, turn.y.to_bits());
    assert_eq!(p.rot.z, turn.z.to_bits());
    assert_eq!(p.rot.w, turn.w.to_bits());
    let origin = glam::Vec3::splat(0.);
    assert_eq!(p.pos.x, origin.x.to_bits());
    assert_eq!(p.pos.y, origin.y.to_bits());
    assert_eq!(p.pos.z, origin.z.to_bits());
}

#[test]
fn geometry_constants() {
    assert_eq!(ZERO_BITS, 0.0_f32.to_bits());
    let s = f32::from_bits(HALF_SQRT_2_BITS);
    assert!((s - std::f32::consts::FRAC_1_SQRT_2).abs() < 1e-6);
    assert_eq!(Vec3Bits::zero(), at(0.0, 0.0, 0.0));
    assert_eq!(
        QuatBits::quarter_turn_x(),
        QuatBits { x: HALF_SQRT_2_BITS, y: 0, z: 0, w: HALF_SQRT_2_BITS }
    );
}

#[test]
fn player_clone_is_equal() {
    let p = Player {
        id: 2,
        addr: "10.0.0.7:4000".to_string(),
        pos: at(1.5, -2.0, 0.0),
        rot: QuatBits::quarter_turn_x(),
        boat: false,
        used: true,
    };
    assert_eq!(p.clone(), p);
}

#[test]
fn host_player_holds_a_player() {
    let host = HostPlayer { player: Player::default() };
    assert_eq!(host.player, Player::default());
}

#[test]
fn players_init_is_four_sentinels() {
    let players = Players::init();
    assert_eq!(SLOTS, 4);
    assert_eq!(players.player_array.len(), 4);
    for p in players.player_array.iter() {
        assert_eq!(*p, Player::default());
    }
}

#[test]
fn four_slots_then_full_then_reuse() {
    let mut players = Players::init();
    assert_eq!(players.assign_slot("10.0.0.1:7000"), Ok(0));
    assert_eq!(players.assign_slot("10.0.0.2:7000"), Ok(1));
    assert_eq!(players.assign_slot("10.0.0.3:7000"), Ok(2));
    assert_eq!(players.assign_slot("10.0.0.4:7000"), Ok(3));
    for i in 0..4 {
        assert_eq!(players.player_array[i].id, i as i32);
        assert!(players.player_array[i].used);
        assert_eq!(players.player_array[i].addr, format!("10.0.0.{}:7000", i + 1));
    }
    assert_eq!(players.assign_slot("10.0.0.5:7000"), Err(NetError::RegistryFull));
    assert_eq!(players.player_array[3].addr, "10.0.0.4:7000");
    assert_eq!(players.release(2), Ok(()));
    assert_eq!(players.player_array[2], Player::default());
    assert_eq!(players.assign_slot("10.0.0.5:7000"), Ok(2));
    assert_eq!(players.player_array[2].id, 2);
    assert_eq!(players.player_array[2].addr, "10.0.0.5:7000");
    assert!(players.player_array[2].used);
}

#[test]
fn full_registry_is_left_alone() {
    let mut players = Players::init();
    for i in 0..4 {
        assert_eq!(players.assign_slot(&format!("peer{}", i)), Ok(i));
    }
    let before = players.snapshot();
    assert_eq!(players.assign_slot("late"), Err(NetError::RegistryFull));
    assert_eq!(players.snapshot(), before);
}

#[test]
fn assign_takes_the_lowest_free_slot() {
    let mut players = Players::init();
    for i in 0..4 {
        assert_eq!(players.assign_slot(&format!("peer{}", i)), Ok(i));
    }
    assert_eq!(players.release(3), Ok(()));
    assert_eq!(players.release(1), Ok(()));
    assert_eq!(players.assign_slot("x"), Ok(1));
    assert_eq!(players.assign_slot("y"), Ok(3));
    assert_eq!(players.assign_slot("z"), Err(NetError::RegistryFull));
}

#[test]
fn assign_keeps_the_slot_transform() {
    let mut players = Players::init();
    assert_eq!(players.update(0, at(4.0, 5.0, 6.0), QuatBits { x: 1, y: 2, z: 3, w: 4 }, false), Ok(()));
    assert_eq!(players.assign_slot("peer"), Ok(0));
    let p = &players.player_array[0];
    assert_eq!(p.pos, at(4.0, 5.0, 6.0));
    assert_eq!(p.rot, QuatBits { x: 1, y: 2, z: 3, w: 4 });
    assert!(!p.boat);
}

#[test]
fn update_overwrites_the_transform_only() {
    let mut players = Players::init();
    assert_eq!(players.assign_slot("peer"), Ok(0));
    let rot = QuatBits { x: 9, y: 8, z: 7, w: 6 };
    assert_eq!(players.update(0, at(1.0, 2.0, 3.0), rot, false), Ok(()));
    let p = &players.player_array[0];
    assert_eq!(p.id, 0);
    assert_eq!(p.addr, "peer");
    assert!(p.used);
    assert_eq!(p.pos, at(1.0, 2.0, 3.0));
    assert_eq!(p.rot, rot);
    assert!(!p.boat);
    assert_eq!(players.update(0, at(7.0, 7.0, 7.0), rot, true), Ok(()));
    assert_eq!(players.player_array[0].pos, at(7.0, 7.0, 7.0));
    assert!(players.player_array[0].boat);
    assert_eq!(players.player_array[1], Player::default());
}

#[test]
fn update_rejects_slots_out_of_range() {
    let mut players = Players::init();
    let before = players.snapshot();
    let rot = QuatBits::quarter_turn_x();
    assert_eq!(players.update(4, at(1.0, 1.0, 1.0), rot, false), Err(NetError::InvalidSlot));
    assert_eq!(players.update(-1, at(1.0, 1.0, 1.0), rot, false), Err(NetError::InvalidSlot));
    assert_eq!(players.update(i32::MAX, at(1.0, 1.0, 1.0), rot, false), Err(NetError::InvalidSlot));
    assert_eq!(players.update(i32::MIN, at(1.0, 1.0, 1.0), rot, false), Err(NetError::InvalidSlot));
    assert_eq!(players.snapshot(), before);
    assert_eq!(players.update(3, at(1.0, 1.0, 1.0), rot, false), Ok(()));
}

#[test]
fn release_rejects_slots_out_of_range() {
    let mut players = Players::init();
    assert_eq!(players.assign_slot("peer"), Ok(0));
    let before = players.snapshot();
    assert_eq!(players.release(4), Err(NetError::InvalidSlot));
    assert_eq!(players.release(-1), Err(NetError::InvalidSlot));
    assert_eq!(players.snapshot(), before);
}

#[test]
fn release_of_a_free_slot_keeps_it_free() {
    let mut players = Players::init();
    assert_eq!(players.release(1), Ok(()));
    assert_eq!(players.player_array[1], Player::default());
    assert_eq!(players.assign_slot("peer"), Ok(0));
}

#[test]
fn get_hands_out_participants_only() {
    let mut players = Players::init();
    assert!(players.get(0).is_none());
    assert_eq!(players.assign_slot("peer"), Ok(0));
    assert_eq!(players.get(0).map(|p| p.addr.clone()), Some("peer".to_string()));
    assert!(players.get(1).is_none());
    assert!(players.get(4).is_none());
    assert!(players.get(-1).is_none());
}

#[test]
fn snapshot_copies_the_table() {
    let mut players = Players::init();
    assert_eq!(players.assign_slot("a"), Ok(0));
    assert_eq!(players.assign_slot("b"), Ok(1));
    let copy = players.snapshot();
    assert_eq!(copy[0].addr, "a");
    assert_eq!(copy[1].addr, "b");
    assert_eq!(copy[2], Player::default());
    assert_eq!(copy[3], Player::default());
    assert_eq!(players.release(0), Ok(()));
    assert_eq!(copy[0].addr, "a");
}

#[test]
fn enemies_init_is_empty() {
    assert!(Enemies::init().list.is_empty());
}

#[test]
fn spawn_numbers_from_the_counter() {
    let mut counter = Counter::init();
    let mut enemies = Enemies::init();
    let kraken = enemies.spawn(&mut counter, EType::Kraken, at(10.0, 0.0, 0.0));
    assert_eq!(
        kraken,
        Enemy {
            id: 1,
            etype: EType::Kraken,
            translation: at(10.0, 0.0, 0.0),
            animation_index: 0,
            alive: true,
        }
    );
    let bat = enemies.spawn(&mut counter, EType::Bat, at(0.0, 1.0, 0.0));
    assert_eq!(bat.id, 2);
    assert_eq!(counter.count, 2);
    assert_eq!(enemies.list, vec![kraken, bat]);
}

#[test]
fn get_finds_by_identifier() {
    let mut counter = Counter { count: 40 };
    let mut enemies = Enemies::init();
    let a = enemies.spawn(&mut counter, EType::Rock, at(0.0, 0.0, 0.0));
    let b = enemies.spawn(&mut counter, EType::GhostShip, at(1.0, 0.0, 0.0));
    assert_eq!(enemies.get(41), Some(&a));
    assert_eq!(enemies.get(42), Some(&b));
    assert_eq!(enemies.get(43), None);
    assert_eq!(enemies.get(0), None);
}

#[test]
fn mark_dead_keeps_the_entry() {
    let mut enemies = Enemies { list: vec![enemy(1, EType::Bat, true), enemy(2, EType::Rock, true)] };
    assert!(enemies.mark_dead(1));
    assert_eq!(enemies.list, vec![enemy(1, EType::Bat, false), enemy(2, EType::Rock, true)]);
    assert!(enemies.mark_dead(1));
    assert_eq!(enemies.list.len(), 2);
    assert!(!enemies.mark_dead(9));
    assert_eq!(enemies.list, vec![enemy(1, EType::Bat, false), enemy(2, EType::Rock, true)]);
}

#[test]
fn merge_replaces_or_appends() {
    let mut enemies = Enemies::init();
    enemies.merge(enemy(5, EType::Bat, true));
    enemies.merge(enemy(6, EType::Rock, true));
    assert_eq!(enemies.list, vec![enemy(5, EType::Bat, true), enemy(6, EType::Rock, true)]);
    enemies.merge(enemy(5, EType::MSkeleton, false));
    assert_eq!(enemies.list, vec![enemy(5, EType::MSkeleton, false), enemy(6, EType::Rock, true)]);
}

#[test]
fn snapshot_replaces_the_list() {
    let mut enemies = Enemies { list: vec![enemy(1, EType::Bat, false), enemy(2, EType::Rock, true)] };
    let snapshot = vec![enemy(2, EType::Rock, false), enemy(3, EType::Kraken, true)];
    enemies.apply_remote_state(snapshot.clone());
    assert_eq!(enemies.list, snapshot);
    assert_eq!(enemies.get(1), None);
    enemies.apply_remote_state(Vec::new());
    assert!(enemies.list.is_empty());
}

#[test]
fn snapshot_twice_is_snapshot_once() {
    let snapshot = vec![enemy(7, EType::RSkeleton, true), enemy(3, EType::Kraken, true)];
    let mut once = Enemies { list: vec![enemy(1, EType::Bat, true)] };
    once.apply_remote_state(snapshot.clone());
    let mut twice = Enemies { list: vec![enemy(1, EType::Bat, true)] };
    twice.apply_remote_state(snapshot.clone());
    twice.apply_remote_state(snapshot.clone());
    assert_eq!(once.list, twice.list);
    assert_eq!(once.list, snapshot);
}

#[test]
fn snapshot_with_repeated_identifiers_is_merged() {
    let mut enemies = Enemies::init();
    enemies.apply_remote_state(vec![
        enemy(1, EType::Bat, true),
        enemy(2, EType::Rock, true),
        enemy(1, EType::Kraken, false),
    ]);
    assert_eq!(enemies.list, vec![enemy(1, EType::Kraken, false), enemy(2, EType::Rock, true)]);
}
