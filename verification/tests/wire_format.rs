use replication::codec::{decode, encode, Envelope, MessageKind, Packet};
use replication::enemy::{EType, Enemy};
use replication::error::DecodeError;
use replication::geometry::{QuatBits, Vec3Bits};
use replication::hex::{from_hex, to_hex};
use replication::payload::{
    get_enemies, get_enemy, get_player, put_enemies, put_enemy, put_player, Payload, Shape,
    ENEMY_LEN, PLAYER_HEAD_LEN,
};
use replication::player::Player;
use replication::text::text_from_bytes;
use replication::wire::{
    bytes_equal, get_bool, get_i32, get_u32, get_u64, i32_from_bits, i32_to_bits, put_bool,
    put_bytes, put_i32, put_u32, put_u64,
};

fn at(x: f32, y: f32, z: f32) -> Vec3Bits {
    Vec3Bits { x: x.to_bits(), y: y.to_bits(), z: z.to_bits() }
}

fn kraken() -> Enemy {
    Enemy {
        id: 1,
        etype: EType::Kraken,
        translation: at(10.0, 0.0, 0.0),
        animation_index: 0,
        alive: true,
    }
}

fn skeleton() -> Enemy {
    Enemy {
        id: -7,
        etype: EType::MSkeleton,
        translation: at(1.0, 2.0, 3.0),
        animation_index: 258,
        alive: false,
    }
}

fn sailor() -> Player {
    Player {
        id: 2,
        addr: "h\u{e9}llo:7".to_string(),
        pos: at(1.5, -2.0, 0.0),
        rot: QuatBits::quarter_turn_x(),
        boat: false,
        used: true,
    }
}

fn unhex(text: &str) -> Vec<u8> {
    from_hex(text).unwrap()
}

fn envelope(message: &str, packet: &str) -> Vec<u8> {
    Envelope { message: message.to_string(), packet: packet.to_string() }.to_bytes()
}

const KRAKEN_HEX: &str = "0000000101412000000000000000000000000000000000000001";
const SKELETON_HEX: &str = "fffffff9053f8000004000000040400000000000000000010200";
const SAILOR_HEX: &str =
    "000000023fc00000c0000000000000003f3504f300000000000000003f3504f3000168c3a96c6c6f3a37";

#[test]
fn u32_is_big_endian() {
    let mut out = vec![0xaa];
    put_u32(&mut out, 0x0102_0304);
    put_u32(&mut out, 0);
    put_u32(&mut out, u32::MAX);
    assert_eq!(out, vec![0xaa, 1, 2, 3, 4, 0, 0, 0, 0, 255, 255, 255, 255]);
    assert_eq!(get_u32(&out, 1), 0x0102_0304);
    assert_eq!(get_u32(&out, 5), 0);
    assert_eq!(get_u32(&out, 9), u32::MAX);
    assert_eq!(get_u32(&out, 2), 0x0203_0400);
}

#[test]
fn u64_is_big_endian() {
    let mut out = Vec::new();
    put_u64(&mut out, 0x0102_0304_0506_0708);
    put_u64(&mut out, u64::MAX);
    assert_eq!(out[..8], [1, 2, 3, 4, 5, 6, 7, 8]);
    assert_eq!(out[8..], [255; 8]);
    assert_eq!(get_u64(&out, 0), 0x0102_0304_0506_0708);
    assert_eq!(get_u64(&out, 8), u64::MAX);
}

#[test]
fn i32_is_twos_complement() {
    assert_eq!(i32_to_bits(0), 0);
    assert_eq!(i32_to_bits(1), 1);
    assert_eq!(i32_to_bits(-1), 0xffff_ffff);
    assert_eq!(i32_to_bits(i32::MIN), 0x8000_0000);
    assert_eq!(i32_to_bits(i32::MAX), 0x7fff_ffff);
    assert_eq!(i32_from_bits(0xffff_ffff), -1);
    assert_eq!(i32_from_bits(0x8000_0000), i32::MIN);
    assert_eq!(i32_from_bits(0x7fff_ffff), i32::MAX);
    let mut out = Vec::new();
    put_i32(&mut out, -1);
    put_i32(&mut out, i32::MIN);
    put_i32(&mut out, 258);
    assert_eq!(out, vec![255, 255, 255, 255, 128, 0, 0, 0, 0, 0, 1, 2]);
    assert_eq!(get_i32(&out, 0), -1);
    assert_eq!(get_i32(&out, 4), i32::MIN);
    assert_eq!(get_i32(&out, 8), 258);
}

#[test]
fn i32_bits_agree_with_the_machine() {
    for x in [0, 1, -1, 7, -7, 65536, -65536, i32::MAX, i32::MIN, i32::MIN + 1] {
        assert_eq!(i32_to_bits(x), x as u32);
        assert_eq!(i32_from_bits(x as u32), x);
        let mut out = Vec::new();
        put_i32(&mut out, x);
        assert_eq!(out, x.to_be_bytes().to_vec());
    }
}

#[test]
fn flags_are_zero_or_one() {
    let mut out = Vec::new();
    put_bool(&mut out, true);
    put_bool(&mut out, false);
    assert_eq!(out, vec![1, 0]);
    assert_eq!(get_bool(0), Some(false));
    assert_eq!(get_bool(1), Some(true));
    assert_eq!(get_bool(2), None);
    assert_eq!(get_bool(255), None);
}

#[test]
fn bytes_append_and_compare() {
    let mut out = vec![1, 2];
    put_bytes(&mut out, &[3, 4, 5]);
    put_bytes(&mut out, &[]);
    assert_eq!(out, vec![1, 2, 3, 4, 5]);
    assert!(bytes_equal(&out, &[1, 2, 3, 4, 5]));
    assert!(!bytes_equal(&out, &[1, 2, 3, 4]));
    assert!(!bytes_equal(&out, &[1, 2, 3, 4, 6]));
    assert!(bytes_equal(&[], &[]));
}

#[test]
fn hex_is_lowercase_high_digit_first() {
    assert_eq!(to_hex(&[]), "");
    assert_eq!(to_hex(&[0x00, 0x0f, 0xf0, 0xff, 0x1a, 0x9b]), "000ff0ff1a9b");
    assert_eq!(from_hex(""), Some(vec![]));
    assert_eq!(from_hex("000ff0ff1a9b"), Some(vec![0x00, 0x0f, 0xf0, 0xff, 0x1a, 0x9b]));
}

#[test]
fn hex_round_trips_every_byte() {
    let all: Vec<u8> = (0..=255).collect();
    let text = to_hex(&all);
    assert_eq!(text.len(), 512);
    assert_eq!(from_hex(&text), Some(all));
}

#[test]
fn hex_rejects_what_is_no_armour() {
    assert_eq!(from_hex("0"), None);
    assert_eq!(from_hex("abc"), None);
    assert_eq!(from_hex("AB"), None);
    assert_eq!(from_hex("0g"), None);
    assert_eq!(from_hex("g0"), None);
    assert_eq!(from_hex(" 0"), None);
    assert_eq!(from_hex("0x"), None);
    assert_eq!(from_hex("\u{e9}"), None);
    assert_eq!(from_hex("00\u{e9}"), None);
    assert_eq!(from_hex("/0"), None);
    assert_eq!(from_hex(":0"), None);
    assert_eq!(from_hex("`0"), None);
}

#[test]
fn text_is_utf8() {
    assert_eq!(text_from_bytes(b"null"), Some("null".to_string()));
    assert_eq!(text_from_bytes(&[]), Some(String::new()));
    assert_eq!(text_from_bytes(&[0x68, 0xc3, 0xa9]), Some("h\u{e9}".to_string()));
    assert_eq!(text_from_bytes(&[0xc3]), None);
    assert_eq!(text_from_bytes(&[0xff]), None);
    assert_eq!(text_from_bytes(&[0x68, 0x80]), None);
    assert_eq!(text_from_bytes(&[0xed, 0xa0, 0x80]), None);
    assert_eq!(text_from_bytes(&[0xc0, 0x80]), None);
    assert_eq!(text_from_bytes(&[0xe0, 0x80, 0x80]), None);
    assert_eq!(text_from_bytes(&[0xf4, 0x90, 0x80, 0x80]), None);
    assert_eq!(text_from_bytes(&[0xf8, 0x88, 0x80, 0x80, 0x80]), None);
    assert_eq!(text_from_bytes(&[0xe2, 0x82]), None);
    assert_eq!(text_from_bytes(&[0xf4, 0x8f, 0xbf, 0xbf]), Some("\u{10ffff}".to_string()));
    assert_eq!(text_from_bytes(&[0xed, 0x9f, 0xbf]), Some("\u{d7ff}".to_string()));
    assert_eq!(text_from_bytes(&[0xe2, 0x82, 0xac, 0x00]), Some("\u{20ac}\0".to_string()));
}

#[test]
fn enemy_layout() {
    let mut out = Vec::new();
    put_enemy(&mut out, &kraken());
    assert_eq!(out.len(), ENEMY_LEN);
    assert_eq!(out, unhex(KRAKEN_HEX));
    assert_eq!(get_enemy(&out, 0), Some(kraken()));
    let mut out = vec![9, 9];
    put_enemy(&mut out, &skeleton());
    assert_eq!(out[2..], unhex(SKELETON_HEX)[..]);
    assert_eq!(get_enemy(&out, 2), Some(skeleton()));
}

#[test]
fn enemy_kinds_have_their_bytes() {
    let kinds = [
        EType::Bat,
        EType::Kraken,
        EType::GhostShip,
        EType::Rock,
        EType::RSkeleton,
        EType::MSkeleton,
    ];
    for (i, kind) in kinds.iter().enumerate() {
        let e = Enemy { etype: *kind, ..kraken() };
        let bytes = Payload::Enemy(e).to_bytes();
        assert_eq!(bytes[4], i as u8);
        assert_eq!(Payload::from_bytes(Shape::Enemy, &bytes), Some(Payload::Enemy(e)));
    }
}

#[test]
fn enemy_layout_rejects_what_is_no_enemy() {
    let good = unhex(KRAKEN_HEX);
    let mut bad_kind = good.clone();
    bad_kind[4] = 6;
    assert_eq!(get_enemy(&bad_kind, 0), None);
    let mut bad_flag = good.clone();
    bad_flag[25] = 2;
    assert_eq!(get_enemy(&bad_flag, 0), None);
    assert_eq!(Payload::from_bytes(Shape::Enemy, &good[..25]), None);
    let mut long = good.clone();
    long.push(0);
    assert_eq!(Payload::from_bytes(Shape::Enemy, &long), None);
    assert_eq!(Payload::from_bytes(Shape::Enemy, &[]), None);
    assert_eq!(Payload::from_bytes(Shape::Enemy, &good), Some(Payload::Enemy(kraken())));
}

#[test]
fn enemy_list_layout() {
    let list = vec![kraken(), skeleton()];
    let mut out = Vec::new();
    put_enemies(&mut out, &list);
    let mut expected = unhex(KRAKEN_HEX);
    expected.extend(unhex(SKELETON_HEX));
    assert_eq!(out, expected);
    assert_eq!(get_enemies(&out), Some(list));
    assert_eq!(get_enemies(&[]), Some(vec![]));
    assert_eq!(Payload::Enemies(vec![]).to_bytes(), Vec::<u8>::new());
}

#[test]
fn enemy_list_rejects_what_is_no_list() {
    let mut bytes = unhex(KRAKEN_HEX);
    bytes.extend(unhex(SKELETON_HEX));
    assert_eq!(get_enemies(&bytes[..51]), None);
    assert_eq!(get_enemies(&bytes[..27]), None);
    assert_eq!(get_enemies(&bytes[..1]), None);
    let mut bad_second = bytes.clone();
    bad_second[26 + 4] = 9;
    assert_eq!(get_enemies(&bad_second), None);
    let mut bad_first = bytes.clone();
    bad_first[25] = 7;
    assert_eq!(get_enemies(&bad_first), None);
    assert_eq!(get_enemies(&bytes[..26]), Some(vec![kraken()]));
}

#[test]
fn player_layout() {
    let mut out = Vec::new();
    put_player(&mut out, &sailor());
    assert_eq!(out, unhex(SAILOR_HEX));
    assert_eq!(out.len(), PLAYER_HEAD_LEN + 8);
    assert_eq!(get_player(&out), Some(sailor()));
    let sentinel = Payload::Player(Player::default()).to_bytes();
    assert_eq!(sentinel.len(), 38);
    assert_eq!(sentinel[..4], [255, 255, 255, 255]);
    assert_eq!(sentinel[32..], [1, 0, b'n', b'u', b'l', b'l']);
    assert_eq!(get_player(&sentinel), Some(Player::default()));
}

#[test]
fn player_with_empty_address() {
    let p = Player { addr: String::new(), ..sailor() };
    let bytes = Payload::Player(p.clone()).to_bytes();
    assert_eq!(bytes.len(), 34);
    assert_eq!(get_player(&bytes), Some(p));
}

#[test]
fn player_layout_rejects_what_is_no_player() {
    let good = unhex(SAILOR_HEX);
    assert_eq!(get_player(&good[..33]), None);
    assert_eq!(get_player(&[]), None);
    let mut bad_boat = good.clone();
    bad_boat[32] = 2;
    assert_eq!(get_player(&bad_boat), None);
    let mut bad_used = good.clone();
    bad_used[33] = 0x80;
    assert_eq!(get_player(&bad_used), None);
    assert_eq!(get_player(&good[..36]), None);
    let mut bad_addr = good.clone();
    bad_addr.push(0xff);
    assert_eq!(get_player(&bad_addr), None);
}

#[test]
fn payload_shapes() {
    assert_eq!(Payload::Player(sailor()).shape(), Shape::Player);
    assert_eq!(Payload::Enemy(kraken()).shape(), Shape::Enemy);
    assert_eq!(Payload::Enemies(vec![]).shape(), Shape::Enemies);
    assert_eq!(MessageKind::PlayerUpdate.shape(), Shape::Player);
    assert_eq!(MessageKind::PlayerJoin.shape(), Shape::Player);
    assert_eq!(MessageKind::PlayerReject.shape(), Shape::Player);
    assert_eq!(MessageKind::EnemySpawn.shape(), Shape::Enemy);
    assert_eq!(MessageKind::EnemyState.shape(), Shape::Enemies);
    assert_eq!(MessageKind::EnemyDeath.shape(), Shape::Enemy);
}

#[test]
fn one_byte_string_reads_differently_by_shape() {
    let bytes = unhex(KRAKEN_HEX);
    assert_eq!(Payload::from_bytes(Shape::Enemy, &bytes), Some(Payload::Enemy(kraken())));
    assert_eq!(Payload::from_bytes(Shape::Enemies, &bytes), Some(Payload::Enemies(vec![kraken()])));
    assert_eq!(Payload::from_bytes(Shape::Player, &bytes), None);
}

#[test]
fn tags() {
    let kinds = [
        (MessageKind::PlayerUpdate, "player_update"),
        (MessageKind::PlayerJoin, "player_join"),
        (MessageKind::PlayerReject, "player_reject"),
        (MessageKind::EnemySpawn, "enemy_spawn"),
        (MessageKind::EnemyState, "enemy_state"),
        (MessageKind::EnemyDeath, "enemy_death"),
    ];
    for (kind, tag) in kinds {
        assert_eq!(kind.as_str(), tag);
        assert_eq!(MessageKind::from_tag(tag), Some(kind));
    }
    assert_eq!(MessageKind::from_tag(""), None);
    assert_eq!(MessageKind::from_tag("enemy"), None);
    assert_eq!(MessageKind::from_tag("enemy_spawn "), None);
    assert_eq!(MessageKind::from_tag("Enemy_Spawn"), None);
    assert_eq!(MessageKind::from_tag("player_leave"), None);
}

#[test]
fn envelope_wire_form() {
    let e = Envelope { message: "hi".to_string(), packet: "r\u{e9}".to_string() };
    let bytes = e.to_bytes();
    assert_eq!(bytes, vec![0, 0, 0, 0, 0, 0, 0, 2, b'h', b'i', b'r', 0xc3, 0xa9]);
    assert_eq!(Envelope::from_bytes(&bytes), Ok(e));
    let empty = Envelope { message: String::new(), packet: String::new() };
    assert_eq!(empty.to_bytes(), vec![0; 8]);
    assert_eq!(Envelope::from_bytes(&[0; 8]), Ok(empty));
}

#[test]
fn envelope_rejects_what_is_no_envelope() {
    let malformed = Err(DecodeError::MalformedEnvelope);
    assert_eq!(Envelope::from_bytes(&[]), malformed);
    assert_eq!(Envelope::from_bytes(&[0; 7]), malformed);
    assert_eq!(Envelope::from_bytes(&[0, 0, 0, 0, 0, 0, 0, 1]), malformed);
    assert_eq!(Envelope::from_bytes(&[0, 0, 0, 0, 0, 0, 0, 3, b'a', b'b']), malformed);
    assert_eq!(Envelope::from_bytes(&[255; 12]), malformed);
    assert_eq!(Envelope::from_bytes(&[1, 0, 0, 0, 0, 0, 0, 0, b'a']), malformed);
    assert_eq!(Envelope::from_bytes(&[0, 0, 0, 0, 0, 0, 0, 1, 0xff, b'a']), malformed);
    assert_eq!(Envelope::from_bytes(&[0, 0, 0, 0, 0, 0, 0, 1, b'a', 0xff]), malformed);
    assert_eq!(Envelope::from_bytes(&[0, 0, 0, 0, 0, 0, 0, 1, 0xc3, 0xa9]), malformed);
    assert_eq!(
        Envelope::from_bytes(&[0, 0, 0, 0, 0, 0, 0, 2, 0xc3, 0xa9]),
        Ok(Envelope { message: "\u{e9}".to_string(), packet: String::new() })
    );
}

#[test]
fn seal_and_open() {
    let e = Envelope::seal(MessageKind::EnemySpawn, &Payload::Enemy(kraken()));
    assert_eq!(e.message, "enemy_spawn");
    assert_eq!(e.packet, KRAKEN_HEX);
    assert_eq!(e.open(), Ok((MessageKind::EnemySpawn, Packet { payload: Payload::Enemy(kraken()) })));
    let p = Envelope::seal(MessageKind::PlayerJoin, &Payload::Player(sailor()));
    assert_eq!(p.message, "player_join");
    assert_eq!(p.packet, SAILOR_HEX);
}

#[test]
fn encode_writes_the_datagram() {
    let bytes = encode(MessageKind::EnemySpawn, &Payload::Enemy(kraken()));
    let mut expected = vec![0, 0, 0, 0, 0, 0, 0, 11];
    expected.extend_from_slice(b"enemy_spawn");
    expected.extend_from_slice(KRAKEN_HEX.as_bytes());
    assert_eq!(bytes.len(), 71);
    assert_eq!(bytes, expected);
}

#[test]
fn round_trip_enemy() {
    for kind in [MessageKind::EnemySpawn, MessageKind::EnemyDeath] {
        for e in [kraken(), skeleton()] {
            let bytes = encode(kind, &Payload::Enemy(e));
            assert_eq!(decode(&bytes), Ok((kind, Packet { payload: Payload::Enemy(e) })));
        }
    }
}

#[test]
fn round_trip_player() {
    for kind in [MessageKind::PlayerUpdate, MessageKind::PlayerJoin, MessageKind::PlayerReject] {
        for p in [sailor(), Player::default()] {
            let bytes = encode(kind, &Payload::Player(p.clone()));
            assert_eq!(decode(&bytes), Ok((kind, Packet { payload: Payload::Player(p) })));
        }
    }
}

#[test]
fn round_trip_enemy_list() {
    for list in [vec![], vec![kraken()], vec![skeleton(), kraken(), skeleton()]] {
        let bytes = encode(MessageKind::EnemyState, &Payload::Enemies(list.clone()));
        assert_eq!(
            decode(&bytes),
            Ok((MessageKind::EnemyState, Packet { payload: Payload::Enemies(list) }))
        );
    }
}

#[test]
fn round_trip_keeps_every_bit() {
    let nan = Vec3Bits { x: 0x7fc0_0001, y: 0xffff_ffff, z: 0x8000_0000 };
    let e = Enemy {
        id: i32::MIN,
        etype: EType::GhostShip,
        translation: nan,
        animation_index: usize::MAX,
        alive: true,
    };
    let bytes = encode(MessageKind::EnemySpawn, &Payload::Enemy(e));
    assert_eq!(decode(&bytes), Ok((MessageKind::EnemySpawn, Packet { payload: Payload::Enemy(e) })));
    let p = Player {
        id: i32::MAX,
        addr: "\u{1f3f4}\u{200d}\u{2620}\u{fe0f} [::1]:65535\n\0".to_string(),
        pos: nan,
        rot: QuatBits { x: u32::MAX, y: 1, z: 0x7f80_0000, w: 0xff80_0000 },
        boat: true,
        used: false,
    };
    let bytes = encode(MessageKind::PlayerUpdate, &Payload::Player(p.clone()));
    assert_eq!(decode(&bytes), Ok((MessageKind::PlayerUpdate, Packet { payload: Payload::Player(p) })));
}

#[test]
fn decode_reports_a_malformed_envelope() {
    assert_eq!(decode(&[]), Err(DecodeError::MalformedEnvelope));
    assert_eq!(decode(&[0, 0, 0]), Err(DecodeError::MalformedEnvelope));
    let good = encode(MessageKind::EnemySpawn, &Payload::Enemy(kraken()));
    let mut long_tag = good.clone();
    long_tag[7] = 200;
    assert_eq!(decode(&long_tag), Err(DecodeError::MalformedEnvelope));
    let mut bad_text = good.clone();
    bad_text[10] = 0xff;
    assert_eq!(decode(&bad_text), Err(DecodeError::MalformedEnvelope));
    assert_eq!(decode(&good[..7]), Err(DecodeError::MalformedEnvelope));
}

#[test]
fn decode_reports_an_unknown_kind() {
    assert_eq!(decode(&envelope("enemy_teleport", KRAKEN_HEX)), Err(DecodeError::UnknownKind));
    assert_eq!(decode(&envelope("", "")), Err(DecodeError::UnknownKind));
    assert_eq!(decode(&envelope("ENEMY_SPAWN", KRAKEN_HEX)), Err(DecodeError::UnknownKind));
    assert_eq!(decode(&envelope("enemy_spawn\0", KRAKEN_HEX)), Err(DecodeError::UnknownKind));
    assert_eq!(decode(&envelope("nonsense", "not even hex")), Err(DecodeError::UnknownKind));
    let good = encode(MessageKind::EnemySpawn, &Payload::Enemy(kraken()));
    let mut short_tag = good.clone();
    short_tag[7] = 10;
    assert_eq!(decode(&short_tag), Err(DecodeError::UnknownKind));
}

#[test]
fn decode_reports_a_malformed_packet() {
    let malformed = Err(DecodeError::MalformedPacket);
    assert_eq!(decode(&envelope("enemy_spawn", "not even hex")), malformed);
    assert_eq!(decode(&envelope("enemy_spawn", "")), malformed);
    assert_eq!(decode(&envelope("enemy_spawn", &KRAKEN_HEX[..51])), malformed);
    assert_eq!(decode(&envelope("enemy_spawn", &KRAKEN_HEX.to_uppercase())), Ok((
        MessageKind::EnemySpawn,
        Packet { payload: Payload::Enemy(kraken()) },
    )));
    assert_eq!(decode(&envelope("enemy_spawn", &SKELETON_HEX.to_uppercase())), malformed);
    assert_eq!(decode(&envelope("enemy_spawn", SAILOR_HEX)), malformed);
    assert_eq!(decode(&envelope("player_join", KRAKEN_HEX)), malformed);
    assert_eq!(decode(&envelope("enemy_state", &KRAKEN_HEX[..50])), malformed);
    let good = encode(MessageKind::EnemySpawn, &Payload::Enemy(kraken()));
    assert_eq!(decode(&good[..70]), malformed);
    let mut bad_flag = good.clone();
    bad_flag[70] = b'2';
    assert_eq!(decode(&bad_flag), malformed);
}

#[test]
fn encode_with_the_wrong_shape_does_not_read_back() {
    let bytes = encode(MessageKind::PlayerJoin, &Payload::Enemy(kraken()));
    assert_eq!(decode(&bytes), Err(DecodeError::MalformedPacket));
    let bytes = encode(MessageKind::EnemySpawn, &Payload::Player(sailor()));
    assert_eq!(decode(&bytes), Err(DecodeError::MalformedPacket));
    let bytes = encode(MessageKind::EnemySpawn, &Payload::Enemies(vec![kraken()]));
    assert_eq!(decode(&bytes), Ok((MessageKind::EnemySpawn, Packet { payload: Payload::Enemy(kraken()) })));
}

#[test]
fn decode_the_empty_snapshot() {
    assert_eq!(
        decode(&envelope("enemy_state", "")),
        Ok((MessageKind::EnemyState, Packet { payload: Payload::Enemies(vec![]) }))
    );
}
