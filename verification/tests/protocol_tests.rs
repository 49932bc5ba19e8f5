use grid_combat::protocol::serialization;
use grid_combat::protocol::serialization::WireError;
use grid_combat::protocol::{Message, PlayerState, Position, WorldState};

#[test]
fn test_position_creation() {
    let pos = Position::new(5, 10);
    assert_eq!(pos.x, 5);
    assert_eq!(pos.y, 10);
}

#[test]
fn test_position_manhattan_distance() {
    let pos1 = Position::new(0, 0);
    let pos2 = Position::new(3, 4);
    assert_eq!(pos1.manhattan_distance(&pos2), 7);
}

#[test]
fn test_player_state_creation() {
    let pos = Position::new(5, 5);
    let player = PlayerState::new(1, pos);
    assert_eq!(player.id, 1);
    assert_eq!(player.position, pos);
    assert_eq!(player.action_points, 6);
    assert_eq!(player.movement_points, 3);
    assert_eq!(player.health, 100);
    assert_eq!(player.max_health, 100);
    assert!(player.is_alive);
}

#[test]
fn test_player_state_reset_turn() {
    let pos = Position::new(0, 0);
    let mut player = PlayerState::new(1, pos);

    player.action_points = 2;
    player.movement_points = 0;

    player.reset_turn();

    assert_eq!(player.action_points, 6);
    assert_eq!(player.movement_points, 3);
}

#[test]
fn test_world_state_creation() {
    let world = WorldState::new(10, 10);
    assert_eq!(world.map_width, 10);
    assert_eq!(world.map_height, 10);
    assert_eq!(world.current_turn, 0);
    assert_eq!(world.turn_number, 1);
    assert!(world.players.is_empty());
}

#[test]
fn test_world_state_get_player() {
    let mut world = WorldState::new(10, 10);
    let player = PlayerState::new(1, Position::new(5, 5));
    world.players.push(player.clone());

    let found = world.get_player(1);
    assert!(found.is_some());
    assert_eq!(found.unwrap().id, 1);

    let not_found = world.get_player(999);
    assert!(not_found.is_none());
}

#[test]
fn test_message_serialization() {
    let message = Message::Move {
        player_id: 1,
        target_position: Position::new(5, 5),
    };

    let serialized = serialization::serialize(&message).unwrap();
    assert!(!serialized.is_empty());

    let deserialized = serialization::deserialize(&serialized).unwrap();
    match deserialized {
        Message::Move {
            player_id,
            target_position,
        } => {
            assert_eq!(player_id, 1);
            assert_eq!(target_position, Position::new(5, 5));
        }
        _ => panic!("Wrong message type"),
    }
}

#[test]
fn test_welcome_message_serialization() {
    let world = WorldState::new(10, 10);
    let message = Message::Welcome {
        player_id: 1,
        world_state: world.clone(),
    };

    let serialized = serialization::serialize(&message).unwrap();
    let deserialized = serialization::deserialize(&serialized).unwrap();

    match deserialized {
        Message::Welcome {
            player_id,
            world_state,
        } => {
            assert_eq!(player_id, 1);
            assert_eq!(world_state.map_width, 10);
            assert_eq!(world_state.map_height, 10);
        }
        _ => panic!("Wrong message type"),
    }
}

#[test]
fn distance_is_symmetric_and_zero_on_itself() {
    let cells = [
        Position::new(0, 0),
        Position::new(3, -4),
        Position::new(-7, 2),
        Position::new(i32::MAX, i32::MIN),
        Position::new(i32::MIN, i32::MAX),
    ];
    for p in cells {
        assert_eq!(p.manhattan_distance(&p), 0);
        for q in cells {
            assert_eq!(p.manhattan_distance(&q), q.manhattan_distance(&p));
        }
    }
}

#[test]
fn distance_of_opposite_corners() {
    let p = Position::new(i32::MAX, i32::MIN);
    let q = Position::new(i32::MIN, i32::MAX);
    assert_eq!(p.manhattan_distance(&q), 2 * (u32::MAX as u64));
    assert_eq!(Position::new(-2, 5).manhattan_distance(&Position::new(1, 1)), 7);
}

#[test]
fn first_player_with_the_identity_is_found() {
    let mut world = WorldState::new(10, 10);
    world.players.push(PlayerState::new(4, Position::new(1, 1)));
    world.players.push(PlayerState::new(9, Position::new(2, 2)));
    world.players.push(PlayerState::new(4, Position::new(3, 3)));
    assert_eq!(world.find_player(4), Some(0));
    assert_eq!(world.find_player(9), Some(1));
    assert_eq!(world.find_player(5), None);
    assert_eq!(world.get_player(4).unwrap().position, Position::new(1, 1));
    world.get_player_mut(9).unwrap().health = 1;
    assert_eq!(world.players[1].health, 1);
    assert!(world.get_player_mut(5).is_none());
}

#[test]
fn snapshot_is_independent() {
    let mut world = WorldState::new(7, 8);
    world.players.push(PlayerState::new(1, Position::new(1, 1)));
    let copy = world.snapshot();
    world.players[0].health = 3;
    world.turn_number = 9;
    assert_eq!(copy.players, vec![PlayerState::new(1, Position::new(1, 1))]);
    assert_eq!((copy.turn_number, copy.map_width, copy.map_height), (1, 7, 8));
}

fn sample_world(players: u32) -> WorldState {
    let mut world = WorldState::new(10, -3);
    world.current_turn = 2;
    world.turn_number = 513;
    for i in 0..players {
        let mut p = PlayerState::new(i + 1, Position::new(i as i32 - 1, -(i as i32)));
        p.action_points = i;
        p.health = 100 - i;
        p.is_alive = i % 2 == 0;
        world.players.push(p);
    }
    world
}

fn same_world(a: &WorldState, b: &WorldState) -> bool {
    a.players == b.players
        && a.current_turn == b.current_turn
        && a.turn_number == b.turn_number
        && a.map_width == b.map_width
        && a.map_height == b.map_height
}

fn same_message(a: &Message, b: &Message) -> bool {
    match (a, b) {
        (
            Message::Connect { player_id: i, player_name: n },
            Message::Connect { player_id: j, player_name: m },
        ) => i == j && n == m,
        (Message::Disconnect { player_id: i }, Message::Disconnect { player_id: j }) => i == j,
        (
            Message::Move { player_id: i, target_position: p },
            Message::Move { player_id: j, target_position: q },
        ) => i == j && p == q,
        (
            Message::Attack { attacker_id: a1, target_id: t1 },
            Message::Attack { attacker_id: a2, target_id: t2 },
        ) => a1 == a2 && t1 == t2,
        (Message::EndTurn { player_id: i }, Message::EndTurn { player_id: j }) => i == j,
        (Message::Sync { world_state: v }, Message::Sync { world_state: w }) => same_world(v, w),
        (
            Message::Response { success: s, message: t },
            Message::Response { success: r, message: u },
        ) => s == r && t == u,
        (
            Message::Welcome { player_id: i, world_state: v },
            Message::Welcome { player_id: j, world_state: w },
        ) => i == j && same_world(v, w),
        _ => false,
    }
}

fn samples() -> Vec<Message> {
    vec![
        Message::Connect { player_id: 7, player_name: String::from("Zoé") },
        Message::Connect { player_id: 0, player_name: String::new() },
        Message::Disconnect { player_id: u32::MAX },
        Message::Move { player_id: 1, target_position: Position::new(-1, i32::MIN) },
        Message::Attack { attacker_id: 3, target_id: 4 },
        Message::EndTurn { player_id: 258 },
        Message::Sync { world_state: sample_world(0) },
        Message::Sync { world_state: sample_world(1) },
        Message::Sync { world_state: sample_world(5) },
        Message::Response { success: true, message: String::from("Tour terminé") },
        Message::Response { success: false, message: String::from("Position occupée") },
        Message::Welcome { player_id: 2, world_state: sample_world(0) },
        Message::Welcome { player_id: 2, world_state: sample_world(3) },
    ]
}

#[test]
fn every_variant_round_trips() {
    for message in samples() {
        let bytes = serialization::serialize(&message).unwrap();
        let back = serialization::deserialize(&bytes).unwrap();
        assert!(same_message(&message, &back), "{:?} came back as {:?}", message, back);
        assert_eq!(serialization::serialize(&back).unwrap(), bytes);
    }
}

#[test]
fn exact_bytes_of_simple_messages() {
    let bytes = serialization::serialize(&Message::Move {
        player_id: 1,
        target_position: Position::new(5, -2),
    })
    .unwrap();
    assert_eq!(bytes, vec![2, 1, 0, 0, 0, 5, 0, 0, 0, 0xfe, 0xff, 0xff, 0xff]);

    let attack = Message::Attack { attacker_id: 0x0102_0304, target_id: 2 };
    let bytes = serialization::serialize(&attack).unwrap();
    assert_eq!(bytes, vec![3, 4, 3, 2, 1, 2, 0, 0, 0]);

    let bytes = serialization::serialize(&Message::Disconnect { player_id: 9 }).unwrap();
    assert_eq!(bytes, vec![1, 9, 0, 0, 0]);

    let bytes = serialization::serialize(&Message::EndTurn { player_id: 256 }).unwrap();
    assert_eq!(bytes, vec![4, 0, 1, 0, 0]);
}

#[test]
fn exact_bytes_of_texts() {
    let bytes = serialization::serialize(&Message::Response {
        success: true,
        message: String::from("é!"),
    })
    .unwrap();
    assert_eq!(bytes, vec![6, 1, 3, 0, 0, 0, 0xc3, 0xa9, b'!']);

    let bytes = serialization::serialize(&Message::Connect {
        player_id: 2,
        player_name: String::from("ab"),
    })
    .unwrap();
    assert_eq!(bytes, vec![0, 2, 0, 0, 0, 2, 0, 0, 0, b'a', b'b']);
}

#[test]
fn exact_bytes_of_a_world() {
    let mut world = WorldState::new(10, 12);
    world.current_turn = 1;
    world.players.push(PlayerState::new(1, Position::new(5, 6)));
    let bytes = serialization::serialize(&Message::Sync { world_state: world }).unwrap();
    let expected: Vec<u8> = vec![
        5, // tag
        1, 0, 0, 0, // one player
        1, 0, 0, 0, // id
        5, 0, 0, 0, 6, 0, 0, 0, // position
        6, 0, 0, 0, // action points
        3, 0, 0, 0, // movement points
        100, 0, 0, 0, // health
        100, 0, 0, 0, // max health
        1, // alive
        1, 0, 0, 0, // current turn
        1, 0, 0, 0, // turn number
        10, 0, 0, 0, 12, 0, 0, 0, // map
    ];
    assert_eq!(bytes, expected);
}

#[test]
fn text_is_decoded_from_utf8() {
    let bytes = vec![0, 1, 0, 0, 0, 5, 0, 0, 0, b'Z', b'o', 0xc3, 0xa9, b'!'];
    match serialization::deserialize(&bytes).unwrap() {
        Message::Connect { player_id, player_name } => {
            assert_eq!(player_id, 1);
            assert_eq!(player_name, "Zoé!");
            assert_eq!(player_name.chars().count(), 4);
        }
        other => panic!("decoded as {:?}", other),
    }
}

#[test]
fn malformed_bytes_are_refused() {
    let refused: Vec<Vec<u8>> = vec![
        vec![],
        vec![8],
        vec![255, 0, 0, 0, 0],
        vec![1],
        vec![1, 9, 0, 0],
        vec![1, 9, 0, 0, 0, 0],
        vec![2, 1, 0, 0, 0, 5, 0, 0, 0, 0, 0, 0],
        vec![3, 1, 0, 0, 0, 2, 0, 0, 0, 0],
        vec![4, 1, 0, 0, 0, 0],
        // text shorter and longer than announced
        vec![0, 1, 0, 0, 0, 3, 0, 0, 0, b'a', b'b'],
        vec![0, 1, 0, 0, 0, 1, 0, 0, 0, b'a', b'b'],
        vec![0, 1, 0, 0, 0, 1, 0, 0],
        // invalid UTF-8
        vec![0, 1, 0, 0, 0, 1, 0, 0, 0, 0xff],
        vec![6, 1, 2, 0, 0, 0, 0xc3, b'a'],
        // flag that is neither 0 nor 1
        vec![6, 2, 0, 0, 0, 0],
        vec![6],
        // world without its tail, and with a byte too many
        vec![5, 0, 0, 0, 0],
        vec![5, 0, 0, 0, 0, 1, 0, 0, 0, 1, 0, 0, 0, 10, 0, 0, 0, 10, 0, 0, 0, 0],
        // world that announces a player it does not hold
        vec![5, 1, 0, 0, 0, 1, 0, 0, 0, 1, 0, 0, 0, 10, 0, 0, 0, 10, 0, 0, 0],
        vec![7, 1, 0, 0],
    ];
    for bytes in refused {
        match serialization::deserialize(&bytes) {
            Err(e) => assert_eq!(e, WireError::Malformed),
            Ok(m) => panic!("{:?} decoded as {:?}", bytes, m),
        }
    }
}

#[test]
fn player_flag_must_be_zero_or_one() {
    let mut world = WorldState::new(10, 10);
    world.players.push(PlayerState::new(1, Position::new(5, 6)));
    world.players.push(PlayerState::new(2, Position::new(7, 8)));
    let good = serialization::serialize(&Message::Sync { world_state: world }).unwrap();
    assert!(serialization::deserialize(&good).is_ok());
    let mut bad = good.clone();
    bad[1 + 4 + 29 + 28] = 2;
    assert_eq!(serialization::deserialize(&bad).unwrap_err(), WireError::Malformed);
    let mut dead = good.clone();
    dead[1 + 4 + 28] = 0;
    match serialization::deserialize(&dead).unwrap() {
        Message::Sync { world_state } => {
            assert!(!world_state.players[0].is_alive);
            assert!(world_state.players[1].is_alive);
        }
        other => panic!("decoded as {:?}", other),
    }
}

#[test]
fn decoded_bytes_encode_to_themselves() {
    let inputs: Vec<Vec<u8>> = vec![
        vec![1, 0xff, 0xff, 0xff, 0xff],
        vec![2, 0, 0, 0, 0x80, 0xff, 0xff, 0xff, 0x7f, 0, 0, 0, 0x80],
        vec![6, 0, 0, 0, 0, 0],
        vec![5, 0, 0, 0, 0, 7, 0, 0, 0, 1, 0, 0, 0, 0xff, 0xff, 0xff, 0xff, 3, 0, 0, 0],
    ];
    for bytes in inputs {
        let message = serialization::deserialize(&bytes).unwrap();
        assert_eq!(serialization::serialize(&message).unwrap(), bytes);
    }
}

#[test]
fn duplicate_keeps_every_field() {
    for message in samples() {
        assert!(same_message(&message, &message.duplicate()));
    }
}
