use grid_combat::game::{Game, GameError};
use grid_combat::protocol::Position;

#[test]
fn test_game_creation() {
    let game = Game::new(10, 10);
    assert_eq!(game.world_state.map_width, 10);
    assert_eq!(game.world_state.map_height, 10);
    assert_eq!(game.player_counter, 1);
    assert_eq!(game.world_state.players.len(), 0);
}

#[test]
fn test_add_player() {
    let mut game = Game::new(10, 10);
    let player_id = game.add_player(Position::new(5, 5));
    assert_eq!(player_id, 1);
    assert_eq!(game.world_state.players.len(), 1);

    let player2_id = game.add_player(Position::new(3, 3));
    assert_eq!(player2_id, 2);
    assert_eq!(game.world_state.players.len(), 2);
}

#[test]
fn test_remove_player() {
    let mut game = Game::new(10, 10);
    let player_id = game.add_player(Position::new(5, 5));
    assert_eq!(game.world_state.players.len(), 1);

    let removed = game.remove_player(player_id);
    assert!(removed);
    assert_eq!(game.world_state.players.len(), 0);

    let removed_again = game.remove_player(player_id);
    assert!(!removed_again);
}

#[test]
fn test_move_player() {
    let mut game = Game::new(10, 10);
    let player_id = game.add_player(Position::new(5, 5));

    let result = game.move_player(player_id, Position::new(6, 5));
    assert!(result.is_ok());
    assert_eq!(
        game.world_state.get_player(player_id).unwrap().position,
        Position::new(6, 5)
    );
}

#[test]
fn test_move_player_out_of_bounds() {
    let mut game = Game::new(10, 10);
    let player_id = game.add_player(Position::new(1, 1));

    let result = game.move_player(player_id, Position::new(-1, 1));
    assert!(result.is_err());
    assert_eq!(result.unwrap_err().message(), "Position invalide");

    let result = game.move_player(player_id, Position::new(1, -1));
    assert!(result.is_err());
    assert_eq!(result.unwrap_err().message(), "Position invalide");

    let player2_id = game.add_player(Position::new(9, 5));
    let result = game.move_player(player2_id, Position::new(10, 5));
    assert!(result.is_err());
    assert_eq!(result.unwrap_err().message(), "Position invalide");
}

#[test]
fn test_move_player_insufficient_pm() {
    let mut game = Game::new(10, 10);
    let player_id = game.add_player(Position::new(5, 5));

    let result = game.move_player(player_id, Position::new(9, 5));
    assert!(result.is_err());
    assert_eq!(result.unwrap_err().message(), "Pas assez de PM");
}

#[test]
fn test_move_player_occupied_position() {
    let mut game = Game::new(10, 10);
    let player1_id = game.add_player(Position::new(5, 5));
    let _player2_id = game.add_player(Position::new(6, 5));

    let result = game.move_player(player1_id, Position::new(6, 5));
    assert!(result.is_err());
    assert_eq!(result.unwrap_err().message(), "Position occupée");
}

#[test]
fn test_attack() {
    let mut game = Game::new(10, 10);
    let attacker_id = game.add_player(Position::new(5, 5));
    let target_id = game.add_player(Position::new(6, 5));

    let initial_health = game.world_state.get_player(target_id).unwrap().health;

    let result = game.attack(attacker_id, target_id);
    assert!(result.is_ok());

    let damage = result.unwrap();
    assert_eq!(damage, 25);

    let target_health = game.world_state.get_player(target_id).unwrap().health;
    assert_eq!(target_health, initial_health - 25);
}

#[test]
fn test_attack_self() {
    let mut game = Game::new(10, 10);
    let player_id = game.add_player(Position::new(5, 5));

    let result = game.attack(player_id, player_id);
    assert!(result.is_err());
    assert_eq!(result.unwrap_err().message(), "Ne peut pas s'attaquer soi-même");
}

#[test]
fn test_attack_out_of_range() {
    let mut game = Game::new(10, 10);
    let attacker_id = game.add_player(Position::new(5, 5));
    let target_id = game.add_player(Position::new(8, 8));

    let result = game.attack(attacker_id, target_id);
    assert!(result.is_err());
    assert_eq!(result.unwrap_err().message(), "Cible hors de portée");
}

#[test]
fn test_attack_consumes_action_points() {
    let mut game = Game::new(10, 10);
    let attacker_id = game.add_player(Position::new(5, 5));
    let target_id = game.add_player(Position::new(6, 5));

    let initial_ap = game
        .world_state
        .get_player(attacker_id)
        .unwrap()
        .action_points;

    game.attack(attacker_id, target_id).unwrap();

    let current_ap = game
        .world_state
        .get_player(attacker_id)
        .unwrap()
        .action_points;
    assert_eq!(current_ap, initial_ap - 1);
}

#[test]
fn test_end_turn() {
    let mut game = Game::new(10, 10);
    let player1_id = game.add_player(Position::new(5, 5));
    let player2_id = game.add_player(Position::new(3, 3));

    game.world_state.current_turn = player1_id;

    let result = game.end_turn(player1_id);
    assert!(result.is_ok());

    assert_eq!(game.world_state.current_turn, player2_id);
    assert_eq!(game.world_state.turn_number, 2);
}

#[test]
fn test_end_turn_not_current_player() {
    let mut game = Game::new(10, 10);
    let player1_id = game.add_player(Position::new(5, 5));
    let player2_id = game.add_player(Position::new(3, 3));

    game.world_state.current_turn = player1_id;

    let result = game.end_turn(player2_id);
    assert!(result.is_err());
    assert_eq!(result.unwrap_err().message(), "Ce n'est pas votre tour");
}

#[test]
fn test_end_turn_resets_points() {
    let mut game = Game::new(10, 10);
    let player1_id = game.add_player(Position::new(5, 5));
    let player2_id = game.add_player(Position::new(3, 3));

    game.world_state.current_turn = player1_id;

    if let Some(player2) = game.world_state.get_player_mut(player2_id) {
        player2.action_points = 2;
        player2.movement_points = 1;
    }

    game.end_turn(player1_id).unwrap();

    let player2 = game.world_state.get_player(player2_id).unwrap();
    assert_eq!(player2.action_points, 6);
    assert_eq!(player2.movement_points, 3);
}

#[test]
fn test_get_world_state_clone() {
    let mut game = Game::new(10, 10);
    game.add_player(Position::new(5, 5));

    let world_state = game.get_world_state_clone();
    assert_eq!(world_state.players.len(), 1);
    assert_eq!(world_state.map_width, 10);
    assert_eq!(world_state.map_height, 10);
}

#[test]
fn scenario_move_on_new_map() {
    let mut game = Game::new(10, 10);
    assert_eq!(game.add_player(Position::new(5, 5)), 1);
    assert_eq!(game.add_player(Position::new(3, 3)), 2);
    assert_eq!(game.move_player(1, Position::new(6, 5)), Ok(()));
    let player = game.get_world_state().get_player(1).unwrap();
    assert_eq!(player.position, Position::new(6, 5));
    assert_eq!(player.movement_points, 2);
}

#[test]
fn scenario_attack_adjacent_target() {
    let mut game = Game::new(10, 10);
    let attacker = game.add_player(Position::new(5, 5));
    let target = game.add_player(Position::new(6, 5));
    assert_eq!(game.attack(attacker, target), Ok(25));
    let struck = *game.world_state.get_player(target).unwrap();
    assert_eq!(struck.health, 75);
    assert!(struck.is_alive);
    assert_eq!(game.world_state.get_player(attacker).unwrap().action_points, 5);
}

#[test]
fn scenario_attack_distant_target() {
    let mut game = Game::new(10, 10);
    let attacker = game.add_player(Position::new(5, 5));
    let target = game.add_player(Position::new(8, 8));
    assert_eq!(game.attack(attacker, target), Err(GameError::TargetOutOfRange));
    assert_eq!(game.world_state.get_player(target).unwrap().health, 100);
    assert_eq!(game.world_state.get_player(attacker).unwrap().action_points, 6);
}

#[test]
fn scenario_turn_passes_to_second_player() {
    let mut game = Game::new(10, 10);
    let first = game.add_player(Position::new(5, 5));
    let second = game.add_player(Position::new(3, 3));
    game.world_state.current_turn = first;
    {
        let p = game.world_state.get_player_mut(second).unwrap();
        p.action_points = 0;
        p.movement_points = 0;
    }
    assert_eq!(game.end_turn(first), Ok(()));
    assert_eq!(game.world_state.current_turn, second);
    assert_eq!(game.world_state.turn_number, 2);
    let p = game.world_state.get_player(second).unwrap();
    assert_eq!((p.action_points, p.movement_points), (6, 3));
}

#[test]
fn scenario_move_left_of_the_map() {
    for y in [0, 3, 9] {
        let mut game = Game::new(10, 10);
        let id = game.add_player(Position::new(0, y));
        game.world_state.get_player_mut(id).unwrap().movement_points = 50;
        assert_eq!(game.move_player(id, Position::new(-1, y)), Err(GameError::InvalidPosition));
        assert_eq!(game.world_state.get_player(id).unwrap().position, Position::new(0, y));
    }
}

#[test]
fn identities_are_sequential_and_never_reused() {
    let mut game = Game::new(10, 10);
    let mut ids = Vec::new();
    for i in 0..20 {
        ids.push(game.add_player(Position::new(i % 10, i / 10)));
    }
    let expected: Vec<u32> = (1..=20).collect();
    assert_eq!(ids, expected);
    assert!(game.remove_player(20));
    assert_eq!(game.add_player(Position::new(0, 0)), 21);
}

#[test]
fn refused_move_changes_nothing() {
    let mut game = Game::new(10, 10);
    let id = game.add_player(Position::new(5, 5));
    game.add_player(Position::new(5, 6));
    let before = game.get_world_state_clone();
    for target in [Position::new(9, 9), Position::new(5, 6), Position::new(5, 9)] {
        assert!(game.move_player(id, target).is_err());
        assert_eq!(game.world_state.players, before.players);
        assert_eq!(game.world_state.turn_number, before.turn_number);
    }
    assert_eq!(game.move_player(77, Position::new(1, 1)), Err(GameError::PlayerNotFound));
    assert_eq!(game.world_state.players, before.players);
}

#[test]
fn movement_points_are_spent_exactly() {
    let mut game = Game::new(10, 10);
    let id = game.add_player(Position::new(5, 5));
    assert_eq!(game.move_player(id, Position::new(6, 6)), Ok(()));
    assert_eq!(game.world_state.get_player(id).unwrap().movement_points, 1);
    assert_eq!(game.move_player(id, Position::new(6, 7)), Ok(()));
    assert_eq!(game.world_state.get_player(id).unwrap().movement_points, 0);
    assert_eq!(game.move_player(id, Position::new(6, 8)), Err(GameError::InsufficientMovement));
    assert_eq!(game.move_player(id, Position::new(6, 7)), Ok(()));
    assert_eq!(game.world_state.get_player(id).unwrap().movement_points, 0);
}

#[test]
fn move_rules_are_checked_in_order() {
    let mut game = Game::new(10, 10);
    let id = game.add_player(Position::new(0, 0));
    let other = game.add_player(Position::new(0, 1));
    // too far and outside the map: the distance is checked first
    assert_eq!(game.move_player(id, Position::new(-4, 0)), Err(GameError::InsufficientMovement));
    // outside the map, within reach
    assert_eq!(game.move_player(id, Position::new(0, -1)), Err(GameError::InvalidPosition));
    // occupied
    assert_eq!(game.move_player(id, Position::new(0, 1)), Err(GameError::PositionOccupied));
    // one's own cell is not occupied by another
    assert_eq!(game.move_player(id, Position::new(0, 0)), Ok(()));
    // a dead player cannot move, and its cell is free
    game.world_state.get_player_mut(other).unwrap().is_alive = false;
    assert_eq!(game.move_player(other, Position::new(0, 2)), Err(GameError::PlayerDead));
    assert_eq!(game.move_player(id, Position::new(0, 1)), Ok(()));
}

#[test]
fn fourth_hit_kills_the_target() {
    let mut game = Game::new(10, 10);
    let attacker = game.add_player(Position::new(5, 5));
    let target = game.add_player(Position::new(5, 6));
    for expected in [75, 50, 25] {
        assert_eq!(game.attack(attacker, target), Ok(25));
        let t = game.world_state.get_player(target).unwrap();
        assert_eq!(t.health, expected);
        assert!(t.is_alive);
    }
    assert_eq!(game.attack(attacker, target), Ok(25));
    let t = *game.world_state.get_player(target).unwrap();
    assert_eq!(t.health, 0);
    assert!(!t.is_alive);
    assert_eq!(game.world_state.get_player(attacker).unwrap().action_points, 2);
    assert_eq!(game.attack(attacker, target), Err(GameError::TargetAlreadyDead));
    assert_eq!(game.attack(target, attacker), Err(GameError::AttackerDead));
}

#[test]
fn weak_target_dies_with_health_clamped() {
    let mut game = Game::new(10, 10);
    let attacker = game.add_player(Position::new(5, 5));
    let target = game.add_player(Position::new(4, 5));
    game.world_state.get_player_mut(target).unwrap().health = 10;
    assert_eq!(game.attack(attacker, target), Ok(25));
    let t = game.world_state.get_player(target).unwrap();
    assert_eq!(t.health, 0);
    assert!(!t.is_alive);
}

#[test]
fn attack_rules_are_checked_in_order() {
    let mut game = Game::new(10, 10);
    let a = game.add_player(Position::new(5, 5));
    let t = game.add_player(Position::new(6, 6));
    assert_eq!(game.attack(9, 9), Err(GameError::SelfAttack));
    assert_eq!(game.attack(9, t), Err(GameError::AttackerNotFound));
    assert_eq!(game.attack(a, 9), Err(GameError::TargetNotFound));
    // a diagonal neighbour is at distance 2
    assert_eq!(game.attack(a, t), Err(GameError::TargetOutOfRange));
    game.world_state.get_player_mut(a).unwrap().action_points = 0;
    assert_eq!(game.attack(a, 9), Err(GameError::InsufficientActionPoints));
    assert_eq!(game.attack(a, t), Err(GameError::InsufficientActionPoints));
}

#[test]
fn end_turn_of_unknown_holder() {
    let mut game = Game::new(10, 10);
    // nobody holds the turn at first, so the identity 0 holds it and is no player
    assert_eq!(game.end_turn(0), Err(GameError::PlayerNotFound));
    assert_eq!(game.end_turn(1), Err(GameError::NotYourTurn));
    assert_eq!(game.world_state.turn_number, 1);
}

#[test]
fn turn_skips_the_dead_and_wraps_around() {
    let mut game = Game::new(10, 10);
    let a = game.add_player(Position::new(0, 0));
    let b = game.add_player(Position::new(1, 0));
    let c = game.add_player(Position::new(2, 0));
    game.world_state.get_player_mut(b).unwrap().is_alive = false;
    game.world_state.current_turn = a;
    assert_eq!(game.end_turn(a), Ok(()));
    assert_eq!(game.world_state.current_turn, c);
    assert_eq!(game.end_turn(c), Ok(()));
    assert_eq!(game.world_state.current_turn, a);
    assert_eq!(game.world_state.turn_number, 3);
}

#[test]
fn only_living_player_keeps_the_turn() {
    let mut game = Game::new(10, 10);
    let a = game.add_player(Position::new(0, 0));
    let b = game.add_player(Position::new(1, 0));
    game.world_state.get_player_mut(b).unwrap().is_alive = false;
    game.world_state.get_player_mut(a).unwrap().action_points = 1;
    game.world_state.current_turn = a;
    assert_eq!(game.end_turn(a), Ok(()));
    assert_eq!(game.world_state.current_turn, a);
    assert_eq!(game.world_state.turn_number, 2);
    assert_eq!(game.world_state.get_player(a).unwrap().action_points, 6);
}

#[test]
fn end_turn_with_nobody_alive_only_counts() {
    let mut game = Game::new(10, 10);
    let a = game.add_player(Position::new(0, 0));
    game.world_state.get_player_mut(a).unwrap().is_alive = false;
    game.world_state.get_player_mut(a).unwrap().action_points = 1;
    game.world_state.current_turn = a;
    assert_eq!(game.end_turn(a), Ok(()));
    assert_eq!(game.world_state.current_turn, a);
    assert_eq!(game.world_state.turn_number, 2);
    assert_eq!(game.world_state.get_player(a).unwrap().action_points, 1);
}

#[test]
fn dead_holder_passes_the_turn_on() {
    let mut game = Game::new(10, 10);
    let a = game.add_player(Position::new(0, 0));
    let b = game.add_player(Position::new(1, 0));
    game.world_state.get_player_mut(a).unwrap().is_alive = false;
    game.world_state.current_turn = a;
    assert_eq!(game.end_turn(a), Ok(()));
    assert_eq!(game.world_state.current_turn, b);
    assert_eq!(game.world_state.turn_number, 2);
}

#[test]
fn spawned_player_stands_on_the_map() {
    let mut game = Game::new(4, 3);
    for expected in 1..=200u32 {
        let id = game.spawn_player();
        assert_eq!(id, expected);
        let p = game.world_state.get_player(id).unwrap();
        assert!(0 <= p.position.x && p.position.x < 4);
        assert!(0 <= p.position.y && p.position.y < 3);
        assert_eq!((p.health, p.action_points, p.movement_points), (100, 6, 3));
    }
    assert_eq!(game.world_state.players.len(), 200);
}

#[test]
fn occupancy_and_bounds_checks() {
    let mut game = Game::new(10, 10);
    let a = game.add_player(Position::new(2, 2));
    assert!(game.is_valid_position(&Position::new(0, 0)));
    assert!(game.is_valid_position(&Position::new(9, 9)));
    assert!(!game.is_valid_position(&Position::new(10, 0)));
    assert!(!game.is_valid_position(&Position::new(0, -1)));
    assert!(game.is_position_occupied(&Position::new(2, 2), None));
    assert!(!game.is_position_occupied(&Position::new(2, 2), Some(a)));
    assert!(game.is_position_occupied(&Position::new(2, 2), Some(a + 1)));
    assert!(!game.is_position_occupied(&Position::new(2, 3), None));
}

#[test]
fn every_reason_has_its_text() {
    let all = [
        (GameError::PlayerNotFound, "Joueur introuvable"),
        (GameError::PlayerDead, "Le joueur est mort"),
        (GameError::InsufficientMovement, "Pas assez de PM"),
        (GameError::InvalidPosition, "Position invalide"),
        (GameError::PositionOccupied, "Position occupée"),
        (GameError::SelfAttack, "Ne peut pas s'attaquer soi-même"),
        (GameError::AttackerNotFound, "Attaquant introuvable"),
        (GameError::AttackerDead, "L'attaquant est mort"),
        (GameError::InsufficientActionPoints, "Pas assez de PA"),
        (GameError::TargetNotFound, "Cible introuvable"),
        (GameError::TargetAlreadyDead, "La cible est déjà morte"),
        (GameError::TargetOutOfRange, "Cible hors de portée"),
        (GameError::NotYourTurn, "Ce n'est pas votre tour"),
    ];
    for (reason, text) in all {
        assert_eq!(reason.message(), text);
    }
}
