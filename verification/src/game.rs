//! The simulation engine: the single writer of the world state.

use crate::protocol::{
    index_of, lemma_index_of, PlayerId, PlayerState, Position, WorldState, WorldView,
    DEFAULT_ACTION_POINTS, DEFAULT_MOVEMENT_POINTS,
};
use vstd::prelude::*;
use vstd::string::StringExecFns;

verus! {

/// Health removed from the target by one successful attack.
pub const ATTACK_DAMAGE: u32 = 25;

/// Greatest Manhattan distance at which an attack reaches its target.
pub const ATTACK_RANGE: u64 = 1;

/// Why the engine refused an action.
#[derive(Debug, Clone, Copy, PartialEq, Eq, Structural)]
pub enum GameError {
    PlayerNotFound,
    PlayerDead,
    InsufficientMovement,
    InvalidPosition,
    PositionOccupied,
    SelfAttack,
    AttackerNotFound,
    AttackerDead,
    InsufficientActionPoints,
    TargetNotFound,
    TargetAlreadyDead,
    TargetOutOfRange,
    NotYourTurn,
}

impl GameError {
    /// The text shown to the player whose action was refused.
    pub open spec fn text(self) -> Seq<char> {
        match self {
            GameError::PlayerNotFound => "Joueur introuvable"@,
            GameError::PlayerDead => "Le joueur est mort"@,
            GameError::InsufficientMovement => "Pas assez de PM"@,
            GameError::InvalidPosition => "Position invalide"@,
            GameError::PositionOccupied => "Position occupée"@,
            GameError::SelfAttack => "Ne peut pas s'attaquer soi-même"@,
            GameError::AttackerNotFound => "Attaquant introuvable"@,
            GameError::AttackerDead => "L'attaquant est mort"@,
            GameError::InsufficientActionPoints => "Pas assez de PA"@,
            GameError::TargetNotFound => "Cible introuvable"@,
            GameError::TargetAlreadyDead => "La cible est déjà morte"@,
            GameError::TargetOutOfRange => "Cible hors de portée"@,
            GameError::NotYourTurn => "Ce n'est pas votre tour"@,
        }
    }

    /// Renders the reason for the player.
    pub fn message(&self) -> (s: String)
        ensures
            s@ == self.text(),
    {
        match self {
            GameError::PlayerNotFound => String::from_str("Joueur introuvable"),
            GameError::PlayerDead => String::from_str("Le joueur est mort"),
            GameError::InsufficientMovement => String::from_str("Pas assez de PM"),
            GameError::InvalidPosition => String::from_str("Position invalide"),
            GameError::PositionOccupied => String::from_str("Position occupée"),
            GameError::SelfAttack => String::from_str("Ne peut pas s'attaquer soi-même"),
            GameError::AttackerNotFound => String::from_str("Attaquant introuvable"),
            GameError::AttackerDead => String::from_str("L'attaquant est mort"),
            GameError::InsufficientActionPoints => String::from_str("Pas assez de PA"),
            GameError::TargetNotFound => String::from_str("Cible introuvable"),
            GameError::TargetAlreadyDead => String::from_str("La cible est déjà morte"),
            GameError::TargetOutOfRange => String::from_str("Cible hors de portée"),
            GameError::NotYourTurn => String::from_str("Ce n'est pas votre tour"),
        }
    }
}

/// Points left after spending `spent` out of `points`, never below zero.
pub open spec fn points_after(points: u32, spent: int) -> u32 {
    if spent >= points {
        0
    } else {
        (points - spent) as u32
    }
}

/// Whether a living player other than `exclude` stands on `cell`.
pub open spec fn occupied(
    players: Seq<PlayerState>,
    cell: Position,
    exclude: Option<PlayerId>,
) -> bool {
    exists|i: int|
        0 <= i < players.len() && (#[trigger] players[i]).position == cell && players[i].is_alive
            && Some(players[i].id) != exclude
}

/// Whether any player is alive.
pub open spec fn any_alive(players: Seq<PlayerState>) -> bool {
    exists|i: int| 0 <= i < players.len() && (#[trigger] players[i]).is_alive
}

/// How many places after `from` the index `j` comes when the list is walked cyclically:
/// 1 for the next index, and the length of the list for `from` itself.
pub open spec fn places_after(len: int, from: int, j: int) -> int {
    if j > from {
        j - from
    } else {
        j - from + len
    }
}

/// Whether `j` is the first living player met when the list is walked cyclically,
/// starting just after `from` and ending with `from` itself.
pub open spec fn is_successor(players: Seq<PlayerState>, from: int, j: int) -> bool {
    &&& 0 <= j < players.len()
    &&& players[j].is_alive
    &&& forall|k: int|
        0 <= k < players.len() && (#[trigger] players[k]).is_alive ==> places_after(
            players.len() as int,
            from,
            j,
        ) <= places_after(players.len() as int, from, k)
}

/// The index of the player who takes the turn after the one at `from`, if anyone is alive.
pub open spec fn successor(players: Seq<PlayerState>, from: int) -> Option<int> {
    if any_alive(players) {
        Some(choose|j: int| is_successor(players, from, j))
    } else {
        None
    }
}

/// At most one index is the successor of `from`, and `successor` names it.
pub proof fn lemma_successor_is(players: Seq<PlayerState>, from: int, j: int)
    requires
        0 <= from < players.len(),
        is_successor(players, from, j),
    ensures
        successor(players, from) == Some(j),
{
    assert(players[j].is_alive);
    let c = choose|c: int| is_successor(players, from, c);
    assert(is_successor(players, from, c));
    assert(players[c].is_alive);
    assert(places_after(players.len() as int, from, j) <= places_after(
        players.len() as int,
        from,
        c,
    ));
    assert(places_after(players.len() as int, from, c) <= places_after(
        players.len() as int,
        from,
        j,
    ));
}

/// A player who alone is alive is its own successor.
pub proof fn lemma_sole_survivor_keeps_turn(players: Seq<PlayerState>, from: int)
    requires
        0 <= from < players.len(),
        players[from].is_alive,
        forall|k: int| 0 <= k < players.len() && k != from ==> !(#[trigger] players[k]).is_alive,
    ensures
        successor(players, from) == Some(from),
{
    lemma_successor_is(players, from, from);
}

/// The successor of `from` is alive, and no player between `from` and it, in cyclic
/// order, is alive.
pub proof fn lemma_successor_is_next_alive(players: Seq<PlayerState>, from: int)
    requires
        0 <= from < players.len(),
        any_alive(players),
    ensures
        successor(players, from) matches Some(j) && is_successor(players, from, j),
{
    let n = players.len() as int;
    let w = choose|i: int| 0 <= i < n && (#[trigger] players[i]).is_alive;
    lemma_nearest_alive(players, from, places_after(n, from, w));
}

/// Some living player is the nearest one after `from`, given that one lives within
/// `reach` places after it.
proof fn lemma_nearest_alive(players: Seq<PlayerState>, from: int, reach: int)
    requires
        0 <= from < players.len(),
        exists|k: int|
            0 <= k < players.len() && (#[trigger] players[k]).is_alive && places_after(
                players.len() as int,
                from,
                k,
            ) <= reach,
    ensures
        exists|j: int| is_successor(players, from, j),
    decreases reach,
{
    let n = players.len() as int;
    let k = choose|k: int|
        0 <= k < n && (#[trigger] players[k]).is_alive && places_after(n, from, k) <= reach;
    if exists|c: int|
        0 <= c < n && (#[trigger] players[c]).is_alive && places_after(n, from, c) < places_after(
            n,
            from,
            k,
        ) {
        let c = choose|c: int|
            0 <= c < n && (#[trigger] players[c]).is_alive && places_after(n, from, c)
                < places_after(n, from, k);
        lemma_nearest_alive(players, from, places_after(n, from, c));
    } else {
        assert(is_successor(players, from, k));
    }
}

/// The player after a move to `target`, which costs the distance in movement points.
pub open spec fn moved(p: PlayerState, target: Position) -> PlayerState {
    PlayerState {
        position: target,
        movement_points: points_after(p.movement_points, p.position.distance(target)),
        ..p
    }
}

/// The player after being struck once.
pub open spec fn struck(p: PlayerState) -> PlayerState {
    PlayerState {
        health: points_after(p.health, ATTACK_DAMAGE as int),
        is_alive: p.is_alive && p.health > ATTACK_DAMAGE,
        ..p
    }
}

/// The player after spending one action point.
pub open spec fn spent_action(p: PlayerState) -> PlayerState {
    PlayerState { action_points: points_after(p.action_points, 1), ..p }
}

impl WorldView {
    /// The first reason, in the order of the rules, for which a move is refused.
    pub open spec fn move_rejection(self, id: PlayerId, target: Position) -> Option<GameError> {
        match self.player(id) {
            None => Some(GameError::PlayerNotFound),
            Some(p) => if !p.is_alive {
                Some(GameError::PlayerDead)
            } else if p.position.distance(target) > p.movement_points {
                Some(GameError::InsufficientMovement)
            } else if !target.within(self.map_width, self.map_height) {
                Some(GameError::InvalidPosition)
            } else if occupied(self.players, target, Some(id)) {
                Some(GameError::PositionOccupied)
            } else {
                None
            },
        }
    }

    /// The world after the player has moved to `target`.
    pub open spec fn after_move(self, id: PlayerId, target: Position) -> WorldView {
        let i = index_of(self.players, id)->0;
        WorldView { players: self.players.update(i, moved(self.players[i], target)), ..self }
    }

    /// The first reason, in the order of the rules, for which an attack is refused.
    pub open spec fn attack_rejection(self, attacker: PlayerId, target: PlayerId) -> Option<
        GameError,
    > {
        if attacker == target {
            Some(GameError::SelfAttack)
        } else {
            match self.player(attacker) {
                None => Some(GameError::AttackerNotFound),
                Some(a) => if !a.is_alive {
                    Some(GameError::AttackerDead)
                } else if a.action_points == 0 {
                    Some(GameError::InsufficientActionPoints)
                } else {
                    match self.player(target) {
                        None => Some(GameError::TargetNotFound),
                        Some(t) => if !t.is_alive {
                            Some(GameError::TargetAlreadyDead)
                        } else if a.position.distance(t.position) > ATTACK_RANGE {
                            Some(GameError::TargetOutOfRange)
                        } else {
                            None
                        },
                    }
                },
            }
        }
    }

    /// The world after the attacker has struck the target.
    pub open spec fn after_attack(self, attacker: PlayerId, target: PlayerId) -> WorldView {
        let a = index_of(self.players, attacker)->0;
        let t = index_of(self.players, target)->0;
        WorldView {
            players: self.players.update(t, struck(self.players[t])).update(
                a,
                spent_action(self.players[a]),
            ),
            ..self
        }
    }

    /// The reason for which a request to end the turn is refused, if any.
    pub open spec fn end_turn_rejection(self, id: PlayerId) -> Option<GameError> {
        if self.current_turn != id {
            Some(GameError::NotYourTurn)
        } else if self.player(id) is None {
            Some(GameError::PlayerNotFound)
        } else {
            None
        }
    }

    /// The world after the player has ended the turn: the counter has advanced, and the
    /// next living player, if there is one, holds the turn with restored points.
    pub open spec fn after_end_turn(self, id: PlayerId) -> WorldView {
        let from = index_of(self.players, id)->0;
        match successor(self.players, from) {
            Some(j) => WorldView {
                players: self.players.update(j, self.players[j].refreshed()),
                current_turn: self.players[j].id,
                turn_number: (self.turn_number + 1) as u32,
                ..self
            },
            None => WorldView { turn_number: (self.turn_number + 1) as u32, ..self },
        }
    }

    /// The world after a player has joined.
    pub open spec fn after_join(self, id: PlayerId, position: Position) -> WorldView {
        WorldView { players: self.players.push(PlayerState::fresh(id, position)), ..self }
    }

    /// The world after the first player with the identity has left; unchanged when there is none.
    pub open spec fn after_leave(self, id: PlayerId) -> WorldView {
        match index_of(self.players, id) {
            Some(i) => WorldView { players: self.players.remove(i), ..self },
            None => self,
        }
    }
}

/// Mathematical model of a `Game`.
pub struct GameView {
    pub world: WorldView,
    pub next_id: PlayerId,
}

impl GameView {
    /// A game on an empty map; the first player to join gets identity 1.
    pub open spec fn fresh(map_width: i32, map_height: i32) -> GameView {
        GameView { world: WorldView::empty(map_width, map_height), next_id: 1 }
    }

    /// Identities were handed out in increasing order and never twice, and every player is valid.
    pub open spec fn wf(self) -> bool {
        &&& 1 <= self.next_id
        &&& forall|i: int|
            0 <= i < self.world.players.len() ==> 1 <= (#[trigger] self.world.players[i]).id
                < self.next_id && self.world.players[i].valid()
        &&& forall|i: int, j: int|
            0 <= i < j < self.world.players.len() ==> (#[trigger] self.world.players[i]).id < (
            #[trigger] self.world.players[j]).id
    }

    /// The game after one more player has joined at `position`.
    pub open spec fn joined(self, position: Position) -> GameView {
        GameView {
            world: self.world.after_join(self.next_id, position),
            next_id: (self.next_id + 1) as u32,
        }
    }

    /// The game after one player has joined at each of the positions, in order.
    pub open spec fn joined_all(self, positions: Seq<Position>) -> GameView
        decreases positions.len(),
    {
        if positions.len() == 0 {
            self
        } else {
            self.joined_all(positions.drop_last()).joined(positions.last())
        }
    }
}

/// Players who join a new game one after another receive the identities 1, 2, 3, ... in
/// that order: as many identities as players, all distinct and strictly increasing.
pub proof fn lemma_identities_are_sequential(
    map_width: i32,
    map_height: i32,
    positions: Seq<Position>,
)
    requires
        positions.len() < u32::MAX,
    ensures
        ({
            let game = GameView::fresh(map_width, map_height).joined_all(positions);
            &&& game.wf()
            &&& game.next_id == positions.len() + 1
            &&& game.world.players.len() == positions.len()
            &&& forall|i: int|
                0 <= i < positions.len() ==> game.world.players[i] == PlayerState::fresh(
                    (i + 1) as u32,
                    positions[i],
                )
            &&& forall|i: int, j: int|
                0 <= i < j < positions.len() ==> game.world.players[i].id
                    < game.world.players[j].id
        }),
    decreases positions.len(),
{
    if positions.len() > 0 {
        lemma_identities_are_sequential(map_width, map_height, positions.drop_last());
    }
}

/// `fastrand::i32` on the range from 0 up to, but not including, `bound`. The number it
/// draws lies in that range; nothing ties one draw to another.
#[verifier::external_body]
fn random_below(bound: i32) -> (drawn: i32)
    requires
        bound > 0,
    ensures
        0 <= drawn < bound,
{
    fastrand::i32(0..bound)
}

/// The simulation engine. It owns the world and is the only component that changes it.
pub struct Game {
    pub world_state: WorldState,
    pub player_counter: PlayerId,
}

impl View for Game {
    type V = GameView;

    open spec fn view(&self) -> GameView {
        GameView { world: self.world_state@, next_id: self.player_counter }
    }
}

impl Game {
/// A game without players on a map of the given size.
    pub fn new(map_width: i32, map_height: i32) -> (game: Game)
        ensures
            game@ == GameView::fresh(map_width, map_height),
            game@.wf(),
    {
        Game { world_state: WorldState::new(map_width, map_height), player_counter: 1 }
    }

    /// Admits a player at `position` and returns the identity assigned to it.
    pub fn add_player(&mut self, position: Position) -> (id: PlayerId)
        requires
            old(self).player_counter < u32::MAX,
        ensures
            id == old(self)@.next_id,
            final(self)@ == old(self)@.joined(position),
            old(self)@.wf() ==> final(self)@.wf(),
    {
        let player_id = self.player_counter;
        self.player_counter = player_id + 1;
        let player = PlayerState::new(player_id, position);
        self.world_state.players.push(player);
        player_id
    }

    /// Admits a player on a cell of the map drawn at random. The cell may already hold
    /// another player.
    pub fn spawn_player(&mut self) -> (id: PlayerId)
        requires
            old(self).player_counter < u32::MAX,
            old(self)@.world.map_width > 0,
            old(self)@.world.map_height > 0,
        ensures
            id == old(self)@.next_id,
            exists|position: Position|
                position.within(old(self)@.world.map_width, old(self)@.world.map_height)
                    && final(self)@ == #[trigger] old(self)@.joined(position),
            old(self)@.wf() ==> final(self)@.wf(),
    {
        let x = random_below(self.world_state.map_width);
        let y = random_below(self.world_state.map_height);
        self.add_player(Position::new(x, y))
    }

    /// Removes the player with the given identity and tells whether there was one.
    pub fn remove_player(&mut self, player_id: PlayerId) -> (removed: bool)
        ensures
            removed == (old(self)@.world.player(player_id) is Some),
            final(self)@.world == old(self)@.world.after_leave(player_id),
            final(self)@.next_id == old(self)@.next_id,
            !removed ==> final(self)@ == old(self)@,
            old(self)@.wf() ==> final(self)@.wf() && final(self)@.world.player(player_id) is None,
    {
        match self.world_state.find_player(player_id) {
            Some(pos) => {
                self.world_state.players.remove(pos);
                proof {
                    if old(self)@.wf() {
                        let before = old(self)@.world.players;
                        let after = self@.world.players;
                        lemma_index_of(before, player_id);
                        assert(before[pos as int].id == player_id);
                        assert forall|i: int| 0 <= i < after.len() implies after[i].id
                            != player_id by {
                            if i < pos {
                                assert(after[i] == before[i]);
                                assert(before[i].id < before[pos as int].id);
                            } else {
                                assert(after[i] == before[i + 1]);
                                assert(before[pos as int].id < before[i + 1].id);
                            }
                        }
                        lemma_index_of(after, player_id);
                    }
                }
                true
            },
            None => false,
        }
    }

    /// Whether the cell lies within the map.
    pub fn is_valid_position(&self, pos: &Position) -> (valid: bool)
        ensures
            valid == pos.within(self@.world.map_width, self@.world.map_height),
    {
        pos.x >= 0 && pos.x < self.world_state.map_width && pos.y >= 0 && pos.y
            < self.world_state.map_height
    }

    /// Whether a living player other than `exclude_id` stands on the cell.
    pub fn is_position_occupied(&self, pos: &Position, exclude_id: Option<PlayerId>) -> (taken:
        bool)
        ensures
            taken == occupied(self@.world.players, *pos, exclude_id),
    {
        let mut i: usize = 0;
        while i < self.world_state.players.len()
            invariant
                i <= self.world_state.players.len(),
                forall|j: int|
                    0 <= j < i ==> !((#[trigger] self.world_state.players@[j]).position == *pos
                        && self.world_state.players@[j].is_alive && Some(
                        self.world_state.players@[j].id,
                    ) != exclude_id),
            decreases self.world_state.players.len() - i,
        {
            let p = &self.world_state.players[i];
            let excluded = match exclude_id {
                Some(id) => p.id == id,
                None => false,
            };
            if p.position.x == pos.x && p.position.y == pos.y && p.is_alive && !excluded {
                return true;
            }
            i += 1;
        }
        false
    }

    /// Moves a player to `target`. The rules are checked in a fixed order against the
    /// world as it stands, and a refused move changes nothing.
    pub fn move_player(&mut self, player_id: PlayerId, target: Position) -> (result: Result<
        (),
        GameError,
    >)
        ensures
            match old(self)@.world.move_rejection(player_id, target) {
                Some(reason) => result == Err::<(), GameError>(reason),
                None => result is Ok && final(self)@.world == old(self)@.world.after_move(
                    player_id,
                    target,
                ),
            },
            result is Err ==> final(self)@ == old(self)@,
            final(self)@.next_id == old(self)@.next_id,
            final(self)@.world.players.len() == old(self)@.world.players.len(),
            forall|i: int|
                0 <= i < final(self)@.world.players.len() ==> 0 <= (
                #[trigger] final(self)@.world.players[i]).movement_points <= old(
                    self,
                )@.world.players[i].movement_points,
            old(self)@.wf() ==> final(self)@.wf(),
    {
        proof {
            lemma_index_of(self@.world.players, player_id);
        }
        let idx = match self.world_state.find_player(player_id) {
            Some(i) => i,
            None => {
                return Err(GameError::PlayerNotFound);
            },
        };
        let player = self.world_state.players[idx];
        if !player.is_alive {
            return Err(GameError::PlayerDead);
        }
        let distance = player.position.manhattan_distance(&target);
        if distance > player.movement_points as u64 {
            return Err(GameError::InsufficientMovement);
        }
        if !self.is_valid_position(&target) {
            return Err(GameError::InvalidPosition);
        }
        if self.is_position_occupied(&target, Some(player_id)) {
            return Err(GameError::PositionOccupied);
        }
        let remaining = player.movement_points.saturating_sub(distance as u32);
        self.world_state.players.set(
            idx,
            PlayerState { position: target, movement_points: remaining, ..player },
        );
        Ok(())
    }

    /// Lets `attacker_id` strike `target_id`. The rules are checked in a fixed order, and a
    /// refused attack changes nothing. A successful one returns the damage dealt.
    pub fn attack(&mut self, attacker_id: PlayerId, target_id: PlayerId) -> (result: Result<
        u32,
        GameError,
    >)
        ensures
            match old(self)@.world.attack_rejection(attacker_id, target_id) {
                Some(reason) => result == Err::<u32, GameError>(reason),
                None => result == Ok::<u32, GameError>(ATTACK_DAMAGE) && final(self)@.world == old(
                    self,
                )@.world.after_attack(attacker_id, target_id),
            },
            result is Err ==> final(self)@ == old(self)@,
            final(self)@.next_id == old(self)@.next_id,
            result is Ok && old(self)@.world.player(target_id)->0.health <= ATTACK_DAMAGE ==> {
                let t = index_of(old(self)@.world.players, target_id)->0;
                final(self)@.world.players[t].health == 0 && !final(self)@.world.players[t].is_alive
            },
            old(self)@.wf() ==> final(self)@.wf(),
    {
        if attacker_id == target_id {
            return Err(GameError::SelfAttack);
        }
        proof {
            lemma_index_of(self@.world.players, attacker_id);
            lemma_index_of(self@.world.players, target_id);
        }
        let a = match self.world_state.find_player(attacker_id) {
            Some(i) => i,
            None => {
                return Err(GameError::AttackerNotFound);
            },
        };
        let attacker = self.world_state.players[a];
        if !attacker.is_alive {
            return Err(GameError::AttackerDead);
        }
        if attacker.action_points == 0 {
            return Err(GameError::InsufficientActionPoints);
        }
        let t = match self.world_state.find_player(target_id) {
            Some(i) => i,
            None => {
                return Err(GameError::TargetNotFound);
            },
        };
        let target = self.world_state.players[t];
        if !target.is_alive {
            return Err(GameError::TargetAlreadyDead);
        }
        let distance = attacker.position.manhattan_distance(&target.position);
        if distance > ATTACK_RANGE {
            return Err(GameError::TargetOutOfRange);
        }
        let health = target.health.saturating_sub(ATTACK_DAMAGE);
        self.world_state.players.set(
            t,
            PlayerState { health, is_alive: health != 0, ..target },
        );
        self.world_state.players.set(
            a,
            PlayerState { action_points: attacker.action_points - 1, ..attacker },
        );
        Ok(ATTACK_DAMAGE)
    }

    /// Ends the turn of `player_id`, who must hold it. The turn passes to the next living
    /// player in list order, cyclically, starting just after the caller; that player's
    /// points are restored. When nobody is alive only the turn counter advances.
    pub fn end_turn(&mut self, player_id: PlayerId) -> (result: Result<(), GameError>)
        requires
            old(self)@.world.end_turn_rejection(player_id) is None ==> old(self)@.world.turn_number
                < u32::MAX,
        ensures
            match old(self)@.world.end_turn_rejection(player_id) {
                Some(reason) => result == Err::<(), GameError>(reason),
                None => result is Ok && final(self)@.world == old(self)@.world.after_end_turn(
                    player_id,
                ),
            },
            result is Err ==> final(self)@ == old(self)@,
            final(self)@.next_id == old(self)@.next_id,
            player_id != old(self)@.world.current_turn ==> result == Err::<(), GameError>(
                GameError::NotYourTurn,
            ),
            result is Ok ==> final(self)@.world.turn_number == old(self)@.world.turn_number + 1,
            result is Ok && any_alive(old(self)@.world.players) ==> exists|j: int|
                0 <= j < final(self)@.world.players.len() && (
                #[trigger] final(self)@.world.players[j]).id == final(self)@.world.current_turn
                    && final(self)@.world.players[j].is_alive
                    && final(self)@.world.players[j].action_points == DEFAULT_ACTION_POINTS
                    && final(self)@.world.players[j].movement_points == DEFAULT_MOVEMENT_POINTS,
            old(self)@.wf() ==> final(self)@.wf(),
    {
        if self.world_state.current_turn != player_id {
            return Err(GameError::NotYourTurn);
        }
        let from = match self.world_state.find_player(player_id) {
            Some(i) => i,
            None => {
                return Err(GameError::PlayerNotFound);
            },
        };
        let count = self.world_state.players.len();
        let mut next: Option<usize> = None;
        let mut j: usize = from + 1;
        while j < count && next.is_none()
            invariant
                count == self.world_state.players.len(),
                from < j <= count,
                self@ == old(self)@,
                match next {
                    Some(n) => from < n < count && self.world_state.players@[n as int].is_alive
                        && forall|k: int|
                        from < k < n ==> !(#[trigger] self.world_state.players@[k]).is_alive,
                    None => forall|k: int|
                        from < k < j ==> !(#[trigger] self.world_state.players@[k]).is_alive,
                },
            decreases count - j,
        {
            if self.world_state.players[j].is_alive {
                next = Some(j);
            }
            j += 1;
        }
        let mut j: usize = 0;
        while j <= from && next.is_none()
            invariant
                count == self.world_state.players.len(),
                from < count,
                j <= from + 1,
                self@ == old(self)@,
                match next {
                    Some(n) => n < count && self.world_state.players@[n as int].is_alive && (if n
                        > from {
                        forall|k: int|
                            from < k < n ==> !(#[trigger] self.world_state.players@[k]).is_alive
                    } else {
                        &&& forall|k: int|
                            from < k < count ==> !(
                            #[trigger] self.world_state.players@[k]).is_alive
                        &&& forall|k: int|
                            0 <= k < n ==> !(#[trigger] self.world_state.players@[k]).is_alive
                    }),
                    None => {
                        &&& forall|k: int|
                            from < k < count ==> !(
                            #[trigger] self.world_state.players@[k]).is_alive
                        &&& forall|k: int|
                            0 <= k < j ==> !(#[trigger] self.world_state.players@[k]).is_alive
                    },
                },
            decreases from + 1 - j,
        {
            if self.world_state.players[j].is_alive {
                next = Some(j);
            }
            j += 1;
        }
        self.world_state.turn_number = self.world_state.turn_number + 1;
        match next {
            Some(n) => {
                proof {
                    lemma_successor_is(old(self)@.world.players, from as int, n as int);
                }
                let mut player = self.world_state.players[n];
                player.reset_turn();
                self.world_state.current_turn = player.id;
                self.world_state.players.set(n, player);
                assert(self@.world.players[n as int].id == self@.world.current_turn);
            },
            None => {
                assert(!any_alive(old(self)@.world.players));
            },
        }
        Ok(())
    }

    /// Read access to the world.
    pub fn get_world_state(&self) -> (world: &WorldState)
        ensures
            world@ == self@.world,
    {
        &self.world_state
    }

    /// An independent copy of the world, safe to hand to another component.
    pub fn get_world_state_clone(&self) -> (world: WorldState)
        ensures
            world@ == self@.world,
    {
        self.world_state.snapshot()
    }
}

} // verus!
