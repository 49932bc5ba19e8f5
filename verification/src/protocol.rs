//! Geometry, entity and world model shared by every component.

use vstd::prelude::*;

pub mod serialization;

verus! {

/// Unique identity of a player.
pub type PlayerId = u32;

/// Action points a player holds at the start of a turn.
pub const DEFAULT_ACTION_POINTS: u32 = 6;

/// Movement points a player holds at the start of a turn.
pub const DEFAULT_MOVEMENT_POINTS: u32 = 3;

/// Health a player is created with, which is also its maximum.
pub const DEFAULT_HEALTH: u32 = 100;

/// A cell of the grid.
#[derive(Debug, Clone, Copy, PartialEq, Eq, Hash, Structural)]
pub struct Position {
    pub x: i32,
    pub y: i32,
}

/// Absolute value of a mathematical integer.
pub open spec fn abs_int(v: int) -> int {
    if v < 0 {
        -v
    } else {
        v
    }
}

/// Absolute difference of two coordinates, which always fits in `u32`.
pub fn coordinate_gap(a: i32, b: i32) -> (gap: u32)
    ensures
        gap as int == abs_int(a as int - b as int),
{
    let wide: i64 = a as i64 - b as i64;
    if wide < 0 {
        (-wide) as u32
    } else {
        wide as u32
    }
}

impl Position {
    /// Manhattan distance between two cells as a mathematical integer.
    pub open spec fn distance(self, other: Position) -> int {
        abs_int(self.x as int - other.x as int) + abs_int(self.y as int - other.y as int)
    }

    /// Whether the cell lies inside a map of the given size.
    pub open spec fn within(self, width: i32, height: i32) -> bool {
        0 <= self.x < width && 0 <= self.y < height
    }

/// The cell at the given coordinates.
    pub fn new(x: i32, y: i32) -> (p: Position)
        ensures
            p.x == x,
            p.y == y,
    {
        Position { x, y }
    }

    /// Manhattan distance |dx| + |dy|, exact for every pair of cells.
    pub fn manhattan_distance(&self, other: &Position) -> (d: u64)
        ensures
            d as int == self.distance(*other),
    {
        let dx: u32 = coordinate_gap(self.x, other.x);
        let dy: u32 = coordinate_gap(self.y, other.y);
        dx as u64 + dy as u64
    }
}

/// The distance is symmetric, and the distance from a cell to itself is zero.
pub proof fn lemma_distance_symmetric(p: Position, q: Position)
    ensures
        p.distance(q) == q.distance(p),
        p.distance(p) == 0,
        p.distance(q) >= 0,
{
}

/// State of one player in the match.
#[derive(Debug, Clone, Copy, PartialEq, Eq, Structural)]
pub struct PlayerState {
    pub id: PlayerId,
    pub position: Position,
    pub action_points: u32,
    pub movement_points: u32,
    pub health: u32,
    pub max_health: u32,
    pub is_alive: bool,
}

impl PlayerState {
    /// A freshly created player: full health and a full turn's worth of points.
    pub open spec fn fresh(id: PlayerId, position: Position) -> PlayerState {
        PlayerState {
            id,
            position,
            action_points: DEFAULT_ACTION_POINTS,
            movement_points: DEFAULT_MOVEMENT_POINTS,
            health: DEFAULT_HEALTH,
            max_health: DEFAULT_HEALTH,
            is_alive: true,
        }
    }

    /// Health never exceeds its maximum, and a player lives exactly while it has health.
    pub open spec fn valid(self) -> bool {
        self.health <= self.max_health && self.is_alive == (self.health > 0)
    }

    /// The same player with a full turn's worth of points.
    pub open spec fn refreshed(self) -> PlayerState {
        PlayerState {
            action_points: DEFAULT_ACTION_POINTS,
            movement_points: DEFAULT_MOVEMENT_POINTS,
            ..self
        }
    }

/// A new player at `position`, alive, with full health and a full turn's worth of
/// points.
    pub fn new(id: PlayerId, position: Position) -> (p: PlayerState)
        ensures
            p == PlayerState::fresh(id, position),
            p.valid(),
    {
        PlayerState {
            id,
            position,
            action_points: DEFAULT_ACTION_POINTS,
            movement_points: DEFAULT_MOVEMENT_POINTS,
            health: DEFAULT_HEALTH,
            max_health: DEFAULT_HEALTH,
            is_alive: true,
        }
    }

    /// Restores action and movement points at the start of a turn.
    pub fn reset_turn(&mut self)
        ensures
            *final(self) == old(self).refreshed(),
    {
        self.action_points = DEFAULT_ACTION_POINTS;
        self.movement_points = DEFAULT_MOVEMENT_POINTS;
    }
}

/// Index of the first player with the given identity, if any.
pub open spec fn index_of(players: Seq<PlayerState>, id: PlayerId) -> Option<int>
    decreases players.len(),
{
    if players.len() == 0 {
        None
    } else if players[0].id == id {
        Some(0)
    } else {
        match index_of(players.skip(1), id) {
            Some(i) => Some(i + 1),
            None => None,
        }
    }
}

/// What `index_of` returns: the least index that holds the identity, or `None` when no
/// player holds it.
pub proof fn lemma_index_of(players: Seq<PlayerState>, id: PlayerId)
    ensures
        match index_of(players, id) {
            Some(i) => 0 <= i < players.len() && players[i].id == id && forall|j: int|
                0 <= j < i ==> players[j].id != id,
            None => forall|j: int| 0 <= j < players.len() ==> players[j].id != id,
        },
    decreases players.len(),
{
    if players.len() > 0 && players[0].id != id {
        let rest = players.skip(1);
        lemma_index_of(rest, id);
        match index_of(rest, id) {
            Some(i) => {
                assert forall|j: int| 0 <= j < i + 1 implies players[j].id != id by {
                    if j > 0 {
                        assert(rest[j - 1] == players[j]);
                    }
                }
            },
            None => {
                assert forall|j: int| 0 <= j < players.len() implies players[j].id != id by {
                    if j > 0 {
                        assert(rest[j - 1] == players[j]);
                    }
                }
            },
        }
    }
}

/// The index that `index_of` returns is the only one that is first to hold the identity.
pub proof fn lemma_index_of_is(players: Seq<PlayerState>, id: PlayerId, i: int)
    requires
        0 <= i < players.len(),
        players[i].id == id,
        forall|j: int| 0 <= j < i ==> players[j].id != id,
    ensures
        index_of(players, id) == Some(i),
{
    lemma_index_of(players, id);
}

/// No index holds the identity, so `index_of` finds none.
pub proof fn lemma_index_of_none(players: Seq<PlayerState>, id: PlayerId)
    requires
        forall|j: int| 0 <= j < players.len() ==> players[j].id != id,
    ensures
        index_of(players, id) is None,
{
    lemma_index_of(players, id);
}

/// Mathematical model of a `WorldState`.
pub struct WorldView {
    pub players: Seq<PlayerState>,
    pub current_turn: PlayerId,
    pub turn_number: u32,
    pub map_width: i32,
    pub map_height: i32,
}

/// The whole match: players in insertion order, whose turn it is, and the map.
#[derive(Debug, Clone)]
pub struct WorldState {
    pub players: Vec<PlayerState>,
    pub current_turn: PlayerId,
    pub turn_number: u32,
    pub map_width: i32,
    pub map_height: i32,
}

impl View for WorldState {
    type V = WorldView;

    open spec fn view(&self) -> WorldView {
        WorldView {
            players: self.players@,
            current_turn: self.current_turn,
            turn_number: self.turn_number,
            map_width: self.map_width,
            map_height: self.map_height,
        }
    }
}

impl WorldView {
    /// An empty world on a map of the given size; nobody holds the turn yet.
    pub open spec fn empty(map_width: i32, map_height: i32) -> WorldView {
        WorldView {
            players: Seq::empty(),
            current_turn: 0,
            turn_number: 1,
            map_width,
            map_height,
        }
    }

    /// The first player with the given identity, if any.
    pub open spec fn player(self, id: PlayerId) -> Option<PlayerState> {
        match index_of(self.players, id) {
            Some(i) => Some(self.players[i]),
            None => None,
        }
    }
}

impl WorldState {
/// An empty world on a map of the given size. The turn counter starts at 1 and nobody
/// holds the turn.
    pub fn new(map_width: i32, map_height: i32) -> (w: WorldState)
        ensures
            w@ == WorldView::empty(map_width, map_height),
    {
        WorldState { players: Vec::new(), current_turn: 0, turn_number: 1, map_width, map_height }
    }

    /// Position in the list of the first player with the given identity.
    pub fn find_player(&self, player_id: PlayerId) -> (found: Option<usize>)
        ensures
            match found {
                Some(i) => i < self.players.len() && index_of(self@.players, player_id) == Some(
                    i as int,
                ),
                None => index_of(self@.players, player_id) is None,
            },
    {
        let mut i: usize = 0;
        while i < self.players.len()
            invariant
                i <= self.players.len(),
                forall|j: int| 0 <= j < i ==> self.players@[j].id != player_id,
            decreases self.players.len() - i,
        {
            if self.players[i].id == player_id {
                proof {
                    lemma_index_of_is(self@.players, player_id, i as int);
                }
                return Some(i);
            }
            i += 1;
        }
        proof {
            lemma_index_of_none(self@.players, player_id);
        }
        None
    }

    /// The first player with the given identity.
    pub fn get_player(&self, player_id: PlayerId) -> (found: Option<&PlayerState>)
        ensures
            match found {
                Some(p) => self@.player(player_id) == Some(*p),
                None => self@.player(player_id) is None,
            },
    {
        match self.find_player(player_id) {
            Some(i) => Some(&self.players[i]),
            None => None,
        }
    }

    /// Mutable access to the first player with the given identity. Whatever the caller
    /// writes through the reference replaces that player; nothing else changes.
    pub fn get_player_mut(&mut self, player_id: PlayerId) -> (found: Option<&mut PlayerState>)
        ensures
            match found {
                Some(p) => index_of(old(self)@.players, player_id) matches Some(i) && *p == old(
                    self,
                )@.players[i] && final(self)@ == (WorldView {
                    players: old(self)@.players.update(i, *final(p)),
                    ..old(self)@
                }),
                None => index_of(old(self)@.players, player_id) is None && final(self)@ == old(
                    self,
                )@,
            },
    {
        match self.find_player(player_id) {
            Some(i) => Some(&mut self.players[i]),
            None => None,
        }
    }

    /// An independent copy of the world.
    pub fn snapshot(&self) -> (copy: WorldState)
        ensures
            copy@ == self@,
    {
        let mut players: Vec<PlayerState> = Vec::new();
        let mut i: usize = 0;
        while i < self.players.len()
            invariant
                i <= self.players.len(),
                players@ == self.players@.take(i as int),
            decreases self.players.len() - i,
        {
            players.push(self.players[i]);
            i += 1;
        }
        assert(players@ =~= self.players@);
        WorldState {
            players,
            current_turn: self.current_turn,
            turn_number: self.turn_number,
            map_width: self.map_width,
            map_height: self.map_height,
        }
    }
}

/// Mathematical model of a `Message`.
pub enum MessageView {
    Connect { player_id: PlayerId, player_name: Seq<char> },
    Disconnect { player_id: PlayerId },
    Move { player_id: PlayerId, target_position: Position },
    Attack { attacker_id: PlayerId, target_id: PlayerId },
    EndTurn { player_id: PlayerId },
    Sync { world_state: WorldView },
    Response { success: bool, message: Seq<char> },
    Welcome { player_id: PlayerId, world_state: WorldView },
}

/// Messages exchanged between a client and the server.
#[derive(Debug, Clone)]
pub enum Message {
    /// A player announces itself.
    Connect { player_id: PlayerId, player_name: String },
    /// A player leaves of its own accord.
    Disconnect { player_id: PlayerId },
    /// A player asks to move to a cell.
    Move { player_id: PlayerId, target_position: Position },
    /// A player asks to strike another.
    Attack { attacker_id: PlayerId, target_id: PlayerId },
    /// A player asks to end its turn.
    EndTurn { player_id: PlayerId },
    /// The server sends the whole world.
    Sync { world_state: WorldState },
    /// The server answers the request it has just handled.
    Response { success: bool, message: String },
    /// The server greets a new connection with its identity and the world.
    Welcome { player_id: PlayerId, world_state: WorldState },
}

impl View for Message {
    type V = MessageView;

    open spec fn view(&self) -> MessageView {
        match self {
            Message::Connect { player_id, player_name } => MessageView::Connect {
                player_id: *player_id,
                player_name: player_name@,
            },
            Message::Disconnect { player_id } => MessageView::Disconnect { player_id: *player_id },
            Message::Move { player_id, target_position } => MessageView::Move {
                player_id: *player_id,
                target_position: *target_position,
            },
            Message::Attack { attacker_id, target_id } => MessageView::Attack {
                attacker_id: *attacker_id,
                target_id: *target_id,
            },
            Message::EndTurn { player_id } => MessageView::EndTurn { player_id: *player_id },
            Message::Sync { world_state } => MessageView::Sync { world_state: world_state@ },
            Message::Response { success, message } => MessageView::Response {
                success: *success,
                message: message@,
            },
            Message::Welcome { player_id, world_state } => MessageView::Welcome {
                player_id: *player_id,
                world_state: world_state@,
            },
        }
    }
}

impl Message {
    /// An independent copy of the message.
    pub fn duplicate(&self) -> (copy: Message)
        ensures
            copy@ == self@,
    {
        match self {
            Message::Connect { player_id, player_name } => Message::Connect {
                player_id: *player_id,
                player_name: player_name.clone(),
            },
            Message::Disconnect { player_id } => Message::Disconnect { player_id: *player_id },
            Message::Move { player_id, target_position } => Message::Move {
                player_id: *player_id,
                target_position: *target_position,
            },
            Message::Attack { attacker_id, target_id } => Message::Attack {
                attacker_id: *attacker_id,
                target_id: *target_id,
            },
            Message::EndTurn { player_id } => Message::EndTurn { player_id: *player_id },
            Message::Sync { world_state } => Message::Sync { world_state: world_state.snapshot() },
            Message::Response { success, message } => Message::Response {
                success: *success,
                message: message.clone(),
            },
            Message::Welcome { player_id, world_state } => Message::Welcome {
                player_id: *player_id,
                world_state: world_state.snapshot(),
            },
        }
    }
}

} // verus!
