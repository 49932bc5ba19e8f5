//! The binary encoding of messages.
//!
//! A message is one tag byte followed by its fields in declaration order. Integers are
//! four bytes, least significant first; signed ones in two's complement. A flag is one
//! byte, 0 or 1. A text is the length of its UTF-8 form followed by that form. A world is
//! the number of its players, the players, then the turn holder, the turn counter and
//! the size of the map. Every message has exactly one encoding, and the decoder accepts
//! nothing else.

use crate::protocol::{Message, MessageView, PlayerState, Position, WorldState, WorldView};
use vstd::bytes::{
    lemma_auto_spec_u32_to_from_le_bytes, spec_u32_from_le_bytes, spec_u32_to_le_bytes,
    u32_from_le_bytes, u32_to_le_bytes,
};
use vstd::prelude::*;
use vstd::slice::{slice_subrange, slice_to_vec};
use vstd::utf8::{decode_utf8, encode_utf8, valid_utf8};

verus! {

/// Number of bytes that encode one player.
pub const PLAYER_BYTES: usize = 29;

/// Number of bytes that follow the players in the encoding of a world.
pub const WORLD_TAIL_BYTES: usize = 16;

/// Why a message could not be encoded or decoded.
#[derive(Debug, Clone, Copy, PartialEq, Eq, Structural)]
pub enum WireError {
    /// A text or a list of players is too long for its length field.
    TooLarge,
    /// The bytes are not the encoding of any message.
    Malformed,
}

/// The four bytes of an unsigned integer, least significant first.
pub open spec fn u32_bytes(v: u32) -> Seq<u8> {
    spec_u32_to_le_bytes(v)
}

/// The unsigned integer held in the four bytes that start at `at`.
pub open spec fn u32_at(bytes: Seq<u8>, at: int) -> u32 {
    spec_u32_from_le_bytes(bytes.subrange(at, at + 4))
}

/// The two's complement bit pattern of a signed integer.
pub open spec fn i32_bits(v: i32) -> u32 {
    if v >= 0 {
        v as u32
    } else {
        (v + 0x1_0000_0000) as u32
    }
}

/// The signed integer with the given two's complement bit pattern.
pub open spec fn bits_i32(bits: u32) -> i32 {
    if bits < 0x8000_0000 {
        bits as i32
    } else {
        (bits - 0x1_0000_0000) as i32
    }
}

/// The four bytes of a signed integer.
pub open spec fn i32_bytes(v: i32) -> Seq<u8> {
    u32_bytes(i32_bits(v))
}

/// The signed integer held in the four bytes that start at `at`.
pub open spec fn i32_at(bytes: Seq<u8>, at: int) -> i32 {
    bits_i32(u32_at(bytes, at))
}

/// The byte of a flag.
pub open spec fn flag_bytes(flag: bool) -> Seq<u8> {
    seq![if flag { 1u8 } else { 0u8 }]
}

/// The eight bytes of a cell: `x`, then `y`.
pub open spec fn position_bytes(p: Position) -> Seq<u8> {
    i32_bytes(p.x) + i32_bytes(p.y)
}

/// The cell held in the eight bytes that start at `at`.
pub open spec fn position_at(bytes: Seq<u8>, at: int) -> Position {
    Position { x: i32_at(bytes, at), y: i32_at(bytes, at + 4) }
}

/// The bytes of a player: its fields in declaration order.
pub open spec fn player_bytes(p: PlayerState) -> Seq<u8> {
    u32_bytes(p.id) + position_bytes(p.position) + u32_bytes(p.action_points) + u32_bytes(
        p.movement_points,
    ) + u32_bytes(p.health) + u32_bytes(p.max_health) + flag_bytes(p.is_alive)
}

/// The player held in the bytes that start at `at`.
pub open spec fn player_at(bytes: Seq<u8>, at: int) -> PlayerState {
    PlayerState {
        id: u32_at(bytes, at),
        position: position_at(bytes, at + 4),
        action_points: u32_at(bytes, at + 12),
        movement_points: u32_at(bytes, at + 16),
        health: u32_at(bytes, at + 20),
        max_health: u32_at(bytes, at + 24),
        is_alive: bytes[at + 28] == 1,
    }
}

/// The players one after another.
pub open spec fn players_bytes(players: Seq<PlayerState>) -> Seq<u8>
    decreases players.len(),
{
    if players.len() == 0 {
        Seq::empty()
    } else {
        players_bytes(players.drop_last()) + player_bytes(players.last())
    }
}

/// The `count` players held in the bytes that start at `at`.
pub open spec fn players_at(bytes: Seq<u8>, at: int, count: nat) -> Seq<PlayerState> {
    Seq::new(count, |i: int| player_at(bytes, at + PLAYER_BYTES * i))
}

/// The bytes of a world.
pub open spec fn world_bytes(w: WorldView) -> Seq<u8> {
    u32_bytes(w.players.len() as u32) + players_bytes(w.players) + u32_bytes(w.current_turn)
        + u32_bytes(w.turn_number) + i32_bytes(w.map_width) + i32_bytes(w.map_height)
}

/// Whether the bytes from `at` to the end have the form of a world.
pub open spec fn world_fits(bytes: Seq<u8>, at: int) -> bool {
    &&& at + 4 <= bytes.len()
    &&& bytes.len() == at + 4 + PLAYER_BYTES * u32_at(bytes, at) + WORLD_TAIL_BYTES
    &&& forall|i: int|
        0 <= i < u32_at(bytes, at) ==> #[trigger] bytes[at + 4 + PLAYER_BYTES * i + 28] <= 1
}

/// The world held in the bytes from `at` to the end.
pub open spec fn world_at(bytes: Seq<u8>, at: int) -> WorldView {
    let count = u32_at(bytes, at);
    let tail = at + 4 + PLAYER_BYTES * count;
    WorldView {
        players: players_at(bytes, at + 4, count as nat),
        current_turn: u32_at(bytes, tail),
        turn_number: u32_at(bytes, tail + 4),
        map_width: i32_at(bytes, tail + 8),
        map_height: i32_at(bytes, tail + 12),
    }
}

/// The bytes of a text: the length of its UTF-8 form, then that form.
pub open spec fn text_bytes(text: Seq<char>) -> Seq<u8> {
    u32_bytes(encode_utf8(text).len() as u32) + encode_utf8(text)
}

/// Whether the bytes from `at` to the end have the form of a text.
pub open spec fn text_fits(bytes: Seq<u8>, at: int) -> bool {
    &&& at + 4 <= bytes.len()
    &&& bytes.len() == at + 4 + u32_at(bytes, at)
    &&& valid_utf8(bytes.subrange(at + 4, bytes.len() as int))
}

/// The text held in the bytes from `at` to the end.
pub open spec fn text_at(bytes: Seq<u8>, at: int) -> Seq<char> {
    decode_utf8(bytes.subrange(at + 4, bytes.len() as int))
}

/// Whether every length in the message fits its length field.
pub open spec fn encodable(m: MessageView) -> bool {
    match m {
        MessageView::Connect { player_name, .. } => encode_utf8(player_name).len() <= u32::MAX,
        MessageView::Response { message, .. } => encode_utf8(message).len() <= u32::MAX,
        MessageView::Sync { world_state } => world_state.players.len() <= u32::MAX,
        MessageView::Welcome { world_state, .. } => world_state.players.len() <= u32::MAX,
        _ => true,
    }
}

/// The encoding of a message.
pub open spec fn message_bytes(m: MessageView) -> Seq<u8> {
    match m {
        MessageView::Connect { player_id, player_name } => seq![0u8] + u32_bytes(player_id)
            + text_bytes(player_name),
        MessageView::Disconnect { player_id } => seq![1u8] + u32_bytes(player_id),
        MessageView::Move { player_id, target_position } => seq![2u8] + u32_bytes(player_id)
            + position_bytes(target_position),
        MessageView::Attack { attacker_id, target_id } => seq![3u8] + u32_bytes(attacker_id)
            + u32_bytes(target_id),
        MessageView::EndTurn { player_id } => seq![4u8] + u32_bytes(player_id),
        MessageView::Sync { world_state } => seq![5u8] + world_bytes(world_state),
        MessageView::Response { success, message } => seq![6u8] + flag_bytes(success)
            + text_bytes(message),
        MessageView::Welcome { player_id, world_state } => seq![7u8] + u32_bytes(player_id)
            + world_bytes(world_state),
    }
}

/// The message that the bytes encode, if they encode one.
pub open spec fn decode(bytes: Seq<u8>) -> Option<MessageView> {
    if bytes.len() == 0 {
        None
    } else if bytes[0] == 0 {
        if bytes.len() >= 5 && text_fits(bytes, 5) {
            Some(
                MessageView::Connect {
                    player_id: u32_at(bytes, 1),
                    player_name: text_at(bytes, 5),
                },
            )
        } else {
            None
        }
    } else if bytes[0] == 1 {
        if bytes.len() == 5 {
            Some(MessageView::Disconnect { player_id: u32_at(bytes, 1) })
        } else {
            None
        }
    } else if bytes[0] == 2 {
        if bytes.len() == 13 {
            Some(
                MessageView::Move {
                    player_id: u32_at(bytes, 1),
                    target_position: position_at(bytes, 5),
                },
            )
        } else {
            None
        }
    } else if bytes[0] == 3 {
        if bytes.len() == 9 {
            Some(
                MessageView::Attack { attacker_id: u32_at(bytes, 1), target_id: u32_at(bytes, 5) },
            )
        } else {
            None
        }
    } else if bytes[0] == 4 {
        if bytes.len() == 5 {
            Some(MessageView::EndTurn { player_id: u32_at(bytes, 1) })
        } else {
            None
        }
    } else if bytes[0] == 5 {
        if world_fits(bytes, 1) {
            Some(MessageView::Sync { world_state: world_at(bytes, 1) })
        } else {
            None
        }
    } else if bytes[0] == 6 {
        if bytes.len() >= 2 && bytes[1] <= 1 && text_fits(bytes, 2) {
            Some(MessageView::Response { success: bytes[1] == 1, message: text_at(bytes, 2) })
        } else {
            None
        }
    } else if bytes[0] == 7 {
        if bytes.len() >= 5 && world_fits(bytes, 5) {
            Some(
                MessageView::Welcome {
                    player_id: u32_at(bytes, 1),
                    world_state: world_at(bytes, 5),
                },
            )
        } else {
            None
        }
    } else {
        None
    }
}

/// An integer is read back from the place where its bytes were written.
pub proof fn lemma_u32_written(bytes: Seq<u8>, at: int, v: u32)
    requires
        0 <= at,
        at + 4 <= bytes.len(),
        bytes.subrange(at, at + 4) == u32_bytes(v),
    ensures
        u32_at(bytes, at) == v,
{
    lemma_auto_spec_u32_to_from_le_bytes();
    assert(spec_u32_to_le_bytes(v).len() == 4);
}

/// Four bytes are the encoding of the integer read from them.
pub proof fn lemma_u32_read(bytes: Seq<u8>, at: int)
    requires
        0 <= at,
        at + 4 <= bytes.len(),
    ensures
        u32_bytes(u32_at(bytes, at)) == bytes.subrange(at, at + 4),
        u32_bytes(u32_at(bytes, at)).len() == 4,
{
    lemma_auto_spec_u32_to_from_le_bytes();
    let part = bytes.subrange(at, at + 4);
    assert(spec_u32_to_le_bytes(spec_u32_from_le_bytes(part)) == part);
    assert(spec_u32_to_le_bytes(u32_at(bytes, at)).len() == 4);
}

/// A signed integer is read back from the place where its bytes were written.
pub proof fn lemma_i32_written(bytes: Seq<u8>, at: int, v: i32)
    requires
        0 <= at,
        at + 4 <= bytes.len(),
        bytes.subrange(at, at + 4) == i32_bytes(v),
    ensures
        i32_at(bytes, at) == v,
{
    lemma_u32_written(bytes, at, i32_bits(v));
}

/// Four bytes are the encoding of the signed integer read from them.
pub proof fn lemma_i32_read(bytes: Seq<u8>, at: int)
    requires
        0 <= at,
        at + 4 <= bytes.len(),
    ensures
        i32_bytes(i32_at(bytes, at)) == bytes.subrange(at, at + 4),
        i32_bytes(i32_at(bytes, at)).len() == 4,
{
    lemma_u32_read(bytes, at);
}

/// The encodings of integers are four bytes long.
pub proof fn lemma_int_bytes_len(u: u32, i: i32)
    ensures
        u32_bytes(u).len() == 4,
        i32_bytes(i).len() == 4,
{
    lemma_auto_spec_u32_to_from_le_bytes();
    assert(spec_u32_to_le_bytes(u).len() == 4);
    assert(spec_u32_to_le_bytes(i32_bits(i)).len() == 4);
}

/// A cell is read back from the place where its bytes were written.
pub proof fn lemma_position_written(bytes: Seq<u8>, at: int, p: Position)
    requires
        0 <= at,
        at + 8 <= bytes.len(),
        bytes.subrange(at, at + 8) == position_bytes(p),
    ensures
        position_at(bytes, at) == p,
        position_bytes(p).len() == 8,
{
    lemma_int_bytes_len(0, p.x);
    lemma_int_bytes_len(0, p.y);
    let part = bytes.subrange(at, at + 8);
    assert(bytes.subrange(at, at + 4) =~= part.subrange(0, 4));
    assert(part.subrange(0, 4) =~= i32_bytes(p.x));
    assert(bytes.subrange(at + 4, at + 8) =~= part.subrange(4, 8));
    assert(part.subrange(4, 8) =~= i32_bytes(p.y));
    lemma_i32_written(bytes, at, p.x);
    lemma_i32_written(bytes, at + 4, p.y);
}

/// Eight bytes are the encoding of the cell read from them.
pub proof fn lemma_position_read(bytes: Seq<u8>, at: int)
    requires
        0 <= at,
        at + 8 <= bytes.len(),
    ensures
        position_bytes(position_at(bytes, at)) == bytes.subrange(at, at + 8),
{
    lemma_i32_read(bytes, at);
    lemma_i32_read(bytes, at + 4);
    assert(bytes.subrange(at, at + 8) =~= bytes.subrange(at, at + 4) + bytes.subrange(
        at + 4,
        at + 8,
    ));
}

/// Every player takes the same number of bytes.
pub proof fn lemma_player_bytes_len(p: PlayerState)
    ensures
        player_bytes(p).len() == PLAYER_BYTES,
{
    lemma_int_bytes_len(p.id, p.position.x);
    lemma_int_bytes_len(p.action_points, p.position.y);
    lemma_int_bytes_len(p.movement_points, 0);
    lemma_int_bytes_len(p.health, 0);
    lemma_int_bytes_len(p.max_health, 0);
}

/// A player is read back from the place where its bytes were written, and its flag
/// is 0 or 1.
#[verifier::rlimit(50)]
pub proof fn lemma_player_written(bytes: Seq<u8>, at: int, p: PlayerState)
    requires
        0 <= at,
        at + PLAYER_BYTES <= bytes.len(),
        bytes.subrange(at, at + PLAYER_BYTES) == player_bytes(p),
    ensures
        player_at(bytes, at) == p,
        bytes[at + 28] <= 1,
{
    lemma_player_bytes_len(p);
    lemma_int_bytes_len(p.id, p.position.x);
    lemma_int_bytes_len(p.action_points, p.position.y);
    lemma_int_bytes_len(p.movement_points, 0);
    lemma_int_bytes_len(p.health, 0);
    lemma_int_bytes_len(p.max_health, 0);
    let part = bytes.subrange(at, at + PLAYER_BYTES);
    assert(bytes.subrange(at, at + 4) =~= part.subrange(0, 4));
    assert(part.subrange(0, 4) =~= u32_bytes(p.id));
    assert(bytes.subrange(at + 4, at + 12) =~= part.subrange(4, 12));
    assert(part.subrange(4, 12) =~= position_bytes(p.position));
    assert(bytes.subrange(at + 12, at + 16) =~= part.subrange(12, 16));
    assert(part.subrange(12, 16) =~= u32_bytes(p.action_points));
    assert(bytes.subrange(at + 16, at + 20) =~= part.subrange(16, 20));
    assert(part.subrange(16, 20) =~= u32_bytes(p.movement_points));
    assert(bytes.subrange(at + 20, at + 24) =~= part.subrange(20, 24));
    assert(part.subrange(20, 24) =~= u32_bytes(p.health));
    assert(bytes.subrange(at + 24, at + 28) =~= part.subrange(24, 28));
    assert(part.subrange(24, 28) =~= u32_bytes(p.max_health));
    assert(bytes[at + 28] == part[28]);
    assert(part[28] == flag_bytes(p.is_alive)[0]);
    lemma_u32_written(bytes, at, p.id);
    lemma_position_written(bytes, at + 4, p.position);
    lemma_u32_written(bytes, at + 12, p.action_points);
    lemma_u32_written(bytes, at + 16, p.movement_points);
    lemma_u32_written(bytes, at + 20, p.health);
    lemma_u32_written(bytes, at + 24, p.max_health);
}

/// Bytes whose flag is 0 or 1 are the encoding of the player read from them.
pub proof fn lemma_player_read(bytes: Seq<u8>, at: int)
    requires
        0 <= at,
        at + PLAYER_BYTES <= bytes.len(),
        bytes[at + 28] <= 1,
    ensures
        player_bytes(player_at(bytes, at)) == bytes.subrange(at, at + PLAYER_BYTES),
{
    lemma_u32_read(bytes, at);
    lemma_position_read(bytes, at + 4);
    lemma_u32_read(bytes, at + 12);
    lemma_u32_read(bytes, at + 16);
    lemma_u32_read(bytes, at + 20);
    lemma_u32_read(bytes, at + 24);
    let p = player_at(bytes, at);
    assert(flag_bytes(p.is_alive) =~= bytes.subrange(at + 28, at + 29));
    assert(bytes.subrange(at, at + PLAYER_BYTES) =~= bytes.subrange(at, at + 4) + bytes.subrange(
        at + 4,
        at + 12,
    ) + bytes.subrange(at + 12, at + 16) + bytes.subrange(at + 16, at + 20) + bytes.subrange(
        at + 20,
        at + 24,
    ) + bytes.subrange(at + 24, at + 28) + bytes.subrange(at + 28, at + 29));
}

/// A list of players takes as many bytes as its players together.
pub proof fn lemma_players_bytes_len(players: Seq<PlayerState>)
    ensures
        players_bytes(players).len() == PLAYER_BYTES * players.len(),
    decreases players.len(),
{
    if players.len() > 0 {
        lemma_players_bytes_len(players.drop_last());
        lemma_player_bytes_len(players.last());
    }
}

/// Each player is read back from the place where a list of players was written.
pub proof fn lemma_players_written(bytes: Seq<u8>, at: int, players: Seq<PlayerState>)
    requires
        0 <= at,
        at + PLAYER_BYTES * players.len() <= bytes.len(),
        bytes.subrange(at, at + PLAYER_BYTES * players.len()) == players_bytes(players),
    ensures
        players_at(bytes, at, players.len()) == players,
        forall|i: int| 0 <= i < players.len() ==> #[trigger] bytes[at + PLAYER_BYTES * i + 28] <= 1,
    decreases players.len(),
{
    let n = players.len() as int;
    if n > 0 {
        let front = players.drop_last();
        lemma_players_bytes_len(front);
        lemma_player_bytes_len(players.last());
        let whole = bytes.subrange(at, at + PLAYER_BYTES * n);
        assert(bytes.subrange(at, at + PLAYER_BYTES * (n - 1)) =~= whole.subrange(
            0,
            PLAYER_BYTES * (n - 1),
        ));
        assert(whole.subrange(0, PLAYER_BYTES * (n - 1)) =~= players_bytes(front));
        lemma_players_written(bytes, at, front);
        let last_at = at + PLAYER_BYTES * (n - 1);
        assert(bytes.subrange(last_at, last_at + PLAYER_BYTES) =~= whole.subrange(
            PLAYER_BYTES * (n - 1),
            PLAYER_BYTES * n,
        ));
        assert(whole.subrange(PLAYER_BYTES * (n - 1), PLAYER_BYTES * n) =~= player_bytes(
            players.last(),
        ));
        lemma_player_written(bytes, last_at, players.last());
        assert forall|i: int| 0 <= i < n implies #[trigger] players_at(bytes, at, n as nat)[i]
            == players[i] by {
            if i < n - 1 {
                assert(players_at(bytes, at, (n - 1) as nat)[i] == front[i]);
            }
        }
        assert(players_at(bytes, at, n as nat) =~= players);
        assert forall|i: int| 0 <= i < n implies #[trigger] bytes[at + PLAYER_BYTES * i + 28]
            <= 1 by {
            if i < n - 1 {
                assert(0 <= i < front.len());
            }
        }
    } else {
        assert(players_at(bytes, at, 0) =~= players);
    }
}

/// A run of well-formed players is the encoding of the players read from it.
pub proof fn lemma_players_read(bytes: Seq<u8>, at: int, count: nat)
    requires
        0 <= at,
        at + PLAYER_BYTES * count <= bytes.len(),
        forall|i: int| 0 <= i < count ==> #[trigger] bytes[at + PLAYER_BYTES * i + 28] <= 1,
    ensures
        players_bytes(players_at(bytes, at, count)) == bytes.subrange(
            at,
            at + PLAYER_BYTES * count,
        ),
    decreases count,
{
    let players = players_at(bytes, at, count);
    if count > 0 {
        let fewer = (count - 1) as nat;
        assert forall|i: int| 0 <= i < fewer implies #[trigger] bytes[at + PLAYER_BYTES * i + 28]
            <= 1 by {
            assert(0 <= i < count);
        }
        lemma_players_read(bytes, at, fewer);
        assert(players.drop_last() =~= players_at(bytes, at, fewer));
        let last_at = at + PLAYER_BYTES * fewer;
        assert(bytes[at + PLAYER_BYTES * (fewer as int) + 28] <= 1);
        lemma_player_read(bytes, last_at);
        assert(players.last() == player_at(bytes, last_at));
        assert(bytes.subrange(at, at + PLAYER_BYTES * count) =~= bytes.subrange(at, last_at)
            + bytes.subrange(last_at, last_at + PLAYER_BYTES));
    } else {
        assert(bytes.subrange(at, at + PLAYER_BYTES * count) =~= Seq::<u8>::empty());
    }
}

/// A world takes its count, its players and its tail.
pub proof fn lemma_world_bytes_len(w: WorldView)
    ensures
        world_bytes(w).len() == 4 + PLAYER_BYTES * w.players.len() + WORLD_TAIL_BYTES,
{
    lemma_players_bytes_len(w.players);
    lemma_int_bytes_len(w.players.len() as u32, w.map_width);
    lemma_int_bytes_len(w.current_turn, w.map_height);
    lemma_int_bytes_len(w.turn_number, 0);
}

/// A world is read back from the place where it was written.
#[verifier::rlimit(50)]
pub proof fn lemma_world_written(bytes: Seq<u8>, at: int, w: WorldView)
    requires
        0 <= at <= bytes.len(),
        w.players.len() <= u32::MAX,
        bytes.subrange(at, bytes.len() as int) == world_bytes(w),
    ensures
        world_fits(bytes, at),
        world_at(bytes, at) == w,
{
    let n = w.players.len() as int;
    lemma_world_bytes_len(w);
    lemma_players_bytes_len(w.players);
    lemma_int_bytes_len(n as u32, w.map_width);
    lemma_int_bytes_len(w.current_turn, w.map_height);
    lemma_int_bytes_len(w.turn_number, 0);
    let part = bytes.subrange(at, bytes.len() as int);
    let tail = at + 4 + PLAYER_BYTES * n;
    assert(bytes.subrange(at, at + 4) =~= part.subrange(0, 4));
    assert(part.subrange(0, 4) =~= u32_bytes(n as u32));
    lemma_u32_written(bytes, at, n as u32);
    assert(bytes.subrange(at + 4, tail) =~= part.subrange(4, 4 + PLAYER_BYTES * n));
    assert(part.subrange(4, 4 + PLAYER_BYTES * n) =~= players_bytes(w.players));
    lemma_players_written(bytes, at + 4, w.players);
    let rest = 4 + PLAYER_BYTES * n;
    assert(bytes.subrange(tail, tail + 4) =~= part.subrange(rest, rest + 4));
    assert(part.subrange(rest, rest + 4) =~= u32_bytes(w.current_turn));
    lemma_u32_written(bytes, tail, w.current_turn);
    assert(bytes.subrange(tail + 4, tail + 8) =~= part.subrange(rest + 4, rest + 8));
    assert(part.subrange(rest + 4, rest + 8) =~= u32_bytes(w.turn_number));
    lemma_u32_written(bytes, tail + 4, w.turn_number);
    assert(bytes.subrange(tail + 8, tail + 12) =~= part.subrange(rest + 8, rest + 12));
    assert(part.subrange(rest + 8, rest + 12) =~= i32_bytes(w.map_width));
    lemma_i32_written(bytes, tail + 8, w.map_width);
    assert(bytes.subrange(tail + 12, tail + 16) =~= part.subrange(rest + 12, rest + 16));
    assert(part.subrange(rest + 12, rest + 16) =~= i32_bytes(w.map_height));
    lemma_i32_written(bytes, tail + 12, w.map_height);
    assert forall|i: int| 0 <= i < u32_at(bytes, at) implies #[trigger] bytes[at + 4
        + PLAYER_BYTES * i + 28] <= 1 by {
        assert(bytes[(at + 4) + PLAYER_BYTES * i + 28] <= 1);
    }
}

/// Bytes that have the form of a world are the encoding of the world read from them.
pub proof fn lemma_world_read(bytes: Seq<u8>, at: int)
    requires
        0 <= at,
        world_fits(bytes, at),
    ensures
        world_bytes(world_at(bytes, at)) == bytes.subrange(at, bytes.len() as int),
        world_at(bytes, at).players.len() <= u32::MAX,
{
    let count = u32_at(bytes, at);
    let tail = at + 4 + PLAYER_BYTES * count;
    lemma_u32_read(bytes, at);
    assert forall|i: int| 0 <= i < count implies #[trigger] bytes[(at + 4) + PLAYER_BYTES * i
        + 28] <= 1 by {
        assert(bytes[at + 4 + PLAYER_BYTES * i + 28] <= 1);
    }
    lemma_players_read(bytes, at + 4, count as nat);
    lemma_u32_read(bytes, tail);
    lemma_u32_read(bytes, tail + 4);
    lemma_i32_read(bytes, tail + 8);
    lemma_i32_read(bytes, tail + 12);
    assert(bytes.subrange(at, bytes.len() as int) =~= bytes.subrange(at, at + 4) + bytes.subrange(
        at + 4,
        tail,
    ) + bytes.subrange(tail, tail + 4) + bytes.subrange(tail + 4, tail + 8) + bytes.subrange(
        tail + 8,
        tail + 12,
    ) + bytes.subrange(tail + 12, tail + 16));
}

/// A text is read back from the place where it was written.
pub proof fn lemma_text_written(bytes: Seq<u8>, at: int, text: Seq<char>)
    requires
        0 <= at <= bytes.len(),
        encode_utf8(text).len() <= u32::MAX,
        bytes.subrange(at, bytes.len() as int) == text_bytes(text),
    ensures
        text_fits(bytes, at),
        text_at(bytes, at) == text,
{
    let body = encode_utf8(text);
    lemma_int_bytes_len(body.len() as u32, 0);
    let part = bytes.subrange(at, bytes.len() as int);
    assert(part.len() == 4 + body.len());
    assert(bytes.subrange(at, at + 4) =~= part.subrange(0, 4));
    assert(part.subrange(0, 4) =~= u32_bytes(body.len() as u32));
    lemma_u32_written(bytes, at, body.len() as u32);
    assert(bytes.subrange(at + 4, bytes.len() as int) =~= part.subrange(4, part.len() as int));
    assert(part.subrange(4, part.len() as int) =~= body);
    vstd::utf8::encode_utf8_valid_utf8(text);
    vstd::utf8::encode_utf8_decode_utf8(text);
}

/// Bytes that have the form of a text are the encoding of the text read from them.
pub proof fn lemma_text_read(bytes: Seq<u8>, at: int)
    requires
        0 <= at,
        text_fits(bytes, at),
    ensures
        text_bytes(text_at(bytes, at)) == bytes.subrange(at, bytes.len() as int),
        encode_utf8(text_at(bytes, at)).len() <= u32::MAX,
{
    let body = bytes.subrange(at + 4, bytes.len() as int);
    vstd::utf8::decode_utf8_encode_utf8(body);
    lemma_u32_read(bytes, at);
    assert(bytes.subrange(at, bytes.len() as int) =~= bytes.subrange(at, at + 4) + body);
}

/// Decoding the encoding of a message gives the message back.
#[verifier::rlimit(50)]
pub proof fn lemma_decode_encoded(m: MessageView)
    requires
        encodable(m),
    ensures
        decode(message_bytes(m)) == Some(m),
{
    let bytes = message_bytes(m);
    match m {
        MessageView::Connect { player_id, player_name } => {
            lemma_int_bytes_len(player_id, 0);
            assert(bytes.subrange(1, 5) =~= u32_bytes(player_id));
            lemma_u32_written(bytes, 1, player_id);
            assert(bytes.subrange(5, bytes.len() as int) =~= text_bytes(player_name));
            lemma_text_written(bytes, 5, player_name);
        },
        MessageView::Disconnect { player_id } => {
            lemma_int_bytes_len(player_id, 0);
            assert(bytes.subrange(1, 5) =~= u32_bytes(player_id));
            lemma_u32_written(bytes, 1, player_id);
        },
        MessageView::Move { player_id, target_position } => {
            lemma_int_bytes_len(player_id, target_position.x);
            lemma_int_bytes_len(player_id, target_position.y);
            assert(bytes.subrange(1, 5) =~= u32_bytes(player_id));
            lemma_u32_written(bytes, 1, player_id);
            assert(bytes.subrange(5, 13) =~= position_bytes(target_position));
            lemma_position_written(bytes, 5, target_position);
        },
        MessageView::Attack { attacker_id, target_id } => {
            lemma_int_bytes_len(attacker_id, 0);
            lemma_int_bytes_len(target_id, 0);
            assert(bytes.subrange(1, 5) =~= u32_bytes(attacker_id));
            lemma_u32_written(bytes, 1, attacker_id);
            assert(bytes.subrange(5, 9) =~= u32_bytes(target_id));
            lemma_u32_written(bytes, 5, target_id);
        },
        MessageView::EndTurn { player_id } => {
            lemma_int_bytes_len(player_id, 0);
            assert(bytes.subrange(1, 5) =~= u32_bytes(player_id));
            lemma_u32_written(bytes, 1, player_id);
        },
        MessageView::Sync { world_state } => {
            assert(bytes.subrange(1, bytes.len() as int) =~= world_bytes(world_state));
            lemma_world_written(bytes, 1, world_state);
        },
        MessageView::Response { success, message } => {
            assert(bytes.subrange(2, bytes.len() as int) =~= text_bytes(message));
            lemma_text_written(bytes, 2, message);
        },
        MessageView::Welcome { player_id, world_state } => {
            lemma_int_bytes_len(player_id, 0);
            assert(bytes.subrange(1, 5) =~= u32_bytes(player_id));
            lemma_u32_written(bytes, 1, player_id);
            assert(bytes.subrange(5, bytes.len() as int) =~= world_bytes(world_state));
            lemma_world_written(bytes, 5, world_state);
        },
    }
}

/// The messages of fixed length are encoded by the bytes that decode to them.
proof fn lemma_encode_decoded_plain(bytes: Seq<u8>)
    requires
        decode(bytes) is Some,
        bytes[0] == 1 || bytes[0] == 2 || bytes[0] == 3 || bytes[0] == 4,
    ensures
        message_bytes(decode(bytes)->0) == bytes,
{
    let tag = bytes[0];
    lemma_u32_read(bytes, 1);
    if tag == 1 || tag == 4 {
        assert(bytes =~= seq![tag] + bytes.subrange(1, 5));
    } else if tag == 2 {
        lemma_position_read(bytes, 5);
        assert(bytes =~= seq![2u8] + bytes.subrange(1, 5) + bytes.subrange(5, 13));
    } else {
        lemma_u32_read(bytes, 5);
        assert(bytes =~= seq![3u8] + bytes.subrange(1, 5) + bytes.subrange(5, 9));
    }
}

/// The messages that end in a text are encoded by the bytes that decode to them.
proof fn lemma_encode_decoded_text(bytes: Seq<u8>)
    requires
        decode(bytes) is Some,
        bytes[0] == 0 || bytes[0] == 6,
    ensures
        encodable(decode(bytes)->0),
        message_bytes(decode(bytes)->0) == bytes,
{
    if bytes[0] == 0 {
        lemma_u32_read(bytes, 1);
        lemma_text_read(bytes, 5);
        assert(bytes =~= seq![0u8] + bytes.subrange(1, 5) + bytes.subrange(5, bytes.len() as int));
    } else {
        lemma_text_read(bytes, 2);
        assert(flag_bytes(bytes[1] == 1) =~= bytes.subrange(1, 2));
        assert(bytes =~= seq![6u8] + bytes.subrange(1, 2) + bytes.subrange(2, bytes.len() as int));
    }
}

/// The messages that end in a world are encoded by the bytes that decode to them.
proof fn lemma_encode_decoded_world(bytes: Seq<u8>)
    requires
        decode(bytes) is Some,
        bytes[0] == 5 || bytes[0] == 7,
    ensures
        encodable(decode(bytes)->0),
        message_bytes(decode(bytes)->0) == bytes,
{
    if bytes[0] == 5 {
        lemma_world_read(bytes, 1);
        assert(bytes =~= seq![5u8] + bytes.subrange(1, bytes.len() as int));
    } else {
        lemma_u32_read(bytes, 1);
        lemma_world_read(bytes, 5);
        assert(bytes =~= seq![7u8] + bytes.subrange(1, 5) + bytes.subrange(5, bytes.len() as int));
    }
}

/// Bytes that decode to a message are the encoding of that message, and of no other.
pub proof fn lemma_encode_decoded(bytes: Seq<u8>)
    requires
        decode(bytes) is Some,
    ensures
        encodable(decode(bytes)->0),
        message_bytes(decode(bytes)->0) == bytes,
{
    let tag = bytes[0];
    if tag == 0 || tag == 6 {
        lemma_encode_decoded_text(bytes);
    } else if tag == 5 || tag == 7 {
        lemma_encode_decoded_world(bytes);
    } else {
        lemma_encode_decoded_plain(bytes);
    }
}

fn put_u32(out: &mut Vec<u8>, v: u32)
    ensures
        final(out)@ == old(out)@ + u32_bytes(v),
{
    let mut four = u32_to_le_bytes(v);
    out.append(&mut four);
}

fn put_i32(out: &mut Vec<u8>, v: i32)
    ensures
        final(out)@ == old(out)@ + i32_bytes(v),
{
    let bits: u32 = if v >= 0 {
        v as u32
    } else {
        (v as i64 + 0x1_0000_0000) as u32
    };
    put_u32(out, bits);
}

fn put_flag(out: &mut Vec<u8>, flag: bool)
    ensures
        final(out)@ == old(out)@ + flag_bytes(flag),
{
    out.push(if flag { 1u8 } else { 0u8 });
    assert(out@ =~= old(out)@ + flag_bytes(flag));
}

fn put_position(out: &mut Vec<u8>, p: &Position)
    ensures
        final(out)@ == old(out)@ + position_bytes(*p),
{
    put_i32(out, p.x);
    put_i32(out, p.y);
    assert(out@ =~= old(out)@ + position_bytes(*p));
}

fn put_player(out: &mut Vec<u8>, p: &PlayerState)
    ensures
        final(out)@ == old(out)@ + player_bytes(*p),
{
    put_u32(out, p.id);
    put_position(out, &p.position);
    put_u32(out, p.action_points);
    put_u32(out, p.movement_points);
    put_u32(out, p.health);
    put_u32(out, p.max_health);
    put_flag(out, p.is_alive);
    assert(out@ =~= old(out)@ + player_bytes(*p));
}

/// Appends the encoding of a world, unless it has more players than the count can hold.
fn put_world(out: &mut Vec<u8>, w: &WorldState) -> (fits: bool)
    ensures
        fits == (w@.players.len() <= u32::MAX),
        fits ==> final(out)@ == old(out)@ + world_bytes(w@),
{
    let count = w.players.len();
    if count > u32::MAX as usize {
        return false;
    }
    put_u32(out, count as u32);
    let ghost start = out@;
    let mut i: usize = 0;
    while i < count
        invariant
            count == w.players.len(),
            i <= count,
            out@ == start + players_bytes(w.players@.take(i as int)),
        decreases count - i,
    {
        put_player(out, &w.players[i]);
        proof {
            let upto = w.players@.take(i + 1);
            assert(upto.drop_last() =~= w.players@.take(i as int));
            assert(upto.last() == w.players@[i as int]);
            assert(out@ =~= start + players_bytes(upto));
        }
        i += 1;
    }
    assert(w.players@.take(count as int) =~= w.players@);
    put_u32(out, w.current_turn);
    put_u32(out, w.turn_number);
    put_i32(out, w.map_width);
    put_i32(out, w.map_height);
    assert(out@ =~= old(out)@ + world_bytes(w@));
    true
}

/// Appends the encoding of a text, unless its UTF-8 form is longer than the count can hold.
fn put_text(out: &mut Vec<u8>, text: &str) -> (fits: bool)
    ensures
        fits == (encode_utf8(text@).len() <= u32::MAX),
        fits ==> final(out)@ == old(out)@ + text_bytes(text@),
{
    let body = text.as_bytes();
    if body.len() > u32::MAX as usize {
        return false;
    }
    put_u32(out, body.len() as u32);
    let mut copy = slice_to_vec(body);
    out.append(&mut copy);
    assert(out@ =~= old(out)@ + text_bytes(text@));
    true
}

/// Encodes a message. It fails only for a text or a list of players too long for its
/// length field.
pub fn serialize(message: &Message) -> (result: Result<Vec<u8>, WireError>)
    ensures
        match result {
            Ok(bytes) => encodable(message@) && bytes@ == message_bytes(message@),
            Err(e) => !encodable(message@) && e == WireError::TooLarge,
        },
{
    let mut out: Vec<u8> = Vec::new();
    let fits = match message {
        Message::Connect { player_id, player_name } => {
            out.push(0u8);
            put_u32(&mut out, *player_id);
            put_text(&mut out, player_name.as_str())
        },
        Message::Disconnect { player_id } => {
            out.push(1u8);
            put_u32(&mut out, *player_id);
            true
        },
        Message::Move { player_id, target_position } => {
            out.push(2u8);
            put_u32(&mut out, *player_id);
            put_position(&mut out, target_position);
            true
        },
        Message::Attack { attacker_id, target_id } => {
            out.push(3u8);
            put_u32(&mut out, *attacker_id);
            put_u32(&mut out, *target_id);
            true
        },
        Message::EndTurn { player_id } => {
            out.push(4u8);
            put_u32(&mut out, *player_id);
            true
        },
        Message::Sync { world_state } => {
            out.push(5u8);
            put_world(&mut out, world_state)
        },
        Message::Response { success, message } => {
            out.push(6u8);
            put_flag(&mut out, *success);
            put_text(&mut out, message.as_str())
        },
        Message::Welcome { player_id, world_state } => {
            out.push(7u8);
            put_u32(&mut out, *player_id);
            put_world(&mut out, world_state)
        },
    };
    if fits {
        assert(out@ =~= message_bytes(message@));
        Ok(out)
    } else {
        Err(WireError::TooLarge)
    }
}

/// `String::from_utf8` of the standard library. It accepts exactly the byte sequences
/// that are valid UTF-8, and the text it returns is made of the characters that they
/// encode.
#[verifier::external_body]
fn text_from_utf8(bytes: Vec<u8>) -> (text: Option<String>)
    ensures
        match text {
            Some(t) => valid_utf8(bytes@) && t@ == decode_utf8(bytes@),
            None => !valid_utf8(bytes@),
        },
{
    match String::from_utf8(bytes) {
        Ok(text) => Some(text),
        Err(_) => None,
    }
}

fn get_u32(bytes: &[u8], at: usize) -> (v: u32)
    requires
        at + 4 <= bytes.len(),
    ensures
        v == u32_at(bytes@, at as int),
{
    u32_from_le_bytes(slice_subrange(bytes, at, at + 4))
}

fn get_i32(bytes: &[u8], at: usize) -> (v: i32)
    requires
        at + 4 <= bytes.len(),
    ensures
        v == i32_at(bytes@, at as int),
{
    let bits = get_u32(bytes, at);
    if bits < 0x8000_0000 {
        bits as i32
    } else {
        (bits as i64 - 0x1_0000_0000) as i32
    }
}

fn get_position(bytes: &[u8], at: usize) -> (p: Position)
    requires
        at + 8 <= bytes.len(),
    ensures
        p == position_at(bytes@, at as int),
{
    Position { x: get_i32(bytes, at), y: get_i32(bytes, at + 4) }
}

/// Reads the player that starts at `at`, unless its flag is neither 0 nor 1.
fn get_player(bytes: &[u8], at: usize) -> (p: Option<PlayerState>)
    requires
        at + PLAYER_BYTES <= bytes.len(),
    ensures
        match p {
            Some(p) => bytes@[at + 28] <= 1 && p == player_at(bytes@, at as int),
            None => bytes@[at + 28] > 1,
        },
{
    let flag = bytes[at + 28];
    if flag > 1 {
        return None;
    }
    Some(
        PlayerState {
            id: get_u32(bytes, at),
            position: get_position(bytes, at + 4),
            action_points: get_u32(bytes, at + 12),
            movement_points: get_u32(bytes, at + 16),
            health: get_u32(bytes, at + 20),
            max_health: get_u32(bytes, at + 24),
            is_alive: flag == 1,
        },
    )
}

/// Reads the world that fills the bytes from `at` to the end.
fn get_world(bytes: &[u8], at: usize) -> (w: Option<WorldState>)
    requires
        at <= bytes@.len(),
    ensures
        match w {
            Some(w) => world_fits(bytes@, at as int) && w@ == world_at(bytes@, at as int),
            None => !world_fits(bytes@, at as int),
        },
{
    let len = bytes.len();
    if len - at < 4 {
        return None;
    }
    let count = get_u32(bytes, at);
    let room: u64 = (len - at - 4) as u64;
    if room != PLAYER_BYTES as u64 * count as u64 + WORLD_TAIL_BYTES as u64 {
        return None;
    }
    let first = at + 4;
    let mut players: Vec<PlayerState> = Vec::new();
    let mut i: usize = 0;
    while i < count as usize
        invariant
            first == at + 4,
            len == bytes@.len(),
            count == u32_at(bytes@, at as int),
            len == at + 4 + PLAYER_BYTES * count + WORLD_TAIL_BYTES,
            i <= count,
            players@ == players_at(bytes@, first as int, i as nat),
            forall|k: int| 0 <= k < i ==> #[trigger] bytes@[at + 4 + PLAYER_BYTES * k + 28] <= 1,
        decreases count - i,
    {
        assert(PLAYER_BYTES * i + PLAYER_BYTES <= PLAYER_BYTES * count) by (nonlinear_arith)
            requires
                i < count,
        ;
        let player_at_i = first + PLAYER_BYTES * i;
        match get_player(bytes, player_at_i) {
            Some(p) => {
                players.push(p);
                assert(players@ =~= players_at(bytes@, first as int, (i + 1) as nat));
            },
            None => {
                assert(bytes@[at + 4 + PLAYER_BYTES * (i as int) + 28] > 1);
                return None;
            },
        }
        i += 1;
    }
    let tail = first + PLAYER_BYTES * (count as usize);
    Some(
        WorldState {
            players,
            current_turn: get_u32(bytes, tail),
            turn_number: get_u32(bytes, tail + 4),
            map_width: get_i32(bytes, tail + 8),
            map_height: get_i32(bytes, tail + 12),
        },
    )
}

/// Reads the text that fills the bytes from `at` to the end.
fn get_text(bytes: &[u8], at: usize) -> (text: Option<String>)
    requires
        at <= bytes@.len(),
    ensures
        match text {
            Some(t) => text_fits(bytes@, at as int) && t@ == text_at(bytes@, at as int),
            None => !text_fits(bytes@, at as int),
        },
{
    let len = bytes.len();
    if len - at < 4 {
        return None;
    }
    let count = get_u32(bytes, at);
    if (len - at - 4) as u64 != count as u64 {
        return None;
    }
    text_from_utf8(slice_to_vec(slice_subrange(bytes, at + 4, len)))
}

/// Decodes a message. It succeeds exactly on the encodings of messages.
pub fn deserialize(bytes: &[u8]) -> (result: Result<Message, WireError>)
    ensures
        match decode(bytes@) {
            Some(m) => result is Ok && result->Ok_0@ == m,
            None => result is Err && result->Err_0 == WireError::Malformed,
        },
{
    let len = bytes.len();
    if len == 0 {
        return Err(WireError::Malformed);
    }
    let tag = bytes[0];
    let decoded = if tag == 0 {
        if len < 5 {
            None
        } else {
            match get_text(bytes, 5) {
                Some(player_name) => Some(
                    Message::Connect { player_id: get_u32(bytes, 1), player_name },
                ),
                None => None,
            }
        }
    } else if tag == 1 {
        if len == 5 {
            Some(Message::Disconnect { player_id: get_u32(bytes, 1) })
        } else {
            None
        }
    } else if tag == 2 {
        if len == 13 {
            Some(
                Message::Move {
                    player_id: get_u32(bytes, 1),
                    target_position: get_position(bytes, 5),
                },
            )
        } else {
            None
        }
    } else if tag == 3 {
        if len == 9 {
            Some(Message::Attack { attacker_id: get_u32(bytes, 1), target_id: get_u32(bytes, 5) })
        } else {
            None
        }
    } else if tag == 4 {
        if len == 5 {
            Some(Message::EndTurn { player_id: get_u32(bytes, 1) })
        } else {
            None
        }
    } else if tag == 5 {
        match get_world(bytes, 1) {
            Some(world_state) => Some(Message::Sync { world_state }),
            None => None,
        }
    } else if tag == 6 {
        if len < 2 || bytes[1] > 1 {
            None
        } else {
            match get_text(bytes, 2) {
                Some(message) => Some(Message::Response { success: bytes[1] == 1, message }),
                None => None,
            }
        }
    } else if tag == 7 {
        if len < 5 {
            None
        } else {
            match get_world(bytes, 5) {
                Some(world_state) => Some(
                    Message::Welcome { player_id: get_u32(bytes, 1), world_state },
                ),
                None => None,
            }
        }
    } else {
        None
    };
    match decoded {
        Some(message) => Ok(message),
        None => Err(WireError::Malformed),
    }
}

} // verus!
