//! Maps an inbound message and the identity of its connection to an engine call.

use crate::game::{Game, GameError, GameView};
use crate::protocol::{Message, MessageView, PlayerId};
use vstd::prelude::*;
use vstd::string::StringExecFns;

verus! {

/// Why the handler refused a message before the engine saw it.
#[derive(Debug, Clone, Copy, PartialEq, Eq, Structural)]
pub enum HandlerError {
    /// The identity in the message is not the identity of the connection.
    IdentityMismatch,
    /// The message is one that only the server sends.
    UnhandledMessage,
}

impl HandlerError {
/// The text of the reason.
    pub open spec fn text(self) -> Seq<char> {
        match self {
            HandlerError::IdentityMismatch => "ID joueur incorrect"@,
            HandlerError::UnhandledMessage => "Message non géré"@,
        }
    }

    /// Renders the reason as text.
    pub fn message(&self) -> (s: String)
        ensures
            s@ == self.text(),
    {
        match self {
            HandlerError::IdentityMismatch => String::from_str("ID joueur incorrect"),
            HandlerError::UnhandledMessage => String::from_str("Message non géré"),
        }
    }
}

/// The character that writes a single decimal digit.
pub open spec fn digit_char(d: int) -> char {
    if d == 0 {
        '0'
    } else if d == 1 {
        '1'
    } else if d == 2 {
        '2'
    } else if d == 3 {
        '3'
    } else if d == 4 {
        '4'
    } else if d == 5 {
        '5'
    } else if d == 6 {
        '6'
    } else if d == 7 {
        '7'
    } else if d == 8 {
        '8'
    } else {
        '9'
    }
}

/// A number written in decimal, without leading zeros.
pub open spec fn decimal(n: nat) -> Seq<char>
    decreases n,
{
    if n < 10 {
        seq![digit_char(n as int)]
    } else {
        decimal(n / 10).push(digit_char((n % 10) as int))
    }
}

fn digit_text(d: u32) -> (s: &'static str)
    requires
        d < 10,
    ensures
        s@ == seq![digit_char(d as int)],
{
    proof {
        reveal_strlit("0");
        reveal_strlit("1");
        reveal_strlit("2");
        reveal_strlit("3");
        reveal_strlit("4");
        reveal_strlit("5");
        reveal_strlit("6");
        reveal_strlit("7");
        reveal_strlit("8");
        reveal_strlit("9");
    }
    let s = if d == 0 {
        "0"
    } else if d == 1 {
        "1"
    } else if d == 2 {
        "2"
    } else if d == 3 {
        "3"
    } else if d == 4 {
        "4"
    } else if d == 5 {
        "5"
    } else if d == 6 {
        "6"
    } else if d == 7 {
        "7"
    } else if d == 8 {
        "8"
    } else {
        "9"
    };
    assert(s@ =~= seq![digit_char(d as int)]);
    s
}

/// Writes a number in decimal.
pub fn decimal_text(n: u32) -> (s: String)
    ensures
        s@ == decimal(n as nat),
    decreases n,
{
    if n < 10 {
        String::from_str(digit_text(n))
    } else {
        let mut s = decimal_text(n / 10);
        s.append(digit_text(n % 10));
        assert(s@ =~= decimal(n as nat));
        s
    }
}

/// The text that confirms a move.
pub open spec fn move_confirmation() -> Seq<char> {
    "Déplacement réussi"@
}

/// The text that confirms the end of a turn.
pub open spec fn end_turn_confirmation() -> Seq<char> {
    "Tour terminé"@
}

/// The text that confirms an attack and tells the damage dealt.
pub open spec fn attack_confirmation(damage: u32) -> Seq<char> {
    "Attaque réussie ! "@ + decimal(damage as nat) + " dégâts infligés"@
}

/// The reply that tells a player that its action was refused, and why.
pub open spec fn refusal(reason: GameError) -> MessageView {
    MessageView::Response { success: false, message: reason.text() }
}

/// The reply that tells a player that its action was applied.
pub open spec fn confirmation(text: Seq<char>) -> MessageView {
    MessageView::Response { success: true, message: text }
}

/// What the handler returns for a message that arrived on the connection of `sender`.
pub open spec fn answer(message: MessageView, sender: PlayerId, game: GameView) -> Result<
    Option<MessageView>,
    HandlerError,
> {
    match message {
        MessageView::Move { player_id, target_position } => if player_id != sender {
            Err(HandlerError::IdentityMismatch)
        } else {
            match game.world.move_rejection(sender, target_position) {
                Some(reason) => Ok(Some(refusal(reason))),
                None => Ok(Some(confirmation(move_confirmation()))),
            }
        },
        MessageView::Attack { attacker_id, target_id } => if attacker_id != sender {
            Err(HandlerError::IdentityMismatch)
        } else {
            match game.world.attack_rejection(sender, target_id) {
                Some(reason) => Ok(Some(refusal(reason))),
                None => Ok(Some(confirmation(attack_confirmation(crate::game::ATTACK_DAMAGE)))),
            }
        },
        MessageView::EndTurn { player_id } => if player_id != sender {
            Err(HandlerError::IdentityMismatch)
        } else {
            match game.world.end_turn_rejection(sender) {
                Some(reason) => Ok(Some(refusal(reason))),
                None => Ok(Some(confirmation(end_turn_confirmation()))),
            }
        },
        MessageView::Connect { .. } => Ok(None),
        MessageView::Disconnect { .. } => Ok(None),
        _ => Err(HandlerError::UnhandledMessage),
    }
}

/// The game after the handler has dealt with a message that arrived on the connection of
/// `sender`. Only an accepted action of the sender itself changes the game.
pub open spec fn effect(message: MessageView, sender: PlayerId, game: GameView) -> GameView {
    match message {
        MessageView::Move { player_id, target_position } => if player_id == sender
            && game.world.move_rejection(sender, target_position) is None {
            GameView { world: game.world.after_move(sender, target_position), ..game }
        } else {
            game
        },
        MessageView::Attack { attacker_id, target_id } => if attacker_id == sender
            && game.world.attack_rejection(sender, target_id) is None {
            GameView { world: game.world.after_attack(sender, target_id), ..game }
        } else {
            game
        },
        MessageView::EndTurn { player_id } => if player_id == sender
            && game.world.end_turn_rejection(sender) is None {
            GameView { world: game.world.after_end_turn(sender), ..game }
        } else {
            game
        },
        MessageView::Disconnect { player_id } => if player_id == sender {
            GameView { world: game.world.after_leave(sender), ..game }
        } else {
            game
        },
        _ => game,
    }
}

/// The model of what the handler returned.
pub open spec fn answer_view(result: Result<Option<Message>, HandlerError>) -> Result<
    Option<MessageView>,
    HandlerError,
> {
    match result {
        Ok(Some(m)) => Ok(Some(m@)),
        Ok(None) => Ok(None),
        Err(e) => Err(e),
    }
}

fn refuse(reason: GameError) -> (reply: Message)
    ensures
        reply@ == refusal(reason),
{
    Message::Response { success: false, message: reason.message() }
}

fn confirm(text: String) -> (reply: Message)
    ensures
        reply@ == confirmation(text@),
{
    Message::Response { success: true, message: text }
}

/// Handles one message received on the connection that was given the identity `player_id`.
///
/// A request to move, attack or end the turn must carry that identity; it is then passed
/// to the engine, and the outcome comes back as exactly one reply. A notice of departure
/// is never answered; it removes the player when it carries the connection's identity
/// and is ignored otherwise. An announcement is accepted and ignored. Messages that only
/// the server sends are refused.
pub fn handle_message(message: Message, player_id: PlayerId, game: &mut Game) -> (result: Result<
    Option<Message>,
    HandlerError,
>)
    requires
        message@ is EndTurn ==> old(game)@.world.turn_number < u32::MAX,
    ensures
        answer_view(result) == answer(message@, player_id, old(game)@),
        final(game)@ == effect(message@, player_id, old(game)@),
        result is Err ==> final(game)@ == old(game)@,
        old(game)@.wf() ==> final(game)@.wf(),
{
    match message {
        Message::Move { player_id: claimed, target_position } => {
            if claimed != player_id {
                return Err(HandlerError::IdentityMismatch);
            }
            match game.move_player(player_id, target_position) {
                Ok(()) => Ok(Some(confirm(String::from_str("Déplacement réussi")))),
                Err(reason) => Ok(Some(refuse(reason))),
            }
        },
        Message::Attack { attacker_id, target_id } => {
            if attacker_id != player_id {
                return Err(HandlerError::IdentityMismatch);
            }
            match game.attack(attacker_id, target_id) {
                Ok(damage) => {
                    let mut text = String::from_str("Attaque réussie ! ");
                    text.append(decimal_text(damage).as_str());
                    text.append(" dégâts infligés");
                    Ok(Some(confirm(text)))
                },
                Err(reason) => Ok(Some(refuse(reason))),
            }
        },
        Message::EndTurn { player_id: claimed } => {
            if claimed != player_id {
                return Err(HandlerError::IdentityMismatch);
            }
            match game.end_turn(player_id) {
                Ok(()) => Ok(Some(confirm(String::from_str("Tour terminé")))),
                Err(reason) => Ok(Some(refuse(reason))),
            }
        },
        Message::Connect { player_id: _, player_name: _ } => Ok(None),
        Message::Disconnect { player_id: claimed } => {
            if claimed == player_id {
                game.remove_player(player_id);
            }
            Ok(None)
        },
        _ => Err(HandlerError::UnhandledMessage),
    }
}

/// The synchronisation messages that follow a change: one copy of the whole world for
/// every player in it, in list order, each paired with the identity of its recipient.
pub fn broadcast_world_state(game: &Game) -> (outbound: Vec<(PlayerId, Message)>)
    ensures
        outbound@.len() == game@.world.players.len(),
        forall|i: int|
            0 <= i < outbound@.len() ==> (#[trigger] outbound@[i]).0 == game@.world.players[i].id
                && outbound@[i].1@ == (MessageView::Sync { world_state: game@.world }),
{
    let world_state = game.get_world_state_clone();
    let mut outbound: Vec<(PlayerId, Message)> = Vec::new();
    let mut i: usize = 0;
    while i < world_state.players.len()
        invariant
            i <= world_state.players.len(),
            world_state@ == game@.world,
            outbound@.len() == i,
            forall|k: int|
                0 <= k < i ==> (#[trigger] outbound@[k]).0 == game@.world.players[k].id
                    && outbound@[k].1@ == (MessageView::Sync { world_state: game@.world }),
        decreases world_state.players.len() - i,
    {
        let copy = world_state.snapshot();
        outbound.push((world_state.players[i].id, Message::Sync { world_state: copy }));
        i += 1;
    }
    outbound
}

} // verus!
