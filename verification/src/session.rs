//! The life of one connection, as a state machine.
//!
//! The code that owns the socket reports what happened as an event; the session answers
//! with its next state and with what is to be written to the connection and published
//! to the other sessions.

use crate::game::{Game, GameView};
use crate::handler::{answer, effect, handle_message};
use crate::protocol::serialization::{decode, deserialize};
use crate::protocol::{Message, MessageView, PlayerId};
use vstd::prelude::*;

verus! {

/// Where a connection stands in its life.
#[derive(Debug, Clone, Copy, PartialEq, Eq, Structural)]
pub enum SessionState {
    /// The connection was accepted and its player admitted; nothing was written yet.
    Accepted,
    /// The greeting is being written.
    Welcomed,
    /// Requests are read and handled, and queued messages are written.
    Active,
    /// Reading or writing has failed; the other duty is being stopped.
    Closing,
    /// Both duties have ended and the player has left the game.
    Closed,
}

/// What the owner of the socket reports to the session.
#[derive(Debug, Clone)]
pub enum SessionEvent {
    /// The connection is ready to be greeted.
    Started,
    /// The greeting was written in full.
    WelcomeWritten,
    /// The body of one whole frame has arrived.
    FrameReceived(Vec<u8>),
    /// The connection was closed, or a read or a write has failed.
    TransportFailed,
    /// Both duties have ended.
    Stopped,
}

/// Mathematical model of a `SessionEvent`.
pub enum SessionEventView {
    Started,
    WelcomeWritten,
    FrameReceived(Seq<u8>),
    TransportFailed,
    Stopped,
}

impl View for SessionEvent {
    type V = SessionEventView;

    open spec fn view(&self) -> SessionEventView {
        match self {
            SessionEvent::Started => SessionEventView::Started,
            SessionEvent::WelcomeWritten => SessionEventView::WelcomeWritten,
            SessionEvent::FrameReceived(body) => SessionEventView::FrameReceived(body@),
            SessionEvent::TransportFailed => SessionEventView::TransportFailed,
            SessionEvent::Stopped => SessionEventView::Stopped,
        }
    }
}

/// What the owner of the socket has to do after an event.
#[derive(Debug)]
pub struct SessionOutput {
    /// A message to write to this connection only.
    pub reply: Option<Message>,
    /// A message to hand to the fan-out, which then synchronises every session.
    pub publish: Option<Message>,
}

/// Outcome of one event: the next state, what to write and to publish, and the game.
pub struct Transition {
    pub state: SessionState,
    pub reply: Option<MessageView>,
    pub publish: Option<MessageView>,
    pub game: GameView,
}

/// The outcome of an event that changes nothing.
pub open spec fn stay(state: SessionState, game: GameView) -> Transition {
    Transition { state, reply: None, publish: None, game }
}

/// The outcome of a failure: the session starts closing and its departure is published.
pub open spec fn fail(player_id: PlayerId, game: GameView) -> Transition {
    Transition {
        state: SessionState::Closing,
        reply: None,
        publish: Some(MessageView::Disconnect { player_id }),
        game,
    }
}

/// What follows from an event in a given state.
pub open spec fn transition(
    state: SessionState,
    player_id: PlayerId,
    event: SessionEventView,
    game: GameView,
) -> Transition {
    match (state, event) {
        (SessionState::Accepted, SessionEventView::Started) => Transition {
            state: SessionState::Welcomed,
            reply: Some(MessageView::Welcome { player_id, world_state: game.world }),
            publish: None,
            game,
        },
        (SessionState::Welcomed, SessionEventView::WelcomeWritten) => stay(
            SessionState::Active,
            game,
        ),
        (SessionState::Active, SessionEventView::FrameReceived(body)) => match decode(body) {
            Some(message) => Transition {
                state: SessionState::Active,
                reply: match answer(message, player_id, game) {
                    Ok(reply) => reply,
                    Err(_) => None,
                },
                publish: Some(message),
                game: effect(message, player_id, game),
            },
            None => fail(player_id, game),
        },
        (SessionState::Accepted, SessionEventView::TransportFailed) => fail(player_id, game),
        (SessionState::Welcomed, SessionEventView::TransportFailed) => fail(player_id, game),
        (SessionState::Active, SessionEventView::TransportFailed) => fail(player_id, game),
        (SessionState::Closing, SessionEventView::Stopped) => Transition {
            state: SessionState::Closed,
            reply: None,
            publish: None,
            game: GameView { world: game.world.after_leave(player_id), ..game },
        },
        _ => stay(state, game),
    }
}

/// How far a state is along the life of a connection.
pub open spec fn stage(state: SessionState) -> nat {
    match state {
        SessionState::Accepted => 0,
        SessionState::Welcomed => 1,
        SessionState::Active => 2,
        SessionState::Closing => 3,
        SessionState::Closed => 4,
    }
}

/// A session never goes back to an earlier state, and it moves by one stage at a time
/// unless a failure takes it straight to the closing. The greeting is the reply to the
/// start of an accepted session and to nothing else, so a connection is greeted once at
/// most, and before any other reply. A closed session answers nothing and leaves the
/// game alone.
pub proof fn lemma_session_advances(
    state: SessionState,
    player_id: PlayerId,
    event: SessionEventView,
    game: GameView,
)
    ensures
        ({
            let t = transition(state, player_id, event, game);
            &&& stage(state) <= stage(t.state)
            &&& stage(t.state) <= stage(state) + 1 || t.state == SessionState::Closing
            &&& (t.reply is Some && t.reply->0 is Welcome) <==> (state == SessionState::Accepted
                && event is Started)
            &&& t.reply is Some ==> state == SessionState::Accepted || state
                == SessionState::Active
            &&& t.game != game ==> state == SessionState::Active || state == SessionState::Closing
            &&& state == SessionState::Closed ==> t == stay(SessionState::Closed, game)
        }),
{
}

/// The replies written to a connection, in order, while its session takes the events one
/// after another.
pub open spec fn replies(
    state: SessionState,
    player_id: PlayerId,
    events: Seq<SessionEventView>,
    game: GameView,
) -> Seq<MessageView>
    decreases events.len(),
{
    if events.len() == 0 {
        Seq::empty()
    } else {
        let t = transition(state, player_id, events[0], game);
        let later = replies(t.state, player_id, events.skip(1), t.game);
        match t.reply {
            Some(reply) => seq![reply] + later,
            None => later,
        }
    }
}

/// A session that is past its first state greets no more, and one that is closing or
/// closed replies nothing.
pub proof fn lemma_no_late_greeting(
    state: SessionState,
    player_id: PlayerId,
    events: Seq<SessionEventView>,
    game: GameView,
)
    requires
        state != SessionState::Accepted,
    ensures
        forall|i: int|
            0 <= i < replies(state, player_id, events, game).len() ==> !(#[trigger] replies(
                state,
                player_id,
                events,
                game,
            )[i] is Welcome),
        stage(state) >= 3 ==> replies(state, player_id, events, game).len() == 0,
    decreases events.len(),
{
    if events.len() > 0 {
        let t = transition(state, player_id, events[0], game);
        lemma_session_advances(state, player_id, events[0], game);
        lemma_no_late_greeting(t.state, player_id, events.skip(1), t.game);
    }
}

/// Whatever events a new session takes, the first thing written to its connection is
/// the greeting, and the greeting is written once at most.
pub proof fn lemma_greeting_comes_first(
    player_id: PlayerId,
    events: Seq<SessionEventView>,
    game: GameView,
)
    ensures
        ({
            let written = replies(SessionState::Accepted, player_id, events, game);
            &&& written.len() > 0 ==> written[0] == (MessageView::Welcome {
                player_id,
                world_state: game.world,
            })
            &&& forall|i: int| 1 <= i < written.len() ==> !(#[trigger] written[i] is Welcome)
        }),
    decreases events.len(),
{
    if events.len() > 0 {
        let t = transition(SessionState::Accepted, player_id, events[0], game);
        lemma_session_advances(SessionState::Accepted, player_id, events[0], game);
        if t.state == SessionState::Accepted {
            lemma_greeting_comes_first(player_id, events.skip(1), game);
        } else {
            lemma_no_late_greeting(t.state, player_id, events.skip(1), t.game);
        }
    }
}

/// The model of an optional message.
pub open spec fn optional_view(message: Option<Message>) -> Option<MessageView> {
    match message {
        Some(m) => Some(m@),
        None => None,
    }
}

/// One connection and the player that was admitted for it.
#[derive(Debug)]
pub struct Session {
    pub player_id: PlayerId,
    pub state: SessionState,
}

impl Session {
    /// The session of a connection that was just accepted for the given player.
    pub fn new(player_id: PlayerId) -> (session: Session)
        ensures
            session.player_id == player_id,
            session.state == SessionState::Accepted,
    {
        Session { player_id, state: SessionState::Accepted }
    }

    /// Whether the session has reached its last state.
    pub fn is_closed(&self) -> (closed: bool)
        ensures
            closed == (self.state == SessionState::Closed),
    {
        match self.state {
            SessionState::Closed => true,
            _ => false,
        }
    }

    /// Takes one event and tells what to do next.
    ///
    /// A started session is greeted with its identity and the world. An active session
    /// decodes each frame, passes the message to the handler, answers with the handler's
    /// reply if there is one, and publishes the message. A frame that is no message, and
    /// any failure of the transport, starts the closing and publishes the departure. When
    /// both duties have ended the player leaves the game. Any other event is ignored.
    pub fn step(&mut self, event: SessionEvent, game: &mut Game) -> (output: SessionOutput)
        requires
            old(self).state == SessionState::Active && event@ is FrameReceived ==> old(
                game,
            )@.world.turn_number < u32::MAX,
        ensures
            final(self).player_id == old(self).player_id,
            ({
                let t = transition(old(self).state, old(self).player_id, event@, old(game)@);
                &&& final(self).state == t.state
                &&& optional_view(output.reply) == t.reply
                &&& optional_view(output.publish) == t.publish
                &&& final(game)@ == t.game
            }),
            old(self).state == SessionState::Closed ==> final(self).state == SessionState::Closed
                && final(game)@ == old(game)@ && output.reply is None && output.publish is None,
            old(game)@.wf() ==> final(game)@.wf(),
    {
        let player_id = self.player_id;
        match (self.state, event) {
            (SessionState::Accepted, SessionEvent::Started) => {
                self.state = SessionState::Welcomed;
                SessionOutput {
                    reply: Some(
                        Message::Welcome { player_id, world_state: game.get_world_state_clone() },
                    ),
                    publish: None,
                }
            },
            (SessionState::Welcomed, SessionEvent::WelcomeWritten) => {
                self.state = SessionState::Active;
                SessionOutput { reply: None, publish: None }
            },
            (SessionState::Active, SessionEvent::FrameReceived(body)) => {
                match deserialize(body.as_slice()) {
                    Ok(message) => {
                        let inbound = message.duplicate();
                        let reply = match handle_message(message, player_id, game) {
                            Ok(reply) => reply,
                            Err(_) => None,
                        };
                        SessionOutput { reply, publish: Some(inbound) }
                    },
                    Err(_) => {
                        self.state = SessionState::Closing;
                        SessionOutput {
                            reply: None,
                            publish: Some(Message::Disconnect { player_id }),
                        }
                    },
                }
            },
            (SessionState::Accepted, SessionEvent::TransportFailed)
            | (SessionState::Welcomed, SessionEvent::TransportFailed)
            | (SessionState::Active, SessionEvent::TransportFailed) => {
                self.state = SessionState::Closing;
                SessionOutput { reply: None, publish: Some(Message::Disconnect { player_id }) }
            },
            (SessionState::Closing, SessionEvent::Stopped) => {
                self.state = SessionState::Closed;
                game.remove_player(player_id);
                SessionOutput { reply: None, publish: None }
            },
            _ => SessionOutput { reply: None, publish: None },
        }
    }
}

} // verus!
