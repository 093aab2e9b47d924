//! The life of one live consumer session: an optional initial push of the book, then every
//! published update until the session ends.
use vstd::prelude::*;

use crate::engine::OrderbookState;

verus! {

/// Instrument followed by a session that names none.
pub fn default_ticker() -> (r: String)
    ensures
        r@ == "ZEC"@,
{
    "ZEC".to_owned()
}

/// The query of a live session: the instrument it follows.
pub struct WebSocketQuery {
    pub ticker: String,
}

impl WebSocketQuery {
    /// A query for `ticker`, or for the default instrument where none is given.
    pub fn for_ticker(ticker: Option<String>) -> (r: WebSocketQuery)
        ensures
            r.ticker@ == match ticker {
                Some(t) => t@,
                None => "ZEC"@,
            },
    {
        match ticker {
            Some(t) => WebSocketQuery { ticker: t },
            None => WebSocketQuery { ticker: default_ticker() },
        }
    }
}

/// Whether a new session first receives the book as it stands: only where neither side
/// is empty.
pub fn sends_initial_state(state: &OrderbookState) -> (r: bool)
    ensures
        r == (state.bids@.len() > 0 && state.asks@.len() > 0),
{
    state.bids.len() > 0 && state.asks.len() > 0
}

/// Where a session stands.
#[derive(Clone, Copy, Debug, PartialEq, Eq, Structural)]
pub enum SessionState {
    Connected,
    Streaming,
    Closed,
}

/// What happened to a session.
#[derive(Clone, Copy, Debug, PartialEq, Eq, Structural)]
pub enum SessionEvent {
    /// The session opened; `book_ready` where the book is worth an initial push.
    Opened { book_ready: bool },
    /// An update was published on the instrument's channel.
    Update,
    /// The session fell behind the channel and missed updates.
    Lagged,
    /// The channel has no writer left.
    ChannelClosed,
    /// The consumer pinged.
    Ping,
    /// The consumer sent a message of no interest.
    Other,
    /// The consumer closed, its stream ended, or receiving from it failed.
    ClientGone,
    /// Sending to the consumer failed.
    SendFailed,
}

/// What the session does.
#[derive(Clone, Copy, Debug, PartialEq, Eq, Structural)]
pub enum SessionAction {
    /// Send the book as it stands.
    SendInitial,
    /// Send the published update.
    Forward,
    /// Answer the ping.
    Pong,
    /// Nothing; wait for the next event.
    Wait,
    /// End the session.
    Close,
}

/// The session rule: an initial push only of a ready book, then every update in publish
/// order; lag drops what was missed and goes on; a closed channel, a gone consumer or a
/// failed send ends the session, which stays ended.
pub open spec fn session_transition(state: SessionState, event: SessionEvent) -> (
    SessionState,
    SessionAction,
) {
    match state {
        SessionState::Closed => (SessionState::Closed, SessionAction::Wait),
        SessionState::Connected => match event {
            SessionEvent::Opened { book_ready } => (
                SessionState::Streaming,
                if book_ready {
                    SessionAction::SendInitial
                } else {
                    SessionAction::Wait
                },
            ),
            _ => (SessionState::Connected, SessionAction::Wait),
        },
        SessionState::Streaming => match event {
            SessionEvent::Opened { .. } => (SessionState::Streaming, SessionAction::Wait),
            SessionEvent::Update => (SessionState::Streaming, SessionAction::Forward),
            SessionEvent::Lagged => (SessionState::Streaming, SessionAction::Wait),
            SessionEvent::Ping => (SessionState::Streaming, SessionAction::Pong),
            SessionEvent::Other => (SessionState::Streaming, SessionAction::Wait),
            SessionEvent::ChannelClosed => (SessionState::Closed, SessionAction::Close),
            SessionEvent::ClientGone => (SessionState::Closed, SessionAction::Close),
            SessionEvent::SendFailed => (SessionState::Closed, SessionAction::Close),
        },
    }
}

/// One step of a session.
pub fn session_step(state: SessionState, event: SessionEvent) -> (r: (SessionState, SessionAction))
    ensures
        r == session_transition(state, event),
{
    match state {
        SessionState::Closed => (SessionState::Closed, SessionAction::Wait),
        SessionState::Connected => match event {
            SessionEvent::Opened { book_ready } => (
                SessionState::Streaming,
                if book_ready {
                    SessionAction::SendInitial
                } else {
                    SessionAction::Wait
                },
            ),
            _ => (SessionState::Connected, SessionAction::Wait),
        },
        SessionState::Streaming => match event {
            SessionEvent::Opened { .. } => (SessionState::Streaming, SessionAction::Wait),
            SessionEvent::Update => (SessionState::Streaming, SessionAction::Forward),
            SessionEvent::Lagged => (SessionState::Streaming, SessionAction::Wait),
            SessionEvent::Ping => (SessionState::Streaming, SessionAction::Pong),
            SessionEvent::Other => (SessionState::Streaming, SessionAction::Wait),
            SessionEvent::ChannelClosed => (SessionState::Closed, SessionAction::Close),
            SessionEvent::ClientGone => (SessionState::Closed, SessionAction::Close),
            SessionEvent::SendFailed => (SessionState::Closed, SessionAction::Close),
        },
    }
}

} // verus!
