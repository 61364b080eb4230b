//! The cooperative card game Hanabi, played over a chat: the rules of the
//! game as a verified state machine, and the session that seats players in
//! games and carries out what they write.
//!
//! A game is a [`game::Game`]. Its mathematical value is a
//! [`model::GameView`], and what each action makes of a game is a function on
//! such values in [`model`]. The actions themselves are in [`actions`]; each
//! is proved to make of the game exactly what its function says, and to leave
//! it untouched where it refuses. What then holds of every game, whatever is
//! played, is proved in [`laws`].
//!
//! What the players are told is written into an [`sink::Outbox`], message by
//! message. The messages of each report are functions of the state in
//! [`report`], and [`render`] is proved to write exactly these.
//!
//! The running games and the queue of waiting players are a
//! [`session::Hanabi`]. [`dispatch`] takes a line that a player has written
//! and does what it asks for; [`restore`] takes a session apart for keeping
//! and checks what was kept before it puts a session together again.
//!
//! Three things are taken on trust from outside: that shuffling only
//! reorders ([`shuffle`]), what the clock says, and what the standard library
//! holds to be whitespace and lowercase ([`words`]).

pub mod actions;
pub mod cards;
mod clock;
pub mod dispatch;
pub mod game;
pub mod laws;
pub mod model;
pub mod render;
pub mod report;
pub mod restore;
pub mod session;
pub mod shuffle;
pub mod sink;
pub mod text;
pub mod values;
pub mod words;
