//! Server-side engine for an Uno-style card game, together with the
//! byte-level wire protocol that frames its commands.
//!
//! The crate is organised bottom-up: the card vocabulary and the deck, the
//! per-player record and its interaction state machine, the wire codec that
//! frames byte streams into packets, the adapter that maps packets to typed
//! game commands, and finally the turn engine that owns the whole game state
//! and answers commands with an ordered list of outbound messages.

pub mod adapter;
pub mod card;
pub mod deck;
pub mod game;
pub mod messages;
pub mod packet;
pub mod player;
