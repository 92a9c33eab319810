//! The typed game-level vocabulary: incoming commands from players and
//! outbound messages the engine addresses to individual recipients.

use vstd::prelude::*;

use crate::card::{Card, Color};
use crate::player::PlayerId;

verus! {

/// A validated command from one player, already mapped from the wire by the
/// adapter.
#[derive(Clone, Copy, Debug, PartialEq, Eq, Structural)]
pub enum GameCommand {
    PlayCard(Card),
    ColorChosen(Color),
    DrawCard,
    Uno,
    CounterUno,
}

/// One game-level event emitted by the engine.
#[derive(Clone, Copy, Debug, PartialEq, Eq, Structural)]
pub enum Message {
    YourPlayerId(PlayerId),
    CardValidation(bool),
    CardPlayed(Card),
    Uno,
    CounterUno,
    DrawCard(Card),
    PassTurn(PlayerId),
    HandSize(usize, PlayerId),
    CurrentColor(Color),
    HaveToDrawCard,
    StopUno,
    StopCounterUno,
    GameEnd(PlayerId),
    PlayerScore(u32, PlayerId),
}

/// An outbound message addressed to one recipient. The engine appends these
/// in emission order; the transport must deliver them in that order.
#[derive(Clone, Copy, Debug, PartialEq, Eq, Structural)]
pub struct Outbound {
    pub to: PlayerId,
    pub msg: Message,
}

} // verus!
