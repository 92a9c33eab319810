//! Per-player record: identity, hand, accumulated score, and the
//! interaction state machine that the turn engine drives.

use vstd::prelude::*;

use crate::card::{Card, Color, spec_can_be_played};

verus! {

/// Stable unique identity of a participant, as a plain 128-bit value.
#[derive(Clone, Copy, Debug, PartialEq, Eq, Structural, Hash)]
pub struct PlayerId(pub u128);

/// Interaction state of one player. The Uno-suffixed variants are entered
/// when the corresponding play also reduced the hand to one card.
#[derive(Clone, Copy, Debug, PartialEq, Eq, Structural)]
pub enum PlayerState {
    WaitingToPlay,
    PlayingCard,
    DrawingCard,
    ChoosingColorWild,
    ChoosingColorWildFour,
    ChoosingColorWildUno,
    ChoosingColorWildFourUno,
    Uno,
}

/// Whether `st` is one of the four color-choosing variants.
pub open spec fn is_choosing_color(st: PlayerState) -> bool {
    st == PlayerState::ChoosingColorWild || st == PlayerState::ChoosingColorWildFour
        || st == PlayerState::ChoosingColorWildUno || st == PlayerState::ChoosingColorWildFourUno
}

/// Whether `st` is a color-choosing variant born from a WildFour play.
pub open spec fn is_choosing_color_wild_four(st: PlayerState) -> bool {
    st == PlayerState::ChoosingColorWildFour || st == PlayerState::ChoosingColorWildFourUno
}

/// A participant: identity, hand (order irrelevant to the rules),
/// accumulated score, and interaction state.
#[derive(Clone, Debug)]
pub struct Player {
    pub id: PlayerId,
    pub hand: Vec<Card>,
    pub score: u32,
    pub state: PlayerState,
}

/// Whether some card of `hand` may legally be played on `top` under
/// `color`.
pub open spec fn spec_can_play(hand: Seq<Card>, top: Card, color: Color) -> bool {
    exists|i: int| 0 <= i < hand.len() && spec_can_be_played(hand[i], top, color)
}

impl Player {
    /// A fresh participant: empty hand, zero score, waiting for its turn.
    pub fn new(id: PlayerId) -> (p: Player)
        ensures
            p.id == id,
            p.hand@ =~= Seq::<Card>::empty(),
            p.score == 0,
            p.state == PlayerState::WaitingToPlay,
    {
        Player { id, hand: Vec::new(), score: 0, state: PlayerState::WaitingToPlay }
    }

    /// True iff at least one card in the hand passes the legality rule
    /// against the discard top and the current color.
    pub fn can_play(&self, top: Card, color: Color) -> (r: bool)
        ensures
            r == spec_can_play(self.hand@, top, color),
    {
        let mut i: usize = 0;
        while i < self.hand.len()
            invariant
                i <= self.hand@.len(),
                forall|j: int| 0 <= j < i ==> !spec_can_be_played(self.hand@[j], top, color),
            decreases self.hand@.len() - i,
        {
            if self.hand[i].can_be_played(top, color) {
                return true;
            }
            i = i + 1;
        }
        false
    }
}

} // verus!
