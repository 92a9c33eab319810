//! The card vocabulary: play colors, card values, and the legality rule
//! that decides which cards may be played on the current discard top.

use vstd::prelude::*;

verus! {

/// One of the four play colors, or the neutral marker carried by wild cards.
#[derive(Clone, Copy, Debug, PartialEq, Eq, Structural)]
pub enum Color {
    Red,
    Yellow,
    Green,
    Blue,
    Black,
}

/// A card face: the ten numbers or one of the five action kinds.
#[derive(Clone, Copy, Debug, PartialEq, Eq, Structural)]
pub enum Value {
    Zero,
    One,
    Two,
    Three,
    Four,
    Five,
    Six,
    Seven,
    Eight,
    Nine,
    Skip,
    Reverse,
    DrawTwo,
    Wild,
    WildFour,
}

/// An immutable card; equality is by `(color, value)`.
#[derive(Clone, Copy, Debug, PartialEq, Eq, Structural)]
pub struct Card {
    pub color: Color,
    pub value: Value,
}

/// A wild-family card is playable regardless of the current color.
pub open spec fn is_wild(c: Card) -> bool {
    c.value == Value::Wild || c.value == Value::WildFour
}

/// A plain colored number card: what the initial discard flip looks for.
pub open spec fn is_plain(c: Card) -> bool {
    c.color != Color::Black && !(c.value == Value::Skip || c.value == Value::Reverse
        || c.value == Value::DrawTwo || c.value == Value::Wild || c.value == Value::WildFour)
}

/// Legality of playing `c` when `top` is the discard top and `color` the
/// current color: share the color, share the value, or be wild.
pub open spec fn spec_can_be_played(c: Card, top: Card, color: Color) -> bool {
    c.color == color || c.value == top.value || is_wild(c)
}

/// Points a leftover card is worth when scores are computed at game end.
pub open spec fn spec_points(v: Value) -> u32 {
    match v {
        Value::Zero => 0u32,
        Value::One => 1u32,
        Value::Two => 2u32,
        Value::Three => 3u32,
        Value::Four => 4u32,
        Value::Five => 5u32,
        Value::Six => 6u32,
        Value::Seven => 7u32,
        Value::Eight => 8u32,
        Value::Nine => 9u32,
        Value::Skip => 20u32,
        Value::Reverse => 20u32,
        Value::DrawTwo => 20u32,
        Value::Wild => 50u32,
        Value::WildFour => 50u32,
    }
}

impl Card {
    /// A card may be played iff it shares color or value with the discard
    /// top, or is a wild card; wild cards are always legal.
    pub fn can_be_played(self, top: Card, current_color: Color) -> (r: bool)
        ensures
            r == spec_can_be_played(self, top, current_color),
    {
        self.color == current_color || self.value == top.value || self.value == Value::Wild
            || self.value == Value::WildFour
    }

    /// Score value of this card's face.
    pub fn points(self) -> (r: u32)
        ensures
            r == spec_points(self.value),
    {
        match self.value {
            Value::Zero => 0,
            Value::One => 1,
            Value::Two => 2,
            Value::Three => 3,
            Value::Four => 4,
            Value::Five => 5,
            Value::Six => 6,
            Value::Seven => 7,
            Value::Eight => 8,
            Value::Nine => 9,
            Value::Skip => 20,
            Value::Reverse => 20,
            Value::DrawTwo => 20,
            Value::Wild => 50,
            Value::WildFour => 50,
        }
    }
}

/// Every wild card is always playable, whatever the discard top and the
/// current color are.
pub proof fn lemma_wild_always_playable(c: Card, top: Card, color: Color)
    requires
        is_wild(c),
    ensures
        spec_can_be_played(c, top, color),
{
}

} // verus!
